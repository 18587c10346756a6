//! Battery status and estimated runtime, from the attribute files of the power supplies
//! that the operating system lists.
//!
//! The library reads no file itself. A caller lists the entries under
//! [`POWER_PATH`], makes a [`PowerSupply`] of each, and hands it the text of the
//! attribute files it could read ([`prop_names`] says which, [`PowerSupply::prop_path`]
//! where). From there on everything is decided here: which entries are batteries
//! ([`select_batteries`]), what is reported of each, and how long they last together
//! ([`combined_runtime`], [`format_time`], [`report`]).

pub mod error;
pub mod report;
pub mod runtime;
pub mod supply;
pub mod text;

pub use crate::error::PowerError;
pub use crate::report::{report, select_batteries, summary_line};
pub use crate::runtime::{combined_runtime, estimate_runtime, format_time, Runtime};
pub use crate::supply::{prop_names, PowerSupply, POWER_PATH};
