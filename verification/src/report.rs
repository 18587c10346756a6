//! The report: one line for each battery, then the combined runtime.

use crate::error::PowerError;
use crate::runtime::{combined, combined_runtime, format_time, time_text, Runtime};
use crate::supply::PowerSupply;
use vstd::prelude::*;
use vstd::string::*;

verus! {

/// Whether every entry can be classified: its `type` can be read.
pub open spec fn classifiable(entries: Seq<PowerSupply>) -> bool {
    forall|i: int| 0 <= i < entries.len() ==> (#[trigger] entries[i])@.is_battery() is Ok
}

/// Whether `entry` is known to be a battery.
pub open spec fn battery(entry: PowerSupply) -> bool {
    entry@.is_battery() == Ok::<bool, PowerError>(true)
}

/// The batteries among `entries`, in the order of `entries`.
pub open spec fn batteries_of(entries: Seq<PowerSupply>) -> Seq<PowerSupply> {
    entries.filter(|entry: PowerSupply| battery(entry))
}

proof fn lemma_batteries_of_push(entries: Seq<PowerSupply>, entry: PowerSupply)
    ensures
        batteries_of(entries.push(entry)) == if battery(entry) {
            batteries_of(entries).push(entry)
        } else {
            batteries_of(entries)
        },
{
    entries.lemma_filter_push(entry, |entry: PowerSupply| battery(entry));
}

/// Keeps the batteries among `entries`, in their order. An entry that cannot be
/// classified is an error, whatever the other entries are.
pub fn select_batteries(entries: Vec<PowerSupply>) -> (r: Result<Vec<PowerSupply>, PowerError>)
    ensures
        match r {
            Ok(batteries) => classifiable(entries@) && batteries@ == batteries_of(entries@),
            Err(_) => !classifiable(entries@),
        },
{
    let ghost all = entries@;
    let mut batteries: Vec<PowerSupply> = Vec::new();
    for entry in it: entries
        invariant
            it.seq() == all,
            forall|j: int| 0 <= j < it.index() ==> (#[trigger] all[j])@.is_battery() is Ok,
            batteries@ == batteries_of(all.take(it.index() as int)),
    {
        proof {
            assert(all.take(it.index() + 1) == all.take(it.index() as int).push(entry));
            lemma_batteries_of_push(all.take(it.index() as int), entry);
        }
        match entry.is_battery() {
            Ok(true) => batteries.push(entry),
            Ok(false) => {},
            Err(e) => {
                return Err(e);
            },
        }
    }
    assert(all.take(all.len() as int) == all);
    Ok(batteries)
}

/// The line that closes the report.
pub open spec fn summary_text(d: Runtime) -> Seq<char> {
    "Estimated runtime (all batteries): "@ + time_text(d)
}

/// The line that closes the report.
pub fn summary_line(d: Runtime) -> (r: String)
    ensures
        r@ == summary_text(d),
{
    let mut line = String::from_str("Estimated runtime (all batteries): ");
    let time = format_time(d);
    line.append(time.as_str());
    line
}

/// Whether every battery can be reported: its `capacity` reads as a percentage and its
/// `status` can be read.
pub open spec fn reportable(batteries: Seq<PowerSupply>) -> bool {
    forall|i: int| 0 <= i < batteries.len() ==> (#[trigger] batteries[i])@.report_line() is Ok
}

/// The lines that report `batteries`, one for each, in their order.
pub open spec fn battery_lines(batteries: Seq<PowerSupply>) -> Seq<Seq<char>> {
    Seq::new(
        batteries.len(),
        |i: int|
            match batteries[i]@.report_line() {
                Ok(line) => line,
                Err(_) => Seq::empty(),
            },
    )
}

/// The whole report on `batteries`: their lines, then the summary. There is no report
/// when any battery cannot be reported or lacks a reading.
pub open spec fn report_text(batteries: Seq<PowerSupply>) -> Result<Seq<Seq<char>>, PowerError> {
    if reportable(batteries) {
        match combined(batteries) {
            Ok(d) => Ok(battery_lines(batteries).push(summary_text(d))),
            Err(e) => Err(e),
        }
    } else {
        Err(PowerError)
    }
}

/// With no battery there is nothing to draw from, and the report is one line that says
/// so: the runtime is unknown.
pub proof fn lemma_no_batteries_unknown()
    ensures
        combined(Seq::<PowerSupply>::empty()) == Ok::<Runtime, PowerError>(Runtime::Unknown),
        report_text(Seq::<PowerSupply>::empty()) == Ok::<Seq<Seq<char>>, PowerError>(
            seq!["Estimated runtime (all batteries): "@ + "unknown"@],
        ),
{
    let none = Seq::<PowerSupply>::empty();
    assert(battery_lines(none).push(summary_text(Runtime::Unknown)) == seq![
        summary_text(Runtime::Unknown),
    ]);
}

/// Writes the whole report on `batteries`, or fails without a line of it.
pub fn report(batteries: &[PowerSupply]) -> (r: Result<Vec<String>, PowerError>)
    ensures
        match r {
            Ok(lines) => report_text(batteries@) == Ok::<Seq<Seq<char>>, PowerError>(
                lines.deep_view(),
            ),
            Err(_) => report_text(batteries@) is Err,
        },
{
    let mut lines: Vec<String> = Vec::new();
    let mut i: usize = 0;
    while i < batteries.len()
        invariant
            i <= batteries@.len(),
            forall|j: int| 0 <= j < i ==> (#[trigger] batteries@[j])@.report_line() is Ok,
            lines.deep_view() == battery_lines(batteries@.take(i as int)),
        decreases batteries@.len() - i,
    {
        let ghost before = lines.deep_view();
        match batteries[i].report_line() {
            Ok(line) => {
                lines.push(line);
                assert(lines.deep_view() == before.push(line@));
            },
            Err(e) => {
                return Err(e);
            },
        }
        i += 1;
    }
    assert(batteries@.take(i as int) == batteries@);
    let ghost before = lines.deep_view();
    match combined_runtime(batteries) {
        Ok(d) => {
            let summary = summary_line(d);
            lines.push(summary);
            assert(lines.deep_view() == before.push(summary@));
            Ok(lines)
        },
        Err(e) => Err(e),
    }
}

} // verus!
