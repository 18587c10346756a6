//! One entry of the power-supply directory, with the attribute texts read from it.

use crate::error::PowerError;
use crate::text::{
    all_whitespace, lemma_trim_end_ignores_trailing, lemma_trim_end_splits, parse_i8, parse_u64,
    push_signed_decimal, read_i8, read_u64, signed_decimal, trim_end, trim_trailing,
};
use vstd::prelude::*;
use vstd::string::*;

verus! {

/// The directory under which the operating system lists its power supplies.
pub const POWER_PATH: &'static str = "/sys/class/power_supply";

/// The names of the attributes that are read of an entry, which are the names of their
/// files: `type`, `capacity`, `status`, `energy_now` and `power_now`.
pub fn prop_names() -> (names: Vec<&'static str>)
    ensures
        names@.len() == 5,
        names@[0]@ == "type"@,
        names@[1]@ == "capacity"@,
        names@[2]@ == "status"@,
        names@[3]@ == "energy_now"@,
        names@[4]@ == "power_now"@,
{
    let mut names: Vec<&'static str> = Vec::new();
    names.push("type");
    names.push("capacity");
    names.push("status");
    names.push("energy_now");
    names.push("power_now");
    names
}

/// `path` without the separators at its end.
pub open spec fn strip_separators(path: Seq<char>) -> Seq<char>
    decreases path.len(),
{
    if path.len() > 0 && path.last() == '/' {
        strip_separators(path.drop_last())
    } else {
        path
    }
}

/// What follows the last separator of `path`; all of `path` when it has none.
pub open spec fn last_segment(path: Seq<char>) -> Seq<char>
    decreases path.len(),
{
    if path.len() == 0 || path.last() == '/' {
        Seq::empty()
    } else {
        last_segment(path.drop_last()).push(path.last())
    }
}

/// The final segment of `path`, separators at the end of `path` set aside. A segment
/// `.` or `..` is a name like any other, and a path without a segment has the empty name.
pub open spec fn entry_name(path: Seq<char>) -> Seq<char> {
    last_segment(strip_separators(path))
}

/// Where the attribute `prop_name` of the entry at `base` is kept: under `base`, one
/// separator between the two.
pub open spec fn join_path(base: Seq<char>, prop_name: Seq<char>) -> Seq<char> {
    if base.len() == 0 || base.last() == '/' {
        base + prop_name
    } else {
        base + seq!['/'] + prop_name
    }
}

/// One attribute as it was read: the name of its file and the file's whole text.
#[derive(Debug, PartialEq, Eq)]
struct Prop {
    name: String,
    contents: String,
}

/// The attributes that a list of reads leaves behind: a later read of a name replaces
/// an earlier one.
spec fn props_map(props: Seq<Prop>) -> Map<Seq<char>, Seq<char>>
    decreases props.len(),
{
    if props.len() == 0 {
        Map::empty()
    } else {
        props_map(props.drop_last()).insert(props.last().name@, props.last().contents@)
    }
}

/// A power supply entry: its directory path and the attributes that could be read.
/// An attribute whose file is missing or unreadable is simply absent.
#[derive(Debug, PartialEq, Eq)]
pub struct PowerSupply {
    base_path: String,
    props: Vec<Prop>,
}

/// What a `PowerSupply` stands for.
pub struct PowerSupplyView {
    pub base_path: Seq<char>,
    pub props: Map<Seq<char>, Seq<char>>,
}

impl View for PowerSupply {
    type V = PowerSupplyView;

    closed spec fn view(&self) -> PowerSupplyView {
        PowerSupplyView { base_path: self.base_path@, props: props_map(self.props@) }
    }
}

impl PowerSupplyView {
    /// The text of attribute `prop_name` without its trailing whitespace, if the entry has
    /// the attribute.
    pub open spec fn text(self, prop_name: Seq<char>) -> Option<Seq<char>> {
        if self.props.contains_key(prop_name) {
            Some(trim_end(self.props[prop_name]))
        } else {
            None
        }
    }

    /// The name of the entry: the final segment of its path.
    pub open spec fn name(self) -> Seq<char> {
        entry_name(self.base_path)
    }

    /// Where the file of attribute `prop_name` is kept.
    pub open spec fn prop_path(self, prop_name: Seq<char>) -> Seq<char> {
        join_path(self.base_path, prop_name)
    }

    /// Whether the entry is a battery: its `type` reads exactly `Battery`.
    pub open spec fn is_battery(self) -> Result<bool, PowerError> {
        match self.text("type"@) {
            Some(t) => Ok(t == "Battery"@),
            None => Err(PowerError),
        }
    }

    /// The charge in percent: `capacity`, read as an `i8`.
    pub open spec fn percent(self) -> Result<i8, PowerError> {
        match self.text("capacity"@) {
            Some(t) => match parse_i8(t) {
                Some(v) => Ok(v),
                None => Err(PowerError),
            },
            None => Err(PowerError),
        }
    }

    /// The charging status: `status`, as it reads.
    pub open spec fn status(self) -> Result<Seq<char>, PowerError> {
        match self.text("status"@) {
            Some(t) => Ok(t),
            None => Err(PowerError),
        }
    }

    /// A whole number of micro-units under `prop_name`.
    pub open spec fn reading(self, prop_name: Seq<char>) -> Result<u64, PowerError> {
        match self.text(prop_name) {
            Some(t) => match parse_u64(t) {
                Some(v) => Ok(v),
                None => Err(PowerError),
            },
            None => Err(PowerError),
        }
    }

    /// The energy left, in microwatt-hours: `energy_now`.
    pub open spec fn energy_now(self) -> Result<u64, PowerError> {
        self.reading("energy_now"@)
    }

    /// The power drawn, in microwatts: `power_now`.
    pub open spec fn power_now(self) -> Result<u64, PowerError> {
        self.reading("power_now"@)
    }

    /// The line that reports the entry: `<name>: <percent>% (<status>)`.
    pub open spec fn report_line(self) -> Result<Seq<char>, PowerError> {
        match (self.percent(), self.status()) {
            (Ok(percent), Ok(status)) => Ok(
                self.name() + ": "@ + signed_decimal(percent as int) + "% ("@ + status + ")"@,
            ),
            _ => Err(PowerError),
        }
    }
}

/// An entry is a battery exactly when its `type` is `Battery` followed by nothing but
/// whitespace; with any other `type` it is none.
pub proof fn lemma_battery_type(entry: PowerSupplyView)
    requires
        entry.props.contains_key("type"@),
    ensures
        entry.is_battery() is Ok,
        entry.is_battery() == Ok::<bool, PowerError>(true) <==> exists|ws: Seq<char>|
            #[trigger] all_whitespace(ws) && entry.props["type"@] == "Battery"@ + ws,
{
    reveal_strlit("Battery");
    let contents = entry.props["type"@];
    if entry.is_battery() == Ok::<bool, PowerError>(true) {
        lemma_trim_end_splits(contents);
        let ws = contents.skip(trim_end(contents).len() as int);
        assert(contents == "Battery"@ + ws);
    }
    if exists|ws: Seq<char>| #[trigger] all_whitespace(ws) && contents == "Battery"@ + ws {
        let ws = choose|ws: Seq<char>| #[trigger] all_whitespace(ws) && contents == "Battery"@ + ws;
        lemma_trim_end_ignores_trailing("Battery"@, ws);
    }
}

/// Whitespace after the text of an attribute changes nothing that is read from it.
pub proof fn lemma_trailing_whitespace_ignored(
    entry: PowerSupplyView,
    prop_name: Seq<char>,
    ws: Seq<char>,
)
    requires
        entry.props.contains_key(prop_name),
        all_whitespace(ws),
    ensures
        (PowerSupplyView {
            base_path: entry.base_path,
            props: entry.props.insert(prop_name, entry.props[prop_name] + ws),
        }).text(prop_name) == entry.text(prop_name),
{
    lemma_trim_end_ignores_trailing(entry.props[prop_name], ws);
}

impl PowerSupply {
    /// An entry at `path` of which no attribute has been read yet.
    pub fn new(path: String) -> (ps: PowerSupply)
        ensures
            ps@ == (PowerSupplyView { base_path: path@, props: Map::empty() }),
    {
        PowerSupply { base_path: path, props: Vec::new() }
    }

    /// Records that the file of attribute `prop_name` held `contents`.
    pub fn set_prop(&mut self, prop_name: &str, contents: String)
        ensures
            final(self)@ == (PowerSupplyView {
                base_path: old(self)@.base_path,
                props: old(self)@.props.insert(prop_name@, contents@),
            }),
    {
        let prop = Prop { name: String::from_str(prop_name), contents };
        assert(self.props@.push(prop).drop_last() == self.props@);
        self.props.push(prop);
    }

    /// The whole text recorded for `prop_name`.
    fn find(&self, prop_name: &str) -> (r: Option<&String>)
        ensures
            match r {
                Some(contents) => self@.props.contains_key(prop_name@) && contents@
                    == self@.props[prop_name@],
                None => !self@.props.contains_key(prop_name@),
            },
    {
        let key = String::from_str(prop_name);
        let mut i: usize = self.props.len();
        assert(self.props@.take(i as int) == self.props@);
        while i > 0
            invariant
                i <= self.props.len(),
                key@ == prop_name@,
                props_map(self.props@).contains_key(key@) == props_map(
                    self.props@.take(i as int),
                ).contains_key(key@),
                props_map(self.props@).contains_key(key@) ==> props_map(self.props@)[key@]
                    == props_map(self.props@.take(i as int))[key@],
            decreases i,
        {
            i -= 1;
            assert(self.props@.take(i + 1).drop_last() == self.props@.take(i as int));
            if self.props[i].name == key {
                return Some(&self.props[i].contents);
            }
        }
        None
    }

    /// Reads attribute `prop_name`: its text without trailing whitespace, or the error
    /// when the entry has no such attribute.
    pub fn read_prop(&self, prop_name: &str) -> (r: Result<&str, PowerError>)
        ensures
            match r {
                Ok(t) => self@.text(prop_name@) == Some(t@),
                Err(_) => self@.text(prop_name@) is None,
            },
    {
        match self.find(prop_name) {
            Some(contents) => Ok(trim_trailing(contents.as_str())),
            None => Err(PowerError),
        }
    }

    /// The name of the entry.
    pub fn name(&self) -> (r: &str)
        ensures
            r@ == self@.name(),
    {
        let path = self.base_path.as_str();
        let mut end: usize = path.unicode_len();
        assert(path@.take(end as int) == path@);
        while end > 0
            invariant_except_break
                end <= path@.len(),
                strip_separators(path@) == strip_separators(path@.take(end as int)),
            ensures
                end <= path@.len(),
                strip_separators(path@) == path@.take(end as int),
            decreases end,
        {
            if path.get_char(end - 1) != '/' {
                break;
            }
            assert(path@.take(end as int).drop_last() == path@.take(end - 1));
            end -= 1;
        }
        let mut start: usize = end;
        while start > 0
            invariant_except_break
                start <= end <= path@.len(),
                last_segment(path@.take(end as int)) == last_segment(path@.take(start as int))
                    + path@.subrange(start as int, end as int),
            ensures
                start <= end <= path@.len(),
                last_segment(path@.take(end as int)) == path@.subrange(start as int, end as int),
            decreases start,
        {
            if path.get_char(start - 1) == '/' {
                break;
            }
            proof {
                assert(path@.take(start as int).drop_last() == path@.take(start - 1));
                assert(seq![path@[start - 1]] + path@.subrange(start as int, end as int)
                    == path@.subrange(start - 1, end as int));
            }
            start -= 1;
        }
        path.substring_char(start, end)
    }

    /// The path of the file that holds attribute `prop_name`.
    pub fn prop_path(&self, prop_name: &str) -> (r: String)
        ensures
            r@ == self@.prop_path(prop_name@),
    {
        let base = self.base_path.as_str();
        let len: usize = base.unicode_len();
        let mut path = String::from_str(base);
        if len > 0 && base.get_char(len - 1) != '/' {
            proof {
                reveal_strlit("/");
            }
            path.append("/");
        }
        path.append(prop_name);
        path
    }

    /// Whether the entry is a battery.
    pub fn is_battery(&self) -> (r: Result<bool, PowerError>)
        ensures
            r == self@.is_battery(),
    {
        match self.read_prop("type") {
            Ok(t) => Ok(String::from_str(t) == String::from_str("Battery")),
            Err(e) => Err(e),
        }
    }

    /// The charge in percent.
    pub fn percent(&self) -> (r: Result<i8, PowerError>)
        ensures
            r == self@.percent(),
    {
        match self.read_prop("capacity") {
            Ok(t) => match read_i8(t) {
                Some(v) => Ok(v),
                None => Err(PowerError),
            },
            Err(e) => Err(e),
        }
    }

    /// The charging status.
    pub fn status(&self) -> (r: Result<String, PowerError>)
        ensures
            match r {
                Ok(t) => self@.status() == Ok::<Seq<char>, PowerError>(t@),
                Err(_) => self@.status() is Err,
            },
    {
        match self.read_prop("status") {
            Ok(t) => Ok(String::from_str(t)),
            Err(e) => Err(e),
        }
    }

    fn reading(&self, prop_name: &str) -> (r: Result<u64, PowerError>)
        ensures
            r == self@.reading(prop_name@),
    {
        match self.read_prop(prop_name) {
            Ok(t) => match read_u64(t) {
                Some(v) => Ok(v),
                None => Err(PowerError),
            },
            Err(e) => Err(e),
        }
    }

    /// The energy left, in microwatt-hours.
    pub fn energy_now(&self) -> (r: Result<u64, PowerError>)
        ensures
            r == self@.energy_now(),
    {
        self.reading("energy_now")
    }

    /// The power drawn, in microwatts.
    pub fn power_now(&self) -> (r: Result<u64, PowerError>)
        ensures
            r == self@.power_now(),
    {
        self.reading("power_now")
    }

    /// The line that reports the entry.
    pub fn report_line(&self) -> (r: Result<String, PowerError>)
        ensures
            match r {
                Ok(line) => self@.report_line() == Ok::<Seq<char>, PowerError>(line@),
                Err(_) => self@.report_line() is Err,
            },
    {
        let percent: i8 = match self.percent() {
            Ok(v) => v,
            Err(e) => { return Err(e); },
        };
        let status = match self.read_prop("status") {
            Ok(t) => t,
            Err(e) => { return Err(e); },
        };
        let mut line = String::from_str(self.name());
        line.append(": ");
        push_signed_decimal(&mut line, percent as i64);
        line.append("% (");
        line.append(status);
        line.append(")");
        Ok(line)
    }
}

} // verus!
