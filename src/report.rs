use vstd::prelude::*;
use vstd::string::*;

use crate::decimal::fixed_text;
use crate::device::{SmartDevice, Thermometer};

verus! {

/// A one-line account of an item.
pub trait Report {
    spec fn report_text(&self) -> Seq<char>;

    fn report(&self) -> (r: String)
        ensures
            r@ == self.report_text(),
    ;
}

/// A row of a device table: name, state and value in fixed-width columns.
pub trait Reportable {
    spec fn report_row(&self) -> Seq<char>;

    fn generate_report(&self) -> (r: String)
        ensures
            r@ == self.report_row(),
    ;
}

/// Collects the accounts of several items, in the order they were added.
pub struct Reporter {
    entries: Vec<String>,
}

impl View for Reporter {
    type V = Seq<Seq<char>>;

    closed spec fn view(&self) -> Seq<Seq<char>> {
        self.entries@.map_values(|s: String| s@)
    }
}

impl Reporter {
    pub fn new() -> (r: Reporter)
        ensures
            r@ == Seq::<Seq<char>>::empty(),
    {
        let r = Reporter { entries: Vec::new() };
        assert(r@ =~= Seq::<Seq<char>>::empty());
        r
    }

    pub fn add<T: Report>(self, item: &T) -> (r: Reporter)
        ensures
            r@ == self@.push(item.report_text()),
    {
        let mut entries = self.entries;
        let ghost before = entries@;
        entries.push(item.report());
        let r = Reporter { entries };
        assert(r@ =~= before.map_values(|s: String| s@).push(item.report_text()));
        r
    }

    /// The collected accounts, first added first.
    pub fn into_entries(self) -> (r: Vec<String>)
        ensures
            r@.map_values(|s: String| s@) == self@,
    {
        self.entries
    }
}

pub open spec fn spaces(n: int) -> Seq<char> {
    Seq::new(n as nat, |i: int| ' ')
}

/// `s` followed by spaces up to `width` characters.
pub open spec fn pad_right(s: Seq<char>, width: int) -> Seq<char> {
    if s.len() < width {
        s + spaces(width - s.len())
    } else {
        s
    }
}

/// `s` preceded by spaces up to `width` characters.
pub open spec fn pad_left(s: Seq<char>, width: int) -> Seq<char> {
    if s.len() < width {
        spaces(width - s.len()) + s
    } else {
        s
    }
}

/// Appends `n` spaces.
fn push_spaces(out: &mut String, n: usize)
    ensures
        final(out)@ == old(out)@ + spaces(n as int),
{
    let mut i: usize = 0;
    while i < n
        invariant
            i <= n,
            out@ == old(out)@ + spaces(i as int),
        decreases n - i,
    {
        out.append(" ");
        proof {
            reveal_strlit(" ");
        }
        i = i + 1;
        assert(out@ =~= old(out)@ + spaces(i as int));
    }
}

/// Appends `s`, then spaces up to `width` characters.
fn push_padded_right(out: &mut String, s: &str, width: usize)
    ensures
        final(out)@ == old(out)@ + pad_right(s@, width as int),
{
    out.append(s);
    let n = s.unicode_len();
    if n < width {
        push_spaces(out, width - n);
        assert(out@ =~= old(out)@ + pad_right(s@, width as int));
    }
}

/// Appends spaces up to `width` characters, then `s`.
fn push_padded_left(out: &mut String, s: &str, width: usize)
    ensures
        final(out)@ == old(out)@ + pad_left(s@, width as int),
{
    let n = s.unicode_len();
    if n < width {
        push_spaces(out, width - n);
    }
    out.append(s);
    assert(out@ =~= old(out)@ + pad_left(s@, width as int));
}

/// A device table row: name and state in columns of fourteen characters,
/// then the value right-aligned in six.
pub open spec fn table_row(name: Seq<char>, state: Seq<char>, value: Seq<char>) -> Seq<char> {
    pad_right(name, 14) + pad_right(state, 14) + pad_left(value, 6)
}

pub fn format_row(name: &str, state: &str, value: &str) -> (r: String)
    ensures
        r@ == table_row(name@, state@, value@),
{
    let mut out = String::new();
    push_padded_right(&mut out, name, 14);
    push_padded_right(&mut out, state, 14);
    push_padded_left(&mut out, value, 6);
    assert(out@ =~= table_row(name@, state@, value@));
    out
}

impl SmartDevice {
    /// The device's row of a device table. Asking for its state and value is
    /// a round trip through its transport, hence `&mut`.
    pub fn generate_report(&mut self) -> (r: String)
        ensures
            r@ == table_row(
                old(self).name_of(),
                old(self).state_of(),
                fixed_text(old(self).value_of().milli as int),
            ),
            *final(self) == *old(self),
    {
        let name = self.get_name();
        let state = self.get_state();
        let value = self.get_value().to_text();
        format_row(name.as_str(), state.as_str(), value.as_str())
    }
}

impl Report for Thermometer {
    open spec fn report_text(&self) -> Seq<char> {
        "Thermometer state: "@ + (if self.on {
            "ON"@
        } else {
            "OFF"@
        }) + ", temperature: "@ + fixed_text(self.shown_value().milli as int)
    }

    fn report(&self) -> (r: String) {
        let mut out = String::from_str("Thermometer state: ");
        let state = self.get_state();
        out.append(state.as_str());
        out.append(", temperature: ");
        let value = self.get_value().to_text();
        out.append(value.as_str());
        out
    }
}

impl Reportable for Thermometer {
    open spec fn report_row(&self) -> Seq<char> {
        table_row(
            "Thermometer"@,
            if self.on {
                "ON"@
            } else {
                "OFF"@
            },
            fixed_text(self.shown_value().milli as int),
        )
    }

    fn generate_report(&self) -> (r: String) {
        let name = self.get_name();
        let state = self.get_state();
        let value = self.get_value().to_text();
        format_row(name.as_str(), state.as_str(), value.as_str())
    }
}

} // verus!
