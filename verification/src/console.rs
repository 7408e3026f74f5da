//! Text for the firmware's console.
//!
//! The console takes UCS-2 characters. A string is sent one character at a
//! time, and a carriage return follows every line feed, which the console
//! needs for a proper new line.

use vstd::prelude::*;
use vstd::string::StrSliceExecFns;
use crate::uefi::Char16;

verus! {

/// The UCS-2 character that the console is sent for `c`: the low 16 bits
/// of its code.
pub open spec fn unit_of(c: char) -> Char16 {
    Char16(((c as u32) % 0x1_0000) as u16)
}

/// The characters that the console is sent for `c`: the character itself
/// and, behind a line feed, a carriage return.
pub open spec fn units_of(c: char) -> Seq<Char16> {
    if c == '\n' {
        seq![unit_of(c), Char16(0x0d)]
    } else {
        seq![unit_of(c)]
    }
}

/// The characters that the console is sent for the first `count`
/// characters of `text`.
pub open spec fn console_units(text: Seq<char>, count: nat) -> Seq<Char16>
    decreases count,
{
    if count == 0 {
        Seq::empty()
    } else {
        console_units(text, (count - 1) as nat) + units_of(text[count - 1])
    }
}

/// Collects the characters that are to be sent to the console.
pub struct Writer {
    units: Vec<Char16>,
}

impl View for Writer {
    type V = Seq<Char16>;

    /// The characters collected so far, in the order in which they are to
    /// be sent.
    closed spec fn view(&self) -> Seq<Char16> {
        self.units@
    }
}

impl Writer {
    /// A writer that has collected nothing.
    pub fn new() -> (writer: Self)
        ensures
            writer@ == Seq::<Char16>::empty(),
    {
        Writer { units: Vec::new() }
    }

    /// Collects the characters for `string`: each of its characters, and a
    /// carriage return behind every line feed.
    pub fn write_str(&mut self, string: &str)
        ensures
            final(self)@ == old(self)@ + console_units(string@, string@.len()),
    {
        let len = string.unicode_len();
        let mut i: usize = 0;
        while i < len
            invariant
                i <= len,
                len == string@.len(),
                self@ == old(self)@ + console_units(string@, i as nat),
            decreases len - i,
        {
            let c = string.get_char(i);
            let unit = Char16(((c as u32) % 0x1_0000) as u16);
            self.units.push(unit);
            // Carriage returns are required for proper newlines in UEFI
            if c == '\n' {
                self.units.push(Char16(0x0d));
            }
            proof {
                assert(console_units(string@, (i + 1) as nat) == console_units(string@, i as nat)
                    + units_of(string@[i as int]));
                assert(self@ =~= old(self)@ + console_units(string@, (i + 1) as nat));
            }
            i += 1;
        }
    }

    /// The characters collected so far, with a 0 behind them as the
    /// console expects it at the end of a string. The writer starts
    /// afresh.
    pub fn take(&mut self) -> (units: Vec<Char16>)
        ensures
            units@ == old(self)@.push(Char16(0)),
            final(self)@ == Seq::<Char16>::empty(),
    {
        let mut units = Vec::new();
        core::mem::swap(&mut units, &mut self.units);
        units.push(Char16(0));
        units
    }
}

} // verus!
