use vstd::prelude::*;
use crate::builtins::bool_::SoxBool;
use crate::object::{SoxObject, SoxRef};

verus! {

/// The digit `d`, which is below ten, as text.
pub open spec fn digit_text(d: int) -> Seq<char> {
    if d == 0 {
        "0"@
    } else if d == 1 {
        "1"@
    } else if d == 2 {
        "2"@
    } else if d == 3 {
        "3"@
    } else if d == 4 {
        "4"@
    } else if d == 5 {
        "5"@
    } else if d == 6 {
        "6"@
    } else if d == 7 {
        "7"@
    } else if d == 8 {
        "8"@
    } else {
        "9"@
    }
}

/// A natural number in decimal, without leading zeros.
pub open spec fn digits(n: nat) -> Seq<char>
    decreases n,
{
    if n < 10 {
        digit_text(n as int)
    } else {
        digits(n / 10) + digit_text((n % 10) as int)
    }
}

/// An integer in decimal, with `-` before a negative one.
pub open spec fn decimal(i: int) -> Seq<char> {
    if i < 0 {
        "-"@ + digits((-i) as nat)
    } else {
        digits(i as nat)
    }
}

/// The digit `d` as text.
fn digit_str(d: u64) -> (r: &'static str)
    requires
        d < 10,
    ensures
        r@ == digit_text(d as int),
{
    match d {
        0 => "0",
        1 => "1",
        2 => "2",
        3 => "3",
        4 => "4",
        5 => "5",
        6 => "6",
        7 => "7",
        8 => "8",
        _ => "9",
    }
}

/// Appends a natural number in decimal.
pub fn append_digits(s: &mut String, n: u64)
    ensures
        final(s)@ == old(s)@ + digits(n as nat),
    decreases n,
{
    if n >= 10 {
        append_digits(s, n / 10);
        s.append(digit_str(n % 10));
        assert(final(s)@ =~= old(s)@ + digits(n as nat));
    } else {
        s.append(digit_str(n));
    }
}

/// A 64-bit signed integer value.
#[derive(Debug, Clone, Copy, PartialEq, Eq, Structural)]
pub struct SoxInt {
    pub value: i64,
}

impl SoxInt {
    pub fn new(val: i64) -> (r: Self)
        ensures
            r.value == val,
    {
        SoxInt { value: val }
    }

    /// The integer behind a shared reference.
    pub fn into_ref(self) -> (r: SoxRef<SoxInt>)
        ensures
            *r.val == self,
    {
        SoxRef::new(self)
    }

    /// The integer as a runtime value.
    pub fn into_sox_obj<'a>(self) -> (r: SoxObject<'a>)
        ensures
            r == SoxObject::<'a>::Int(self),
    {
        SoxObject::Int(self)
    }

    /// What is shown to the user: the integer in decimal.
    pub fn repr(&self) -> (r: String)
        ensures
            r@ == decimal(self.value as int),
    {
        let v = self.value;
        let mut s = String::new();
        if v < 0 {
            let magnitude: u64 = ((-(v + 1)) as u64) + 1;
            s.append("-");
            append_digits(&mut s, magnitude);
            assert(s@ =~= decimal(v as int));
        } else {
            append_digits(&mut s, v as u64);
            assert(s@ =~= decimal(v as int));
        }
        s
    }

    /// An integer equals another integer of the same value. Against a
    /// fractional number the answer needs arithmetic that this method does not
    /// do: it answers `false` for every operand that is not an integer.
    pub fn equals(&self, rhs: &SoxObject) -> (r: SoxBool)
        ensures
            r.value == (rhs matches SoxObject::Int(i) && i.value == self.value),
    {
        match rhs {
            SoxObject::Int(other) => SoxBool::new(self.value == other.value),
            _ => SoxBool::new(false),
        }
    }
}

} // verus!
