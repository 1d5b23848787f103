//! A stage position as shown in a menu: the value and its decimal text.
use vstd::prelude::*;

verus! {

/// Decimal digits of a natural number, most significant first.
pub open spec fn digits(n: nat) -> Seq<char>
    decreases n,
{
    if n < 10 {
        seq![digit_char(n)]
    } else {
        digits(n / 10) + seq![digit_char(n % 10)]
    }
}

/// The character of a decimal digit.
pub open spec fn digit_char(d: nat) -> char {
    if d == 0 { '0' }
    else if d == 1 { '1' }
    else if d == 2 { '2' }
    else if d == 3 { '3' }
    else if d == 4 { '4' }
    else if d == 5 { '5' }
    else if d == 6 { '6' }
    else if d == 7 { '7' }
    else if d == 8 { '8' }
    else { '9' }
}

/// Decimal text of an integer, with a leading minus sign when negative.
pub open spec fn decimal(v: int) -> Seq<char> {
    if v < 0 {
        seq!['-'] + digits((-v) as nat)
    } else {
        digits(v as nat)
    }
}

/// Relies on `ToString::to_string` for `i64`: the value in decimal, with a
/// leading minus sign when negative.
#[verifier::external_body]
fn decimal_text(v: i64) -> (r: String)
    ensures
        r@ == decimal(v as int),
{
    v.to_string()
}

/// A stage position and its decimal text.
#[derive(Debug)]
pub struct Position {
    value: i64,
    string_repr: String,
}

impl View for Position {
    type V = (i64, Seq<char>);

    closed spec fn view(&self) -> (i64, Seq<char>) {
        (self.value, self.string_repr@)
    }
}

impl Clone for Position {
    fn clone(&self) -> (r: Self)
        ensures
            r@ == self@,
    {
        proof {
            use_type_invariant(self);
        }
        Position { value: self.value, string_repr: self.string_repr.clone() }
    }
}

impl Position {
    /// The text is the decimal form of the value.
    #[verifier::type_invariant]
    spec fn text_matches(&self) -> bool {
        self.string_repr@ == decimal(self.value as int)
    }

    pub fn new(value: i64) -> (r: Self)
        ensures
            r@ == (value, decimal(value as int)),
    {
        let string_repr = decimal_text(value);
        Position { value, string_repr }
    }

    pub fn value(&self) -> (r: i64)
        ensures
            r == self@.0,
    {
        self.value
    }

    /// Changes the value; the text follows.
    pub fn set_value(&mut self, value: i64)
        ensures
            final(self)@ == (value, decimal(value as int)),
    {
        *self = Position::new(value);
    }

    /// The decimal text of the value.
    pub fn string_repr(&self) -> (r: String)
        ensures
            r@ == decimal(self@.0 as int),
    {
        proof {
            use_type_invariant(self);
        }
        self.string_repr.clone()
    }
}

} // verus!
