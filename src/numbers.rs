//! Fixed-width decimal integers held as arrays of digits.

use vstd::prelude::*;
use vstd::string::{StrSliceExecFns, StringExecFns, StringSliceAdditionalSpecFns};

verus! {

/// One symbol of a written integer: the minus sign or a decimal digit.
#[derive(Clone, Copy, Debug, PartialEq, Eq, Structural)]
pub enum Digit {
    Negative,
    Zero,
    One,
    Two,
    Three,
    Four,
    Five,
    Six,
    Seven,
    Eight,
    Nine,
}

/// The character that writes a digit.
pub open spec fn digit_char(d: Digit) -> char {
    match d {
        Digit::Negative => '-',
        Digit::Zero => '0',
        Digit::One => '1',
        Digit::Two => '2',
        Digit::Three => '3',
        Digit::Four => '4',
        Digit::Five => '5',
        Digit::Six => '6',
        Digit::Seven => '7',
        Digit::Eight => '8',
        Digit::Nine => '9',
    }
}

/// The digit that a character writes, if any.
pub open spec fn char_digit(c: char) -> Option<Digit> {
    match c {
        '-' => Some(Digit::Negative),
        '0' => Some(Digit::Zero),
        '1' => Some(Digit::One),
        '2' => Some(Digit::Two),
        '3' => Some(Digit::Three),
        '4' => Some(Digit::Four),
        '5' => Some(Digit::Five),
        '6' => Some(Digit::Six),
        '7' => Some(Digit::Seven),
        '8' => Some(Digit::Eight),
        '9' => Some(Digit::Nine),
        _ => None,
    }
}

/// The message for a character that writes no digit.
pub open spec fn not_a_digit_message(c: char) -> Seq<char> {
    "Expected digit, found '"@.push(c) + "'."@
}

/// Relies on `String::push`: the character is appended at the end.
#[verifier::external_body]
fn push_char(s: &mut String, c: char)
    ensures
        final(s)@ == old(s)@.push(c),
{
    s.push(c);
}

impl Digit {
    /// The digit that `c` writes, or a message naming `c`.
    pub fn from_char(c: char) -> (r: Result<Digit, String>)
        ensures
            r is Ok <==> char_digit(c) is Some,
            r matches Ok(d) ==> char_digit(c) == Some(d),
            r matches Err(m) ==> m@ == not_a_digit_message(c),
    {
        match c {
            '-' => Ok(Digit::Negative),
            '0' => Ok(Digit::Zero),
            '1' => Ok(Digit::One),
            '2' => Ok(Digit::Two),
            '3' => Ok(Digit::Three),
            '4' => Ok(Digit::Four),
            '5' => Ok(Digit::Five),
            '6' => Ok(Digit::Six),
            '7' => Ok(Digit::Seven),
            '8' => Ok(Digit::Eight),
            '9' => Ok(Digit::Nine),
            _ => {
                let mut m = String::from_str("Expected digit, found '");
                push_char(&mut m, c);
                m.append("'.");
                Err(m)
            },
        }
    }

    /// The character that writes this digit.
    pub fn to_char(&self) -> (r: char)
        ensures
            r == digit_char(*self),
            char_digit(r) == Some(*self),
    {
        match self {
            Digit::Negative => '-',
            Digit::Zero => '0',
            Digit::One => '1',
            Digit::Two => '2',
            Digit::Three => '3',
            Digit::Four => '4',
            Digit::Five => '5',
            Digit::Six => '6',
            Digit::Seven => '7',
            Digit::Eight => '8',
            Digit::Nine => '9',
        }
    }
}

/// Why a sequence of digits is not an integer, or `None` where it is.
///
/// An integer is written `-? [1-9] [0-9]* | 0`. The checks run in this
/// order: a negative zero, a lone sign, no digits, a leading zero, and a minus
/// sign in any place after the first.
pub open spec fn integer_error(d: Seq<Digit>) -> Option<Seq<char>> {
    if d =~= seq![Digit::Negative, Digit::Zero] {
        Some("Zero cannot be negative"@)
    } else if d =~= seq![Digit::Negative] {
        Some("NULL cannot be negative"@)
    } else if d.len() == 0 {
        Some("No digits"@)
    } else if (d[0] == Digit::Zero && d.len() > 1) || (d.len() > 2 && d[0] == Digit::Negative
        && d[1] == Digit::Zero) {
        Some("Leading zero"@)
    } else if exists|k: int| 1 <= k < d.len() && d[k] == Digit::Negative {
        Some("Expected digit found '-'."@)
    } else {
        None
    }
}

/// The digits, or the message of the first check that they fail.
pub open spec fn validate(d: Seq<Digit>) -> Result<Seq<Digit>, Seq<char>> {
    match integer_error(d) {
        Some(m) => Err(m),
        None => Ok(d),
    }
}

/// The digits that the characters of `s` write; each must write one.
pub open spec fn digits_of(s: Seq<char>) -> Seq<Digit> {
    s.map_values(|c: char| char_digit(c).unwrap())
}

/// A text of digits and minus signs takes one byte per character, so its
/// length in bytes is its number of characters.
pub proof fn lemma_digit_text_len(s: &str)
    requires
        forall|i: int| 0 <= i < s@.len() ==> #[trigger] char_digit(s@[i]) is Some,
    ensures
        s.spec_bytes().len() == s@.len(),
{
    assert forall|i: int| 0 <= i < s@.len() implies '\0' <= #[trigger] s@[i] <= '\u{7f}' by {
        assert(char_digit(s@[i]) is Some);
    }
    vstd::string::is_ascii_spec_bytes(s);
}

/// An integer written with exactly `SIZE` digits.
pub struct Integer<const SIZE: usize> {
    digits: [Digit; SIZE],
}

/// What a construction returned, with the integer and the message as
/// sequences.
pub open spec fn outcome<const SIZE: usize>(r: Result<Integer<SIZE>, &'static str>) -> Result<
    Seq<Digit>,
    Seq<char>,
> {
    match r {
        Ok(i) => Ok(i@),
        Err(e) => Err(e@),
    }
}

impl<const SIZE: usize> View for Integer<SIZE> {
    type V = Seq<Digit>;

    closed spec fn view(&self) -> Seq<Digit> {
        self.digits@
    }
}

impl<const SIZE: usize> Integer<SIZE> {
    #[verifier::type_invariant]
    spec fn well_formed(self) -> bool {
        integer_error(self.digits@) is None
    }

    /// The integer written by `digits`, or why they write none.
    pub fn from(digits: [Digit; SIZE]) -> (r: Result<Integer<SIZE>, &'static str>)
        ensures
            outcome(r) == validate(digits@),
    {
        let n = SIZE;
        if n == 2 && digits[0] == Digit::Negative && digits[1] == Digit::Zero {
            return Err("Zero cannot be negative");
        }
        if n == 1 && digits[0] == Digit::Negative {
            return Err("NULL cannot be negative");
        }
        if n == 0 {
            return Err("No digits");
        }
        if (digits[0] == Digit::Zero && n > 1) || (n > 2 && digits[0] == Digit::Negative
            && digits[1] == Digit::Zero) {
            return Err("Leading zero");
        }
        let mut sign_after_first = false;
        let mut i: usize = 1;
        while i < n
            invariant
                1 <= i <= n,
                n == SIZE,
                sign_after_first == exists|k: int| 1 <= k < i && digits[k] == Digit::Negative,
            decreases n - i,
        {
            if digits[i] == Digit::Negative {
                sign_after_first = true;
            }
            i += 1;
        }
        if sign_after_first {
            return Err("Expected digit found '-'.");
        }
        proof {
            assert(digits@ !~= seq![Digit::Negative, Digit::Zero]);
            assert(digits@ !~= seq![Digit::Negative]);
        }
        Ok(Integer { digits })
    }

    /// The integer written by `s`, or why it writes none. A text longer than
    /// `SIZE` bytes is refused before its characters are read; a shorter one
    /// must hold exactly `SIZE` characters, each a digit or a minus sign.
    pub fn from_str(s: &'static str) -> (r: Result<Integer<SIZE>, &'static str>)
        requires
            s.len() <= SIZE ==> s@.len() == SIZE && forall|i: int|
                0 <= i < s@.len() ==> #[trigger] char_digit(s@[i]) is Some,
        ensures
            outcome(r) == if s.len() > SIZE {
                Err("Too many digits"@)
            } else {
                validate(digits_of(s@))
            },
    {
        if s.len() > SIZE {
            return Err("Too many digits");
        }
        let mut digits: [Digit; SIZE] = [Digit::Zero; SIZE];
        let mut i: usize = 0;
        while i < SIZE
            invariant
                0 <= i <= SIZE,
                s@.len() == SIZE,
                forall|k: int| 0 <= k < SIZE ==> #[trigger] char_digit(s@[k]) is Some,
                forall|k: int| 0 <= k < i ==> Some(#[trigger] digits[k]) == char_digit(s@[k]),
            decreases SIZE - i,
        {
            let c = s.get_char(i);
            match Digit::from_char(c) {
                Ok(d) => {
                    digits[i] = d;
                },
                Err(_) => {},
            }
            i += 1;
        }
        assert(digits@ =~= digits_of(s@));
        Integer::from(digits)
    }

    /// The characters that write this integer.
    pub fn string(&self) -> (r: String)
        ensures
            r@ == self@.map_values(|d: Digit| digit_char(d)),
    {
        let mut r = String::new();
        let mut i: usize = 0;
        while i < SIZE
            invariant
                0 <= i <= SIZE,
                self@ == self.digits@,
                r@ == self@.subrange(0, i as int).map_values(|d: Digit| digit_char(d)),
            decreases SIZE - i,
        {
            push_char(&mut r, self.digits[i].to_char());
            proof {
                assert(self@.subrange(0, i + 1) =~= self@.subrange(0, i as int).push(self@[i as int]));
            }
            i += 1;
        }
        assert(self@.subrange(0, SIZE as int) =~= self@);
        r
    }
}

} // verus!
