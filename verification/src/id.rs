//! Node ids.
use crate::text::{decimal, decimal_text};
use vstd::prelude::*;
use vstd::std_specs::convert::{FromSpec, FromSpecImpl, TryFromSpec, TryFromSpecImpl};

verus! {

/// The id of a node.
#[derive(PartialEq, Eq, PartialOrd, Ord, Hash, Debug, Structural, Clone, Copy)]
pub struct Id(pub usize);

impl Id {
    /// The id of the first node.
    pub fn start() -> (r: Self)
        ensures
            r == Id(0),
    {
        Id(0)
    }

    /// The id in decimal digits.
    pub fn to_text(&self) -> (r: String)
        ensures
            r@ == decimal_text(self.0 as nat),
    {
        decimal(self.0)
    }
}

/// Why a text is no id.
#[derive(PartialEq, Eq, Debug, Structural, Clone, Copy)]
pub enum ParseIdError {
    /// There is nothing.
    Empty,
    /// Something is no decimal digit.
    InvalidDigit,
    /// The number is too large.
    PosOverflow,
}

impl FromSpecImpl<usize> for Id {
    open spec fn obeys_from_spec() -> bool {
        true
    }

    open spec fn from_spec(i: usize) -> Self {
        Id(i)
    }
}

impl From<usize> for Id {
    fn from(i: usize) -> (r: Self) {
        Id(i)
    }
}

/// Whether the character is a decimal digit.
pub open spec fn is_digit(c: char) -> bool {
    '0' <= c <= '9'
}

/// The number that the characters from place `i` on give behind the digits of `acc`, or the first
/// fault that a reader from left to right meets.
pub open spec fn digits_value(s: Seq<char>, i: int, acc: int) -> Result<usize, ParseIdError>
    decreases s.len() - i,
{
    if i < 0 || i >= s.len() {
        Ok(acc as usize)
    } else if !is_digit(s[i]) {
        Err(ParseIdError::InvalidDigit)
    } else if acc * 10 + (s[i] as int - '0' as int) > usize::MAX {
        Err(ParseIdError::PosOverflow)
    } else {
        digits_value(s, i + 1, acc * 10 + (s[i] as int - '0' as int))
    }
}

/// The number that a text stands for: decimal digits, at least one, behind an optional plus sign.
pub open spec fn number_of(s: Seq<char>) -> Result<usize, ParseIdError> {
    if s.len() == 0 {
        Err(ParseIdError::Empty)
    } else if s[0] == '+' {
        if s.len() == 1 {
            Err(ParseIdError::InvalidDigit)
        } else {
            digits_value(s, 1, 0)
        }
    } else {
        digits_value(s, 0, 0)
    }
}

/// The id that a text stands for.
pub open spec fn id_of(s: Seq<char>) -> Result<Id, ParseIdError> {
    match number_of(s) {
        Ok(n) => Ok(Id(n)),
        Err(e) => Err(e),
    }
}

impl<'a> TryFromSpecImpl<&'a str> for Id {
    open spec fn obeys_try_from_spec() -> bool {
        true
    }

    open spec fn try_from_spec(value: &'a str) -> Result<Self, ParseIdError> {
        id_of(value@)
    }
}

impl<'a> TryFrom<&'a str> for Id {
    type Error = ParseIdError;

    fn try_from(value: &'a str) -> (r: Result<Self, ParseIdError>) {
        let len: usize = value.unicode_len();
        if len == 0 {
            return Err(ParseIdError::Empty);
        }
        let mut i: usize = 0;
        if value.get_char(0) == '+' {
            if len == 1 {
                return Err(ParseIdError::InvalidDigit);
            }
            i = 1;
        }
        let mut acc: usize = 0;
        while i < len
            invariant
                i <= len == value@.len(),
                digits_value(value@, i as int, acc as int) == number_of(value@),
            decreases len - i,
        {
            let c: char = value.get_char(i);
            if c < '0' || c > '9' {
                return Err(ParseIdError::InvalidDigit);
            }
            let d: usize = (c as u32 - '0' as u32) as usize;
            if acc > usize::MAX / 10 || acc * 10 > usize::MAX - d {
                return Err(ParseIdError::PosOverflow);
            }
            acc = acc * 10 + d;
            i += 1;
        }
        Ok(Id(acc))
    }
}

impl TryFromSpecImpl<String> for Id {
    open spec fn obeys_try_from_spec() -> bool {
        true
    }

    open spec fn try_from_spec(value: String) -> Result<Self, ParseIdError> {
        id_of(value@)
    }
}

impl TryFrom<String> for Id {
    type Error = ParseIdError;

    fn try_from(value: String) -> (r: Result<Self, ParseIdError>) {
        Id::try_from(value.as_str())
    }
}

proof fn lemma_one_more_digit(s: Seq<char>, c: char, i: int, acc: int, v: usize)
    requires
        0 <= i <= s.len(),
        0 <= acc <= usize::MAX,
        digits_value(s, i, acc) == Ok::<usize, ParseIdError>(v),
        is_digit(c),
        v * 10 + (c as int - '0' as int) <= usize::MAX,
    ensures
        digits_value(s.push(c), i, acc) == Ok::<usize, ParseIdError>((v * 10 + (c as int - '0' as int)) as usize),
    decreases s.len() - i,
{
    let t = s.push(c);
    if i < s.len() {
        assert(t[i] == s[i]);
        lemma_one_more_digit(s, c, i + 1, acc * 10 + (s[i] as int - '0' as int), v);
    } else {
        assert(t[i] == c);
        let next = acc * 10 + (c as int - '0' as int);
        assert(digits_value(t, i + 1, next) == Ok::<usize, ParseIdError>(next as usize));
    }
}

proof fn lemma_text_of_number(n: usize)
    ensures
        decimal_text(n as nat).len() > 0,
        is_digit(decimal_text(n as nat)[0]),
        digits_value(decimal_text(n as nat), 0, 0) == Ok::<usize, ParseIdError>(n),
    decreases n,
{
    let s = decimal_text(n as nat);
    let d = n % 10;
    let c = crate::text::digit_char(d as nat);
    assert(is_digit(c) && c as int - '0' as int == d);
    if n >= 10 {
        lemma_text_of_number(n / 10);
        assert(s[0] == decimal_text((n / 10) as nat)[0]);
        lemma_one_more_digit(decimal_text((n / 10) as nat), c, 0, 0, n / 10);
    } else {
        assert(s[0] == c);
        assert(digits_value(s, 1, n as int) == Ok::<usize, ParseIdError>(n));
    }
}

/// The text of an id stands for that id.
pub proof fn law_id_text_round_trip(id: Id)
    ensures
        id_of(decimal_text(id.0 as nat)) == Ok::<Id, ParseIdError>(id),
{
    lemma_text_of_number(id.0);
}

/// How a text is read, from left to right: a character that is no digit is a fault, and so is a number
/// that is too large; each digit counts ten times less than the one before it.
pub proof fn law_digits_are_read_in_order(s: Seq<char>, i: int, acc: int)
    requires
        0 <= i <= s.len(),
        0 <= acc <= usize::MAX,
    ensures
        i == s.len() ==> digits_value(s, i, acc) == Ok::<usize, ParseIdError>(acc as usize),
        i < s.len() && !('0' <= s[i] <= '9') ==> digits_value(s, i, acc) == Err::<usize, ParseIdError>(
            ParseIdError::InvalidDigit,
        ),
        i < s.len() && '0' <= s[i] <= '9' && acc * 10 + (s[i] as int - '0' as int) > usize::MAX ==> digits_value(
            s,
            i,
            acc,
        ) == Err::<usize, ParseIdError>(ParseIdError::PosOverflow),
        i < s.len() && '0' <= s[i] <= '9' && acc * 10 + (s[i] as int - '0' as int) <= usize::MAX ==> digits_value(
            s,
            i,
            acc,
        ) == digits_value(s, i + 1, acc * 10 + (s[i] as int - '0' as int)),
{
}

/// A text stands for the id of its digits. One plus sign may come first; without a digit there is none.
pub proof fn law_texts_of_ids(s: Seq<char>)
    ensures
        s.len() == 0 ==> id_of(s) == Err::<Id, ParseIdError>(ParseIdError::Empty),
        s.len() == 1 && s[0] == '+' ==> id_of(s) == Err::<Id, ParseIdError>(ParseIdError::InvalidDigit),
        s.len() > 1 && s[0] == '+' ==> (id_of(s) matches Ok(id) ==> digits_value(s, 1, 0) == Ok::<usize, ParseIdError>(
            id.0,
        )),
        s.len() > 1 && s[0] == '+' ==> (id_of(s) matches Err(e) ==> digits_value(s, 1, 0) == Err::<usize, ParseIdError>(
            e,
        )),
        s.len() > 0 && s[0] != '+' ==> (id_of(s) matches Ok(id) ==> digits_value(s, 0, 0) == Ok::<usize, ParseIdError>(
            id.0,
        )),
        s.len() > 0 && s[0] != '+' ==> (id_of(s) matches Err(e) ==> digits_value(s, 0, 0) == Err::<usize, ParseIdError>(
            e,
        )),
{
}

/// A number is its own id, and a text is read the same whether it is borrowed or owned.
pub proof fn law_ids_of_numbers_and_texts<'a>(n: usize, borrowed: &'a str, owned: String)
    ensures
        <Id as FromSpec<usize>>::from_spec(n).0 == n,
        <Id as TryFromSpec<&'a str>>::try_from_spec(borrowed) == id_of(borrowed@),
        <Id as TryFromSpec<String>>::try_from_spec(owned) == id_of(owned@),
{
}

} // verus!
