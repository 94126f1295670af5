//! Round numbers.
use crate::text::{decimal, decimal_text};
use vstd::prelude::*;
use vstd::std_specs::convert::{FromSpec, FromSpecImpl};
use vstd::std_specs::ops::{AddSpec, AddSpecImpl, MulSpec, MulSpecImpl, SubSpec, SubSpecImpl};

verus! {

/// The number of a round.
#[derive(PartialEq, Eq, PartialOrd, Ord, Hash, Debug, Structural, Clone, Copy)]
pub struct Round(pub usize);

impl Round {
    /// The first round.
    pub fn start() -> (r: Self)
        ensures
            r == Round(0),
    {
        Round(0)
    }

    /// The round in decimal digits.
    pub fn to_text(&self) -> (r: String)
        ensures
            r@ == decimal_text(self.0 as nat),
    {
        decimal(self.0)
    }
}

impl Default for Round {
    fn default() -> (r: Self)
        ensures
            r == Round(10),
    {
        Round(10)
    }
}

impl FromSpecImpl<usize> for Round {
    open spec fn obeys_from_spec() -> bool {
        true
    }

    open spec fn from_spec(n: usize) -> Self {
        Round(n)
    }
}

impl From<usize> for Round {
    fn from(n: usize) -> (r: Self) {
        Round(n)
    }
}

impl SubSpecImpl for Round {
    open spec fn obeys_sub_spec() -> bool {
        true
    }

    open spec fn sub_req(self, rhs: Self) -> bool {
        self.0 >= rhs.0
    }

    open spec fn sub_spec(self, rhs: Self) -> Self {
        Round((self.0 - rhs.0) as usize)
    }
}

impl std::ops::Sub for Round {
    type Output = Self;

    fn sub(self, rhs: Self) -> (r: Self) {
        Round(self.0 - rhs.0)
    }
}

impl AddSpecImpl for Round {
    open spec fn obeys_add_spec() -> bool {
        true
    }

    open spec fn add_req(self, rhs: Self) -> bool {
        self.0 + rhs.0 <= usize::MAX
    }

    open spec fn add_spec(self, rhs: Self) -> Self {
        Round((self.0 + rhs.0) as usize)
    }
}

impl std::ops::Add for Round {
    type Output = Self;

    fn add(self, rhs: Self) -> (r: Self) {
        Round(self.0 + rhs.0)
    }
}

impl MulSpecImpl for Round {
    open spec fn obeys_mul_spec() -> bool {
        true
    }

    open spec fn mul_req(self, rhs: Self) -> bool {
        self.0 * rhs.0 <= usize::MAX
    }

    open spec fn mul_spec(self, rhs: Self) -> Self {
        Round((self.0 * rhs.0) as usize)
    }
}

impl std::ops::Mul for Round {
    type Output = Self;

    fn mul(self, rhs: Self) -> (r: Self) {
        Round(self.0 * rhs.0)
    }
}

impl Round {
    /// Moves on by some rounds.
    pub fn add_assign(&mut self, rhs: Self)
        requires
            old(self).0 + rhs.0 <= usize::MAX,
        ensures
            final(self).0 == old(self).0 + rhs.0,
    {
        self.0 = self.0 + rhs.0;
    }
}

/// Round numbers add, subtract and multiply as numbers do, wherever the result is one.
pub proof fn law_round_arithmetic(a: Round, b: Round, n: usize)
    ensures
        <Round as FromSpec<usize>>::from_spec(n).0 == n,
        AddSpec::add_req(a, b) <==> a.0 + b.0 <= usize::MAX,
        AddSpec::add_req(a, b) ==> AddSpec::add_spec(a, b).0 == a.0 + b.0,
        SubSpec::sub_req(a, b) <==> a.0 >= b.0,
        SubSpec::sub_req(a, b) ==> SubSpec::sub_spec(a, b).0 == a.0 - b.0,
        MulSpec::mul_req(a, b) <==> a.0 * b.0 <= usize::MAX,
        MulSpec::mul_req(a, b) ==> MulSpec::mul_spec(a, b).0 == a.0 * b.0,
{
}

} // verus!
