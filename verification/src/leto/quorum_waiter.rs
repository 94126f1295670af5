//! Waiting for enough receipts of a message.
use vstd::prelude::*;

verus! {

/// How a wait stands.
#[derive(PartialEq, Eq, Debug, Structural, Clone, Copy)]
pub enum WaitStep {
    /// More receipts are needed and may come.
    Waiting,
    /// Enough receipts have come.
    Enough,
    /// Every send is over without enough receipts: this many came.
    TooFew(usize),
}

/// A wait for `threshold` receipts of a message sent to several nodes.
pub struct QuorumWaiter {
    threshold: usize,
    outstanding: usize,
    success: usize,
}

/// What there is to know of a wait.
#[verifier::ext_equal]
pub struct WaitState {
    pub threshold: usize,
    pub outstanding: usize,
    pub success: usize,
}

impl WaitState {
    pub open spec fn step(self) -> WaitStep {
        if self.success >= self.threshold {
            WaitStep::Enough
        } else if self.outstanding == 0 {
            WaitStep::TooFew(self.success)
        } else {
            WaitStep::Waiting
        }
    }
}

impl WaitState {
    /// One of the sends is over.
    pub open spec fn heard(self, ok: bool) -> Self {
        WaitState {
            outstanding: (self.outstanding - 1) as usize,
            success: if ok {
                (self.success + 1) as usize
            } else {
                self.success
            },
            ..self
        }
    }

    /// The sends are over one after the other, for as long as the wait goes on.
    pub open spec fn heard_all(self, answers: Seq<bool>) -> Self
        decreases answers.len(),
    {
        if answers.len() == 0 || !(self.step() is Waiting) {
            self
        } else {
            self.heard(answers.first()).heard_all(answers.drop_first())
        }
    }
}

/// How many answers are receipts.
pub open spec fn receipts(answers: Seq<bool>) -> nat
    decreases answers.len(),
{
    if answers.len() == 0 {
        0
    } else {
        receipts(answers.drop_first()) + if answers.first() {
            1nat
        } else {
            0nat
        }
    }
}

impl QuorumWaiter {
    pub closed spec fn view(&self) -> WaitState {
        WaitState { threshold: self.threshold, outstanding: self.outstanding, success: self.success }
    }

    /// The message has been sent to `handlers` nodes, at least as many as have to receive it.
    pub fn new(threshold: usize, handlers: usize) -> (r: Self)
        requires
            handlers >= threshold,
        ensures
            r@ == (WaitState { threshold, outstanding: handlers, success: 0 }),
    {
        QuorumWaiter { threshold, outstanding: handlers, success: 0 }
    }

    /// How the wait stands.
    pub fn status(&self) -> (r: WaitStep)
        ensures
            r == self@.step(),
    {
        if self.success >= self.threshold {
            WaitStep::Enough
        } else if self.outstanding == 0 {
            WaitStep::TooFew(self.success)
        } else {
            WaitStep::Waiting
        }
    }

    /// One of the sends is over, `ok` if with a receipt.
    pub fn wait(&mut self, ok: bool) -> (r: WaitStep)
        requires
            old(self)@.step() is Waiting,
        ensures
            final(self)@ == old(self)@.heard(ok),
            r == final(self)@.step(),
    {
        self.outstanding -= 1;
        if ok {
            self.success += 1;
        }
        self.status()
    }
}

/// Once every send is over the wait is, with success exactly if there were enough receipts.
pub proof fn law_wait_is_decided(s: WaitState, answers: Seq<bool>)
    requires
        answers.len() == s.outstanding,
        s.success + s.outstanding <= usize::MAX,
    ensures
        s.success + receipts(answers) >= s.threshold ==> s.heard_all(answers).step() is Enough,
        s.success + receipts(answers) < s.threshold ==> s.heard_all(answers).step() is TooFew,
    decreases answers.len(),
{
    if answers.len() > 0 && s.step() is Waiting {
        law_wait_is_decided(s.heard(answers.first()), answers.drop_first());
    } else if answers.len() > 0 {
        assert(s.success >= s.threshold);
    }
}

/// Receipts are counted one by one.
pub proof fn law_receipts_are_counted(answers: Seq<bool>, ok: bool)
    ensures
        receipts(Seq::<bool>::empty()) == 0,
        receipts(seq![ok].add(answers)) == receipts(answers) + (if ok {
            1nat
        } else {
            0nat
        }),
{
    assert(seq![ok].add(answers).drop_first() =~= answers);
    assert(seq![ok].add(answers).first() == ok);
}

} // verus!
