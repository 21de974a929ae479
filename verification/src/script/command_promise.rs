//! The state behind a command's promise, and the decisions of waiting on it.
//!
//! A promise and its resolver share one `PromiseState`. The resolver stores
//! the result once; every later look at the promise sees that result.
use crate::script::command::{CommandResult, Outcome};
use vstd::prelude::*;

verus! {

/// The result of a command, once its resolver has delivered it.
pub struct PromiseState {
    result: Option<CommandResult>,
}

impl View for PromiseState {
    type V = Option<Outcome>;

    closed spec fn view(&self) -> Option<Outcome> {
        match self.result {
            Some(r) => Some(r@),
            None => None,
        }
    }
}

/// What waiting with a time limit does next.
pub enum WaitStep {
    /// The result is there.
    Ready(CommandResult),
    /// The time is up without a result.
    Expired,
    /// Wait at most this many more nanoseconds.
    Wait(u128),
}

/// The shape of a `WaitStep`.
pub enum WaitStepView {
    Ready(Outcome),
    Expired,
    Wait(u128),
}

impl View for WaitStep {
    type V = WaitStepView;

    open spec fn view(&self) -> WaitStepView {
        match self {
            WaitStep::Ready(r) => WaitStepView::Ready(r@),
            WaitStep::Expired => WaitStepView::Expired,
            WaitStep::Wait(n) => WaitStepView::Wait(*n),
        }
    }
}

/// The step of a wait with a time limit of `timeout` nanoseconds after
/// `elapsed` nanoseconds: the result if there is one, else the end of the
/// wait when the time is up, else the time that is left.
pub open spec fn wait_step_spec(state: Option<Outcome>, elapsed: u128, timeout: u128) -> WaitStepView {
    match state {
        Some(o) => WaitStepView::Ready(o),
        None => if elapsed >= timeout {
            WaitStepView::Expired
        } else {
            WaitStepView::Wait((timeout - elapsed) as u128)
        },
    }
}

impl PromiseState {
    /// No result yet.
    pub fn new() -> (r: Self)
        ensures
            r@ is None,
    {
        PromiseState { result: None }
    }

    /// Stores the result.
    pub fn resolve(&mut self, result: CommandResult)
        ensures
            final(self)@ == Some(result@),
    {
        self.result = Some(result);
    }

    /// A copy of the result, if there is one; the result stays.
    pub fn poll(&self) -> (r: Option<CommandResult>)
        ensures
            match r {
                Some(x) => self@ == Some(x@),
                None => self@ is None,
            },
    {
        match &self.result {
            Some(x) => Some(x.duplicate()),
            None => None,
        }
    }

    /// Whether there is a result.
    pub fn is_resolved(&self) -> (r: bool)
        ensures
            r == (self@ is Some),
    {
        self.result.is_some()
    }

    /// The next step of a wait for the result that may last `timeout`
    /// nanoseconds, `elapsed` nanoseconds after it began.
    pub fn wait_step(&self, elapsed: u128, timeout: u128) -> (r: WaitStep)
        ensures
            r@ == wait_step_spec(self@, elapsed, timeout),
            self@ matches Some(o) ==> r@ == WaitStepView::Ready(o),
            self@ is None && elapsed >= timeout ==> r is Expired,
            self@ is None && elapsed < timeout ==> r@ == WaitStepView::Wait((timeout - elapsed) as u128),
    {
        match self.poll() {
            Some(x) => WaitStep::Ready(x),
            None => if elapsed >= timeout {
                WaitStep::Expired
            } else {
                WaitStep::Wait(timeout - elapsed)
            },
        }
    }
}

/// Once a promise is resolved, every look at it gives the result it was
/// resolved with, whenever it happens.
pub proof fn lemma_resolved_result_is_stable(state: Option<Outcome>, o: Outcome, elapsed: u128, timeout: u128)
    requires
        state == Some(o),
    ensures
        wait_step_spec(state, elapsed, timeout) == WaitStepView::Ready(o),
{
}

/// A wait on a promise that is never resolved ends when its time is up, and
/// asks for no more than the time that is left before.
pub proof fn lemma_unresolved_wait_ends(elapsed: u128, timeout: u128)
    ensures
        elapsed >= timeout ==> wait_step_spec(None, elapsed, timeout) == WaitStepView::Expired,
        elapsed < timeout ==> (wait_step_spec(None, elapsed, timeout) matches WaitStepView::Wait(n) && 0 < n
            && elapsed + n == timeout),
{
}

impl Default for PromiseState {
    fn default() -> (r: Self)
        ensures
            r@ is None,
    {
        Self::new()
    }
}

} // verus!
