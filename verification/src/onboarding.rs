//! A linear onboarding walk-through: a list of steps and the step shown now.
use vstd::prelude::*;

verus! {

#[derive(Debug)]
pub struct OnboardingStep {
    pub title: String,
    pub description: String,
}

/// The step that `next_step` moves to from step `cur` of `len` steps.
pub open spec fn next_index(cur: nat, len: nat) -> nat {
    if cur + 1 < len {
        cur + 1
    } else {
        cur
    }
}

/// The step that `prev_step` moves to from step `cur`.
pub open spec fn prev_index(cur: nat) -> nat {
    if cur > 0 {
        (cur - 1) as nat
    } else {
        cur
    }
}

/// Whether step `cur` of `len` steps is the last one (or past it).
pub open spec fn finished_at(cur: nat, len: nat) -> bool {
    cur + 1 >= len
}

pub struct OnboardingFlow {
    steps: Vec<OnboardingStep>,
    current_step: usize,
}

impl OnboardingFlow {
    /// The current step is a step of the flow; an empty flow stays at 0.
    #[verifier::type_invariant]
    spec fn position_in_range(self) -> bool {
        self.current_step == 0 || self.current_step < self.steps.len()
    }

    /// The number of steps.
    pub closed spec fn len(&self) -> nat {
        self.steps@.len()
    }

    /// The number of steps is the length of the list of steps.
    pub proof fn lemma_len_counts_steps(&self)
        ensures
            self.len() == self.steps().len(),
    {
    }

    /// The index of the step shown now.
    pub closed spec fn index(&self) -> nat {
        self.current_step as nat
    }

    /// The steps, in order.
    pub closed spec fn steps(&self) -> Seq<OnboardingStep> {
        self.steps@
    }

    pub fn new(steps: Vec<OnboardingStep>) -> (r: Self)
        ensures
            r.steps() == steps@,
            r.len() == steps@.len(),
            r.index() == 0,
    {
        Self { steps, current_step: 0 }
    }

    /// Moves to the following step, unless the last step is shown.
    pub fn next_step(&mut self)
        requires
            old(self).len() > 0,
        ensures
            final(self).steps() == old(self).steps(),
            final(self).len() == old(self).len(),
            final(self).index() == next_index(old(self).index(), old(self).len()),
    {
        proof {
            use_type_invariant(&*self);
        }
        if self.current_step < self.steps.len() - 1 {
            self.current_step = self.current_step + 1;
        }
    }

    /// Moves to the preceding step, unless the first step is shown.
    pub fn prev_step(&mut self)
        ensures
            final(self).steps() == old(self).steps(),
            final(self).len() == old(self).len(),
            final(self).index() == prev_index(old(self).index()),
    {
        proof {
            use_type_invariant(&*self);
        }
        if self.current_step > 0 {
            self.current_step = self.current_step - 1;
        }
    }

    /// Whether the last step is shown.
    pub fn is_finished(&self) -> (r: bool)
        requires
            self.len() > 0,
        ensures
            r == finished_at(self.index(), self.len()),
    {
        self.current_step >= self.steps.len() - 1
    }

    /// The index of the step shown now.
    pub fn current_index(&self) -> (r: usize)
        ensures
            r == self.index(),
            self.len() == 0 ==> r == 0,
            self.len() > 0 ==> r < self.len(),
    {
        proof {
            use_type_invariant(self);
        }
        self.current_step
    }

    /// The step shown now, if the flow has any.
    pub fn current_step(&self) -> (r: Option<&OnboardingStep>)
        ensures
            self.len() == 0 ==> r is None,
            self.len() > 0 ==> r == Some(&self.steps()[self.index() as int]),
    {
        proof {
            use_type_invariant(self);
        }
        if self.current_step < self.steps.len() {
            Some(&self.steps[self.current_step])
        } else {
            None
        }
    }
}

/// Going forward and then back returns to the step one started from, unless the
/// last step was already shown.
pub proof fn law_prev_undoes_next(cur: nat, len: nat)
    requires
        cur < len,
        !finished_at(cur, len),
    ensures
        prev_index(next_index(cur, len)) == cur,
{
}

/// Going back and then forward returns to the step one started from, unless the
/// first step was shown.
pub proof fn law_next_undoes_prev(cur: nat, len: nat)
    requires
        0 < cur < len,
    ensures
        next_index(prev_index(cur), len) == cur,
{
}

/// Both moves keep the current step among the steps of a non-empty flow.
pub proof fn law_moves_stay_in_range(cur: nat, len: nat)
    requires
        cur < len,
    ensures
        next_index(cur, len) < len,
        prev_index(cur) < len,
{
}

/// From the first step, `len - 1` moves forward reach the last step, and further moves
/// stay there.
pub proof fn law_forward_reaches_end(k: nat, len: nat)
    requires
        len > 0,
    ensures
        repeat_next(0, len, k) == if k + 1 < len {
            k
        } else {
            (len - 1) as nat
        },
        finished_at(repeat_next(0, len, k), len) <== k + 1 >= len,
    decreases k,
{
    if k > 0 {
        law_forward_reaches_end((k - 1) as nat, len);
    }
}

/// The step reached after `k` moves forward from step `cur`.
pub open spec fn repeat_next(cur: nat, len: nat, k: nat) -> nat
    decreases k,
{
    if k == 0 {
        cur
    } else {
        next_index(repeat_next(cur, len, (k - 1) as nat), len)
    }
}

} // verus!
