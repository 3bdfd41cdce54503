use vstd::prelude::*;

use crate::act_map_if::{lossless_narrow, TryIntoResult, TryNarrow};
use crate::behaviour::Behaviour;

verus! {

// A miniature two-variant state used to exercise the conditional combinator:
// a counter, an inert second variant, and a behaviour that bumps the counter.

/// A state holding one counter.
#[derive(Debug, Copy, Clone, PartialEq, Eq, Structural)]
pub struct A(pub u32);

impl DeepView for A {
    type V = A;

    open spec fn deep_view(&self) -> A {
        *self
    }
}

/// An inert state the counting behaviour does not touch.
#[derive(Debug, Copy, Clone, PartialEq, Eq, Structural)]
pub struct B(pub u32);

impl DeepView for B {
    type V = B;

    open spec fn deep_view(&self) -> B {
        *self
    }
}

/// The tagged union of the two states.
#[derive(Debug, Copy, Clone, PartialEq, Eq, Structural)]
pub enum AB {
    A(A),
    B(B),
}

impl DeepView for AB {
    type V = AB;

    open spec fn deep_view(&self) -> AB {
        *self
    }
}

/// The narrower that extracts the counter variant of `AB` and embeds it back.
pub struct TryAsA;

impl TryNarrow<AB> for TryAsA {
    type Inner = A;

    open spec fn spec_narrow(&self, state: AB) -> TryIntoResult<A, AB> {
        match state {
            AB::A(a) => TryIntoResult::Extracted(a),
            AB::B(_) => TryIntoResult::Failed(state),
        }
    }

    open spec fn spec_widen(&self, inner: A) -> AB {
        AB::A(inner)
    }

    fn try_narrow(&self, state: AB) -> (r: TryIntoResult<A, AB>) {
        match state {
            AB::A(a) => TryIntoResult::Extracted(a),
            other => TryIntoResult::Failed(other),
        }
    }

    fn widen(&self, inner: A) -> (r: AB) {
        AB::A(inner)
    }
}

/// The counter narrower obeys the narrowing policy: a miss hands the state
/// back untouched, and narrowing then widening is the identity.
pub proof fn lemma_try_as_a_lossless()
    ensures
        lossless_narrow::<AB, TryAsA>(TryAsA),
{
    assert forall|s: AB| (#[trigger] TryAsA.spec_narrow(s)) is Failed implies TryAsA.spec_narrow(
        s,
    )->Failed_0 == s by {
    }
    assert forall|s: AB| (#[trigger] TryAsA.spec_narrow(s)) is Extracted implies TryAsA.spec_widen(
        TryAsA.spec_narrow(s)->Extracted_0,
    ) == s by {
    }
}

/// The behaviour that bumps the counter by one, wrapping at the top.
pub struct IncrementABehaviour {}

impl<Context: DeepView> Behaviour<A, Context> for IncrementABehaviour {
    open spec fn spec_act(&self, state: A, context: Context::V) -> A {
        if state.0 == u32::MAX {
            A(0)
        } else {
            A((state.0 + 1) as u32)
        }
    }

    fn act(&self, state: A, _context: &Context) -> (new_state: A) {
        if state.0 == u32::MAX {
            A(0)
        } else {
            A(state.0 + 1)
        }
    }
}

} // verus!
