use vstd::prelude::*;

use crate::behaviour::Behaviour;

verus! {

/// Outcome of an attempted narrowing: either the extracted sub-state, or the
/// original state handed back unchanged. A failed narrowing is a routing miss,
/// never an error.
pub enum TryIntoResult<OK, FAILED> {
    Extracted(OK),
    Failed(FAILED),
}

impl<OK: DeepView, FAILED: DeepView> DeepView for TryIntoResult<OK, FAILED> {
    type V = TryIntoResult<OK::V, FAILED::V>;

    open spec fn deep_view(&self) -> TryIntoResult<OK::V, FAILED::V> {
        match self {
            TryIntoResult::Extracted(x) => TryIntoResult::Extracted(x.deep_view()),
            TryIntoResult::Failed(x) => TryIntoResult::Failed(x.deep_view()),
        }
    }
}

/// An attempted, possibly failing extraction of a sub-state out of an outer
/// tagged-union state, together with the embedding of a sub-state back into
/// the outer type. This is the explicit narrow/widen pair that routes one
/// outer state type to per-variant behaviours without virtual dispatch.
pub trait TryNarrow<Outer: DeepView> {
    /// The sub-state type this narrower extracts.
    type Inner: DeepView;

    /// What narrowing yields, over the models: the extracted sub-state on a
    /// hit, or the original state on a miss.
    spec fn spec_narrow(&self, state: Outer::V) -> TryIntoResult<
        <Self::Inner as DeepView>::V,
        Outer::V,
    >;

    /// What widening yields, over the models: the outer state that embeds the
    /// given sub-state.
    spec fn spec_widen(&self, inner: <Self::Inner as DeepView>::V) -> Outer::V;

    /// Attempt to extract the sub-state; on failure the original state is
    /// returned unchanged.
    fn try_narrow(&self, state: Outer) -> (r: TryIntoResult<Self::Inner, Outer>)
        ensures
            r.deep_view() == self.spec_narrow(state.deep_view()),
    ;

    /// Embed a sub-state back into the outer state type.
    fn widen(&self, inner: Self::Inner) -> (r: Outer)
        ensures
            r.deep_view() == self.spec_widen(inner.deep_view()),
    ;
}

/// The policy a narrower is expected to obey: a miss hands the original state
/// back untouched, and narrow/widen is a lossless round trip on a hit.
pub open spec fn lossless_narrow<Outer: DeepView, F: TryNarrow<Outer>>(f: F) -> bool {
    &&& forall|s: Outer::V|
        (#[trigger] f.spec_narrow(s)) is Failed ==> f.spec_narrow(s)->Failed_0 == s
    &&& forall|s: Outer::V| (#[trigger] f.spec_narrow(s)) is Extracted ==> f.spec_widen(
        f.spec_narrow(s)->Extracted_0,
    ) == s
}

/// A behaviour on an outer tagged-union state that applies an inner behaviour
/// only when the state narrows into the sub-state the inner behaviour accepts.
/// On a miss the state passes through untouched.
///
/// This is usually built via `act_map_if`, not the struct literal.
pub struct ActMapIf<A, F> {
    pub a: A,
    pub f: F,
}

/// Build the conditional behaviour that narrows with `f` and applies `a` to
/// the extracted sub-state.
pub fn act_map_if<A, F>(f: F, a: A) -> (r: ActMapIf<A, F>)
    ensures
        r == (ActMapIf { a, f }),
{
    ActMapIf { a, f }
}

impl<Outer, Context, A, F> Behaviour<Outer, Context> for ActMapIf<A, F> where
    Outer: DeepView,
    Context: DeepView,
    F: TryNarrow<Outer>,
    A: Behaviour<F::Inner, Context>,
 {
    open spec fn spec_act(&self, state: Outer::V, context: Context::V) -> Outer::V {
        match self.f.spec_narrow(state) {
            TryIntoResult::Extracted(inner) => self.f.spec_widen(self.a.spec_act(inner, context)),
            TryIntoResult::Failed(original) => original,
        }
    }

    fn act(&self, state: Outer, context: &Context) -> (new_state: Outer) {
        match self.f.try_narrow(state) {
            TryIntoResult::Extracted(inner) => self.f.widen(self.a.act(inner, context)),
            TryIntoResult::Failed(original) => original,
        }
    }
}

/// Law: when narrowing misses, the conditional behaviour is the identity; the
/// inner behaviour never contributes.
pub proof fn lemma_act_map_if_routing_miss<Outer, Context, A, F>(
    m: ActMapIf<A, F>,
    state: Outer::V,
    context: Context::V,
) where
    Outer: DeepView,
    Context: DeepView,
    F: TryNarrow<Outer>,
    A: Behaviour<F::Inner, Context>,

    requires
        lossless_narrow(m.f),
        m.f.spec_narrow(state) is Failed,
    ensures
        m.spec_act(state, context) == state,
{
}

/// Law: when narrowing hits, the result is the widening of what the inner
/// behaviour computes on the extracted sub-state.
pub proof fn lemma_act_map_if_narrow_hit<Outer, Context, A, F>(
    m: ActMapIf<A, F>,
    state: Outer::V,
    context: Context::V,
    inner: <F::Inner as DeepView>::V,
) where
    Outer: DeepView,
    Context: DeepView,
    F: TryNarrow<Outer>,
    A: Behaviour<F::Inner, Context>,

    requires
        m.f.spec_narrow(state) == TryIntoResult::<<F::Inner as DeepView>::V, Outer::V>::Extracted(
            inner,
        ),
    ensures
        m.spec_act(state, context) == m.f.spec_widen(m.a.spec_act(inner, context)),
{
}

} // verus!
