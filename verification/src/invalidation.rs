use vstd::prelude::*;

verus! {

/// Least expensive UI operation required after a change.
#[derive(Clone, Copy, Debug, Default, PartialEq, Eq, Structural, Hash, PartialOrd, Ord)]
pub enum Invalidation {
    /// No visual work is required.
    #[default]
    Unchanged,
    /// Paint again using existing geometry.
    Paint,
    /// Recalculate geometry and then paint.
    Layout,
    /// Rebuild and reconcile the declarative structure.
    Recompose,
}

impl Invalidation {
    /// Cost rank of a request: larger ranks subsume smaller ones.
    pub open spec fn rank(self) -> nat {
        match self {
            Invalidation::Unchanged => 0,
            Invalidation::Paint => 1,
            Invalidation::Layout => 2,
            Invalidation::Recompose => 3,
        }
    }

    /// The more expensive of two requests.
    pub open spec fn escalated(self, requested: Self) -> Self {
        if requested.rank() > self.rank() { requested } else { self }
    }

    /// Exec counterpart of [`Invalidation::rank`].
    fn rank_exec(self) -> (r: u8)
        ensures
            r == self.rank(),
    {
        match self {
            Invalidation::Unchanged => 0,
            Invalidation::Paint => 1,
            Invalidation::Layout => 2,
            Invalidation::Recompose => 3,
        }
    }

    /// Escalates this request without allowing a cheaper request to replace it.
    pub fn request(&mut self, requested: Self)
        ensures
            *final(self) == old(self).escalated(requested),
    {
        if requested.rank_exec() > self.rank_exec() {
            *self = requested;
        }
    }
}

/// Ranks identify requests: two requests of equal rank are the same request.
pub proof fn lemma_rank_injective(a: Invalidation, b: Invalidation)
    requires
        a.rank() == b.rank(),
    ensures
        a == b,
{
}

/// A request never lowers the pending invalidation, and the result subsumes
/// the request.
pub proof fn lemma_request_only_escalates(current: Invalidation, requested: Invalidation)
    ensures
        current.escalated(requested).rank() >= current.rank(),
        current.escalated(requested).rank() >= requested.rank(),
        current.escalated(requested) == current || current.escalated(requested) == requested,
{
}

/// Repeating a request changes nothing.
pub proof fn lemma_request_idempotent(current: Invalidation, requested: Invalidation)
    ensures
        current.escalated(requested).escalated(requested) == current.escalated(requested),
{
}

/// The order in which two requests arrive does not matter.
pub proof fn lemma_requests_commute(current: Invalidation, a: Invalidation, b: Invalidation)
    ensures
        current.escalated(a).escalated(b) == current.escalated(b).escalated(a),
{
}

/// Requesting nothing leaves the pending invalidation unchanged.
pub proof fn lemma_unchanged_is_identity(current: Invalidation)
    ensures
        current.escalated(Invalidation::Unchanged) == current,
        Invalidation::Unchanged.escalated(current) == current,
{
}

/// The pending invalidation after requesting each of `requests` in turn,
/// starting from `start`.
pub open spec fn after_requests(start: Invalidation, requests: Seq<Invalidation>) -> Invalidation
    decreases requests.len(),
{
    if requests.len() == 0 {
        start
    } else {
        after_requests(start, requests.drop_last()).escalated(requests.last())
    }
}

/// Any sequence of requests ends at the most expensive of the starting
/// value and every requested value, whatever their order: the result is
/// one of them and ranks at least as high as each.
pub proof fn lemma_requests_reach_the_maximum(start: Invalidation, requests: Seq<Invalidation>)
    ensures
        after_requests(start, requests).rank() >= start.rank(),
        forall|i: int|
            0 <= i < requests.len() ==> after_requests(start, requests).rank()
                >= #[trigger] requests[i].rank(),
        after_requests(start, requests) == start || exists|i: int|
            0 <= i < requests.len() && after_requests(start, requests) == #[trigger] requests[i],
    decreases requests.len(),
{
    if requests.len() > 0 {
        let prefix = requests.drop_last();
        lemma_requests_reach_the_maximum(start, prefix);
        assert forall|i: int| 0 <= i < requests.len() implies after_requests(start, requests).rank()
            >= #[trigger] requests[i].rank() by {
            if i < prefix.len() {
                assert(prefix[i] == requests[i]);
            }
        }
        if after_requests(start, requests) != start {
            if after_requests(start, requests) == requests.last() {
                assert(requests[requests.len() - 1] == requests.last());
            } else {
                let i = choose|i: int|
                    0 <= i < prefix.len() && after_requests(start, prefix) == #[trigger] prefix[i];
                assert(requests[i] == prefix[i]);
            }
        }
    }
}

/// Requests reaching the same maximum end in the same state, so reordering
/// or repeating requests changes nothing.
pub proof fn lemma_request_order_is_irrelevant(
    start: Invalidation,
    first: Seq<Invalidation>,
    second: Seq<Invalidation>,
)
    requires
        first.to_set() == second.to_set(),
    ensures
        after_requests(start, first) == after_requests(start, second),
{
    lemma_requests_reach_the_maximum(start, first);
    lemma_requests_reach_the_maximum(start, second);
    let a = after_requests(start, first);
    let b = after_requests(start, second);
    assert(a.rank() >= b.rank()) by {
        if b != start {
            let j = choose|j: int| 0 <= j < second.len() && b == #[trigger] second[j];
            assert(second.to_set().contains(second[j]));
            assert(first.to_set().contains(second[j]));
            let i = choose|i: int| 0 <= i < first.len() && first[i] == second[j];
            assert(a.rank() >= first[i].rank());
        }
    }
    assert(b.rank() >= a.rank()) by {
        if a != start {
            let i = choose|i: int| 0 <= i < first.len() && a == #[trigger] first[i];
            assert(first.to_set().contains(first[i]));
            assert(second.to_set().contains(first[i]));
            let j = choose|j: int| 0 <= j < second.len() && second[j] == first[i];
            assert(b.rank() >= second[j].rank());
        }
    }
}

} // verus!
