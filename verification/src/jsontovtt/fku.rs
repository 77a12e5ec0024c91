//! Requests for fragments.
use vstd::prelude::*;

verus! {

/// A request for a fragment that begins at the given running time.
#[derive(Clone, Copy, Debug, PartialEq, Eq, Structural)]
pub struct ForceKeyUnitRequest {
    pub running_time: u64,
    pub all_headers: bool,
    pub count: u32,
}

impl ForceKeyUnitRequest {
    /// The request of an event. An event that says no running time is no request.
    pub fn new_from_event(running_time: Option<u64>, all_headers: bool, count: u32) -> (r: Option<
        ForceKeyUnitRequest,
    >)
        ensures
            r == (match running_time {
                Some(t) => Some(ForceKeyUnitRequest { running_time: t, all_headers, count }),
                None => None,
            }),
    {
        match running_time {
            Some(t) => Some(ForceKeyUnitRequest { running_time: t, all_headers, count }),
            None => None,
        }
    }
}

/// Which request comes first: the one with the latest running time, and of those the one that
/// was made first.
pub open spec fn top(requests: Seq<ForceKeyUnitRequest>) -> int
    decreases requests.len(),
{
    if requests.len() <= 1 {
        0
    } else {
        let before = top(requests.drop_last());
        if requests.last().running_time > requests[before].running_time {
            requests.len() - 1
        } else {
            before
        }
    }
}

/// No request has a later running time than the one that comes first.
pub proof fn law_top_is_latest(requests: Seq<ForceKeyUnitRequest>)
    requires
        requests.len() > 0,
    ensures
        0 <= top(requests) < requests.len(),
        forall|i: int|
            0 <= i < requests.len() ==> (#[trigger] requests[i]).running_time <= requests[top(
                requests,
            )].running_time,
        forall|i: int|
            0 <= i < top(requests) ==> (#[trigger] requests[i]).running_time < requests[top(
                requests,
            )].running_time,
    decreases requests.len(),
{
    if requests.len() > 1 {
        let rest = requests.drop_last();
        law_top_is_latest(rest);
        assert forall|i: int| 0 <= i < requests.len() implies (#[trigger] requests[i]).running_time
            <= requests[top(requests)].running_time by {
            if i < rest.len() {
                assert(rest[i] == requests[i]);
            }
        }
        assert forall|i: int| 0 <= i < top(requests) implies (#[trigger] requests[i]).running_time
            < requests[top(requests)].running_time by {
            assert(rest[i] == requests[i]);
        }
    }
}

/// Finds the request that comes first.
pub fn find_top(requests: &Vec<ForceKeyUnitRequest>) -> (r: usize)
    requires
        requests@.len() > 0,
    ensures
        r == top(requests@),
        r < requests@.len(),
{
    let mut found: usize = 0;
    let mut i: usize = 1;
    assert(requests@.take(1).len() == 1);
    while i < requests.len()
        invariant
            1 <= i <= requests@.len(),
            found < i,
            found == top(requests@.take(i as int)),
        decreases requests@.len() - i,
    {
        if requests[i].running_time > requests[found].running_time {
            found = i;
        }
        i += 1;
        assert(requests@.take(i as int).drop_last() =~= requests@.take(i - 1));
    }
    assert(requests@.take(i as int) =~= requests@);
    found
}

} // verus!
