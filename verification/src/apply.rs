//! Applying a removal plan through a remove-by-position interface.
//!
//! The interface takes one request per track URI with all positions of that
//! track, so the entries of a plan are grouped back by URI. The requests are
//! sent one after another; the first answer that is not a success ends the
//! run with that answer as the error.

use crate::duplicates::{
    add_item, group_by_key, group_views, groups_of, keys_of, lemma_groups_of,
    lemma_positions_of_contains, placed_views, positions_of, Group, Placed, PositionGroup,
};
use crate::removal::{
    entry_views, is_descending, is_later_member, lemma_planned_entries, lemma_sort_descending,
    lemma_track_uri_injective, plan_of, planned_entries, track_uri_of, RemovalPlan,
};
use crate::text::{index_of, lemma_index_of};
use vstd::prelude::*;

verus! {

/// An answer of the remote interface that was not a success: its status
/// code and its body, as received.
#[derive(Debug, Clone, PartialEq)]
pub struct ApiError {
    /// The HTTP status code.
    pub status: u16,
    /// The body of the answer.
    pub body: String,
}

/// Whether a status code reports success: the codes from 200 to 299.
pub open spec fn status_is_success(status: u16) -> bool {
    200 <= status < 300
}

/// Whether a status code reports success.
pub fn is_success(status: u16) -> (b: bool)
    ensures
        b == status_is_success(status),
{
    status >= 200 && status < 300
}

/// The number of positions held by the groups.
pub open spec fn total_positions(groups: Seq<Group>) -> nat
    decreases groups.len(),
{
    if groups.len() == 0 {
        0
    } else {
        total_positions(groups.drop_last()) + groups.last().positions.len()
    }
}

/// Giving one group one more position gives one more position in all.
proof fn lemma_total_positions_update(groups: Seq<Group>, k: int, g: Group)
    requires
        0 <= k < groups.len(),
        g.positions.len() == groups[k].positions.len() + 1,
    ensures
        total_positions(groups.update(k, g)) == total_positions(groups) + 1,
    decreases groups.len(),
{
    let updated = groups.update(k, g);
    if k == groups.len() - 1 {
        assert(updated.drop_last() =~= groups.drop_last());
    } else {
        assert(updated.drop_last() =~= groups.drop_last().update(k, g));
        lemma_total_positions_update(groups.drop_last(), k, g);
    }
}

/// Grouping loses nothing: the groups hold as many positions as there are
/// items.
pub proof fn lemma_groups_total(items: Seq<Placed>)
    ensures
        total_positions(groups_of(items)) == items.len(),
    decreases items.len(),
{
    if items.len() > 0 {
        let init = items.drop_last();
        let item = items.last();
        let g = groups_of(init);
        lemma_groups_total(init);
        let k = index_of(keys_of(g), item.key);
        lemma_index_of(keys_of(g), item.key);
        if k < g.len() {
            lemma_total_positions_update(
                g,
                k,
                Group { key: item.key, positions: g[k].positions.push(item.position) },
            );
        } else {
            assert(add_item(g, item).drop_last() =~= g);
        }
    }
}

/// The positions of a prefix of the groups are no more than those of all.
proof fn lemma_total_positions_take(groups: Seq<Group>, n: int)
    requires
        0 <= n <= groups.len(),
    ensures
        total_positions(groups.take(n)) <= total_positions(groups),
        n < groups.len() ==> total_positions(groups.take(n + 1)) == total_positions(
            groups.take(n),
        ) + groups[n].positions.len(),
    decreases groups.len() - n,
{
    if n < groups.len() {
        assert(groups.take(n + 1).drop_last() =~= groups.take(n));
        lemma_total_positions_take(groups, n + 1);
    } else {
        assert(groups.take(n) =~= groups);
    }
}

/// The position `p` is one of the group's positions beyond the first.
pub open spec fn is_later_position(g: Group, p: usize) -> bool {
    exists|j: int| 1 <= j < g.positions.len() && #[trigger] g.positions[j] == p
}

/// The positions descend.
pub open spec fn positions_descend(positions: Seq<usize>) -> bool {
    forall|a: int, b: int| 0 <= a < b < positions.len() ==> positions[a] >= positions[b]
}

/// Of items that descend by position, the positions of one key descend.
pub proof fn lemma_positions_of_descending(items: Seq<Placed>, key: Seq<char>)
    requires
        is_descending(items),
    ensures
        positions_descend(positions_of(items, key)),
    decreases items.len(),
{
    if items.len() > 0 {
        let init = items.drop_last();
        assert forall|i: int, j: int| 0 <= i < j < init.len() implies init[i].position
            >= init[j].position by {
            assert(init[i] == items[i] && init[j] == items[j]);
        }
        lemma_positions_of_descending(init, key);
        let before = positions_of(init, key);
        let here = positions_of(items, key);
        assert forall|a: int, b: int| 0 <= a < b < here.len() implies here[a] >= here[b] by {
            if b < before.len() {
                assert(here[a] == before[a] && here[b] == before[b]);
            } else {
                assert(here[a] == before[a]);
                assert(before.contains(before[a]));
                lemma_positions_of_contains(init, key, before[a]);
                let i = choose|i: int|
                    0 <= i < init.len() && init[i] == (Placed { key, position: before[a] });
                assert(items[i].position >= items[items.len() - 1].position);
            }
        }
    }
}

/// Grouping a plan back by URI gives back the duplicate groups: each group
/// with positions beyond its first has one request, under the URI of its
/// track, with exactly those positions; there is no other request; and the
/// positions of each request descend.
pub proof fn lemma_requests_of_plan(groups: Seq<Group>)
    requires
        keys_of(groups).no_duplicates(),
    ensures
        keys_of(groups_of(plan_of(groups))).no_duplicates(),
        forall|k: int|
            0 <= k < groups.len() && (#[trigger] groups[k]).positions.len() >= 2 ==> {
                let requests = groups_of(plan_of(groups));
                let m = index_of(keys_of(requests), track_uri_of(groups[k].key));
                &&& m < requests.len()
                &&& requests[m].key == track_uri_of(groups[k].key)
                &&& forall|p: usize|
                    #[trigger] requests[m].positions.contains(p) <==> is_later_position(
                        groups[k],
                        p,
                    )
            },
        forall|m: int|
            0 <= m < groups_of(plan_of(groups)).len() ==> {
                let r = #[trigger] groups_of(plan_of(groups))[m];
                &&& positions_descend(r.positions)
                &&& exists|k: int|
                    0 <= k < groups.len() && (#[trigger] groups[k]).positions.len() >= 2 && r.key
                        == track_uri_of(groups[k].key)
            },
{
    let plan = plan_of(groups);
    let requests = groups_of(plan);
    lemma_groups_of(plan);
    lemma_sort_descending(planned_entries(groups));
    lemma_planned_entries(groups);
    assert forall|k: int|
        0 <= k < groups.len() && (#[trigger] groups[k]).positions.len() >= 2 implies {
        let m = index_of(keys_of(requests), track_uri_of(groups[k].key));
        &&& m < requests.len()
        &&& requests[m].key == track_uri_of(groups[k].key)
        &&& forall|p: usize|
            #[trigger] requests[m].positions.contains(p) <==> is_later_position(groups[k], p)
    } by {
        let uri = track_uri_of(groups[k].key);
        let first = Placed { key: uri, position: groups[k].positions[1] };
        assert(is_later_member(groups, first));
        assert(planned_entries(groups).contains(first));
        assert(plan.contains(first));
        lemma_positions_of_contains(plan, uri, first.position);
        let found = choose|i: int|
            0 <= i < positions_of(plan, uri).len() && positions_of(plan, uri)[i]
                == first.position;
        let m = index_of(keys_of(requests), uri);
        lemma_index_of(keys_of(requests), uri);
        assert(keys_of(requests)[m] == uri);
        assert(requests[m].positions == positions_of(plan, requests[m].key));
        assert forall|p: usize|
            #[trigger] requests[m].positions.contains(p) <==> is_later_position(groups[k], p) by {
            let e = Placed { key: uri, position: p };
            lemma_positions_of_contains(plan, uri, p);
            assert(plan.contains(e) <==> planned_entries(groups).contains(e));
            if is_later_member(groups, e) {
                let (k2, j) = choose|k2: int, j: int|
                    0 <= k2 < groups.len() && 1 <= j < groups[k2].positions.len() && e == (Placed {
                        key: track_uri_of(groups[k2].key),
                        position: #[trigger] groups[k2].positions[j],
                    });
                lemma_track_uri_injective(groups[k2].key, groups[k].key);
                if k2 != k {
                    assert(keys_of(groups)[k2] != keys_of(groups)[k]);
                }
                assert(groups[k].positions[j] == p);
            }
            if is_later_position(groups[k], p) {
                let j = choose|j: int| 1 <= j < groups[k].positions.len() && #[trigger] groups[k].positions[j] == p;
                assert(e.position == groups[k].positions[j]);
                assert(is_later_member(groups, e));
            }
        }
    }
    assert forall|m: int| 0 <= m < requests.len() implies {
        let r = #[trigger] requests[m];
        &&& positions_descend(r.positions)
        &&& exists|k: int|
            0 <= k < groups.len() && (#[trigger] groups[k]).positions.len() >= 2 && r.key
                == track_uri_of(groups[k].key)
    } by {
        let r = requests[m];
        assert(r.positions == positions_of(plan, r.key) && r.positions.len() >= 1);
        lemma_positions_of_descending(plan, r.key);
        let p = r.positions[0];
        assert(positions_of(plan, r.key).contains(p));
        lemma_positions_of_contains(plan, r.key, p);
        let e = Placed { key: r.key, position: p };
        assert(planned_entries(groups).contains(e));
        assert(is_later_member(groups, e));
        let (k, j) = choose|k: int, j: int|
            0 <= k < groups.len() && 1 <= j < groups[k].positions.len() && e == (Placed {
                key: track_uri_of(groups[k].key),
                position: #[trigger] groups[k].positions[j],
            });
        assert(groups[k].positions.len() >= 2);
    }
}

/// The removal requests for a plan: one for each URI of the plan, with all
/// positions planned for that URI in the order of the plan. Requests stand
/// in the order in which their URIs first occur in the plan. The empty plan
/// gives no request.
pub fn removal_requests(plan: &RemovalPlan) -> (requests: Vec<PositionGroup>)
    ensures
        group_views(requests@) == groups_of(entry_views(plan.entries@)),
        keys_of(group_views(requests@)).no_duplicates(),
        forall|k: int|
            0 <= k < requests.len() ==> {
                let r = #[trigger] requests[k]@;
                r.positions.len() >= 1 && r.positions == positions_of(
                    entry_views(plan.entries@),
                    r.key,
                )
            },
        total_positions(group_views(requests@)) == plan.entries.len(),
        plan.entries.len() == 0 ==> requests.len() == 0,
{
    let requests = group_by_key(&plan.entries);
    proof {
        let entries = entry_views(plan.entries@);
        assert(placed_views(plan.entries@) =~= entries);
        lemma_groups_of(entries);
        lemma_groups_total(entries);
        assert forall|k: int| 0 <= k < requests.len() implies {
            let r = #[trigger] requests[k]@;
            r.positions.len() >= 1 && r.positions == positions_of(entries, r.key)
        } by {
            assert(requests[k]@ == group_views(requests@)[k]);
            assert(requests[k]@ == groups_of(entries)[k]);
        }
        if plan.entries.len() == 0 {
            assert(entries =~= Seq::<Placed>::empty());
            assert(group_views(requests@).len() == 0);
        }
    }
    requests
}

/// How a run stands.
pub enum RunState {
    /// The request at this index is to be sent next.
    Sending(usize),
    /// Every request was answered with success.
    Done,
    /// A request was answered with this status and body, which ended the run.
    Failed(u16, String),
}

/// The run of a removal plan against the remote interface: the requests,
/// how many of them succeeded, and how many occurrences they removed.
pub struct RemovalRun {
    requests: Vec<PositionGroup>,
    sent: usize,
    applied: usize,
    failure: Option<ApiError>,
}

impl RemovalRun {
    /// The requests of the run, in the order in which they are sent.
    pub closed spec fn requests(&self) -> Seq<Group> {
        group_views(self.requests@)
    }

    /// The number of requests that were answered with success.
    pub closed spec fn sent(&self) -> nat {
        self.sent as nat
    }

    /// The number of occurrences removed so far.
    pub closed spec fn applied(&self) -> nat {
        self.applied as nat
    }

    /// The status and body that ended the run, if one did.
    pub closed spec fn failure(&self) -> Option<(u16, Seq<char>)> {
        match self.failure {
            Some(e) => Some((e.status, e.body@)),
            None => None,
        }
    }

    /// The run is consistent: it has sent no more requests than there are,
    /// and has removed what the successful requests hold.
    pub closed spec fn wf(&self) -> bool {
        &&& self.sent <= self.requests@.len()
        &&& self.applied == total_positions(group_views(self.requests@).take(self.sent as int))
        &&& total_positions(group_views(self.requests@)) <= usize::MAX
    }

    /// A request is still to be sent.
    pub open spec fn pending(&self) -> bool {
        self.failure() is None && self.sent() < self.requests().len()
    }

    /// A run of the plan that has sent nothing yet.
    pub fn new(plan: &RemovalPlan) -> (run: RemovalRun)
        ensures
            run.wf(),
            run.requests() == groups_of(entry_views(plan.entries@)),
            run.sent() == 0,
            run.applied() == 0,
            run.failure() is None,
            run.pending() <==> plan.entries.len() > 0,
    {
        let requests = removal_requests(plan);
        proof {
            assert(group_views(requests@).take(0) =~= Seq::<Group>::empty());
            lemma_groups_of(entry_views(plan.entries@));
            if plan.entries.len() > 0 {
                let entries = entry_views(plan.entries@);
                assert(total_positions(group_views(requests@)) > 0);
                assert(group_views(requests@).len() > 0);
            }
        }
        RemovalRun { requests, sent: 0, applied: 0, failure: None }
    }

    /// The request to send next, or `None` when the run has ended. A run of
    /// the empty plan has ended from the start: it sends nothing.
    pub fn next_request(&self) -> (next: Option<&PositionGroup>)
        requires
            self.wf(),
        ensures
            next is Some <==> self.pending(),
            next matches Some(r) ==> r@ == self.requests()[self.sent() as int],
    {
        if self.failure.is_none() && self.sent < self.requests.len() {
            Some(&self.requests[self.sent])
        } else {
            None
        }
    }

    /// Records the answer to the request that was sent last. A success moves
    /// the run on by one request and adds its positions to the count; any
    /// other status ends the run with that status and body.
    pub fn record_response(&mut self, status: u16, body: String)
        requires
            old(self).wf(),
            old(self).pending(),
        ensures
            final(self).wf(),
            final(self).requests() == old(self).requests(),
            status_is_success(status) ==> {
                &&& final(self).failure() is None
                &&& final(self).sent() == old(self).sent() + 1
                &&& final(self).applied() == old(self).applied() + old(self).requests()[old(
                    self,
                ).sent() as int].positions.len()
            },
            !status_is_success(status) ==> {
                &&& final(self).failure() == Some((status, body@))
                &&& final(self).sent() == old(self).sent()
                &&& final(self).applied() == old(self).applied()
            },
    {
        if is_success(status) {
            let sent = self.sent;
            let count = self.requests[sent].positions.len();
            proof {
                let groups = group_views(self.requests@);
                lemma_total_positions_take(groups, sent as int);
                lemma_total_positions_take(groups, sent as int + 1);
                assert(groups[sent as int] == self.requests@[sent as int]@);
            }
            assert(sent < self.requests.len());
            self.applied = self.applied + count;
            self.sent = sent + 1;
        } else {
            self.failure = Some(ApiError { status, body });
        }
    }

    /// How the run stands: which request comes next, or how it ended.
    pub fn state(&self) -> (state: RunState)
        requires
            self.wf(),
        ensures
            match state {
                RunState::Sending(i) => self.pending() && i == self.sent(),
                RunState::Done => self.failure() is None && self.sent() == self.requests().len(),
                RunState::Failed(status, body) => self.failure() == Some((status, body@)),
            },
    {
        match &self.failure {
            Some(e) => RunState::Failed(e.status, e.body.clone()),
            None => {
                if self.sent < self.requests.len() {
                    RunState::Sending(self.sent)
                } else {
                    RunState::Done
                }
            },
        }
    }

    /// The result of a run that has ended: the number of occurrences
    /// removed when every request succeeded, which is the size of the plan;
    /// else the answer that ended the run. `None` while a request is still
    /// to be sent.
    pub fn outcome(&self) -> (result: Option<Result<usize, ApiError>>)
        requires
            self.wf(),
        ensures
            result is None <==> self.pending(),
            self.failure() matches Some(f) ==> result matches Some(Err(e)) && e.status == f.0
                && e.body@ == f.1,
            self.failure() is None && !self.pending() ==> result == Some(
                Ok::<usize, ApiError>(self.applied() as usize),
            ) && self.applied() == total_positions(self.requests()),
    {
        match &self.failure {
            Some(e) => Some(Err(ApiError { status: e.status, body: e.body.clone() })),
            None => {
                if self.sent < self.requests.len() {
                    None
                } else {
                    proof {
                        let groups = group_views(self.requests@);
                        assert(groups.take(self.sent as int) =~= groups);
                    }
                    Some(Ok(self.applied))
                }
            },
        }
    }
}

/// The run of a list of requests that are sent one after another: how many
/// there are, the bodies of the answers so far, and the answer that ended
/// the run if one did. No request follows an answer that was not a success.
pub struct BatchRun {
    total: usize,
    bodies: Vec<String>,
    failure: Option<ApiError>,
}

impl BatchRun {
    /// The number of requests of the run.
    pub closed spec fn total(&self) -> nat {
        self.total as nat
    }

    /// The bodies of the answers that were a success, in the order of the
    /// requests.
    pub closed spec fn answers(&self) -> Seq<Seq<char>> {
        self.bodies@.map_values(|b: String| b@)
    }

    /// The status and body that ended the run, if one did.
    pub closed spec fn failure(&self) -> Option<(u16, Seq<char>)> {
        match self.failure {
            Some(e) => Some((e.status, e.body@)),
            None => None,
        }
    }

    /// The run holds no more answers than it has requests.
    pub closed spec fn wf(&self) -> bool {
        self.bodies@.len() <= self.total
    }

    /// A request is still to be sent: no answer has ended the run, and not
    /// every request has its answer.
    pub open spec fn pending(&self) -> bool {
        self.failure() is None && self.answers().len() < self.total()
    }

    /// A run of `total` requests that has sent nothing yet.
    pub fn new(total: usize) -> (run: BatchRun)
        ensures
            run.wf(),
            run.total() == total,
            run.answers() == Seq::<Seq<char>>::empty(),
            run.failure() is None,
    {
        let run = BatchRun { total, bodies: Vec::new(), failure: None };
        assert(run.answers() =~= Seq::<Seq<char>>::empty());
        run
    }

    /// The index of the request to send next: the number of answers so far;
    /// or `None` when the run has ended, by a failure or with its last
    /// request. A run of no requests has ended from the start.
    pub fn next_index(&self) -> (next: Option<usize>)
        requires
            self.wf(),
        ensures
            next is Some <==> self.pending(),
            next matches Some(i) ==> i == self.answers().len(),
    {
        if self.failure.is_none() && self.bodies.len() < self.total {
            Some(self.bodies.len())
        } else {
            None
        }
    }

    /// Records the answer to the request that was sent last. The body of a
    /// success joins the answers; any other status ends the run with that
    /// status and body.
    pub fn record_response(&mut self, status: u16, body: String)
        requires
            old(self).wf(),
            old(self).pending(),
        ensures
            final(self).wf(),
            final(self).total() == old(self).total(),
            status_is_success(status) ==> final(self).failure() is None && final(self).answers()
                == old(self).answers().push(body@),
            !status_is_success(status) ==> final(self).failure() == Some((status, body@))
                && final(self).answers() == old(self).answers(),
    {
        let ghost before = self.answers();
        if is_success(status) {
            self.bodies.push(body);
            assert(self.answers() =~= before.push(body@));
        } else {
            self.failure = Some(ApiError { status, body });
        }
    }

    /// The result of the run: while a request is still to be sent, `None`;
    /// after a failure, the answer that ended the run; else the bodies of all
    /// answers, one for each request, in the order of the requests.
    pub fn finish(self) -> (result: Option<Result<Vec<String>, ApiError>>)
        requires
            self.wf(),
        ensures
            result is None <==> self.pending(),
            self.failure() matches Some(f) ==> (result matches Some(Err(e)) && e.status == f.0
                && e.body@ == f.1),
            self.failure() is None && !self.pending() ==> (result matches Some(Ok(bodies))
                && bodies@.map_values(|b: String| b@) == self.answers() && bodies.len()
                == self.total()),
    {
        let BatchRun { total, bodies, failure } = self;
        match failure {
            Some(e) => Some(Err(e)),
            None => {
                if bodies.len() < total {
                    None
                } else {
                    Some(Ok(bodies))
                }
            },
        }
    }
}

} // verus!
