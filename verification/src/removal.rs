//! The removal plan: which occurrences of duplicated tracks leave a playlist,
//! and in which order.
//!
//! For each duplicate group the first position is kept and the later ones
//! are planned for removal. The plan is ordered by descending position: a
//! removal at a higher position never renumbers a lower one.

use crate::duplicates::{group_views, Group, Keyed, Placed, PositionGroup};
use vstd::prelude::*;
use vstd::seq_lib::{to_multiset_build, to_multiset_contains, to_multiset_insert, to_multiset_len};

verus! {

/// The playlist-scoped URI of the track with identity `id`.
pub open spec fn track_uri_of(id: Seq<char>) -> Seq<char> {
    "spotify:track:"@ + id
}

/// Two track identities with the same URI are the same identity.
pub proof fn lemma_track_uri_injective(a: Seq<char>, b: Seq<char>)
    requires
        track_uri_of(a) == track_uri_of(b),
    ensures
        a == b,
{
    let prefix = "spotify:track:"@;
    assert(a =~= track_uri_of(a).skip(prefix.len() as int));
    assert(b =~= track_uri_of(b).skip(prefix.len() as int));
}

/// The playlist-scoped URI of the track with identity `id`:
/// `spotify:track:` followed by the identity.
pub fn track_uri(id: &str) -> (uri: String)
    ensures
        uri@ == track_uri_of(id@),
{
    String::from_str("spotify:track:").concat(id)
}

/// One entry of a removal plan: the occurrence of the track with this URI
/// at this position leaves the playlist.
#[derive(Debug, Clone, PartialEq)]
pub struct RemovalEntry {
    /// Playlist-scoped URI of the track.
    pub uri: String,
    /// Position of the occurrence that is removed.
    pub position: usize,
}

impl View for RemovalEntry {
    type V = Placed;

    open spec fn view(&self) -> Placed {
        Placed { key: self.uri@, position: self.position }
    }
}

impl Keyed for RemovalEntry {
    open spec fn placed(&self) -> Placed {
        self@
    }

    fn key(&self) -> (k: &str) {
        self.uri.as_str()
    }

    fn position(&self) -> (p: usize) {
        self.position
    }
}

/// The models of a list of removal entries.
pub open spec fn entry_views(v: Seq<RemovalEntry>) -> Seq<Placed> {
    v.map_values(|e: RemovalEntry| e@)
}

/// A removal plan: its entries by descending position, and how many
/// occurrences it removes.
#[derive(Debug, Clone, PartialEq)]
pub struct RemovalPlan {
    /// The entries, ordered by descending position.
    pub entries: Vec<RemovalEntry>,
    /// Number of occurrences that the plan removes.
    pub total_removed: usize,
}

impl RemovalPlan {
    /// A plan is well formed when its entries are ordered by descending
    /// position and its count is the number of entries.
    pub open spec fn wf(&self) -> bool {
        &&& is_descending(entry_views(self.entries@))
        &&& self.total_removed == self.entries@.len()
    }
}

/// The entries that one group contributes: every position but the first,
/// under the URI of the group's track.
pub open spec fn later_entries(g: Group) -> Seq<Placed> {
    Seq::new(
        if g.positions.len() >= 1 {
            (g.positions.len() - 1) as nat
        } else {
            0
        },
        |j: int| Placed { key: track_uri_of(g.key), position: g.positions[j + 1] },
    )
}

/// The entries that the groups contribute, group after group.
pub open spec fn planned_entries(groups: Seq<Group>) -> Seq<Placed>
    decreases groups.len(),
{
    if groups.len() == 0 {
        Seq::<Placed>::empty()
    } else {
        planned_entries(groups.drop_last()) + later_entries(groups.last())
    }
}

/// The number of positions beyond the first, summed over the groups.
pub open spec fn redundant_count(groups: Seq<Group>) -> nat
    decreases groups.len(),
{
    if groups.len() == 0 {
        0
    } else {
        let last = groups.last().positions.len();
        redundant_count(groups.drop_last()) + if last >= 1 {
            (last - 1) as nat
        } else {
            0
        }
    }
}

/// The entries are ordered by descending position.
pub open spec fn is_descending(s: Seq<Placed>) -> bool {
    forall|i: int, j: int| 0 <= i < j < s.len() ==> s[i].position >= s[j].position
}

/// The entries are ordered by strictly descending position.
pub open spec fn is_strictly_descending(s: Seq<Placed>) -> bool {
    forall|i: int, j: int| 0 <= i < j < s.len() ==> s[i].position > s[j].position
}

/// No two entries share a position.
pub open spec fn distinct_positions(s: Seq<Placed>) -> bool {
    forall|i: int, j: int| 0 <= i < j < s.len() ==> s[i].position != s[j].position
}

/// The number of leading entries whose position is at least `p`: where an
/// entry at position `p` goes into a descending sequence, behind its equals.
pub open spec fn insertion_point(s: Seq<Placed>, p: usize) -> int
    decreases s.len(),
{
    if s.len() == 0 {
        0
    } else if s[0].position < p {
        0
    } else {
        1 + insertion_point(s.drop_first(), p)
    }
}

/// The descending sequence `s` with `e` put in at its place.
pub open spec fn insert_descending(s: Seq<Placed>, e: Placed) -> Seq<Placed> {
    s.insert(insertion_point(s, e.position), e)
}

/// The entries ordered by descending position; entries with the same
/// position keep their order.
pub open spec fn sort_descending(s: Seq<Placed>) -> Seq<Placed>
    decreases s.len(),
{
    if s.len() == 0 {
        Seq::<Placed>::empty()
    } else {
        insert_descending(sort_descending(s.drop_last()), s.last())
    }
}

/// The removal plan for the given duplicate groups.
pub open spec fn plan_of(groups: Seq<Group>) -> Seq<Placed> {
    sort_descending(planned_entries(groups))
}

/// The insertion point lies behind the entries that are at least `p` and
/// before an entry that is smaller.
pub proof fn lemma_insertion_point(s: Seq<Placed>, p: usize)
    ensures
        0 <= insertion_point(s, p) <= s.len(),
        forall|j: int| 0 <= j < insertion_point(s, p) ==> s[j].position >= p,
        insertion_point(s, p) < s.len() ==> s[insertion_point(s, p)].position < p,
    decreases s.len(),
{
    if s.len() > 0 && s[0].position >= p {
        let t = s.drop_first();
        lemma_insertion_point(t, p);
        assert forall|j: int| 0 <= j < insertion_point(s, p) implies s[j].position >= p by {
            if j > 0 {
                assert(s[j] == t[j - 1]);
            }
        }
    }
}

/// An index behind entries that are at least `p`, which is the length or
/// holds a smaller entry, is the insertion point.
pub proof fn lemma_insertion_point_is(s: Seq<Placed>, p: usize, i: int)
    requires
        0 <= i <= s.len(),
        forall|j: int| 0 <= j < i ==> s[j].position >= p,
        i < s.len() ==> s[i].position < p,
    ensures
        insertion_point(s, p) == i,
{
    lemma_insertion_point(s, p);
    let k = insertion_point(s, p);
    if k < i {
        assert(s[k].position >= p);
    } else if k > i {
        assert(s[i].position >= p);
    }
}

/// Sorting rearranges: the result holds the same entries, each as often
/// as before, and is ordered by descending position.
pub proof fn lemma_sort_descending(s: Seq<Placed>)
    ensures
        sort_descending(s).len() == s.len(),
        sort_descending(s).to_multiset() == s.to_multiset(),
        forall|e: Placed| sort_descending(s).contains(e) <==> s.contains(e),
        is_descending(sort_descending(s)),
    decreases s.len(),
{
    if s.len() == 0 {
        assert(s =~= Seq::<Placed>::empty());
    } else {
        let init = s.drop_last();
        let e = s.last();
        let sorted = sort_descending(init);
        lemma_sort_descending(init);
        lemma_insertion_point(sorted, e.position);
        let k = insertion_point(sorted, e.position);
        let out = sorted.insert(k, e);
        sorted.insert_ensures(k, e);
        to_multiset_insert(sorted, k, e);
        assert(init.push(e) =~= s);
        to_multiset_build(init, e);
        assert(out == sort_descending(s));
        assert(out.to_multiset() == sorted.to_multiset().insert(e));
        assert(s.to_multiset() == init.to_multiset().insert(e));
        assert(out.to_multiset() == s.to_multiset());
        assert forall|x: Placed| out.contains(x) <==> s.contains(x) by {
            to_multiset_contains(out, x);
            to_multiset_contains(s, x);
        }
        assert forall|i: int, j: int| 0 <= i < j < out.len() implies out[i].position
            >= out[j].position by {
            if j < k {
                assert(out[i] == sorted[i] && out[j] == sorted[j]);
            } else if j == k {
                assert(out[i] == sorted[i]);
            } else if i < k {
                assert(out[i] == sorted[i] && out[j] == sorted[j - 1]);
                if k < sorted.len() {
                    assert(sorted[k].position < e.position);
                }
            } else if i == k {
                assert(out[j] == sorted[j - 1]);
            } else {
                assert(out[i] == sorted[i - 1] && out[j] == sorted[j - 1]);
            }
        }
    }
}

/// Sorting what is already ordered changes nothing; so sorting twice gives
/// what sorting once gives.
pub proof fn lemma_sort_descending_idempotent(s: Seq<Placed>)
    ensures
        is_descending(s) ==> sort_descending(s) == s,
        sort_descending(sort_descending(s)) == sort_descending(s),
{
    lemma_sort_of_descending(s);
    lemma_sort_descending(s);
    lemma_sort_of_descending(sort_descending(s));
}

/// Sorting what is already ordered changes nothing.
pub proof fn lemma_sort_of_descending(s: Seq<Placed>)
    ensures
        is_descending(s) ==> sort_descending(s) == s,
    decreases s.len(),
{
    if s.len() > 0 && is_descending(s) {
        let init = s.drop_last();
        assert forall|i: int, j: int| 0 <= i < j < init.len() implies init[i].position
            >= init[j].position by {
            assert(init[i] == s[i] && init[j] == s[j]);
        }
        lemma_sort_of_descending(init);
        assert forall|j: int| 0 <= j < init.len() implies init[j].position
            >= s.last().position by {
            assert(init[j] == s[j]);
        }
        lemma_insertion_point_is(init, s.last().position, init.len() as int);
        assert(init.insert(init.len() as int, s.last()) =~= s);
    } else if s.len() == 0 {
        assert(sort_descending(s) =~= s);
    }
}

/// Sorting entries that share no position gives a strictly descending
/// sequence.
pub proof fn lemma_sort_distinct(s: Seq<Placed>)
    requires
        distinct_positions(s),
    ensures
        is_strictly_descending(sort_descending(s)),
        distinct_positions(sort_descending(s)),
{
    lemma_sort_descending(s);
    let out = sort_descending(s);
    assert forall|i: int, j: int| 0 <= i < j < out.len() implies #[trigger] out[i].position
        > #[trigger] out[j].position by {
        let x = out[i];
        let y = out[j];
        assert(x.position >= y.position);
        if x.position == y.position {
            if x == y {
                // One entry twice in the result is twice in the input.
                to_multiset_count_twice(out, i, j);
                to_multiset_count_positions(s, x);
            } else {
                assert(out.contains(x));
                assert(out.contains(y));
                assert(s.contains(x));
                assert(s.contains(y));
                let a = choose|a: int| 0 <= a < s.len() && s[a] == x;
                let b = choose|b: int| 0 <= b < s.len() && s[b] == y;
                if a < b {
                    assert(s[a].position != s[b].position);
                } else {
                    assert(s[b].position != s[a].position);
                }
            }
        }
    }
}

/// An entry that stands at two indices counts at least twice.
proof fn to_multiset_count_twice(s: Seq<Placed>, i: int, j: int)
    requires
        0 <= i < j < s.len(),
        s[i] == s[j],
    ensures
        s.to_multiset().count(s[i]) >= 2,
    decreases s.len(),
{
    let init = s.drop_last();
    assert(init.push(s.last()) =~= s);
    to_multiset_build(init, s.last());
    if j == s.len() - 1 {
        to_multiset_contains(init, s[i]);
        assert(init[i] == s[i]);
        assert(init.contains(s[i]));
    } else {
        assert(init[i] == s[i] && init[j] == s[j]);
        to_multiset_count_twice(init, i, j);
    }
}

/// Among entries that share no position, no entry counts twice.
proof fn to_multiset_count_positions(s: Seq<Placed>, e: Placed)
    requires
        distinct_positions(s),
    ensures
        s.to_multiset().count(e) <= 1,
    decreases s.len(),
{
    if s.len() == 0 {
        to_multiset_len(s);
        assert(s.to_multiset().len() == 0);
        assert(s.to_multiset().count(e) <= s.to_multiset().len()) by {
            vstd::multiset::lemma_multiset_empty_len(s.to_multiset());
        }
    } else {
        let init = s.drop_last();
        assert(init.push(s.last()) =~= s);
        to_multiset_build(init, s.last());
        assert forall|i: int, j: int| 0 <= i < j < init.len() implies init[i].position
            != init[j].position by {
            assert(init[i] == s[i] && init[j] == s[j]);
        }
        to_multiset_count_positions(init, e);
        if s.last() == e {
            to_multiset_contains(init, e);
            if init.contains(e) {
                let a = choose|a: int| 0 <= a < init.len() && init[a] == e;
                assert(s[a] == e);
                assert(s[a].position != s[s.len() - 1].position);
            }
        }
    }
}

/// The entry `e` stands for a position of some group that is not the
/// group's first.
pub open spec fn is_later_member(groups: Seq<Group>, e: Placed) -> bool {
    exists|k: int, j: int|
        0 <= k < groups.len() && 1 <= j < groups[k].positions.len() && e == (Placed {
            key: track_uri_of(groups[k].key),
            position: #[trigger] groups[k].positions[j],
        })
}

/// The planned entries are as many as there are positions beyond the first
/// of each group, and they are exactly those positions.
pub proof fn lemma_planned_entries(groups: Seq<Group>)
    ensures
        planned_entries(groups).len() == redundant_count(groups),
        forall|e: Placed|
            #![trigger planned_entries(groups).contains(e)]
            #![trigger is_later_member(groups, e)]
            planned_entries(groups).contains(e) <==> is_later_member(groups, e),
    decreases groups.len(),
{
    if groups.len() == 0 {
    } else {
        let init = groups.drop_last();
        let last = groups.last();
        let a = planned_entries(init);
        let l = later_entries(last);
        let all = planned_entries(groups);
        lemma_planned_entries(init);
        assert forall|e: Placed| all.contains(e) <==> is_later_member(groups, e) by {
            if all.contains(e) {
                let i = choose|i: int| 0 <= i < all.len() && all[i] == e;
                if i < a.len() {
                    assert(a[i] == e);
                    assert(a.contains(e));
                    assert(is_later_member(init, e));
                    let (k, j) = choose|k: int, j: int|
                        0 <= k < init.len() && 1 <= j < init[k].positions.len() && e == (Placed {
                            key: track_uri_of(init[k].key),
                            position: #[trigger] init[k].positions[j],
                        });
                    assert(groups[k] == init[k]);
                    assert(e.position == groups[k].positions[j]);
                } else {
                    let j = i - a.len();
                    assert(l[j] == e);
                    assert(e.position == groups[groups.len() - 1].positions[j + 1]);
                }
            }
            if is_later_member(groups, e) {
                let (k, j) = choose|k: int, j: int|
                    0 <= k < groups.len() && 1 <= j < groups[k].positions.len() && e == (Placed {
                        key: track_uri_of(groups[k].key),
                        position: #[trigger] groups[k].positions[j],
                    });
                if k == groups.len() - 1 {
                    assert(l[j - 1] == e);
                    assert(all[a.len() + j - 1] == e);
                } else {
                    assert(init[k] == groups[k]);
                    assert(e.position == init[k].positions[j]);
                    assert(is_later_member(init, e));
                    assert(a.contains(e));
                    let i = choose|i: int| 0 <= i < a.len() && a[i] == e;
                    assert(all[i] == e);
                }
            }
        }
    }
}

/// Index at which an entry at `position` goes into the descending entries.
fn insertion_index(entries: &Vec<RemovalEntry>, position: usize) -> (k: usize)
    ensures
        k == insertion_point(entry_views(entries@), position),
        k <= entries.len(),
{
    let mut k: usize = 0;
    while k < entries.len() && entries[k].position >= position
        invariant
            k <= entries.len(),
            forall|j: int| 0 <= j < k ==> entry_views(entries@)[j].position >= position,
        decreases entries.len() - k,
    {
        k += 1;
    }
    proof {
        lemma_insertion_point_is(entry_views(entries@), position, k as int);
    }
    k
}

/// The removal plan for the given duplicate groups. The first position of
/// each group is kept; every later one becomes an entry under the track's
/// URI. The entries are ordered by descending position, and the count is the
/// number of positions beyond the first, summed over the groups. No groups
/// give the empty plan.
pub fn build_removal_plan(duplicates: &Vec<PositionGroup>) -> (plan: RemovalPlan)
    ensures
        entry_views(plan.entries@) == plan_of(group_views(duplicates@)),
        plan.total_removed == redundant_count(group_views(duplicates@)),
        plan.wf(),
        forall|e: Placed|
            entry_views(plan.entries@).contains(e) <==> is_later_member(
                group_views(duplicates@),
                e,
            ),
{
    let ghost groups = group_views(duplicates@);
    let mut entries: Vec<RemovalEntry> = Vec::new();
    let mut k: usize = 0;
    proof {
        assert(groups.take(0) =~= Seq::<Group>::empty());
        assert(entry_views(entries@) =~= Seq::<Placed>::empty());
    }
    while k < duplicates.len()
        invariant
            k <= duplicates.len(),
            groups == group_views(duplicates@),
            entry_views(entries@) == sort_descending(planned_entries(groups.take(k as int))),
        decreases duplicates.len() - k,
    {
        let group = &duplicates[k];
        let ghost done = planned_entries(groups.take(k as int));
        let ghost later = later_entries(groups[k as int]);
        let mut j: usize = 1;
        proof {
            assert(groups[k as int] == group@);
            assert(done + later.take(0) =~= done);
        }
        while j < group.positions.len()
            invariant
                1 <= j,
                j <= group.positions.len() || j == 1,
                later == later_entries(group@),
                entry_views(entries@) == sort_descending(done + later.take(j - 1)),
            decreases group.positions.len() - j,
        {
            let position = group.positions[j];
            let at = insertion_index(&entries, position);
            let ghost before = entry_views(entries@);
            let ghost so_far = done + later.take(j - 1);
            let ghost entry = later[j - 1];
            entries.insert(at, RemovalEntry { uri: track_uri(group.key.as_str()), position });
            proof {
                assert(entry == Placed { key: track_uri_of(group@.key), position });
                assert(entry_views(entries@) =~= before.insert(at as int, entry));
                let next = done + later.take(j as int);
                assert(next.drop_last() =~= so_far);
                assert(next.last() == entry);
            }
            j += 1;
        }
        proof {
            let next = groups.take(k as int + 1);
            assert(next.drop_last() =~= groups.take(k as int));
            assert(next.last() == groups[k as int]);
            assert(later.take(j - 1) =~= later);
        }
        k += 1;
    }
    proof {
        assert(groups.take(duplicates.len() as int) =~= groups);
        lemma_planned_entries(groups);
        lemma_sort_descending(planned_entries(groups));
    }
    let total_removed = entries.len();
    RemovalPlan { entries, total_removed }
}

} // verus!
