//! Playlist snapshots, and what holds of the removal plan that is computed
//! from one.
//!
//! A snapshot is the list of a playlist's occurrences in playlist order, each
//! at the position that is its index. The removal plan of a snapshot removes
//! every occurrence of a track but the first; what remains holds no track
//! twice.

use crate::duplicates::{
    duplicates_of, groups_of, keys_of, lemma_duplicates_report, lemma_groups_of,
    lemma_positions_of_contains, lemma_repeated_contains, occurrence_views, positions_of,
    repeated, Group, Placed, TrackOccurrence,
};
use crate::removal::{
    distinct_positions, entry_views, is_later_member, is_strictly_descending,
    lemma_planned_entries, lemma_sort_descending, lemma_sort_distinct, lemma_track_uri_injective,
    plan_of, planned_entries, track_uri, track_uri_of, RemovalEntry,
};
use crate::text::{index_of, lemma_index_of};
use vstd::prelude::*;

verus! {

/// The occurrences form a playlist snapshot: each stands at the position
/// that is its index.
pub open spec fn is_snapshot(occurrences: Seq<Placed>) -> bool {
    forall|i: int| 0 <= i < occurrences.len() ==> (#[trigger] occurrences[i]).position == i
}

/// The occurrence at index `i` is the first of its track.
pub open spec fn is_first(occurrences: Seq<Placed>, i: int) -> bool {
    forall|j: int| 0 <= j < i ==> (#[trigger] occurrences[j]).key != occurrences[i].key
}

/// The plan holds an entry for the occurrence `o`: one with the URI of its
/// track and with its position.
pub open spec fn is_planned(plan: Seq<Placed>, o: Placed) -> bool {
    plan.contains(Placed { key: track_uri_of(o.key), position: o.position })
}

/// The snapshot that is left when the planned occurrences are removed: the
/// occurrences without an entry in the plan, in their order, at their new
/// positions.
pub open spec fn remaining(occurrences: Seq<Placed>, plan: Seq<Placed>) -> Seq<Placed>
    decreases occurrences.len(),
{
    if occurrences.len() == 0 {
        Seq::<Placed>::empty()
    } else {
        let rest = remaining(occurrences.drop_last(), plan);
        if is_planned(plan, occurrences.last()) {
            rest
        } else {
            rest.push(Placed { key: occurrences.last().key, position: rest.len() as usize })
        }
    }
}

/// No position stands in two places of the groups.
pub open spec fn separated(groups: Seq<Group>) -> bool {
    forall|k: int, j: int, k2: int, j2: int|
        0 <= k < groups.len() && 0 <= j < groups[k].positions.len() && 0 <= k2 < groups.len() && 0
            <= j2 < groups[k2].positions.len() && (k != k2 || j != j2) ==> #[trigger] groups[k].positions[j]
            != #[trigger] groups[k2].positions[j2]
}

/// In a snapshot the positions of a track are indices of occurrences of
/// that track, they ascend, and none is left out.
pub proof fn lemma_snapshot_positions(occurrences: Seq<Placed>, key: Seq<char>)
    requires
        is_snapshot(occurrences),
    ensures
        forall|j: int|
            0 <= j < positions_of(occurrences, key).len() ==> {
                let p = #[trigger] positions_of(occurrences, key)[j];
                p < occurrences.len() && occurrences[p as int].key == key
            },
        forall|a: int, b: int|
            0 <= a < b < positions_of(occurrences, key).len() ==> positions_of(occurrences, key)[a]
                < positions_of(occurrences, key)[b],
        forall|i: int|
            0 <= i < occurrences.len() && (#[trigger] occurrences[i]).key == key ==> positions_of(
                occurrences,
                key,
            ).contains(i as usize),
    decreases occurrences.len(),
{
    let ps = positions_of(occurrences, key);
    if occurrences.len() == 0 {
    } else {
        let init = occurrences.drop_last();
        assert forall|i: int| 0 <= i < init.len() implies (#[trigger] init[i]).position == i by {
            assert(init[i] == occurrences[i]);
        }
        lemma_snapshot_positions(init, key);
        let before = positions_of(init, key);
        assert forall|j: int| 0 <= j < ps.len() implies {
            let p = #[trigger] ps[j];
            p < occurrences.len() && occurrences[p as int].key == key
        } by {
            if j < before.len() {
                assert(ps[j] == before[j]);
                assert(init[before[j] as int] == occurrences[before[j] as int]);
            }
        }
        assert forall|a: int, b: int| 0 <= a < b < ps.len() implies ps[a] < ps[b] by {
            assert(ps[a] == before[a]);
            if b < before.len() {
                assert(ps[b] == before[b]);
            }
        }
    }
    assert forall|i: int|
        0 <= i < occurrences.len() && (#[trigger] occurrences[i]).key == key implies ps.contains(
        i as usize,
    ) by {
        lemma_positions_of_contains(occurrences, key, i as usize);
        assert(occurrences[i] == Placed { key, position: i as usize });
    }
}

/// Groups with distinct keys keep distinct keys when only the repeated ones
/// are taken.
pub proof fn lemma_repeated_keys(groups: Seq<Group>)
    requires
        keys_of(groups).no_duplicates(),
    ensures
        keys_of(repeated(groups)).no_duplicates(),
    decreases groups.len(),
{
    if groups.len() > 0 {
        let init = groups.drop_last();
        assert(keys_of(init) =~= keys_of(groups).drop_last());
        lemma_repeated_keys(init);
        let r0 = repeated(init);
        let r = repeated(groups);
        if groups.last().positions.len() >= 2 {
            assert forall|i: int, j: int| 0 <= i < r.len() && 0 <= j < r.len() && i != j implies keys_of(
                r,
            )[i] != keys_of(r)[j] by {
                if i < r0.len() && j < r0.len() {
                    assert(keys_of(r0)[i] != keys_of(r0)[j]);
                } else {
                    let inner = if i < r0.len() {
                        i
                    } else {
                        j
                    };
                    let g = r0[inner];
                    assert(r0.contains(g));
                    lemma_repeated_contains(init, g);
                    let m = choose|m: int| 0 <= m < init.len() && init[m] == g;
                    assert(keys_of(groups)[m] != keys_of(groups)[groups.len() - 1]);
                }
            }
        }
    }
}

/// The duplicate groups of a snapshot hold each position once.
pub proof fn lemma_snapshot_separated(occurrences: Seq<Placed>)
    requires
        is_snapshot(occurrences),
    ensures
        separated(duplicates_of(occurrences)),
{
    let dups = duplicates_of(occurrences);
    lemma_groups_of(occurrences);
    lemma_repeated_keys(groups_of(occurrences));
    lemma_duplicates_report(occurrences);
    assert forall|k: int, j: int, k2: int, j2: int|
        0 <= k < dups.len() && 0 <= j < dups[k].positions.len() && 0 <= k2 < dups.len() && 0 <= j2
            < dups[k2].positions.len() && (k != k2 || j != j2) implies #[trigger] dups[k].positions[j]
        != #[trigger] dups[k2].positions[j2] by {
        let g = dups[k];
        let g2 = dups[k2];
        lemma_snapshot_positions(occurrences, g.key);
        lemma_snapshot_positions(occurrences, g2.key);
        assert(g.positions == positions_of(occurrences, g.key));
        assert(g2.positions == positions_of(occurrences, g2.key));
        if k == k2 {
            if j < j2 {
                assert(g.positions[j] < g.positions[j2]);
            } else {
                assert(g.positions[j2] < g.positions[j]);
            }
        } else {
            assert(keys_of(dups)[k] != keys_of(dups)[k2]);
            let p = positions_of(occurrences, g.key)[j];
            let q = positions_of(occurrences, g2.key)[j2];
            if p == q {
                assert(occurrences[p as int].key == g.key);
                assert(occurrences[q as int].key == g2.key);
            }
        }
    }
}

/// The entries planned from separated groups share no position.
pub proof fn lemma_separated_entries(groups: Seq<Group>)
    requires
        separated(groups),
    ensures
        distinct_positions(planned_entries(groups)),
    decreases groups.len(),
{
    if groups.len() > 0 {
        let init = groups.drop_last();
        let last = groups.last();
        let n = groups.len() - 1;
        assert forall|k: int, j: int, k2: int, j2: int|
            0 <= k < init.len() && 0 <= j < init[k].positions.len() && 0 <= k2 < init.len() && 0
                <= j2 < init[k2].positions.len() && (k != k2 || j != j2) implies #[trigger] init[k].positions[j]
            != #[trigger] init[k2].positions[j2] by {
            assert(init[k] == groups[k] && init[k2] == groups[k2]);
            assert(groups[k].positions[j] != groups[k2].positions[j2]);
        }
        lemma_separated_entries(init);
        lemma_planned_entries(init);
        let a = planned_entries(init);
        let all = planned_entries(groups);
        assert forall|x: int, y: int| 0 <= x < y < all.len() implies all[x].position
            != all[y].position by {
            if y < a.len() {
                assert(all[x] == a[x] && all[y] == a[y]);
            } else if x >= a.len() {
                let j = x - a.len() + 1;
                let j2 = y - a.len() + 1;
                assert(all[x].position == groups[n].positions[j]);
                assert(all[y].position == groups[n].positions[j2]);
            } else {
                let e = a[x];
                assert(all[x] == e);
                assert(a.contains(e));
                assert(is_later_member(init, e));
                let (k, j) = choose|k: int, j: int|
                    0 <= k < init.len() && 1 <= j < init[k].positions.len() && e == (Placed {
                        key: track_uri_of(init[k].key),
                        position: #[trigger] init[k].positions[j],
                    });
                assert(init[k] == groups[k]);
                let j2 = y - a.len() + 1;
                assert(all[y].position == groups[n].positions[j2]);
                assert(groups[k].positions[j] != groups[n].positions[j2]);
            }
        }
    }
}

/// The removal plan of a snapshot is ordered by strictly descending
/// position.
pub proof fn lemma_plan_strictly_descending(occurrences: Seq<Placed>)
    requires
        is_snapshot(occurrences),
    ensures
        is_strictly_descending(plan_of(duplicates_of(occurrences))),
{
    lemma_snapshot_separated(occurrences);
    lemma_separated_entries(duplicates_of(occurrences));
    lemma_sort_distinct(planned_entries(duplicates_of(occurrences)));
}

/// In a snapshot the plan holds an entry for an occurrence exactly when the
/// occurrence is not the first of its track.
pub proof fn lemma_planned_iff_not_first(occurrences: Seq<Placed>, i: int)
    requires
        is_snapshot(occurrences),
        0 <= i < occurrences.len(),
    ensures
        is_planned(plan_of(duplicates_of(occurrences)), occurrences[i]) <==> !is_first(
            occurrences,
            i,
        ),
{
    let dups = duplicates_of(occurrences);
    let groups = groups_of(occurrences);
    let plan = plan_of(dups);
    let key = occurrences[i].key;
    let ps = positions_of(occurrences, key);
    let e = Placed { key: track_uri_of(key), position: occurrences[i].position };
    lemma_sort_descending(planned_entries(dups));
    lemma_planned_entries(dups);
    lemma_duplicates_report(occurrences);
    lemma_snapshot_positions(occurrences, key);
    lemma_groups_of(occurrences);
    assert(occurrences[i].position == i);
    if !is_first(occurrences, i) {
        let j = choose|j: int| 0 <= j < i && (#[trigger] occurrences[j]).key == occurrences[i].key;
        assert(ps.contains(j as usize));
        assert(ps.contains(i as usize));
        let x = choose|x: int| 0 <= x < ps.len() && ps[x] == j as usize;
        let y = choose|y: int| 0 <= y < ps.len() && ps[y] == i as usize;
        assert(x != y);
        if y == 0 {
            assert(ps[0] < ps[x]);
        }
        let m = index_of(keys_of(groups), key);
        lemma_index_of(keys_of(groups), key);
        assert(keys_of(groups)[m] == key);
        let g = groups[m];
        assert(g.positions == ps);
        assert(groups.contains(g));
        lemma_repeated_contains(groups, g);
        let k = choose|k: int| 0 <= k < dups.len() && dups[k] == g;
        assert(e.position == dups[k].positions[y]);
        assert(is_later_member(dups, e));
        assert(planned_entries(dups).contains(e));
        assert(plan.contains(e));
    }
    if is_planned(plan, occurrences[i]) {
        assert(plan.contains(e));
        assert(planned_entries(dups).contains(e));
        assert(is_later_member(dups, e));
        let (k, j) = choose|k: int, j: int|
            0 <= k < dups.len() && 1 <= j < dups[k].positions.len() && e == (Placed {
                key: track_uri_of(dups[k].key),
                position: #[trigger] dups[k].positions[j],
            });
        lemma_track_uri_injective(dups[k].key, key);
        assert(dups[k].positions == ps);
        assert(ps[0] < ps[j]);
        let first = ps[0];
        assert(occurrences[first as int].key == key);
    }
}

/// In a snapshot the plan never holds the first position of a duplicate
/// group: the first occurrence of every track is kept.
pub proof fn lemma_first_occurrence_kept(occurrences: Seq<Placed>, k: int)
    requires
        is_snapshot(occurrences),
        0 <= k < duplicates_of(occurrences).len(),
    ensures
        duplicates_of(occurrences)[k].positions.len() >= 2,
        !plan_of(duplicates_of(occurrences)).contains(
            Placed {
                key: track_uri_of(duplicates_of(occurrences)[k].key),
                position: duplicates_of(occurrences)[k].positions[0],
            },
        ),
{
    let dups = duplicates_of(occurrences);
    let g = dups[k];
    lemma_duplicates_report(occurrences);
    assert(g.positions == positions_of(occurrences, g.key));
    lemma_snapshot_positions(occurrences, g.key);
    let ps = positions_of(occurrences, g.key);
    let p = ps[0];
    assert(occurrences[p as int].key == g.key);
    assert forall|j: int| 0 <= j < p implies (#[trigger] occurrences[j]).key != occurrences[p as int].key by {
        if occurrences[j].key == g.key {
            assert(ps.contains(j as usize));
            let x = choose|x: int| 0 <= x < ps.len() && ps[x] == j as usize;
            if x > 0 {
                assert(ps[0] < ps[x]);
            }
        }
    }
    assert(is_first(occurrences, p as int));
    lemma_planned_iff_not_first(occurrences, p as int);
    assert(occurrences[p as int].position == p);
}

/// Groups that all hold fewer than two positions have no repeated group.
pub proof fn lemma_repeated_none(groups: Seq<Group>)
    requires
        forall|k: int| 0 <= k < groups.len() ==> (#[trigger] groups[k]).positions.len() < 2,
    ensures
        repeated(groups) == Seq::<Group>::empty(),
    decreases groups.len(),
{
    if groups.len() > 0 {
        let init = groups.drop_last();
        assert forall|k: int| 0 <= k < init.len() implies (#[trigger] init[k]).positions.len()
            < 2 by {
            assert(init[k] == groups[k]);
        }
        lemma_repeated_none(init);
        assert(groups[groups.len() - 1].positions.len() < 2);
    }
}

/// Some occurrence before index `n` is of the track `key`.
pub open spec fn occurs_before(occurrences: Seq<Placed>, n: int, key: Seq<char>) -> bool {
    exists|i: int| 0 <= i < n && (#[trigger] occurrences[i]).key == key
}

/// Of the first `n` occurrences of a snapshot, what remains after the plan
/// holds each track that occurs among them once, and no other track.
proof fn lemma_remaining_prefix(occurrences: Seq<Placed>, n: int)
    requires
        is_snapshot(occurrences),
        0 <= n <= occurrences.len(),
    ensures
        forall|key: Seq<char>|
            (#[trigger] positions_of(
                remaining(occurrences.take(n), plan_of(duplicates_of(occurrences))),
                key,
            )).len() == if occurs_before(occurrences, n, key) {
                1nat
            } else {
                0nat
            },
    decreases n,
{
    let plan = plan_of(duplicates_of(occurrences));
    let prefix = occurrences.take(n);
    if n == 0 {
        assert(prefix =~= Seq::<Placed>::empty());
    } else {
        let o = occurrences[n - 1];
        assert(prefix.drop_last() =~= occurrences.take(n - 1));
        assert(prefix.last() == o);
        lemma_remaining_prefix(occurrences, n - 1);
        lemma_planned_iff_not_first(occurrences, n - 1);
        let before = remaining(occurrences.take(n - 1), plan);
        let here = remaining(prefix, plan);
        assert forall|key: Seq<char>|
            (#[trigger] positions_of(here, key)).len() == if occurs_before(occurrences, n, key) {
                1nat
            } else {
                0nat
            } by {
            let count_before = positions_of(before, key).len();
            assert(count_before == if occurs_before(occurrences, n - 1, key) {
                1nat
            } else {
                0nat
            });
            if occurs_before(occurrences, n - 1, key) {
                let i = choose|i: int| 0 <= i < n - 1 && (#[trigger] occurrences[i]).key == key;
                assert(occurs_before(occurrences, n, key));
            }
            if occurs_before(occurrences, n, key) && !occurs_before(occurrences, n - 1, key) {
                let i = choose|i: int| 0 <= i < n && (#[trigger] occurrences[i]).key == key;
                assert(i == n - 1);
            }
            if is_planned(plan, o) {
                assert(here == before);
                let j = choose|j: int| 0 <= j < n - 1 && (#[trigger] occurrences[j]).key == o.key;
                if key == o.key {
                    assert(occurs_before(occurrences, n - 1, key));
                }
            } else {
                let added = Placed { key: o.key, position: before.len() as usize };
                assert(here == before.push(added));
                assert(here.drop_last() =~= before);
                assert(here.last() == added);
                if key == o.key {
                    assert(is_first(occurrences, n - 1));
                    if occurs_before(occurrences, n - 1, key) {
                        let i = choose|i: int|
                            0 <= i < n - 1 && (#[trigger] occurrences[i]).key == key;
                        assert(occurrences[i].key != occurrences[n - 1].key);
                    }
                    assert(occurs_before(occurrences, n, key));
                }
            }
        }
    }
}

/// What remains of a snapshot after its removal plan has no duplicates.
pub proof fn lemma_no_duplicates_after_removal(occurrences: Seq<Placed>)
    requires
        is_snapshot(occurrences),
    ensures
        duplicates_of(remaining(occurrences, plan_of(duplicates_of(occurrences))))
            == Seq::<Group>::empty(),
{
    let plan = plan_of(duplicates_of(occurrences));
    let rest = remaining(occurrences, plan);
    lemma_remaining_prefix(occurrences, occurrences.len() as int);
    assert(occurrences.take(occurrences.len() as int) =~= occurrences);
    lemma_groups_of(rest);
    let groups = groups_of(rest);
    assert forall|k: int| 0 <= k < groups.len() implies (#[trigger] groups[k]).positions.len()
        < 2 by {
        assert(groups[k].positions == positions_of(rest, groups[k].key));
    }
    lemma_repeated_none(groups);
}

/// What remains of any list of occurrences after any plan is a snapshot.
pub proof fn lemma_remaining_is_snapshot(occurrences: Seq<Placed>, plan: Seq<Placed>)
    requires
        occurrences.len() <= usize::MAX,
    ensures
        is_snapshot(remaining(occurrences, plan)),
        remaining(occurrences, plan).len() <= occurrences.len(),
    decreases occurrences.len(),
{
    if occurrences.len() > 0 {
        lemma_remaining_is_snapshot(occurrences.drop_last(), plan);
    }
}

/// The track identities of the occurrences, in order.
pub open spec fn identities(occurrences: Seq<Placed>) -> Seq<Seq<char>> {
    occurrences.map_values(|o: Placed| o.key)
}

/// The playlist after one removal request: the track at the entry's
/// position leaves if it is the entry's track, and the tracks behind it move
/// up; else nothing changes.
pub open spec fn remove_entry(ids: Seq<Seq<char>>, e: Placed) -> Seq<Seq<char>> {
    if e.position < ids.len() && track_uri_of(ids[e.position as int]) == e.key {
        ids.remove(e.position as int)
    } else {
        ids
    }
}

/// The playlist after the removal requests of a plan, one after another in
/// the order of the plan.
pub open spec fn remove_in_order(ids: Seq<Seq<char>>, plan: Seq<Placed>) -> Seq<Seq<char>>
    decreases plan.len(),
{
    if plan.len() == 0 {
        ids
    } else {
        remove_in_order(remove_entry(ids, plan[0]), plan.drop_first())
    }
}

/// The tracks that the plan does not name: those for which it holds no
/// entry with their URI and their index.
pub open spec fn kept(ids: Seq<Seq<char>>, plan: Seq<Placed>) -> Seq<Seq<char>>
    decreases ids.len(),
{
    if ids.len() == 0 {
        Seq::<Seq<char>>::empty()
    } else {
        let rest = kept(ids.drop_last(), plan);
        if plan.contains(
            Placed { key: track_uri_of(ids.last()), position: (ids.len() - 1) as usize },
        ) {
            rest
        } else {
            rest.push(ids.last())
        }
    }
}

/// Every entry of the plan names a track of the playlist: at its position
/// stands the track with its URI.
pub open spec fn names_tracks(plan: Seq<Placed>, ids: Seq<Seq<char>>) -> bool {
    forall|k: int|
        0 <= k < plan.len() ==> (#[trigger] plan[k]).position < ids.len() && plan[k].key
            == track_uri_of(ids[plan[k].position as int])
}

/// Plans that hold the same entries at the positions of the playlist keep
/// the same tracks.
proof fn lemma_kept_agree(ids: Seq<Seq<char>>, a: Seq<Placed>, b: Seq<Placed>)
    requires
        ids.len() <= usize::MAX,
        forall|e: Placed| e.position < ids.len() ==> (a.contains(e) <==> b.contains(e)),
    ensures
        kept(ids, a) == kept(ids, b),
    decreases ids.len(),
{
    if ids.len() > 0 {
        lemma_kept_agree(ids.drop_last(), a, b);
    }
}

/// Removing the track of the plan's first entry, which stands behind the
/// tracks of all other entries, and keeping what the other entries do not
/// name, keeps what the plan does not name.
proof fn lemma_kept_after_first(ids: Seq<Seq<char>>, plan: Seq<Placed>)
    requires
        ids.len() <= usize::MAX,
        plan.len() > 0,
        is_strictly_descending(plan),
        plan[0].position < ids.len(),
        plan[0].key == track_uri_of(ids[plan[0].position as int]),
    ensures
        kept(ids.remove(plan[0].position as int), plan.drop_first()) == kept(ids, plan),
    decreases ids.len(),
{
    let first = plan[0];
    let at = first.position as int;
    let rest = plan.drop_first();
    let n = ids.len();
    let last = ids.last();
    let init = ids.drop_last();
    // No other entry stands at or behind the first entry's position.
    assert forall|e: Placed| rest.contains(e) implies e.position < first.position by {
        let k = choose|k: int| 0 <= k < rest.len() && rest[k] == e;
        assert(plan[k + 1] == e);
        assert(plan[0].position > plan[k + 1].position);
    }
    assert forall|e: Placed| plan.contains(e) <==> e == first || rest.contains(e) by {
        if plan.contains(e) {
            let k = choose|k: int| 0 <= k < plan.len() && plan[k] == e;
            if k > 0 {
                assert(rest[k - 1] == e);
            }
        }
        if rest.contains(e) {
            let k = choose|k: int| 0 <= k < rest.len() && rest[k] == e;
            assert(plan[k + 1] == e);
        }
        if e == first {
            assert(plan[0] == e);
        }
    }
    if at == n - 1 {
        assert(ids.remove(at) =~= init);
        assert(plan.contains(first));
        assert(first == Placed { key: track_uri_of(last), position: (n - 1) as usize });
        lemma_kept_agree(init, plan, rest);
    } else {
        let shorter = ids.remove(at);
        assert(shorter.drop_last() =~= init.remove(at));
        assert(shorter.last() == last);
        assert(init[at] == ids[at]);
        lemma_kept_after_first(init, plan);
        let moved = Placed { key: track_uri_of(last), position: (n - 2) as usize };
        let stays = Placed { key: track_uri_of(last), position: (n - 1) as usize };
        assert(!rest.contains(moved));
        assert(!plan.contains(stays));
    }
}

/// Removing the entries of a plan one after another, from the highest
/// position down, removes exactly the tracks that the plan names: no removal
/// moves a track that is still to be removed.
pub proof fn lemma_remove_in_order(ids: Seq<Seq<char>>, plan: Seq<Placed>)
    requires
        ids.len() <= usize::MAX,
        is_strictly_descending(plan),
        names_tracks(plan, ids),
    ensures
        remove_in_order(ids, plan) == kept(ids, plan),
    decreases plan.len(),
{
    if plan.len() == 0 {
        lemma_kept_none(ids, plan);
    } else {
        let first = plan[0];
        let rest = plan.drop_first();
        let shorter = ids.remove(first.position as int);
        assert(remove_entry(ids, first) == shorter);
        assert forall|i: int, j: int| 0 <= i < j < rest.len() implies rest[i].position
            > rest[j].position by {
            assert(rest[i] == plan[i + 1] && rest[j] == plan[j + 1]);
        }
        assert forall|k: int| 0 <= k < rest.len() implies (#[trigger] rest[k]).position
            < shorter.len() && rest[k].key == track_uri_of(shorter[rest[k].position as int]) by {
            assert(rest[k] == plan[k + 1]);
            assert(plan[0].position > plan[k + 1].position);
            assert(shorter[rest[k].position as int] == ids[rest[k].position as int]);
        }
        lemma_remove_in_order(shorter, rest);
        lemma_kept_after_first(ids, plan);
    }
}

/// The empty plan keeps every track.
proof fn lemma_kept_none(ids: Seq<Seq<char>>, plan: Seq<Placed>)
    requires
        plan.len() == 0,
    ensures
        kept(ids, plan) == ids,
    decreases ids.len(),
{
    if ids.len() > 0 {
        lemma_kept_none(ids.drop_last(), plan);
        assert(ids.drop_last().push(ids.last()) =~= ids);
    } else {
        assert(kept(ids, plan) =~= ids);
    }
}

/// What remains of a snapshot after a plan holds the tracks that the plan
/// does not name.
pub proof fn lemma_remaining_identities(occurrences: Seq<Placed>, plan: Seq<Placed>)
    requires
        is_snapshot(occurrences),
    ensures
        identities(remaining(occurrences, plan)) == kept(identities(occurrences), plan),
    decreases occurrences.len(),
{
    let ids = identities(occurrences);
    if occurrences.len() == 0 {
        assert(identities(remaining(occurrences, plan)) =~= kept(ids, plan));
    } else {
        let init = occurrences.drop_last();
        assert forall|i: int| 0 <= i < init.len() implies (#[trigger] init[i]).position == i by {
            assert(init[i] == occurrences[i]);
        }
        lemma_remaining_identities(init, plan);
        assert(ids.drop_last() =~= identities(init));
        assert(ids.last() == occurrences.last().key);
        assert(occurrences[occurrences.len() - 1].position == occurrences.len() - 1);
        assert(identities(remaining(occurrences, plan)) =~= kept(ids, plan));
    }
}

/// Sending the removal requests of a snapshot's plan one after another, in
/// the order of the plan, leaves the playlist that the plan describes: the
/// snapshot without the planned occurrences.
pub proof fn lemma_plan_applies_in_order(occurrences: Seq<Placed>)
    requires
        is_snapshot(occurrences),
        occurrences.len() <= usize::MAX,
    ensures
        remove_in_order(identities(occurrences), plan_of(duplicates_of(occurrences)))
            == identities(remaining(occurrences, plan_of(duplicates_of(occurrences)))),
{
    let dups = duplicates_of(occurrences);
    let plan = plan_of(dups);
    let ids = identities(occurrences);
    lemma_plan_strictly_descending(occurrences);
    lemma_sort_descending(planned_entries(dups));
    lemma_planned_entries(dups);
    lemma_duplicates_report(occurrences);
    assert forall|k: int| 0 <= k < plan.len() implies (#[trigger] plan[k]).position < ids.len()
        && plan[k].key == track_uri_of(ids[plan[k].position as int]) by {
        let e = plan[k];
        assert(plan.contains(e));
        assert(planned_entries(dups).contains(e));
        assert(is_later_member(dups, e));
        let (g, j) = choose|g: int, j: int|
            0 <= g < dups.len() && 1 <= j < dups[g].positions.len() && e == (Placed {
                key: track_uri_of(dups[g].key),
                position: #[trigger] dups[g].positions[j],
            });
        lemma_snapshot_positions(occurrences, dups[g].key);
        assert(dups[g].positions == positions_of(occurrences, dups[g].key));
        let p = positions_of(occurrences, dups[g].key)[j];
        assert(p < occurrences.len() && occurrences[p as int].key == dups[g].key);
        assert(ids[p as int] == occurrences[p as int].key);
    }
    lemma_remove_in_order(ids, plan);
    lemma_remaining_identities(occurrences, plan);
}

/// The snapshot of a playlist with the given track identities, in playlist
/// order.
pub fn snapshot_of(track_ids: &Vec<String>) -> (occurrences: Vec<TrackOccurrence>)
    ensures
        is_snapshot(occurrence_views(occurrences@)),
        occurrences.len() == track_ids.len(),
        forall|i: int|
            0 <= i < track_ids.len() ==> (#[trigger] occurrences[i]).track_identity@
                == track_ids[i]@,
{
    let mut occurrences: Vec<TrackOccurrence> = Vec::new();
    let mut i: usize = 0;
    while i < track_ids.len()
        invariant
            i <= track_ids.len(),
            occurrences.len() == i,
            forall|j: int|
                0 <= j < i ==> (#[trigger] occurrences[j]).track_identity@ == track_ids[j]@
                    && occurrences[j].position == j,
        decreases track_ids.len() - i,
    {
        occurrences.push(TrackOccurrence { track_identity: track_ids[i].clone(), position: i });
        i += 1;
    }
    proof {
        let views = occurrence_views(occurrences@);
        assert forall|j: int| 0 <= j < views.len() implies (#[trigger] views[j]).position == j by {
            assert(views[j] == occurrences[j]@);
        }
    }
    occurrences
}

/// Whether the entries hold one with this URI and position.
fn has_entry(entries: &Vec<RemovalEntry>, uri: &str, position: usize) -> (found: bool)
    ensures
        found == entry_views(entries@).contains(Placed { key: uri@, position }),
{
    let ghost wanted = Placed { key: uri@, position };
    let mut k: usize = 0;
    while k < entries.len()
        invariant
            k <= entries.len(),
            wanted == (Placed { key: uri@, position }),
            forall|j: int| 0 <= j < k ==> entry_views(entries@)[j] != wanted,
        decreases entries.len() - k,
    {
        if entries[k].position == position && entries[k].uri.as_str().eq(uri) {
            assert(entry_views(entries@)[k as int] == wanted);
            return true;
        }
        k += 1;
    }
    false
}

/// The snapshot that is left of `occurrences` when every occurrence with an
/// entry in `entries` is removed: the others in their order, at their new
/// positions.
pub fn apply_to_snapshot(occurrences: &Vec<TrackOccurrence>, entries: &Vec<RemovalEntry>) -> (rest:
    Vec<TrackOccurrence>)
    ensures
        occurrence_views(rest@) == remaining(
            occurrence_views(occurrences@),
            entry_views(entries@),
        ),
        is_snapshot(occurrence_views(rest@)),
{
    let ghost all = occurrence_views(occurrences@);
    let ghost plan = entry_views(entries@);
    let mut rest: Vec<TrackOccurrence> = Vec::new();
    let mut i: usize = 0;
    proof {
        assert(all.take(0) =~= Seq::<Placed>::empty());
        assert(occurrence_views(rest@) =~= Seq::<Placed>::empty());
    }
    while i < occurrences.len()
        invariant
            i <= occurrences.len(),
            all == occurrence_views(occurrences@),
            plan == entry_views(entries@),
            occurrence_views(rest@) == remaining(all.take(i as int), plan),
        decreases occurrences.len() - i,
    {
        let o = &occurrences[i];
        let ghost before = occurrence_views(rest@);
        proof {
            let prefix = all.take(i as int + 1);
            assert(prefix.drop_last() =~= all.take(i as int));
            assert(prefix.last() == o@);
        }
        let uri = track_uri(o.track_identity.as_str());
        if !has_entry(entries, uri.as_str(), o.position) {
            let position = rest.len();
            rest.push(TrackOccurrence { track_identity: o.track_identity.clone(), position });
            proof {
                assert(occurrence_views(rest@) =~= before.push(
                    Placed { key: o@.key, position: before.len() as usize },
                ));
            }
        }
        i += 1;
    }
    proof {
        assert(all.take(occurrences.len() as int) =~= all);
        lemma_remaining_is_snapshot(all, plan);
    }
    rest
}

} // verus!
