//! Duplicate detection in a playlist and the plan that removes the
//! redundant occurrences.
//!
//! A playlist snapshot is an ordered list of track occurrences. Occurrences
//! are grouped by track identity; every group with at least two members is a
//! duplicate. The removal plan keeps the first member of each group and lists
//! the others by descending position, so that removing them one after another
//! never moves an occurrence that is still to be removed.

use crate::text::{index_of, lemma_index_of, lemma_index_of_is};
use vstd::prelude::*;

verus! {

/// A key placed at a position: the model of a track occurrence (keyed by
/// track identity) and of a removal entry (keyed by URI).
pub struct Placed {
    pub key: Seq<char>,
    pub position: usize,
}

/// The positions that one key was placed at: the model of a duplicate group
/// and of a removal request.
pub struct Group {
    pub key: Seq<char>,
    pub positions: Seq<usize>,
}

/// One occurrence of a track in a playlist.
#[derive(Debug, Clone, PartialEq)]
pub struct TrackOccurrence {
    /// Identity of the track.
    pub track_identity: String,
    /// Zero-based index of the occurrence within the playlist.
    pub position: usize,
}

impl View for TrackOccurrence {
    type V = Placed;

    open spec fn view(&self) -> Placed {
        Placed { key: self.track_identity@, position: self.position }
    }
}

/// The positions collected for one key.
#[derive(Debug, Clone, PartialEq)]
pub struct PositionGroup {
    /// The track identity or URI that the positions belong to.
    pub key: String,
    /// The positions, in the order in which they were met.
    pub positions: Vec<usize>,
}

impl View for PositionGroup {
    type V = Group;

    open spec fn view(&self) -> Group {
        Group { key: self.key@, positions: self.positions@ }
    }
}

/// The models of a list of occurrences.
pub open spec fn occurrence_views(v: Seq<TrackOccurrence>) -> Seq<Placed> {
    v.map_values(|o: TrackOccurrence| o@)
}

/// The models of a list of groups.
pub open spec fn group_views(v: Seq<PositionGroup>) -> Seq<Group> {
    v.map_values(|g: PositionGroup| g@)
}

/// The keys of a list of groups.
pub open spec fn keys_of(groups: Seq<Group>) -> Seq<Seq<char>> {
    groups.map_values(|g: Group| g.key)
}

/// The positions at which `key` was placed, in traversal order.
pub open spec fn positions_of(items: Seq<Placed>, key: Seq<char>) -> Seq<usize>
    decreases items.len(),
{
    if items.len() == 0 {
        Seq::<usize>::empty()
    } else {
        let rest = positions_of(items.drop_last(), key);
        if items.last().key == key {
            rest.push(items.last().position)
        } else {
            rest
        }
    }
}

/// The groups after one more item: its position joins the group of its
/// key, or opens a new group at the end.
pub open spec fn add_item(groups: Seq<Group>, item: Placed) -> Seq<Group> {
    let k = index_of(keys_of(groups), item.key);
    if k < groups.len() {
        groups.update(k, Group { key: item.key, positions: groups[k].positions.push(item.position) })
    } else {
        groups.push(Group { key: item.key, positions: seq![item.position] })
    }
}

/// The items grouped by key. Groups stand in the order in which their keys
/// first occur; positions keep the traversal order.
pub open spec fn groups_of(items: Seq<Placed>) -> Seq<Group>
    decreases items.len(),
{
    if items.len() == 0 {
        Seq::<Group>::empty()
    } else {
        add_item(groups_of(items.drop_last()), items.last())
    }
}

/// The groups that hold at least two positions, in the same order.
pub open spec fn repeated(groups: Seq<Group>) -> Seq<Group>
    decreases groups.len(),
{
    if groups.len() == 0 {
        Seq::<Group>::empty()
    } else if groups.last().positions.len() >= 2 {
        repeated(groups.drop_last()).push(groups.last())
    } else {
        repeated(groups.drop_last())
    }
}

/// The duplicate groups of a playlist: for every track identity that occurs
/// at least twice, all its positions.
pub open spec fn duplicates_of(occurrences: Seq<Placed>) -> Seq<Group> {
    repeated(groups_of(occurrences))
}

/// What holds of the groups of any list of items: no key has two groups,
/// each group holds exactly the positions of its key, and a key has a group
/// exactly when it occurs.
pub proof fn lemma_groups_of(items: Seq<Placed>)
    ensures
        keys_of(groups_of(items)).no_duplicates(),
        forall|k: int|
            0 <= k < groups_of(items).len() ==> {
                let g = #[trigger] groups_of(items)[k];
                g.positions == positions_of(items, g.key) && g.positions.len() >= 1
            },
        forall|key: Seq<char>|
            index_of(keys_of(groups_of(items)), key) < groups_of(items).len() <==> (
            #[trigger] positions_of(items, key)).len() >= 1,
    decreases items.len(),
{
    if items.len() == 0 {
        assert forall|key: Seq<char>|
            index_of(keys_of(groups_of(items)), key) < groups_of(items).len() <==> (
            #[trigger] positions_of(items, key)).len() >= 1 by {
            lemma_index_of(keys_of(groups_of(items)), key);
        }
    } else {
        let init = items.drop_last();
        let item = items.last();
        let g = groups_of(init);
        let g2 = groups_of(items);
        lemma_groups_of(init);
        let k = index_of(keys_of(g), item.key);
        lemma_index_of(keys_of(g), item.key);
        if k < g.len() {
            assert(keys_of(g)[k] == item.key);
            assert(keys_of(g2) =~= keys_of(g));
            assert forall|j: int| 0 <= j < g2.len() implies {
                let x = #[trigger] g2[j];
                x.positions == positions_of(items, x.key) && x.positions.len() >= 1
            } by {
                if j != k {
                    assert(keys_of(g)[j] != keys_of(g)[k]);
                    assert(g2[j] == g[j]);
                } else {
                    assert(g[k].positions == positions_of(init, g[k].key));
                }
            }
            assert forall|key: Seq<char>|
                index_of(keys_of(g2), key) < g2.len() <==> (#[trigger] positions_of(
                    items,
                    key,
                )).len() >= 1 by {
                assert(positions_of(init, key).len() >= 1 <==> index_of(keys_of(g), key) < g.len());
            }
        } else {
            assert(keys_of(g2) =~= keys_of(g).push(item.key));
            assert(positions_of(init, item.key).len() == 0);
            assert(positions_of(items, item.key) =~= seq![item.position]);
            assert forall|j: int| 0 <= j < g2.len() implies {
                let x = #[trigger] g2[j];
                x.positions == positions_of(items, x.key) && x.positions.len() >= 1
            } by {
                if j < g.len() {
                    assert(keys_of(g)[j] != item.key);
                    assert(g2[j] == g[j]);
                }
            }
            assert forall|key: Seq<char>|
                index_of(keys_of(g2), key) < g2.len() <==> (#[trigger] positions_of(
                    items,
                    key,
                )).len() >= 1 by {
                assert(positions_of(init, key).len() >= 1 <==> index_of(keys_of(g), key) < g.len());
                lemma_index_of(keys_of(g), key);
                let kk = index_of(keys_of(g), key);
                if kk < g.len() {
                    lemma_index_of_is(keys_of(g2), key, kk);
                } else if key == item.key {
                    lemma_index_of_is(keys_of(g2), key, g.len() as int);
                } else {
                    lemma_index_of_is(keys_of(g2), key, g2.len() as int);
                }
            }
        }
    }
}

/// The positions of a key are exactly the positions of the items that carry
/// that key.
pub proof fn lemma_positions_of_contains(items: Seq<Placed>, key: Seq<char>, p: usize)
    ensures
        positions_of(items, key).contains(p) <==> items.contains(Placed { key, position: p }),
    decreases items.len(),
{
    let wanted = Placed { key, position: p };
    if items.len() == 0 {
    } else {
        let init = items.drop_last();
        lemma_positions_of_contains(init, key, p);
        let here = positions_of(items, key);
        let before = positions_of(init, key);
        if here.contains(p) {
            let j = choose|j: int| 0 <= j < here.len() && here[j] == p;
            if items.last().key == key && j == before.len() {
                assert(items[items.len() - 1] == wanted);
            } else {
                assert(before[j] == p);
                let i = choose|i: int| 0 <= i < init.len() && init[i] == wanted;
                assert(items[i] == wanted);
            }
        }
        if items.contains(wanted) {
            let i = choose|i: int| 0 <= i < items.len() && items[i] == wanted;
            if i == items.len() - 1 {
                assert(here[before.len() as int] == p);
            } else {
                assert(init[i] == wanted);
                let j = choose|j: int| 0 <= j < before.len() && before[j] == p;
                assert(here[j] == p);
            }
        }
    }
}

/// The repeated groups are exactly the groups with at least two positions.
pub proof fn lemma_repeated_contains(groups: Seq<Group>, g: Group)
    ensures
        repeated(groups).contains(g) <==> groups.contains(g) && g.positions.len() >= 2,
    decreases groups.len(),
{
    if groups.len() == 0 {
    } else {
        let init = groups.drop_last();
        lemma_repeated_contains(init, g);
        let here = repeated(groups);
        let before = repeated(init);
        if here.contains(g) {
            let k = choose|k: int| 0 <= k < here.len() && here[k] == g;
            if groups.last().positions.len() >= 2 && k == before.len() {
                assert(groups[groups.len() - 1] == g);
            } else {
                assert(before[k] == g);
                let m = choose|m: int| 0 <= m < init.len() && init[m] == g;
                assert(groups[m] == g);
            }
        }
        if groups.contains(g) && g.positions.len() >= 2 {
            let m = choose|m: int| 0 <= m < groups.len() && groups[m] == g;
            if m == groups.len() - 1 {
                assert(here[before.len() as int] == g);
            } else {
                assert(init[m] == g);
                let k = choose|k: int| 0 <= k < before.len() && before[k] == g;
                assert(here[k] == g);
            }
        }
    }
}

/// Some group reports the position `p`.
pub open spec fn reported(groups: Seq<Group>, p: usize) -> bool {
    exists|k: int, j: int|
        0 <= k < groups.len() && 0 <= j < groups[k].positions.len()
            && #[trigger] groups[k].positions[j] == p
}

/// Some occurrence stands at position `p` and its track identity occurs at
/// least twice.
pub open spec fn occurs_repeatedly(occurrences: Seq<Placed>, p: usize) -> bool {
    exists|i: int|
        0 <= i < occurrences.len() && (#[trigger] occurrences[i]).position == p && positions_of(
            occurrences,
            occurrences[i].key,
        ).len() >= 2
}

/// No duplicate group has fewer than two positions, each group holds every
/// position of its track identity, and the positions reported over all
/// groups are exactly the positions of the occurrences whose track identity
/// occurs more than once.
pub proof fn lemma_duplicates_report(occurrences: Seq<Placed>)
    ensures
        forall|k: int|
            0 <= k < duplicates_of(occurrences).len() ==> {
                let g = #[trigger] duplicates_of(occurrences)[k];
                g.positions.len() >= 2 && g.positions == positions_of(occurrences, g.key)
            },
        forall|p: usize|
            reported(duplicates_of(occurrences), p) <==> occurs_repeatedly(occurrences, p),
{
    let groups = groups_of(occurrences);
    let dups = duplicates_of(occurrences);
    lemma_groups_of(occurrences);
    assert forall|k: int| 0 <= k < dups.len() implies {
        let g = #[trigger] dups[k];
        g.positions.len() >= 2 && g.positions == positions_of(occurrences, g.key)
    } by {
        let g = dups[k];
        lemma_repeated_contains(groups, g);
        assert(dups.contains(g));
        let m = choose|m: int| 0 <= m < groups.len() && groups[m] == g;
        assert(groups[m].positions == positions_of(occurrences, groups[m].key));
    }
    assert forall|p: usize| reported(dups, p) <==> occurs_repeatedly(occurrences, p) by {
        if reported(dups, p) {
            let (k, j) = choose|k: int, j: int|
                0 <= k < dups.len() && 0 <= j < dups[k].positions.len()
                    && #[trigger] dups[k].positions[j] == p;
            let g = dups[k];
            assert(positions_of(occurrences, g.key).contains(p));
            lemma_positions_of_contains(occurrences, g.key, p);
            let i = choose|i: int|
                0 <= i < occurrences.len() && occurrences[i] == (Placed { key: g.key, position: p });
            assert(occurrences[i].position == p);
        }
        if occurs_repeatedly(occurrences, p) {
            let i = choose|i: int|
                0 <= i < occurrences.len() && (#[trigger] occurrences[i]).position == p
                    && positions_of(occurrences, occurrences[i].key).len() >= 2;
            let key = occurrences[i].key;
            let m = index_of(keys_of(groups), key);
            lemma_index_of(keys_of(groups), key);
            assert(keys_of(groups)[m] == key);
            let g = groups[m];
            assert(g.positions == positions_of(occurrences, g.key));
            assert(groups.contains(g));
            lemma_repeated_contains(groups, g);
            let k = choose|k: int| 0 <= k < dups.len() && dups[k] == g;
            assert(occurrences[i] == (Placed { key, position: p }));
            lemma_positions_of_contains(occurrences, key, p);
            let j = choose|j: int| 0 <= j < g.positions.len() && g.positions[j] == p;
            assert(dups[k].positions[j] == p);
        }
    }
}

/// A value that carries a key and a position and can be grouped by the key.
pub trait Keyed {
    /// The key and the position that the value carries.
    spec fn placed(&self) -> Placed;

    /// The key.
    fn key(&self) -> (k: &str)
        ensures
            k@ == self.placed().key,
    ;

    /// The position.
    fn position(&self) -> (p: usize)
        ensures
            p == self.placed().position,
    ;
}

impl Keyed for TrackOccurrence {
    open spec fn placed(&self) -> Placed {
        self@
    }

    fn key(&self) -> (k: &str) {
        self.track_identity.as_str()
    }

    fn position(&self) -> (p: usize) {
        self.position
    }
}

/// The keys and positions carried by a list of values.
pub open spec fn placed_views<T: Keyed>(v: Seq<T>) -> Seq<Placed> {
    v.map_values(|t: T| t.placed())
}

/// Index of the group of `key`, or the number of groups when there is none.
fn find_group(groups: &Vec<PositionGroup>, key: &str) -> (k: usize)
    ensures
        k == index_of(keys_of(group_views(groups@)), key@),
        k <= groups.len(),
{
    let mut k: usize = 0;
    while k < groups.len() && !groups[k].key.as_str().eq(key)
        invariant
            k <= groups.len(),
            forall|j: int| 0 <= j < k ==> keys_of(group_views(groups@))[j] != key@,
        decreases groups.len() - k,
    {
        k += 1;
    }
    proof {
        lemma_index_of_is(keys_of(group_views(groups@)), key@, k as int);
    }
    k
}

/// Groups the positions of `items` by key. Groups stand in the order in
/// which their keys first occur, and the positions of a group in the order
/// of the items.
pub fn group_by_key<T: Keyed>(items: &Vec<T>) -> (groups: Vec<PositionGroup>)
    ensures
        group_views(groups@) == groups_of(placed_views(items@)),
{
    let mut groups: Vec<PositionGroup> = Vec::new();
    let mut i: usize = 0;
    proof {
        assert(placed_views(items@).take(0) =~= Seq::<Placed>::empty());
        assert(group_views(groups@) =~= Seq::<Group>::empty());
    }
    while i < items.len()
        invariant
            i <= items.len(),
            group_views(groups@) == groups_of(placed_views(items@).take(i as int)),
        decreases items.len() - i,
    {
        let ghost before = group_views(groups@);
        let ghost prefix = placed_views(items@).take(i as int + 1);
        proof {
            assert(prefix.drop_last() =~= placed_views(items@).take(i as int));
            assert(prefix.last() == items@[i as int].placed());
        }
        let key = items[i].key();
        let position = items[i].position();
        let k = find_group(&groups, key);
        if k < groups.len() {
            groups[k].positions.push(position);
            proof {
                lemma_index_of(keys_of(before), key@);
                assert(keys_of(before)[k as int] == key@);
                assert(group_views(groups@) =~= add_item(before, prefix.last()));
            }
        } else {
            let mut positions: Vec<usize> = Vec::new();
            positions.push(position);
            groups.push(PositionGroup { key: key.to_owned(), positions });
            proof {
                assert(group_views(groups@) =~= add_item(before, prefix.last()));
            }
        }
        i += 1;
    }
    proof {
        assert(placed_views(items@).take(items.len() as int) =~= placed_views(items@));
    }
    groups
}

/// The duplicate groups of a playlist: one group for each track identity
/// that occurs at least twice, holding all its positions in playlist order.
/// Groups stand in the order in which their tracks first occur. A playlist
/// without duplicates, the empty one included, gives no group.
pub fn find_duplicates(occurrences: &Vec<TrackOccurrence>) -> (groups: Vec<PositionGroup>)
    ensures
        group_views(groups@) == duplicates_of(occurrence_views(occurrences@)),
        forall|k: int|
            0 <= k < groups.len() ==> {
                let g = #[trigger] groups[k]@;
                g.positions.len() >= 2 && g.positions == positions_of(
                    occurrence_views(occurrences@),
                    g.key,
                )
            },
        forall|p: usize|
            reported(group_views(groups@), p) <==> occurs_repeatedly(
                occurrence_views(occurrences@),
                p,
            ),
{
    let all = group_by_key(occurrences);
    let ghost all_views = group_views(all@);
    let mut groups: Vec<PositionGroup> = Vec::new();
    proof {
        assert(placed_views(occurrences@) =~= occurrence_views(occurrences@));
        assert(all_views.take(0) =~= Seq::<Group>::empty());
        assert(group_views(groups@) =~= Seq::<Group>::empty());
    }
    for g in it: all
        invariant
            it.seq() == all@,
            all_views == group_views(all@),
            group_views(groups@) == repeated(all_views.take(it.index() as int)),
    {
        let ghost before = group_views(groups@);
        let ghost prefix = all_views.take(it.index() as int + 1);
        proof {
            assert(prefix.drop_last() =~= all_views.take(it.index() as int));
            assert(prefix.last() == g@);
        }
        if g.positions.len() >= 2 {
            groups.push(g);
            proof {
                assert(group_views(groups@) =~= before.push(prefix.last()));
            }
        }
    }
    proof {
        assert(all_views.take(all_views.len() as int) =~= all_views);
        let dups = duplicates_of(occurrence_views(occurrences@));
        lemma_duplicates_report(occurrence_views(occurrences@));
        assert(group_views(groups@) == dups);
        assert forall|k: int| 0 <= k < groups.len() implies {
            let g = #[trigger] groups[k]@;
            g.positions.len() >= 2 && g.positions == positions_of(
                occurrence_views(occurrences@),
                g.key,
            )
        } by {
            assert(groups[k]@ == group_views(groups@)[k]);
            assert(groups[k]@ == dups[k]);
        }
    }
    groups
}

} // verus!
