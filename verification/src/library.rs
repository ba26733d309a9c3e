//! What the playlist views decide: which playlists are selected, which
//! match a search, how tracks are ordered, and which genres lead.

use crate::duplicates::{
    group_by_key, group_views, groups_of, placed_views, Group, Keyed, Placed,
};
use crate::models::{Artist, Playlist, PlaylistTrackItem};
use crate::ordering::{arrangement, key_views, stable_order};
use crate::text::{chars_of, strings_view};
use vstd::prelude::*;
use vstd::string::StringExecFns;

verus! {

/// The lower-case form of a text, as Unicode defines it.
pub uninterp spec fn lowercase_of(text: Seq<char>) -> Seq<char>;

/// Trusted: `str::to_lowercase` of the standard library gives the
/// lower-case form of the text, which depends on the text alone.
#[verifier::external_body]
pub(crate) fn to_lowercase(text: &str) -> (lower: String)
    ensures
        lower@ == lowercase_of(text@),
{
    text.to_lowercase()
}

/// The text `needle` stands somewhere in the text `hay`.
pub open spec fn contains_text(hay: Seq<char>, needle: Seq<char>) -> bool {
    exists|i: int|
        0 <= i && i + needle.len() <= hay.len() && #[trigger] hay.subrange(
            i,
            i + needle.len(),
        ) == needle
}

/// Whether `needle` stands in `hay` at the index `at`.
fn stands_at(hay: &Vec<char>, needle: &Vec<char>, at: usize) -> (b: bool)
    requires
        at + needle.len() <= hay.len(),
    ensures
        b == (hay@.subrange(at as int, at + needle.len()) == needle@),
{
    let mut j: usize = 0;
    while j < needle.len()
        invariant
            j <= needle.len(),
            at + needle.len() <= hay.len(),
            forall|k: int| 0 <= k < j ==> hay@[at + k] == needle@[k],
        decreases needle.len() - j,
    {
        if hay[at + j] != needle[j] {
            proof {
                assert(hay@.subrange(at as int, at + needle.len())[j as int] != needle@[j as int]);
            }
            return false;
        }
        j += 1;
    }
    assert(hay@.subrange(at as int, at + needle.len()) =~= needle@);
    true
}

/// Whether the characters `needle` stand somewhere in the characters `hay`.
pub fn chars_contain(hay: &Vec<char>, needle: &Vec<char>) -> (b: bool)
    ensures
        b == contains_text(hay@, needle@),
{
    if needle.len() > hay.len() {
        return false;
    }
    let last = hay.len() - needle.len();
    let mut i: usize = 0;
    while i < last
        invariant
            i <= last,
            last + needle.len() == hay.len(),
            forall|k: int|
                0 <= k < i ==> #[trigger] hay@.subrange(k, k + needle.len()) != needle@,
        decreases last - i,
    {
        if stands_at(hay, needle, i) {
            return true;
        }
        i += 1;
    }
    stands_at(hay, needle, last)
}

/// Whether the text `needle` stands somewhere in the text `hay`.
pub fn text_contains(hay: &str, needle: &str) -> (b: bool)
    ensures
        b == contains_text(hay@, needle@),
{
    let h = chars_of(hay);
    let n = chars_of(needle);
    chars_contain(&h, &n)
}

/// A playlist matches a query when the query stands in its name, its
/// description or the name of its owner, each taken in lower case.
pub open spec fn matches_lowered(
    name: Seq<char>,
    description: Option<Seq<char>>,
    owner: Option<Seq<char>>,
    query: Seq<char>,
) -> bool {
    ||| contains_text(name, query)
    ||| (description is Some && contains_text(description->0, query))
    ||| (owner is Some && contains_text(owner->0, query))
}

/// Whether the query stands in the name, the description or the owner's
/// name, which are given in lower case.
pub fn matches_parts(name: &str, description: Option<&str>, owner: Option<&str>, query: &str) -> (b:
    bool)
    ensures
        b == matches_lowered(
            name@,
            match description {
                Some(d) => Some(d@),
                None => None,
            },
            match owner {
                Some(o) => Some(o@),
                None => None,
            },
            query@,
        ),
{
    if text_contains(name, query) {
        return true;
    }
    let in_description = match description {
        Some(d) => text_contains(d, query),
        None => false,
    };
    if in_description {
        return true;
    }
    match owner {
        Some(o) => text_contains(o, query),
        None => false,
    }
}

/// The lower-case form of an optional string.
pub open spec fn lowered(text: Option<String>) -> Option<Seq<char>> {
    match text {
        Some(s) => Some(lowercase_of(s@)),
        None => None,
    }
}

/// The playlist matches the query, which is in lower case.
pub open spec fn playlist_matches_query(playlist: Playlist, query: Seq<char>) -> bool {
    matches_lowered(
        lowercase_of(playlist.name@),
        lowered(playlist.description),
        lowered(playlist.owner.display_name),
        query,
    )
}

/// Whether the playlist matches the query, which is in lower case.
pub fn playlist_matches(playlist: &Playlist, query: &str) -> (b: bool)
    ensures
        b == playlist_matches_query(*playlist, query@),
{
    let name = to_lowercase(playlist.name.as_str());
    let description = match &playlist.description {
        Some(d) => Some(to_lowercase(d.as_str())),
        None => None,
    };
    let owner = match &playlist.owner.display_name {
        Some(o) => Some(to_lowercase(o.as_str())),
        None => None,
    };
    matches_parts(
        name.as_str(),
        match &description {
            Some(d) => Some(d.as_str()),
            None => None,
        },
        match &owner {
            Some(o) => Some(o.as_str()),
            None => None,
        },
        query,
    )
}

/// The playlist at index `i` is shown for the search: every playlist when
/// the search is empty in lower case, else those that match it.
pub open spec fn is_shown(playlists: Seq<Playlist>, search: Seq<char>, i: int) -> bool {
    lowercase_of(search).len() == 0 || playlist_matches_query(playlists[i], lowercase_of(search))
}

/// The indices below `n` of the playlists that are shown for the search,
/// in order.
pub open spec fn shown_upto(playlists: Seq<Playlist>, search: Seq<char>, n: int) -> Seq<usize>
    decreases n,
{
    if n <= 0 {
        Seq::<usize>::empty()
    } else if is_shown(playlists, search, n - 1) {
        shown_upto(playlists, search, n - 1).push((n - 1) as usize)
    } else {
        shown_upto(playlists, search, n - 1)
    }
}

/// The indices of the playlists that are shown for a search, in order.
pub fn filter_playlists(playlists: &Vec<Playlist>, search: &str) -> (shown: Vec<usize>)
    ensures
        shown@ == shown_upto(playlists@, search@, playlists.len() as int),
{
    let query = to_lowercase(search);
    let all = query.as_str().is_empty();
    let mut shown: Vec<usize> = Vec::new();
    let mut i: usize = 0;
    while i < playlists.len()
        invariant
            i <= playlists.len(),
            query@ == lowercase_of(search@),
            all == (query@.len() == 0),
            shown@ == shown_upto(playlists@, search@, i as int),
        decreases playlists.len() - i,
    {
        if all || playlist_matches(&playlists[i], query.as_str()) {
            shown.push(i);
        }
        i += 1;
    }
    shown
}

/// The number of playlists on a page that is not shown in full.
pub const PAGE_SIZE: usize = 12;

/// The number of playlists from which on more can be asked for.
pub const MORE_THRESHOLD: usize = 8;

/// How many of the shown playlists are listed: all of them when asked so,
/// else at most twelve.
pub fn visible_count(shown: usize, show_all: bool) -> (n: usize)
    ensures
        n == if show_all || shown <= PAGE_SIZE {
            shown
        } else {
            PAGE_SIZE
        },
{
    if show_all || shown <= PAGE_SIZE {
        shown
    } else {
        PAGE_SIZE
    }
}

/// How many more playlists the button for more announces: with more than
/// eight playlists, those beyond eight; else there is no button.
pub fn more_count(shown: usize) -> (more: Option<usize>)
    ensures
        more == if shown > MORE_THRESHOLD {
            Some((shown - MORE_THRESHOLD) as usize)
        } else {
            None
        },
{
    if shown > MORE_THRESHOLD {
        Some(shown - MORE_THRESHOLD)
    } else {
        None
    }
}

/// How a playlist says who may see it.
pub fn visibility_text(public: Option<bool>) -> (text: &'static str)
    ensures
        text@ == if public == Some(true) {
            "Public"@
        } else {
            "Private"@
        },
{
    match public {
        Some(true) => "Public",
        _ => "Private",
    }
}

/// The playlists that are selected, by identity. No identity is held twice.
#[derive(Debug, Clone)]
pub struct Selection {
    ids: Vec<String>,
}

impl View for Selection {
    type V = Set<Seq<char>>;

    closed spec fn view(&self) -> Set<Seq<char>> {
        strings_view(self.ids@).to_set()
    }
}

impl Selection {
    /// No identity is held twice.
    pub closed spec fn wf(&self) -> bool {
        strings_view(self.ids@).no_duplicates()
    }

    /// The selection of nothing.
    pub fn new() -> (selection: Selection)
        ensures
            selection.wf(),
            selection@ == Set::<Seq<char>>::empty(),
    {
        let selection = Selection { ids: Vec::new() };
        assert(selection@ =~= Set::<Seq<char>>::empty());
        selection
    }

    /// Index of the identity in the list, or the length of the list.
    fn find(&self, id: &str) -> (k: usize)
        ensures
            k <= self.ids.len(),
            k < self.ids.len() ==> self.ids@[k as int]@ == id@,
            forall|j: int| 0 <= j < k ==> strings_view(self.ids@)[j] != id@,
    {
        let mut k: usize = 0;
        while k < self.ids.len() && !self.ids[k].as_str().eq(id)
            invariant
                k <= self.ids.len(),
                forall|j: int| 0 <= j < k ==> strings_view(self.ids@)[j] != id@,
            decreases self.ids.len() - k,
        {
            k += 1;
        }
        k
    }

    /// Whether the playlist with this identity is selected.
    pub fn contains(&self, id: &str) -> (b: bool)
        ensures
            b == self@.contains(id@),
    {
        let k = self.find(id);
        proof {
            let s = strings_view(self.ids@);
            if k < self.ids.len() {
                assert(s[k as int] == id@);
                assert(s.contains(id@));
            } else {
                assert(!s.contains(id@));
            }
        }
        k < self.ids.len()
    }

    /// The number of selected playlists.
    pub fn len(&self) -> (n: usize)
        requires
            self.wf(),
        ensures
            n == self@.len(),
    {
        proof {
            strings_view(self.ids@).unique_seq_to_set();
        }
        self.ids.len()
    }

    /// Whether nothing is selected.
    pub fn is_empty(&self) -> (b: bool)
        requires
            self.wf(),
        ensures
            b == (self@.len() == 0),
    {
        self.len() == 0
    }

    /// The selected identities, in the order in which they were selected.
    pub fn ids(&self) -> (ids: &Vec<String>)
        ensures
            strings_view(ids@).to_set() == self@,
            self.wf() ==> strings_view(ids@).no_duplicates(),
    {
        &self.ids
    }

    /// Selects the playlist if it is not selected, and deselects it if it
    /// is.
    pub fn toggle(&mut self, id: String)
        requires
            old(self).wf(),
        ensures
            final(self).wf(),
            final(self)@ == if old(self)@.contains(id@) {
                old(self)@.remove(id@)
            } else {
                old(self)@.insert(id@)
            },
    {
        let k = self.find(id.as_str());
        let ghost before = strings_view(self.ids@);
        if k < self.ids.len() {
            self.ids.remove(k);
            proof {
                let after = strings_view(self.ids@);
                assert(before[k as int] == id@);
                assert(after =~= before.remove(k as int));
                assert forall|a: int, b: int|
                    0 <= a < after.len() && 0 <= b < after.len() && a != b implies after[a]
                    != after[b] by {
                    let a0 = if a < k {
                        a
                    } else {
                        a + 1
                    };
                    let b0 = if b < k {
                        b
                    } else {
                        b + 1
                    };
                    assert(after[a] == before[a0] && after[b] == before[b0]);
                }
                assert forall|x: Seq<char>| after.to_set().contains(x) <==> before.to_set().remove(
                    id@,
                ).contains(x) by {
                    if after.contains(x) {
                        let j = choose|j: int| 0 <= j < after.len() && after[j] == x;
                        let j0 = if j < k {
                            j
                        } else {
                            j + 1
                        };
                        assert(before[j0] == x);
                        assert(before[j0] != before[k as int]);
                    }
                    if before.contains(x) && x != id@ {
                        let j = choose|j: int| 0 <= j < before.len() && before[j] == x;
                        let j1 = if j < k {
                            j
                        } else {
                            j - 1
                        };
                        assert(after[j1] == x);
                    }
                }
                assert(after.to_set() =~= before.to_set().remove(id@));
                assert(before.contains(id@));
            }
        } else {
            self.ids.push(id);
            proof {
                let after = strings_view(self.ids@);
                assert(after =~= before.push(id@));
                assert(!before.contains(id@));
                assert forall|x: Seq<char>| after.to_set().contains(x) <==> before.to_set().insert(
                    id@,
                ).contains(x) by {
                    if after.contains(x) {
                        let j = choose|j: int| 0 <= j < after.len() && after[j] == x;
                        if j < before.len() {
                            assert(before[j] == x);
                        }
                    }
                    if before.contains(x) {
                        let j = choose|j: int| 0 <= j < before.len() && before[j] == x;
                        assert(after[j] == x);
                    }
                    if x == id@ {
                        assert(after[before.len() as int] == x);
                    }
                }
                assert(after.to_set() =~= before.to_set().insert(id@));
            }
        }
    }

    /// Deselects everything.
    pub fn clear(&mut self)
        ensures
            final(self).wf(),
            final(self)@ == Set::<Seq<char>>::empty(),
    {
        self.ids.clear();
        assert(self@ =~= Set::<Seq<char>>::empty());
    }

    /// Selects every playlist, or deselects everything when as many
    /// playlists are selected as there are.
    pub fn toggle_all(&mut self, all: &Vec<String>)
        requires
            old(self).wf(),
        ensures
            final(self).wf(),
            final(self)@ == if old(self)@.len() == all.len() {
                Set::<Seq<char>>::empty()
            } else {
                strings_view(all@).to_set()
            },
    {
        let selected = self.len();
        self.clear();
        if selected != all.len() {
            let mut i: usize = 0;
            proof {
                assert(strings_view(all@).take(0).to_set() =~= Set::<Seq<char>>::empty());
            }
            while i < all.len()
                invariant
                    i <= all.len(),
                    self.wf(),
                    self@ == strings_view(all@).take(i as int).to_set(),
                decreases all.len() - i,
            {
                let ghost prefix = strings_view(all@).take(i as int);
                let ghost next = strings_view(all@).take(i as int + 1);
                proof {
                    assert(next =~= prefix.push(all@[i as int]@));
                    assert forall|x: Seq<char>| next.to_set().contains(x) <==> prefix.to_set().insert(
                        all@[i as int]@,
                    ).contains(x) by {
                        if next.contains(x) {
                            let j = choose|j: int| 0 <= j < next.len() && next[j] == x;
                            if j < prefix.len() {
                                assert(prefix[j] == x);
                            }
                        }
                        if prefix.contains(x) {
                            let j = choose|j: int| 0 <= j < prefix.len() && prefix[j] == x;
                            assert(next[j] == x);
                        }
                        if x == all@[i as int]@ {
                            assert(next[i as int] == x);
                        }
                    }
                    assert(next.to_set() =~= prefix.to_set().insert(all@[i as int]@));
                }
                if !self.contains(all[i].as_str()) {
                    self.toggle(all[i].clone());
                } else {
                    proof {
                        assert(self@.insert(all@[i as int]@) =~= self@);
                    }
                }
                i += 1;
            }
            proof {
                assert(strings_view(all@).take(all.len() as int) =~= strings_view(all@));
            }
        }
    }
}

/// How the tracks of a playlist are ordered.
#[derive(Debug, Clone, Copy, PartialEq, Eq, Structural)]
pub enum SortOrder {
    /// As in the playlist.
    Default,
    NameAscending,
    NameDescending,
    ArtistAscending,
    ArtistDescending,
    NewestFirst,
    OldestFirst,
}

/// The order that a name of an order stands for; an unknown name stands for
/// the order of the playlist.
pub fn parse_sort_order(name: &str) -> (order: SortOrder)
    ensures
        order == if name@ == "name_asc"@ {
            SortOrder::NameAscending
        } else if name@ == "name_desc"@ {
            SortOrder::NameDescending
        } else if name@ == "artist_asc"@ {
            SortOrder::ArtistAscending
        } else if name@ == "artist_desc"@ {
            SortOrder::ArtistDescending
        } else if name@ == "date_added_desc"@ {
            SortOrder::NewestFirst
        } else if name@ == "date_added_asc"@ {
            SortOrder::OldestFirst
        } else {
            SortOrder::Default
        },
{
    if name.eq("name_asc") {
        SortOrder::NameAscending
    } else if name.eq("name_desc") {
        SortOrder::NameDescending
    } else if name.eq("artist_asc") {
        SortOrder::ArtistAscending
    } else if name.eq("artist_desc") {
        SortOrder::ArtistDescending
    } else if name.eq("date_added_desc") {
        SortOrder::NewestFirst
    } else if name.eq("date_added_asc") {
        SortOrder::OldestFirst
    } else {
        SortOrder::Default
    }
}

/// The text by which a track is placed in an order: its name or the name of
/// its first artist in lower case, or the time at which it was added.
pub open spec fn sort_key(item: PlaylistTrackItem, order: SortOrder) -> Seq<char> {
    match order {
        SortOrder::NameAscending | SortOrder::NameDescending => lowercase_of(item.track.name@),
        SortOrder::ArtistAscending | SortOrder::ArtistDescending => if item.track.artists@.len()
            > 0 {
            lowercase_of(item.track.artists@[0].name@)
        } else {
            Seq::<char>::empty()
        },
        _ => item.added_at@,
    }
}

/// Whether an order descends.
pub open spec fn descends(order: SortOrder) -> bool {
    order == SortOrder::NameDescending || order == SortOrder::ArtistDescending || order
        == SortOrder::NewestFirst
}

/// The keys of the tracks for an order.
pub open spec fn sort_keys(items: Seq<PlaylistTrackItem>, order: SortOrder) -> Seq<Seq<char>> {
    items.map_values(|item: PlaylistTrackItem| sort_key(item, order))
}

/// The indices of the tracks in the given order: the tracks as they stand
/// for the order of the playlist; else arranged by their keys, tracks with
/// equal keys as they stand.
pub fn sorted_tracks(items: &Vec<PlaylistTrackItem>, order: SortOrder) -> (indices: Vec<usize>)
    ensures
        order == SortOrder::Default ==> indices@ == Seq::new(
            items@.len(),
            |i: int| i as usize,
        ),
        order != SortOrder::Default ==> indices@ == arrangement::<String>(
            sort_keys(items@, order),
            items@.len(),
            descends(order),
        ),
        indices.len() == items.len(),
        forall|j: int| 0 <= j < indices.len() ==> (#[trigger] indices[j]) < items.len(),
{
    let mut keys: Vec<String> = Vec::new();
    let mut i: usize = 0;
    if order == SortOrder::Default {
        let mut indices: Vec<usize> = Vec::new();
        while i < items.len()
            invariant
                i <= items.len(),
                indices@ == Seq::new(i as nat, |k: int| k as usize),
            decreases items.len() - i,
        {
            indices.push(i);
            proof {
                assert(indices@ =~= Seq::new((i + 1) as nat, |k: int| k as usize));
            }
            i += 1;
        }
        return indices;
    }
    while i < items.len()
        invariant
            i <= items.len(),
            order != SortOrder::Default,
            key_views(keys@) == sort_keys(items@, order).take(i as int),
        decreases items.len() - i,
    {
        let item = &items[i];
        let key = match order {
            SortOrder::NameAscending | SortOrder::NameDescending => to_lowercase(
                item.track.name.as_str(),
            ),
            SortOrder::ArtistAscending | SortOrder::ArtistDescending => {
                if item.track.artists.len() > 0 {
                    to_lowercase(item.track.artists[0].name.as_str())
                } else {
                    String::new()
                }
            },
            _ => item.added_at.clone(),
        };
        let ghost before = key_views(keys@);
        proof {
            assert(key@ == sort_key(items@[i as int], order));
            assert(sort_keys(items@, order)[i as int] == sort_key(items@[i as int], order));
        }
        keys.push(key);
        proof {
            assert(key_views(keys@) =~= before.push(sort_keys(items@, order)[i as int]));
            assert(key_views(keys@) =~= sort_keys(items@, order).take(i as int + 1));
        }
        i += 1;
    }
    proof {
        assert(sort_keys(items@, order).take(items.len() as int) =~= sort_keys(items@, order));
        assert(key_views(keys@).len() == keys.len());
    }
    let descending = match order {
        SortOrder::NameDescending | SortOrder::ArtistDescending | SortOrder::NewestFirst => true,
        _ => false,
    };
    stable_order(&keys, descending)
}

/// A genre where an artist names it: the genre, and the place of the naming
/// in the list of all namings.
pub struct Naming {
    pub genre: String,
    pub place: usize,
}

impl View for Naming {
    type V = Placed;

    open spec fn view(&self) -> Placed {
        Placed { key: self.genre@, position: self.place }
    }
}

impl Keyed for Naming {
    open spec fn placed(&self) -> Placed {
        self@
    }

    fn key(&self) -> (k: &str) {
        self.genre.as_str()
    }

    fn position(&self) -> (p: usize) {
        self.place
    }
}

/// The number of genres that lead.
pub const TOP_GENRES: usize = 10;

/// The numbers of namings of the groups.
pub open spec fn counts_of(groups: Seq<Group>) -> Seq<usize> {
    groups.map_values(|g: Group| g.positions.len() as usize)
}

/// The genres that lead among the namings: the genres by descending number
/// of namings, genres with the same number in the order in which they are
/// first named, and of these the first ten.
pub open spec fn leading_genres(namings: Seq<Placed>) -> Seq<Seq<char>> {
    let groups = groups_of(namings);
    let order = arrangement::<usize>(counts_of(groups), groups.len(), true);
    Seq::new(
        if groups.len() <= TOP_GENRES {
            groups.len()
        } else {
            TOP_GENRES as nat
        },
        |k: int| groups[order[k] as int].key,
    )
}

/// The genres that the artists name, artist after artist.
pub open spec fn named_genres(artists: Seq<Artist>) -> Seq<Seq<char>>
    decreases artists.len(),
{
    if artists.len() == 0 {
        Seq::<Seq<char>>::empty()
    } else {
        named_genres(artists.drop_last()) + match artists.last().genres {
            Some(genres) => strings_view(genres@),
            None => Seq::<Seq<char>>::empty(),
        }
    }
}

/// The texts, each at its place in the list.
pub open spec fn placings(texts: Seq<Seq<char>>) -> Seq<Placed> {
    Seq::new(texts.len(), |j: int| Placed { key: texts[j], position: j as usize })
}

/// The genres of the artists where they are named, artist after artist.
pub fn genre_namings(artists: &Vec<Artist>) -> (namings: Vec<Naming>)
    ensures
        placed_views(namings@) == placings(named_genres(artists@)),
{
    let mut namings: Vec<Naming> = Vec::new();
    let mut i: usize = 0;
    proof {
        assert(artists@.take(0) =~= Seq::<Artist>::empty());
        assert(placed_views(namings@) =~= placings(named_genres(artists@.take(0))));
    }
    while i < artists.len()
        invariant
            i <= artists.len(),
            placed_views(namings@) == placings(named_genres(artists@.take(i as int))),
        decreases artists.len() - i,
    {
        let ghost done = named_genres(artists@.take(i as int));
        proof {
            let next = artists@.take(i as int + 1);
            assert(next.drop_last() =~= artists@.take(i as int));
            assert(next.last() == artists@[i as int]);
        }
        match &artists[i].genres {
            Some(genres) => {
                let mut g: usize = 0;
                proof {
                    assert(done + strings_view(genres@).take(0) =~= done);
                }
                while g < genres.len()
                    invariant
                        g <= genres.len(),
                        placed_views(namings@) == placings(
                            done + strings_view(genres@).take(g as int),
                        ),
                    decreases genres.len() - g,
                {
                    let place = namings.len();
                    let ghost before = placed_views(namings@);
                    let genre = genres[g].clone();
                    proof {
                        assert(genre@ == strings_view(genres@)[g as int]);
                        assert(before.len() == place);
                    }
                    namings.push(Naming { genre, place });
                    proof {
                        assert(placed_views(namings@) =~= before.push(
                            Placed { key: strings_view(genres@)[g as int], position: place },
                        ));
                        assert(done + strings_view(genres@).take(g as int + 1) =~= (done
                            + strings_view(genres@).take(g as int)).push(
                            strings_view(genres@)[g as int],
                        ));
                        assert(placed_views(namings@) =~= placings(
                            done + strings_view(genres@).take(g as int + 1),
                        ));
                    }
                    g += 1;
                }
                proof {
                    assert(strings_view(genres@).take(genres.len() as int) =~= strings_view(
                        genres@,
                    ));
                }
            },
            None => {
                proof {
                    assert(done + Seq::<Seq<char>>::empty() =~= done);
                }
            },
        }
        i += 1;
    }
    proof {
        assert(artists@.take(artists.len() as int) =~= artists@);
    }
    namings
}

/// The genres that lead among the given namings.
pub fn top_genres_of(namings: &Vec<Naming>) -> (top: Vec<String>)
    ensures
        strings_view(top@) == leading_genres(placed_views(namings@)),
{
    let groups = group_by_key(namings);
    let ghost views = group_views(groups@);
    let mut counts: Vec<usize> = Vec::new();
    let mut k: usize = 0;
    while k < groups.len()
        invariant
            k <= groups.len(),
            views == group_views(groups@),
            counts@ == counts_of(views).take(k as int),
        decreases groups.len() - k,
    {
        counts.push(groups[k].positions.len());
        proof {
            assert(views[k as int] == groups@[k as int]@);
            assert(counts@ =~= counts_of(views).take(k as int + 1));
        }
        k += 1;
    }
    proof {
        assert(counts_of(views).take(groups.len() as int) =~= counts_of(views));
        assert(key_views(counts@) =~= counts@);
    }
    let order = stable_order(&counts, true);
    let limit = if groups.len() <= TOP_GENRES {
        groups.len()
    } else {
        TOP_GENRES
    };
    let mut top: Vec<String> = Vec::new();
    let mut n: usize = 0;
    while n < limit
        invariant
            n <= limit <= groups.len(),
            order.len() == groups.len(),
            views == group_views(groups@),
            forall|j: int| 0 <= j < order.len() ==> (#[trigger] order[j]) < groups.len(),
            top.len() == n,
            forall|j: int| 0 <= j < n ==> (#[trigger] top[j])@ == views[order[j] as int].key,
        decreases limit - n,
    {
        proof {
            assert(views[order[n as int] as int] == groups@[order[n as int] as int]@);
        }
        top.push(groups[order[n]].key.clone());
        n += 1;
    }
    proof {
        assert(strings_view(top@) =~= leading_genres(placed_views(namings@)));
    }
    top
}

/// The genres that lead among the artists: the ten that are named most,
/// the most named first.
pub fn top_genres(artists: &Vec<Artist>) -> (top: Vec<String>)
    ensures
        strings_view(top@) == leading_genres(placings(named_genres(artists@))),
        top.len() <= TOP_GENRES,
{
    let namings = genre_namings(artists);
    let top = top_genres_of(&namings);
    proof {
        assert(strings_view(top@).len() == top.len());
    }
    top
}

/// The texts joined with `sep` between neighbours.
pub open spec fn join_with(parts: Seq<Seq<char>>, sep: Seq<char>) -> Seq<char>
    decreases parts.len(),
{
    if parts.len() == 0 {
        Seq::<char>::empty()
    } else if parts.len() == 1 {
        parts[0]
    } else {
        join_with(parts.drop_last(), sep) + sep + parts.last()
    }
}

/// The strings joined with `sep` between neighbours.
pub fn join_texts(parts: &Vec<String>, sep: &str) -> (joined: String)
    ensures
        joined@ == join_with(strings_view(parts@), sep@),
{
    let mut joined = String::new();
    let mut i: usize = 0;
    proof {
        assert(strings_view(parts@).take(0) =~= Seq::<Seq<char>>::empty());
    }
    while i < parts.len()
        invariant
            i <= parts.len(),
            joined@ == join_with(strings_view(parts@).take(i as int), sep@),
        decreases parts.len() - i,
    {
        proof {
            let next = strings_view(parts@).take(i as int + 1);
            assert(next.drop_last() =~= strings_view(parts@).take(i as int));
            assert(next.last() == parts@[i as int]@);
            if i == 0 {
                assert(joined@ + parts@[i as int]@ =~= parts@[i as int]@);
            }
        }
        if i > 0 {
            joined.append(sep);
        }
        joined.append(parts[i].as_str());
        i += 1;
    }
    proof {
        assert(strings_view(parts@).take(parts.len() as int) =~= strings_view(parts@));
    }
    joined
}

/// How the genres of an artist are shown: joined by commas, or a note that
/// none are listed.
pub fn genres_text(genres: &Option<Vec<String>>) -> (text: String)
    ensures
        text@ == match *genres {
            Some(list) => if list@.len() == 0 {
                "No genres listed"@
            } else {
                join_with(strings_view(list@), ", "@)
            },
            None => "No genres listed"@,
        },
{
    match genres {
        Some(list) => {
            if list.len() == 0 {
                String::from_str("No genres listed")
            } else {
                join_texts(list, ", ")
            }
        },
        None => String::from_str("No genres listed"),
    }
}

/// The names of artists.
pub open spec fn artist_names(artists: Seq<Artist>) -> Seq<Seq<char>> {
    artists.map_values(|a: Artist| a.name@)
}

/// How the artists of a track are shown: their names joined by commas.
pub fn artists_text(artists: &Vec<Artist>) -> (text: String)
    ensures
        text@ == join_with(artist_names(artists@), ", "@),
{
    let mut names: Vec<String> = Vec::new();
    let mut i: usize = 0;
    while i < artists.len()
        invariant
            i <= artists.len(),
            strings_view(names@) == artist_names(artists@).take(i as int),
        decreases artists.len() - i,
    {
        let ghost before = strings_view(names@);
        let name = artists[i].name.clone();
        proof {
            assert(name@ == artist_names(artists@)[i as int]);
        }
        names.push(name);
        proof {
            assert(strings_view(names@) =~= before.push(artist_names(artists@)[i as int]));
            assert(strings_view(names@) =~= artist_names(artists@).take(i as int + 1));
        }
        i += 1;
    }
    proof {
        assert(artist_names(artists@).take(artists.len() as int) =~= artist_names(artists@));
    }
    join_texts(&names, ", ")
}

/// The first `n` of the texts, or all of them when they are fewer.
pub open spec fn first_of(texts: Seq<Seq<char>>, n: nat) -> Seq<Seq<char>> {
    if texts.len() <= n {
        texts
    } else {
        texts.take(n as int)
    }
}

/// The first `n` of the texts, joined with `sep` between neighbours.
pub fn leading_texts(texts: &Vec<String>, n: usize, sep: &str) -> (text: String)
    ensures
        text@ == join_with(first_of(strings_view(texts@), n as nat), sep@),
{
    let limit = if texts.len() <= n {
        texts.len()
    } else {
        n
    };
    let mut first: Vec<String> = Vec::new();
    let mut i: usize = 0;
    while i < limit
        invariant
            i <= limit <= texts.len(),
            strings_view(first@) == strings_view(texts@).take(i as int),
        decreases limit - i,
    {
        let ghost before = strings_view(first@);
        let item = texts[i].clone();
        proof {
            assert(item@ == strings_view(texts@)[i as int]);
        }
        first.push(item);
        proof {
            assert(strings_view(first@) =~= before.push(strings_view(texts@)[i as int]));
            assert(strings_view(first@) =~= strings_view(texts@).take(i as int + 1));
        }
        i += 1;
    }
    proof {
        if texts.len() <= n {
            assert(strings_view(texts@).take(limit as int) =~= strings_view(texts@));
        }
    }
    join_texts(&first, sep)
}

/// The name under which a user is shown: the display name, or `Unknown
/// User` when there is none.
pub fn display_name_text(display_name: &Option<String>) -> (text: String)
    ensures
        text@ == match *display_name {
            Some(name) => name@,
            None => "Unknown User"@,
        },
{
    match display_name {
        Some(name) => name.clone(),
        None => String::from_str("Unknown User"),
    }
}

/// The sign that stands for a user without a picture: the first character
/// of the display name in upper case, or `?` when there is none.
pub fn profile_initial(display_name: &Option<String>) -> (text: String)
    ensures
        text@ == match *display_name {
            Some(name) => if name@.len() > 0 {
                crate::helpers::uppercase_of(name@.take(1))
            } else {
                "?"@
            },
            None => "?"@,
        },
{
    match display_name {
        Some(name) => {
            let v = chars_of(name.as_str());
            if v.len() > 0 {
                let first = crate::text::string_of_range(&v, 0, 1);
                proof {
                    assert(v@.subrange(0, 1) =~= name@.take(1));
                }
                crate::helpers::to_uppercase(first.as_str())
            } else {
                String::from_str("?")
            }
        },
        None => String::from_str("?"),
    }
}

/// The address of a user on the service's site.
pub fn user_url(id: &str) -> (url: String)
    ensures
        url@ == "https://open.spotify.com/user/"@ + id@,
{
    String::from_str("https://open.spotify.com/user/").concat(id)
}

/// The URI of the artist with identity `id`.
pub fn artist_uri(id: &str) -> (uri: String)
    ensures
        uri@ == "spotify:artist:"@ + id@,
{
    String::from_str("spotify:artist:").concat(id)
}

} // verus!
