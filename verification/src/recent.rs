//! The tracks played last, by day.

use crate::duplicates::{
    group_by_key, group_views, groups_of, keys_of, placed_views, Group, Keyed, Placed,
    PositionGroup,
};
use crate::helpers::{long_date, long_date_string, month_name, month_name_str, month_number, month_of};
use crate::models::RecentlyPlayedItem;
use crate::ordering::{arrangement, goes_ahead, key_views, stable_order, text_before};
use crate::text::{
    chars_of, find_char, index_of, pieces_view, push_chars, split, split_chars, string_of,
    string_of_range,
};
use vstd::prelude::*;
use vstd::string::StringExecFns;

verus! {

/// The date of a timestamp: what stands before its first `T`.
pub open spec fn date_of(timestamp: Seq<char>) -> Seq<char> {
    timestamp.take(index_of(timestamp, 'T'))
}

/// The date of a timestamp such as `2024-01-15T14:30:00Z`: `2024-01-15`.
/// A text without `T` is its own date.
pub fn extract_date(timestamp: &str) -> (date: String)
    ensures
        date@ == date_of(timestamp@),
{
    let v = chars_of(timestamp);
    let end = find_char(&v, 0, 'T');
    proof {
        assert(v@.skip(0) =~= v@);
        assert(v@.take(end as int) =~= v@.subrange(0, end as int));
    }
    string_of_range(&v, 0, end)
}

/// The time of day of a timestamp, in hours and minutes: of what follows
/// the first `T`, up to the next one, the first two parts between colons.
/// A text without `T`, or with fewer than two such parts, stays as it is.
pub open spec fn time_text(timestamp: Seq<char>) -> Seq<char> {
    let pieces = split(timestamp, 'T');
    if pieces.len() >= 2 {
        let parts = split(pieces[1], ':');
        if parts.len() >= 2 {
            parts[0].push(':') + parts[1]
        } else {
            timestamp
        }
    } else {
        timestamp
    }
}

/// The time of day of a timestamp such as `2024-01-15T14:30:00Z`: `14:30`.
pub fn format_time(timestamp: &str) -> (time: String)
    ensures
        time@ == time_text(timestamp@),
{
    let v = chars_of(timestamp);
    let pieces = split_chars(&v, 'T');
    proof {
        assert(pieces_view(pieces@).len() == pieces.len());
    }
    if pieces.len() < 2 {
        return String::from_str(timestamp);
    }
    let parts = split_chars(&pieces[1], ':');
    proof {
        assert(pieces_view(pieces@)[1] == pieces@[1]@);
        assert(pieces_view(parts@).len() == parts.len());
    }
    if parts.len() < 2 {
        return String::from_str(timestamp);
    }
    proof {
        assert(pieces_view(parts@)[0] == parts@[0]@);
        assert(pieces_view(parts@)[1] == parts@[1]@);
    }
    let mut out: Vec<char> = Vec::new();
    push_chars(&mut out, &parts[0]);
    out.push(':');
    push_chars(&mut out, &parts[1]);
    proof {
        assert(out@ =~= parts@[0]@.push(':') + parts@[1]@);
    }
    string_of(&out)
}

/// How the month of a day's heading is shown: by its name, or as it is when
/// it names no month.
pub open spec fn month_label(month: Seq<char>) -> Seq<char> {
    match month_number(month) {
        Some(number) => month_name(number),
        None => month,
    }
}

/// The heading of a day: `Today` or `Yesterday` for those two days; else
/// the date as `Month D, YYYY`. A text that has not three parts between
/// hyphens stays as it is.
pub open spec fn date_header_text(date: Seq<char>, today: Seq<char>, yesterday: Seq<char>) -> Seq<
    char,
> {
    let parts = split(date, '-');
    if parts.len() == 3 {
        if date == today {
            "Today"@
        } else if date == yesterday {
            "Yesterday"@
        } else {
            long_date(month_label(parts[1]), parts[2], parts[0])
        }
    } else {
        date
    }
}

/// The heading of the day `date`, given the dates of today and yesterday.
pub fn format_date_header_on(date: &str, today: &str, yesterday: &str) -> (text: String)
    ensures
        text@ == date_header_text(date@, today@, yesterday@),
{
    let v = chars_of(date);
    let parts = split_chars(&v, '-');
    proof {
        assert(pieces_view(parts@).len() == parts.len());
    }
    if parts.len() != 3 {
        return String::from_str(date);
    }
    proof {
        assert(pieces_view(parts@)[0] == parts@[0]@);
        assert(pieces_view(parts@)[1] == parts@[1]@);
        assert(pieces_view(parts@)[2] == parts@[2]@);
    }
    if date.eq(today) {
        return String::from_str("Today");
    }
    if date.eq(yesterday) {
        return String::from_str("Yesterday");
    }
    match month_of(&parts[1]) {
        Some(number) => long_date_string(month_name_str(number), &parts[2], &parts[0]),
        None => {
            let month = string_of(&parts[1]);
            long_date_string(month.as_str(), &parts[2], &parts[0])
        },
    }
}

/// Trusted: `Local::now` of the `chrono` crate gives the present moment in
/// the machine's time zone, `TimeDelta::days` a number of days, and
/// `DateTime::format` with `%Y-%m-%d` the date of a moment. What date comes
/// back depends on the clock, so nothing is said of it.
#[verifier::external_body]
pub(crate) fn local_date(days_ago: i64) -> (date: String)
    requires
        0 <= days_ago <= 1,
{
    (chrono::Local::now() - chrono::Duration::days(days_ago)).format("%Y-%m-%d").to_string()
}

/// The heading of the day `date` as of now: what `format_date_header_on`
/// gives for the dates that the clock gives for today and yesterday.
pub fn format_date_header(date: &str) -> (text: String)
    ensures
        exists|today: Seq<char>, yesterday: Seq<char>|
            text@ == date_header_text(date@, today, yesterday),
        split(date@, '-').len() != 3 ==> text@ == date@,
{
    let today = local_date(0);
    let yesterday = local_date(1);
    format_date_header_on(date, today.as_str(), yesterday.as_str())
}

/// A played track by its day: the date of its timestamp and its index in
/// the list.
pub struct PlayedOn {
    pub date: String,
    pub index: usize,
}

impl View for PlayedOn {
    type V = Placed;

    open spec fn view(&self) -> Placed {
        Placed { key: self.date@, position: self.index }
    }
}

impl Keyed for PlayedOn {
    open spec fn placed(&self) -> Placed {
        self@
    }

    fn key(&self) -> (k: &str) {
        self.date.as_str()
    }

    fn position(&self) -> (p: usize) {
        self.index
    }
}

/// The played tracks by day: each at its index, under the date of its
/// timestamp.
pub open spec fn played_days(items: Seq<RecentlyPlayedItem>) -> Seq<Placed> {
    Seq::new(
        items.len(),
        |i: int| Placed { key: date_of(items[i].played_at@), position: i as usize },
    )
}

/// The days of the played tracks, latest day first: the groups of the
/// tracks by date, arranged by descending date.
pub open spec fn days_of(items: Seq<RecentlyPlayedItem>) -> Seq<Group> {
    let groups = groups_of(played_days(items));
    let order = arrangement::<String>(keys_of(groups), groups.len(), true);
    Seq::new(groups.len(), |k: int| groups[order[k] as int])
}

/// A copy of a group.
fn copy_group(group: &PositionGroup) -> (copy: PositionGroup)
    ensures
        copy@ == group@,
{
    let mut positions: Vec<usize> = Vec::new();
    let mut p: usize = 0;
    while p < group.positions.len()
        invariant
            p <= group.positions.len(),
            positions@ == group.positions@.take(p as int),
        decreases group.positions.len() - p,
    {
        positions.push(group.positions[p]);
        proof {
            assert(positions@ =~= group.positions@.take(p as int + 1));
        }
        p += 1;
    }
    proof {
        assert(group.positions@.take(group.positions.len() as int) =~= group.positions@);
    }
    PositionGroup { key: group.key.clone(), positions }
}

/// The groups in the given order.
pub fn arrange_groups(groups: &Vec<PositionGroup>, order: &Vec<usize>) -> (arranged: Vec<
    PositionGroup,
>)
    requires
        forall|j: int| 0 <= j < order.len() ==> (#[trigger] order[j]) < groups.len(),
    ensures
        group_views(arranged@) == Seq::new(
            order@.len(),
            |k: int| group_views(groups@)[order@[k] as int],
        ),
{
    let mut arranged: Vec<PositionGroup> = Vec::new();
    let mut n: usize = 0;
    while n < order.len()
        invariant
            n <= order.len(),
            arranged.len() == n,
            forall|j: int| 0 <= j < order.len() ==> (#[trigger] order[j]) < groups.len(),
            forall|j: int| 0 <= j < n ==> (#[trigger] arranged[j])@ == groups[order[j] as int]@,
        decreases order.len() - n,
    {
        arranged.push(copy_group(&groups[order[n]]));
        n += 1;
    }
    proof {
        assert(group_views(arranged@) =~= Seq::new(
            order@.len(),
            |k: int| group_views(groups@)[order@[k] as int],
        ));
    }
    arranged
}

/// The keys of the groups.
pub fn group_keys(groups: &Vec<PositionGroup>) -> (keys: Vec<String>)
    ensures
        key_views(keys@) == keys_of(group_views(groups@)),
        keys.len() == groups.len(),
{
    let mut keys: Vec<String> = Vec::new();
    let mut k: usize = 0;
    while k < groups.len()
        invariant
            k <= groups.len(),
            keys.len() == k,
            forall|j: int| 0 <= j < k ==> (#[trigger] keys[j])@ == groups[j].key@,
        decreases groups.len() - k,
    {
        keys.push(groups[k].key.clone());
        k += 1;
    }
    proof {
        assert(key_views(keys@) =~= keys_of(group_views(groups@)));
    }
    keys
}

/// The played tracks grouped by the day on which they were played, the
/// latest day first. Each group holds the indices of its tracks in the order
/// of the list.
pub fn group_by_day(items: &Vec<RecentlyPlayedItem>) -> (days: Vec<PositionGroup>)
    ensures
        group_views(days@) == days_of(items@),
        forall|a: int, b: int|
            0 <= a < b < days.len() ==> !text_before(
                (#[trigger] days[a]).key@,
                (#[trigger] days[b]).key@,
            ),
{
    let mut dated: Vec<PlayedOn> = Vec::new();
    let mut i: usize = 0;
    while i < items.len()
        invariant
            i <= items.len(),
            dated.len() == i,
            forall|j: int| 0 <= j < i ==> (#[trigger] dated[j])@ == played_days(items@)[j],
        decreases items.len() - i,
    {
        dated.push(PlayedOn { date: extract_date(items[i].played_at.as_str()), index: i });
        i += 1;
    }
    proof {
        assert(placed_views(dated@) =~= played_days(items@));
    }
    let groups = group_by_key(&dated);
    let keys = group_keys(&groups);
    let order = stable_order(&keys, true);
    let days = arrange_groups(&groups, &order);
    proof {
        assert(group_views(groups@).len() == groups.len());
        assert(group_views(days@).len() == days.len());
        assert(group_views(days@) =~= days_of(items@));
        assert forall|a: int, b: int| 0 <= a < b < days.len() implies !text_before(
            (#[trigger] days[a]).key@,
            (#[trigger] days[b]).key@,
        ) by {
            assert(days[a]@ == group_views(days@)[a]);
            assert(days[b]@ == group_views(days@)[b]);
            let x = order@[a] as int;
            let y = order@[b] as int;
            assert(group_views(groups@)[x] == groups[x]@);
            assert(group_views(groups@)[y] == groups[y]@);
            assert(key_views(keys@)[x] == keys[x]@);
            assert(key_views(keys@)[y] == keys[y]@);
            assert(keys_of(group_views(groups@))[x] == groups[x].key@);
            assert(keys_of(group_views(groups@))[y] == groups[y].key@);
            assert(!goes_ahead::<String>(keys[y]@, keys[x]@, true));
        }
    }
    days
}

} // verus!
