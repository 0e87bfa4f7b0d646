//! The rows of the report: one for each combination of tags, with the time
//! that all intervals with that combination took together.

use crate::data::{tag_separator, Data, Interval, IntervalView};
use crate::report::total_seconds;
use crate::text::{joined, pad_string, padded};
use crate::timewarrior_datetime::{whole_minutes, Duration, MAX_SPAN};
use vstd::prelude::*;

verus! {

/// One row of the report: a title and the time spent under it.
#[derive(Debug)]
pub struct GroupReportRow {
    pub title: String,
    pub duration: Duration,
}

/// What a [`GroupReportRow`] holds: the duration in seconds.
pub struct RowView {
    pub title: Seq<char>,
    pub duration: int,
}

impl View for GroupReportRow {
    type V = RowView;

    open spec fn view(&self) -> RowView {
        RowView { title: self.title@, duration: self.duration@ }
    }
}

/// What a sequence of rows holds.
pub open spec fn row_views(rows: Seq<GroupReportRow>) -> Seq<RowView> {
    rows.map_values(|r: GroupReportRow| r@)
}

impl GroupReportRow {
    /// The title, moved to the right edge of a column `len` bytes wide.
    pub fn padded_title(&self, len: usize) -> (r: String)
        ensures
            r@ == padded(self.title@, len as nat),
    {
        pad_string(self.title.as_str(), len)
    }
}

/// The titles of `intervals`, one for each.
pub open spec fn titles_of(intervals: Seq<IntervalView>) -> Seq<Seq<char>> {
    intervals.map_values(|i: IntervalView| i.title())
}

/// The titles that occur in `titles`, each once, in the order in which they
/// first occur.
pub open spec fn distinct_titles(titles: Seq<Seq<char>>) -> Seq<Seq<char>>
    decreases titles.len(),
{
    if titles.len() == 0 {
        Seq::empty()
    } else {
        let before = distinct_titles(titles.drop_last());
        if before.contains(titles.last()) {
            before
        } else {
            before.push(titles.last())
        }
    }
}

/// The sum of the durations of those of `intervals` whose title is `title`.
pub open spec fn group_total(intervals: Seq<IntervalView>, title: Seq<char>) -> int
    decreases intervals.len(),
{
    if intervals.len() == 0 {
        0
    } else {
        group_total(intervals.drop_last(), title) + if intervals.last().title() == title {
            intervals.last().duration()
        } else {
            0
        }
    }
}

/// The rows for `intervals`: one for each title, in the order in which the
/// titles first occur, with the sum of the durations under that title.
pub open spec fn grouped(intervals: Seq<IntervalView>) -> Seq<RowView> {
    distinct_titles(titles_of(intervals)).map_values(
        |title: Seq<char>| RowView { title, duration: group_total(intervals, title) },
    )
}

/// The sum of the durations of `rows`, in seconds.
pub open spec fn rows_total(rows: Seq<RowView>) -> int
    decreases rows.len(),
{
    if rows.len() == 0 {
        0
    } else {
        rows_total(rows.drop_last()) + rows.last().duration
    }
}

/// The sum of the whole minutes of `rows`, each rounded towards zero.
pub open spec fn rows_minutes(rows: Seq<RowView>) -> int
    decreases rows.len(),
{
    if rows.len() == 0 {
        0
    } else {
        rows_minutes(rows.drop_last()) + whole_minutes(rows.last().duration)
    }
}

/// The distinct titles are the titles that occur, and none of them twice.
pub proof fn lemma_distinct_titles(titles: Seq<Seq<char>>)
    ensures
        distinct_titles(titles).no_duplicates(),
        forall|t: Seq<char>| distinct_titles(titles).contains(t) <==> titles.contains(t),
    decreases titles.len(),
{
    if titles.len() > 0 {
        let rest = titles.drop_last();
        let before = distinct_titles(rest);
        lemma_distinct_titles(rest);
        assert forall|t: Seq<char>| distinct_titles(titles).contains(t) <==> titles.contains(
            t,
        ) by {
            if titles.contains(t) {
                let k = choose|k: int| 0 <= k < titles.len() && titles[k] == t;
                if k < titles.len() - 1 {
                    assert(rest[k] == t);
                }
            }
            if rest.contains(t) {
                let k = choose|k: int| 0 <= k < rest.len() && rest[k] == t;
                assert(titles[k] == t);
            }
            if !before.contains(titles.last()) {
                assert(before.push(titles.last()).last() == titles.last());
                if before.contains(t) {
                    let k = choose|k: int| 0 <= k < before.len() && before[k] == t;
                    assert(before.push(titles.last())[k] == t);
                }
            }
        }
    }
}

/// Under a title that none of the intervals has, no time was spent.
proof fn lemma_group_total_absent(intervals: Seq<IntervalView>, title: Seq<char>)
    requires
        !titles_of(intervals).contains(title),
    ensures
        group_total(intervals, title) == 0,
    decreases intervals.len(),
{
    if intervals.len() > 0 {
        let rest = intervals.drop_last();
        assert(titles_of(intervals)[intervals.len() - 1] == intervals.last().title());
        assert forall|k: int| 0 <= k < rest.len() implies titles_of(rest)[k] != title by {
            assert(titles_of(intervals)[k] == titles_of(rest)[k]);
        }
        lemma_group_total_absent(rest, title);
    }
}

/// What one more interval does to the rows: it adds its duration to the row
/// with its title, or starts a new last row where there is none.
pub proof fn lemma_grouped_push(intervals: Seq<IntervalView>, next: IntervalView)
    ensures
        forall|j: int|
            0 <= j < grouped(intervals).len() && grouped(intervals)[j].title == next.title()
                ==> grouped(intervals.push(next)) == grouped(intervals).update(
                j,
                RowView {
                    title: next.title(),
                    duration: #[trigger] grouped(intervals)[j].duration + next.duration(),
                },
            ),
        (forall|j: int|
            0 <= j < grouped(intervals).len() ==> (#[trigger] grouped(intervals)[j]).title
                != next.title()) ==> grouped(intervals.push(next)) == grouped(intervals).push(
            RowView { title: next.title(), duration: next.duration() },
        ),
{
    let more = intervals.push(next);
    let titles = titles_of(intervals);
    let before = distinct_titles(titles);
    assert(more.drop_last() == intervals);
    assert(titles_of(more).drop_last() == titles);
    lemma_distinct_titles(titles);
    if before.contains(next.title()) {
        let at = choose|k: int| 0 <= k < before.len() && before[k] == next.title();
        assert(grouped(intervals)[at].title == next.title());
        assert forall|j: int|
            0 <= j < grouped(intervals).len() && grouped(intervals)[j].title
                == next.title() implies grouped(more) == grouped(intervals).update(
            j,
            RowView {
                title: next.title(),
                duration: #[trigger] grouped(intervals)[j].duration + next.duration(),
            },
        ) by {
            assert forall|k: int| 0 <= k < before.len() implies #[trigger] grouped(more)[k]
                == grouped(intervals).update(
                j,
                RowView {
                    title: next.title(),
                    duration: grouped(intervals)[j].duration + next.duration(),
                },
            )[k] by {}
        }
    } else {
        lemma_group_total_absent(intervals, next.title());
        assert forall|j: int| 0 <= j < grouped(intervals).len() implies (#[trigger] grouped(
            intervals,
        )[j]).title != next.title() by {}
    }
}

/// The sum over rows after one more row.
proof fn lemma_rows_total_push(rows: Seq<RowView>, row: RowView)
    ensures
        rows_total(rows.push(row)) == rows_total(rows) + row.duration,
{
    assert(rows.push(row).drop_last() == rows);
}

/// The sum over rows after one row was replaced.
proof fn lemma_rows_total_update(rows: Seq<RowView>, j: int, row: RowView)
    requires
        0 <= j < rows.len(),
    ensures
        rows_total(rows.update(j, row)) == rows_total(rows) - rows[j].duration + row.duration,
    decreases rows.len(),
{
    if j == rows.len() - 1 {
        assert(rows.update(j, row).drop_last() == rows.drop_last());
    } else {
        assert(rows.update(j, row).drop_last() == rows.drop_last().update(j, row));
        lemma_rows_total_update(rows.drop_last(), j, row);
    }
}

/// Grouping neither drops nor counts twice: the durations of the rows sum to
/// the durations of the intervals.
pub proof fn lemma_grouping_keeps_total(intervals: Seq<IntervalView>)
    ensures
        rows_total(grouped(intervals)) == total_seconds(intervals),
    decreases intervals.len(),
{
    if intervals.len() > 0 {
        let rest = intervals.drop_last();
        let next = intervals.last();
        let before = grouped(rest);
        assert(rest.push(next) == intervals);
        lemma_grouping_keeps_total(rest);
        lemma_grouped_push(rest, next);
        if exists|j: int| 0 <= j < before.len() && (#[trigger] before[j]).title == next.title() {
            let j = choose|j: int|
                0 <= j < before.len() && (#[trigger] before[j]).title == next.title();
            let row = RowView { title: next.title(), duration: before[j].duration + next.duration() };
            lemma_rows_total_update(before, j, row);
        } else {
            let row = RowView { title: next.title(), duration: next.duration() };
            lemma_rows_total_push(before, row);
        }
    }
}

/// Where no row has a negative duration, the whole minutes of the rows add up
/// to no more than the whole minutes of their total, and fall short of them by
/// less than one minute for each row. So shares that are taken of the minutes
/// add up to the whole but for what the rounding to minutes takes away.
pub proof fn lemma_minutes_add_up(rows: Seq<RowView>)
    requires
        forall|i: int| 0 <= i < rows.len() ==> (#[trigger] rows[i]).duration >= 0,
    ensures
        rows_total(rows) >= 0,
        rows_minutes(rows) <= whole_minutes(rows_total(rows)),
        rows.len() > 0 ==> whole_minutes(rows_total(rows)) < rows_minutes(rows) + rows.len(),
    decreases rows.len(),
{
    if rows.len() > 0 {
        let rest = rows.drop_last();
        assert forall|i: int| 0 <= i < rest.len() implies (#[trigger] rest[i]).duration >= 0 by {}
        lemma_minutes_add_up(rest);
    }
}

/// Intervals with the same tags, in the same order, share one row: exactly
/// one row carries their tags joined with `", "` as its title, and its
/// duration is the sum over all intervals with that title, these among them.
pub proof fn lemma_same_tags_share_one_row(intervals: Seq<IntervalView>, a: int, b: int)
    requires
        0 <= a < intervals.len(),
        0 <= b < intervals.len(),
        intervals[a].tags == intervals[b].tags,
    ensures
        intervals[a].title() == intervals[b].title(),
        exists|i: int|
            0 <= i < grouped(intervals).len() && (#[trigger] grouped(intervals)[i]) == (RowView {
                title: joined(intervals[a].tags, tag_separator()),
                duration: group_total(intervals, intervals[a].title()),
            }),
        forall|i: int, j: int|
            0 <= i < j < grouped(intervals).len() ==> (#[trigger] grouped(intervals)[i]).title != (
            #[trigger] grouped(intervals)[j]).title,
{
    let titles = titles_of(intervals);
    let distinct = distinct_titles(titles);
    lemma_distinct_titles(titles);
    assert(titles[a] == intervals[a].title());
    assert(titles.contains(intervals[a].title()));
    let at = choose|k: int| 0 <= k < distinct.len() && distinct[k] == intervals[a].title();
    assert(grouped(intervals)[at].title == intervals[a].title());
    assert forall|i: int, j: int| 0 <= i < j < grouped(intervals).len() implies (
    #[trigger] grouped(intervals)[i]).title != (#[trigger] grouped(intervals)[j]).title by {}
}

/// Whether a row of duration `d1` that came `o1`-th is shown before one of
/// duration `d2` that came `o2`-th: the longer one first, and of two equally
/// long ones the later.
pub open spec fn shown_before(d1: int, o1: int, d2: int, o2: int) -> bool {
    d1 > d2 || (d1 == d2 && o1 > o2)
}

/// Whether `shown` holds `rows` in the order of the report, with row `i` of
/// `shown` being row `origin[i]` of `rows`.
///
/// That order is the reverse of `rows` sorted by rising duration with equal
/// durations left in place: every row is there once, the durations never
/// rise, and rows of equal duration stand in the reverse of their order in
/// `rows`.
pub open spec fn is_display_order(rows: Seq<RowView>, shown: Seq<RowView>, origin: Seq<int>) -> bool {
    &&& shown.len() == rows.len()
    &&& origin.len() == rows.len()
    &&& forall|i: int|
        0 <= i < shown.len() ==> 0 <= #[trigger] origin[i] < rows.len() && shown[i]
            == rows[origin[i]]
    &&& forall|k: int| 0 <= k < rows.len() ==> #[trigger] origin.contains(k)
    &&& forall|i: int, j: int|
        0 <= i < j < shown.len() ==> shown_before(
            shown[i].duration,
            #[trigger] origin[i],
            shown[j].duration,
            #[trigger] origin[j],
        )
}

/// `rows` in the order of the report.
pub open spec fn display_order(rows: Seq<RowView>) -> Seq<RowView> {
    let (shown, origin) = choose|shown: Seq<RowView>, origin: Seq<int>|
        is_display_order(rows, shown, origin);
    shown
}

/// For each place in the order of the report, the place in `rows` of the row
/// that is shown there.
pub open spec fn display_origin(rows: Seq<RowView>) -> Seq<int> {
    let (shown, origin) = choose|shown: Seq<RowView>, origin: Seq<int>|
        is_display_order(rows, shown, origin);
    origin
}

/// In rows whose durations never rise, the place of a row of duration `d`
/// that goes behind all longer rows and before all others.
proof fn lemma_place(shown: Seq<RowView>, d: int) -> (at: int)
    requires
        forall|i: int, j: int|
            0 <= i <= j < shown.len() ==> (#[trigger] shown[i]).duration >= (
            #[trigger] shown[j]).duration,
    ensures
        0 <= at <= shown.len(),
        forall|a: int| 0 <= a < at ==> (#[trigger] shown[a]).duration > d,
        forall|b: int| at <= b < shown.len() ==> (#[trigger] shown[b]).duration <= d,
    decreases shown.len(),
{
    if shown.len() == 0 {
        0
    } else if shown.last().duration > d {
        assert forall|a: int| 0 <= a < shown.len() implies (#[trigger] shown[a]).duration > d by {
            assert(shown[a].duration >= shown[shown.len() - 1].duration);
        }
        shown.len() as int
    } else {
        let rest = shown.drop_last();
        assert forall|i: int, j: int| 0 <= i <= j < rest.len() implies (#[trigger] rest[i]).duration
            >= (#[trigger] rest[j]).duration by {
            assert(rest[i] == shown[i] && rest[j] == shown[j]);
        }
        let at = lemma_place(rest, d);
        assert forall|a: int| 0 <= a < at implies (#[trigger] shown[a]).duration > d by {
            assert(rest[a] == shown[a]);
        }
        assert forall|b: int| at <= b < shown.len() implies (#[trigger] shown[b]).duration <= d by {
            if b < rest.len() {
                assert(rest[b] == shown[b]);
            }
        }
        at
    }
}

/// One more row at the end of `rows` goes into the order of the report at
/// the place `at`, behind all longer rows and before all others.
proof fn lemma_display_order_insert(
    rows: Seq<RowView>,
    shown: Seq<RowView>,
    origin: Seq<int>,
    next: RowView,
    at: int,
)
    requires
        is_display_order(rows, shown, origin),
        0 <= at <= shown.len(),
        forall|a: int| 0 <= a < at ==> (#[trigger] shown[a]).duration > next.duration,
        forall|b: int| at <= b < shown.len() ==> (#[trigger] shown[b]).duration <= next.duration,
    ensures
        is_display_order(
            rows.push(next),
            shown.insert(at, next),
            origin.insert(at, rows.len() as int),
        ),
{
    let n = rows.len() as int;
    let more = rows.push(next);
    let shown2 = shown.insert(at, next);
    let origin2 = origin.insert(at, n);
    assert forall|i: int| 0 <= i < shown2.len() implies 0 <= #[trigger] origin2[i] < more.len()
        && shown2[i] == more[origin2[i]] by {
        if i < at {
            assert(origin2[i] == origin[i]);
        } else if i > at {
            assert(origin2[i] == origin[i - 1]);
        }
    }
    assert forall|k: int| 0 <= k < more.len() implies #[trigger] origin2.contains(k) by {
        if k == n {
            assert(origin2[at] == k);
        } else {
            assert(origin.contains(k));
            let old_at = choose|j: int| 0 <= j < origin.len() && origin[j] == k;
            if old_at < at {
                assert(origin2[old_at] == k);
            } else {
                assert(origin2[old_at + 1] == k);
            }
        }
    }
    assert forall|i: int, j: int| 0 <= i < j < shown2.len() implies shown_before(
        shown2[i].duration,
        #[trigger] origin2[i],
        shown2[j].duration,
        #[trigger] origin2[j],
    ) by {
        let i0 = if i < at { i } else { i - 1 };
        let j0 = if j < at { j } else { j - 1 };
        if i != at && j != at {
            assert(origin2[i] == origin[i0] && origin2[j] == origin[j0]);
            assert(shown_before(shown[i0].duration, origin[i0], shown[j0].duration, origin[j0]));
        } else if i == at {
            assert(origin2[j] == origin[j0]);
            assert(shown[j0].duration <= next.duration);
        } else {
            assert(origin2[i] == origin[i0]);
            assert(shown[i0].duration > next.duration);
        }
    }
}

/// Every sequence of rows has an order of the report, and
/// [`display_order`] is it.
pub proof fn lemma_display_order(rows: Seq<RowView>)
    ensures
        is_display_order(rows, display_order(rows), display_origin(rows)),
    decreases rows.len(),
{
    if rows.len() == 0 {
        assert(is_display_order(rows, Seq::<RowView>::empty(), Seq::<int>::empty()));
    } else {
        let rest = rows.drop_last();
        lemma_display_order(rest);
        let shown = display_order(rest);
        let origin = display_origin(rest);
        lemma_display_order_never_rises(rest, shown, origin);
        let at = lemma_place(shown, rows.last().duration);
        lemma_display_order_insert(rest, shown, origin, rows.last(), at);
        assert(rest.push(rows.last()) == rows);
        assert(is_display_order(
            rows,
            shown.insert(at, rows.last()),
            origin.insert(at, rest.len() as int),
        ));
    }
}

/// Two display orders of the same rows agree up to position `upto`.
proof fn lemma_origins_agree(
    rows: Seq<RowView>,
    shown1: Seq<RowView>,
    origin1: Seq<int>,
    shown2: Seq<RowView>,
    origin2: Seq<int>,
    upto: int,
)
    requires
        is_display_order(rows, shown1, origin1),
        is_display_order(rows, shown2, origin2),
        0 <= upto <= rows.len(),
    ensures
        forall|k: int| 0 <= k < upto ==> origin1[k] == origin2[k],
    decreases upto,
{
    if upto > 0 {
        lemma_origins_agree(rows, shown1, origin1, shown2, origin2, upto - 1);
        let k = upto - 1;
        let x = origin1[k];
        let y = origin2[k];
        if x != y {
            assert(origin2.contains(x));
            let j = choose|j: int| 0 <= j < origin2.len() && origin2[j] == x;
            assert(origin1.contains(y));
            let m = choose|m: int| 0 <= m < origin1.len() && origin1[m] == y;
            if j < k {
                assert(shown_before(shown1[j].duration, origin1[j], shown1[k].duration, origin1[k]));
            }
            if m < k {
                assert(shown_before(shown2[m].duration, origin2[m], shown2[k].duration, origin2[k]));
            }
            assert(shown_before(shown2[k].duration, origin2[k], shown2[j].duration, origin2[j]));
            assert(shown_before(shown1[k].duration, origin1[k], shown1[m].duration, origin1[m]));
        }
    }
}

/// The order of the report is settled by the rows alone: two ways of showing
/// the same rows in that order show the same rows at the same places.
pub proof fn lemma_display_order_is_unique(
    rows: Seq<RowView>,
    shown1: Seq<RowView>,
    origin1: Seq<int>,
    shown2: Seq<RowView>,
    origin2: Seq<int>,
)
    requires
        is_display_order(rows, shown1, origin1),
        is_display_order(rows, shown2, origin2),
    ensures
        shown1 == shown2,
        origin1 == origin2,
{
    lemma_origins_agree(rows, shown1, origin1, shown2, origin2, rows.len() as int);
    assert(origin1 =~= origin2);
    assert forall|k: int| 0 <= k < shown1.len() implies shown1[k] == shown2[k] by {
        assert(shown1[k] == rows[origin1[k]]);
        assert(shown2[k] == rows[origin2[k]]);
    }
    assert(shown1 =~= shown2);
}

/// In the order of the report no duration rises from one row to the next.
pub proof fn lemma_display_order_never_rises(
    rows: Seq<RowView>,
    shown: Seq<RowView>,
    origin: Seq<int>,
)
    requires
        is_display_order(rows, shown, origin),
    ensures
        forall|i: int, j: int|
            0 <= i <= j < shown.len() ==> (#[trigger] shown[i]).duration >= (
            #[trigger] shown[j]).duration,
{
    assert forall|i: int, j: int| 0 <= i <= j < shown.len() implies (#[trigger] shown[i]).duration
        >= (#[trigger] shown[j]).duration by {
        if i < j {
            assert(shown_before(shown[i].duration, origin[i], shown[j].duration, origin[j]));
        }
    }
}

/// The first of `rows` with the title `title`.
fn find_row(rows: &Vec<GroupReportRow>, title: &String) -> (r: Option<usize>)
    ensures
        match r {
            Some(j) => j < rows.len() && rows[j as int].title@ == title@,
            None => forall|k: int| 0 <= k < rows.len() ==> (#[trigger] rows[k]).title@ != title@,
        },
{
    let mut j: usize = 0;
    while j < rows.len()
        invariant
            j <= rows.len(),
            forall|k: int| 0 <= k < j ==> (#[trigger] rows[k]).title@ != title@,
        decreases rows.len() - j,
    {
        if rows[j].title == *title {
            return Some(j);
        }
        j = j + 1;
    }
    None
}

impl Data {
    /// Groups the intervals by their titles.
    ///
    /// The intervals are taken in their order. Each adds its duration to the
    /// row with its title; where there is none yet, it starts a new row at the
    /// end. Two intervals share a row exactly where their titles are the same
    /// text. No interval is left out or counted twice, so the rows sum to what
    /// the intervals sum to.
    pub fn grouped_report_rows(&self) -> (rows: Vec<GroupReportRow>)
        ensures
            row_views(rows@) == grouped(self@.intervals),
            rows_total(row_views(rows@)) == total_seconds(self@.intervals),
    {
        let mut rows: Vec<GroupReportRow> = Vec::new();
        let mut i: usize = 0;
        while i < self.intervals.len()
            invariant
                i <= self.intervals.len(),
                row_views(rows@) == grouped(self@.intervals.take(i as int)),
                forall|j: int|
                    0 <= j < rows.len() ==> -(i * MAX_SPAN) <= (#[trigger] rows[j]).duration@ <= i
                        * MAX_SPAN,
            decreases self.intervals.len() - i,
        {
            let interval: &Interval = &self.intervals[i];
            let title: String = interval.title();
            let span: Duration = interval.duration();
            proof {
                let before = self@.intervals.take(i as int);
                assert(self@.intervals.take(i + 1) == before.push(interval@));
                lemma_grouped_push(before, interval@);
                assert forall|k: int| 0 <= k < rows.len() implies (#[trigger] grouped(
                    before,
                )[k]).title == rows[k].title@ by {}
            }
            match find_row(&rows, &title) {
                Some(j) => {
                    let sum: i128 = rows[j].duration.num_seconds() + span.num_seconds();
                    let row = GroupReportRow { title, duration: Duration::seconds(sum) };
                    proof {
                        let before = grouped(self@.intervals.take(i as int));
                        assert(row@.duration == before[j as int].duration + interval@.duration());
                    }
                    rows.set(j, row);
                },
                None => {
                    let row = GroupReportRow { title, duration: span };
                    proof {
                        let before = grouped(self@.intervals.take(i as int));
                        assert forall|k: int| 0 <= k < before.len() implies (#[trigger] before[k]).title
                            != interval@.title() by {}
                    }
                    rows.push(row);
                },
            }
            i = i + 1;
        }
        proof {
            assert(self@.intervals.take(self.intervals.len() as int) == self@.intervals);
            lemma_grouping_keeps_total(self@.intervals);
        }
        rows
    }
}

/// Puts `rows` in the order of the report: the longest duration first.
///
/// The order is that of sorting by rising duration, rows of equal duration
/// staying in place, and then reversing: so of two rows with the same
/// duration the one that stood later in `rows` is shown first.
pub fn display_rows(rows: &Vec<GroupReportRow>) -> (shown: Vec<GroupReportRow>)
    ensures
        row_views(shown@) == display_order(row_views(rows@)),
        is_display_order(
            row_views(rows@),
            row_views(shown@),
            display_origin(row_views(rows@)),
        ),
{
    let ghost all = row_views(rows@);
    let mut shown: Vec<GroupReportRow> = Vec::new();
    let mut origin: Ghost<Seq<int>> = Ghost(Seq::empty());
    let mut i: usize = 0;
    proof {
        assert(is_display_order(all.take(0), row_views(shown@), origin@));
    }
    while i < rows.len()
        invariant
            i <= rows.len(),
            all == row_views(rows@),
            is_display_order(all.take(i as int), row_views(shown@), origin@),
        decreases rows.len() - i,
    {
        let row = GroupReportRow { title: rows[i].title.clone(), duration: rows[i].duration };
        let mut at: usize = 0;
        while at < shown.len() && shown[at].duration.num_seconds() > row.duration.num_seconds()
            invariant
                at <= shown.len(),
                forall|a: int| 0 <= a < at ==> (#[trigger] shown[a]).duration@ > row.duration@,
            decreases shown.len() - at,
        {
            at = at + 1;
        }
        proof {
            let before = row_views(shown@);
            lemma_display_order_never_rises(all.take(i as int), before, origin@);
            assert forall|b: int| at <= b < before.len() implies (#[trigger] before[b]).duration
                <= row@.duration by {
                assert(before[at as int].duration >= before[b].duration);
            }
            lemma_display_order_insert(all.take(i as int), before, origin@, row@, at as int);
            assert(all.take(i as int).push(row@) == all.take(i + 1));
            assert(row_views(shown@.insert(at as int, row)) == before.insert(at as int, row@));
            origin@ = origin@.insert(at as int, i as int);
        }
        shown.insert(at, row);
        i = i + 1;
    }
    proof {
        assert(all.take(rows.len() as int) == all);
        lemma_display_order(all);
        lemma_display_order_is_unique(
            all,
            row_views(shown@),
            origin@,
            display_order(all),
            display_origin(all),
        );
    }
    shown
}

} // verus!
