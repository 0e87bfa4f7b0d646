//! The report as a whole: the title with the report's range, the width of
//! the title column, the total, the intervals that carry a note, and the
//! lines in which all of this is laid out.

use crate::data::{Data, DataError, DataView, Interval, IntervalView, Setting, SettingView};
use crate::rows::{display_order, display_rows, grouped, row_views, GroupReportRow, RowView};
use crate::text::{byte_width, pad_string, padded};
use crate::timewarrior_datetime::{
    calendar_date, date_time_to_date_string, stated_seconds, valid_seconds, Duration, MAX_SPAN,
};
use vstd::prelude::*;

verus! {

/// The narrowest that the title column gets, in bytes.
pub const MINIMUM_TAGS_WIDTH: usize = 12;

/// The first of `settings` that is called `name`.
pub open spec fn first_named(settings: Seq<SettingView>, name: Seq<char>) -> Option<SettingView>
    decreases settings.len(),
{
    if settings.len() == 0 {
        None
    } else if settings[0].name == name {
        Some(settings[0])
    } else {
        first_named(settings.drop_first(), name)
    }
}

/// The bounds of the report's range as the settings state them: the values
/// of `temp.report.start` and `temp.report.end`, where both settings are
/// there and the start is not empty.
pub open spec fn report_range(settings: Seq<SettingView>) -> Option<(Seq<char>, Seq<char>)> {
    match (first_named(settings, "temp.report.start"@), first_named(settings, "temp.report.end"@)) {
        (Some(start), Some(end)) => if start.value.len() > 0 {
            Some((start.value, end.value))
        } else {
            None
        },
        _ => None,
    }
}

/// The calendar date of the second that lies `back` seconds before the
/// timestamp that `text` states.
pub open spec fn date_before(text: Seq<char>, back: int) -> Option<Seq<char>> {
    match stated_seconds(text) {
        Some(secs) => if valid_seconds(secs - back) {
            calendar_date(secs - back)
        } else {
            None
        },
        None => None,
    }
}

/// The title for a range from the date `start` to the date `end`.
pub open spec fn title_of_dates(start: Seq<char>, end: Seq<char>) -> Seq<char> {
    start + seq![' ', '-', ' '] + end
}

/// The title of the report for `settings`.
///
/// Without a range the title is empty. With one, it names the date of the
/// start and the date of the last second before the end: the end of a range
/// is the first second that lies outside of it, so a range that ends at
/// midnight is labelled with the day before.
pub open spec fn report_title_of(settings: Seq<SettingView>) -> Result<Seq<char>, DataError> {
    match report_range(settings) {
        None => Ok(Seq::empty()),
        Some((start, end)) => match (date_before(start, 0), date_before(end, 1)) {
            (Some(first), Some(last)) => Ok(title_of_dates(first, last)),
            _ => Err(DataError::InvalidTimestamp),
        },
    }
}

/// The sum of the durations of `intervals`, in seconds.
pub open spec fn total_seconds(intervals: Seq<IntervalView>) -> int
    decreases intervals.len(),
{
    if intervals.len() == 0 {
        0
    } else {
        total_seconds(intervals.drop_last()) + intervals.last().duration()
    }
}

/// The intervals that carry a note.
pub open spec fn is_annotated() -> spec_fn(IntervalView) -> bool {
    |interval: IntervalView| interval.annotation is Some
}

/// What a sequence of borrowed intervals holds.
pub open spec fn borrowed_views(intervals: Seq<&Interval>) -> Seq<IntervalView> {
    intervals.map_values(|i: &Interval| i@)
}

/// The title for a range from the date `start` to the date `end`.
pub fn title_from_dates(start: &str, end: &str) -> (r: String)
    ensures
        r@ == title_of_dates(start@, end@),
{
    proof {
        reveal_strlit(" - ");
    }
    let mut title: String = start.to_owned();
    title.append(" - ");
    title.append(end);
    title
}

/// The calendar date of the second that lies `back` seconds before
/// `setting`'s value, read as a timestamp.
fn setting_date(setting: &Setting, back: i128) -> (r: Option<String>)
    ensures
        match r {
            Some(date) => date_before(setting.value@, back as int) == Some(date@),
            None => date_before(setting.value@, back as int) is None,
        },
{
    match setting.value_to_date_time() {
        Ok(stated) => match stated.checked_sub_signed(&Duration::seconds(back)) {
            Some(moved) => date_time_to_date_string(moved),
            None => None,
        },
        Err(_) => None,
    }
}

impl Data {
    /// The first setting that is called `name`.
    pub fn find_setting(&self, name: &str) -> (r: Option<&Setting>)
        ensures
            match r {
                Some(setting) => first_named(self@.settings, name@) == Some(setting@),
                None => first_named(self@.settings, name@) is None,
            },
    {
        let wanted: String = name.to_owned();
        let mut i: usize = 0;
        assert(self@.settings.skip(0) == self@.settings);
        while i < self.settings.len()
            invariant
                i <= self.settings.len(),
                wanted@ == name@,
                first_named(self@.settings, name@) == first_named(
                    self@.settings.skip(i as int),
                    name@,
                ),
            decreases self.settings.len() - i,
        {
            proof {
                assert(self@.settings.skip(i as int).drop_first() == self@.settings.skip(i + 1));
            }
            if self.settings[i].name == wanted {
                return Some(&self.settings[i]);
            }
            i = i + 1;
        }
        None
    }

    /// The title of the report: the dates of its range, or nothing where the
    /// settings state no range. A bound that is no timestamp, or whose date
    /// the calendar does not reach, is an error.
    pub fn report_title(&self) -> (r: Result<String, DataError>)
        ensures
            match r {
                Ok(title) => report_title_of(self@.settings) == Ok::<Seq<char>, DataError>(title@),
                Err(e) => report_title_of(self@.settings) == Err::<Seq<char>, DataError>(e),
            },
    {
        let start = self.find_setting("temp.report.start");
        let end = self.find_setting("temp.report.end");
        match (start, end) {
            (Some(start), Some(end)) => {
                if start.value.as_str().is_empty() {
                    return Ok(String::new());
                }
                match (setting_date(start, 0), setting_date(end, 1)) {
                    (Some(first), Some(last)) => Ok(
                        title_from_dates(first.as_str(), last.as_str()),
                    ),
                    _ => Err(DataError::InvalidTimestamp),
                }
            },
            _ => Ok(String::new()),
        }
    }

    /// The sum of the durations of all intervals.
    pub fn total_duration(&self) -> (d: Duration)
        ensures
            d@ == total_seconds(self@.intervals),
    {
        let mut total: i128 = 0;
        let mut i: usize = 0;
        while i < self.intervals.len()
            invariant
                i <= self.intervals.len(),
                total == total_seconds(self@.intervals.take(i as int)),
                -(i * MAX_SPAN) <= total <= i * MAX_SPAN,
            decreases self.intervals.len() - i,
        {
            proof {
                assert(self@.intervals.take(i + 1).drop_last() == self@.intervals.take(i as int));
            }
            let span: Duration = self.intervals[i].duration();
            total = total + span.num_seconds();
            i = i + 1;
        }
        proof {
            assert(self@.intervals.take(self.intervals.len() as int) == self@.intervals);
        }
        Duration::seconds(total)
    }

    /// The whole report, line by line.
    ///
    /// The rows are those of [`Data::grouped_report_rows`] in the order of
    /// [`display_rows`]; the title column is as wide as its widest title; the
    /// total is that of all intervals; and each interval that carries a note
    /// gets a line of its own below the total. A range that cannot be read
    /// fails the report as it fails the title.
    pub fn report(&self) -> (r: Result<Vec<ReportLine>, DataError>)
        ensures
            match r {
                Ok(lines) => report_of(self@) == Ok::<Seq<LineView>, DataError>(line_views(lines@)),
                Err(e) => report_of(self@) == Err::<Seq<LineView>, DataError>(e),
            },
    {
        let title = match self.report_title() {
            Ok(title) => title,
            Err(e) => {
                return Err(e);
            },
        };
        let rows = self.grouped_report_rows();
        let shown = display_rows(&rows);
        let annotated = self.annotated_intervals();
        Ok(lay_out(title, &shown, title_width(&rows), self.total_duration(), &annotated))
    }

    /// The intervals that carry a note, in their order. Each of them gets a
    /// line of its own below the rows.
    pub fn annotated_intervals(&self) -> (r: Vec<&Interval>)
        ensures
            borrowed_views(r@) == self@.intervals.filter(is_annotated()),
    {
        let mut found: Vec<&Interval> = Vec::new();
        let mut i: usize = 0;
        proof {
            reveal_with_fuel(Seq::filter, 1);
        }
        while i < self.intervals.len()
            invariant
                i <= self.intervals.len(),
                borrowed_views(found@) == self@.intervals.take(i as int).filter(is_annotated()),
            decreases self.intervals.len() - i,
        {
            let interval: &Interval = &self.intervals[i];
            proof {
                reveal_with_fuel(Seq::filter, 2);
                assert(self@.intervals.take(i + 1).drop_last() == self@.intervals.take(i as int));
            }
            if interval.annotation.is_some() {
                found.push(interval);
            }
            i = i + 1;
        }
        proof {
            assert(self@.intervals.take(self.intervals.len() as int) == self@.intervals);
        }
        found
    }
}

/// The width of the title column for `rows`, in bytes: that of the widest
/// title, and [`MINIMUM_TAGS_WIDTH`] at least.
pub open spec fn column_width(rows: Seq<RowView>) -> nat
    decreases rows.len(),
{
    if rows.len() == 0 {
        MINIMUM_TAGS_WIDTH as nat
    } else {
        let before = column_width(rows.drop_last());
        let here = byte_width(rows.last().title);
        if here > before {
            here
        } else {
            before
        }
    }
}

/// The column is as wide as the widest title and as the minimum, and no
/// wider than the wider of the two.
pub proof fn lemma_column_width(rows: Seq<RowView>)
    ensures
        column_width(rows) >= MINIMUM_TAGS_WIDTH,
        forall|i: int| 0 <= i < rows.len() ==> column_width(rows) >= byte_width(#[trigger] rows[i].title),
        column_width(rows) == MINIMUM_TAGS_WIDTH || exists|i: int|
            0 <= i < rows.len() && column_width(rows) == byte_width(#[trigger] rows[i].title),
    decreases rows.len(),
{
    if rows.len() > 0 {
        let rest = rows.drop_last();
        lemma_column_width(rest);
        assert forall|i: int| 0 <= i < rows.len() implies column_width(rows) >= byte_width(
            #[trigger] rows[i].title,
        ) by {
            if i < rows.len() - 1 {
                assert(rest[i] == rows[i]);
            }
        }
        if column_width(rows) != MINIMUM_TAGS_WIDTH {
            if column_width(rows) == column_width(rest) {
                let i = choose|i: int|
                    0 <= i < rest.len() && column_width(rest) == byte_width(#[trigger] rest[i].title);
                assert(rows[i] == rest[i]);
            } else {
                assert(rows[rows.len() - 1] == rows.last());
            }
        }
    }
}

/// The width of the title column for `rows`: that of the widest title, and
/// [`MINIMUM_TAGS_WIDTH`] at least.
pub fn title_width(rows: &Vec<GroupReportRow>) -> (width: usize)
    ensures
        width == column_width(row_views(rows@)),
        width >= MINIMUM_TAGS_WIDTH,
        forall|i: int| 0 <= i < rows.len() ==> width >= byte_width(#[trigger] rows[i].title@),
        width == MINIMUM_TAGS_WIDTH || exists|i: int|
            0 <= i < rows.len() && width == byte_width(#[trigger] rows[i].title@),
{
    let mut width: usize = MINIMUM_TAGS_WIDTH;
    let mut i: usize = 0;
    while i < rows.len()
        invariant
            i <= rows.len(),
            width == column_width(row_views(rows@).take(i as int)),
        decreases rows.len() - i,
    {
        proof {
            assert(row_views(rows@).take(i + 1).drop_last() == row_views(rows@).take(i as int));
        }
        let here: usize = rows[i].title.as_str().as_bytes().len();
        if here > width {
            width = here;
        }
        i = i + 1;
    }
    proof {
        let views = row_views(rows@);
        assert(views.take(rows.len() as int) == views);
        lemma_column_width(views);
        assert forall|i: int| 0 <= i < rows.len() implies width >= byte_width(
            #[trigger] rows[i].title@,
        ) by {
            assert(views[i].title == rows[i].title@);
        }
        if width != MINIMUM_TAGS_WIDTH {
            let i = choose|i: int|
                0 <= i < views.len() && column_width(views) == byte_width(#[trigger] views[i].title);
            assert(views[i].title == rows[i].title@);
        }
    }
    width
}

/// One line of the printed report, by the part that it plays. The texts for
/// the title column are padded to the column's width; what is a number in
/// print is held as the duration it is computed from.
#[derive(Debug)]
pub enum ReportLine {
    /// The report's range.
    Title { text: String },
    /// An empty line.
    Blank,
    /// The heads of the columns; `tags` is the head of the title column.
    Header { tags: String },
    /// One row: its title, its duration, the total it is a share of, and
    /// whether it is the last row, the one above the total.
    Group { title: String, duration: Duration, total: Duration, last: bool },
    /// The total; `label` stands in the title column.
    Total { label: String, duration: Duration },
    /// The head of the intervals that carry a note.
    AnnotationsLabel,
    /// One interval that carries a note: its title, its duration, the total
    /// it is a share of, and the note.
    Annotation { title: String, duration: Duration, total: Duration, note: String },
}

/// What a [`ReportLine`] holds: durations in seconds.
pub enum LineView {
    Title { text: Seq<char> },
    Blank,
    Header { tags: Seq<char> },
    Group { title: Seq<char>, duration: int, total: int, last: bool },
    Total { label: Seq<char>, duration: int },
    AnnotationsLabel,
    Annotation { title: Seq<char>, duration: int, total: int, note: Seq<char> },
}

impl View for ReportLine {
    type V = LineView;

    open spec fn view(&self) -> LineView {
        match *self {
            ReportLine::Title { text } => LineView::Title { text: text@ },
            ReportLine::Blank => LineView::Blank,
            ReportLine::Header { tags } => LineView::Header { tags: tags@ },
            ReportLine::Group { title, duration, total, last } => LineView::Group {
                title: title@,
                duration: duration@,
                total: total@,
                last,
            },
            ReportLine::Total { label, duration } => LineView::Total {
                label: label@,
                duration: duration@,
            },
            ReportLine::AnnotationsLabel => LineView::AnnotationsLabel,
            ReportLine::Annotation { title, duration, total, note } => LineView::Annotation {
                title: title@,
                duration: duration@,
                total: total@,
                note: note@,
            },
        }
    }
}

/// What a sequence of lines holds.
pub open spec fn line_views(lines: Seq<ReportLine>) -> Seq<LineView> {
    lines.map_values(|l: ReportLine| l@)
}

/// The head of the title column.
pub open spec fn tags_head() -> Seq<char> {
    seq!['T', 'A', 'G', 'S']
}

/// The label of the total.
pub open spec fn total_label() -> Seq<char> {
    seq!['T', 'O', 'T', 'A', 'L']
}

/// The lines above the rows: the title, an empty line, the column heads.
pub open spec fn head_lines(title: Seq<char>, width: nat) -> Seq<LineView> {
    seq![
        LineView::Title { text: title },
        LineView::Blank,
        LineView::Header { tags: padded(tags_head(), width) },
    ]
}

/// The lines of the rows `shown`, the last of them marked.
pub open spec fn group_lines(shown: Seq<RowView>, width: nat, total: int) -> Seq<LineView> {
    Seq::new(
        shown.len(),
        |i: int|
            LineView::Group {
                title: padded(shown[i].title, width),
                duration: shown[i].duration,
                total,
                last: i == shown.len() - 1,
            },
    )
}

/// The lines of the intervals `annotated`, one for each.
pub open spec fn annotation_lines(annotated: Seq<IntervalView>, width: nat, total: int) -> Seq<
    LineView,
> {
    Seq::new(
        annotated.len(),
        |i: int|
            LineView::Annotation {
                title: padded(annotated[i].title(), width),
                duration: annotated[i].duration(),
                total,
                note: match annotated[i].annotation {
                    Some(note) => note,
                    None => Seq::empty(),
                },
            },
    )
}

/// The lines below the total: nothing where no interval carries a note; else
/// an empty line, a head, and the lines of the intervals.
pub open spec fn annotation_section(annotated: Seq<IntervalView>, width: nat, total: int) -> Seq<
    LineView,
> {
    if annotated.len() == 0 {
        Seq::empty()
    } else {
        seq![LineView::Blank, LineView::AnnotationsLabel] + annotation_lines(
            annotated,
            width,
            total,
        )
    }
}

/// The report, line by line: the title, an empty line, the column heads, the
/// rows `shown`, the total, and the intervals that carry a note.
pub open spec fn laid_out(
    title: Seq<char>,
    shown: Seq<RowView>,
    width: nat,
    total: int,
    annotated: Seq<IntervalView>,
) -> Seq<LineView> {
    head_lines(title, width) + group_lines(shown, width, total) + seq![
        LineView::Total { label: padded(total_label(), width), duration: total },
    ] + annotation_section(annotated, width, total)
}

/// The report for `data`, line by line: the rows are the grouped rows in the
/// order of the report, the title is that of the settings, the title column
/// is as wide as the widest title, the total is that of all intervals, and
/// the intervals with a note follow in their order. A range that cannot be
/// read leaves no report.
pub open spec fn report_of(data: DataView) -> Result<Seq<LineView>, DataError> {
    match report_title_of(data.settings) {
        Ok(title) => Ok(
            laid_out(
                title,
                display_order(grouped(data.intervals)),
                column_width(grouped(data.intervals)),
                total_seconds(data.intervals),
                data.intervals.filter(is_annotated()),
            ),
        ),
        Err(e) => Err(e),
    }
}

/// Lays the parts of a report out in lines. `shown` are the rows in the order
/// in which they are shown, `annotated` the intervals that carry a note.
pub fn lay_out(
    title: String,
    shown: &Vec<GroupReportRow>,
    width: usize,
    total: Duration,
    annotated: &Vec<&Interval>,
) -> (lines: Vec<ReportLine>)
    ensures
        line_views(lines@) == laid_out(
            title@,
            row_views(shown@),
            width as nat,
            total@,
            borrowed_views(annotated@),
        ),
{
    let ghost above = head_lines(title@, width as nat);
    let ghost groups = group_lines(row_views(shown@), width as nat, total@);
    let ghost notes = annotation_lines(borrowed_views(annotated@), width as nat, total@);
    let ghost sum = LineView::Total { label: padded(total_label(), width as nat), duration: total@ };
    proof {
        reveal_strlit("TAGS");
        reveal_strlit("TOTAL");
        assert("TAGS"@ == tags_head());
        assert("TOTAL"@ == total_label());
    }
    let mut lines: Vec<ReportLine> = Vec::new();
    lines.push(ReportLine::Title { text: title });
    lines.push(ReportLine::Blank);
    lines.push(ReportLine::Header { tags: pad_string("TAGS", width) });
    let mut i: usize = 0;
    while i < shown.len()
        invariant
            i <= shown.len(),
            groups == group_lines(row_views(shown@), width as nat, total@),
            line_views(lines@) == above + groups.take(i as int),
        decreases shown.len() - i,
    {
        let line = ReportLine::Group {
            title: shown[i].padded_title(width),
            duration: shown[i].duration,
            total,
            last: i + 1 == shown.len(),
        };
        proof {
            assert((above + groups.take(i as int)).push(line@) == above + groups.take(i + 1));
        }
        lines.push(line);
        i = i + 1;
    }
    let sum_line = ReportLine::Total { label: pad_string("TOTAL", width), duration: total };
    proof {
        assert(line_views(lines@.push(sum_line)) == line_views(lines@).push(sum_line@));
    }
    lines.push(sum_line);
    if annotated.len() > 0 {
        let ghost upper = above + groups + seq![sum];
        let ghost label = seq![LineView::Blank, LineView::AnnotationsLabel];
        proof {
            assert(line_views(lines@.push(ReportLine::Blank).push(ReportLine::AnnotationsLabel))
                == line_views(lines@).push(LineView::Blank).push(LineView::AnnotationsLabel));
        }
        lines.push(ReportLine::Blank);
        lines.push(ReportLine::AnnotationsLabel);
        let mut k: usize = 0;
        while k < annotated.len()
            invariant
                k <= annotated.len(),
                notes == annotation_lines(borrowed_views(annotated@), width as nat, total@),
                line_views(lines@) == upper + label + notes.take(k as int),
            decreases annotated.len() - k,
        {
            let interval: &Interval = annotated[k];
            let note: String = match &interval.annotation {
                Some(note) => note.clone(),
                None => String::new(),
            };
            let line = ReportLine::Annotation {
                title: pad_string(interval.title().as_str(), width),
                duration: interval.duration(),
                total,
                note,
            };
            proof {
                assert((upper + label + notes.take(k as int)).push(line@) == upper + label
                    + notes.take(k + 1));
            }
            lines.push(line);
            k = k + 1;
        }
    }
    lines
}

} // verus!
