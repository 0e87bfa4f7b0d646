use timew_report::data::{get_data, Data, DataError, Interval, Setting};
use timew_report::report::{lay_out, title_from_dates, title_width, ReportLine, MINIMUM_TAGS_WIDTH};
use timew_report::rows::{display_rows, GroupReportRow};
use timew_report::timewarrior_datetime::{parse, Duration, Timestamp};

fn setting(name: &str, value: &str) -> Setting {
    Setting { name: String::from(name), value: String::from(value) }
}

fn interval(start: i64, minutes: i64, tags: &[&str], annotation: Option<&str>) -> Interval {
    Interval {
        id: None,
        start: Timestamp::from_seconds(start).unwrap(),
        end: Timestamp::from_seconds(start + 60 * minutes).unwrap(),
        tags: tags.iter().map(|t| String::from(*t)).collect(),
        annotation: annotation.map(String::from),
    }
}

fn data(settings: Vec<Setting>, intervals: Vec<Interval>) -> Data {
    Data { settings, intervals }
}

fn row(title: &str, seconds: i128) -> GroupReportRow {
    GroupReportRow { title: String::from(title), duration: Duration::seconds(seconds) }
}

fn titles(rows: &[GroupReportRow]) -> Vec<&str> {
    rows.iter().map(|r| r.title.as_str()).collect()
}

#[test]
fn report_title_names_the_range() {
    let d = data(
        vec![
            setting("temp.report.start", "20240101T000000Z"),
            setting("temp.report.end", "20240201T000000Z"),
        ],
        Vec::new(),
    );
    assert_eq!(d.report_title(), Ok(String::from("2024-01-01 - 2024-01-31")));
}

#[test]
fn report_title_takes_the_last_second_before_the_end() {
    let d = data(
        vec![
            setting("temp.report.end", "20240101T000001Z"),
            setting("temp.report.start", "20231231T235959Z"),
        ],
        Vec::new(),
    );
    assert_eq!(d.report_title(), Ok(String::from("2023-12-31 - 2024-01-01")));
}

#[test]
fn report_title_is_empty_without_a_range() {
    assert_eq!(data(Vec::new(), Vec::new()).report_title(), Ok(String::new()));
    let d = data(vec![setting("temp.report.start", "20240101T000000Z")], Vec::new());
    assert_eq!(d.report_title(), Ok(String::new()));
    let d = data(vec![setting("temp.report.end", "20240101T000000Z")], Vec::new());
    assert_eq!(d.report_title(), Ok(String::new()));
    let d = data(
        vec![setting("temp.report.start", ""), setting("temp.report.end", "20240201T000000Z")],
        Vec::new(),
    );
    assert_eq!(d.report_title(), Ok(String::new()));
    let d = data(
        vec![setting("temp.report.start", ""), setting("temp.report.end", "nonsense")],
        Vec::new(),
    );
    assert_eq!(d.report_title(), Ok(String::new()));
}

#[test]
fn report_title_fails_on_a_bound_that_is_no_timestamp() {
    let d = data(
        vec![
            setting("temp.report.start", "yesterday"),
            setting("temp.report.end", "20240201T000000Z"),
        ],
        Vec::new(),
    );
    assert_eq!(d.report_title(), Err(DataError::InvalidTimestamp));
    let d = data(
        vec![
            setting("temp.report.start", "20240101T000000Z"),
            setting("temp.report.end", ""),
        ],
        Vec::new(),
    );
    assert_eq!(d.report_title(), Err(DataError::InvalidTimestamp));
}

#[test]
fn report_title_goes_by_the_first_setting_of_a_name() {
    let d = data(
        vec![
            setting("temp.report.start", "20240101T000000Z"),
            setting("temp.report.start", "20230101T000000Z"),
            setting("temp.report.end", "20240102T000000Z"),
            setting("temp.report.end", "nonsense"),
        ],
        Vec::new(),
    );
    assert_eq!(d.report_title(), Ok(String::from("2024-01-01 - 2024-01-01")));
}

#[test]
fn title_from_dates_puts_a_dash_between() {
    assert_eq!(title_from_dates("2024-01-01", "2024-01-31"), "2024-01-01 - 2024-01-31");
    assert_eq!(title_from_dates("", ""), " - ");
}

#[test]
fn find_setting_returns_the_first_match() {
    let d = data(
        vec![setting("a", "1"), setting("b", "2"), setting("a", "3"), setting("", "4")],
        Vec::new(),
    );
    assert_eq!(d.find_setting("a").unwrap().value, "1");
    assert_eq!(d.find_setting("b").unwrap().value, "2");
    assert_eq!(d.find_setting("").unwrap().value, "4");
    assert!(d.find_setting("c").is_none());
    assert!(d.find_setting("A").is_none());
    assert!(data(Vec::new(), Vec::new()).find_setting("a").is_none());
}

#[test]
fn value_to_date_time_reads_the_value() {
    assert_eq!(
        setting("x", "20240101T000000Z").value_to_date_time().unwrap().seconds(),
        parse("20240101T000000Z").unwrap().seconds()
    );
    assert!(setting("x", "Invalid date").value_to_date_time().is_err());
}

#[test]
fn grouping_sums_work_and_break() {
    let d = data(
        Vec::new(),
        vec![
            interval(0, 30, &["work"], None),
            interval(10_000, 90, &["work"], None),
            interval(20_000, 20, &["break"], None),
        ],
    );
    let rows = d.grouped_report_rows();
    assert_eq!(titles(&rows), vec!["work", "break"]);
    assert_eq!(rows[0].duration.num_minutes(), 120);
    assert_eq!(rows[1].duration.num_minutes(), 20);
    let total = d.total_duration();
    assert_eq!(total.num_minutes(), 140);
    let shown = display_rows(&rows);
    assert_eq!(titles(&shown), vec!["work", "break"]);
    let share = shown[0].duration.num_minutes() as f64 / total.num_minutes() as f64 * 100.0;
    assert_eq!(format!("{:5.1}", share), " 85.7");
    assert_eq!(format!("{:5.0}", share), "   86");
}

#[test]
fn grouping_keeps_the_order_of_first_occurrence() {
    let d = data(
        Vec::new(),
        vec![
            interval(0, 1, &["b"], None),
            interval(100, 2, &["a"], None),
            interval(200, 4, &["b"], None),
            interval(300, 8, &["c", "a"], None),
            interval(400, 16, &["a"], None),
            interval(500, 32, &["a", "c"], None),
        ],
    );
    let rows = d.grouped_report_rows();
    assert_eq!(titles(&rows), vec!["b", "a", "c, a", "a, c"]);
    assert_eq!(rows[0].duration.num_minutes(), 5);
    assert_eq!(rows[1].duration.num_minutes(), 18);
    assert_eq!(rows[2].duration.num_minutes(), 8);
    assert_eq!(rows[3].duration.num_minutes(), 32);
}

#[test]
fn grouping_goes_by_the_title() {
    let d = data(
        Vec::new(),
        vec![
            interval(0, 1, &["a", "b"], None),
            interval(100, 2, &["a, b"], None),
            interval(200, 4, &["a", "a"], None),
            interval(300, 8, &["a"], None),
            interval(400, 16, &[], None),
            interval(500, 32, &[""], None),
        ],
    );
    let rows = d.grouped_report_rows();
    assert_eq!(titles(&rows), vec!["a, b", "a, a", "a", ""]);
    assert_eq!(rows[0].duration.num_minutes(), 3);
    assert_eq!(rows[1].duration.num_minutes(), 4);
    assert_eq!(rows[2].duration.num_minutes(), 8);
    assert_eq!(rows[3].duration.num_minutes(), 48);
}

#[test]
fn grouping_neither_drops_nor_doubles() {
    let d = data(
        Vec::new(),
        vec![
            interval(0, 7, &["x"], None),
            interval(100, 11, &["y"], None),
            interval(200, 13, &["x"], None),
            interval(300, -5, &["z"], None),
            interval(400, 17, &["y"], None),
        ],
    );
    let rows = d.grouped_report_rows();
    let of_rows: i128 = rows.iter().map(|r| r.duration.num_seconds()).sum();
    let of_intervals: i128 = d.intervals.iter().map(|i| i.duration().num_seconds()).sum();
    assert_eq!(of_rows, of_intervals);
    assert_eq!(of_rows, 43 * 60);
    assert_eq!(d.total_duration().num_seconds(), 43 * 60);
}

#[test]
fn grouping_lets_a_negative_duration_through() {
    let d = data(
        Vec::new(),
        vec![interval(0, 30, &["a"], None), interval(5000, -45, &["a"], None)],
    );
    let rows = d.grouped_report_rows();
    assert_eq!(rows.len(), 1);
    assert_eq!(rows[0].duration.num_seconds(), -900);
    assert_eq!(rows[0].duration.num_minutes(), -15);
    assert_eq!(d.total_duration().num_minutes(), -15);
}

#[test]
fn grouping_sums_the_widest_spans() {
    let low = Timestamp::from_seconds(-timew_report::timewarrior_datetime::MAX_SECONDS).unwrap();
    let high = Timestamp::from_seconds(timew_report::timewarrior_datetime::MAX_SECONDS).unwrap();
    let wide = || Interval {
        id: None,
        start: low,
        end: high,
        tags: vec![String::from("all")],
        annotation: None,
    };
    let d = data(Vec::new(), vec![wide(), wide(), wide()]);
    let rows = d.grouped_report_rows();
    assert_eq!(rows.len(), 1);
    assert_eq!(rows[0].duration.num_seconds(), 3 * (1i128 << 63));
    assert_eq!(d.total_duration().num_seconds(), 3 * (1i128 << 63));
}

#[test]
fn empty_interval_list() {
    let d = data(Vec::new(), Vec::new());
    let rows = d.grouped_report_rows();
    assert!(rows.is_empty());
    assert!(display_rows(&rows).is_empty());
    assert_eq!(d.total_duration().num_minutes(), 0);
    assert_eq!(d.total_duration().num_seconds(), 0);
    assert!(d.annotated_intervals().is_empty());
    assert_eq!(title_width(&rows), MINIMUM_TAGS_WIDTH);
    assert_eq!(d.report_title(), Ok(String::new()));
}

#[test]
fn display_rows_puts_the_longest_first() {
    let rows = vec![row("a", 60), row("b", 7200), row("c", -60), row("d", 600)];
    let shown = display_rows(&rows);
    assert_eq!(titles(&shown), vec!["b", "d", "a", "c"]);
    assert_eq!(shown[0].duration.num_seconds(), 7200);
    assert_eq!(shown[3].duration.num_seconds(), -60);
    assert_eq!(titles(&rows), vec!["a", "b", "c", "d"]);
}

#[test]
fn display_rows_reverses_rows_of_equal_duration() {
    let rows = vec![row("a", 60), row("b", 60), row("c", 120), row("d", 60), row("e", 120)];
    let shown = display_rows(&rows);
    assert_eq!(titles(&shown), vec!["e", "c", "d", "b", "a"]);
}

#[test]
fn display_rows_is_the_reverse_of_a_stable_sort() {
    let rows = vec![
        row("a", 5),
        row("b", 3),
        row("c", 5),
        row("d", 1),
        row("e", 3),
        row("f", 5),
        row("g", 0),
    ];
    let mut sorted: Vec<(&str, i128)> =
        rows.iter().map(|r| (r.title.as_str(), r.duration.num_seconds())).collect();
    sorted.sort_by_key(|r| r.1);
    sorted.reverse();
    let shown = display_rows(&rows);
    let got: Vec<(&str, i128)> =
        shown.iter().map(|r| (r.title.as_str(), r.duration.num_seconds())).collect();
    assert_eq!(got, sorted);
    for pair in shown.windows(2) {
        assert!(pair[0].duration.num_seconds() >= pair[1].duration.num_seconds());
    }
}

#[test]
fn display_rows_of_one_row() {
    let shown = display_rows(&vec![row("only", 1)]);
    assert_eq!(titles(&shown), vec!["only"]);
}

#[test]
fn title_width_is_that_of_the_widest_title() {
    assert_eq!(MINIMUM_TAGS_WIDTH, 12);
    assert_eq!(title_width(&Vec::new()), 12);
    assert_eq!(title_width(&vec![row("short", 1)]), 12);
    assert_eq!(title_width(&vec![row("exactly12345", 1)]), 12);
    assert_eq!(title_width(&vec![row("a", 1), row("thirteen chars", 1), row("b", 1)]), 14);
    assert_eq!(title_width(&vec![row("\u{e9}\u{e9}\u{e9}\u{e9}\u{e9}\u{e9}\u{e9}", 1)]), 14);
}

#[test]
fn padded_title_fits_the_width() {
    let r = row("work", 1);
    assert_eq!(r.padded_title(12), "        work");
    assert_eq!(r.padded_title(4), "work");
    assert_eq!(r.padded_title(2), "work");
    let rows = vec![row("work", 1), row("a long title of tags", 2)];
    let width = title_width(&rows);
    for r in &rows {
        assert_eq!(r.padded_title(width).len(), width);
    }
}

#[test]
fn annotated_intervals_are_those_with_a_note() {
    let d = data(
        Vec::new(),
        vec![
            interval(0, 1, &["a"], None),
            interval(100, 2, &["a"], Some("first")),
            interval(200, 3, &["b"], None),
            interval(300, 4, &["a"], Some("")),
            interval(400, 5, &["b"], Some("first")),
        ],
    );
    let notes: Vec<&str> =
        d.annotated_intervals().iter().map(|i| i.annotation.as_deref().unwrap()).collect();
    assert_eq!(notes, vec!["first", "", "first"]);
    let minutes: Vec<i128> =
        d.annotated_intervals().iter().map(|i| i.duration().num_minutes()).collect();
    assert_eq!(minutes, vec![2, 4, 5]);
}

#[test]
fn one_annotation_gives_one_line() {
    let with = data(Vec::new(), vec![interval(0, 1, &["a"], Some("note"))]);
    assert_eq!(with.annotated_intervals().len(), 1);
    let without = data(Vec::new(), vec![interval(0, 1, &["a"], None)]);
    assert_eq!(without.annotated_intervals().len(), 0);
}

#[test]
fn a_whole_report() {
    let d = get_data(&vec![
        String::from("temp.report.start: 20240101T000000Z"),
        String::from("temp.report.end: 20240108T000000Z"),
        String::new(),
        String::from("["),
        String::from("{\"id\":3,\"start\":\"20240101T090000Z\",\"end\":\"20240101T093000Z\",\"tags\":[\"work\"]},"),
        String::from("{\"id\":2,\"start\":\"20240101T100000Z\",\"end\":\"20240101T102000Z\",\"tags\":[\"break\"],\"annotation\":\"tea\"},"),
        String::from("{\"id\":1,\"start\":\"20240102T090000Z\",\"end\":\"20240102T103000Z\",\"tags\":[\"work\"]}"),
        String::from("]"),
    ])
    .unwrap();
    assert_eq!(d.report_title(), Ok(String::from("2024-01-01 - 2024-01-07")));
    let rows = d.grouped_report_rows();
    let shown = display_rows(&rows);
    assert_eq!(titles(&shown), vec!["work", "break"]);
    assert_eq!(shown[0].duration.num_minutes(), 120);
    assert_eq!(shown[1].duration.num_minutes(), 20);
    assert_eq!(d.total_duration().num_minutes(), 140);
    assert_eq!(title_width(&rows), 12);
    let noted = d.annotated_intervals();
    assert_eq!(noted.len(), 1);
    assert_eq!(noted[0].title(), "break");
    assert_eq!(noted[0].annotation, Some(String::from("tea")));
}

#[test]
fn report_of_work_and_break() {
    let d = data(
        vec![
            setting("temp.report.start", "20240101T000000Z"),
            setting("temp.report.end", "20240201T000000Z"),
        ],
        vec![
            interval(0, 20, &["break"], None),
            interval(10_000, 30, &["work"], Some("standup")),
            interval(20_000, 90, &["work"], None),
        ],
    );
    let lines = d.report().unwrap();
    assert_eq!(lines.len(), 9);
    assert!(matches!(&lines[0], ReportLine::Title { text } if text == "2024-01-01 - 2024-01-31"));
    assert!(matches!(lines[1], ReportLine::Blank));
    assert!(matches!(&lines[2], ReportLine::Header { tags } if tags == "        TAGS"));
    assert!(matches!(
        &lines[3],
        ReportLine::Group { title, duration, total, last: false }
            if title == "        work" && duration.num_minutes() == 120 && total.num_minutes() == 140
    ));
    assert!(matches!(
        &lines[4],
        ReportLine::Group { title, duration, total, last: true }
            if title == "       break" && duration.num_minutes() == 20 && total.num_minutes() == 140
    ));
    assert!(matches!(
        &lines[5],
        ReportLine::Total { label, duration }
            if label == "       TOTAL" && duration.num_minutes() == 140
    ));
    assert!(matches!(lines[6], ReportLine::Blank));
    assert!(matches!(lines[7], ReportLine::AnnotationsLabel));
    assert!(matches!(
        &lines[8],
        ReportLine::Annotation { title, duration, total, note }
            if title == "        work" && duration.num_minutes() == 30
                && total.num_minutes() == 140 && note == "standup"
    ));
}

#[test]
fn report_without_intervals() {
    let lines = data(Vec::new(), Vec::new()).report().unwrap();
    assert_eq!(lines.len(), 4);
    assert!(matches!(&lines[0], ReportLine::Title { text } if text.is_empty()));
    assert!(matches!(lines[1], ReportLine::Blank));
    assert!(matches!(&lines[2], ReportLine::Header { tags } if tags == "        TAGS"));
    assert!(matches!(
        &lines[3],
        ReportLine::Total { label, duration }
            if label == "       TOTAL" && duration.num_minutes() == 0 && duration.num_seconds() == 0
    ));
}

#[test]
fn report_without_notes_has_no_section_for_them() {
    let d = data(Vec::new(), vec![interval(0, 5, &["a"], None), interval(900, 5, &["b"], None)]);
    let lines = d.report().unwrap();
    assert_eq!(lines.len(), 6);
    assert!(matches!(&lines[3], ReportLine::Group { title, last: false, .. } if title == "           b"));
    assert!(matches!(&lines[4], ReportLine::Group { title, last: true, .. } if title == "           a"));
    assert!(matches!(lines[5], ReportLine::Total { .. }));
}

#[test]
fn report_has_one_line_for_each_note() {
    let d = data(
        Vec::new(),
        vec![
            interval(0, 5, &["a"], Some("one")),
            interval(900, 5, &["a"], None),
            interval(1800, 5, &["a"], Some("two")),
        ],
    );
    let lines = d.report().unwrap();
    let notes: Vec<&str> = lines
        .iter()
        .filter_map(|l| match l {
            ReportLine::Annotation { note, .. } => Some(note.as_str()),
            _ => None,
        })
        .collect();
    assert_eq!(notes, vec!["one", "two"]);
    let groups = lines.iter().filter(|l| matches!(l, ReportLine::Group { .. })).count();
    assert_eq!(groups, 1);
    assert_eq!(lines.len(), 3 + 1 + 1 + 2 + 2);
}

#[test]
fn report_widens_the_title_column() {
    let d = data(
        Vec::new(),
        vec![interval(0, 5, &["a"], None), interval(900, 7, &["a rather long tag"], None)],
    );
    let lines = d.report().unwrap();
    assert!(matches!(&lines[2], ReportLine::Header { tags } if tags == "             TAGS"));
    assert!(matches!(&lines[3], ReportLine::Group { title, .. } if title == "a rather long tag"));
    assert!(matches!(&lines[4], ReportLine::Group { title, .. } if title == "                a"));
    assert!(matches!(&lines[5], ReportLine::Total { label, .. } if label == "            TOTAL"));
}

#[test]
fn report_fails_with_its_title() {
    let d = data(
        vec![setting("temp.report.start", "soon"), setting("temp.report.end", "later")],
        vec![interval(0, 5, &["a"], None)],
    );
    assert_eq!(d.report().err(), Some(DataError::InvalidTimestamp));
}

#[test]
fn lay_out_takes_the_parts_as_they_come() {
    let rows = vec![row("b", 60), row("a", 120)];
    let noted = interval(0, 1, &["n"], Some("note"));
    let lines = lay_out(String::from("title"), &rows, 3, Duration::seconds(999), &vec![&noted]);
    assert_eq!(lines.len(), 9);
    assert!(matches!(&lines[0], ReportLine::Title { text } if text == "title"));
    assert!(matches!(&lines[2], ReportLine::Header { tags } if tags == "TAGS"));
    assert!(matches!(
        &lines[3],
        ReportLine::Group { title, duration, total, last: false }
            if title == "  b" && duration.num_seconds() == 60 && total.num_seconds() == 999
    ));
    assert!(matches!(&lines[4], ReportLine::Group { title, last: true, .. } if title == "  a"));
    assert!(matches!(
        &lines[5],
        ReportLine::Total { label, duration } if label == "TOTAL" && duration.num_seconds() == 999
    ));
    assert!(matches!(
        &lines[8],
        ReportLine::Annotation { title, note, .. } if title == "  n" && note == "note"
    ));
}

#[test]
fn shares_add_up_to_a_hundred() {
    let d = data(
        Vec::new(),
        vec![
            interval(0, 30, &["work"], None),
            interval(10_000, 90, &["work"], None),
            interval(20_000, 20, &["break"], None),
            interval(30_000, 7, &["mail"], None),
        ],
    );
    let total = d.total_duration().num_minutes() as f64;
    let shares: Vec<f64> = display_rows(&d.grouped_report_rows())
        .iter()
        .map(|r| r.duration.num_minutes() as f64 / total * 100.0)
        .collect();
    let sum: f64 = shares.iter().sum();
    assert!((sum - 100.0).abs() < 1e-9);
}

#[test]
fn minutes_of_rows_fall_short_by_less_than_one_each() {
    let rows = vec![row("a", 59), row("b", 59), row("c", 61), row("d", 1)];
    let of_rows: i128 = rows.iter().map(|r| r.duration.num_minutes()).sum();
    let total: i128 = rows.iter().map(|r| r.duration.num_seconds()).sum();
    assert_eq!(of_rows, 1);
    assert_eq!(Duration::seconds(total).num_minutes(), 3);
    assert!(of_rows <= 3 && 3 < of_rows + 4);
}

#[test]
fn report_with_rows_and_a_total_of_nothing() {
    let d = data(
        Vec::new(),
        vec![interval(0, 0, &["idle"], None), interval(50, 10, &["a"], None), interval(50, -10, &["b"], None)],
    );
    let rows = d.grouped_report_rows();
    assert_eq!(titles(&rows), vec!["idle", "a", "b"]);
    assert_eq!(d.total_duration().num_seconds(), 0);
    let lines = d.report().unwrap();
    assert_eq!(lines.len(), 7);
    assert!(matches!(
        &lines[3],
        ReportLine::Group { title, duration, total, last: false }
            if title == "           a" && duration.num_minutes() == 10 && total.num_minutes() == 0
    ));
    assert!(matches!(
        &lines[4],
        ReportLine::Group { title, duration, last: false, .. }
            if title == "        idle" && duration.num_minutes() == 0
    ));
    assert!(matches!(
        &lines[5],
        ReportLine::Group { title, duration, last: true, .. }
            if title == "           b" && duration.num_minutes() == -10
    ));
    assert!(matches!(&lines[6], ReportLine::Total { duration, .. } if duration.num_seconds() == 0));
}
