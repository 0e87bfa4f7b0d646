//! The input of one report run: settings and tracked intervals, and how
//! they are read from the lines that the tracker hands over.

use crate::json::{
    find_member, json_views, lemma_json_view, member_value, member_views, parse_json, parsed_json,
    Json, JsonView, MalformedJson, Member, MemberView,
};
use crate::text::{
    concatenated, first_separator, has_separator, join, joined, split_at_separator, texts,
};
use crate::timewarrior_datetime::{
    parse, stated_seconds, valid_span, Duration, InvalidTimestamp, Timestamp,
};
use vstd::prelude::*;

verus! {

/// Why the input gives no data. Each of these ends the run: there is no
/// partial result.
#[derive(Debug, Clone, Copy, PartialEq, Eq, Structural)]
pub enum DataError {
    /// The lines that are no settings do not join to a JSON text.
    MalformedJson,
    /// The JSON text is not an array of objects that each hold `start` and
    /// `end` as texts, `tags` as an array of texts and, if at all, `id` as an
    /// integer and `annotation` as a text or `null`.
    SchemaMismatch,
    /// A `start` or an `end` is not a timestamp.
    InvalidTimestamp,
}

/// A named value that came with the intervals, such as a bound of the
/// report's range.
#[derive(Debug)]
pub struct Setting {
    pub name: String,
    pub value: String,
}

/// What a [`Setting`] holds.
pub struct SettingView {
    pub name: Seq<char>,
    pub value: Seq<char>,
}

impl View for Setting {
    type V = SettingView;

    open spec fn view(&self) -> SettingView {
        SettingView { name: self.name@, value: self.value@ }
    }
}

/// One tracked span of time.
#[derive(Debug)]
pub struct Interval {
    /// The tracker's number for the interval, where it sent one.
    pub id: Option<i64>,
    pub start: Timestamp,
    pub end: Timestamp,
    /// The tags, in the order in which they are shown.
    pub tags: Vec<String>,
    pub annotation: Option<String>,
}

/// What an [`Interval`] holds: `start` and `end` in seconds from the epoch.
pub struct IntervalView {
    pub id: Option<int>,
    pub start: int,
    pub end: int,
    pub tags: Seq<Seq<char>>,
    pub annotation: Option<Seq<char>>,
}

/// What stands between two tags in a title.
pub open spec fn tag_separator() -> Seq<char> {
    seq![',', ' ']
}

impl IntervalView {
    /// The seconds from `start` to `end`; negative where `end` comes first.
    pub open spec fn duration(self) -> int {
        self.end - self.start
    }

    /// The tags joined with `", "`.
    pub open spec fn title(self) -> Seq<char> {
        joined(self.tags, tag_separator())
    }
}

impl View for Interval {
    type V = IntervalView;

    open spec fn view(&self) -> IntervalView {
        IntervalView {
            id: match self.id {
                Some(id) => Some(id as int),
                None => None,
            },
            start: self.start@,
            end: self.end@,
            tags: texts(self.tags@),
            annotation: match self.annotation {
                Some(note) => Some(note@),
                None => None,
            },
        }
    }
}

/// The settings and the intervals of one report run.
#[derive(Debug)]
pub struct Data {
    pub settings: Vec<Setting>,
    pub intervals: Vec<Interval>,
}

/// What a [`Data`] holds.
pub struct DataView {
    pub settings: Seq<SettingView>,
    pub intervals: Seq<IntervalView>,
}

/// What a sequence of settings holds.
pub open spec fn setting_views(settings: Seq<Setting>) -> Seq<SettingView> {
    settings.map_values(|s: Setting| s@)
}

/// What a sequence of intervals holds.
pub open spec fn interval_views(intervals: Seq<Interval>) -> Seq<IntervalView> {
    intervals.map_values(|i: Interval| i@)
}

impl View for Data {
    type V = DataView;

    open spec fn view(&self) -> DataView {
        DataView {
            settings: setting_views(self.settings@),
            intervals: interval_views(self.intervals@),
        }
    }
}

impl Setting {
    /// Reads the value as a timestamp.
    pub fn value_to_date_time(&self) -> (r: Result<Timestamp, InvalidTimestamp>)
        ensures
            match r {
                Ok(t) => stated_seconds(self.value@) == Some(t@),
                Err(_) => stated_seconds(self.value@) is None,
            },
    {
        parse(self.value.as_str())
    }
}

impl Interval {
    /// The span from `start` to `end`; negative where `end` comes first.
    pub fn duration(&self) -> (d: Duration)
        ensures
            d@ == self@.duration(),
            valid_span(d@),
    {
        self.end.signed_duration_since(&self.start)
    }

    /// The tags joined with `", "`.
    pub fn title(&self) -> (r: String)
        ensures
            r@ == self@.title(),
    {
        proof {
            reveal_strlit(", ");
            assert(", "@ == tag_separator());
        }
        join(&self.tags, ", ")
    }
}

/// The setting that `line` states: what stands before its first `": "` is
/// the name, what stands after it the value.
pub open spec fn setting_of(line: Seq<char>) -> SettingView
    recommends
        has_separator(line),
{
    let at = choose|i: int| first_separator(line, i);
    SettingView { name: line.subrange(0, at), value: line.subrange(at + 2, line.len() as int) }
}

/// The lines that state a setting: those that hold `": "`.
pub open spec fn is_setting_line() -> spec_fn(Seq<char>) -> bool {
    |line: Seq<char>| has_separator(line)
}

/// The lines that belong to the JSON text: those that state no setting and
/// are neither empty nor a lone line feed.
pub open spec fn is_payload_line() -> spec_fn(Seq<char>) -> bool {
    |line: Seq<char>| !has_separator(line) && line.len() != 0 && line != seq!['\n']
}

/// The settings that `lines` state, in their order.
pub open spec fn settings_of(lines: Seq<Seq<char>>) -> Seq<SettingView> {
    lines.filter(is_setting_line()).map_values(|line: Seq<char>| setting_of(line))
}

/// The JSON text in `lines`: its lines one after the other with nothing
/// between them.
pub open spec fn payload_of(lines: Seq<Seq<char>>) -> Seq<char> {
    concatenated(lines.filter(is_payload_line()))
}

/// The timestamp, in seconds, that the member `name` of an object states.
pub open spec fn decoded_seconds(members: Seq<MemberView>, name: Seq<char>) -> Result<
    int,
    DataError,
> {
    match member_value(members, name) {
        Some(JsonView::Text(text)) => match stated_seconds(text) {
            Some(secs) => Ok(secs),
            None => Err(DataError::InvalidTimestamp),
        },
        _ => Err(DataError::SchemaMismatch),
    }
}

/// The texts that `items` hold, where every one of them is a text.
pub open spec fn all_texts(items: Seq<JsonView>) -> Option<Seq<Seq<char>>>
    decreases items.len(),
{
    if items.len() == 0 {
        Some(Seq::empty())
    } else {
        match (all_texts(items.drop_last()), items.last()) {
            (Some(before), JsonView::Text(text)) => Some(before.push(text)),
            _ => None,
        }
    }
}

/// The tags that the member `tags` of an object states.
pub open spec fn decoded_tags(members: Seq<MemberView>) -> Result<Seq<Seq<char>>, DataError> {
    match member_value(members, "tags"@) {
        Some(JsonView::Array(items)) => match all_texts(items) {
            Some(tags) => Ok(tags),
            None => Err(DataError::SchemaMismatch),
        },
        _ => Err(DataError::SchemaMismatch),
    }
}

/// The note that the member `annotation` of an object states; a missing
/// member and `null` both state none.
pub open spec fn decoded_annotation(members: Seq<MemberView>) -> Result<
    Option<Seq<char>>,
    DataError,
> {
    match member_value(members, "annotation"@) {
        None => Ok(None),
        Some(JsonView::Null) => Ok(None),
        Some(JsonView::Text(note)) => Ok(Some(note)),
        _ => Err(DataError::SchemaMismatch),
    }
}

/// The number that the member `id` of an object states; a missing member
/// states none.
pub open spec fn decoded_id(members: Seq<MemberView>) -> Result<Option<int>, DataError> {
    match member_value(members, "id"@) {
        None => Ok(None),
        Some(JsonView::Number(Some(id))) => Ok(Some(id)),
        _ => Err(DataError::SchemaMismatch),
    }
}

/// The interval that a JSON value states. The members are looked at in the
/// order `id`, `start`, `end`, `tags`, `annotation`, and the first that is
/// wrong decides the error.
pub open spec fn decoded_interval(json: JsonView) -> Result<IntervalView, DataError> {
    match json {
        JsonView::Object(members) => match decoded_id(members) {
            Err(e) => Err(e),
            Ok(id) => match decoded_seconds(members, "start"@) {
                Err(e) => Err(e),
                Ok(start) => match decoded_seconds(members, "end"@) {
                    Err(e) => Err(e),
                    Ok(end) => match decoded_tags(members) {
                        Err(e) => Err(e),
                        Ok(tags) => match decoded_annotation(members) {
                            Err(e) => Err(e),
                            Ok(annotation) => Ok(
                                IntervalView { id, start, end, tags, annotation },
                            ),
                        },
                    },
                },
            },
        },
        _ => Err(DataError::SchemaMismatch),
    }
}

/// The intervals that `items` state, where every one of them states one;
/// else the error of the first that does not.
pub open spec fn decoded_all(items: Seq<JsonView>) -> Result<Seq<IntervalView>, DataError>
    decreases items.len(),
{
    if items.len() == 0 {
        Ok(Seq::empty())
    } else {
        match decoded_all(items.drop_last()) {
            Err(e) => Err(e),
            Ok(before) => match decoded_interval(items.last()) {
                Err(e) => Err(e),
                Ok(interval) => Ok(before.push(interval)),
            },
        }
    }
}

/// The intervals that a JSON value states: it has to be an array, and each
/// of its items an interval.
pub open spec fn decoded_intervals(json: JsonView) -> Result<Seq<IntervalView>, DataError> {
    match json {
        JsonView::Array(items) => decoded_all(items),
        _ => Err(DataError::SchemaMismatch),
    }
}

/// The intervals that the JSON text of the input gives, `parsed` being what
/// was read from that text.
pub open spec fn intervals_of(parsed: Option<JsonView>) -> Result<Seq<IntervalView>, DataError> {
    match parsed {
        Some(json) => decoded_intervals(json),
        None => Err(DataError::MalformedJson),
    }
}

/// The data that `lines` give.
pub open spec fn data_of(lines: Seq<Seq<char>>) -> Result<DataView, DataError> {
    match intervals_of(parsed_json(payload_of(lines))) {
        Ok(intervals) => Ok(DataView { settings: settings_of(lines), intervals }),
        Err(e) => Err(e),
    }
}

proof fn lemma_filter_push<A>(s: Seq<A>, x: A, pred: spec_fn(A) -> bool)
    ensures
        s.push(x).filter(pred) == if pred(x) {
            s.filter(pred).push(x)
        } else {
            s.filter(pred)
        },
{
    reveal_with_fuel(Seq::filter, 2);
    assert(s.push(x).drop_last() == s);
}

/// Reads the timestamp that the member `name` of an object states.
fn decode_timestamp(members: &Vec<Member>, name: &str) -> (r: Result<Timestamp, DataError>)
    ensures
        match r {
            Ok(t) => decoded_seconds(member_views(members@), name@) == Ok::<int, DataError>(t@),
            Err(e) => decoded_seconds(member_views(members@), name@) == Err::<int, DataError>(e),
        },
{
    match find_member(members, name) {
        Some(Json::Text(text)) => match parse(text.as_str()) {
            Ok(t) => Ok(t),
            Err(_) => Err(DataError::InvalidTimestamp),
        },
        _ => Err(DataError::SchemaMismatch),
    }
}

/// Reads the tags that the member `tags` of an object states.
fn decode_tags(members: &Vec<Member>) -> (r: Result<Vec<String>, DataError>)
    ensures
        match r {
            Ok(tags) => decoded_tags(member_views(members@)) == Ok::<Seq<Seq<char>>, DataError>(
                texts(tags@),
            ),
            Err(e) => decoded_tags(member_views(members@)) == Err::<Seq<Seq<char>>, DataError>(e),
        },
{
    match find_member(members, "tags") {
        Some(Json::Array(items)) => {
            let ghost held = json_views(items@);
            proof {
                lemma_json_view(Json::Array(*items));
            }
            let mut tags: Vec<String> = Vec::new();
            let mut i: usize = 0;
            while i < items.len()
                invariant
                    i <= items.len(),
                    held == json_views(items@),
                    member_value(member_views(members@), "tags"@) == Some(JsonView::Array(held)),
                    all_texts(held.take(i as int)) == Some(texts(tags@)),
                decreases items.len() - i,
            {
                proof {
                    assert(held.take(i + 1).drop_last() == held.take(i as int));
                    assert(held.take(i + 1).last() == items@[i as int]@);
                }
                match &items[i] {
                    Json::Text(text) => {
                        proof {
                            assert(texts(tags@.push(*text)) == texts(tags@).push(text@));
                        }
                        tags.push(text.clone());
                    },
                    _ => {
                        proof {
                            lemma_all_texts_fails(held, i as int);
                        }
                        return Err(DataError::SchemaMismatch);
                    },
                }
                i = i + 1;
            }
            proof {
                assert(held.take(items.len() as int) == held);
            }
            Ok(tags)
        },
        _ => Err(DataError::SchemaMismatch),
    }
}

/// An item that is no text keeps every longer run of items from being all
/// texts.
proof fn lemma_all_texts_fails(items: Seq<JsonView>, i: int)
    requires
        0 <= i < items.len(),
        !(items[i] is Text),
    ensures
        all_texts(items) is None,
    decreases items.len(),
{
    if i < items.len() - 1 {
        lemma_all_texts_fails(items.drop_last(), i);
    }
}

/// Reads the note that the member `annotation` of an object states.
fn decode_annotation(members: &Vec<Member>) -> (r: Result<Option<String>, DataError>)
    ensures
        match r {
            Ok(Some(note)) => decoded_annotation(member_views(members@)) == Ok::<
                Option<Seq<char>>,
                DataError,
            >(Some(note@)),
            Ok(None) => decoded_annotation(member_views(members@)) == Ok::<
                Option<Seq<char>>,
                DataError,
            >(None),
            Err(e) => decoded_annotation(member_views(members@)) == Err::<
                Option<Seq<char>>,
                DataError,
            >(e),
        },
{
    match find_member(members, "annotation") {
        None => Ok(None),
        Some(Json::Null) => Ok(None),
        Some(Json::Text(note)) => Ok(Some(note.clone())),
        _ => Err(DataError::SchemaMismatch),
    }
}

/// Reads the number that the member `id` of an object states.
fn decode_id(members: &Vec<Member>) -> (r: Result<Option<i64>, DataError>)
    ensures
        match r {
            Ok(Some(id)) => decoded_id(member_views(members@)) == Ok::<Option<int>, DataError>(
                Some(id as int),
            ),
            Ok(None) => decoded_id(member_views(members@)) == Ok::<Option<int>, DataError>(None),
            Err(e) => decoded_id(member_views(members@)) == Err::<Option<int>, DataError>(e),
        },
{
    match find_member(members, "id") {
        None => Ok(None),
        Some(Json::Number(Some(id))) => Ok(Some(*id)),
        _ => Err(DataError::SchemaMismatch),
    }
}

/// Reads one interval from a JSON value.
pub fn decode_interval(json: &Json) -> (r: Result<Interval, DataError>)
    ensures
        match r {
            Ok(interval) => decoded_interval(json@) == Ok::<IntervalView, DataError>(interval@),
            Err(e) => decoded_interval(json@) == Err::<IntervalView, DataError>(e),
        },
{
    proof {
        lemma_json_view(*json);
    }
    match json {
        Json::Object(members) => {
            let id = match decode_id(members) {
                Ok(id) => id,
                Err(e) => {
                    return Err(e);
                },
            };
            let start = match decode_timestamp(members, "start") {
                Ok(t) => t,
                Err(e) => {
                    return Err(e);
                },
            };
            let end = match decode_timestamp(members, "end") {
                Ok(t) => t,
                Err(e) => {
                    return Err(e);
                },
            };
            let tags = match decode_tags(members) {
                Ok(tags) => tags,
                Err(e) => {
                    return Err(e);
                },
            };
            let annotation = match decode_annotation(members) {
                Ok(note) => note,
                Err(e) => {
                    return Err(e);
                },
            };
            Ok(Interval { id, start, end, tags, annotation })
        },
        _ => Err(DataError::SchemaMismatch),
    }
}

/// An item that states no interval decides the error of every run of items
/// in which it is the first such.
proof fn lemma_decoded_all_fails(items: Seq<JsonView>, i: int)
    requires
        0 <= i < items.len(),
        decoded_all(items.take(i)) is Ok,
        decoded_interval(items[i]) is Err,
    ensures
        decoded_all(items) == Err::<Seq<IntervalView>, DataError>(
            decoded_interval(items[i])->Err_0,
        ),
    decreases items.len(),
{
    if i < items.len() - 1 {
        assert(items.drop_last().take(i) == items.take(i));
        lemma_decoded_all_fails(items.drop_last(), i);
    } else {
    }
}

/// Reads the intervals from a JSON value, which has to be an array of them.
pub fn decode_intervals(json: &Json) -> (r: Result<Vec<Interval>, DataError>)
    ensures
        match r {
            Ok(intervals) => decoded_intervals(json@) == Ok::<Seq<IntervalView>, DataError>(
                interval_views(intervals@),
            ),
            Err(e) => decoded_intervals(json@) == Err::<Seq<IntervalView>, DataError>(e),
        },
{
    proof {
        lemma_json_view(*json);
    }
    match json {
        Json::Array(items) => {
            let ghost held = json_views(items@);
            let mut intervals: Vec<Interval> = Vec::new();
            let mut i: usize = 0;
            proof {
                assert(interval_views(intervals@) == Seq::<IntervalView>::empty());
            }
            while i < items.len()
                invariant
                    i <= items.len(),
                    held == json_views(items@),
                    json@ == JsonView::Array(held),
                    decoded_all(held.take(i as int)) == Ok::<Seq<IntervalView>, DataError>(
                        interval_views(intervals@),
                    ),
                decreases items.len() - i,
            {
                proof {
                    assert(held.take(i + 1).drop_last() == held.take(i as int));
                    assert(held.take(i + 1).last() == items@[i as int]@);
                }
                match decode_interval(&items[i]) {
                    Ok(interval) => {
                        proof {
                            assert(interval_views(intervals@.push(interval)) == interval_views(
                                intervals@,
                            ).push(interval@));
                        }
                        intervals.push(interval);
                    },
                    Err(e) => {
                        proof {
                            lemma_decoded_all_fails(held, i as int);
                        }
                        return Err(e);
                    },
                }
                i = i + 1;
            }
            proof {
                assert(held.take(items.len() as int) == held);
            }
            Ok(intervals)
        },
        _ => Err(DataError::SchemaMismatch),
    }
}

/// Sorts `lines` into the settings they state and the JSON text that the
/// other lines make up.
pub fn split_lines(lines: &Vec<String>) -> (r: (Vec<Setting>, String))
    ensures
        setting_views(r.0@) == settings_of(texts(lines@)),
        r.1@ == payload_of(texts(lines@)),
{
    let mut settings: Vec<Setting> = Vec::new();
    let mut payload = String::new();
    let mut i: usize = 0;
    proof {
        reveal_with_fuel(Seq::filter, 1);
    }
    while i < lines.len()
        invariant
            i <= lines.len(),
            setting_views(settings@) == settings_of(texts(lines@).take(i as int)),
            payload@ == payload_of(texts(lines@).take(i as int)),
        decreases lines.len() - i,
    {
        let line: &str = lines[i].as_str();
        proof {
            let before = texts(lines@).take(i as int);
            assert(texts(lines@).take(i + 1) == before.push(line@));
            lemma_filter_push(before, line@, is_setting_line());
            lemma_filter_push(before, line@, is_payload_line());
        }
        match split_at_separator(line) {
            Some((name, value)) => {
                let setting = Setting { name, value };
                proof {
                    assert(setting@ == setting_of(line@));
                    assert(setting_views(settings@.push(setting)) == setting_views(settings@).push(
                        setting@,
                    ));
                }
                settings.push(setting);
            },
            None => {
                if !is_sentinel(line) {
                    proof {
                        let kept = texts(lines@).take(i as int).filter(is_payload_line());
                        assert(kept.push(line@).drop_last() == kept);
                    }
                    payload.append(line);
                }
            },
        }
        i = i + 1;
    }
    proof {
        assert(texts(lines@).take(lines.len() as int) == texts(lines@));
    }
    (settings, payload)
}

/// Whether a line is one that belongs to nothing: an empty one, or a lone
/// line feed.
fn is_sentinel(line: &str) -> (r: bool)
    ensures
        r == (line@.len() == 0 || line@ == seq!['\n']),
{
    let n: usize = line.unicode_len();
    if n == 0 {
        true
    } else if n == 1 {
        let only: char = line.get_char(0);
        proof {
            if only == '\n' {
                assert(line@ == seq!['\n']);
            }
        }
        only == '\n'
    } else {
        false
    }
}

/// The intervals that the JSON text of the input gives, `parsed` being the
/// outcome of reading that text.
pub fn intervals_from(parsed: Result<Json, MalformedJson>) -> (r: Result<Vec<Interval>, DataError>)
    ensures
        match r {
            Ok(intervals) => intervals_of(
                match parsed {
                    Ok(json) => Some(json@),
                    Err(_) => None,
                },
            ) == Ok::<Seq<IntervalView>, DataError>(interval_views(intervals@)),
            Err(e) => intervals_of(
                match parsed {
                    Ok(json) => Some(json@),
                    Err(_) => None,
                },
            ) == Err::<Seq<IntervalView>, DataError>(e),
        },
{
    match parsed {
        Ok(json) => decode_intervals(&json),
        Err(_) => Err(DataError::MalformedJson),
    }
}

/// Reads the input of a report run from its lines, each without its line
/// end.
///
/// A line that holds `": "` states a setting. The other lines, but for empty
/// ones, are joined with nothing between them and read as one JSON array of
/// intervals. Any fault in that text fails the whole reading.
pub fn get_data(lines: &Vec<String>) -> (r: Result<Data, DataError>)
    ensures
        match r {
            Ok(data) => data_of(texts(lines@)) == Ok::<DataView, DataError>(data@),
            Err(e) => data_of(texts(lines@)) == Err::<DataView, DataError>(e),
        },
{
    let (settings, payload) = split_lines(lines);
    match intervals_from(parse_json(payload.as_str())) {
        Ok(intervals) => Ok(Data { settings, intervals }),
        Err(e) => Err(e),
    }
}

} // verus!
