//! The value model of a decoded document: typed configuration entries,
//! timestamped log records, the recursive section shape, and the error
//! taxonomy of the grammar. Each executable type has a ghost mirror over
//! `Seq<char>` that the contracts speak about.
use crate::ios::{LogEntryMetadata, SLogEntryMetadata};
use crate::text::{chars_to_string, dec_pad, render_padded};
use vstd::prelude::*;

verus! {

broadcast use vstd::std_specs::vec::group_vec_axioms;

/// Why a grammar rule did not produce a value.
///
/// `Mismatch` is the recoverable kind: the rule did not recognize the input,
/// and an enclosing alternative may try another rule. The remaining kinds are
/// fatal to the enclosing record: a value conversion failed after the shape
/// had already been recognized.
#[derive(Clone, Copy, PartialEq, Eq, Structural, Debug)]
pub enum ParseError {
    /// The rule did not match at this position.
    Mismatch,
    /// A key had neither an enabled marker nor a value.
    MissingValue,
    /// A digit run does not fit the target integer type.
    NumberTooLarge,
    /// A numeric field lies outside the calendar or clock range.
    InvalidDate,
    /// A severity marker run is not one of the recognized glyphs.
    UnknownLevel,
}

/// Severity of a log record, least to most severe.
#[derive(Clone, Copy, PartialEq, Eq, Structural, Debug, Hash)]
pub enum LogLevel {
    Verbose,
    Debug,
    Info,
    Warn,
    Error,
}

/// One entry of a per-region counter list: a country code and a numeric
/// value, both kept as the matched text.
#[derive(Debug, Clone, PartialEq, Eq)]
pub struct Bucket {
    pub country_code: String,
    pub value: String,
}

#[verifier::ext_equal]
pub struct SBucket {
    pub country_code: Seq<char>,
    pub value: Seq<char>,
}

impl View for Bucket {
    type V = SBucket;

    open spec fn view(&self) -> SBucket {
        SBucket { country_code: self.country_code@, value: self.value@ }
    }
}

/// A decoded configuration value: free text, or a bucketed per-region list.
#[derive(Debug, Clone, PartialEq, Eq)]
pub enum Value {
    Generic(String),
    BucketedFlag(Vec<Bucket>),
}

#[verifier::ext_equal]
pub enum SValue {
    Generic(Seq<char>),
    BucketedFlag(Seq<SBucket>),
}

impl View for Value {
    type V = SValue;

    open spec fn view(&self) -> SValue {
        match self {
            Value::Generic(s) => SValue::Generic(s@),
            Value::BucketedFlag(bs) => SValue::BucketedFlag(bs@.map_values(|b: Bucket| b@)),
        }
    }
}

/// One decoded configuration line. A `KeyValue` always carries a value; a
/// `KeyEnabledValue` carries the enabled flag and may carry a value.
#[derive(Debug, Clone, PartialEq, Eq)]
pub enum InfoEntry {
    KeyValue(String, Value),
    KeyEnabledValue(String, bool, Option<Value>),
}

#[verifier::ext_equal]
pub enum SInfoEntry {
    KeyValue(Seq<char>, SValue),
    KeyEnabledValue(Seq<char>, bool, Option<SValue>),
}

impl View for InfoEntry {
    type V = SInfoEntry;

    open spec fn view(&self) -> SInfoEntry {
        match self {
            InfoEntry::KeyValue(k, v) => SInfoEntry::KeyValue(k@, v@),
            InfoEntry::KeyEnabledValue(k, e, v) => SInfoEntry::KeyEnabledValue(
                k@,
                *e,
                match v {
                    Some(v) => Some(v@),
                    None => None,
                },
            ),
        }
    }
}

/// A calendar timestamp as plain fields; the millisecond field is present
/// only when the grammar was asked to read one.
#[derive(Debug, Clone, Copy, PartialEq, Eq)]
pub struct Timestamp {
    pub year: u32,
    pub month: u32,
    pub day: u32,
    pub hour: u32,
    pub minute: u32,
    pub second: u32,
    pub millisecond: Option<u32>,
}

/// Whether a year has 366 days.
pub open spec fn is_leap_year(y: int) -> bool {
    y % 4 == 0 && (y % 100 != 0 || y % 400 == 0)
}

/// Days in a month of a year (meaningful for `1 <= m <= 12`).
pub open spec fn days_in_month(y: int, m: int) -> int {
    if m == 2 {
        if is_leap_year(y) {
            29
        } else {
            28
        }
    } else if m == 4 || m == 6 || m == 9 || m == 11 {
        30
    } else {
        31
    }
}

/// A timestamp whose fields form a real calendar date and clock time.
pub open spec fn timestamp_valid(t: Timestamp) -> bool {
    &&& 1 <= t.month <= 12
    &&& 1 <= t.day <= days_in_month(t.year as int, t.month as int)
    &&& t.hour < 24
    &&& t.minute < 60
    &&& t.second < 60
    &&& match t.millisecond {
        Some(ms) => ms <= 999,
        None => true,
    }
}

/// The rendered form of a timestamp: `YYYY-MM-DD HH:MM:SS UTC`, with a
/// three-digit fraction after the seconds when a non-zero millisecond field
/// is present.
pub open spec fn timestamp_text(t: Timestamp) -> Seq<char> {
    dec_pad(t.year as int, 4) + seq!['-'] + dec_pad(t.month as int, 2) + seq!['-'] + dec_pad(
        t.day as int,
        2,
    ) + seq![' '] + dec_pad(t.hour as int, 2) + seq![':'] + dec_pad(t.minute as int, 2) + seq![':']
        + dec_pad(t.second as int, 2) + (match t.millisecond {
        Some(ms) => if ms > 0 {
            seq!['.'] + dec_pad(ms as int, 3)
        } else {
            Seq::<char>::empty()
        },
        None => Seq::<char>::empty(),
    }) + seq![' ', 'U', 'T', 'C']
}

/// Render a timestamp as text.
#[verifier::rlimit(50)]
pub fn render_timestamp(t: &Timestamp) -> (s: String)
    ensures
        s@ == timestamp_text(*t),
{
    let mut v: Vec<char> = Vec::new();
    let mut piece = render_padded(t.year, 4);
    v.append(&mut piece);
    v.push('-');
    let mut piece = render_padded(t.month, 2);
    v.append(&mut piece);
    v.push('-');
    let mut piece = render_padded(t.day, 2);
    v.append(&mut piece);
    v.push(' ');
    let mut piece = render_padded(t.hour, 2);
    v.append(&mut piece);
    v.push(':');
    let mut piece = render_padded(t.minute, 2);
    v.append(&mut piece);
    v.push(':');
    let mut piece = render_padded(t.second, 2);
    v.append(&mut piece);
    match t.millisecond {
        Some(ms) => {
            if ms > 0 {
                v.push('.');
                let mut piece = render_padded(ms, 3);
                v.append(&mut piece);
            }
        },
        None => {},
    }
    v.push(' ');
    v.push('U');
    v.push('T');
    v.push('C');
    proof {
        assert(v@ =~= timestamp_text(*t));
    }
    chars_to_string(&v)
}

/// Per-platform structured source-location tag of a log record, or nothing
/// for a record that carries no tag.
#[derive(Debug, Clone, PartialEq, Eq)]
pub enum PlatformMetadata {
    Ios(Option<LogEntryMetadata>),
}

#[verifier::ext_equal]
pub enum SPlatformMetadata {
    Ios(Option<SLogEntryMetadata>),
}

impl View for PlatformMetadata {
    type V = SPlatformMetadata;

    open spec fn view(&self) -> SPlatformMetadata {
        match self {
            PlatformMetadata::Ios(m) => SPlatformMetadata::Ios(
                match m {
                    Some(m) => Some(m@),
                    None => None,
                },
            ),
        }
    }
}

/// One decoded log record. The message may hold embedded newlines but never
/// the newline that terminated its capture.
#[derive(Debug, Clone, PartialEq, Eq)]
pub struct LogEntry {
    pub timestamp: String,
    pub level: Option<LogLevel>,
    pub meta: PlatformMetadata,
    pub message: String,
}

#[verifier::ext_equal]
pub struct SLogEntry {
    pub timestamp: Seq<char>,
    pub level: Option<LogLevel>,
    pub meta: SPlatformMetadata,
    pub message: Seq<char>,
}

impl View for LogEntry {
    type V = SLogEntry;

    open spec fn view(&self) -> SLogEntry {
        SLogEntry { timestamp: self.timestamp@, level: self.level, meta: self.meta@, message: self.message@ }
    }
}

/// A named grouping of decoded records with nested subsections, in document
/// order.
#[derive(Debug, PartialEq, Eq)]
pub struct Section<T> {
    pub name: String,
    pub content: Vec<T>,
    pub subsections: Vec<Section<T>>,
}

#[verifier::ext_equal]
pub struct SSection<V> {
    pub name: Seq<char>,
    pub content: Seq<V>,
    pub subsections: Seq<SSection<V>>,
}

pub open spec fn section_view<T: View>(s: Section<T>) -> SSection<T::V>
    decreases s,
{
    SSection {
        name: s.name@,
        content: s.content@.map_values(|x: T| x@),
        subsections: sections_view(s.subsections@),
    }
}

pub open spec fn sections_view<T: View>(ss: Seq<Section<T>>) -> Seq<SSection<T::V>>
    decreases ss,
{
    if ss.len() == 0 {
        Seq::empty()
    } else {
        seq![section_view(ss[0])] + sections_view(ss.drop_first())
    }
}

impl<T: View> View for Section<T> {
    type V = SSection<T::V>;

    open spec fn view(&self) -> SSection<T::V> {
        section_view(*self)
    }
}

/// The parse result for one file: its configuration sections and its log
/// sections.
#[derive(Debug, PartialEq, Eq)]
pub struct Content {
    pub information: Vec<Section<InfoEntry>>,
    pub logs: Vec<Section<LogEntry>>,
}

#[verifier::ext_equal]
pub struct SContent {
    pub information: Seq<SSection<SInfoEntry>>,
    pub logs: Seq<SSection<SLogEntry>>,
}

impl View for Content {
    type V = SContent;

    open spec fn view(&self) -> SContent {
        SContent {
            information: self.information@.map_values(|s: Section<InfoEntry>| s@),
            logs: self.logs@.map_values(|s: Section<LogEntry>| s@),
        }
    }
}

/// Position of a severity in the order from least to most severe.
pub open spec fn level_rank(l: LogLevel) -> int {
    match l {
        LogLevel::Verbose => 0,
        LogLevel::Debug => 1,
        LogLevel::Info => 2,
        LogLevel::Warn => 3,
        LogLevel::Error => 4,
    }
}

impl LogLevel {
    /// Position of this severity in the order from least to most severe.
    pub fn rank(&self) -> (r: u32)
        ensures
            r == level_rank(*self),
    {
        match self {
            LogLevel::Verbose => 0,
            LogLevel::Debug => 1,
            LogLevel::Info => 2,
            LogLevel::Warn => 3,
            LogLevel::Error => 4,
        }
    }

    /// Whether this severity reaches the threshold `min`.
    pub fn at_least(&self, min: &LogLevel) -> (r: bool)
        ensures
            r == (level_rank(*self) >= level_rank(*min)),
    {
        self.rank() >= min.rank()
    }
}

/// A display-layer query: a minimum severity plus a substring to look for.
#[derive(Debug, Clone, PartialEq, Eq, Hash)]
pub struct SearchQuery {
    pub min_log_level: LogLevel,
    pub string: String,
}

impl Default for SearchQuery {
    /// The default query shows errors only and holds no search text.
    fn default() -> (r: Self)
        ensures
            r.min_log_level == LogLevel::Error,
            r.string@ == Seq::<char>::empty(),
    {
        SearchQuery { min_log_level: LogLevel::Error, string: String::new() }
    }
}


/// Whether `needle` occurs in `hay` as a contiguous run (every text contains
/// the empty text).
pub open spec fn contains_text(hay: Seq<char>, needle: Seq<char>) -> bool {
    exists|i: int|
        0 <= i <= hay.len() - needle.len() && #[trigger] hay.subrange(i, i + needle.len() as int)
            == needle
}

fn match_at(hay: &Vec<char>, at: usize, needle: &Vec<char>) -> (b: bool)
    requires
        at + needle@.len() <= hay@.len(),
    ensures
        b == (hay@.subrange(at as int, at + needle@.len() as int) == needle@),
{
    let ghost window = hay@.subrange(at as int, at + needle@.len() as int);
    let hay_len = hay.len();
    let mut j: usize = 0;
    while j < needle.len()
        invariant
            j <= needle@.len(),
            at + needle@.len() <= hay@.len(),
            hay_len == hay@.len(),
            window == hay@.subrange(at as int, at + needle@.len() as int),
            forall|k: int| 0 <= k < j ==> #[trigger] window[k] == needle@[k],
        decreases needle@.len() - j,
    {
        if hay[at + j] != needle[j] {
            proof {
                assert(window[j as int] == hay@[at + j]);
            }
            return false;
        }
        proof {
            assert(window[j as int] == hay@[at + j]);
        }
        j = j + 1;
    }
    proof {
        assert(window =~= needle@);
    }
    true
}

/// Decide whether `needle` occurs in `hay`.
pub fn text_contains(hay: &Vec<char>, needle: &Vec<char>) -> (b: bool)
    ensures
        b == contains_text(hay@, needle@),
{
    if needle.len() > hay.len() {
        return false;
    }
    if needle.len() == 0 {
        proof {
            assert(hay@.subrange(0, 0 + needle@.len() as int) =~= needle@);
        }
        return true;
    }
    let last = hay.len() - needle.len();
    let mut i: usize = 0;
    loop
        invariant
            i <= last,
            needle@.len() >= 1,
            last == hay@.len() - needle@.len(),
            forall|k: int|
                0 <= k < i ==> #[trigger] hay@.subrange(k, k + needle@.len() as int) != needle@,
        decreases last - i,
    {
        if match_at(hay, i, needle) {
            return true;
        }
        if i == last {
            proof {
                assert(forall|k: int|
                    0 <= k <= last ==> #[trigger] hay@.subrange(k, k + needle@.len() as int)
                        != needle@);
            }
            return false;
        }
        i = i + 1;
    }
}

impl SearchQuery {
    /// The filter contract the rendering layer consumes: a record passes
    /// when its severity reaches the query's threshold — a record without a
    /// severity never does — and the query's text occurs in its message.
    pub fn matches(&self, entry: &LogEntry) -> (r: bool)
        ensures
            r == ((match entry.level {
                Some(l) => level_rank(l) >= level_rank(self.min_log_level),
                None => false,
            }) && contains_text(entry.message@, self.string@)),
    {
        let reaches = match entry.level {
            Some(l) => l.at_least(&self.min_log_level),
            None => false,
        };
        if !reaches {
            return false;
        }
        let hay = crate::text::chars_of_text(entry.message.as_str());
        let needle = crate::text::chars_of_text(self.string.as_str());
        text_contains(&hay, &needle)
    }
}


/// The display tabs of the surrounding viewer.
#[derive(Debug, Clone, Copy, PartialEq, Eq, Structural, Hash)]
pub enum Tab {
    Information,
    Logs,
    Raw,
}

impl Default for Tab {
    /// The viewer opens on the information tab.
    fn default() -> (r: Self)
        ensures
            r == Tab::Information,
    {
        Tab::Information
    }
}

} // verus!
