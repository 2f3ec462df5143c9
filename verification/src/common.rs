//! The shared grammar rules: whitespace padding, section headers, bucketed
//! per-region lists, key/value configuration lines, and the parameterized
//! timestamp rule. Each rule has a specification over the character sequence
//! and an executable recognizer proved against it.
use crate::model::{Bucket, InfoEntry, ParseError, SBucket, SInfoEntry, SValue, Timestamp, Value};
use crate::model::{days_in_month, timestamp_valid};
use crate::text::{
    chars_to_string, copy_range, digits_val, eval_digits, find2, in_class, lemma_digits_val_nonneg,
    lemma_rspan_bounds,
    lemma_rspan_is, lemma_span_bounds, lemma_span_is, rspan_start, scan, search2, span_end, trim,
    trim_range, CharClass,
};
use vstd::prelude::*;

verus! {

/// Outcome of a grammar rule in the mathematical model: the decoded value
/// with the position where the rule stopped, or the error it failed with.
#[verifier::ext_equal]
pub enum PRes<T> {
    Parsed { v: T, end: int },
    Failed { e: ParseError },
}

/// Whether the single-character literal `c` stands at `pos`.
pub open spec fn tag1(s: Seq<char>, pos: int, c: char) -> bool {
    0 <= pos < s.len() && s[pos] == c
}

/// Consume zero or more horizontal-space characters.
pub fn ws(input: &Vec<char>, pos: usize) -> (end: usize)
    requires
        pos <= input@.len(),
    ensures
        end == span_end(input@, pos as int, CharClass::HorizontalSpace),
        pos <= end <= input@.len(),
{
    scan(input, pos, CharClass::HorizontalSpace)
}

/// Consume zero or more whitespace characters, newlines included.
pub fn multispaced0(input: &Vec<char>, pos: usize) -> (end: usize)
    requires
        pos <= input@.len(),
    ensures
        end == span_end(input@, pos as int, CharClass::AnySpace),
        pos <= end <= input@.len(),
{
    scan(input, pos, CharClass::AnySpace)
}

/// A section header: one or more decoration characters, the name, one or
/// more decoration characters. The name is everything up to the closing
/// decoration run, trimmed; it is rejected only when no closing decoration
/// follows.
pub open spec fn section_header_spec(s: Seq<char>, pos: int) -> PRes<Seq<char>> {
    let d1 = span_end(s, pos, CharClass::Decoration);
    if d1 == pos {
        PRes::Failed { e: ParseError::Mismatch }
    } else {
        let q = span_end(s, d1, CharClass::NotDecoration);
        if q >= s.len() {
            PRes::Failed { e: ParseError::Mismatch }
        } else {
            PRes::Parsed { v: trim(s.subrange(d1, q)), end: span_end(s, q, CharClass::Decoration) }
        }
    }
}

/// Recognize a section header and hand back its trimmed name and the
/// position after the closing decoration run.
pub fn section_header(input: &Vec<char>, pos: usize) -> (r: Result<(String, usize), ParseError>)
    requires
        pos <= input@.len(),
    ensures
        match r {
            Ok((name, end)) => section_header_spec(input@, pos as int) == (PRes::Parsed {
                v: name@,
                end: end as int,
            }),
            Err(e) => section_header_spec(input@, pos as int) == (PRes::<Seq<char>>::Failed { e }),
        },
{
    let d1 = scan(input, pos, CharClass::Decoration);
    if d1 == pos {
        return Err(ParseError::Mismatch);
    }
    let q = scan(input, d1, CharClass::NotDecoration);
    if q == input.len() {
        return Err(ParseError::Mismatch);
    }
    let d2 = scan(input, q, CharClass::Decoration);
    let name = trim_range(input, d1, q);
    Ok((chars_to_string(&name), d2))
}

/// One bucket: a country code (one or more characters other than `':'` and
/// newline), a colon, and a run of one or more digits kept as text.
pub open spec fn bucket_spec(s: Seq<char>, pos: int) -> PRes<SBucket> {
    let ce = span_end(s, pos, CharClass::NotColonNewline);
    if ce == pos || !tag1(s, ce, ':') {
        PRes::Failed { e: ParseError::Mismatch }
    } else {
        let de = span_end(s, ce + 1, CharClass::Digit);
        if de == ce + 1 {
            PRes::Failed { e: ParseError::Mismatch }
        } else {
            PRes::Parsed {
                v: SBucket { country_code: s.subrange(pos, ce), value: s.subrange(ce + 1, de) },
                end: de,
            }
        }
    }
}

pub proof fn lemma_bucket_spec_bounds(s: Seq<char>, pos: int)
    requires
        0 <= pos <= s.len(),
    ensures
        match bucket_spec(s, pos) {
            PRes::Parsed { v, end } => pos < end <= s.len(),
            PRes::Failed { .. } => true,
        },
{
    lemma_span_bounds(s, pos, CharClass::NotColonNewline);
    let ce = span_end(s, pos, CharClass::NotColonNewline);
    if 0 <= ce + 1 <= s.len() {
        lemma_span_bounds(s, ce + 1, CharClass::Digit);
    }
}

/// Recognize one bucket.
pub fn bucket(input: &Vec<char>, pos: usize) -> (r: Result<(Bucket, usize), ParseError>)
    requires
        pos <= input@.len(),
    ensures
        match r {
            Ok((b, end)) => bucket_spec(input@, pos as int) == (PRes::Parsed { v: b@, end: end as int })
                && pos < end <= input@.len(),
            Err(e) => bucket_spec(input@, pos as int) == (PRes::<SBucket>::Failed { e }),
        },
{
    let ce = scan(input, pos, CharClass::NotColonNewline);
    if ce == pos || ce == input.len() || input[ce] != ':' {
        return Err(ParseError::Mismatch);
    }
    let de = scan(input, ce + 1, CharClass::Digit);
    if de == ce + 1 {
        return Err(ParseError::Mismatch);
    }
    let country_code = copy_range(input, pos, ce);
    let value = copy_range(input, ce + 1, de);
    Ok((Bucket { country_code: chars_to_string(&country_code), value: chars_to_string(&value) }, de))
}

/// The comma-separated continuation of a bucket list: zero or more
/// `',' bucket` repetitions; the list stops (without consuming the comma)
/// as soon as either fails to match.
pub open spec fn buckets_rest(s: Seq<char>, pos: int) -> (Seq<SBucket>, int)
    decreases s.len() - pos,
        when 0 <= pos <= s.len()
        via buckets_rest_decreases
{
    if tag1(s, pos, ',') {
        match bucket_spec(s, pos + 1) {
            PRes::Parsed { v: b, end } => {
                let (rest, p2) = buckets_rest(s, end);
                (seq![b] + rest, p2)
            },
            PRes::Failed { .. } => (Seq::empty(), pos),
        }
    } else {
        (Seq::empty(), pos)
    }
}

#[via_fn]
proof fn buckets_rest_decreases(s: Seq<char>, pos: int) {
    if tag1(s, pos, ',') {
        lemma_bucket_spec_bounds(s, pos + 1);
    }
}

/// A bucketed list: one or more buckets separated by commas, accepted only
/// when the list is immediately followed by a newline, a pipe, or the end of
/// the input (checked without consuming).
pub open spec fn bucketed_flag_spec(s: Seq<char>, pos: int) -> PRes<Seq<SBucket>> {
    match bucket_spec(s, pos) {
        PRes::Failed { .. } => PRes::Failed { e: ParseError::Mismatch },
        PRes::Parsed { v: b, end } => {
            let (rest, p2) = buckets_rest(s, end);
            if p2 < s.len() && s[p2] != '\n' && s[p2] != '|' {
                PRes::Failed { e: ParseError::Mismatch }
            } else {
                PRes::Parsed { v: seq![b] + rest, end: p2 }
            }
        },
    }
}

/// The ghost mirror of a vector of buckets.
pub open spec fn buckets_view(bs: Vec<Bucket>) -> Seq<SBucket> {
    bs@.map_values(|b: Bucket| b@)
}

/// Recognize a bucketed list.
pub fn bucketed_flag(input: &Vec<char>, pos: usize) -> (r: Result<(Vec<Bucket>, usize), ParseError>)
    requires
        pos <= input@.len(),
    ensures
        match r {
            Ok((bs, end)) => bucketed_flag_spec(input@, pos as int) == (PRes::Parsed {
                v: buckets_view(bs),
                end: end as int,
            }) && pos <= end <= input@.len(),
            Err(e) => bucketed_flag_spec(input@, pos as int) == (PRes::<Seq<SBucket>>::Failed { e }),
        },
{
    let first = match bucket(input, pos) {
        Ok(ok) => ok,
        Err(_) => {
            return Err(ParseError::Mismatch);
        },
    };
    let (b0, p0) = first;
    let ghost first_view = b0@;
    let mut bs: Vec<Bucket> = Vec::new();
    bs.push(b0);
    let mut cur = p0;
    let ghost mut done: Seq<SBucket> = Seq::empty();
    let mut stop = false;
    while !stop
        invariant
            pos <= cur <= input@.len(),
            buckets_view(bs) == seq![first_view] + done,
            bucket_spec(input@, pos as int) == (PRes::Parsed { v: first_view, end: p0 as int }),
            buckets_rest(input@, p0 as int).0 == done + buckets_rest(input@, cur as int).0,
            buckets_rest(input@, p0 as int).1 == buckets_rest(input@, cur as int).1,
            stop ==> buckets_rest(input@, cur as int) == (Seq::<SBucket>::empty(), cur as int),
        decreases input@.len() - cur, (if stop { 0int } else { 1int }),
    {
        if cur < input.len() && input[cur] == ',' {
            match bucket(input, cur + 1) {
                Ok((b, e)) => {
                    proof {
                        let tail = buckets_rest(input@, e as int);
                        assert(buckets_rest(input@, cur as int).0 == seq![b@] + tail.0);
                        assert(buckets_rest(input@, cur as int).1 == tail.1);
                        assert(done + (seq![b@] + tail.0) =~= (done + seq![b@]) + tail.0);
                    }
                    let ghost old_view = buckets_view(bs);
                    let ghost old_bs = bs@;
                    bs.push(b);
                    proof {
                        done = done + seq![b@];
                        assert(bs@ == old_bs.push(b));
                        assert(buckets_view(bs) =~= old_view.push(b@));
                        assert(old_view.push(b@) =~= seq![first_view] + done);
                    }
                    cur = e;
                },
                Err(_) => {
                    stop = true;
                },
            }
        } else {
            stop = true;
        }
    }
    proof {
        assert(buckets_rest(input@, p0 as int).0 == done) by {
            assert(done + Seq::<SBucket>::empty() =~= done);
        }
    }
    if cur < input.len() && input[cur] != '\n' && input[cur] != '|' {
        return Err(ParseError::Mismatch);
    }
    Ok((bs, cur))
}


/// Whether the literal `enabled` stands at `pos`.
pub open spec fn enabled_at(s: Seq<char>, pos: int) -> bool {
    &&& 0 <= pos
    &&& pos + 7 <= s.len()
    &&& s[pos] == 'e'
    &&& s[pos + 1] == 'n'
    &&& s[pos + 2] == 'a'
    &&& s[pos + 3] == 'b'
    &&& s[pos + 4] == 'l'
    &&& s[pos + 5] == 'e'
    &&& s[pos + 6] == 'd'
}

/// Whether the literal `disabled` stands at `pos`.
pub open spec fn disabled_at(s: Seq<char>, pos: int) -> bool {
    &&& 0 <= pos
    &&& pos + 8 <= s.len()
    &&& s[pos] == 'd'
    &&& s[pos + 1] == 'i'
    &&& s[pos + 2] == 's'
    &&& s[pos + 3] == 'a'
    &&& s[pos + 4] == 'b'
    &&& s[pos + 5] == 'l'
    &&& s[pos + 6] == 'e'
    &&& s[pos + 7] == 'd'
}

fn lit_enabled(input: &Vec<char>, pos: usize) -> (b: bool)
    requires
        pos <= input@.len(),
    ensures
        b == enabled_at(input@, pos as int),
{
    if input.len() - pos < 7 {
        return false;
    }
    input[pos] == 'e' && input[pos + 1] == 'n' && input[pos + 2] == 'a' && input[pos + 3] == 'b'
        && input[pos + 4] == 'l' && input[pos + 5] == 'e' && input[pos + 6] == 'd'
}

fn lit_disabled(input: &Vec<char>, pos: usize) -> (b: bool)
    requires
        pos <= input@.len(),
    ensures
        b == disabled_at(input@, pos as int),
{
    if input.len() - pos < 8 {
        return false;
    }
    input[pos] == 'd' && input[pos + 1] == 'i' && input[pos + 2] == 's' && input[pos + 3] == 'a'
        && input[pos + 4] == 'b' && input[pos + 5] == 'l' && input[pos + 6] == 'e' && input[pos + 7]
        == 'd'
}

/// One configuration line `key: [enabled|disabled] [value]`.
///
/// The key runs to the first `": "` and may not hold a newline; a line
/// opening with the reserved marker `--` is rejected. After the optional
/// enabled marker and any horizontal space, the value is tried as a bucketed
/// list first and falls back to generic text up to the next newline or pipe,
/// trimmed; a missing value is allowed only when the enabled marker was
/// present, and is otherwise the hard failure `MissingValue`.
pub open spec fn info_entry_spec(s: Seq<char>, pos: int) -> PRes<SInfoEntry> {
    if 0 <= pos && pos + 2 <= s.len() && s[pos] == '-' && s[pos + 1] == '-' {
        PRes::Failed { e: ParseError::Mismatch }
    } else {
        match find2(s, pos, ':', ' ') {
            Option::None => PRes::Failed { e: ParseError::Mismatch },
            Option::Some(q) => {
                if exists|i: int| pos <= i < q && #[trigger] s[i] == '\n' {
                    PRes::Failed { e: ParseError::Mismatch }
                } else {
                    let key = trim(s.subrange(pos, q));
                    let p1 = q + 2;
                    let (en, p2): (Option<bool>, int) = if enabled_at(s, p1) {
                        (Option::Some(true), p1 + 7)
                    } else if disabled_at(s, p1) {
                        (Option::Some(false), p1 + 8)
                    } else {
                        (Option::None, p1)
                    };
                    let p3 = span_end(s, p2, CharClass::HorizontalSpace);
                    let (val, p4): (Option<SValue>, int) = match bucketed_flag_spec(s, p3) {
                        PRes::Parsed { v, end } => (Option::Some(SValue::BucketedFlag(v)), end),
                        PRes::Failed { .. } => {
                            let ge = span_end(s, p3, CharClass::NotNewlinePipe);
                            if ge > p3 {
                                (Option::Some(SValue::Generic(trim(s.subrange(p3, ge)))), ge)
                            } else {
                                (Option::None, p3)
                            }
                        },
                    };
                    match en {
                        Option::Some(flag) => PRes::Parsed {
                            v: SInfoEntry::KeyEnabledValue(key, flag, val),
                            end: p4,
                        },
                        Option::None => match val {
                            Option::Some(v) => PRes::Parsed {
                                v: SInfoEntry::KeyValue(key, v),
                                end: p4,
                            },
                            Option::None => PRes::Failed { e: ParseError::MissingValue },
                        },
                    }
                }
            },
        }
    }
}

/// Decode one configuration line into a typed entry.
pub fn key_maybe_enabled_value(input: &Vec<char>, pos: usize) -> (r: Result<
    (InfoEntry, usize),
    ParseError,
>)
    requires
        pos <= input@.len(),
    ensures
        match r {
            Ok((entry, end)) => info_entry_spec(input@, pos as int) == (PRes::Parsed {
                v: entry@,
                end: end as int,
            }) && pos <= end <= input@.len(),
            Err(e) => info_entry_spec(input@, pos as int) == (PRes::<SInfoEntry>::Failed { e }),
        },
{
    if input.len() - pos >= 2 && input[pos] == '-' && input[pos + 1] == '-' {
        return Err(ParseError::Mismatch);
    }
    let q = match search2(input, pos, ':', ' ') {
        Some(q) => q,
        None => {
            return Err(ParseError::Mismatch);
        },
    };
    let ne = scan(input, pos, CharClass::NotNewline);
    if ne < q {
        proof {
            lemma_span_bounds(input@, pos as int, CharClass::NotNewline);
        }
        return Err(ParseError::Mismatch);
    }
    proof {
        lemma_span_bounds(input@, pos as int, CharClass::NotNewline);
        assert(forall|i: int| pos <= i < q ==> #[trigger] input@[i] != '\n');
    }
    let key = trim_range(input, pos, q);
    let p1 = q + 2;
    let (en, p2): (Option<bool>, usize) = if lit_enabled(input, p1) {
        (Some(true), p1 + 7)
    } else if lit_disabled(input, p1) {
        (Some(false), p1 + 8)
    } else {
        (None, p1)
    };
    let p3 = ws(input, p2);
    let (val, p4): (Option<Value>, usize) = match bucketed_flag(input, p3) {
        Ok((bs, end)) => (Some(Value::BucketedFlag(bs)), end),
        Err(_) => {
            let ge = scan(input, p3, CharClass::NotNewlinePipe);
            if ge > p3 {
                let text = trim_range(input, p3, ge);
                (Some(Value::Generic(chars_to_string(&text))), ge)
            } else {
                (None, p3)
            }
        },
    };
    match en {
        Some(flag) => Ok((InfoEntry::KeyEnabledValue(chars_to_string(&key), flag, val), p4)),
        None => match val {
            Some(v) => Ok((InfoEntry::KeyValue(chars_to_string(&key), v), p4)),
            None => Err(ParseError::MissingValue),
        },
    }
}

/// The digit runs of the month through second fields and their separators.
pub struct ClockRuns {
    pub month_s: int,
    pub month_e: int,
    pub day_s: int,
    pub day_e: int,
    pub hour_s: int,
    pub hour_e: int,
    pub minute_s: int,
    pub minute_e: int,
    pub second_s: int,
    pub second_e: int,
}

/// The grammar of the month through second fields:
/// `month ymd day dt hour hms minute hms second` where each field is one or
/// more digits and the lower-case names are the separator characters.
pub open spec fn clock_runs(
    s: Seq<char>,
    p: int,
    ymd_sep: char,
    ymd_hms_sep: char,
    hms_sep: char,
) -> Option<ClockRuns> {
    let me = span_end(s, p, CharClass::Digit);
    if me == p || !tag1(s, me, ymd_sep) {
        Option::None
    } else {
        let ds = me + 1;
        let de = span_end(s, ds, CharClass::Digit);
        if de == ds || !tag1(s, de, ymd_hms_sep) {
            Option::None
        } else {
            let hs = de + 1;
            let he = span_end(s, hs, CharClass::Digit);
            if he == hs || !tag1(s, he, hms_sep) {
                Option::None
            } else {
                let mns = he + 1;
                let mne = span_end(s, mns, CharClass::Digit);
                if mne == mns || !tag1(s, mne, hms_sep) {
                    Option::None
                } else {
                    let ss = mne + 1;
                    let se = span_end(s, ss, CharClass::Digit);
                    if se == ss {
                        Option::None
                    } else {
                        Option::Some(
                            ClockRuns {
                                month_s: p,
                                month_e: me,
                                day_s: ds,
                                day_e: de,
                                hour_s: hs,
                                hour_e: he,
                                minute_s: mns,
                                minute_e: mne,
                                second_s: ss,
                                second_e: se,
                            },
                        )
                    }
                }
            }
        }
    }
}

/// The year: taken from the parameter when one is assumed, else one or more
/// digits followed by the year separator, converted and checked against the
/// target integer type.
pub open spec fn year_part(s: Seq<char>, pos: int, assumed_year: Option<u32>, ymd_sep: char) -> PRes<
    int,
> {
    match assumed_year {
        Option::Some(y) => PRes::Parsed { v: y as int, end: pos },
        Option::None => {
            let ye = span_end(s, pos, CharClass::Digit);
            if ye == pos || !tag1(s, ye, ymd_sep) {
                PRes::Failed { e: ParseError::Mismatch }
            } else {
                let yv = digits_val(s, pos, ye);
                if yv > u32::MAX {
                    PRes::Failed { e: ParseError::NumberTooLarge }
                } else {
                    PRes::Parsed { v: yv, end: ye + 1 }
                }
            }
        },
    }
}

/// The optional millisecond field: the separator followed by one or more
/// digits, converted and checked; skipped entirely when no separator is
/// configured.
pub open spec fn ms_part(s: Seq<char>, pos: int, ms_sep: Option<char>) -> PRes<Option<int>> {
    match ms_sep {
        Option::None => PRes::Parsed { v: Option::None, end: pos },
        Option::Some(c) => {
            if !tag1(s, pos, c) {
                PRes::Failed { e: ParseError::Mismatch }
            } else {
                let de = span_end(s, pos + 1, CharClass::Digit);
                if de == pos + 1 {
                    PRes::Failed { e: ParseError::Mismatch }
                } else {
                    let v = digits_val(s, pos + 1, de);
                    if v > u32::MAX {
                        PRes::Failed { e: ParseError::NumberTooLarge }
                    } else {
                        PRes::Parsed { v: Option::Some(v), end: de }
                    }
                }
            }
        },
    }
}

/// The parameterized timestamp grammar.
///
/// A leading year field is required exactly when no year is assumed. Fields
/// are digit runs joined by the configured separators; the millisecond field
/// exists only when its separator is given, and the trailing literal, when
/// given, is consumed after the whole timestamp. A digit run that does not
/// fit the target type fails with `NumberTooLarge`; fields that do not form
/// a real calendar date or clock time fail with `InvalidDate`.
pub open spec fn date_time_spec(
    s: Seq<char>,
    pos: int,
    assumed_year: Option<u32>,
    ymd_sep: char,
    ymd_hms_sep: char,
    hms_sep: char,
    ms_sep: Option<char>,
    ending: Option<char>,
) -> PRes<Timestamp> {
    match year_part(s, pos, assumed_year, ymd_sep) {
        PRes::Failed { e } => PRes::Failed { e },
        PRes::Parsed { v: year, end: p } => match clock_runs(s, p, ymd_sep, ymd_hms_sep, hms_sep) {
            Option::None => PRes::Failed { e: ParseError::Mismatch },
            Option::Some(cr) => {
                let mo = digits_val(s, cr.month_s, cr.month_e);
                let dy = digits_val(s, cr.day_s, cr.day_e);
                if mo > u32::MAX || dy > u32::MAX {
                    PRes::Failed { e: ParseError::NumberTooLarge }
                } else if !(1 <= mo && mo <= 12 && 1 <= dy && dy <= days_in_month(year, mo)) {
                    PRes::Failed { e: ParseError::InvalidDate }
                } else {
                    match ms_part(s, cr.second_e, ms_sep) {
                        PRes::Failed { e } => PRes::Failed { e },
                        PRes::Parsed { v: msv, end: p2 } => {
                            let hr = digits_val(s, cr.hour_s, cr.hour_e);
                            let mi = digits_val(s, cr.minute_s, cr.minute_e);
                            let sec = digits_val(s, cr.second_s, cr.second_e);
                            if hr > u32::MAX || mi > u32::MAX || sec > u32::MAX {
                                PRes::Failed { e: ParseError::NumberTooLarge }
                            } else if !(hr < 24 && mi < 60 && sec < 60 && (match msv {
                                Option::Some(m) => m <= 999,
                                Option::None => true,
                            })) {
                                PRes::Failed { e: ParseError::InvalidDate }
                            } else {
                                let ts = Timestamp {
                                    year: year as u32,
                                    month: mo as u32,
                                    day: dy as u32,
                                    hour: hr as u32,
                                    minute: mi as u32,
                                    second: sec as u32,
                                    millisecond: match msv {
                                        Option::Some(m) => Option::Some(m as u32),
                                        Option::None => Option::None,
                                    },
                                };
                                match ending {
                                    Option::Some(c) => if tag1(s, p2, c) {
                                        PRes::Parsed { v: ts, end: p2 + 1 }
                                    } else {
                                        PRes::Failed { e: ParseError::Mismatch }
                                    },
                                    Option::None => PRes::Parsed { v: ts, end: p2 },
                                }
                            }
                        },
                    }
                }
            },
        },
    }
}

/// Days in a month of a year.
pub fn days_in(y: u32, m: u32) -> (d: u32)
    requires
        1 <= m <= 12,
    ensures
        d as int == days_in_month(y as int, m as int),
{
    if m == 2 {
        if y % 4 == 0 && (y % 100 != 0 || y % 400 == 0) {
            29
        } else {
            28
        }
    } else if m == 4 || m == 6 || m == 9 || m == 11 {
        30
    } else {
        31
    }
}

/// Recognize a timestamp under the configured separators.
#[verifier::rlimit(50)]
pub fn naive_date_time(
    assumed_year: Option<u32>,
    ymd_separator: char,
    ymd_hms_separator: char,
    hms_separator: char,
    millisecond_separator: Option<char>,
    ending: Option<char>,
    input: &Vec<char>,
    pos: usize,
) -> (r: Result<(Timestamp, usize), ParseError>)
    requires
        pos <= input@.len(),
    ensures
        match r {
            Ok((ts, end)) => date_time_spec(
                input@,
                pos as int,
                assumed_year,
                ymd_separator,
                ymd_hms_separator,
                hms_separator,
                millisecond_separator,
                ending,
            ) == (PRes::Parsed { v: ts, end: end as int }) && pos <= end <= input@.len(),
            Err(e) => date_time_spec(
                input@,
                pos as int,
                assumed_year,
                ymd_separator,
                ymd_hms_separator,
                hms_separator,
                millisecond_separator,
                ending,
            ) == (PRes::<Timestamp>::Failed { e }),
        },
{
    let (year, p): (u32, usize) = match assumed_year {
        Some(y) => (y, pos),
        None => {
            let ye = scan(input, pos, CharClass::Digit);
            if ye == pos || ye == input.len() || input[ye] != ymd_separator {
                return Err(ParseError::Mismatch);
            }
            match eval_digits(input, pos, ye) {
                Some(y) => (y, ye + 1),
                None => {
                    return Err(ParseError::NumberTooLarge);
                },
            }
        },
    };
    let me = scan(input, p, CharClass::Digit);
    if me == p || me == input.len() || input[me] != ymd_separator {
        return Err(ParseError::Mismatch);
    }
    let ds = me + 1;
    let de = scan(input, ds, CharClass::Digit);
    if de == ds || de == input.len() || input[de] != ymd_hms_separator {
        return Err(ParseError::Mismatch);
    }
    let hs = de + 1;
    let he = scan(input, hs, CharClass::Digit);
    if he == hs || he == input.len() || input[he] != hms_separator {
        return Err(ParseError::Mismatch);
    }
    let mns = he + 1;
    let mne = scan(input, mns, CharClass::Digit);
    if mne == mns || mne == input.len() || input[mne] != hms_separator {
        return Err(ParseError::Mismatch);
    }
    let ss = mne + 1;
    let se = scan(input, ss, CharClass::Digit);
    if se == ss {
        return Err(ParseError::Mismatch);
    }
    let mo = match eval_digits(input, p, me) {
        Some(v) => v,
        None => {
            return Err(ParseError::NumberTooLarge);
        },
    };
    let dy = match eval_digits(input, ds, de) {
        Some(v) => v,
        None => {
            return Err(ParseError::NumberTooLarge);
        },
    };
    if !(1 <= mo && mo <= 12) {
        return Err(ParseError::InvalidDate);
    }
    if !(1 <= dy && dy <= days_in(year, mo)) {
        return Err(ParseError::InvalidDate);
    }
    let (msv, p2): (Option<u32>, usize) = match millisecond_separator {
        Some(c) => {
            if se == input.len() || input[se] != c {
                return Err(ParseError::Mismatch);
            }
            let mse = scan(input, se + 1, CharClass::Digit);
            if mse == se + 1 {
                return Err(ParseError::Mismatch);
            }
            match eval_digits(input, se + 1, mse) {
                Some(v) => (Some(v), mse),
                None => {
                    return Err(ParseError::NumberTooLarge);
                },
            }
        },
        None => (None, se),
    };
    let hr = match eval_digits(input, hs, he) {
        Some(v) => v,
        None => {
            return Err(ParseError::NumberTooLarge);
        },
    };
    let mi = match eval_digits(input, mns, mne) {
        Some(v) => v,
        None => {
            return Err(ParseError::NumberTooLarge);
        },
    };
    let sec = match eval_digits(input, ss, se) {
        Some(v) => v,
        None => {
            return Err(ParseError::NumberTooLarge);
        },
    };
    if !(hr < 24 && mi < 60 && sec < 60) {
        return Err(ParseError::InvalidDate);
    }
    match msv {
        Some(m) => {
            if m > 999 {
                return Err(ParseError::InvalidDate);
            }
        },
        None => {},
    }
    let ts = Timestamp {
        year,
        month: mo,
        day: dy,
        hour: hr,
        minute: mi,
        second: sec,
        millisecond: msv,
    };
    match ending {
        Some(c) => {
            if p2 == input.len() || input[p2] != c {
                return Err(ParseError::Mismatch);
            }
            Ok((ts, p2 + 1))
        },
        None => Ok((ts, p2)),
    }
}


/// A decoded bucket is well-formed: a non-empty value of digits only, and a
/// non-empty country code free of colons and newlines.
pub open spec fn bucket_wf(b: SBucket) -> bool {
    &&& b.value.len() >= 1
    &&& forall|i: int| 0 <= i < b.value.len() ==> in_class(CharClass::Digit, #[trigger] b.value[i])
    &&& b.country_code.len() >= 1
    &&& forall|i: int|
        0 <= i < b.country_code.len() ==> #[trigger] b.country_code[i] != ':'
            && b.country_code[i] != '\n'
}

pub proof fn lemma_bucket_spec_wf(s: Seq<char>, pos: int)
    requires
        0 <= pos <= s.len(),
    ensures
        match bucket_spec(s, pos) {
            PRes::Parsed { v, end } => bucket_wf(v) && pos < end <= s.len(),
            PRes::Failed { .. } => true,
        },
{
    lemma_span_bounds(s, pos, CharClass::NotColonNewline);
    let ce = span_end(s, pos, CharClass::NotColonNewline);
    if 0 <= ce + 1 <= s.len() {
        lemma_span_bounds(s, ce + 1, CharClass::Digit);
    }
}

proof fn lemma_buckets_rest_sound(s: Seq<char>, pos: int)
    requires
        0 <= pos <= s.len(),
    ensures
        ({
            let (rest, end) = buckets_rest(s, pos);
            &&& pos <= end <= s.len()
            &&& forall|k: int| 0 <= k < rest.len() ==> bucket_wf(#[trigger] rest[k])
        }),
    decreases s.len() - pos,
{
    if tag1(s, pos, ',') {
        lemma_bucket_spec_wf(s, pos + 1);
        match bucket_spec(s, pos + 1) {
            PRes::Parsed { v, end } => {
                lemma_buckets_rest_sound(s, end);
                let (tail, e2) = buckets_rest(s, end);
                assert(forall|k: int|
                    0 <= k < tail.len() ==> (seq![v] + tail)[k + 1] == #[trigger] tail[k]);
            },
            PRes::Failed { .. } => {},
        }
    }
}

/// Law: a bucketed list is accepted only when every comma-separated segment
/// is a well-formed bucket — its value a non-empty run of digits only — and
/// only when the whole candidate is immediately followed by a newline, a
/// pipe, or the end of the input. Any other shape is rejected.
pub proof fn lemma_bucketed_flag_sound(s: Seq<char>, pos: int)
    requires
        0 <= pos <= s.len(),
    ensures
        match bucketed_flag_spec(s, pos) {
            PRes::Parsed { v: bs, end } => {
                &&& pos < end <= s.len()
                &&& (end == s.len() || s[end] == '\n' || s[end] == '|')
                &&& bs.len() >= 1
                &&& forall|k: int| 0 <= k < bs.len() ==> bucket_wf(#[trigger] bs[k])
            },
            PRes::Failed { .. } => true,
        },
{
    lemma_bucket_spec_wf(s, pos);
    match bucket_spec(s, pos) {
        PRes::Parsed { v: b, end } => {
            lemma_buckets_rest_sound(s, end);
            let (rest, p2) = buckets_rest(s, end);
            assert(forall|k: int|
                0 <= k < rest.len() ==> (seq![b] + rest)[k + 1] == #[trigger] rest[k]);
        },
        PRes::Failed { .. } => {},
    }
}

/// Law: for any decoration lengths m, n >= 1 and any non-empty trimmed name
/// free of the decoration character, the header made of m decorations, a
/// space, the name, a space, and n decorations yields exactly the name, with
/// the whole line consumed.
pub proof fn lemma_section_header_decorated(name: Seq<char>, m: int, n: int)
    requires
        m >= 1,
        n >= 1,
        name.len() > 0,
        forall|i: int| 0 <= i < name.len() ==> #[trigger] name[i] != '=',
        trim(name) == name,
    ensures
        ({
            let s = Seq::new(m as nat, |i: int| '=') + seq![' '] + name + seq![' '] + Seq::new(
                n as nat,
                |i: int| '=',
            );
            section_header_spec(s, 0) == (PRes::<Seq<char>>::Parsed { v: name, end: s.len() as int })
        }),
{
    let deco1 = Seq::new(m as nat, |i: int| '=');
    let deco2 = Seq::new(n as nat, |i: int| '=');
    let s = deco1 + seq![' '] + name + seq![' '] + deco2;
    let t = m + 1 + name.len() + 1;
    assert(s.len() == t + n);
    // the opening decoration run
    assert forall|i: int| 0 <= i < m implies in_class(CharClass::Decoration, s[i]) by {
        assert(s[i] == deco1[i]);
    }
    assert(s[m] == ' ');
    lemma_span_is(s, 0, m, CharClass::Decoration);
    // nothing up to the closing run is a decoration character
    assert forall|i: int| m <= i < t implies in_class(CharClass::NotDecoration, s[i]) by {
        if m + 1 <= i < m + 1 + name.len() {
            assert(s[i] == name[i - m - 1]);
        } else if i == t - 1 {
            assert(s[i] == ' ');
        }
    }
    assert(s[t] == deco2[0]);
    lemma_span_is(s, m, t, CharClass::NotDecoration);
    // the closing run reaches the end of the line
    assert forall|i: int| t <= i < s.len() implies in_class(CharClass::Decoration, s[i]) by {
        assert(s[i] == deco2[i - t]);
    }
    lemma_span_is(s, t, s.len() as int, CharClass::Decoration);
    // a trimmed non-empty name neither starts nor ends with a blank
    let a = span_end(name, 0, CharClass::AnySpace);
    let b = rspan_start(name, name.len() as int);
    lemma_span_bounds(name, 0, CharClass::AnySpace);
    lemma_rspan_bounds(name, name.len() as int);
    if a > b {
        assert(trim(name).len() == 0);
        assert(false);
    }
    assert(name.subrange(a, b) == name);
    assert(name.subrange(a, b).len() == b - a);
    assert(a == 0 && b == name.len());
    assert(!in_class(CharClass::AnySpace, name[0]));
    assert(!in_class(CharClass::AnySpace, name[name.len() - 1]));
    // so the inner region trims to exactly the name
    let sub = s.subrange(m, t);
    assert(sub.len() == name.len() + 2);
    assert(sub[0] == ' ');
    assert(forall|i: int| 1 <= i < sub.len() - 1 ==> #[trigger] sub[i] == name[i - 1]);
    assert(sub[sub.len() - 1] == ' ');
    lemma_span_is(sub, 0, 1, CharClass::AnySpace);
    lemma_rspan_is(sub, sub.len() as int, sub.len() - 1);
    assert(trim(sub) =~= name);
}


/// A timestamp the grammar accepts always holds a real calendar date and
/// clock time: its fields satisfy `timestamp_valid`.
pub proof fn lemma_date_time_valid(
    s: Seq<char>,
    pos: int,
    assumed_year: Option<u32>,
    ymd_sep: char,
    ymd_hms_sep: char,
    hms_sep: char,
    ms_sep: Option<char>,
    ending: Option<char>,
)
    ensures
        match date_time_spec(s, pos, assumed_year, ymd_sep, ymd_hms_sep, hms_sep, ms_sep, ending) {
            PRes::Parsed { v, end } => timestamp_valid(v),
            PRes::Failed { .. } => true,
        },
{
    match year_part(s, pos, assumed_year, ymd_sep) {
        PRes::Parsed { v: year, end: p } => {
            match clock_runs(s, p, ymd_sep, ymd_hms_sep, hms_sep) {
                Option::Some(cr) => {
                    match ms_part(s, cr.second_e, ms_sep) {
                        PRes::Parsed { v: msv, end: p2 } => {
                            // the digit runs evaluate to non-negative values,
                            // so the narrowing casts keep them unchanged
                            match assumed_year {
                                Option::None => {
                                    lemma_span_bounds(s, pos, CharClass::Digit);
                                    lemma_digits_val_nonneg(
                                        s,
                                        pos,
                                        span_end(s, pos, CharClass::Digit),
                                    );
                                },
                                Option::Some(_) => {},
                            }
                            lemma_span_bounds(s, cr.month_s, CharClass::Digit);
                            lemma_digits_val_nonneg(s, cr.month_s, cr.month_e);
                            lemma_span_bounds(s, cr.day_s, CharClass::Digit);
                            lemma_digits_val_nonneg(s, cr.day_s, cr.day_e);
                            lemma_span_bounds(s, cr.hour_s, CharClass::Digit);
                            lemma_digits_val_nonneg(s, cr.hour_s, cr.hour_e);
                            lemma_span_bounds(s, cr.minute_s, CharClass::Digit);
                            lemma_digits_val_nonneg(s, cr.minute_s, cr.minute_e);
                            lemma_span_bounds(s, cr.second_s, CharClass::Digit);
                            lemma_digits_val_nonneg(s, cr.second_s, cr.second_e);
                            match ms_sep {
                                Option::Some(c) => {
                                    if 0 <= cr.second_e + 1 <= s.len() {
                                        lemma_span_bounds(s, cr.second_e + 1, CharClass::Digit);
                                        lemma_digits_val_nonneg(
                                            s,
                                            cr.second_e + 1,
                                            span_end(s, cr.second_e + 1, CharClass::Digit),
                                        );
                                    }
                                },
                                Option::None => {},
                            }
                            assert(match date_time_spec(
                                s,
                                pos,
                                assumed_year,
                                ymd_sep,
                                ymd_hms_sep,
                                hms_sep,
                                ms_sep,
                                ending,
                            ) {
                                PRes::Parsed { v, end } => timestamp_valid(v),
                                PRes::Failed { .. } => true,
                            });
                        },
                        PRes::Failed { .. } => {},
                    }
                },
                Option::None => {},
            }
        },
        PRes::Failed { .. } => {},
    }
}

} // verus!
