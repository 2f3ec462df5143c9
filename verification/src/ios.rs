//! The log dialect of the mobile platform: a timestamped record with an
//! optional severity glyph and an optional bracketed source-location tag,
//! followed by a message body that runs until the next record's metadata
//! would match.
use crate::common::{date_time_spec, naive_date_time, tag1, ws, multispaced0, PRes};
use crate::model::{
    timestamp_text, Content, LogEntry, LogLevel, ParseError, PlatformMetadata, SContent, SLogEntry,
    SPlatformMetadata, SSection, Section, Timestamp, render_timestamp,
};
use crate::text::{
    chars_to_string, copy_range, find2, lemma_find2_props, lemma_span_bounds, scan, search2,
    span_end, CharClass,
};
use vstd::prelude::*;

verus! {

/// The structured source-location tag of one log record: the file, the line
/// within it, and the symbol, all as matched text.
#[derive(Debug, Clone, PartialEq, Eq)]
pub struct LogEntryMetadata {
    pub file: String,
    pub line: String,
    pub symbol: String,
}

#[verifier::ext_equal]
pub struct SLogEntryMetadata {
    pub file: Seq<char>,
    pub line: Seq<char>,
    pub symbol: Seq<char>,
}

impl View for LogEntryMetadata {
    type V = SLogEntryMetadata;

    open spec fn view(&self) -> SLogEntryMetadata {
        SLogEntryMetadata { file: self.file@, line: self.line@, symbol: self.symbol@ }
    }
}

/// The severity table: a run of glyph characters decodes to a level exactly
/// when it is one of the five distinguished glyphs. The red heart is the
/// two-character sequence heart plus variation selector.
pub open spec fn glyph_level(run: Seq<char>) -> Option<LogLevel> {
    if run.len() == 1 && run[0] == '\u{1F499}' {
        Option::Some(LogLevel::Verbose)
    } else if run.len() == 1 && run[0] == '\u{1F49A}' {
        Option::Some(LogLevel::Debug)
    } else if run.len() == 1 && run[0] == '\u{1F49B}' {
        Option::Some(LogLevel::Info)
    } else if run.len() == 1 && run[0] == '\u{1F9E1}' {
        Option::Some(LogLevel::Warn)
    } else if run.len() == 2 && run[0] == '\u{2764}' && run[1] == '\u{FE0F}' {
        Option::Some(LogLevel::Error)
    } else {
        Option::None
    }
}

/// The severity marker: the maximal run of glyph characters at `pos`. No run
/// is a mismatch; a run that is not one of the five glyphs is the fatal
/// `UnknownLevel`.
pub open spec fn level_spec(s: Seq<char>, pos: int) -> PRes<LogLevel> {
    let ge = span_end(s, pos, CharClass::SeverityGlyph);
    if ge == pos {
        PRes::Failed { e: ParseError::Mismatch }
    } else {
        match glyph_level(s.subrange(pos, ge)) {
            Option::Some(l) => PRes::Parsed { v: l, end: ge },
            Option::None => PRes::Failed { e: ParseError::UnknownLevel },
        }
    }
}

/// Decode the severity marker at `pos`.
pub fn level(input: &Vec<char>, pos: usize) -> (r: Result<(LogLevel, usize), ParseError>)
    requires
        pos <= input@.len(),
    ensures
        match r {
            Ok((l, end)) => level_spec(input@, pos as int) == (PRes::Parsed {
                v: l,
                end: end as int,
            }) && pos < end <= input@.len(),
            Err(e) => level_spec(input@, pos as int) == (PRes::<LogLevel>::Failed { e }),
        },
{
    let ge = scan(input, pos, CharClass::SeverityGlyph);
    if ge == pos {
        return Err(ParseError::Mismatch);
    }
    let ghost run = input@.subrange(pos as int, ge as int);
    proof {
        assert(run.len() == ge - pos);
        assert(forall|i: int| 0 <= i < run.len() ==> run[i] == input@[pos + i]);
    }
    if ge == pos + 1 {
        let c = input[pos];
        if c == '\u{1F499}' {
            return Ok((LogLevel::Verbose, ge));
        }
        if c == '\u{1F49A}' {
            return Ok((LogLevel::Debug, ge));
        }
        if c == '\u{1F49B}' {
            return Ok((LogLevel::Info, ge));
        }
        if c == '\u{1F9E1}' {
            return Ok((LogLevel::Warn, ge));
        }
        proof {
            assert(glyph_level(run) is None);
        }
        return Err(ParseError::UnknownLevel);
    }
    if ge == pos + 2 && input[pos] == '\u{2764}' && input[pos + 1] == '\u{FE0F}' {
        return Ok((LogLevel::Error, ge));
    }
    proof {
        assert(run.len() >= 2);
        assert(glyph_level(run) is None);
    }
    Err(ParseError::UnknownLevel)
}

/// No newline stands in `s[a .. b]`.
pub open spec fn no_newline(s: Seq<char>, a: int, b: int) -> bool {
    forall|i: int| a <= i < b ==> #[trigger] s[i] != '\n'
}

/// The optional bracketed tag `[file:line symbol]` terminated by `]:` or
/// `] `. The file runs to the first colon, the line is one or more
/// characters other than space and `]`, and the symbol is everything up to
/// the terminator (so a tag without a symbol yields an empty symbol string);
/// the symbol may not hold a newline. `None` when the shape does not hold;
/// nothing is consumed then.
pub open spec fn tag_spec(s: Seq<char>, pos: int) -> Option<(SLogEntryMetadata, int)> {
    if !tag1(s, pos, '[') {
        Option::None
    } else {
        let fe = span_end(s, pos + 1, CharClass::NotColon);
        if fe >= s.len() {
            Option::None
        } else {
            let ls = fe + 1;
            let le = span_end(s, ls, CharClass::NotSpaceBracket);
            if le == ls {
                Option::None
            } else {
                let sy = span_end(s, le, CharClass::HorizontalSpace);
                let file = s.subrange(pos + 1, fe);
                let line = s.subrange(ls, le);
                let colon_end = find2(s, sy, ']', ':');
                if colon_end is Some && no_newline(s, sy, colon_end->0) {
                    Option::Some(
                        (
                            SLogEntryMetadata { file, line, symbol: s.subrange(sy, colon_end->0) },
                            colon_end->0 + 2,
                        ),
                    )
                } else {
                    let space_end = find2(s, sy, ']', ' ');
                    if space_end is Some && no_newline(s, sy, space_end->0) {
                        Option::Some(
                            (
                                SLogEntryMetadata {
                                    file,
                                    line,
                                    symbol: s.subrange(sy, space_end->0),
                                },
                                space_end->0 + 2,
                            ),
                        )
                    } else {
                        Option::None
                    }
                }
            }
        }
    }
}

/// Recognize the optional bracketed tag; hands back the start position
/// unchanged when the tag shape does not hold.
fn tag_part(input: &Vec<char>, pos: usize) -> (r: (Option<LogEntryMetadata>, usize))
    requires
        pos <= input@.len(),
    ensures
        r.1 <= input@.len(),
        (match tag_spec(input@, pos as int) {
            Option::Some((t, end)) => (match r.0 {
                Option::Some(tv) => tv@ == t && r.1 == end,
                Option::None => false,
            }),
            Option::None => r.0 is None && r.1 == pos,
        }),
{
    if pos == input.len() || input[pos] != '[' {
        return (None, pos);
    }
    let fe = scan(input, pos + 1, CharClass::NotColon);
    if fe == input.len() {
        return (None, pos);
    }
    let ls = fe + 1;
    let le = scan(input, ls, CharClass::NotSpaceBracket);
    if le == ls {
        return (None, pos);
    }
    let sy = ws(input, le);
    let nl = scan(input, sy, CharClass::NotNewline);
    match search2(input, sy, ']', ':') {
        Some(t1) => {
            if nl >= t1 {
                let file = copy_range(input, pos + 1, fe);
                let line = copy_range(input, ls, le);
                let symbol = copy_range(input, sy, t1);
                return (
                    Some(
                        LogEntryMetadata {
                            file: chars_to_string(&file),
                            line: chars_to_string(&line),
                            symbol: chars_to_string(&symbol),
                        },
                    ),
                    t1 + 2,
                );
            }
            proof {
                assert(input@[nl as int] == '\n');
                assert(!no_newline(input@, sy as int, t1 as int));
            }
        },
        None => {},
    }
    match search2(input, sy, ']', ' ') {
        Some(t2) => {
            if nl >= t2 {
                let file = copy_range(input, pos + 1, fe);
                let line = copy_range(input, ls, le);
                let symbol = copy_range(input, sy, t2);
                return (
                    Some(
                        LogEntryMetadata {
                            file: chars_to_string(&file),
                            line: chars_to_string(&line),
                            symbol: chars_to_string(&symbol),
                        },
                    ),
                    t2 + 2,
                );
            }
            proof {
                assert(input@[nl as int] == '\n');
                assert(!no_newline(input@, sy as int, t2 as int));
            }
            (None, pos)
        },
        None => (None, pos),
    }
}

/// What precedes a record's message: its timestamp, its optional severity,
/// and its optional source-location tag.
#[verifier::ext_equal]
pub struct SMetadata {
    pub ts: Timestamp,
    pub level: Option<LogLevel>,
    pub tag: Option<SLogEntryMetadata>,
}

/// The record metadata: the timestamp grammar with `/`, space and `:`
/// separators and a `:` millisecond separator, then optional horizontal
/// space, an optional severity glyph (also followed by horizontal space),
/// and the optional bracketed tag.
pub open spec fn metadata_spec(s: Seq<char>, pos: int) -> PRes<SMetadata> {
    match date_time_spec(
        s,
        pos,
        Option::None,
        '/',
        ' ',
        ':',
        Option::Some(':'),
        Option::None,
    ) {
        PRes::Failed { e } => PRes::Failed { e },
        PRes::Parsed { v: ts, end: p } => {
            let p1 = span_end(s, p, CharClass::HorizontalSpace);
            match level_spec(s, p1) {
                PRes::Parsed { v: l, end: le } => {
                    let p2 = span_end(s, le, CharClass::HorizontalSpace);
                    match tag_spec(s, p2) {
                        Option::Some((t, p3)) => PRes::Parsed {
                            v: SMetadata { ts, level: Option::Some(l), tag: Option::Some(t) },
                            end: p3,
                        },
                        Option::None => PRes::Parsed {
                            v: SMetadata { ts, level: Option::Some(l), tag: Option::None },
                            end: p2,
                        },
                    }
                },
                PRes::Failed { e } => {
                    if e != ParseError::Mismatch {
                        PRes::Failed { e }
                    } else {
                        match tag_spec(s, p1) {
                            Option::Some((t, p3)) => PRes::Parsed {
                                v: SMetadata { ts, level: Option::None, tag: Option::Some(t) },
                                end: p3,
                            },
                            Option::None => PRes::Parsed {
                                v: SMetadata { ts, level: Option::None, tag: Option::None },
                                end: p1,
                            },
                        }
                    }
                },
            }
        },
    }
}

/// Recognize a record's metadata.
pub fn metadata(input: &Vec<char>, pos: usize) -> (r: Result<
    (Timestamp, Option<LogLevel>, Option<LogEntryMetadata>, usize),
    ParseError,
>)
    requires
        pos <= input@.len(),
    ensures
        match r {
            Ok((ts, lvl, tag, end)) => metadata_spec(input@, pos as int) == (PRes::Parsed {
                v: SMetadata {
                    ts,
                    level: lvl,
                    tag: (match tag {
                        Option::Some(t) => Option::Some(t@),
                        Option::None => Option::None,
                    }),
                },
                end: end as int,
            }) && pos < end <= input@.len(),
            Err(e) => metadata_spec(input@, pos as int) == (PRes::<SMetadata>::Failed { e }),
        },
{
    let (ts, p) = match naive_date_time(None, '/', ' ', ':', Some(':'), None, input, pos) {
        Ok(x) => x,
        Err(e) => {
            return Err(e);
        },
    };
    proof {
        lemma_date_time_advances(input@, pos as int);
    }
    let p1 = ws(input, p);
    match level(input, p1) {
        Ok((l, le)) => {
            let p2 = ws(input, le);
            proof {
                lemma_tag_spec_bounds(input@, p2 as int);
            }
            let (tag, p3) = tag_part(input, p2);
            Ok((ts, Some(l), tag, p3))
        },
        Err(ParseError::Mismatch) => {
            proof {
                lemma_tag_spec_bounds(input@, p1 as int);
            }
            let (tag, p3) = tag_part(input, p1);
            Ok((ts, None, tag, p3))
        },
        Err(e) => Err(e),
    }
}

/// A successful timestamp consumes at least one character.
pub proof fn lemma_date_time_advances(s: Seq<char>, pos: int)
    requires
        0 <= pos <= s.len(),
    ensures
        match date_time_spec(s, pos, Option::None, '/', ' ', ':', Option::Some(':'), Option::None) {
            PRes::Parsed { v, end } => pos < end <= s.len(),
            PRes::Failed { .. } => true,
        },
{
    lemma_span_bounds(s, pos, CharClass::Digit);
    let ye = span_end(s, pos, CharClass::Digit);
    if 0 <= ye + 1 <= s.len() {
        let p = ye + 1;
        lemma_span_bounds(s, p, CharClass::Digit);
        let me = span_end(s, p, CharClass::Digit);
        if 0 <= me + 1 <= s.len() {
            let ds = me + 1;
            lemma_span_bounds(s, ds, CharClass::Digit);
            let de = span_end(s, ds, CharClass::Digit);
            if 0 <= de + 1 <= s.len() {
                let hs = de + 1;
                lemma_span_bounds(s, hs, CharClass::Digit);
                let he = span_end(s, hs, CharClass::Digit);
                if 0 <= he + 1 <= s.len() {
                    let mns = he + 1;
                    lemma_span_bounds(s, mns, CharClass::Digit);
                    let mne = span_end(s, mns, CharClass::Digit);
                    if 0 <= mne + 1 <= s.len() {
                        let ss = mne + 1;
                        lemma_span_bounds(s, ss, CharClass::Digit);
                        let se = span_end(s, ss, CharClass::Digit);
                        if 0 <= se + 1 <= s.len() {
                            lemma_span_bounds(s, se + 1, CharClass::Digit);
                        }
                    }
                }
            }
        }
    }
}

/// A recognized metadata consumes at least one character, and never stops
/// past the end.
pub proof fn lemma_metadata_bounds(s: Seq<char>, pos: int)
    requires
        0 <= pos <= s.len(),
    ensures
        match metadata_spec(s, pos) {
            PRes::Parsed { v, end } => pos < end <= s.len(),
            PRes::Failed { .. } => true,
        },
{
    lemma_date_time_advances(s, pos);
    match date_time_spec(s, pos, Option::None, '/', ' ', ':', Option::Some(':'), Option::None) {
        PRes::Parsed { v: ts, end: p } => {
            lemma_span_bounds(s, p, CharClass::HorizontalSpace);
            let p1 = span_end(s, p, CharClass::HorizontalSpace);
            lemma_span_bounds(s, p1, CharClass::SeverityGlyph);
            match level_spec(s, p1) {
                PRes::Parsed { v: l, end: le } => {
                    lemma_span_bounds(s, le, CharClass::HorizontalSpace);
                    let p2 = span_end(s, le, CharClass::HorizontalSpace);
                    lemma_tag_spec_bounds(s, p2);
                },
                PRes::Failed { .. } => {
                    lemma_tag_spec_bounds(s, p1);
                },
            }
        },
        PRes::Failed { .. } => {},
    }
}

/// A recognized tag stops within the text, past its opening bracket.
pub proof fn lemma_tag_spec_bounds(s: Seq<char>, pos: int)
    requires
        0 <= pos <= s.len(),
    ensures
        match tag_spec(s, pos) {
            Option::Some((t, end)) => pos < end <= s.len(),
            Option::None => true,
        },
{
    if tag1(s, pos, '[') {
        lemma_span_bounds(s, pos + 1, CharClass::NotColon);
        let fe = span_end(s, pos + 1, CharClass::NotColon);
        if fe < s.len() {
            let ls = fe + 1;
            lemma_span_bounds(s, ls, CharClass::NotSpaceBracket);
            let le = span_end(s, ls, CharClass::NotSpaceBracket);
            if le > ls {
                lemma_span_bounds(s, le, CharClass::HorizontalSpace);
                let sy = span_end(s, le, CharClass::HorizontalSpace);
                lemma_find2_props(s, sy, ']', ':');
                lemma_find2_props(s, sy, ']', ' ');
            }
        }
    }
}


/// The lines of a message body, captured one per line until the position
/// where a record's metadata would match, or the end of the input. Each line
/// is the text up to the next newline (the newline itself is consumed but
/// not kept). A fatal metadata failure inside the lookahead is the body's
/// failure.
pub open spec fn msg_lines(s: Seq<char>, pos: int) -> PRes<Seq<Seq<char>>>
    decreases s.len() - pos,
        when 0 <= pos <= s.len()
        via msg_lines_decreases
{
    match metadata_spec(s, pos) {
        PRes::Parsed { .. } => PRes::Parsed { v: Seq::empty(), end: pos },
        PRes::Failed { e } => {
            if e != ParseError::Mismatch {
                PRes::Failed { e }
            } else if pos == s.len() {
                PRes::Parsed { v: Seq::empty(), end: pos }
            } else {
                let le = span_end(s, pos, CharClass::NotNewline);
                let line = s.subrange(pos, le);
                let nxt = if le < s.len() {
                    le + 1
                } else {
                    le
                };
                match msg_lines(s, nxt) {
                    PRes::Parsed { v, end } => PRes::Parsed { v: seq![line] + v, end },
                    PRes::Failed { e } => PRes::Failed { e },
                }
            }
        },
    }
}

#[via_fn]
proof fn msg_lines_decreases(s: Seq<char>, pos: int) {
    if 0 <= pos <= s.len() {
        lemma_span_bounds(s, pos, CharClass::NotNewline);
    }
}

/// A message body never stops before its start nor past the end.
pub proof fn lemma_msg_lines_bounds(s: Seq<char>, pos: int)
    requires
        0 <= pos <= s.len(),
    ensures
        match msg_lines(s, pos) {
            PRes::Parsed { v, end } => pos <= end <= s.len(),
            PRes::Failed { .. } => true,
        },
    decreases s.len() - pos,
{
    match metadata_spec(s, pos) {
        PRes::Parsed { .. } => {},
        PRes::Failed { e } => {
            if e == ParseError::Mismatch && pos < s.len() {
                lemma_span_bounds(s, pos, CharClass::NotNewline);
                let le = span_end(s, pos, CharClass::NotNewline);
                let nxt = if le < s.len() {
                    le + 1
                } else {
                    le
                };
                lemma_msg_lines_bounds(s, nxt);
            }
        },
    }
}

/// The captured lines joined with a single newline between them.
pub open spec fn join_lines(ls: Seq<Seq<char>>) -> Seq<char>
    decreases ls.len(),
{
    if ls.len() == 0 {
        Seq::empty()
    } else if ls.len() == 1 {
        ls[0]
    } else {
        ls[0] + seq!['\n'] + join_lines(ls.drop_first())
    }
}

proof fn lemma_join_snoc(ls: Seq<Seq<char>>, l: Seq<char>)
    ensures
        join_lines(ls.push(l)) == if ls.len() == 0 {
            l
        } else {
            join_lines(ls) + seq!['\n'] + l
        },
    decreases ls.len(),
{
    let all = ls.push(l);
    if ls.len() == 0 {
        assert(all.len() == 1);
        assert(all[0] == l);
    } else {
        assert(all.len() >= 2);
        assert(all[0] == ls[0]);
        assert(all.drop_first() =~= ls.drop_first().push(l));
        lemma_join_snoc(ls.drop_first(), l);
        if ls.len() == 1 {
            assert(ls.drop_first().len() == 0);
            assert(join_lines(all) == ls[0] + seq!['\n'] + l);
        } else {
            assert(join_lines(all) == ls[0] + seq!['\n'] + (join_lines(ls.drop_first())
                + seq!['\n'] + l));
            assert(ls[0] + seq!['\n'] + (join_lines(ls.drop_first()) + seq!['\n'] + l) =~= (ls[0]
                + seq!['\n'] + join_lines(ls.drop_first())) + seq!['\n'] + l);
        }
    }
}

/// Capture a message body: lines up to the next record's metadata or the end
/// of the input, joined with single newlines.
pub fn message(input: &Vec<char>, pos: usize) -> (r: Result<(String, usize), ParseError>)
    requires
        pos <= input@.len(),
    ensures
        match r {
            Ok((m, end)) => pos <= end <= input@.len() && (match msg_lines(input@, pos as int) {
                PRes::Parsed { v, end: e } => m@ == join_lines(v) && end == e,
                PRes::Failed { .. } => false,
            }),
            Err(e) => msg_lines(input@, pos as int) == (PRes::<Seq<Seq<char>>>::Failed { e }),
        },
{
    let mut acc: Vec<char> = Vec::new();
    let mut cur = pos;
    let mut first = true;
    let ghost mut done: Seq<Seq<char>> = Seq::empty();
    let mut stop = false;
    while !stop
        invariant
            pos <= cur <= input@.len(),
            first == (done.len() == 0),
            acc@ == join_lines(done),
            (match msg_lines(input@, cur as int) {
                PRes::Parsed { v, end } => msg_lines(input@, pos as int) == (PRes::Parsed {
                    v: done + v,
                    end,
                }),
                PRes::Failed { e } => msg_lines(input@, pos as int) == (PRes::<
                    Seq<Seq<char>>,
                >::Failed { e }),
            }),
            stop ==> msg_lines(input@, cur as int) == (PRes::<Seq<Seq<char>>>::Parsed {
                v: Seq::empty(),
                end: cur as int,
            }),
        decreases input@.len() - cur, (if stop {
            0int
        } else {
            1int
        }),
    {
        match metadata(input, cur) {
            Ok(_) => {
                stop = true;
            },
            Err(err) => {
                match err {
                    ParseError::Mismatch => {
                        if cur == input.len() {
                            stop = true;
                        } else {
                            let le = scan(input, cur, CharClass::NotNewline);
                            let ghost line = input@.subrange(cur as int, le as int);
                            let ghost old_done = done;
                            let ghost old_acc = acc@;
                            if !first {
                                acc.push('\n');
                            }
                            let mut piece = copy_range(input, cur, le);
                            acc.append(&mut piece);
                            proof {
                                lemma_join_snoc(old_done, line);
                                done = old_done.push(line);
                                if old_done.len() == 0 {
                                    assert(acc@ =~= line);
                                } else {
                                    assert(old_acc.push('\n') =~= old_acc + seq!['\n']);
                                    assert(acc@ =~= (join_lines(old_done) + seq!['\n']) + line);
                                    assert(join_lines(old_done) + seq!['\n'] + line =~= (join_lines(
                                        old_done,
                                    ) + seq!['\n']) + line);
                                }
                            }
                            let nxt = if le < input.len() {
                                le + 1
                            } else {
                                le
                            };
                            proof {
                                let s = input@;
                                match msg_lines(s, nxt as int) {
                                    PRes::Parsed { v, end } => {
                                        assert(msg_lines(s, cur as int) == (PRes::Parsed {
                                            v: seq![line] + v,
                                            end,
                                        }));
                                        assert(old_done + (seq![line] + v) =~= old_done.push(line)
                                            + v);
                                    },
                                    PRes::Failed { e } => {
                                        assert(msg_lines(s, cur as int) == (PRes::<
                                            Seq<Seq<char>>,
                                        >::Failed { e }));
                                    },
                                }
                            }
                            first = false;
                            cur = nxt;
                        }
                    },
                    _ => {
                        return Err(err);
                    },
                }
            },
        }
    }
    proof {
        assert(done + Seq::<Seq<char>>::empty() =~= done);
    }
    Ok((chars_to_string(&acc), cur))
}

/// One log record: its metadata, horizontal space, and its message body,
/// which ends exactly where the next record's metadata would match. The
/// record carries the rendered timestamp, the optional severity, the
/// platform tag and the joined message.
pub open spec fn log_entry_spec(s: Seq<char>, pos: int) -> PRes<SLogEntry> {
    match metadata_spec(s, pos) {
        PRes::Failed { e } => PRes::Failed { e },
        PRes::Parsed { v: md, end: p } => {
            let p1 = span_end(s, p, CharClass::HorizontalSpace);
            match msg_lines(s, p1) {
                PRes::Failed { e } => PRes::Failed { e },
                PRes::Parsed { v: ls, end } => PRes::Parsed {
                    v: SLogEntry {
                        timestamp: timestamp_text(md.ts),
                        level: md.level,
                        meta: SPlatformMetadata::Ios(md.tag),
                        message: join_lines(ls),
                    },
                    end,
                },
            }
        },
    }
}

/// A recognized record consumes at least one character.
pub proof fn lemma_log_entry_bounds(s: Seq<char>, pos: int)
    requires
        0 <= pos <= s.len(),
    ensures
        match log_entry_spec(s, pos) {
            PRes::Parsed { v, end } => pos < end <= s.len(),
            PRes::Failed { .. } => true,
        },
{
    lemma_metadata_bounds(s, pos);
    match metadata_spec(s, pos) {
        PRes::Parsed { v: md, end: p } => {
            lemma_span_bounds(s, p, CharClass::HorizontalSpace);
            lemma_msg_lines_bounds(s, span_end(s, p, CharClass::HorizontalSpace));
        },
        PRes::Failed { .. } => {},
    }
}

/// Recognize one log record.
pub fn log_entry(input: &Vec<char>, pos: usize) -> (r: Result<(LogEntry, usize), ParseError>)
    requires
        pos <= input@.len(),
    ensures
        match r {
            Ok((entry, end)) => log_entry_spec(input@, pos as int) == (PRes::Parsed {
                v: entry@,
                end: end as int,
            }) && pos < end <= input@.len(),
            Err(e) => log_entry_spec(input@, pos as int) == (PRes::<SLogEntry>::Failed { e }),
        },
{
    let (ts, lvl, tag, p) = match metadata(input, pos) {
        Ok(x) => x,
        Err(e) => {
            return Err(e);
        },
    };
    let p1 = ws(input, p);
    let (msg, end) = match message(input, p1) {
        Ok(x) => x,
        Err(e) => {
            return Err(e);
        },
    };
    Ok(
        (
            LogEntry {
                timestamp: render_timestamp(&ts),
                level: lvl,
                meta: PlatformMetadata::Ios(tag),
                message: msg,
            },
            end,
        ),
    )
}

/// The records recognized one after another from `pos`: collection stops at
/// the first mismatch (leaving the rest of the input unconsumed); a fatal
/// failure inside any record is the whole run's failure.
pub open spec fn log_entries_spec(s: Seq<char>, pos: int) -> PRes<Seq<SLogEntry>>
    decreases s.len() - pos,
        when 0 <= pos <= s.len()
        via log_entries_decreases
{
    match log_entry_spec(s, pos) {
        PRes::Parsed { v, end } => match log_entries_spec(s, end) {
            PRes::Parsed { v: rest, end: e2 } => PRes::Parsed { v: seq![v] + rest, end: e2 },
            PRes::Failed { e } => PRes::Failed { e },
        },
        PRes::Failed { e } => {
            if e == ParseError::Mismatch {
                PRes::Parsed { v: Seq::empty(), end: pos }
            } else {
                PRes::Failed { e }
            }
        },
    }
}

#[via_fn]
proof fn log_entries_decreases(s: Seq<char>, pos: int) {
    if 0 <= pos <= s.len() {
        lemma_log_entry_bounds(s, pos);
    }
}

/// The whole-file grammar of this dialect: leading whitespace, then records
/// until the first position where no record matches. There is no
/// configuration area: the result holds no information sections and exactly
/// one synthetic logs section, named `Logs`, with the records in input
/// order and no subsections.
pub open spec fn content_spec(s: Seq<char>) -> PRes<SContent> {
    let p0 = span_end(s, 0, CharClass::AnySpace);
    match log_entries_spec(s, p0) {
        PRes::Failed { e } => PRes::Failed { e },
        PRes::Parsed { v: es, end } => PRes::Parsed {
            v: SContent {
                information: Seq::empty(),
                logs: seq![
                    SSection::<SLogEntry> {
                        name: "Logs"@,
                        content: es,
                        subsections: Seq::empty(),
                    }
                ],
            },
            end,
        },
    }
}

/// Parse one file of this dialect; hands back the document and the position
/// where collection stopped (the whole input, for well-formed files).
pub fn content(input: &Vec<char>) -> (r: Result<(Content, usize), ParseError>)
    ensures
        match r {
            Ok((c, end)) => content_spec(input@) == (PRes::Parsed { v: c@, end: end as int })
                && end <= input@.len(),
            Err(e) => content_spec(input@) == (PRes::<SContent>::Failed { e }),
        },
{
    let p0 = multispaced0(input, 0);
    let mut entries: Vec<LogEntry> = Vec::new();
    let mut cur = p0;
    let ghost mut done: Seq<SLogEntry> = Seq::empty();
    let mut stop = false;
    while !stop
        invariant
            p0 <= cur <= input@.len(),
            p0 == span_end(input@, 0, CharClass::AnySpace),
            entries@.map_values(|x: LogEntry| x@) == done,
            (match log_entries_spec(input@, cur as int) {
                PRes::Parsed { v, end } => log_entries_spec(input@, p0 as int) == (PRes::Parsed {
                    v: done + v,
                    end,
                }),
                PRes::Failed { e } => log_entries_spec(input@, p0 as int) == (PRes::<
                    Seq<SLogEntry>,
                >::Failed { e }),
            }),
            stop ==> log_entries_spec(input@, cur as int) == (PRes::<Seq<SLogEntry>>::Parsed {
                v: Seq::empty(),
                end: cur as int,
            }),
        decreases input@.len() - cur, (if stop {
            0int
        } else {
            1int
        }),
    {
        match log_entry(input, cur) {
            Ok((entry, e)) => {
                proof {
                    let tail = log_entries_spec(input@, e as int);
                    match tail {
                        PRes::Parsed { v, end } => {
                            assert(log_entries_spec(input@, cur as int) == (PRes::Parsed {
                                v: seq![entry@] + v,
                                end,
                            }));
                            assert(done + (seq![entry@] + v) =~= done.push(entry@) + v);
                        },
                        PRes::Failed { e: e2 } => {
                            assert(log_entries_spec(input@, cur as int) == (PRes::<
                                Seq<SLogEntry>,
                            >::Failed { e: e2 }));
                        },
                    }
                }
                let ghost old_entries = entries@;
                let ghost old_done = done;
                entries.push(entry);
                proof {
                    done = old_done.push(entry@);
                    assert(entries@ == old_entries.push(entry));
                    assert(entries@.map_values(|x: LogEntry| x@) =~= old_entries.map_values(
                        |x: LogEntry| x@,
                    ).push(entry@));
                }
                cur = e;
            },
            Err(err) => {
                match err {
                    ParseError::Mismatch => {
                        stop = true;
                    },
                    _ => {
                        return Err(err);
                    },
                }
            },
        }
    }
    proof {
        assert(done + Seq::<SLogEntry>::empty() =~= done);
    }
    let mut logs: Vec<Section<LogEntry>> = Vec::new();
    logs.push(
        Section { name: "Logs".to_owned(), content: entries, subsections: Vec::new() },
    );
    let c = Content { information: Vec::new(), logs };
    proof {
        assert(c@.information =~= Seq::<crate::model::SSection<crate::model::SInfoEntry>>::empty());
        assert(c.logs@.len() == 1);
        assert(c@.logs =~= seq![c.logs@[0]@]);
        assert(c.logs@[0]@.subsections =~= Seq::<SSection<SLogEntry>>::empty());
        assert(c.logs@[0]@.content =~= done);
        assert(c@.logs[0] =~~= SSection::<SLogEntry> {
            name: "Logs"@,
            content: done,
            subsections: Seq::empty(),
        });
        assert(c@ =~~= SContent {
            information: Seq::empty(),
            logs: seq![
                SSection::<SLogEntry> { name: "Logs"@, content: done, subsections: Seq::empty() }
            ],
        });
    }
    Ok((c, cur))
}


/// Law: the severity table is a bijection between the five glyph runs and
/// the five levels: each glyph decodes to its own level, the five levels are
/// pairwise distinct, and two runs that decode to the same level are the
/// same run.
pub proof fn lemma_severity_table_bijective()
    ensures
        glyph_level(seq!['\u{1F499}']) == Option::Some(LogLevel::Verbose),
        glyph_level(seq!['\u{1F49A}']) == Option::Some(LogLevel::Debug),
        glyph_level(seq!['\u{1F49B}']) == Option::Some(LogLevel::Info),
        glyph_level(seq!['\u{1F9E1}']) == Option::Some(LogLevel::Warn),
        glyph_level(seq!['\u{2764}', '\u{FE0F}']) == Option::Some(LogLevel::Error),
        forall|r1: Seq<char>, r2: Seq<char>|
            #[trigger] glyph_level(r1) is Some && glyph_level(r1) == #[trigger] glyph_level(r2)
                ==> r1 == r2,
{
    assert forall|r1: Seq<char>, r2: Seq<char>|
        #[trigger] glyph_level(r1) is Some && glyph_level(r1) == #[trigger] glyph_level(
            r2,
        ) implies r1 == r2 by {
        assert(r1 =~= r2);
    }
}

/// Law: the assembler yields no information sections and exactly one logs
/// section, named `Logs`, without subsections, holding precisely the records
/// recognized after the leading whitespace, in input order — however much
/// blank space precedes the first record.
pub proof fn lemma_assembler_single_section(s: Seq<char>)
    ensures
        match content_spec(s) {
            PRes::Parsed { v, end } => {
                &&& v.information.len() == 0
                &&& v.logs.len() == 1
                &&& v.logs[0].name == "Logs"@
                &&& v.logs[0].subsections.len() == 0
                &&& (match log_entries_spec(s, span_end(s, 0, CharClass::AnySpace)) {
                    PRes::Parsed { v: es, end: e2 } => v.logs[0].content == es && end == e2,
                    PRes::Failed { .. } => false,
                })
            },
            PRes::Failed { e } => log_entries_spec(s, span_end(s, 0, CharClass::AnySpace)) == (
            PRes::<Seq<SLogEntry>>::Failed { e }),
        },
{
    lemma_span_bounds(s, 0, CharClass::AnySpace);
}

/// Law: the assembler keeps document order: the record recognized at a
/// position stands first, before all the records recognized after it.
pub proof fn lemma_assembler_preserves_order(s: Seq<char>, pos: int)
    requires
        0 <= pos <= s.len(),
    ensures
        match log_entry_spec(s, pos) {
            PRes::Parsed { v, end } => (match log_entries_spec(s, end) {
                PRes::Parsed { v: rest, end: e2 } => log_entries_spec(s, pos) == (PRes::Parsed {
                    v: seq![v] + rest,
                    end: e2,
                }),
                PRes::Failed { e } => log_entries_spec(s, pos) == (PRes::<Seq<SLogEntry>>::Failed {
                    e,
                }),
            }),
            PRes::Failed { .. } => true,
        },
{
    lemma_log_entry_bounds(s, pos);
}

} // verus!
