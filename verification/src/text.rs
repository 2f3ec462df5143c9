//! Character-level scanning primitives: class spans, two-character searches,
//! digit-run evaluation and decimal rendering. Every grammar rule is built on
//! these, and their specifications are the vocabulary of the higher contracts.
use vstd::prelude::*;
use vstd::string::StrSliceExecFns;

verus! {

/// The character classes the grammar scans over.
#[derive(Clone, Copy, PartialEq, Eq, Structural, Debug)]
pub enum CharClass {
    /// `' '` or `'\t'`.
    HorizontalSpace,
    /// `' '`, `'\t'`, `'\n'` or `'\r'`.
    AnySpace,
    /// `'0'` through `'9'`.
    Digit,
    /// The section-header decoration character `'='`.
    Decoration,
    /// Anything but `'='`.
    NotDecoration,
    /// Anything but `'\n'`.
    NotNewline,
    /// Anything but `'\n'` and `'|'`.
    NotNewlinePipe,
    /// Anything but `':'` and `'\n'`.
    NotColonNewline,
    /// Anything but `' '` and `']'`.
    NotSpaceBracket,
    /// Anything but `':'`.
    NotColon,
    /// The severity glyph characters of the mobile log dialect: the five
    /// coloured hearts, plus the variation selector that the red heart
    /// carries.
    SeverityGlyph,
}

pub open spec fn in_class(cls: CharClass, c: char) -> bool {
    match cls {
        CharClass::HorizontalSpace => c == ' ' || c == '\t',
        CharClass::AnySpace => c == ' ' || c == '\t' || c == '\n' || c == '\r',
        CharClass::Digit => 48 <= c as u32 && c as u32 <= 57,
        CharClass::Decoration => c == '=',
        CharClass::NotDecoration => c != '=',
        CharClass::NotNewline => c != '\n',
        CharClass::NotNewlinePipe => c != '\n' && c != '|',
        CharClass::NotColonNewline => c != ':' && c != '\n',
        CharClass::NotSpaceBracket => c != ' ' && c != ']',
        CharClass::NotColon => c != ':',
        CharClass::SeverityGlyph => c == '\u{1F499}' || c == '\u{1F49A}' || c == '\u{1F49B}' || c
            == '\u{1F9E1}' || c == '\u{2764}' || c == '\u{FE0F}',
    }
}

/// First position at or after `pos` whose character leaves the class, or the
/// end of the text.
pub open spec fn span_end(s: Seq<char>, pos: int, cls: CharClass) -> int
    decreases s.len() - pos,
{
    if pos < 0 || pos >= s.len() {
        pos
    } else if in_class(cls, s[pos]) {
        span_end(s, pos + 1, cls)
    } else {
        pos
    }
}

pub proof fn lemma_span_bounds(s: Seq<char>, pos: int, cls: CharClass)
    requires
        0 <= pos <= s.len(),
    ensures
        pos <= span_end(s, pos, cls) <= s.len(),
        forall|i: int| pos <= i < span_end(s, pos, cls) ==> in_class(cls, s[i]),
        span_end(s, pos, cls) < s.len() ==> !in_class(cls, s[span_end(s, pos, cls)]),
    decreases s.len() - pos,
{
    if pos < s.len() && in_class(cls, s[pos]) {
        lemma_span_bounds(s, pos + 1, cls);
    }
}

/// A span is pinned down by any witness position `k`: all of `[pos, k)` in the
/// class and `k` (if inside the text) outside it.
pub proof fn lemma_span_is(s: Seq<char>, pos: int, k: int, cls: CharClass)
    requires
        0 <= pos <= k <= s.len(),
        forall|i: int| pos <= i < k ==> in_class(cls, s[i]),
        k < s.len() ==> !in_class(cls, s[k]),
    ensures
        span_end(s, pos, cls) == k,
    decreases k - pos,
{
    if pos < k {
        lemma_span_is(s, pos + 1, k, cls);
    }
}

fn class_member(cls: CharClass, c: char) -> (b: bool)
    ensures
        b == in_class(cls, c),
{
    match cls {
        CharClass::HorizontalSpace => c == ' ' || c == '\t',
        CharClass::AnySpace => c == ' ' || c == '\t' || c == '\n' || c == '\r',
        CharClass::Digit => {
            let u = c as u32;
            48 <= u && u <= 57
        },
        CharClass::Decoration => c == '=',
        CharClass::NotDecoration => c != '=',
        CharClass::NotNewline => c != '\n',
        CharClass::NotNewlinePipe => c != '\n' && c != '|',
        CharClass::NotColonNewline => c != ':' && c != '\n',
        CharClass::NotSpaceBracket => c != ' ' && c != ']',
        CharClass::NotColon => c != ':',
        CharClass::SeverityGlyph => c == '\u{1F499}' || c == '\u{1F49A}' || c == '\u{1F49B}' || c
            == '\u{1F9E1}' || c == '\u{2764}' || c == '\u{FE0F}',
    }
}

/// Scan forward from `pos` while the characters stay in the class.
pub fn scan(input: &Vec<char>, pos: usize, cls: CharClass) -> (end: usize)
    requires
        pos <= input@.len(),
    ensures
        end == span_end(input@, pos as int, cls),
        pos <= end <= input@.len(),
        forall|i: int| pos <= i < end ==> in_class(cls, #[trigger] input@[i]),
        end < input@.len() ==> !in_class(cls, input@[end as int]),
{
    let mut i = pos;
    loop
        invariant
            pos <= i <= input@.len(),
            span_end(input@, pos as int, cls) == span_end(input@, i as int, cls),
        decreases input@.len() - i,
    {
        if i == input.len() {
            proof {
                lemma_span_bounds(input@, pos as int, cls);
            }
            return i;
        }
        if !class_member(cls, input[i]) {
            proof {
                lemma_span_bounds(input@, pos as int, cls);
            }
            return i;
        }
        i = i + 1;
    }
}

/// First position at or after `pos` where the two-character pattern `c1 c2`
/// occurs, if it occurs at all.
pub open spec fn find2(s: Seq<char>, pos: int, c1: char, c2: char) -> Option<int>
    decreases s.len() - pos,
{
    if pos < 0 || pos + 2 > s.len() {
        None
    } else if s[pos] == c1 && s[pos + 1] == c2 {
        Some(pos)
    } else {
        find2(s, pos + 1, c1, c2)
    }
}

pub proof fn lemma_find2_props(s: Seq<char>, pos: int, c1: char, c2: char)
    requires
        0 <= pos <= s.len(),
    ensures
        match find2(s, pos, c1, c2) {
            Some(q) => {
                &&& pos <= q
                &&& q + 2 <= s.len()
                &&& s[q] == c1 && s[q + 1] == c2
                &&& forall|i: int| pos <= i < q ==> !(#[trigger] s[i] == c1 && s[i + 1] == c2)
            },
            None => forall|i: int|
                pos <= i && i + 2 <= s.len() ==> !(#[trigger] s[i] == c1 && s[i + 1] == c2),
        },
    decreases s.len() - pos,
{
    if pos + 2 <= s.len() && !(s[pos] == c1 && s[pos + 1] == c2) {
        lemma_find2_props(s, pos + 1, c1, c2);
    }
}

/// Search for the two-character pattern `c1 c2` from `pos`.
pub fn search2(input: &Vec<char>, pos: usize, c1: char, c2: char) -> (r: Option<usize>)
    requires
        pos <= input@.len(),
    ensures
        match r {
            Some(q) => find2(input@, pos as int, c1, c2) == Some(q as int) && pos <= q && q + 2
                <= input@.len(),
            None => find2(input@, pos as int, c1, c2) is None,
        },
{
    let mut i = pos;
    loop
        invariant
            pos <= i <= input@.len(),
            find2(input@, pos as int, c1, c2) == find2(input@, i as int, c1, c2),
        decreases input@.len() - i,
    {
        if input.len() - i < 2 {
            return None;
        }
        if input[i] == c1 && input[i + 1] == c2 {
            return Some(i);
        }
        i = i + 1;
    }
}

/// Numeric value of a decimal digit character.
pub open spec fn digit_val(c: char) -> int {
    c as u32 - 48
}

/// Value of the digit run `s[start .. end]` read as a decimal number.
pub open spec fn digits_val(s: Seq<char>, start: int, end: int) -> int
    decreases end - start,
{
    if end <= start {
        0
    } else {
        digits_val(s, start, end - 1) * 10 + digit_val(s[end - 1])
    }
}

pub proof fn lemma_digits_val_nonneg(s: Seq<char>, start: int, end: int)
    requires
        forall|i: int| start <= i < end ==> in_class(CharClass::Digit, #[trigger] s[i]),
    ensures
        digits_val(s, start, end) >= 0,
    decreases end - start,
{
    if end > start {
        lemma_digits_val_nonneg(s, start, end - 1);
    }
}

pub proof fn lemma_digits_val_mono(s: Seq<char>, start: int, i: int, j: int)
    requires
        start <= i <= j,
        forall|k: int| start <= k < j ==> in_class(CharClass::Digit, #[trigger] s[k]),
    ensures
        digits_val(s, start, j) >= digits_val(s, start, i),
    decreases j - i,
{
    if i < j {
        lemma_digits_val_mono(s, start, i, j - 1);
        lemma_digits_val_nonneg(s, start, j - 1);
    }
}

/// Evaluate the digit run `input[start .. end]`; `None` when the value does
/// not fit in a `u32`.
pub fn eval_digits(input: &Vec<char>, start: usize, end: usize) -> (r: Option<u32>)
    requires
        start <= end <= input@.len(),
        forall|i: int| start <= i < end ==> in_class(CharClass::Digit, #[trigger] input@[i]),
    ensures
        match r {
            Some(v) => v == digits_val(input@, start as int, end as int) && digits_val(
                input@,
                start as int,
                end as int,
            ) <= u32::MAX,
            None => digits_val(input@, start as int, end as int) > u32::MAX,
        },
{
    let mut i = start;
    let mut acc: u32 = 0;
    while i < end
        invariant
            start <= i <= end <= input@.len(),
            forall|k: int| start <= k < end ==> in_class(CharClass::Digit, #[trigger] input@[k]),
            acc == digits_val(input@, start as int, i as int),
        decreases end - i,
    {
        let c = input[i];
        proof {
            assert(in_class(CharClass::Digit, input@[i as int]));
        }
        let d: u32 = c as u32 - 48;
        assert(d == digit_val(input@[i as int]) && d <= 9);
        let limit = (u32::MAX - d) / 10;
        proof {
            let m = u32::MAX as int;
            vstd::arithmetic::div_mod::lemma_fundamental_div_mod(m - d, 10);
            vstd::arithmetic::div_mod::lemma_mod_bound(m - d, 10);
        }
        if acc > limit {
            proof {
                let m = u32::MAX as int;
                let q = (m - d) / 10;
                let r = (m - d) % 10;
                assert(acc * 10 + d > m) by (nonlinear_arith)
                    requires
                        acc > q,
                        m - d == 10 * q + r,
                        0 <= r < 10,
                        d >= 0,
                ;
                assert(digits_val(input@, start as int, i as int + 1) == acc * 10 + d);
                lemma_digits_val_mono(input@, start as int, i as int + 1, end as int);
            }
            return None;
        }
        proof {
            let m = u32::MAX as int;
            let q = (m - d) / 10;
            let r = (m - d) % 10;
            assert(acc * 10 + d <= m) by (nonlinear_arith)
                requires
                    acc <= q,
                    m - d == 10 * q + r,
                    0 <= r < 10,
                    d >= 0,
            ;
        }
        acc = acc * 10 + d;
        i = i + 1;
    }
    Some(acc)
}

/// The decimal digit character for `d` (meaningful for `0 <= d <= 9`).
pub open spec fn digit_char(d: int) -> char {
    if d == 0 {
        '0'
    } else if d == 1 {
        '1'
    } else if d == 2 {
        '2'
    } else if d == 3 {
        '3'
    } else if d == 4 {
        '4'
    } else if d == 5 {
        '5'
    } else if d == 6 {
        '6'
    } else if d == 7 {
        '7'
    } else if d == 8 {
        '8'
    } else {
        '9'
    }
}

/// Decimal rendering of `n`, most significant digit first, no leading zeros.
pub open spec fn dec_rep(n: int) -> Seq<char>
    decreases n,
{
    if n < 10 {
        seq![digit_char(n)]
    } else {
        dec_rep(n / 10).push(digit_char(n % 10))
    }
}

/// `k` zero characters.
pub open spec fn zeros(k: int) -> Seq<char>
    decreases k,
{
    if k <= 0 {
        Seq::empty()
    } else {
        seq!['0'] + zeros(k - 1)
    }
}

/// Decimal rendering of `n` left-padded with zeros to at least `w` characters.
pub open spec fn dec_pad(n: int, w: int) -> Seq<char> {
    let d = dec_rep(n);
    if d.len() >= w {
        d
    } else {
        zeros(w - d.len()) + d
    }
}

fn digit_char_of(d: u32) -> (c: char)
    requires
        d <= 9,
    ensures
        c == digit_char(d as int),
{
    if d == 0 {
        '0'
    } else if d == 1 {
        '1'
    } else if d == 2 {
        '2'
    } else if d == 3 {
        '3'
    } else if d == 4 {
        '4'
    } else if d == 5 {
        '5'
    } else if d == 6 {
        '6'
    } else if d == 7 {
        '7'
    } else if d == 8 {
        '8'
    } else {
        '9'
    }
}

fn dec_digits(n: u32) -> (v: Vec<char>)
    ensures
        v@ == dec_rep(n as int),
    decreases n,
{
    if n < 10 {
        let mut v: Vec<char> = Vec::new();
        v.push(digit_char_of(n));
        proof {
            assert(v@ =~= dec_rep(n as int));
        }
        v
    } else {
        let mut v = dec_digits(n / 10);
        v.push(digit_char_of(n % 10));
        proof {
            assert(v@ =~= dec_rep(n as int));
        }
        v
    }
}

/// Render `n` in decimal, zero-padded on the left to at least `w` characters.
pub fn render_padded(n: u32, w: usize) -> (v: Vec<char>)
    ensures
        v@ == dec_pad(n as int, w as int),
{
    let digits = dec_digits(n);
    let mut v: Vec<char> = Vec::new();
    let mut k = w;
    while k > digits.len()
        invariant
            v@ == zeros(w as int - k as int),
            k <= w,
            digits@.len() <= k || k == w,
            digits@ == dec_rep(n as int),
        decreases k,
    {
        v.push('0');
        proof {
            assert(v@ =~= zeros(w as int - (k - 1) as int)) by {
                lemma_zeros_snoc(w as int - k as int);
            }
        }
        k = k - 1;
    }
    let mut digits = digits;
    v.append(&mut digits);
    proof {
        if dec_rep(n as int).len() >= w as int {
            assert(w as int - k as int == 0 || k == dec_rep(n as int).len());
            assert(v@ =~= dec_pad(n as int, w as int));
        } else {
            assert(v@ =~= dec_pad(n as int, w as int));
        }
    }
    v
}

proof fn lemma_zeros_snoc(k: int)
    requires
        k >= 0,
    ensures
        zeros(k).push('0') =~= zeros(k + 1),
    decreases k,
{
    if k > 0 {
        lemma_zeros_snoc(k - 1);
        assert(zeros(k) == seq!['0'] + zeros(k - 1));
        assert(zeros(k).push('0') =~= seq!['0'] + zeros(k - 1).push('0'));
    }
}

/// Copy `input[start .. end]` into a fresh vector.
pub fn copy_range(input: &Vec<char>, start: usize, end: usize) -> (v: Vec<char>)
    requires
        start <= end <= input@.len(),
    ensures
        v@ == input@.subrange(start as int, end as int),
{
    let mut v: Vec<char> = Vec::new();
    let mut i = start;
    while i < end
        invariant
            start <= i <= end <= input@.len(),
            v@ == input@.subrange(start as int, i as int),
        decreases end - i,
    {
        v.push(input[i]);
        proof {
            assert(v@ =~= input@.subrange(start as int, i as int + 1));
        }
        i = i + 1;
    }
    v
}

/// Whitespace trimming over the four blank characters the grammar treats as
/// padding: the text between the first and last non-blank character.
pub open spec fn trim(s: Seq<char>) -> Seq<char> {
    let a = span_end(s, 0, CharClass::AnySpace);
    let b = rspan_start(s, s.len() as int);
    if a <= b {
        s.subrange(a, b)
    } else {
        Seq::empty()
    }
}

/// First position at or before `pos` such that everything in `[result, pos)`
/// is blank.
pub open spec fn rspan_start(s: Seq<char>, pos: int) -> int
    decreases pos,
{
    if pos <= 0 || pos > s.len() {
        pos
    } else if in_class(CharClass::AnySpace, s[pos - 1]) {
        rspan_start(s, pos - 1)
    } else {
        pos
    }
}

pub proof fn lemma_rspan_bounds(s: Seq<char>, pos: int)
    requires
        0 <= pos <= s.len(),
    ensures
        0 <= rspan_start(s, pos) <= pos,
        forall|i: int| rspan_start(s, pos) <= i < pos ==> in_class(CharClass::AnySpace, s[i]),
        rspan_start(s, pos) > 0 ==> !in_class(CharClass::AnySpace, s[rspan_start(s, pos) - 1]),
    decreases pos,
{
    if pos > 0 && in_class(CharClass::AnySpace, s[pos - 1]) {
        lemma_rspan_bounds(s, pos - 1);
    }
}

pub proof fn lemma_rspan_is(s: Seq<char>, pos: int, k: int)
    requires
        0 <= k <= pos <= s.len(),
        forall|i: int| k <= i < pos ==> in_class(CharClass::AnySpace, s[i]),
        k > 0 ==> !in_class(CharClass::AnySpace, s[k - 1]),
    ensures
        rspan_start(s, pos) == k,
    decreases pos - k,
{
    if k < pos {
        lemma_rspan_is(s, pos - 1, k);
    }
}

/// The trimmed copy of `input[start .. end]`.
pub fn trim_range(input: &Vec<char>, start: usize, end: usize) -> (v: Vec<char>)
    requires
        start <= end <= input@.len(),
    ensures
        v@ == trim(input@.subrange(start as int, end as int)),
{
    let ghost sub = input@.subrange(start as int, end as int);
    let mut a = start;
    while a < end && class_member(CharClass::AnySpace, input[a])
        invariant
            start <= a <= end <= input@.len(),
            sub == input@.subrange(start as int, end as int),
            forall|i: int| 0 <= i < a - start ==> in_class(CharClass::AnySpace, sub[i]),
        decreases end - a,
    {
        proof {
            assert(sub[a - start] == input@[a as int]);
        }
        a = a + 1;
    }
    proof {
        if a < end {
            assert(sub[a - start] == input@[a as int]);
        }
        lemma_span_is(sub, 0, a - start, CharClass::AnySpace);
    }
    let mut b = end;
    while b > a && class_member(CharClass::AnySpace, input[b - 1])
        invariant
            start <= a <= b <= end <= input@.len(),
            sub == input@.subrange(start as int, end as int),
            forall|i: int| b - start <= i < end - start ==> in_class(CharClass::AnySpace, sub[i]),
        decreases b,
    {
        proof {
            assert(sub[b - 1 - start] == input@[b - 1]);
        }
        b = b - 1;
    }
    let v = copy_range(input, a, b);
    proof {
        if b > a {
            assert(sub[b - 1 - start] == input@[b - 1]);
            lemma_rspan_is(sub, end as int - start as int, b as int - start as int);
            assert(v@ =~= trim(sub));
        } else {
            // everything in the range is blank
            assert(forall|i: int|
                a - start <= i < end - start ==> in_class(CharClass::AnySpace, sub[i]));
            lemma_span_bounds(sub, a - start, CharClass::AnySpace);
            lemma_span_is(sub, 0, span_end(sub, a - start, CharClass::AnySpace), CharClass::AnySpace);
            lemma_rspan_bounds(sub, end as int - start as int);
            lemma_rspan_is(sub, end as int - start as int, rspan_start(sub, end as int - start as int));
            assert(v@ =~= trim(sub));
        }
    }
    v
}

/// Relies on `String`'s `FromIterator<char>` implementation (via
/// `Iterator::collect`): the collected string holds exactly the characters of
/// the vector, in order.
#[verifier::external_body]
pub fn chars_to_string(v: &Vec<char>) -> (s: String)
    ensures
        s@ == v@,
{
    v.iter().collect()
}

/// The characters of a text, in order.
pub fn chars_of_text(s: &str) -> (v: Vec<char>)
    ensures
        v@ == s@,
{
    let n = s.unicode_len();
    let mut v: Vec<char> = Vec::new();
    let mut i: usize = 0;
    while i < n
        invariant
            i <= n,
            n == s@.len(),
            v@ == s@.subrange(0, i as int),
        decreases n - i,
    {
        v.push(s.get_char(i));
        proof {
            assert(v@ =~= s@.subrange(0, i as int + 1));
        }
        i = i + 1;
    }
    proof {
        assert(v@ =~= s@);
    }
    v
}

} // verus!
