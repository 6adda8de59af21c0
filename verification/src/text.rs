//! Character-level reading of text: whitespace, lines, tokens and fields.
//!
//! Text is read as a sequence of characters. What a function finds in it is
//! handed back as a [`Span`], a range of positions, so that a caller can
//! narrow a text step by step and cut out a string only at the end.
use vstd::prelude::*;
use vstd::std_specs::iter::IteratorSpec;

verus! {

/// A half-open range of character positions in a text.
#[derive(Clone, Copy, Debug)]
pub struct Span {
    pub start: usize,
    pub end: usize,
}

impl Span {
    /// The range lies inside a text of the given length.
    pub open spec fn fits(self, s: Seq<char>) -> bool {
        self.start <= self.end <= s.len()
    }

    /// The characters of `s` that the range covers.
    pub open spec fn of(self, s: Seq<char>) -> Seq<char> {
        s.subrange(self.start as int, self.end as int)
    }

    /// The range lies inside another one.
    pub open spec fn within(self, outer: Span) -> bool {
        outer.start <= self.start <= self.end <= outer.end
    }
}

/// Unicode's White_Space property.
pub open spec fn is_space(c: char) -> bool {
    let n = c as u32;
    ||| 0x09 <= n <= 0x0D
    ||| n == 0x20
    ||| n == 0x85
    ||| n == 0xA0
    ||| n == 0x1680
    ||| 0x2000 <= n <= 0x200A
    ||| n == 0x2028
    ||| n == 0x2029
    ||| n == 0x202F
    ||| n == 0x205F
    ||| n == 0x3000
}

/// The predicate that holds of whitespace.
pub open spec fn space() -> spec_fn(char) -> bool {
    |c: char| is_space(c)
}

/// The predicate that holds of everything but whitespace.
pub open spec fn non_space() -> spec_fn(char) -> bool {
    |c: char| !is_space(c)
}

/// The predicate that holds of the character `x` alone.
pub open spec fn exactly(x: char) -> spec_fn(char) -> bool {
    |c: char| c == x
}

/// The first position at or after `from` whose character meets `stop`, or
/// the length of `s` where there is none.
pub open spec fn find_from(s: Seq<char>, from: int, stop: spec_fn(char) -> bool) -> int
    decreases s.len() - from,
{
    if from >= s.len() {
        s.len() as int
    } else if from >= 0 && stop(s[from]) {
        from
    } else {
        find_from(s, from + 1, stop)
    }
}

/// `find_from` stays between its start and the end of the text, passes over
/// no character that meets `stop`, and halts on one that does.
pub proof fn lemma_find_from(s: Seq<char>, from: int, stop: spec_fn(char) -> bool)
    requires
        0 <= from <= s.len(),
    ensures
        from <= find_from(s, from, stop) <= s.len(),
        forall|k: int| from <= k < find_from(s, from, stop) ==> !stop(#[trigger] s[k]),
        find_from(s, from, stop) < s.len() ==> stop(s[find_from(s, from, stop)]),
    decreases s.len() - from,
{
    if from < s.len() && !stop(s[from]) {
        lemma_find_from(s, from + 1, stop);
    }
}

/// A position that nothing before it stops at, and that is the end of the text
/// or meets `stop`, is the one that `find_from` gives.
pub proof fn lemma_find_from_is(s: Seq<char>, from: int, stop: spec_fn(char) -> bool, at: int)
    requires
        0 <= from <= at <= s.len(),
        forall|k: int| from <= k < at ==> !stop(#[trigger] s[k]),
        at < s.len() ==> stop(s[at]),
    ensures
        find_from(s, from, stop) == at,
    decreases at - from,
{
    if from < at {
        lemma_find_from_is(s, from + 1, stop, at);
    }
}

/// The end of the text once trailing whitespace before `to` is left out.
pub open spec fn trim_end_at(s: Seq<char>, to: int) -> int
    decreases to,
{
    if to <= 0 {
        0
    } else if to <= s.len() && !is_space(s[to - 1]) {
        to
    } else {
        trim_end_at(s, to - 1)
    }
}

/// `trim_end_at` passes over whitespace only and halts behind a character
/// that is none.
pub proof fn lemma_trim_end_at(s: Seq<char>, to: int)
    requires
        0 <= to <= s.len(),
    ensures
        0 <= trim_end_at(s, to) <= to,
        forall|k: int| trim_end_at(s, to) <= k < to ==> is_space(#[trigger] s[k]),
        trim_end_at(s, to) > 0 ==> !is_space(s[trim_end_at(s, to) - 1]),
    decreases to,
{
    if to > 0 && is_space(s[to - 1]) {
        lemma_trim_end_at(s, to - 1);
    }
}

/// A position behind which only whitespace follows up to `to`, and which is
/// the start of the text or stands behind a character that is no whitespace, is
/// the one that `trim_end_at` gives.
pub proof fn lemma_trim_end_at_is(s: Seq<char>, to: int, at: int)
    requires
        0 <= at <= to <= s.len(),
        forall|k: int| at <= k < to ==> is_space(#[trigger] s[k]),
        at > 0 ==> !is_space(s[at - 1]),
    ensures
        trim_end_at(s, to) == at,
    decreases to - at,
{
    if at < to {
        lemma_trim_end_at_is(s, to - 1, at);
    }
}

/// The text without the whitespace at its two ends.
pub open spec fn trimmed(s: Seq<char>) -> Seq<char> {
    let a = find_from(s, 0, non_space());
    let b = trim_end_at(s, s.len() as int);
    if a < b {
        s.subrange(a, b)
    } else {
        Seq::empty()
    }
}

/// A trimmed text neither starts nor ends with whitespace, and a text that
/// does neither is left as it is.
pub proof fn lemma_trimmed(s: Seq<char>)
    ensures
        trimmed(s).len() <= s.len(),
        trimmed(s).len() > 0 ==> !is_space(trimmed(s).first()) && !is_space(trimmed(s).last()),
        s.len() > 0 && !is_space(s.first()) && !is_space(s.last()) ==> trimmed(s) == s,
        trimmed(trimmed(s)) == trimmed(s),
{
    lemma_find_from(s, 0, non_space());
    lemma_trim_end_at(s, s.len() as int);
    let t = trimmed(s);
    if t.len() > 0 {
        lemma_find_from_is(t, 0, non_space(), 0);
        lemma_trim_end_at_is(t, t.len() as int, t.len() as int);
        assert(t.subrange(0, t.len() as int) =~= t);
    } else {
        lemma_find_from(t, 0, non_space());
        lemma_trim_end_at(t, 0);
    }
    if s.len() > 0 && !is_space(s.first()) && !is_space(s.last()) {
        assert(s.subrange(0, s.len() as int) =~= s);
    }
}

/// Whether a character is whitespace.
pub fn is_whitespace(c: char) -> (b: bool)
    ensures
        b == is_space(c),
{
    let n: u32 = c as u32;
    (0x09 <= n && n <= 0x0D) || n == 0x20 || n == 0x85 || n == 0xA0 || n == 0x1680 || (0x2000 <= n
        && n <= 0x200A) || n == 0x2028 || n == 0x2029 || n == 0x202F || n == 0x205F || n == 0x3000
}

/// The characters of a string, in order.
pub fn chars_of(s: &str) -> (v: Vec<char>)
    ensures
        v@ == s@,
{
    let mut v: Vec<char> = Vec::new();
    for c in it: s.chars()
        invariant
            v@ == it.seq().take(it.index() as int),
            it.seq() == s@,
    {
        v.push(c);
    }
    v
}

/// Narrows a range to what is left of it once the whitespace at its two ends
/// is gone.
pub fn trim_span(v: &Vec<char>, span: Span) -> (r: Span)
    requires
        span.fits(v@),
    ensures
        r.within(span),
        r.of(v@) == trimmed(span.of(v@)),
{
    let ghost w = span.of(v@);
    let mut a: usize = span.start;
    while a < span.end && is_whitespace(v[a])
        invariant
            span.fits(v@),
            w == span.of(v@),
            span.start <= a <= span.end,
            forall|k: int| 0 <= k < a - span.start ==> is_space(#[trigger] w[k]),
        decreases span.end - a,
    {
        a += 1;
    }
    let mut b: usize = span.end;
    while b > a && is_whitespace(v[b - 1])
        invariant
            span.fits(v@),
            w == span.of(v@),
            span.start <= a <= b <= span.end,
            forall|k: int| b - span.start <= k < w.len() ==> is_space(#[trigger] w[k]),
        decreases b,
    {
        b -= 1;
    }
    proof {
        let la = a - span.start;
        let lb = b - span.start;
        lemma_find_from_is(w, 0, non_space(), la);
        if a < b {
            lemma_trim_end_at_is(w, w.len() as int, lb);
            assert(w.subrange(la, lb) =~= v@.subrange(a as int, b as int));
        } else {
            lemma_trim_end_at(w, w.len() as int);
            lemma_find_from(w, 0, non_space());
            if trim_end_at(w, w.len() as int) > la {
                assert(!is_space(w[trim_end_at(w, w.len() as int) - 1]));
            }
            assert(v@.subrange(a as int, b as int) =~= Seq::<char>::empty());
        }
    }
    Span { start: a, end: b }
}

/// The texts that a list of ranges covers, in order.
pub open spec fn texts(spans: Seq<Span>, s: Seq<char>) -> Seq<Seq<char>> {
    Seq::new(spans.len(), |i: int| spans[i].of(s))
}

/// Every range of a list lies inside `outer`.
pub open spec fn all_within(spans: Seq<Span>, outer: Span) -> bool {
    forall|i: int| 0 <= i < spans.len() ==> (#[trigger] spans[i]).within(outer)
}

/// The whole of a text of the given length, as a range.
pub open spec fn whole(s: Seq<char>) -> Span {
    Span { start: 0, end: s.len() as usize }
}

/// The line between `from` and the newline at `end`. A carriage return
/// directly before the newline belongs to the line ending.
pub open spec fn closed_line(s: Seq<char>, from: int, end: int) -> Seq<char> {
    if from < end && s[end - 1] == '\r' {
        s.subrange(from, end - 1)
    } else {
        s.subrange(from, end)
    }
}

/// The lines of the text from position `from` on.
pub open spec fn lines_from(s: Seq<char>, from: int) -> Seq<Seq<char>>
    decreases s.len() - from,
{
    let end = find_from(s, from, exactly('\n'));
    if from < 0 || from >= s.len() {
        Seq::empty()
    } else if end >= s.len() {
        seq![s.subrange(from, s.len() as int)]
    } else {
        proof {
            lemma_find_from(s, from, exactly('\n'));
        }
        seq![closed_line(s, from, end)] + lines_from(s, end + 1)
    }
}

/// The lines of a text. Each newline closes a line; what follows the last
/// newline is a line of its own unless it is empty.
pub open spec fn lines(s: Seq<char>) -> Seq<Seq<char>> {
    lines_from(s, 0)
}

/// The whitespace-delimited tokens of the text from position `from` on.
pub open spec fn tokens_from(s: Seq<char>, from: int) -> Seq<Seq<char>>
    decreases s.len() - from,
{
    let a = find_from(s, from, non_space());
    if from < 0 || a >= s.len() {
        Seq::empty()
    } else {
        let b = find_from(s, a, space());
        proof {
            lemma_find_from(s, from, non_space());
            lemma_find_from(s, a + 1, space());
        }
        seq![s.subrange(a, b)] + tokens_from(s, b)
    }
}

/// The maximal runs of characters that are no whitespace, in order.
pub open spec fn tokens(s: Seq<char>) -> Seq<Seq<char>> {
    tokens_from(s, 0)
}

/// The fields of the text from position `from` on, with `sep` between them.
pub open spec fn fields_from(s: Seq<char>, from: int, sep: char) -> Seq<Seq<char>>
    decreases s.len() - from,
{
    let end = find_from(s, from, exactly(sep));
    if from < 0 || end >= s.len() {
        seq![s.subrange(from, s.len() as int)]
    } else {
        proof {
            lemma_find_from(s, from, exactly(sep));
        }
        seq![s.subrange(from, end)] + fields_from(s, end + 1, sep)
    }
}

/// The pieces into which the occurrences of `sep` cut the text: one more
/// than there are occurrences, empty ones included.
pub open spec fn fields(s: Seq<char>, sep: char) -> Seq<Seq<char>> {
    fields_from(s, 0, sep)
}

/// `pat` stands in `s` at position `at`.
pub open spec fn occurs_at(s: Seq<char>, pat: Seq<char>, at: int) -> bool {
    0 <= at && at + pat.len() <= s.len() && s.subrange(at, at + pat.len()) == pat
}

/// `pat` stands somewhere in `s`.
pub open spec fn contains(s: Seq<char>, pat: Seq<char>) -> bool {
    exists|at: int| occurs_at(s, pat, at)
}

/// The ranges of the lines of a text.
pub fn line_spans(v: &Vec<char>) -> (r: Vec<Span>)
    ensures
        texts(r@, v@) == lines(v@),
        all_within(r@, whole(v@)),
{
    let n = v.len();
    let mut out: Vec<Span> = Vec::new();
    let mut start: usize = 0;
    let mut i: usize = 0;
    assert(texts(out@, v@) + lines_from(v@, 0) =~= lines(v@));
    while i < n
        invariant
            n == v.len(),
            start <= i <= n,
            forall|k: int| start <= k < i ==> v@[k] != '\n',
            texts(out@, v@) + lines_from(v@, start as int) == lines(v@),
            all_within(out@, whole(v@)),
        decreases n - i,
    {
        if v[i] == '\n' {
            let end = if i > start && v[i - 1] == '\r' {
                i - 1
            } else {
                i
            };
            let span = Span { start, end };
            proof {
                lemma_find_from_is(v@, start as int, exactly('\n'), i as int);
                assert(span.of(v@) == closed_line(v@, start as int, i as int));
                assert(texts(out@.push(span), v@) =~= texts(out@, v@) + seq![span.of(v@)]);
                assert(texts(out@.push(span), v@) + lines_from(v@, i + 1) =~= texts(out@, v@)
                    + lines_from(v@, start as int));
            }
            out.push(span);
            start = i + 1;
        }
        i += 1;
    }
    if start < n {
        let span = Span { start, end: n };
        proof {
            lemma_find_from_is(v@, start as int, exactly('\n'), n as int);
            assert(texts(out@.push(span), v@) =~= texts(out@, v@) + seq![span.of(v@)]);
            assert(texts(out@.push(span), v@) =~= texts(out@, v@) + lines_from(v@, start as int));
        }
        out.push(span);
    } else {
        assert(texts(out@, v@) =~= texts(out@, v@) + lines_from(v@, start as int));
    }
    out
}

/// The ranges of the whitespace-delimited tokens inside a range.
pub fn token_spans(v: &Vec<char>, within: Span) -> (r: Vec<Span>)
    requires
        within.fits(v@),
    ensures
        texts(r@, v@) == tokens(within.of(v@)),
        all_within(r@, within),
{
    let ghost w = within.of(v@);
    let ghost lo = within.start as int;
    let mut out: Vec<Span> = Vec::new();
    let mut i: usize = within.start;
    assert(texts(out@, v@) + tokens_from(w, 0) =~= tokens(w));
    while i < within.end
        invariant
            within.fits(v@),
            w == within.of(v@),
            lo == within.start,
            within.start <= i <= within.end,
            texts(out@, v@) + tokens_from(w, i - lo) == tokens(w),
            all_within(out@, within),
        decreases within.end - i,
    {
        let ghost from = i as int;
        while i < within.end && is_whitespace(v[i])
            invariant
                within.fits(v@),
                w == within.of(v@),
                lo == within.start,
                from <= i <= within.end,
                within.start <= from,
                forall|k: int| from - lo <= k < i - lo ==> is_space(#[trigger] w[k]),
            decreases within.end - i,
        {
            i += 1;
        }
        proof {
            lemma_find_from_is(w, from - lo, non_space(), i - lo);
        }
        if i < within.end {
            let a = i;
            i += 1;
            while i < within.end && !is_whitespace(v[i])
                invariant
                    within.fits(v@),
                    w == within.of(v@),
                    lo == within.start,
                    a < i <= within.end,
                    within.start <= a,
                    forall|k: int| a - lo <= k < i - lo ==> !is_space(#[trigger] w[k]),
                decreases within.end - i,
            {
                i += 1;
            }
            let span = Span { start: a, end: i };
            proof {
                lemma_find_from_is(w, a - lo, space(), i - lo);
                assert(span.of(v@) =~= w.subrange(a - lo, i - lo));
                assert(texts(out@.push(span), v@) =~= texts(out@, v@) + seq![span.of(v@)]);
                assert(texts(out@.push(span), v@) + tokens_from(w, i - lo) =~= texts(out@, v@)
                    + tokens_from(w, from - lo));
            }
            out.push(span);
        }
    }
    proof {
        lemma_find_from(w, i - lo, non_space());
        assert(texts(out@, v@) =~= texts(out@, v@) + tokens_from(w, i - lo));
    }
    out
}

/// The ranges of the fields inside a range, with `sep` between them.
pub fn field_spans(v: &Vec<char>, within: Span, sep: char) -> (r: Vec<Span>)
    requires
        within.fits(v@),
    ensures
        texts(r@, v@) == fields(within.of(v@), sep),
        all_within(r@, within),
        r.len() >= 1,
{
    let ghost w = within.of(v@);
    let ghost lo = within.start as int;
    let mut out: Vec<Span> = Vec::new();
    let mut start: usize = within.start;
    let mut i: usize = within.start;
    assert(Seq::<Seq<char>>::empty() + fields_from(w, 0, sep) =~= fields(w, sep));
    assert(texts(out@, v@) =~= Seq::<Seq<char>>::empty());
    while i < within.end
        invariant
            within.fits(v@),
            w == within.of(v@),
            lo == within.start,
            within.start <= start <= i <= within.end,
            forall|k: int| start - lo <= k < i - lo ==> #[trigger] w[k] != sep,
            texts(out@, v@) + fields_from(w, start - lo, sep) == fields(w, sep),
            all_within(out@, within),
        decreases within.end - i,
    {
        if v[i] == sep {
            let span = Span { start, end: i };
            proof {
                lemma_find_from_is(w, start - lo, exactly(sep), i - lo);
                assert(span.of(v@) =~= w.subrange(start - lo, i - lo));
                assert(texts(out@.push(span), v@) =~= texts(out@, v@) + seq![span.of(v@)]);
                assert(texts(out@.push(span), v@) + fields_from(w, i + 1 - lo, sep) =~= texts(
                    out@,
                    v@,
                ) + fields_from(w, start - lo, sep));
            }
            out.push(span);
            start = i + 1;
        }
        i += 1;
    }
    let span = Span { start, end: within.end };
    proof {
        lemma_find_from_is(w, start - lo, exactly(sep), w.len() as int);
        assert(span.of(v@) =~= w.subrange(start - lo, w.len() as int));
        assert(texts(out@.push(span), v@) =~= texts(out@, v@) + seq![span.of(v@)]);
    }
    out.push(span);
    out
}

/// Whether `pat` stands in the text at position `at` of a range.
fn matches_at(v: &Vec<char>, within: Span, pat: &Vec<char>, at: usize) -> (b: bool)
    requires
        within.fits(v@),
        within.start <= at,
        at + pat.len() <= within.end,
    ensures
        b == occurs_at(within.of(v@), pat@, at - within.start),
{
    let ghost w = within.of(v@);
    let ghost la = at - within.start;
    let m = pat.len();
    let mut j: usize = 0;
    while j < m
        invariant
            within.fits(v@),
            w == within.of(v@),
            la == at - within.start,
            within.start <= at,
            at + pat.len() <= within.end,
            m == pat.len(),
            j <= m,
            forall|k: int| 0 <= k < j ==> w[la + k] == #[trigger] pat@[k],
        decreases m - j,
    {
        if v[at + j] != pat[j] {
            assert(w.subrange(la, la + m)[j as int] != pat@[j as int]);
            return false;
        }
        j += 1;
    }
    assert(w.subrange(la, la + m) =~= pat@);
    true
}

/// Whether `pat` stands somewhere in the text of a range.
pub fn span_contains(v: &Vec<char>, within: Span, pat: &Vec<char>) -> (b: bool)
    requires
        within.fits(v@),
    ensures
        b == contains(within.of(v@), pat@),
{
    let ghost w = within.of(v@);
    let m = pat.len();
    if m == 0 {
        assert(w.subrange(0, 0) =~= pat@);
        assert(occurs_at(w, pat@, 0));
        return true;
    }
    let mut at: usize = within.start;
    while within.end - at >= m
        invariant
            within.fits(v@),
            w == within.of(v@),
            m == pat.len(),
            m > 0,
            within.start <= at <= within.end,
            forall|k: int| 0 <= k < at - within.start ==> !occurs_at(w, pat@, k),
        decreases within.end - at,
    {
        if matches_at(v, within, pat, at) {
            return true;
        }
        at += 1;
    }
    false
}

/// The range that covers a whole text.
pub fn whole_span(v: &Vec<char>) -> (r: Span)
    ensures
        r == whole(v@),
        r.fits(v@),
        r.of(v@) == v@,
{
    assert(v@.subrange(0, v.len() as int) =~= v@);
    Span { start: 0, end: v.len() }
}

/// Cuts the text of a range out of a string.
pub fn cut(s: &str, span: Span) -> (r: String)
    requires
        span.fits(s@),
    ensures
        r@ == span.of(s@),
{
    s.substring_char(span.start, span.end).to_owned()
}

/// A string without the whitespace at its two ends.
pub fn trim(text: &str) -> (r: String)
    ensures
        r@ == trimmed(text@),
{
    let v = chars_of(text);
    let span = trim_span(&v, whole_span(&v));
    cut(text, span)
}

} // verus!
