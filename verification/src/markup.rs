//! Light formatting of copied text for the preview pane: the lines of a
//! text, what sort of line each is, and the emphasis within a line.

use vstd::prelude::*;
use vstd::string::StringExecFns;
use crate::text::{
    byte_len, chars_of, chars_within, has_prefix, matches_at, prefix_within, string_of,
};

verus! {

/// How a stretch of a line is shown.
#[derive(Debug, Clone, Copy, PartialEq, Eq, Structural)]
pub enum SpanStyle {
    /// As it stands.
    Plain,
    /// As code: what stood between backticks, with the backticks.
    Code,
    /// In bold: what stood between double asterisks, without them.
    Bold,
}

/// A stretch of a line with one style.
#[derive(Debug, PartialEq, Eq)]
pub struct InlineSpan {
    pub text: String,
    pub style: SpanStyle,
}

/// A span as a mathematical value.
pub struct SpanView {
    pub text: Seq<char>,
    pub style: SpanStyle,
}

impl View for InlineSpan {
    type V = SpanView;

    open spec fn view(&self) -> SpanView {
        SpanView { text: self.text@, style: self.style }
    }
}

impl DeepView for InlineSpan {
    type V = SpanView;

    open spec fn deep_view(&self) -> SpanView {
        self@
    }
}

/// Where `c` first stands in `s` at or behind `from`; the length of `s`
/// where it does not.
pub open spec fn index_from(s: Seq<char>, from: int, c: char) -> int
    decreases s.len() - from,
{
    if from >= s.len() {
        s.len() as int
    } else if s[from] == c {
        from
    } else {
        index_from(s, from + 1, c)
    }
}

/// Where two asterisks in a row first stand in `s` at or behind `from`;
/// the length of `s` where they do not.
pub open spec fn double_star_from(s: Seq<char>, from: int) -> int
    decreases s.len() - from,
{
    if from >= s.len() {
        s.len() as int
    } else if s[from] == '*' && from + 1 < s.len() && s[from + 1] == '*' {
        from
    } else {
        double_star_from(s, from + 1)
    }
}

/// The plain span that holds `text`; no span for no text.
pub open spec fn plain(text: Seq<char>) -> Seq<SpanView> {
    if text.len() > 0 {
        seq![SpanView { text, style: SpanStyle::Plain }]
    } else {
        Seq::empty()
    }
}

/// The spans of `s` from `at` on, `pending` being the plain text that has
/// gathered before `at`.
///
/// A backtick opens code, which runs to the next backtick or to the end of
/// the line. Two asterisks open bold text, which runs to the next two
/// asterisks; where none follow, the asterisks and the rest of the line are
/// plain text. Everything else is plain text.
pub open spec fn spans_from(s: Seq<char>, at: int, pending: Seq<char>) -> Seq<SpanView>
    decreases s.len() - at,
    via spans_from_terminates
{
    if at < 0 || at >= s.len() {
        plain(pending)
    } else if s[at] == '`' {
        let end = index_from(s, at + 1, '`');
        let code = SpanView {
            text: seq!['`'] + s.subrange(at + 1, end) + seq!['`'],
            style: SpanStyle::Code,
        };
        let next = if end < s.len() {
            end + 1
        } else {
            end
        };
        plain(pending) + seq![code] + spans_from(s, next, Seq::empty())
    } else if s[at] == '*' && at + 1 < s.len() && s[at + 1] == '*' {
        let end = double_star_from(s, at + 2);
        if end < s.len() {
            let bold = SpanView { text: s.subrange(at + 2, end), style: SpanStyle::Bold };
            plain(pending) + seq![bold] + spans_from(s, end + 2, Seq::empty())
        } else {
            plain(pending) + plain(seq!['*', '*'] + s.subrange(at + 2, s.len() as int))
        }
    } else {
        spans_from(s, at + 1, pending.push(s[at]))
    }
}

#[via_fn]
proof fn spans_from_terminates(s: Seq<char>, at: int, pending: Seq<char>) {
    if 0 <= at < s.len() {
        lemma_index_from(s, at + 1, '`');
        lemma_double_star_from(s, at + 2);
    }
}

/// The spans of a line. A line without any span, which is the empty line,
/// has one empty plain span.
pub open spec fn spec_inline_formatting(line: Seq<char>) -> Seq<SpanView> {
    let spans = spans_from(line, 0, Seq::empty());
    if spans.len() == 0 {
        seq![SpanView { text: line, style: SpanStyle::Plain }]
    } else {
        spans
    }
}

/// The bounds of what `index_from` gives.
pub proof fn lemma_index_from(s: Seq<char>, from: int, c: char)
    requires
        0 <= from <= s.len(),
    ensures
        from <= index_from(s, from, c) <= s.len(),
    decreases s.len() - from,
{
    if from < s.len() && s[from] != c {
        lemma_index_from(s, from + 1, c);
    }
}

/// The bounds of what `double_star_from` gives.
pub proof fn lemma_double_star_from(s: Seq<char>, from: int)
    requires
        0 <= from,
    ensures
        from <= double_star_from(s, from) || double_star_from(s, from) == s.len(),
        double_star_from(s, from) <= s.len() || double_star_from(s, from) == from,
        double_star_from(s, from) < s.len() ==> double_star_from(s, from) + 2 <= s.len(),
    decreases s.len() - from,
{
    if from < s.len() && !(s[from] == '*' && from + 1 < s.len() && s[from + 1] == '*') {
        lemma_double_star_from(s, from + 1);
    }
}

fn find_from(v: &[char], from: usize, c: char) -> (r: usize)
    requires
        from <= v.len(),
    ensures
        r == index_from(v@, from as int, c),
        from <= r <= v.len(),
{
    let mut i: usize = from;
    while i < v.len() && v[i] != c
        invariant
            from <= i <= v.len(),
            index_from(v@, from as int, c) == index_from(v@, i as int, c),
        decreases v.len() - i,
    {
        i += 1;
    }
    i
}

fn find_double_star(v: &[char], from: usize) -> (r: usize)
    requires
        from <= v.len(),
    ensures
        r == double_star_from(v@, from as int),
        from <= r <= v.len(),
        r < v.len() ==> r + 2 <= v.len(),
{
    let mut i: usize = from;
    while i < v.len() && !(v[i] == '*' && i + 1 < v.len() && v[i + 1] == '*')
        invariant
            from <= i <= v.len(),
            double_star_from(v@, from as int) == double_star_from(v@, i as int),
        decreases v.len() - i,
    {
        i += 1;
    }
    i
}

/// Puts `pending` at the end of `spans` as a plain span, unless it is empty.
fn flush(spans: &mut Vec<InlineSpan>, pending: String)
    ensures
        final(spans).deep_view() == old(spans).deep_view() + plain(pending@),
{
    if !pending.as_str().is_empty() {
        spans.push(InlineSpan { text: pending, style: SpanStyle::Plain });
        assert(spans.deep_view() =~= old(spans).deep_view() + plain(pending@));
    } else {
        assert(spans.deep_view() =~= old(spans).deep_view() + plain(pending@));
    }
}

/// Parts a line into plain text, code and bold text.
pub fn parse_inline_formatting(line: &str) -> (r: Vec<InlineSpan>)
    ensures
        r.deep_view() == spec_inline_formatting(line@),
{
    let v = chars_of(line);
    let n = v.len();
    let mut spans: Vec<InlineSpan> = Vec::new();
    let mut pending = String::new();
    let mut i: usize = 0;
    let ghost whole = spans_from(v@, 0, Seq::empty());
    assert(spans.deep_view() =~= Seq::<SpanView>::empty());
    while i < n
        invariant
            i <= n,
            n == v@.len(),
            whole == spans.deep_view() + spans_from(v@, i as int, pending@),
        decreases n - i,
    {
        let ghost before = spans.deep_view();
        let c = v[i];
        if c == '`' {
            let end = find_from(v.as_slice(), i + 1, '`');
            let mut out = String::new();
            core::mem::swap(&mut pending, &mut out);
            flush(&mut spans, out);
            let mut text = String::from_str("`");
            let inner = string_of(v.as_slice(), i + 1, end);
            text.append(inner.as_str());
            text.append("`");
            proof {
                reveal_strlit("`");
                assert(text@ =~= seq!['`'] + v@.subrange(i + 1, end as int) + seq!['`']);
            }
            spans.push(InlineSpan { text, style: SpanStyle::Code });
            proof {
                let code = SpanView { text: text@, style: SpanStyle::Code };
                assert(spans.deep_view() =~= before + plain(out@) + seq![code]);
            }
            i = if end < n { end + 1 } else { n };
        } else if c == '*' && i + 1 < n && v[i + 1] == '*' {
            let end = find_double_star(v.as_slice(), i + 2);
            let mut out = String::new();
            core::mem::swap(&mut pending, &mut out);
            flush(&mut spans, out);
            let inner = string_of(v.as_slice(), i + 2, end);
            if end < n {
                spans.push(InlineSpan { text: inner, style: SpanStyle::Bold });
                proof {
                    let bold = SpanView { text: inner@, style: SpanStyle::Bold };
                    assert(spans.deep_view() =~= before + plain(out@) + seq![bold]);
                }
                i = end + 2;
            } else {
                let mut text = String::from_str("**");
                text.append(inner.as_str());
                proof {
                    reveal_strlit("**");
                    assert(text@ =~= seq!['*', '*'] + v@.subrange(i + 2, n as int));
                    assert(text@.len() > 0);
                }
                flush(&mut spans, text);
                i = n;
            }
        } else {
            pending.push(c);
            i += 1;
        }
    }
    flush(&mut spans, pending);
    if spans.len() == 0 {
        spans.push(InlineSpan { text: String::from_str(line), style: SpanStyle::Plain });
    }
    assert(spans.deep_view() =~= spec_inline_formatting(line@));
    spans
}

/// A line of a text, by what sort of line it is.
#[derive(Debug, PartialEq, Eq)]
pub enum FormattedLine {
    /// A first-level heading: the whole line.
    Heading1(String),
    /// A second-level heading: the whole line.
    Heading2(String),
    /// An item of a list: what follows the bullet mark.
    Bullet(String),
    /// A line that opens or closes a block of code: the whole line.
    Fence(String),
    /// An indented line of code: the whole line.
    Indented(String),
    /// Running text, parted into spans.
    Inline(Vec<InlineSpan>),
}

/// A formatted line as a mathematical value.
pub enum LineView {
    Heading1(Seq<char>),
    Heading2(Seq<char>),
    Bullet(Seq<char>),
    Fence(Seq<char>),
    Indented(Seq<char>),
    Inline(Seq<SpanView>),
}

impl View for FormattedLine {
    type V = LineView;

    open spec fn view(&self) -> LineView {
        match *self {
            FormattedLine::Heading1(t) => LineView::Heading1(t@),
            FormattedLine::Heading2(t) => LineView::Heading2(t@),
            FormattedLine::Bullet(t) => LineView::Bullet(t@),
            FormattedLine::Fence(t) => LineView::Fence(t@),
            FormattedLine::Indented(t) => LineView::Indented(t@),
            FormattedLine::Inline(spans) => LineView::Inline(spans.deep_view()),
        }
    }
}

impl DeepView for FormattedLine {
    type V = LineView;

    open spec fn deep_view(&self) -> LineView {
        self@
    }
}

/// How many lines of a text are formatted at most.
pub const MAX_LINES: usize = 100;

/// White space, as Unicode defines it.
pub open spec fn is_white_space(c: char) -> bool {
    let u = c as u32;
    (9 <= u <= 13) || u == 0x20 || u == 0x85 || u == 0xA0 || u == 0x1680 || (0x2000 <= u <= 0x200A)
        || u == 0x2028 || u == 0x2029 || u == 0x202F || u == 0x205F || u == 0x3000
}

/// Where the first character that is no white space stands in `s` at or
/// behind `from`; the length of `s` where there is none.
pub open spec fn space_end(s: Seq<char>, from: int) -> int
    decreases s.len() - from,
{
    if from >= s.len() {
        s.len() as int
    } else if !is_white_space(s[from]) {
        from
    } else {
        space_end(s, from + 1)
    }
}

/// Where the white space that ends before `to` begins.
pub open spec fn space_start(s: Seq<char>, to: int) -> int
    decreases to,
{
    if to <= 0 {
        0
    } else if to > s.len() || !is_white_space(s[to - 1]) {
        to
    } else {
        space_start(s, to - 1)
    }
}

/// `s` without the white space at its two ends.
pub open spec fn trimmed(s: Seq<char>) -> Seq<char> {
    let from = space_end(s, 0);
    let to = space_start(s, s.len() as int);
    if from < to {
        s.subrange(from, to)
    } else {
        Seq::empty()
    }
}

/// What sort of line `line` is. A heading begins with a hash mark and a
/// blank, or two hash marks and a blank; an item with a hyphen or an
/// asterisk and a blank; a fence with three backticks; all of these after
/// any white space. A line of code begins with four blanks or a tab. Any
/// other line is running text.
pub open spec fn spec_format_line(line: Seq<char>) -> LineView {
    let t = trimmed(line);
    if has_prefix(t, "# "@) {
        LineView::Heading1(line)
    } else if has_prefix(t, "## "@) {
        LineView::Heading2(line)
    } else if has_prefix(t, "- "@) || has_prefix(t, "* "@) {
        LineView::Bullet(t.skip(2))
    } else if has_prefix(t, "```"@) {
        LineView::Fence(line)
    } else if has_prefix(line, "    "@) || has_prefix(line, "\t"@) {
        LineView::Indented(line)
    } else {
        LineView::Inline(spec_inline_formatting(line))
    }
}

/// A line without the carriage return that stood before its line feed.
pub open spec fn without_return(line: Seq<char>) -> Seq<char> {
    if line.len() > 0 && line.last() == '\r' {
        line.drop_last()
    } else {
        line
    }
}

/// The first `budget` lines of `s` from `from` on, formatted. A line ends
/// with a line feed, before which a carriage return does not count; what
/// follows the last line feed is a line if it is not empty.
pub open spec fn formatted_from(s: Seq<char>, from: int, budget: nat) -> Seq<LineView>
    decreases s.len() - from,
{
    if budget == 0 || from < 0 || from >= s.len() {
        Seq::empty()
    } else {
        let end = index_from(s, from, '\n');
        if from <= end < s.len() {
            seq![spec_format_line(without_return(s.subrange(from, end)))] + formatted_from(
                s,
                end + 1,
                (budget - 1) as nat,
            )
        } else {
            seq![spec_format_line(s.subrange(from, s.len() as int))]
        }
    }
}

/// The first lines of a text, formatted.
pub open spec fn spec_render_formatted_text(content: Seq<char>) -> Seq<LineView> {
    formatted_from(content, 0, MAX_LINES as nat)
}

/// Whether `c` is white space.
pub fn is_whitespace(c: char) -> (r: bool)
    ensures
        r == is_white_space(c),
{
    let u = c as u32;
    (9 <= u && u <= 13) || u == 0x20 || u == 0x85 || u == 0xA0 || u == 0x1680 || (0x2000 <= u && u
        <= 0x200A) || u == 0x2028 || u == 0x2029 || u == 0x202F || u == 0x205F || u == 0x3000
}

/// The bounds of `v[from..to]` without the white space at its two ends.
fn trim_bounds(v: &[char], from: usize, to: usize) -> (r: (usize, usize))
    requires
        from <= to <= v.len(),
    ensures
        from <= r.0 <= r.1 <= to,
        v@.subrange(r.0 as int, r.1 as int) == trimmed(v@.subrange(from as int, to as int)),
{
    let ghost line = v@.subrange(from as int, to as int);
    let mut a: usize = from;
    while a < to && is_whitespace(v[a])
        invariant
            from <= a <= to <= v.len(),
            line == v@.subrange(from as int, to as int),
            space_end(line, 0) == space_end(line, a - from),
        decreases to - a,
    {
        assert(line[a - from] == v@[a as int]);
        a += 1;
    }
    assert(space_end(line, 0) == a - from) by {
        if a < to {
            assert(line[a - from] == v@[a as int]);
        }
    }
    let mut b: usize = to;
    while b > a && is_whitespace(v[b - 1])
        invariant
            from <= a <= b <= to <= v.len(),
            line == v@.subrange(from as int, to as int),
            space_start(line, line.len() as int) == space_start(line, b - from),
        decreases b,
    {
        assert(line[b - 1 - from] == v@[b - 1]);
        b -= 1;
    }
    proof {
        if b > a {
            assert(line[b - 1 - from] == v@[b - 1]);
            assert(space_start(line, b - from) == b - from);
            assert(v@.subrange(a as int, b as int) =~= line.subrange(a - from, b - from));
        } else {
            lemma_space_start_bound(line, b - from);
            assert(v@.subrange(a as int, b as int) =~= Seq::<char>::empty());
        }
    }
    (a, b)
}

/// The white space that ends before `to` begins no further back than
/// where the text begins, and no further on than `to`.
pub proof fn lemma_space_start_bound(s: Seq<char>, to: int)
    requires
        0 <= to <= s.len(),
    ensures
        0 <= space_start(s, to) <= to,
    decreases to,
{
    if to > 0 && is_white_space(s[to - 1]) {
        lemma_space_start_bound(s, to - 1);
    }
}

/// Formats the line `v[from..to]`.
fn format_line(v: &[char], from: usize, to: usize) -> (r: FormattedLine)
    requires
        from <= to <= v.len(),
    ensures
        r@ == spec_format_line(v@.subrange(from as int, to as int)),
{
    let ghost line = v@.subrange(from as int, to as int);
    let (a, b) = trim_bounds(v, from, to);
    let t = string_of(v, a, b);
    let tc = chars_of(t.as_str());
    let whole = string_of(v, from, to);
    let wc = chars_of(whole.as_str());
    if begins_with(tc.as_slice(), "# ") {
        FormattedLine::Heading1(whole)
    } else if begins_with(tc.as_slice(), "## ") {
        FormattedLine::Heading2(whole)
    } else if begins_with(tc.as_slice(), "- ") || begins_with(tc.as_slice(), "* ") {
        proof {
            reveal_strlit("- ");
            reveal_strlit("* ");
        }
        let rest = string_of(tc.as_slice(), 2, tc.len());
        FormattedLine::Bullet(rest)
    } else if begins_with(tc.as_slice(), "```") {
        FormattedLine::Fence(whole)
    } else if begins_with(wc.as_slice(), "    ") || begins_with(wc.as_slice(), "\t") {
        FormattedLine::Indented(whole)
    } else {
        FormattedLine::Inline(parse_inline_formatting(whole.as_str()))
    }
}

/// Whether the text with the characters `hay` begins with `pattern`.
fn begins_with(hay: &[char], pattern: &str) -> (r: bool)
    ensures
        r == has_prefix(hay@, pattern@),
{
    let p = chars_of(pattern);
    matches_at(hay, p.as_slice(), 0)
}

/// Formats the first lines of a text, each by what sort of line it is.
pub fn render_formatted_text(content: &str) -> (r: Vec<FormattedLine>)
    ensures
        r.deep_view() == spec_render_formatted_text(content@),
{
    let v = chars_of(content);
    let n = v.len();
    let mut out: Vec<FormattedLine> = Vec::new();
    let mut from: usize = 0;
    let ghost whole = spec_render_formatted_text(v@);
    assert(out.deep_view() =~= Seq::<LineView>::empty());
    while from < n && out.len() < MAX_LINES
        invariant
            from <= n,
            n == v@.len(),
            out@.len() <= MAX_LINES,
            whole == out.deep_view() + formatted_from(v@, from as int, (MAX_LINES - out@.len()) as nat),
        decreases n - from,
    {
        let ghost before = out.deep_view();
        let end = find_from(v.as_slice(), from, '\n');
        if end < n {
            let to = if end > from && v[end - 1] == '\r' { end - 1 } else { end };
            proof {
                let raw = v@.subrange(from as int, end as int);
                assert(without_return(raw) =~= v@.subrange(from as int, to as int)) by {
                    if end > from {
                        assert(raw.last() == v@[end - 1]);
                    }
                }
            }
            let line = format_line(v.as_slice(), from, to);
            out.push(line);
            assert(out.deep_view() =~= before.push(line@));
            from = end + 1;
        } else {
            let line = format_line(v.as_slice(), from, n);
            out.push(line);
            assert(out.deep_view() =~= before.push(line@));
            from = n;
        }
    }
    assert(whole =~= out.deep_view());
    out
}

/// How many bytes of a preview a row of the list shows at most.
pub const LABEL_BYTES: usize = 80;

/// How many bytes the three dots take up that mark a shortened preview.
pub const DOTS_BYTES: usize = 3;

/// A preview as a row of the list shows it: whole where it takes up no more
/// than `LABEL_BYTES` bytes; else the whole characters within as many bytes
/// as leave room for three dots, and the dots.
pub open spec fn spec_list_label(preview: Seq<char>) -> Seq<char> {
    if byte_len(preview) > LABEL_BYTES {
        preview.take(chars_within(preview, (LABEL_BYTES - DOTS_BYTES) as nat) as int) + "..."@
    } else {
        preview
    }
}

/// Shortens a preview to fit a row of the list.
pub fn list_label(preview: &str) -> (r: String)
    ensures
        r@ == spec_list_label(preview@),
{
    let v = chars_of(preview);
    if prefix_within(v.as_slice(), LABEL_BYTES) < v.len() {
        let fit = prefix_within(v.as_slice(), LABEL_BYTES - DOTS_BYTES);
        let mut r = string_of(v.as_slice(), 0, fit);
        r.append("...");
        r
    } else {
        String::from_str(preview)
    }
}

} // verus!
