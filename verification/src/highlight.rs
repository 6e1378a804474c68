//! Cuts a line of source text into spans for colouring: keywords and numbers
//! as two regular expressions find them, string literals between double
//! quotes, and plain text.

use regex::Regex;
use vstd::prelude::*;

verus! {

#[verifier::external_type_specification]
#[verifier::external_body]
pub struct ExRegex(regex::Regex);

/// How a span is to be shown.
#[derive(Debug, Clone, Copy, PartialEq, Eq, Structural)]
pub enum SpanStyle {
    /// Plain text.
    Raw,
    /// A keyword.
    Keyword,
    /// A number.
    Number,
    /// A string literal.
    Literal,
}

/// A piece of a line and how it is to be shown.
#[derive(Debug)]
pub struct StyledSpan {
    pub text: String,
    pub style: SpanStyle,
}

/// A span as mathematics.
pub struct SpanView {
    pub text: Seq<char>,
    pub style: SpanStyle,
}

impl View for StyledSpan {
    type V = SpanView;

    open spec fn view(&self) -> SpanView {
        SpanView { text: self.text@, style: self.style }
    }
}

/// The views of a list of spans.
pub open spec fn span_views(spans: Seq<StyledSpan>) -> Seq<SpanView> {
    Seq::new(spans.len(), |i: int| spans[i]@)
}

/// The texts of the spans, one after the other.
pub open spec fn joined(spans: Seq<SpanView>) -> Seq<char>
    decreases spans.len(),
{
    if spans.len() == 0 {
        Seq::empty()
    } else {
        joined(spans.drop_last()) + spans.last().text
    }
}

/// A text cut in three: what stands before a match, the match, and what
/// stands behind it.
pub struct Cut {
    pub before: String,
    pub matched: String,
    pub after: String,
}

/// What was found at the head of the rest of a line.
pub enum Found {
    Keyword(Cut),
    Number(Cut),
    Nothing,
}

/// `Regex::find`, with the haystack cut at the ends of the match that it
/// reports: the three pieces make up the haystack. Not proved, and nothing
/// is said of where the match lies.
#[verifier::external_body]
fn cut_at_match(re: &Regex, text: &str) -> (r: Option<Cut>)
    ensures
        r matches Some(cut) ==> cut.before@ + cut.matched@ + cut.after@ == text@,
{
    match re.find(text) {
        Some(m) => Some(
            Cut {
                before: text[..m.start()].to_owned(),
                matched: m.as_str().to_owned(),
                after: text[m.end()..].to_owned(),
            },
        ),
        None => None,
    }
}

/// The index of the first double quote of `s` at or after `from`, or the
/// length of `s` if there is none.
pub open spec fn quote_from(s: Seq<char>, from: int) -> int
    decreases s.len() - from,
{
    if from >= s.len() {
        s.len() as int
    } else if s[from] == '"' {
        from
    } else {
        quote_from(s, from + 1)
    }
}

pub proof fn lemma_quote_from(s: Seq<char>, from: int)
    requires
        0 <= from <= s.len(),
    ensures
        from <= quote_from(s, from) <= s.len(),
    decreases s.len() - from,
{
    if from < s.len() && s[from] != '"' {
        lemma_quote_from(s, from + 1);
    }
}

/// Whether a cut takes something off the text: its first two pieces are not
/// both empty.
pub open spec fn advances(cut: Cut) -> bool {
    cut.before@.len() + cut.matched@.len() > 0
}

/// The spans that the head of `rest` gives, for what was found there: the
/// text before a keyword or a number as plain text, if there is any, and the
/// keyword or number itself; else a string literal, if `rest` starts with a
/// double quote and holds a second one; else the first character as plain
/// text.
pub open spec fn head_spans(rest: Seq<char>, found: Found) -> Seq<SpanView> {
    match found {
        Found::Keyword(cut) => cut_spans(cut, SpanStyle::Keyword),
        Found::Number(cut) => cut_spans(cut, SpanStyle::Number),
        Found::Nothing => if rest[0] == '"' && quote_from(rest, 1) < rest.len() {
            seq![SpanView { text: rest.subrange(0, quote_from(rest, 1) + 1), style: SpanStyle::Literal }]
        } else {
            seq![SpanView { text: rest.subrange(0, 1), style: SpanStyle::Raw }]
        },
    }
}

/// The spans of a cut whose match is to be shown as `style`.
pub open spec fn cut_spans(cut: Cut, style: SpanStyle) -> Seq<SpanView> {
    if cut.before@.len() > 0 {
        seq![
            SpanView { text: cut.before@, style: SpanStyle::Raw },
            SpanView { text: cut.matched@, style },
        ]
    } else {
        seq![SpanView { text: cut.matched@, style }]
    }
}

/// What is left of `rest` behind the spans of its head.
pub open spec fn tail_after(rest: Seq<char>, found: Found) -> Seq<char> {
    match found {
        Found::Keyword(cut) => cut.after@,
        Found::Number(cut) => cut.after@,
        Found::Nothing => if rest[0] == '"' && quote_from(rest, 1) < rest.len() {
            rest.subrange(quote_from(rest, 1) + 1, rest.len() as int)
        } else {
            rest.subrange(1, rest.len() as int)
        },
    }
}

/// What was found is a cut of `rest` that takes something off it, or
/// nothing.
pub open spec fn found_in(rest: Seq<char>, found: Found) -> bool {
    match found {
        Found::Keyword(cut) => cut.before@ + cut.matched@ + cut.after@ == rest && advances(cut),
        Found::Number(cut) => cut.before@ + cut.matched@ + cut.after@ == rest && advances(cut),
        Found::Nothing => true,
    }
}

/// The spans of the head make up what they take off.
pub proof fn lemma_head_and_tail(rest: Seq<char>, found: Found)
    requires
        rest.len() > 0,
        found_in(rest, found),
    ensures
        joined(head_spans(rest, found)) + tail_after(rest, found) == rest,
        tail_after(rest, found).len() < rest.len(),
{
    lemma_quote_from(rest, 1);
    reveal_with_fuel(joined, 3);
    let spans = head_spans(rest, found);
    if spans.len() == 2 {
        assert(spans.drop_last().drop_last() =~= Seq::empty());
        assert(joined(spans.drop_last()) =~= spans[0].text);
        assert(joined(spans) =~= spans[0].text + spans[1].text);
    } else {
        assert(spans.len() == 1);
        assert(spans.drop_last() =~= Seq::empty());
        assert(joined(spans) =~= spans[0].text);
    }
    assert(joined(spans) + tail_after(rest, found) =~= rest);
}

/// Joining goes along with adding spans at the end.
pub proof fn lemma_joined_concat(a: Seq<SpanView>, b: Seq<SpanView>)
    ensures
        joined(a + b) == joined(a) + joined(b),
    decreases b.len(),
{
    if b.len() == 0 {
        assert(a + b =~= a);
    } else {
        lemma_joined_concat(a, b.drop_last());
        assert((a + b).drop_last() =~= a + b.drop_last());
        assert((a + b).last() == b.last());
    }
    assert(joined(a + b) =~= joined(a) + joined(b));
}

/// What a search is taken to have found, given what the expression reported:
/// the cut itself if it takes something off the text, and nothing if there
/// was no match or the match and the text before it are both empty.
pub fn usable(cut: Option<Cut>) -> (r: Option<Cut>)
    ensures
        r == (if cut matches Some(c) && advances(c) {
            cut
        } else {
            None
        }),
{
    match cut {
        Some(c) => {
            if c.before.as_str().unicode_len() > 0 || c.matched.as_str().unicode_len() > 0 {
                Some(c)
            } else {
                None
            }
        },
        None => None,
    }
}

/// Looks for a keyword at the head of `rest`, and for a number if there is no
/// keyword. A match that takes nothing off the text counts as none. What the
/// two expressions match is theirs to say; whatever they report, what is
/// found is a cut of `rest` that takes something off it, or nothing.
fn find_next(rest: &str, rust_kw: &Regex, num_re: &Regex) -> (found: Found)
    ensures
        found_in(rest@, found),
{
    match usable(cut_at_match(rust_kw, rest)) {
        Some(cut) => Found::Keyword(cut),
        None => match usable(cut_at_match(num_re, rest)) {
            Some(cut) => Found::Number(cut),
            None => Found::Nothing,
        },
    }
}

/// Adds the spans of the head of `rest` to `spans` and returns what is left
/// of `rest` behind them.
pub fn take_span(rest: String, found: Found, spans: &mut Vec<StyledSpan>) -> (tail: String)
    requires
        rest@.len() > 0,
        found_in(rest@, found),
    ensures
        span_views(final(spans)@) == span_views(old(spans)@) + head_spans(rest@, found),
        tail@ == tail_after(rest@, found),
{
    let ghost before = span_views(spans@);
    match found {
        Found::Keyword(cut) => {
            if cut.before.as_str().unicode_len() > 0 {
                spans.push(StyledSpan { text: cut.before, style: SpanStyle::Raw });
            }
            spans.push(StyledSpan { text: cut.matched, style: SpanStyle::Keyword });
            assert(span_views(spans@) =~= before + head_spans(rest@, found));
            cut.after
        },
        Found::Number(cut) => {
            if cut.before.as_str().unicode_len() > 0 {
                spans.push(StyledSpan { text: cut.before, style: SpanStyle::Raw });
            }
            spans.push(StyledSpan { text: cut.matched, style: SpanStyle::Number });
            assert(span_views(spans@) =~= before + head_spans(rest@, found));
            cut.after
        },
        Found::Nothing => {
            let text = rest.as_str();
            let len = text.unicode_len();
            let mut end: usize = 1;
            if text.get_char(0) == '"' {
                let mut pos: usize = 1;
                while pos < len && text.get_char(pos) != '"'
                    invariant
                        1 <= pos <= len,
                        len == text@.len(),
                        quote_from(text@, pos as int) == quote_from(text@, 1),
                    decreases len - pos,
                {
                    pos += 1;
                }
                if pos < len {
                    end = pos + 1;
                    spans.push(
                        StyledSpan {
                            text: text.substring_char(0, end).to_owned(),
                            style: SpanStyle::Literal,
                        },
                    );
                    assert(span_views(spans@) =~= before + head_spans(rest@, found));
                    return text.substring_char(end, len).to_owned();
                }
            }
            spans.push(
                StyledSpan { text: text.substring_char(0, 1).to_owned(), style: SpanStyle::Raw },
            );
            assert(span_views(spans@) =~= before + head_spans(rest@, found));
            text.substring_char(1, len).to_owned()
        },
    }
}

/// Cuts `line` into spans. Whatever the two expressions match, the spans make
/// up the line.
pub fn highlight_line(line: &str, rust_kw: &Regex, num_re: &Regex) -> (spans: Vec<StyledSpan>)
    ensures
        joined(span_views(spans@)) == line@,
{
    let mut spans: Vec<StyledSpan> = Vec::new();
    let mut rest = line.to_owned();
    assert(span_views(spans@) =~= Seq::empty());
    while rest.as_str().unicode_len() > 0
        invariant
            joined(span_views(spans@)) + rest@ == line@,
        decreases rest@.len(),
    {
        let found = find_next(rest.as_str(), rust_kw, num_re);
        proof {
            lemma_head_and_tail(rest@, found);
            lemma_joined_concat(span_views(spans@), head_spans(rest@, found));
        }
        let ghost done = joined(span_views(spans@));
        let ghost old_rest = rest@;
        rest = take_span(rest, found, &mut spans);
        assert(joined(span_views(spans@)) + rest@ =~= done + (joined(head_spans(old_rest, found))
            + rest@));
    }
    assert(joined(span_views(spans@)) + rest@ =~= joined(span_views(spans@)));
    spans
}

} // verus!
