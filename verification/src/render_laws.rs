//! What holds of every card text that is rendered.

use vstd::prelude::*;

use crate::card_note;
use crate::digest;
use crate::render;
use crate::render::{ImageModel, PassModel};
use crate::text;
use crate::text_laws;

verus! {

// ── Searching ────────────────────────────────────────────────────────────────

/// What stands in a text stands there as well where the text goes on.
proof fn lemma_find_in_longer(front: Seq<char>, tail: Seq<char>, pattern: Seq<char>)
    requires
        text::find(front, pattern) is Some,
    ensures
        text::find(front + tail, pattern) == text::find(front, pattern),
{
    let i = text::find(front, pattern)->0;
    let all = front + tail;
    text::lemma_find(front, pattern);
    assert(all.subrange(i, i + pattern.len()) == front.subrange(i, i + pattern.len()));
    assert forall|j: int| j < i implies !#[trigger] text::occurs_at(all, pattern, j) by {
        if text::occurs_at(all, pattern, j) {
            assert(all.subrange(j, j + pattern.len()) == front.subrange(j, j + pattern.len()));
            assert(text::occurs_at(front, pattern, j));
        }
    }
    text::lemma_find_is(all, pattern, i);
}

/// What does not stand in a text does not begin, where the text goes on, so early that it would
/// have ended in the text.
proof fn lemma_not_found_early(front: Seq<char>, tail: Seq<char>, pattern: Seq<char>)
    requires
        text::find(front, pattern) is None,
    ensures
        text::find(front + tail, pattern) matches Some(i) ==> i + pattern.len() > front.len(),
{
    let all = front + tail;
    text::lemma_find(front, pattern);
    text::lemma_find(all, pattern);
    if let Some(i) = text::find(all, pattern) {
        if i + pattern.len() <= front.len() {
            assert(all.subrange(i, i + pattern.len()) == front.subrange(i, i + pattern.len()));
            assert(text::occurs_at(front, pattern, i));
        }
    }
}

/// A text without the first character of a pattern does not hold the pattern.
proof fn lemma_not_found(text: Seq<char>, pattern: Seq<char>)
    requires
        pattern.len() > 0,
        !text.contains(pattern[0]),
    ensures
        text::find(text, pattern) is None,
{
    text::lemma_find(text, pattern);
    if let Some(i) = text::find(text, pattern) {
        assert(text.subrange(i, i + pattern.len())[0] == pattern[0]);
        assert(text[i] == pattern[0]);
    }
}

/// A pattern is found where it first can begin.
proof fn lemma_found_behind(before: Seq<char>, pattern: Seq<char>, tail: Seq<char>)
    requires
        pattern.len() > 0,
        !before.contains(pattern[0]),
    ensures
        text::find(before + pattern + tail, pattern) == Some(before.len() as int),
{
    let all = before + pattern + tail;
    let i = before.len() as int;
    assert(all.subrange(i, i + pattern.len()) == pattern);
    assert forall|j: int| j < i implies !#[trigger] text::occurs_at(all, pattern, j) by {
        if text::occurs_at(all, pattern, j) {
            assert(all.subrange(j, j + pattern.len())[0] == pattern[0]);
            assert(before[j] == pattern[0]);
        }
    }
    text::lemma_find_is(all, pattern, i);
}

// ── Math ─────────────────────────────────────────────────────────────────────

/// A text without a dollar sign holds no math.
pub proof fn law_text_without_dollars_is_kept(text: Seq<char>)
    requires
        !text.contains('$'),
    ensures
        render::math_of(text) == text,
{
    reveal_strlit("$$");
    reveal_strlit("$");
    lemma_not_found(text, "$$"@);
    lemma_not_found(text, "$"@);
}

/// Math between two dollar signs becomes inline math.
pub proof fn law_single_dollars_are_inline_math(
    before: Seq<char>,
    math: Seq<char>,
    after: Seq<char>,
)
    requires
        !before.contains('$'),
        !math.contains('$'),
        !after.contains('$'),
        math.len() > 0,
    ensures
        render::math_of(before + "$"@ + math + "$"@ + after) == before + "\\("@ + math + "\\)"@
            + after,
{
    reveal_strlit("$$");
    reveal_strlit("$");
    let all = before + "$"@ + math + "$"@ + after;
    assert(text::find(all, "$$"@) is None) by {
        text::lemma_find(all, "$$"@);
        if let Some(i) = text::find(all, "$$"@) {
            let pair = all.subrange(i, i + 2);
            assert(pair[0] == '$' && pair[1] == '$');
            assert(all[i] == '$' && all[i + 1] == '$');
            let first = before.len() as int;
            let second = first + 1 + math.len();
            assert(all[first] == '$' && all[second] == '$');
            if i < first {
                assert(before[i] == '$');
            } else if first < i < second {
                assert(math[i - first - 1] == '$');
            } else if i > second {
                assert(after[i - second - 1] == '$');
            } else if i == first {
                assert(math[0] == '$');
            } else {
                assert(after[0] == '$');
            }
        }
    }
    lemma_pair(before, "$"@, math, after, false);
}

/// Math between two pairs of dollar signs becomes a block where it takes more than one line, and
/// inline math where it does not.
pub proof fn law_double_dollars_are_blocks_or_inline_math(
    before: Seq<char>,
    math: Seq<char>,
    after: Seq<char>,
)
    requires
        !before.contains('$'),
        !math.contains('$'),
        !after.contains('$'),
    ensures
        render::math_of(before + "$$"@ + math + "$$"@ + after) == before + (if math.contains(
            '\n',
        ) {
            "\\["@ + math + "\\]"@
        } else {
            "\\("@ + math + "\\)"@
        }) + after,
{
    reveal_strlit("$$");
    reveal_strlit("$");
    reveal_strlit("\\[");
    reveal_strlit("\\]");
    reveal_strlit("\\(");
    reveal_strlit("\\)");
    lemma_pair(before, "$$"@, math, after, true);
    let result = before + render::math_markup(math, true) + after;
    assert(!result.contains('$')) by {
        if result.contains('$') {
            let i = choose|i: int| 0 <= i < result.len() && result[i] == '$';
            let markup = render::math_markup(math, true);
            if i < before.len() {
                assert(before[i] == '$');
            } else if i < before.len() + markup.len() {
                let k = i - before.len();
                assert(markup[k] == '$');
                if 2 <= k < 2 + math.len() {
                    assert(math[k - 2] == '$');
                }
            } else {
                assert(after[i - before.len() - markup.len()] == '$');
            }
        }
    }
    lemma_not_found(result, "$"@);
}

/// The first pair of delimiters in a text: what follows it is taken as if it stood alone.
proof fn lemma_first_pair(
    before: Seq<char>,
    mark: Seq<char>,
    math: Seq<char>,
    after: Seq<char>,
    blocks: bool,
)
    requires
        mark.len() > 0,
        forall|i: int| 0 <= i < mark.len() ==> #[trigger] mark[i] == '$',
        !before.contains('$'),
        !math.contains('$'),
    ensures
        render::with_math(before + mark + math + mark + after, mark, mark, blocks) == before
            + render::math_markup(math, blocks) + render::with_math(after, mark, mark, blocks),
{
    let all = before + mark + math + mark + after;
    let tail = math + mark + after;
    let rest = render::with_math(after, mark, mark, blocks);
    assert(all =~= before + mark + tail);
    lemma_found_behind(before, mark, tail);
    assert(all.take(before.len() as int) =~= before);
    let inner = all.skip((before.len() + mark.len()) as int);
    assert(inner =~= math + mark + after);
    lemma_found_behind(math, mark, after);
    assert(inner.take(math.len() as int) =~= math);
    assert(inner.skip((math.len() + mark.len()) as int) =~= after);
    assert(before + (render::math_markup(math, blocks) + rest) =~= before + render::math_markup(
        math,
        blocks,
    ) + rest);
}

/// What no delimiter begins in stays as it is, and what follows it is taken as if it stood alone.
proof fn lemma_math_behind(front: Seq<char>, rest: Seq<char>, mark: Seq<char>, blocks: bool)
    requires
        mark.len() > 0,
        forall|j: int| 0 <= j < front.len() ==> !#[trigger] text::occurs_at(front + rest, mark, j),
    ensures
        render::with_math(front + rest, mark, mark, blocks) == front + render::with_math(
            rest,
            mark,
            mark,
            blocks,
        ),
{
    let all = front + rest;
    text::lemma_find(rest, mark);
    text::lemma_find(all, mark);
    match text::find(rest, mark) {
        Some(i) => {
            let at = front.len() + i;
            assert(all.subrange(at, at + mark.len()) =~= rest.subrange(i, i + mark.len()));
            assert forall|j: int| j < at implies !#[trigger] text::occurs_at(all, mark, j) by {
                if j >= front.len() && text::occurs_at(all, mark, j) {
                    let k = j - front.len();
                    assert(all.subrange(j, j + mark.len()) =~= rest.subrange(k, k + mark.len()));
                    assert(text::occurs_at(rest, mark, k));
                }
            }
            text::lemma_find_is(all, mark, at);
            assert(all.skip(at + mark.len()) =~= rest.skip(i + mark.len()));
            assert(all.take(at) =~= front + rest.take(i));
            let inner = rest.skip(i + mark.len());
            let tail = match text::find(inner, mark) {
                Some(end) => render::math_markup(inner.take(end), blocks) + render::with_math(
                    inner.skip(end + mark.len()),
                    mark,
                    mark,
                    blocks,
                ),
                None => mark + render::with_math(inner, mark, mark, blocks),
            };
            assert(all.take(at) + tail =~= front + (rest.take(i) + tail));
        },
        None => {
            if let Some(j) = text::find(all, mark) {
                let k = j - front.len();
                assert(all.subrange(j, j + mark.len()) =~= rest.subrange(k, k + mark.len()));
                assert(text::occurs_at(rest, mark, k));
            }
        },
    }
}

/// In a text with formulas the first one is put in the delimiters of MathJax, and what follows it
/// is converted as if it stood alone: so every formula is converted, however many there are.
pub proof fn law_every_inline_formula_is_converted(
    before: Seq<char>,
    math: Seq<char>,
    after: Seq<char>,
)
    requires
        !before.contains('$'),
        !math.contains('$'),
        math.len() > 0,
        after.len() > 0 ==> after[0] != '$',
    ensures
        render::math_of(before + "$"@ + math + "$"@ + after) == before + "\\("@ + math + "\\)"@
            + render::math_of(after),
{
    reveal_strlit("$$");
    reveal_strlit("$");
    let front = before + "$"@ + math + "$"@;
    let all = front + after;
    let rest = render::with_math(after, "$$"@, "$$"@, true);
    assert forall|j: int| 0 <= j < front.len() implies !#[trigger] text::occurs_at(
        all,
        "$$"@,
        j,
    ) by {
        if text::occurs_at(all, "$$"@, j) {
            let pair = all.subrange(j, j + 2);
            assert(pair[0] == '$' && pair[1] == '$');
            assert(all[j] == '$' && all[j + 1] == '$');
            let first = before.len() as int;
            let second = first + 1 + math.len();
            if j < first {
                assert(before[j] == '$');
            } else if j == first {
                assert(math[0] == '$');
            } else if j < second {
                assert(math[j - first - 1] == '$');
            } else {
                assert(after[0] == '$');
            }
        }
    }
    lemma_math_behind(front, after, "$$"@, true);
    lemma_first_pair(before, "$"@, math, rest, false);
    assert(before + ("\\("@ + math + "\\)"@) + render::math_of(after) =~= before + "\\("@ + math
        + "\\)"@ + render::math_of(after));
}

/// The first formula between double dollars becomes a block where it takes more than one line, and
/// inline math where it does not; what follows it is converted as if it stood alone.
pub proof fn law_every_double_formula_is_converted(
    before: Seq<char>,
    math: Seq<char>,
    after: Seq<char>,
)
    requires
        !before.contains('$'),
        !math.contains('$'),
    ensures
        math.contains('\n') ==> render::math_of(before + "$$"@ + math + "$$"@ + after) == before
            + "\\["@ + math + "\\]"@ + render::math_of(after),
        !math.contains('\n') ==> render::math_of(before + "$$"@ + math + "$$"@ + after) == before
            + "\\("@ + math + "\\)"@ + render::math_of(after),
{
    reveal_strlit("$$");
    reveal_strlit("$");
    reveal_strlit("\\[");
    reveal_strlit("\\]");
    reveal_strlit("\\(");
    reveal_strlit("\\)");
    let markup = render::math_markup(math, true);
    let front = before + markup;
    let rest = render::with_math(after, "$$"@, "$$"@, true);
    lemma_first_pair(before, "$$"@, math, after, true);
    assert forall|j: int| 0 <= j < front.len() implies !#[trigger] text::occurs_at(
        front + rest,
        "$"@,
        j,
    ) by {
        if text::occurs_at(front + rest, "$"@, j) {
            assert((front + rest).subrange(j, j + 1)[0] == '$');
            assert(front[j] == '$');
            if j < before.len() {
                assert(before[j] == '$');
            } else {
                let k = j - before.len();
                assert(markup[k] == '$');
                if 2 <= k < 2 + math.len() {
                    assert(math[k - 2] == '$');
                }
            }
        }
    }
    lemma_math_behind(front, rest, "$"@, false);
    let tail = render::math_of(after);
    if math.contains('\n') {
        assert(front + tail =~= before + "\\["@ + math + "\\]"@ + tail);
    } else {
        assert(front + tail =~= before + "\\("@ + math + "\\)"@ + tail);
    }
}

/// A dollar sign that no other one follows stays as it is.
pub proof fn law_a_lone_dollar_stays(before: Seq<char>, after: Seq<char>)
    requires
        !before.contains('$'),
        !after.contains('$'),
    ensures
        render::math_of(before + "$"@ + after) == before + "$"@ + after,
{
    reveal_strlit("$$");
    reveal_strlit("$");
    let all = before + "$"@ + after;
    text::lemma_find(all, "$$"@);
    if let Some(i) = text::find(all, "$$"@) {
        let pair = all.subrange(i, i + 2);
        assert(pair[0] == '$' && pair[1] == '$');
        assert(all[i] == '$' && all[i + 1] == '$');
        if i < before.len() {
            assert(before[i] == '$');
        } else {
            assert(after[i - before.len()] == '$');
        }
    }
    lemma_found_behind(before, "$"@, after);
    assert(all.skip(before.len() as int + 1) =~= after);
    assert(all.take(before.len() as int) =~= before);
    lemma_not_found(after, "$"@);
    assert(render::with_math(all, "$$"@, "$$"@, true) == all);
    assert(render::with_math(after, "$"@, "$"@, false) == after);
    assert(text::find(all, "$"@) == Some(before.len() as int));
    assert(before + ("$"@ + after) =~= all);
    assert(render::with_math(all, "$"@, "$"@, false) == before + ("$"@ + after));
}

/// One pair of delimiters in a text that holds no others.
proof fn lemma_pair(
    before: Seq<char>,
    mark: Seq<char>,
    math: Seq<char>,
    after: Seq<char>,
    blocks: bool,
)
    requires
        mark.len() > 0,
        forall|i: int| 0 <= i < mark.len() ==> #[trigger] mark[i] == '$',
        !before.contains('$'),
        !math.contains('$'),
        !after.contains('$'),
    ensures
        render::with_math(before + mark + math + mark + after, mark, mark, blocks) == before
            + render::math_markup(math, blocks) + after,
{
    lemma_first_pair(before, mark, math, after, blocks);
    lemma_not_found(after, mark);
    assert(render::with_math(after, mark, mark, blocks) == after);
}

/// What stands in a code element is left as it is. `open` is the first tag of the text that
/// begins one, and the end tag first stands behind `inner`.
pub proof fn law_code_is_left_untouched(
    before: Seq<char>,
    open: Seq<char>,
    inner: Seq<char>,
    after: Seq<char>,
)
    requires
        text::starts_with(open, "<code"@) || text::starts_with(open, "<pre"@),
        text::find(open, ">"@) == Some(open.len() - 1),
        render::code_start(before + open) == Some(before.len() as int),
        text::find(inner + render::end_tag(open), render::end_tag(open)) == Some(
            inner.len() as int,
        ),
    ensures
        render::math_outside_code(before + open + inner + render::end_tag(open) + after)
            == render::math_of(before) + (open + inner + render::end_tag(open))
            + render::math_outside_code(after),
{
    reveal_strlit("<code");
    reveal_strlit("<pre");
    reveal_strlit("</code>");
    reveal_strlit("</pre>");
    reveal_strlit(">");
    let close = render::end_tag(open);
    let html = before + open + inner + close + after;
    let tail = inner + close + after;
    let start = before.len() as int;
    text::lemma_find(open, ">"@);
    assert(open.len() >= 5) by {
        let last = open.len() - 1;
        assert(open.subrange(last, last + 1)[0] == '>');
        if text::starts_with(open, "<code"@) {
            assert(open.len() >= 5);
        } else {
            assert("<pre"@[3] == 'e');
            if last == 3 {
                assert(open.subrange(0, 4)[3] == 'e');
            }
        }
    }
    assert(html =~= before + open + tail);
    lemma_code_start(before, open, tail);
    let rest = html.skip(start);
    assert(rest =~= open + tail);
    lemma_find_in_longer(open, tail, ">"@);
    assert(render::end_tag(rest) == close) by {
        assert(rest.subrange(0, 4) == open.subrange(0, 4));
    }
    let content = rest.skip(open.len() as int);
    assert(content =~= (inner + close) + after);
    lemma_find_in_longer(inner + close, after, close);
    let end = (open.len() + inner.len() + close.len()) as int;
    assert(render::code_end(rest) == end);
    assert(rest.take(end) =~= open + inner + close);
    assert(rest.skip(end) =~= after);
    assert(html.take(start) =~= before);
}

/// A pattern that begins with a character which it holds once is not found across the place where
/// that character stands next.
proof fn lemma_found_at(before: Seq<char>, pattern: Seq<char>, tail: Seq<char>)
    requires
        pattern.len() > 0,
        forall|i: int| 0 < i < pattern.len() ==> #[trigger] pattern[i] != pattern[0],
        !text::contains(before, pattern),
        tail.len() > 0,
        tail[0] == pattern[0],
    ensures
        forall|j: int| j < before.len() ==> !#[trigger] text::occurs_at(before + tail, pattern, j),
        text::starts_with(tail, pattern) ==> text::find(before + tail, pattern) == Some(
            before.len() as int,
        ),
{
    let all = before + tail;
    let at = before.len() as int;
    assert forall|j: int| j < at implies !#[trigger] text::occurs_at(all, pattern, j) by {
        if text::occurs_at(all, pattern, j) {
            if j + pattern.len() <= at {
                assert(all.subrange(j, j + pattern.len()) =~= before.subrange(
                    j,
                    j + pattern.len(),
                ));
                assert(text::occurs_at(before, pattern, j));
            } else {
                assert(all.subrange(j, j + pattern.len())[at - j] == all[at]);
                assert(pattern[at - j] == pattern[0]);
            }
        }
    }
    if text::starts_with(tail, pattern) {
        assert(all.subrange(at, at + pattern.len()) =~= tail.subrange(0, pattern.len() as int));
        text::lemma_find_is(all, pattern, at);
    }
}

/// What stands between the tags of a code element is left as it is, and so are the tags; before it
/// math is converted, and behind it as if that stood alone. An element `<code …>` ends with
/// `</code>`, and an element `<pre …>` with `</pre>`.
pub proof fn law_code_elements_are_kept(
    before: Seq<char>,
    preformatted: bool,
    attributes: Seq<char>,
    inner: Seq<char>,
    after: Seq<char>,
)
    requires
        !text::contains(before, "<code"@),
        !text::contains(before, "<pre"@),
        !attributes.contains('>'),
        preformatted ==> !text::contains(inner, "</pre>"@),
        !preformatted ==> !text::contains(inner, "</code>"@),
    ensures
        preformatted ==> render::math_outside_code(
            before + ("<pre"@ + attributes + ">"@) + inner + "</pre>"@ + after,
        ) == render::math_of(before) + ("<pre"@ + attributes + ">"@ + inner + "</pre>"@)
            + render::math_outside_code(after),
        !preformatted ==> render::math_outside_code(
            before + ("<code"@ + attributes + ">"@) + inner + "</code>"@ + after,
        ) == render::math_of(before) + ("<code"@ + attributes + ">"@ + inner + "</code>"@)
            + render::math_outside_code(after),
{
    reveal_strlit("<code");
    reveal_strlit("<pre");
    reveal_strlit("</code>");
    reveal_strlit("</pre>");
    let tag = if preformatted {
        "<pre"@
    } else {
        "<code"@
    };
    let close = if preformatted {
        "</pre>"@
    } else {
        "</code>"@
    };
    let open = tag + attributes + ">"@;
    reveal_strlit(">");
    lemma_open_tag(tag, attributes);
    assert(open.len() == tag.len() + attributes.len() + 1);
    assert(open.subrange(0, tag.len() as int) =~= tag);
    assert(text::starts_with(open, tag));
    lemma_first_code(before, open);
    if !preformatted {
        assert(open.subrange(0, 4)[1] == 'c');
        assert(!text::starts_with(open, "<pre"@));
    }
    assert(render::end_tag(open) == close);
    assert(close.subrange(0, close.len() as int) =~= close);
    lemma_found_at(inner, close, close);
    law_code_is_left_untouched(before, open, inner, after);
    assert(open + inner + close =~= tag + attributes + ">"@ + inner + close);
}

/// A tag ends with its only closing bracket.
proof fn lemma_open_tag(tag: Seq<char>, attributes: Seq<char>)
    requires
        !tag.contains('>'),
        !attributes.contains('>'),
    ensures
        text::find(tag + attributes + ">"@, ">"@) == Some((tag.len() + attributes.len()) as int),
{
    reveal_strlit(">");
    let open = tag + attributes + ">"@;
    let last = open.len() - 1;
    assert(open.subrange(last, last + 1) =~= ">"@);
    assert forall|j: int| j < last implies !#[trigger] text::occurs_at(open, ">"@, j) by {
        if text::occurs_at(open, ">"@, j) {
            assert(open.subrange(j, j + 1)[0] == '>');
            assert(open[j] == '>');
            if j >= tag.len() {
                assert(attributes[j - tag.len()] == '>');
            } else {
                assert(tag[j] == '>');
            }
        }
    }
    text::lemma_find_is(open, ">"@, last);
}

/// The first code element begins with its tag, where none stands before that.
proof fn lemma_first_code(before: Seq<char>, open: Seq<char>)
    requires
        !text::contains(before, "<code"@),
        !text::contains(before, "<pre"@),
        text::starts_with(open, "<code"@) || text::starts_with(open, "<pre"@),
    ensures
        render::code_start(before + open) == Some(before.len() as int),
{
    reveal_strlit("<code");
    reveal_strlit("<pre");
    if text::starts_with(open, "<code"@) {
        assert(open.subrange(0, 5)[0] == '<');
    } else {
        assert(open.subrange(0, 4)[0] == '<');
    }
    lemma_found_at(before, "<code"@, open);
    lemma_found_at(before, "<pre"@, open);
    text::lemma_find(before + open, "<code"@);
    text::lemma_find(before + open, "<pre"@);
}

/// A text without code elements has all its math converted.
pub proof fn law_text_without_code_is_converted(html: Seq<char>)
    requires
        !text::contains(html, "<code"@),
        !text::contains(html, "<pre"@),
    ensures
        render::math_outside_code(html) == render::math_of(html),
{
    text::lemma_find(html, "<code"@);
    text::lemma_find(html, "<pre"@);
}

/// Markdown comes before math: a card text whose Markdown, with tables, strikethrough and task
/// lists, holds neither code nor a dollar sign is shown as that.
pub proof fn law_markdown_comes_before_math(text: Seq<char>)
    requires
        !text::contains(render::markdown_html(text, true, true, true), "<code"@),
        !text::contains(render::markdown_html(text, true, true, true), "<pre"@),
    ensures
        render::rendered(text) == render::math_of(render::markdown_html(text, true, true, true)),
        !render::markdown_html(text, true, true, true).contains('$') ==> render::rendered(text)
            == render::markdown_html(text, true, true, true),
{
    let html = render::markdown_html(text, true, true, true);
    law_text_without_code_is_converted(html);
    if !html.contains('$') {
        law_text_without_dollars_is_kept(html);
    }
}

/// The first code element begins where its tag stands.
proof fn lemma_code_start(before: Seq<char>, open: Seq<char>, tail: Seq<char>)
    requires
        open.len() >= 5,
        render::code_start(before + open) == Some(before.len() as int),
    ensures
        render::code_start(before + open + tail) == Some(before.len() as int),
{
    reveal_strlit("<code");
    reveal_strlit("<pre");
    let front = before + open;
    if text::find(front, "<code"@) is Some {
        lemma_find_in_longer(front, tail, "<code"@);
    } else {
        lemma_not_found_early(front, tail, "<code"@);
    }
    if text::find(front, "<pre"@) is Some {
        lemma_find_in_longer(front, tail, "<pre"@);
    } else {
        lemma_not_found_early(front, tail, "<pre"@);
    }
}

// ── Escapes ──────────────────────────────────────────────────────────────────

/// What a text is expanded to holds a character only if one of its characters is expanded to a
/// text that holds it.
proof fn lemma_expand(text: Seq<char>, image: spec_fn(char) -> Seq<char>, c: char)
    requires
        forall|x: char| !(#[trigger] image(x)).contains(c),
    ensures
        !text::expand(text, image).contains(c),
    decreases text.len(),
{
    if text.len() > 0 {
        let front = text::expand(text.drop_last(), image);
        let last = image(text.last());
        lemma_expand(text.drop_last(), image, c);
        if (front + last).contains(c) {
            let i = choose|i: int| 0 <= i < (front + last).len() && (front + last)[i] == c;
            if i < front.len() {
                assert(front[i] == c);
            } else {
                assert(last[i - front.len()] == c);
            }
        }
    }
}

/// Escaped HTML text holds no angle bracket.
pub proof fn law_escaped_text_holds_no_tag(s: Seq<char>)
    ensures
        !text::expand(s, card_note::text_image()).contains('<'),
        !text::expand(s, card_note::text_image()).contains('>'),
{
    reveal_strlit("&amp;");
    reveal_strlit("&lt;");
    reveal_strlit("&gt;");
    lemma_expand(s, card_note::text_image(), '<');
    lemma_expand(s, card_note::text_image(), '>');
}

/// An escaped HTML attribute holds no quotation mark and no angle bracket.
pub proof fn law_escaped_attribute_stays_inside(s: Seq<char>)
    ensures
        !text::expand(s, render::attr_image()).contains('"'),
        !text::expand(s, render::attr_image()).contains('<'),
        !text::expand(s, render::attr_image()).contains('>'),
{
    reveal_strlit("&quot;");
    reveal_strlit("&amp;");
    reveal_strlit("&lt;");
    reveal_strlit("&gt;");
    lemma_expand(s, render::attr_image(), '"');
    lemma_expand(s, render::attr_image(), '<');
    lemma_expand(s, render::attr_image(), '>');
}

/// The characters that could end an attribute or begin a tag are written in other words, and every
/// other character is as it is.
pub proof fn law_attributes_are_escaped(c: char)
    ensures
        text::expand(seq!['"'], render::attr_image()) == "&quot;"@,
        text::expand(seq!['&'], render::attr_image()) == "&amp;"@,
        text::expand(seq!['<'], render::attr_image()) == "&lt;"@,
        text::expand(seq!['>'], render::attr_image()) == "&gt;"@,
        c != '"' && c != '&' && c != '<' && c != '>' ==> text::expand(
            seq![c],
            render::attr_image(),
        ) == seq![c],
{
    let e = Seq::<char>::empty();
    text_laws::law_characters_are_replaced_one_by_one(e, e, '"', render::attr_image());
    text_laws::law_characters_are_replaced_one_by_one(e, e, '&', render::attr_image());
    text_laws::law_characters_are_replaced_one_by_one(e, e, '<', render::attr_image());
    text_laws::law_characters_are_replaced_one_by_one(e, e, '>', render::attr_image());
    text_laws::law_characters_are_replaced_one_by_one(e, e, c, render::attr_image());
}

/// In HTML text the ampersand and the angle brackets are written in other words, and every other
/// character is as it is.
pub proof fn law_html_text_is_escaped(c: char)
    ensures
        text::expand(seq!['&'], card_note::text_image()) == "&amp;"@,
        text::expand(seq!['<'], card_note::text_image()) == "&lt;"@,
        text::expand(seq!['>'], card_note::text_image()) == "&gt;"@,
        c != '&' && c != '<' && c != '>' ==> text::expand(seq![c], card_note::text_image())
            == seq![c],
{
    let e = Seq::<char>::empty();
    text_laws::law_characters_are_replaced_one_by_one(e, e, '&', card_note::text_image());
    text_laws::law_characters_are_replaced_one_by_one(e, e, '<', card_note::text_image());
    text_laws::law_characters_are_replaced_one_by_one(e, e, '>', card_note::text_image());
    text_laws::law_characters_are_replaced_one_by_one(e, e, c, card_note::text_image());
}

/// In a link the space, the percent sign, the number sign and the question mark of a file name are
/// written by their codes, and every other character is as it is.
pub proof fn law_file_names_are_encoded(c: char)
    ensures
        text::expand(seq![' '], render::link_image()) == "%20"@,
        text::expand(seq!['%'], render::link_image()) == "%25"@,
        text::expand(seq!['#'], render::link_image()) == "%23"@,
        text::expand(seq!['?'], render::link_image()) == "%3F"@,
        c != ' ' && c != '%' && c != '#' && c != '?' ==> text::expand(
            seq![c],
            render::link_image(),
        ) == seq![c],
{
    let e = Seq::<char>::empty();
    text_laws::law_characters_are_replaced_one_by_one(e, e, ' ', render::link_image());
    text_laws::law_characters_are_replaced_one_by_one(e, e, '%', render::link_image());
    text_laws::law_characters_are_replaced_one_by_one(e, e, '#', render::link_image());
    text_laws::law_characters_are_replaced_one_by_one(e, e, '?', render::link_image());
    text_laws::law_characters_are_replaced_one_by_one(e, e, c, render::link_image());
}

// ── Images ───────────────────────────────────────────────────────────────────

/// The kinds of pictures that Anki shows, by the ends of their file names.
pub open spec fn picture_kinds() -> Seq<Seq<char>> {
    seq![
        "png"@,
        "jpg"@,
        "jpeg"@,
        "gif"@,
        "webp"@,
        "svg"@,
        "bmp"@,
        "tif"@,
        "tiff"@,
    ]
}

/// A file is an image if what follows the last dot of its name, in letters of either case, is the
/// name of a kind of pictures, and only then; a name without a dot counts as a whole.
pub proof fn law_images_are_known_by_their_extension(name: Seq<char>, extension: Seq<char>)
    requires
        !extension.contains('.'),
    ensures
        render::names_image(name + "."@ + extension) <==> picture_kinds().contains(
            text::ascii_lowercase(extension),
        ),
        render::names_image(extension) <==> picture_kinds().contains(
            text::ascii_lowercase(extension),
        ),
{
    reveal_strlit(".");
    let filename = name + "."@ + extension;
    let dot = name.len() as int;
    assert(filename.subrange(dot, dot + 1) =~= "."@);
    assert(text::occurs_at(filename, "."@, dot));
    text::lemma_rfind_to(filename, "."@, filename.len() as int);
    let at = text::rfind(filename, "."@)->0;
    assert(at == dot) by {
        if at > dot {
            assert(filename.subrange(at, at + 1)[0] == '.');
            assert(extension[at - dot - 1] == '.');
        } else if at < dot {
            assert(!text::occurs_at(filename, "."@, dot));
        }
    }
    assert(filename.skip(dot + 1) =~= extension);
    text::lemma_rfind_to(extension, "."@, extension.len() as int);
    if let Some(i) = text::rfind(extension, "."@) {
        assert(extension.subrange(i, i + 1)[0] == '.');
        assert(extension[i] == '.');
    }
    lemma_picture_kinds(text::ascii_lowercase(extension));
}

proof fn lemma_picture_kinds(lower: Seq<char>)
    ensures
        picture_kinds().contains(lower) <==> {
            ||| lower == "png"@
            ||| lower == "jpg"@
            ||| lower == "jpeg"@
            ||| lower == "gif"@
            ||| lower == "webp"@
            ||| lower == "svg"@
            ||| lower == "bmp"@
            ||| lower == "tif"@
            ||| lower == "tiff"@
        },
{
    let kinds = picture_kinds();
    assert(kinds[0] == "png"@);
    assert(kinds[1] == "jpg"@);
    assert(kinds[2] == "jpeg"@);
    assert(kinds[3] == "gif"@);
    assert(kinds[4] == "webp"@);
    assert(kinds[5] == "svg"@);
    assert(kinds[6] == "bmp"@);
    assert(kinds[7] == "tif"@);
    assert(kinds[8] == "tiff"@);
}

/// A text refers to a file where a link ends with its name, as it is or encoded, and only then;
/// the encoded name is looked for first.
pub proof fn law_links_end_with_the_file_name(
    before: Seq<char>,
    filename: Seq<char>,
    after: Seq<char>,
    text: Seq<char>,
)
    ensures
        render::reference_to(before + ("]("@ + filename + ")"@) + after, filename) is Some,
        render::reference_to(
            before + ("]("@ + text::expand(filename, render::link_image()) + ")"@) + after,
            filename,
        ) == Some("]("@ + text::expand(filename, render::link_image()) + ")"@),
        render::reference_to(text, filename) matches Some(close) ==> text::contains(text, close)
            && (close == "]("@ + filename + ")"@ || close == "]("@ + text::expand(
            filename,
            render::link_image(),
        ) + ")"@),
        render::reference_to(text, filename) is None ==> !text::contains(
            text,
            "]("@ + filename + ")"@,
        ),
{
    let raw = "]("@ + filename + ")"@;
    let encoded = "]("@ + text::expand(filename, render::link_image()) + ")"@;
    text_laws::law_texts_hold_what_stands_in_them(before, raw, after, text);
    text_laws::law_texts_hold_what_stands_in_them(before, encoded, after, text);
}

/// The images that a text refers to are those of the note to whose files a link leads.
pub proof fn law_referenced_images_are_linked(
    text: Seq<char>,
    images: Seq<ImageModel>,
    image: ImageModel,
)
    ensures
        images.filter(render::refers_to(text)).contains(image) <==> images.contains(image) && (
        text::contains(text, "]("@ + image.filename + ")"@) || text::contains(
            text,
            "]("@ + text::expand(image.filename, render::link_image()) + ")"@,
        )),
{
    let pred = render::refers_to(text);
    let some = images.filter(pred);
    if images.contains(image) && pred(image) {
        let i = choose|i: int| 0 <= i < images.len() && images[i] == image;
        images.lemma_filter_contains(pred, i);
    }
    if some.contains(image) {
        let i = choose|i: int| 0 <= i < some.len() && some[i] == image;
        images.lemma_filter_pred(pred, i);
        images.lemma_filter_contains_rev(pred, image);
    }
}

/// A text that does not end a link to the file stays as it is. Otherwise the first such link, with
/// its alternative text, is replaced by an image tag, and what follows it is taken as if it stood
/// alone: so every link to the file is replaced.
pub proof fn law_every_link_becomes_an_image_tag(
    before: Seq<char>,
    alt: Seq<char>,
    close: Seq<char>,
    after: Seq<char>,
    source: Seq<char>,
)
    requires
        close.len() > 0,
        text::find(before + "!["@ + alt + close + after, close) == Some(
            (before.len() + 2 + alt.len()) as int,
        ),
        text::rfind(before + "!["@ + alt, "!["@) == Some(before.len() as int),
    ensures
        !text::contains(after, close) ==> render::with_img_tags(after, close, source) == after,
        alt.len() == 0 ==> render::with_img_tags(
            before + "!["@ + alt + close + after,
            close,
            source,
        ) == before + ("<img src=\""@ + source + "\">"@) + render::with_img_tags(
            after,
            close,
            source,
        ),
        alt.len() > 0 ==> render::with_img_tags(
            before + "!["@ + alt + close + after,
            close,
            source,
        ) == before + ("<img src=\""@ + source + "\" alt=\""@ + text::expand(
            alt,
            render::attr_image(),
        ) + "\">"@) + render::with_img_tags(after, close, source),
{
    reveal_strlit("![");
    let all = before + "!["@ + alt + close + after;
    let end = (before.len() + 2 + alt.len()) as int;
    text::lemma_find(after, close);
    assert(all.take(end) =~= before + "!["@ + alt);
    assert(all.take(before.len() as int) =~= before);
    assert(all.subrange(before.len() as int + 2, end) =~= alt);
    assert(all.skip(end + close.len()) =~= after);
}

/// The end of a link that no image link begins stays as it is, and what follows it is taken as if
/// it stood alone.
pub proof fn law_other_links_stay(
    before: Seq<char>,
    close: Seq<char>,
    after: Seq<char>,
    source: Seq<char>,
)
    requires
        close.len() > 0,
        text::find(before + close + after, close) == Some(before.len() as int),
        !text::contains(before, "!["@),
    ensures
        render::with_img_tags(before + close + after, close, source) == before + close
            + render::with_img_tags(after, close, source),
{
    let all = before + close + after;
    let end = before.len() as int;
    assert(all.take(end) =~= before);
    text::lemma_rfind_to(before, "!["@, before.len() as int);
    assert(all.take(end + close.len()) =~= before + close);
    assert(all.skip(end + close.len()) =~= after);
}

/// The name of an image in Anki ends with its file name, and is the same for the same attachment
/// and file name; it begins with the mark of this program and sixteen digits for the attachment.
pub proof fn law_image_names_keep_the_file_name(image: ImageModel, other: ImageModel)
    ensures
        exists|front: Seq<char>| render::anki_name(image) == #[trigger] (front + image.filename),
        text::starts_with(render::anki_name(image), "bear_"@),
        image.upload_key == other.upload_key && image.filename == other.filename
            ==> render::anki_name(image) == render::anki_name(other),
        image.upload_key == other.upload_key && render::anki_name(image) == render::anki_name(other)
            ==> image.filename == other.filename,
{
    let digits = digest::short_hash_of(vstd::utf8::encode_utf8(image.upload_key));
    let front = "bear_"@ + digits + "_"@;
    let name = render::anki_name(image);
    assert(name =~= front + image.filename);
    assert(name.subrange(0, "bear_"@.len() as int) =~= "bear_"@);
    if image.upload_key == other.upload_key && name == render::anki_name(other) {
        assert(name.skip(front.len() as int) =~= image.filename);
        assert(render::anki_name(other).skip(front.len() as int) =~= other.filename);
    }
}

/// The text with all its images in place, from the next one on.
pub open spec fn illustrated(pass: PassModel, images: Seq<ImageModel>) -> Seq<char>
    decreases images.len() - pass.next,
{
    if pass.next >= images.len() {
        pass.text
    } else {
        match render::reference_to(pass.text, images[pass.next].filename) {
            None => illustrated(PassModel { next: pass.next + 1, ..pass }, images),
            Some(close) => illustrated(
                render::with_image(pass, close, render::anki_name(images[pass.next])),
                images,
            ),
        }
    }
}

/// Each of the images that has been uploaded has been uploaded under its name.
pub open spec fn uploads_agree(
    images: Seq<ImageModel>,
    uploaded: Map<Seq<char>, Seq<char>>,
) -> bool {
    forall|i: int|
        0 <= i < images.len() && uploaded.contains_key((#[trigger] images[i]).upload_key)
            ==> uploaded[images[i].upload_key] == render::anki_name(images[i])
}

/// Where every upload succeeds, the text comes out the same, whichever of its images had been
/// uploaded before: each link to an image is replaced by a tag with the name of the image.
pub proof fn law_images_come_out_the_same(
    pass: PassModel,
    images: Seq<ImageModel>,
    uploaded: Map<Seq<char>, Seq<char>>,
)
    requires
        0 <= pass.next <= images.len(),
        uploads_agree(images, uploaded),
    ensures
        ({
            let after = render::placed(pass, images, uploaded);
            &&& illustrated(after, images) == illustrated(pass, images)
            &&& after.next == images.len() ==> after.text == illustrated(pass, images)
            &&& render::awaits_upload(after, images) ==> illustrated(
                render::after_upload(after, images),
                images,
            ) == illustrated(pass, images)
        }),
    decreases images.len() - pass.next,
{
    if pass.next < images.len() {
        let image = images[pass.next];
        match render::reference_to(pass.text, image.filename) {
            None => {
                law_images_come_out_the_same(
                    PassModel { next: pass.next + 1, ..pass },
                    images,
                    uploaded,
                );
            },
            Some(close) => {
                if uploaded.contains_key(image.upload_key) {
                    law_images_come_out_the_same(
                        render::with_image(pass, close, uploaded[image.upload_key]),
                        images,
                        uploaded,
                    );
                }
            },
        }
    }
}

/// The text with the images in place that have a name in `names`, in their order. An image
/// without a name, and one that the text does not refer to, leaves the text as it is.
pub open spec fn shown(
    text: Seq<char>,
    images: Seq<ImageModel>,
    names: Seq<Option<Seq<char>>>,
) -> PassModel
    decreases names.len(),
{
    if names.len() == 0 {
        render::untouched(text)
    } else {
        with_name(shown(text, images, names.drop_last()), images, names.last())
    }
}

/// The text with the next image in place, if that has a name and the text refers to it.
pub open spec fn with_name(
    pass: PassModel,
    images: Seq<ImageModel>,
    name: Option<Seq<char>>,
) -> PassModel {
    match (name, render::reference_to(pass.text, images[pass.next].filename)) {
        (Some(source), Some(close)) => render::with_image(pass, close, source),
        _ => PassModel { next: pass.next + 1, ..pass },
    }
}

/// Each name is the one under which the image has been uploaded.
pub open spec fn are_names(
    names: Seq<Option<Seq<char>>>,
    images: Seq<ImageModel>,
    uploaded: Map<Seq<char>, Seq<char>>,
) -> bool {
    forall|i: int|
        0 <= i < names.len() && (#[trigger] names[i]) is Some ==> uploaded.contains_key(
            images[i].upload_key,
        ) && uploaded[images[i].upload_key] == names[i]->0
}

/// The pass has gone over the images of the text up to the next one: each image that it put in
/// place stands there under the name under which it has been uploaded.
pub open spec fn is_pass_over(
    pass: PassModel,
    text: Seq<char>,
    images: Seq<ImageModel>,
    uploaded: Map<Seq<char>, Seq<char>>,
) -> bool {
    exists|names: Seq<Option<Seq<char>>>|
        names.len() == pass.next && are_names(names, images, uploaded) && pass == #[trigger] shown(
            text,
            images,
            names,
        )
}

/// The HTML is that of the text, with its images in place as far as they have been uploaded.
pub open spec fn is_html_of(
    html: Seq<char>,
    text: Seq<char>,
    images: Seq<ImageModel>,
    uploaded: Map<Seq<char>, Seq<char>>,
) -> bool {
    exists|pass: PassModel|
        pass.next == images.len() && #[trigger] is_pass_over(pass, text, images, uploaded) && html
            == render::rendered(pass.text)
}

/// One map holds what the other one holds.
pub open spec fn grows(a: Map<Seq<char>, Seq<char>>, b: Map<Seq<char>, Seq<char>>) -> bool {
    forall|key: Seq<char>| #[trigger]
        a.contains_key(key) ==> b.contains_key(key) && b[key] == a[key]
}

/// A text before any of its images is in place is such a text.
pub proof fn lemma_untouched_over(
    text: Seq<char>,
    images: Seq<ImageModel>,
    uploaded: Map<Seq<char>, Seq<char>>,
)
    ensures
        is_pass_over(render::untouched(text), text, images, uploaded),
{
    let names = Seq::<Option<Seq<char>>>::empty();
    assert(shown(text, images, names) == render::untouched(text));
}

/// A text stays one with its images in place when the next image is looked at.
pub proof fn lemma_next_over(
    pass: PassModel,
    text: Seq<char>,
    images: Seq<ImageModel>,
    uploaded: Map<Seq<char>, Seq<char>>,
    name: Option<Seq<char>>,
)
    requires
        is_pass_over(pass, text, images, uploaded),
        name matches Some(source) ==> uploaded.contains_key(images[pass.next].upload_key)
            && uploaded[images[pass.next].upload_key] == source,
    ensures
        is_pass_over(with_name(pass, images, name), text, images, uploaded),
{
    let names = choose|names: Seq<Option<Seq<char>>>|
        names.len() == pass.next && are_names(names, images, uploaded) && pass == #[trigger] shown(
            text,
            images,
            names,
        );
    let more = names.push(name);
    assert(more.drop_last() =~= names);
    assert forall|i: int| 0 <= i < more.len() && (#[trigger] more[i]) is Some implies
        uploaded.contains_key(images[i].upload_key) && uploaded[images[i].upload_key]
        == more[i]->0 by {
        if i < names.len() {
            assert(names[i] is Some);
        }
    }
    assert(shown(text, images, more) == with_name(pass, images, name));
}

/// A text stays one with its images in place when those that have been uploaded are put in place.
pub proof fn lemma_placed_over(
    pass: PassModel,
    text: Seq<char>,
    images: Seq<ImageModel>,
    uploaded: Map<Seq<char>, Seq<char>>,
)
    requires
        is_pass_over(pass, text, images, uploaded),
    ensures
        is_pass_over(render::placed(pass, images, uploaded), text, images, uploaded),
    decreases images.len() - pass.next,
{
    if pass.next < images.len() {
        let image = images[pass.next];
        match render::reference_to(pass.text, image.filename) {
            None => {
                lemma_next_over(pass, text, images, uploaded, None);
                lemma_placed_over(with_name(pass, images, None), text, images, uploaded);
            },
            Some(close) => {
                if uploaded.contains_key(image.upload_key) {
                    let name = Some(uploaded[image.upload_key]);
                    lemma_next_over(pass, text, images, uploaded, name);
                    lemma_placed_over(with_name(pass, images, name), text, images, uploaded);
                }
            },
        }
    }
}

/// More uploads change nothing of the images that are in place.
pub proof fn lemma_over_grows(
    pass: PassModel,
    text: Seq<char>,
    images: Seq<ImageModel>,
    uploaded: Map<Seq<char>, Seq<char>>,
    more: Map<Seq<char>, Seq<char>>,
)
    requires
        is_pass_over(pass, text, images, uploaded),
        grows(uploaded, more),
    ensures
        is_pass_over(pass, text, images, more),
{
    let names = choose|names: Seq<Option<Seq<char>>>|
        names.len() == pass.next && are_names(names, images, uploaded) && pass == #[trigger] shown(
            text,
            images,
            names,
        );
    assert(are_names(names, images, more));
}

/// More uploads change nothing of a text that is rendered.
pub proof fn lemma_html_grows(
    html: Seq<char>,
    text: Seq<char>,
    images: Seq<ImageModel>,
    uploaded: Map<Seq<char>, Seq<char>>,
    more: Map<Seq<char>, Seq<char>>,
)
    requires
        is_html_of(html, text, images, uploaded),
        grows(uploaded, more),
    ensures
        is_html_of(html, text, images, more),
{
    let pass = choose|pass: PassModel|
        pass.next == images.len() && #[trigger] is_pass_over(pass, text, images, uploaded) && html
            == render::rendered(pass.text);
    lemma_over_grows(pass, text, images, uploaded, more);
}

} // verus!
