//! What holds of the callouts of every note, and of the cards that they make.

use vstd::prelude::*;

use crate::outline;
use crate::outline::{Block, Place};
use crate::parser;
use crate::parser::{Callout, Content, Sides};
use crate::text;
use crate::text_laws;

verus! {

// ── Comments ─────────────────────────────────────────────────────────────────

/// The first comment of a text is taken out, with its marks, and what follows it is taken as if it
/// stood alone: so every comment is taken out, and nothing else.
pub proof fn law_every_comment_is_taken_out(
    before: Seq<char>,
    comment: Seq<char>,
    after: Seq<char>,
)
    requires
        text::find(before + "<!--"@ + comment + "-->"@ + after, "<!--"@) == Some(
            before.len() as int,
        ),
        text::find(comment + "-->"@ + after, "-->"@) == Some(comment.len() as int),
    ensures
        parser::without_comments(before + "<!--"@ + comment + "-->"@ + after) == before
            + parser::without_comments(after),
{
    reveal_strlit("<!--");
    reveal_strlit("-->");
    let input = before + "<!--"@ + comment + "-->"@ + after;
    let inner = input.skip(before.len() as int + 4);
    assert(inner =~= comment + "-->"@ + after);
    assert(input.take(before.len() as int) =~= before);
    assert(inner.skip(comment.len() as int + 3) =~= after);
}

// ── Marks and titles ─────────────────────────────────────────────────────────

/// The types of callouts that make cards.
pub open spec fn callout_types() -> Seq<Seq<char>> {
    seq!["CARD"@, "TIP"@, "NOTE"@, "IMPORTANT"@, "WARNING"@]
}

/// A line with the mark of a callout.
pub open spec fn marked(name: Seq<char>, rest: Seq<char>) -> Seq<char> {
    "> [!"@ + name + "]"@ + rest
}

/// A line opens a callout if it begins with the mark of one of the types, and only then. The
/// callout has that type, in small letters, and what follows the mark.
pub proof fn law_callouts_begin_with_their_mark(line: Seq<char>, k: int, rest: Seq<char>)
    requires
        0 <= k < callout_types().len(),
    ensures
        parser::callout_of(marked(callout_types()[k], rest)) == Some(
            (Callout { callout_type: text::ascii_lowercase(callout_types()[k]), rest }),
        ),
        parser::callout_of(line) matches Some(callout) ==> exists|i: int|
            0 <= i < callout_types().len() && line == marked(
                #[trigger] callout_types()[i],
                callout.rest,
            ) && callout.callout_type == text::ascii_lowercase(callout_types()[i]),
{
    lemma_marks();
    let name = callout_types()[k];
    lemma_marked(name, rest);
    assert(name == "CARD"@ || name == "TIP"@ || name == "NOTE"@ || name == "IMPORTANT"@ || name
        == "WARNING"@);
    assert(name.len() > 0 && "CARD"@.len() > 0 && "TIP"@.len() > 0 && "NOTE"@.len() > 0
        && "IMPORTANT"@.len() > 0 && "CARD"@[0] == 'C' && "TIP"@[0] == 'T'
        && "NOTE"@[0] == 'N' && "IMPORTANT"@[0] == 'I' && "WARNING"@[0] == 'W') by {
        reveal_strlit("CARD");
        reveal_strlit("TIP");
        reveal_strlit("NOTE");
        reveal_strlit("IMPORTANT");
        reveal_strlit("WARNING");
    }
    if k != 0 {
        lemma_other_mark(name, "CARD"@, rest);
    }
    if k != 1 {
        lemma_other_mark(name, "TIP"@, rest);
    }
    if k != 2 {
        lemma_other_mark(name, "NOTE"@, rest);
    }
    if k != 3 {
        lemma_other_mark(name, "IMPORTANT"@, rest);
    }
    if let Some(callout) = parser::callout_of(line) {
        let i: int = if text::starts_with(line, "> [!CARD]"@) {
            0
        } else if text::starts_with(line, "> [!TIP]"@) {
            1
        } else if text::starts_with(line, "> [!NOTE]"@) {
            2
        } else if text::starts_with(line, "> [!IMPORTANT]"@) {
            3
        } else {
            4
        };
        let mark = marked(callout_types()[i], Seq::empty());
        assert(text::starts_with(line, mark));
        text_laws::law_prefixes_are_taken_off(mark, callout.rest, line);
        assert(mark + callout.rest =~= marked(callout_types()[i], callout.rest));
        assert(line == marked(callout_types()[i], callout.rest));
    }
}

/// The marks are those of the types.
proof fn lemma_marks()
    ensures
        marked("CARD"@, Seq::empty()) == "> [!CARD]"@,
        marked("TIP"@, Seq::empty()) == "> [!TIP]"@,
        marked("NOTE"@, Seq::empty()) == "> [!NOTE]"@,
        marked("IMPORTANT"@, Seq::empty()) == "> [!IMPORTANT]"@,
        marked("WARNING"@, Seq::empty()) == "> [!WARNING]"@,
        text::ascii_lowercase("CARD"@) == "card"@,
        text::ascii_lowercase("TIP"@) == "tip"@,
        text::ascii_lowercase("NOTE"@) == "note"@,
        text::ascii_lowercase("IMPORTANT"@) == "important"@,
        text::ascii_lowercase("WARNING"@) == "warning"@,
        callout_types()[0] == "CARD"@,
        callout_types()[1] == "TIP"@,
        callout_types()[2] == "NOTE"@,
        callout_types()[3] == "IMPORTANT"@,
        callout_types()[4] == "WARNING"@,
{
    reveal_strlit("> [!");
    reveal_strlit("]");
    reveal_strlit("CARD");
    reveal_strlit("TIP");
    reveal_strlit("NOTE");
    reveal_strlit("IMPORTANT");
    reveal_strlit("WARNING");
    reveal_strlit("card");
    reveal_strlit("tip");
    reveal_strlit("note");
    reveal_strlit("important");
    reveal_strlit("warning");
    reveal_strlit("> [!CARD]");
    reveal_strlit("> [!TIP]");
    reveal_strlit("> [!NOTE]");
    reveal_strlit("> [!IMPORTANT]");
    reveal_strlit("> [!WARNING]");
    assert(marked("CARD"@, Seq::empty()) =~= "> [!CARD]"@);
    assert(marked("TIP"@, Seq::empty()) =~= "> [!TIP]"@);
    assert(marked("NOTE"@, Seq::empty()) =~= "> [!NOTE]"@);
    assert(marked("IMPORTANT"@, Seq::empty()) =~= "> [!IMPORTANT]"@);
    assert(marked("WARNING"@, Seq::empty()) =~= "> [!WARNING]"@);
    assert(text::ascii_lowercase("CARD"@) =~= "card"@);
    assert(text::ascii_lowercase("TIP"@) =~= "tip"@);
    assert(text::ascii_lowercase("NOTE"@) =~= "note"@);
    assert(text::ascii_lowercase("IMPORTANT"@) =~= "important"@);
    assert(text::ascii_lowercase("WARNING"@) =~= "warning"@);
}

/// A marked line begins with its mark.
proof fn lemma_marked(name: Seq<char>, rest: Seq<char>)
    ensures
        text::strip_prefix(marked(name, rest), marked(name, Seq::empty())) == Some(rest),
{
    let mark = marked(name, Seq::empty());
    assert(marked(name, rest) =~= mark + rest);
    text_laws::law_prefixes_are_taken_off(mark, rest, mark);
}

/// A line does not begin with the marks of two types.
proof fn lemma_other_mark(name: Seq<char>, other: Seq<char>, rest: Seq<char>)
    requires
        name.len() > 0,
        other.len() > 0,
        name[0] != other[0],
    ensures
        text::strip_prefix(marked(name, rest), marked(other, Seq::empty())) is None,
{
    reveal_strlit("> [!");
    let line = marked(name, rest);
    let mark = marked(other, Seq::empty());
    if text::starts_with(line, mark) {
        assert(line.subrange(0, mark.len() as int)[4] == mark[4]);
        assert(line[4] == name[0]);
        assert(mark[4] == other[0]);
    }
}

/// The title of a callout is what follows a space behind its mark, without the white space at its
/// ends. Where that is empty, or no space follows the mark, there is none.
pub proof fn law_titles_follow_a_space(
    before: Seq<char>,
    title: Seq<char>,
    after: Seq<char>,
    rest: Seq<char>,
)
    requires
        text_laws::is_blank(before),
        text_laws::is_tight(title),
        text_laws::is_blank(after),
    ensures
        title.len() > 0 ==> parser::title_of(seq![' '] + (before + title + after)) == Some(title),
        title.len() == 0 ==> parser::title_of(seq![' '] + (before + title + after)) is None,
        rest.len() == 0 || rest[0] != ' ' ==> parser::title_of(rest) is None,
{
    reveal_strlit(" ");
    let content = before + title + after;
    let all = seq![' '] + content;
    assert(" "@ =~= seq![' ']);
    text_laws::law_prefixes_are_taken_off(" "@, content, rest);
    text_laws::law_white_space_at_the_ends_is_taken_off(before, title, after);
    if text::starts_with(rest, " "@) {
        assert(rest.subrange(0, 1)[0] == ' ');
    }
}

// ── Bodies ───────────────────────────────────────────────────────────────────

/// A quoted line is one that begins with a bracket and a space, which are no part of its content,
/// or is a bracket alone, without content; no other line is quoted.
pub proof fn law_quoted_lines_begin_with_a_bracket(content: Seq<char>, line: Seq<char>)
    ensures
        outline::quoted(seq!['>', ' '] + content) == Some(content),
        outline::quoted(seq!['>']) == Some(Seq::<char>::empty()),
        outline::quoted(line) matches Some(c) ==> line == seq!['>', ' '] + c || (line == seq!['>']
            && c.len() == 0),
{
    reveal_strlit("> ");
    reveal_strlit(">");
    assert("> "@ =~= seq!['>', ' ']);
    assert(">"@ =~= seq!['>']);
    text_laws::law_prefixes_are_taken_off("> "@, content, line);
    if text::starts_with(seq!['>'], "> "@) {
        assert(seq!['>'].len() >= 2);
    }
}

/// The lines with a bracket and a space before each.
pub open spec fn quoted_lines(body: Seq<Seq<char>>) -> Seq<Seq<char>> {
    body.map_values(|line: Seq<char>| seq!['>', ' '] + line)
}

/// The body of a callout are all the quoted lines that follow it, up to the first that is not
/// quoted.
pub proof fn law_bodies_reach_to_the_next_other_line(body: Seq<Seq<char>>, rest: Seq<Seq<char>>)
    requires
        rest.len() > 0 ==> outline::quoted(rest[0]) is None,
    ensures
        outline::body_of(quoted_lines(body) + rest) == body,
    decreases body.len(),
{
    let lines = quoted_lines(body) + rest;
    if body.len() == 0 {
        assert(lines =~= rest);
        assert(body =~= Seq::empty());
    } else {
        law_bodies_reach_to_the_next_other_line(body.skip(1), rest);
        assert(lines.skip(1) =~= quoted_lines(body.skip(1)) + rest);
        assert(lines[0] == seq!['>', ' '] + body[0]);
        law_quoted_lines_begin_with_a_bracket(body[0], lines[0]);
        assert(seq![body[0]] + body.skip(1) =~= body);
    }
}

// ── Sides ────────────────────────────────────────────────────────────────────

/// The parts of a joined text stand in it.
proof fn lemma_part_stands_in(parts: Seq<Seq<char>>, separator: Seq<char>, i: int)
    requires
        0 <= i < parts.len(),
    ensures
        exists|a: Seq<char>, b: Seq<char>|
            text::join(parts, separator) == #[trigger] (a + parts[i] + b),
{
    let whole = text::join(parts, separator);
    let one = seq![parts[i]];
    let front = parts.take(i);
    let back = parts.skip(i + 1);
    text_laws::law_parts_are_joined_in_order(parts[i], front, one, separator);
    let empty = Seq::<char>::empty();
    let a = if i == 0 {
        empty
    } else {
        text::join(front, separator) + separator
    };
    let upto = parts.take(i + 1);
    assert(upto =~= front + one);
    if i == 0 {
        assert(upto =~= one);
    }
    assert(text::join(upto, separator) =~= a + parts[i]);
    text_laws::law_parts_are_joined_in_order(parts[i], upto, back, separator);
    let b = if i == parts.len() - 1 {
        empty
    } else {
        separator + text::join(back, separator)
    };
    if i == parts.len() - 1 {
        assert(upto =~= parts);
    } else {
        assert(parts =~= upto + back);
    }
    assert(whole =~= a + parts[i] + b);
}

/// A line of the body without the white space at its ends stands in the whole body without the
/// white space at its ends.
proof fn lemma_line_stands_in(body: Seq<Seq<char>>, i: int)
    requires
        0 <= i < body.len(),
    ensures
        text::contains(text::trim(text::join(body, "\n"@)), text::trim(body[i])),
{
    let whole = text::join(body, "\n"@);
    let line = text::trim(body[i]);
    lemma_part_stands_in(body, "\n"@, i);
    let (a, b) = choose|a: Seq<char>, b: Seq<char>| whole == #[trigger] (a + body[i] + b);
    let (c, d) = text_laws::law_a_trimmed_text_stands_between_white_space(body[i]);
    let (e, f) = text_laws::law_a_trimmed_text_stands_between_white_space(whole);
    let middle = text::trim(whole);
    let at = (a.len() + c.len()) as int;
    if line.len() == 0 {
        assert(middle.subrange(0, 0) =~= line);
        assert(text::occurs_at(middle, line, 0));
    } else {
        assert(whole =~= (a + c) + line + (d + b));
        assert(whole[at] == line[0]);
        assert(whole[at + line.len() - 1] == line.last());
        if at < e.len() {
            assert(text::is_whitespace(e[at]));
        }
        if at + line.len() > e.len() + middle.len() {
            assert(text::is_whitespace(f[at + line.len() - 1 - e.len() - middle.len()]));
        }
        let start = at - e.len();
        assert(start >= 0 && start + line.len() <= middle.len());
        assert forall|j: int| 0 <= j < line.len() implies middle[start + j] == line[j] by {
            assert(whole[at + j] == line[j]);
            assert(whole[e.len() + (start + j)] == middle[start + j]);
        }
        assert(middle.subrange(start, start + line.len()) =~= line);
        assert(text::occurs_at(middle, line, start));
    }
}

/// A callout with a title whose body has no blank makes a basic card: its front is the title, and
/// its back all lines of the body, joined by newlines, without the white space at the ends. So
/// every line stands in the back, and two bodies that differ as such texts make different backs.
pub proof fn law_the_back_is_the_whole_body(
    title: Seq<char>,
    body: Seq<Seq<char>>,
    other: Seq<Seq<char>>,
    i: int,
)
    requires
        forall|k: int| 0 <= k < body.len() ==> !text::contains(#[trigger] body[k], "{{"@),
        forall|k: int| 0 <= k < other.len() ==> !text::contains(#[trigger] other[k], "{{"@),
        0 <= i < body.len(),
    ensures
        ({
            let card = parser::content_of(Some(title), body);
            &&& card matches Some(content) && content.kind == (Sides::Basic {
                front: title,
                back: text::trim(text::join(body, "\n"@)),
            }) && content.identity == title && text::contains(
                content.kind->back,
                text::trim(body[i]),
            )
            &&& text::trim(text::join(body, "\n"@)) != text::trim(text::join(other, "\n"@))
                ==> parser::content_of(Some(title), other) != card
        }),
{
    lemma_line_stands_in(body, i);
}

/// A callout with a title and no body makes a basic card with an empty back.
pub proof fn law_a_title_alone_makes_a_card(title: Seq<char>)
    ensures
        parser::content_of(Some(title), Seq::empty()) == Some(
            (Content {
                kind: Sides::Basic { front: title, back: Seq::empty() },
                identity: title,
            }),
        ),
{
    let empty = Seq::<char>::empty();
    assert(text::trim(text::join(Seq::empty(), "\n"@)) =~= empty);
}

proof fn lemma_separator(front: Seq<Seq<char>>, line: Seq<char>, back: Seq<Seq<char>>, start: int)
    requires
        0 <= start <= front.len(),
        text::trim(line) == "---"@,
        forall|k: int| 0 <= k < front.len() ==> text::trim(#[trigger] front[k]) != "---"@,
    ensures
        parser::separator_from(front + seq![line] + back, start) == Some(front.len() as int),
    decreases front.len() - start,
{
    let body = front + seq![line] + back;
    if start < front.len() {
        assert(body[start] == front[start]);
        lemma_separator(front, line, back, start + 1);
    } else {
        assert(body[start] == line);
    }
}

proof fn lemma_no_separator(body: Seq<Seq<char>>, start: int)
    requires
        0 <= start,
        forall|k: int| 0 <= k < body.len() ==> text::trim(#[trigger] body[k]) != "---"@,
    ensures
        parser::separator_from(body, start) is None,
    decreases body.len() - start,
{
    if start < body.len() {
        lemma_no_separator(body, start + 1);
    }
}

/// A callout without a title and without a blank makes a basic card where a line of three dashes
/// parts its body: the lines before the first such line are the front, those behind it the back.
/// Without such a line, or with nothing before it, it makes no card.
pub proof fn law_dashes_part_front_and_back(
    front: Seq<Seq<char>>,
    line: Seq<char>,
    back: Seq<Seq<char>>,
)
    requires
        forall|k: int|
            0 <= k < front.len() ==> text::trim(#[trigger] front[k]) != "---"@ && !text::contains(
                front[k],
                "{{"@,
            ),
        text::trim(line) == "---"@,
        !text::contains(line, "{{"@),
        forall|k: int| 0 <= k < back.len() ==> !text::contains(#[trigger] back[k], "{{"@),
    ensures
        text::trim(text::join(front, "\n"@)).len() > 0 ==> parser::content_of(
            None,
            front + seq![line] + back,
        ) == Some(
            (Content {
                kind: Sides::Basic {
                    front: text::trim(text::join(front, "\n"@)),
                    back: text::trim(text::join(back, "\n"@)),
                },
                identity: text::trim(text::join(front, "\n"@)),
            }),
        ),
        text::trim(text::join(front, "\n"@)).len() == 0 ==> parser::content_of(
            None,
            front + seq![line] + back,
        ) is None,
        parser::content_of(None, front) is None,
{
    let body = front + seq![line] + back;
    lemma_separator(front, line, back, 0);
    lemma_no_separator(front, 0);
    assert(body.take(front.len() as int) =~= front);
    assert(body.skip(front.len() as int + 1) =~= back);
    assert(!parser::has_cloze(body)) by {
        if parser::has_cloze(body) {
            let k = choose|k: int|
                0 <= k < body.len() && text::contains(#[trigger] body[k], "{{"@);
            if k < front.len() {
                assert(body[k] == front[k]);
            } else if k > front.len() {
                assert(body[k] == back[k - front.len() - 1]);
            }
        }
    }
}

/// A callout with a blank in its body makes a cloze card of the whole body, whatever its title:
/// the blanks are numbered, and the body as it is identifies the card.
pub proof fn law_blanks_make_a_cloze_card(
    title: Option<Seq<char>>,
    body: Seq<Seq<char>>,
    i: int,
)
    requires
        0 <= i < body.len(),
        text::contains(body[i], "{{"@),
    ensures
        parser::content_of(title, body) matches Some(content) && content.identity == text::join(
            body,
            "\n"@,
        ) && content.kind == (Sides::Cloze {
            text: parser::numbered_blanks(text::join(body, "\n"@), 1),
        }),
{
    assert(parser::has_cloze(body));
}

// ── Whole notes ──────────────────────────────────────────────────────────────

/// A heading line changes the place of what follows it, and makes no callout; so do other lines,
/// without a change of the place.
pub proof fn law_other_lines_make_no_callout(
    line: Seq<char>,
    rest: Seq<Seq<char>>,
    place: Place,
)
    requires
        parser::callout_of(line) is None || outline::is_heading(line),
    ensures
        outline::blocks(seq![line] + rest, place) == outline::blocks(
            rest,
            outline::below(place, line),
        ),
        outline::blocks(Seq::empty(), place) == Seq::<Block>::empty(),
{
    let lines = seq![line] + rest;
    assert(lines.skip(1) =~= rest);
    assert(lines[0] == line);
}

/// A line with a mark makes a callout with the title behind the mark and the quoted lines that
/// follow as its body, at the place where it stands; what follows the body is taken as if it stood
/// alone.
pub proof fn law_marked_lines_make_callouts(
    k: int,
    after_mark: Seq<char>,
    body: Seq<Seq<char>>,
    rest: Seq<Seq<char>>,
    place: Place,
)
    requires
        0 <= k < callout_types().len(),
        rest.len() > 0 ==> outline::quoted(rest[0]) is None,
    ensures
        outline::blocks(
            seq![marked(callout_types()[k], after_mark)] + (quoted_lines(body) + rest),
            place,
        ) == seq![
            Block {
                place,
                callout_type: text::ascii_lowercase(callout_types()[k]),
                title: parser::title_of(after_mark),
                body,
            },
        ] + outline::blocks(rest, place),
{
    let line = marked(callout_types()[k], after_mark);
    let tail = quoted_lines(body) + rest;
    let lines = seq![line] + tail;
    law_callouts_begin_with_their_mark(line, k, after_mark);
    law_bodies_reach_to_the_next_other_line(body, rest);
    assert(lines.skip(1) =~= tail);
    assert(lines.skip(1 + body.len() as int) =~= rest);
    reveal_strlit("> [!");
    reveal_strlit("### ");
    reveal_strlit("## ");
    reveal_strlit("# ");
    assert(line[0] == '>');
    assert(!outline::is_heading(line)) by {
        if text::starts_with(line, "### "@) {
            assert(line.subrange(0, 4)[0] == '#');
        }
        if text::starts_with(line, "## "@) {
            assert(line.subrange(0, 3)[0] == '#');
        }
        if text::starts_with(line, "# "@) {
            assert(line.subrange(0, 2)[0] == '#');
        }
    }
}

/// Of the callouts those are taken that make cards, in their order.
pub proof fn law_callouts_that_make_cards_are_taken(a: Seq<Block>, b: Seq<Block>, block: Block)
    ensures
        outline::card_blocks(a + b) == outline::card_blocks(a) + outline::card_blocks(b),
        outline::card_blocks(Seq::empty()) == Seq::<Block>::empty(),
        parser::content_of(block.title, block.body) is Some ==> outline::card_blocks(seq![block])
            == seq![block],
        parser::content_of(block.title, block.body) is None ==> outline::card_blocks(seq![block])
            == Seq::<Block>::empty(),
{
    let pred = |block: Block| outline::is_card(block);
    Seq::filter_distributes_over_add(a, b, pred);
    reveal(Seq::filter);
    assert(seq![block].drop_last() =~= Seq::<Block>::empty());
    assert(Seq::<Block>::empty().filter(pred) =~= Seq::<Block>::empty());
    assert(outline::card_blocks(seq![block].drop_last()) =~= Seq::<Block>::empty());
    if outline::is_card(block) {
        assert(outline::card_blocks(seq![block]) =~= seq![block]);
    } else {
        assert(outline::card_blocks(seq![block]) =~= Seq::<Block>::empty());
    }
}

/// The cards of a note are those that its callouts make, one for each, in their order: each has
/// the sides, the type and the headings of its callout, is identified by the digest of the text
/// that identifies it, and is numbered from one on.
pub proof fn law_cards_are_those_of_the_callouts(
    title: Seq<char>,
    body: Seq<char>,
    deck_override: Option<Seq<char>>,
    i: int,
)
    requires
        0 <= i < parser::cards_of(title, body, deck_override).len(),
    ensures
        ({
            let callouts = outline::card_blocks(
                outline::blocks(
                    text::lines(parser::without_comments(body)),
                    outline::top(title),
                ),
            );
            let card = parser::cards_of(title, body, deck_override)[i];
            &&& parser::cards_of(title, body, deck_override).len() == callouts.len()
            &&& parser::content_of(callouts[i].title, callouts[i].body) matches Some(content)
                && content.kind == card.kind && card.fingerprint == parser::fingerprint_of(
                content.identity,
            )
            &&& card.callout_type == callouts[i].callout_type
            &&& text_laws::number_of_digits(card.sort_key) == i + 1
            &&& card.context == parser::context_at(callouts[i].place)
            &&& card.deck == (match deck_override {
                Some(deck) => deck,
                None => parser::deck_at(callouts, callouts[i].place),
            })
        }),
{
    let all = outline::blocks(text::lines(parser::without_comments(body)), outline::top(title));
    all.lemma_filter_pred(|block: Block| outline::is_card(block), i);
    text_laws::law_padded_numbers_stand_for_the_number(
        (i + 1) as nat,
        outline::width_for(outline::card_blocks(all).len()),
    );
}

} // verus!
