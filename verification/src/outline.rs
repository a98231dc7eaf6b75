//! The outline of a note: which headings stand above each callout, and the numbers that the
//! headings with cards below them get among their siblings.

use vstd::prelude::*;

use crate::chars;
use crate::parser;
use crate::text;

verus! {

// ── Places and blocks ────────────────────────────────────────────────────────

/// A heading of the second or third level, with its number among the headings of its level under
/// the same parent.
pub struct Heading {
    pub title: Seq<char>,
    pub number: nat,
}

/// The headings that stand above a line.
pub struct Place {
    pub h1: Seq<char>,
    /// How many first-level headings precede the line.
    pub section: nat,
    pub h2: Option<Heading>,
    pub h3: Option<Heading>,
}

/// A callout with the headings above it.
pub struct Block {
    pub place: Place,
    pub callout_type: Seq<char>,
    pub title: Option<Seq<char>>,
    pub body: Seq<Seq<char>>,
}

/// The number of a heading, 0 where there is none.
pub open spec fn number_of(heading: Option<Heading>) -> nat {
    match heading {
        Some(h) => h.number,
        None => 0,
    }
}

/// The place at the top of a note.
pub open spec fn top(title: Seq<char>) -> Place {
    Place { h1: text::trim(title), section: 0, h2: None, h3: None }
}

/// The line is a heading of one of the three levels.
pub open spec fn is_heading(line: Seq<char>) -> bool {
    ||| text::starts_with(line, "### "@)
    ||| text::starts_with(line, "## "@)
    ||| text::starts_with(line, "# "@)
}

/// The place below a line. A heading of the second level clears the third, and one of the first
/// level clears both.
pub open spec fn below(place: Place, line: Seq<char>) -> Place {
    if let Some(title) = text::strip_prefix(line, "### "@) {
        Place {
            h3: Some(Heading { title: text::trim(title), number: number_of(place.h3) + 1 }),
            ..place
        }
    } else if let Some(title) = text::strip_prefix(line, "## "@) {
        Place {
            h2: Some(Heading { title: text::trim(title), number: number_of(place.h2) + 1 }),
            h3: None,
            ..place
        }
    } else if let Some(title) = text::strip_prefix(line, "# "@) {
        Place { h1: text::trim(title), section: place.section + 1, h2: None, h3: None }
    } else {
        place
    }
}

/// The text of a quoted line, without the quotation mark.
pub open spec fn quoted(line: Seq<char>) -> Option<Seq<char>> {
    if let Some(content) = text::strip_prefix(line, "> "@) {
        Some(content)
    } else if line == ">"@ {
        Some(Seq::empty())
    } else {
        None
    }
}

/// The texts of the quoted lines that `lines` begins with.
pub open spec fn body_of(lines: Seq<Seq<char>>) -> Seq<Seq<char>>
    decreases lines.len(),
{
    if lines.len() > 0 && quoted(lines[0]) is Some {
        seq![quoted(lines[0])->0] + body_of(lines.skip(1))
    } else {
        Seq::empty()
    }
}

/// A body takes no more lines than there are.
pub proof fn lemma_body_len(lines: Seq<Seq<char>>)
    ensures
        body_of(lines).len() <= lines.len(),
    decreases lines.len(),
{
    if lines.len() > 0 {
        lemma_body_len(lines.skip(1));
    }
}

/// The callouts among some lines, the first of which stands at `place`.
pub open spec fn blocks(lines: Seq<Seq<char>>, place: Place) -> Seq<Block>
    decreases lines.len(),
{
    if lines.len() == 0 {
        Seq::empty()
    } else if is_heading(lines[0]) {
        blocks(lines.skip(1), below(place, lines[0]))
    } else if let Some(callout) = parser::callout_of(lines[0]) {
        proof {
            lemma_body_len(lines.skip(1));
        }
        let body = body_of(lines.skip(1));
        let block = Block {
            place,
            callout_type: callout.callout_type,
            title: parser::title_of(callout.rest),
            body,
        };
        seq![block] + blocks(lines.skip(1 + body.len() as int), place)
    } else {
        blocks(lines.skip(1), place)
    }
}

/// The callout makes a card.
pub open spec fn is_card(block: Block) -> bool {
    parser::content_of(block.title, block.body) is Some
}

/// The callouts that make cards.
pub open spec fn card_blocks(all: Seq<Block>) -> Seq<Block> {
    all.filter(|block: Block| is_card(block))
}

/// One more callout is one more card where it makes one.
pub proof fn lemma_card_blocks_step(all: Seq<Block>, i: int)
    requires
        0 <= i < all.len(),
    ensures
        card_blocks(all.take(i + 1)) == if is_card(all[i]) {
            card_blocks(all.take(i)).push(all[i])
        } else {
            card_blocks(all.take(i))
        },
        card_blocks(all) == card_blocks(all.take(i + 1)) + card_blocks(all.skip(i + 1)),
{
    let pred = |block: Block| is_card(block);
    reveal(Seq::filter);
    assert(all.take(i + 1).drop_last() == all.take(i));
    assert(all == all.take(i + 1) + all.skip(i + 1));
    Seq::filter_distributes_over_add(all.take(i + 1), all.skip(i + 1), pred);
}

// ── Scanning ─────────────────────────────────────────────────────────────────

/// A heading of the second or third level with its number.
pub struct NumberedHeading {
    pub title: String,
    pub number: usize,
}

/// The headings above a line.
pub struct Position {
    pub h1: String,
    pub section: usize,
    pub h2: Option<NumberedHeading>,
    pub h3: Option<NumberedHeading>,
}

/// A callout with the headings above it.
pub struct CalloutBlock {
    pub position: Position,
    pub callout_type: String,
    pub title: Option<String>,
    pub body_lines: Vec<String>,
}

impl View for NumberedHeading {
    type V = Heading;

    open spec fn view(&self) -> Heading {
        Heading { title: self.title@, number: self.number as nat }
    }
}

/// The model of a heading, where there is one.
pub open spec fn heading_model(heading: Option<NumberedHeading>) -> Option<Heading> {
    match heading {
        Some(h) => Some(h@),
        None => None,
    }
}

impl View for Position {
    type V = Place;

    open spec fn view(&self) -> Place {
        Place {
            h1: self.h1@,
            section: self.section as nat,
            h2: heading_model(self.h2),
            h3: heading_model(self.h3),
        }
    }
}

impl View for CalloutBlock {
    type V = Block;

    open spec fn view(&self) -> Block {
        Block {
            place: self.position@,
            callout_type: self.callout_type@,
            title: text::opt_text(self.title),
            body: text::texts(self.body_lines@),
        }
    }
}

/// What a list of callouts says.
pub open spec fn block_models(list: Seq<CalloutBlock>) -> Seq<Block> {
    Seq::new(list.len(), |i: int| list[i]@)
}

fn clone_heading(heading: &Option<NumberedHeading>) -> (copy: Option<NumberedHeading>)
    ensures
        heading_model(copy) == heading_model(*heading),
{
    match heading {
        Some(h) => Some(NumberedHeading { title: h.title.clone(), number: h.number }),
        None => None,
    }
}

fn clone_position(position: &Position) -> (copy: Position)
    ensures
        copy@ == position@,
{
    Position {
        h1: position.h1.clone(),
        section: position.section,
        h2: clone_heading(&position.h2),
        h3: clone_heading(&position.h3),
    }
}

/// The number of a heading, 0 where there is none.
pub fn heading_number(heading: &Option<NumberedHeading>) -> (number: usize)
    ensures
        number == number_of(heading_model(*heading)),
{
    match heading {
        Some(h) => h.number,
        None => 0,
    }
}

/// The text of a quoted line, without the quotation mark.
fn quoted_text(line: &str) -> (content: Option<String>)
    ensures
        text::opt_text(content) == quoted(line@),
{
    match chars::strip_prefix(line, "> ") {
        Some(content) => Some(content),
        None => if chars::same_text(line, ">") {
            Some(String::new())
        } else {
            None
        },
    }
}

/// The quoted lines that begin at position `start`.
fn collect_body(lines: &Vec<String>, start: usize) -> (body: Vec<String>)
    requires
        start <= lines@.len(),
    ensures
        text::texts(body@) == body_of(text::texts(lines@).skip(start as int)),
        start + body@.len() <= lines@.len(),
{
    let ghost all = text::texts(lines@);
    let mut body: Vec<String> = Vec::new();
    let mut index = start;
    while index < lines.len()
        invariant
            all == text::texts(lines@),
            start <= index <= lines@.len(),
            body@.len() == index - start,
            text::texts(body@) + body_of(all.skip(index as int)) == body_of(all.skip(start as int)),
        decreases lines@.len() - index,
    {
        assert(all.skip(index as int).skip(1) == all.skip(index + 1));
        match quoted_text(lines[index].as_str()) {
            Some(content) => {
                let ghost before = body@;
                body.push(content);
                assert(text::texts(body@) == text::texts(before) + seq![content@]);
                index = index + 1;
            },
            None => {
                return body;
            },
        }
    }
    body
}

/// Moves a position below a heading line. Gives whether the line is a heading.
fn pass_heading(position: &mut Position, line: &str) -> (heading: bool)
    requires
        old(position)@.section < usize::MAX,
        number_of(old(position)@.h2) < usize::MAX,
        number_of(old(position)@.h3) < usize::MAX,
    ensures
        heading == is_heading(line@),
        final(position)@ == below(old(position)@, line@),
{
    if let Some(title) = chars::strip_prefix(line, "### ") {
        let number = heading_number(&position.h3) + 1;
        position.h3 = Some(NumberedHeading { title: chars::trim(title.as_str()), number });
        true
    } else if let Some(title) = chars::strip_prefix(line, "## ") {
        let number = heading_number(&position.h2) + 1;
        position.h2 = Some(NumberedHeading { title: chars::trim(title.as_str()), number });
        position.h3 = None;
        true
    } else if let Some(title) = chars::strip_prefix(line, "# ") {
        position.h1 = chars::trim(title.as_str());
        position.section = position.section + 1;
        position.h2 = None;
        position.h3 = None;
        true
    } else {
        false
    }
}

/// The callouts of a note with the headings above them.
pub fn scan_blocks(title: &str, lines: &Vec<String>) -> (list: Vec<CalloutBlock>)
    ensures
        block_models(list@) == blocks(text::texts(lines@), top(title@)),
{
    let ghost all = text::texts(lines@);
    let mut position = Position { h1: chars::trim(title), section: 0, h2: None, h3: None };
    let mut list: Vec<CalloutBlock> = Vec::new();
    let mut index: usize = 0;
    assert(all.skip(0) == all);
    while index < lines.len()
        invariant
            all == text::texts(lines@),
            index <= lines@.len(),
            position.section <= index,
            number_of(position@.h2) <= index,
            number_of(position@.h3) <= index,
            block_models(list@) + blocks(all.skip(index as int), position@) == blocks(
                all,
                top(title@),
            ),
        decreases lines@.len() - index,
    {
        assert(all.skip(index as int).skip(1) == all.skip(index + 1));
        if pass_heading(&mut position, lines[index].as_str()) {
            index = index + 1;
        } else if let Some((callout_type, rest)) = parser::detect_callout(lines[index].as_str()) {
            let block_title = parser::callout_title(rest.as_str());
            let body_lines = collect_body(lines, index + 1);
            let taken = body_lines.len();
            let ghost before = list@;
            let block = CalloutBlock {
                position: clone_position(&position),
                callout_type,
                title: block_title,
                body_lines,
            };
            list.push(block);
            assert(block_models(list@) == block_models(before) + seq![block@]);
            assert(all.skip(index as int).skip(1 + taken as int) == all.skip(index + 1 + taken));
            index = index + 1 + taken;
        } else {
            index = index + 1;
        }
    }
    list
}

// ── Numbers of headings ──────────────────────────────────────────────────────

/// The place of a heading among its siblings, and the number of digits that it is written with.
pub struct Order {
    pub ordinal: nat,
    pub width: nat,
}

/// The number of digits that it takes to count up to `count`, at least one.
pub open spec fn width_for(count: nat) -> nat {
    text::decimal(if count == 0 {
        1
    } else {
        count
    }).len()
}

/// The members of `numbers` that do not exceed `limit`.
pub open spec fn up_to(numbers: Set<nat>, limit: nat) -> Set<nat> {
    Set::new(|m: nat| numbers.contains(m) && m <= limit)
}

/// The order of the heading with the given number among siblings with the given numbers.
pub open spec fn order_among(numbers: Set<nat>, number: nat) -> Order {
    Order { ordinal: up_to(numbers, number).len(), width: width_for(numbers.len()) }
}

/// The callout stands below the second-level heading with this number in this section.
pub open spec fn under_h2(block: Block, section: nat, number: nat) -> bool {
    block.place.section == section && block.place.h2 is Some && number_of(block.place.h2) == number
}

/// The callout stands below the third-level heading with this number, under the second-level
/// heading with the number `parent` (0 for none).
pub open spec fn under_h3(block: Block, section: nat, parent: nat, number: nat) -> bool {
    block.place.section == section && number_of(block.place.h2) == parent && block.place.h3 is Some
        && number_of(block.place.h3) == number
}

/// The numbers of the second-level headings of a section that have cards below them.
pub open spec fn h2_numbers(cards: Seq<Block>, section: nat) -> Set<nat> {
    Set::new(
        |n: nat| exists|i: int| 0 <= i < cards.len() && under_h2(#[trigger] cards[i], section, n),
    )
}

/// The numbers of the third-level headings under one parent that have cards below them.
pub open spec fn h3_numbers(cards: Seq<Block>, section: nat, parent: nat) -> Set<nat> {
    Set::new(
        |n: nat|
            exists|i: int|
                0 <= i < cards.len() && under_h3(#[trigger] cards[i], section, parent, n),
    )
}

/// A heading of the second or third level, by its section, the number of the second-level heading
/// above it (0 for none) and its own number.
#[derive(Debug, Clone, Copy, PartialEq, Eq)]
pub struct HeadingKey {
    pub section: usize,
    pub parent: usize,
    pub number: usize,
}

/// The place of a heading among its siblings, and the number of digits that it is written with.
#[derive(Debug, Clone, Copy, PartialEq, Eq)]
pub struct HeadingOrder {
    pub ordinal: usize,
    pub width: usize,
}

impl View for HeadingOrder {
    type V = Order;

    open spec fn view(&self) -> Order {
        Order { ordinal: self.ordinal as nat, width: self.width as nat }
    }
}

/// The orders of the headings that have cards below them.
#[derive(Debug)]
pub struct HeadingOrders {
    pub h2: Vec<(HeadingKey, HeadingOrder)>,
    pub h3: Vec<(HeadingKey, HeadingOrder)>,
}

/// The order that a list gives for a heading.
pub open spec fn listed(entries: Seq<(HeadingKey, HeadingOrder)>, key: HeadingKey) -> Option<Order>
    decreases entries.len(),
{
    if entries.len() == 0 {
        None
    } else if entries[0].0 == key {
        Some(entries[0].1@)
    } else {
        listed(entries.skip(1), key)
    }
}

/// The numbers of the headings with the given parent that a list of headings holds.
pub open spec fn siblings(keys: Seq<HeadingKey>, section: nat, parent: nat) -> Set<nat> {
    Set::new(
        |n: nat|
            exists|i: int|
                0 <= i < keys.len() && (#[trigger] keys[i]).section == section && keys[i].parent
                    == parent && keys[i].number == n,
    )
}

/// How many headings of a list have the given parent and a number up to `limit`.
spec fn count_up_to(keys: Seq<HeadingKey>, section: nat, parent: nat, limit: nat) -> nat
    decreases keys.len(),
{
    if keys.len() == 0 {
        0
    } else {
        count_up_to(keys.drop_last(), section, parent, limit) + if keys.last().section == section
            && keys.last().parent == parent && keys.last().number <= limit {
            1nat
        } else {
            0
        }
    }
}

proof fn lemma_count_up_to(keys: Seq<HeadingKey>, section: nat, parent: nat, limit: nat)
    requires
        keys.no_duplicates(),
    ensures
        up_to(siblings(keys, section, parent), limit).finite(),
        up_to(siblings(keys, section, parent), limit).len() == count_up_to(
            keys,
            section,
            parent,
            limit,
        ),
    decreases keys.len(),
{
    let whole = up_to(siblings(keys, section, parent), limit);
    if keys.len() == 0 {
        assert(whole =~= Set::<nat>::empty());
    } else {
        let front = keys.drop_last();
        let last = keys.last();
        let part = up_to(siblings(front, section, parent), limit);
        lemma_count_up_to(front, section, parent, limit);
        assert forall|n: nat| siblings(front, section, parent).contains(n) implies siblings(
            keys,
            section,
            parent,
        ).contains(n) by {
            let i = choose|i: int|
                0 <= i < front.len() && (#[trigger] front[i]).section == section && front[i].parent
                    == parent && front[i].number == n;
            assert(keys[i] == front[i]);
        }
        assert forall|n: nat|
            siblings(keys, section, parent).contains(n) && !(last.section == section && last.parent
                == parent && last.number == n) implies siblings(front, section, parent).contains(
            n,
        ) by {
            let i = choose|i: int|
                0 <= i < keys.len() && (#[trigger] keys[i]).section == section && keys[i].parent
                    == parent && keys[i].number == n;
            assert(front[i] == keys[i]);
        }
        if last.section == section && last.parent == parent {
            let n = last.number as nat;
            assert(keys[keys.len() - 1] == last);
            assert(siblings(keys, section, parent).contains(n));
            if siblings(front, section, parent).contains(n) {
                let i = choose|i: int|
                    0 <= i < front.len() && (#[trigger] front[i]).section == section
                        && front[i].parent == parent && front[i].number == n;
                assert(front[i] == last && keys[i] == keys[keys.len() - 1]);
            }
            if n <= limit {
                assert(whole =~= part.insert(n));
            } else {
                assert(whole =~= part);
            }
        } else {
            assert(whole =~= part);
        }
    }
}

/// How many headings of a list have the given parent and a number up to `limit`.
fn count_siblings(keys: &Vec<HeadingKey>, key: HeadingKey, limit: usize) -> (count: usize)
    requires
        keys@.no_duplicates(),
    ensures
        count == up_to(siblings(keys@, key.section as nat, key.parent as nat), limit as nat).len(),
        up_to(siblings(keys@, key.section as nat, key.parent as nat), limit as nat).finite(),
{
    let mut count: usize = 0;
    for i in 0..keys.len()
        invariant
            count <= i,
            count == count_up_to(
                keys@.take(i as int),
                key.section as nat,
                key.parent as nat,
                limit as nat,
            ),
    {
        assert(keys@.take(i + 1).drop_last() == keys@.take(i as int));
        let other = keys[i];
        if other.section == key.section && other.parent == key.parent && other.number <= limit {
            count = count + 1;
        }
    }
    assert(keys@.take(keys@.len() as int) == keys@);
    proof {
        lemma_count_up_to(keys@, key.section as nat, key.parent as nat, limit as nat);
    }
    count
}

/// The number of digits that it takes to count up to `count`, at least one.
pub fn order_width_for_count(count: usize) -> (width: usize)
    ensures
        width == width_for(count as nat),
{
    let top = if count == 0 {
        1
    } else {
        count
    };
    chars::decimal(top as u64).as_str().unicode_len()
}

/// Gives each heading of a list its order among the siblings in the list.
fn number_headings(keys: &Vec<HeadingKey>) -> (entries: Vec<(HeadingKey, HeadingOrder)>)
    requires
        keys@.no_duplicates(),
    ensures
        entries@.len() == keys@.len(),
        forall|i: int|
            0 <= i < keys@.len() ==> {
                &&& (#[trigger] entries@[i]).0 == keys@[i]
                &&& entries@[i].1@ == order_among(
                    siblings(keys@, keys@[i].section as nat, keys@[i].parent as nat),
                    keys@[i].number as nat,
                )
            },
{
    let mut entries: Vec<(HeadingKey, HeadingOrder)> = Vec::new();
    for i in 0..keys.len()
        invariant
            keys@.no_duplicates(),
            entries@.len() == i,
            forall|j: int|
                0 <= j < i ==> {
                    &&& (#[trigger] entries@[j]).0 == keys@[j]
                    &&& entries@[j].1@ == order_among(
                        siblings(keys@, keys@[j].section as nat, keys@[j].parent as nat),
                        keys@[j].number as nat,
                    )
                },
    {
        let key = keys[i];
        let ordinal = count_siblings(keys, key, key.number);
        let count = count_siblings(keys, key, usize::MAX);
        proof {
            let numbers = siblings(keys@, key.section as nat, key.parent as nat);
            assert(up_to(numbers, usize::MAX as nat) =~= numbers);
        }
        entries.push((key, HeadingOrder { ordinal, width: order_width_for_count(count) }));
    }
    entries
}

/// The order that a list gives for a heading.
fn find_order(entries: &Vec<(HeadingKey, HeadingOrder)>, key: HeadingKey) -> (order: Option<
    HeadingOrder,
>)
    ensures
        match order {
            Some(o) => listed(entries@, key) == Some(o@),
            None => listed(entries@, key) is None,
        },
{
    assert(entries@.skip(0) == entries@);
    for i in 0..entries.len()
        invariant
            listed(entries@, key) == listed(entries@.skip(i as int), key),
    {
        let entry = &entries[i];
        assert(entries@.skip(i as int).skip(1) == entries@.skip(i + 1));
        if entry.0.section == key.section && entry.0.parent == key.parent && entry.0.number
            == key.number {
            return Some(entry.1);
        }
    }
    None
}

/// The order of a heading that is not listed: its number among all headings of its level.
pub open spec fn plain_order(number: nat) -> Order {
    Order { ordinal: number, width: width_for(number) }
}

impl HeadingOrders {
    /// The order of a second-level heading.
    pub fn h2_order(&self, section: usize, number: usize) -> (order: HeadingOrder)
        ensures
            order@ == match listed(self.h2@, (HeadingKey { section, parent: 0, number })) {
                Some(o) => o,
                None => plain_order(number as nat),
            },
    {
        match find_order(&self.h2, HeadingKey { section, parent: 0, number }) {
            Some(order) => order,
            None => HeadingOrder { ordinal: number, width: order_width_for_count(number) },
        }
    }

    /// The order of a third-level heading under the second-level heading with the number
    /// `parent`.
    pub fn h3_order(&self, section: usize, parent: usize, number: usize) -> (order: HeadingOrder)
        ensures
            order@ == match listed(self.h3@, (HeadingKey { section, parent, number })) {
                Some(o) => o,
                None => plain_order(number as nat),
            },
    {
        match find_order(&self.h3, HeadingKey { section, parent, number }) {
            Some(order) => order,
            None => HeadingOrder { ordinal: number, width: order_width_for_count(number) },
        }
    }
}

/// What `number_headings` lists for a heading.
proof fn lemma_listed(
    keys: Seq<HeadingKey>,
    entries: Seq<(HeadingKey, HeadingOrder)>,
    key: HeadingKey,
)
    requires
        keys.no_duplicates(),
        entries.len() == keys.len(),
        forall|i: int| 0 <= i < keys.len() ==> (#[trigger] entries[i]).0 == keys[i],
    ensures
        keys.contains(key) == listed(entries, key) is Some,
        forall|i: int|
            0 <= i < keys.len() && keys[i] == key ==> listed(entries, key) == Some(
                (#[trigger] entries[i]).1@,
            ),
    decreases entries.len(),
{
    if entries.len() > 0 {
        let tail = keys.skip(1);
        let tail_entries = entries.skip(1);
        assert(entries[0].0 == keys[0]);
        assert forall|i: int| 0 <= i < tail.len() implies (#[trigger] tail_entries[i]).0
            == tail[i] by {
            assert(entries[i + 1].0 == keys[i + 1]);
        }
        lemma_listed(tail, tail_entries, key);
        if keys.contains(key) {
            let i = choose|i: int| 0 <= i < keys.len() && keys[i] == key;
            if i > 0 {
                assert(tail[i - 1] == key);
            }
        }
        if tail.contains(key) {
            let i = choose|i: int| 0 <= i < tail.len() && tail[i] == key;
            assert(keys[i + 1] == key);
        }
        assert forall|i: int| 0 <= i < keys.len() && keys[i] == key implies listed(entries, key)
            == Some((#[trigger] entries[i]).1@) by {
            if i > 0 {
                assert(keys[0] != key);
                assert(tail[i - 1] == key);
                assert(tail_entries[i - 1] == entries[i]);
            }
        }
    }
}

/// The order that a heading gets among the given headings: its place among those with the same
/// parent, where it is one of them.
pub open spec fn order_in(keys: Seq<HeadingKey>, key: HeadingKey) -> Option<Order> {
    if keys.contains(key) {
        Some(
            order_among(
                siblings(keys, key.section as nat, key.parent as nat),
                key.number as nat,
            ),
        )
    } else {
        None
    }
}

/// Gives the headings that have cards below them their orders among their siblings.
pub fn build_heading_orders(used_h2: Vec<HeadingKey>, used_h3: Vec<HeadingKey>) -> (orders:
    HeadingOrders)
    requires
        used_h2@.no_duplicates(),
        used_h3@.no_duplicates(),
    ensures
        forall|key: HeadingKey| #[trigger] listed(orders.h2@, key) == order_in(used_h2@, key),
        forall|key: HeadingKey| #[trigger] listed(orders.h3@, key) == order_in(used_h3@, key),
{
    let h2 = number_headings(&used_h2);
    let h3 = number_headings(&used_h3);
    proof {
        assert forall|key: HeadingKey| #[trigger] listed(h2@, key) == order_in(used_h2@, key) by {
            lemma_listed(used_h2@, h2@, key);
            if used_h2@.contains(key) {
                let i = choose|i: int| 0 <= i < used_h2@.len() && used_h2@[i] == key;
                assert(h2@[i].0 == key);
            }
        }
        assert forall|key: HeadingKey| #[trigger] listed(h3@, key) == order_in(used_h3@, key) by {
            lemma_listed(used_h3@, h3@, key);
            if used_h3@.contains(key) {
                let i = choose|i: int| 0 <= i < used_h3@.len() && used_h3@[i] == key;
                assert(h3@[i].0 == key);
            }
        }
    }
    HeadingOrders { h2, h3 }
}

/// Adds a heading to a list that holds each heading once.
fn insert_heading(keys: &mut Vec<HeadingKey>, key: HeadingKey)
    requires
        old(keys)@.no_duplicates(),
    ensures
        final(keys)@.no_duplicates(),
        forall|k: HeadingKey| #[trigger]
            final(keys)@.contains(k) == (old(keys)@.contains(k) || k == key),
{
    for i in 0..keys.len()
        invariant
            keys@ == old(keys)@,
            keys@.no_duplicates(),
            forall|j: int| 0 <= j < i ==> keys@[j] != key,
    {
        let other = keys[i];
        if other.section == key.section && other.parent == key.parent && other.number
            == key.number {
            assert(keys@.contains(key));
            return;
        }
    }
    let ghost before = keys@;
    keys.push(key);
    proof {
        assert(keys@[before.len() as int] == key);
        assert forall|k: HeadingKey| #[trigger] keys@.contains(k) == (before.contains(k) || k
            == key) by {
            if before.contains(k) {
                let i = choose|i: int| 0 <= i < before.len() && before[i] == k;
                assert(keys@[i] == k);
            }
            if keys@.contains(k) && k != key {
                let i = choose|i: int| 0 <= i < keys@.len() && keys@[i] == k;
                assert(before[i] == k);
            }
        }
    }
}

/// The order of a second-level heading among those of its section that have cards below them.
pub open spec fn h2_order_of(cards: Seq<Block>, section: nat, number: nat) -> Order {
    order_among(h2_numbers(cards, section), number)
}

/// The order of a third-level heading among those under the same parent that have cards below
/// them.
pub open spec fn h3_order_of(cards: Seq<Block>, section: nat, parent: nat, number: nat) -> Order {
    order_among(h3_numbers(cards, section, parent), number)
}

/// A card stands below the heading that a key of the second level names.
spec fn h2_used(list: Seq<Block>, key: HeadingKey) -> bool {
    key.parent == 0 && exists|j: int|
        0 <= j < list.len() && is_card(#[trigger] list[j]) && under_h2(
            list[j],
            key.section as nat,
            key.number as nat,
        )
}

/// A card stands below the heading that a key of the third level names.
spec fn h3_used(list: Seq<Block>, key: HeadingKey) -> bool {
    exists|j: int|
        0 <= j < list.len() && is_card(#[trigger] list[j]) && under_h3(
            list[j],
            key.section as nat,
            key.parent as nat,
            key.number as nat,
        )
}

/// The card among the callouts is the callout that is a card.
proof fn lemma_card_blocks(list: Seq<Block>, j: int)
    ensures
        0 <= j < list.len() && is_card(list[j]) ==> card_blocks(list).contains(list[j]),
        0 <= j < card_blocks(list).len() ==> is_card(card_blocks(list)[j]) && list.contains(
            card_blocks(list)[j],
        ),
{
    let pred = |block: Block| is_card(block);
    if 0 <= j < list.len() && is_card(list[j]) {
        list.lemma_filter_contains(pred, j);
    }
    if 0 <= j < card_blocks(list).len() {
        list.lemma_filter_pred(pred, j);
        list.lemma_filter_contains_rev(pred, card_blocks(list)[j]);
    }
}

proof fn lemma_h2_numbers(list: Seq<CalloutBlock>, keys: Seq<HeadingKey>, section: usize)
    requires
        forall|key: HeadingKey| #[trigger] keys.contains(key) == h2_used(block_models(list), key),
    ensures
        siblings(keys, section as nat, 0) == h2_numbers(
            card_blocks(block_models(list)),
            section as nat,
        ),
{
    let all = block_models(list);
    let cards = card_blocks(all);
    assert forall|n: nat|
        siblings(keys, section as nat, 0).contains(n) implies h2_numbers(
        cards,
        section as nat,
    ).contains(n) by {
        let i = choose|i: int|
            0 <= i < keys.len() && (#[trigger] keys[i]).section == section as nat && keys[i].parent
                == 0 && keys[i].number == n;
        assert(keys.contains(keys[i]));
        assert(h2_used(all, keys[i]));
        let j = choose|j: int|
            0 <= j < all.len() && is_card(#[trigger] all[j]) && under_h2(all[j], section as nat, n);
        lemma_card_blocks(all, j);
        let k = choose|k: int| 0 <= k < cards.len() && cards[k] == all[j];
        assert(under_h2(cards[k], section as nat, n));
    }
    assert forall|n: nat|
        h2_numbers(cards, section as nat).contains(n) implies siblings(
        keys,
        section as nat,
        0,
    ).contains(n) by {
        let k = choose|k: int|
            0 <= k < cards.len() && under_h2(#[trigger] cards[k], section as nat, n);
        lemma_card_blocks(all, k);
        let j = choose|j: int| 0 <= j < all.len() && all[j] == cards[k];
        let key = HeadingKey { section, parent: 0, number: n as usize };
        assert(all[j] == list[j]@);
        assert(is_card(all[j]) && under_h2(all[j], section as nat, n));
        assert(h2_used(all, key));
        assert(keys.contains(key));
        let i = choose|i: int| 0 <= i < keys.len() && keys[i] == key;
        assert(keys[i].number == n);
    }
    assert(siblings(keys, section as nat, 0) =~= h2_numbers(cards, section as nat));
}

proof fn lemma_h3_numbers(
    list: Seq<CalloutBlock>,
    keys: Seq<HeadingKey>,
    section: usize,
    parent: usize,
)
    requires
        forall|key: HeadingKey| #[trigger] keys.contains(key) == h3_used(block_models(list), key),
    ensures
        siblings(keys, section as nat, parent as nat) == h3_numbers(
            card_blocks(block_models(list)),
            section as nat,
            parent as nat,
        ),
{
    let all = block_models(list);
    let cards = card_blocks(all);
    assert forall|n: nat|
        siblings(keys, section as nat, parent as nat).contains(n) implies h3_numbers(
        cards,
        section as nat,
        parent as nat,
    ).contains(n) by {
        let i = choose|i: int|
            0 <= i < keys.len() && (#[trigger] keys[i]).section == section as nat && keys[i].parent
                == parent as nat && keys[i].number == n;
        assert(keys.contains(keys[i]));
        assert(h3_used(all, keys[i]));
        let j = choose|j: int|
            0 <= j < all.len() && is_card(#[trigger] all[j]) && under_h3(
                all[j],
                section as nat,
                parent as nat,
                n,
            );
        lemma_card_blocks(all, j);
        let k = choose|k: int| 0 <= k < cards.len() && cards[k] == all[j];
        assert(under_h3(cards[k], section as nat, parent as nat, n));
    }
    assert forall|n: nat|
        h3_numbers(cards, section as nat, parent as nat).contains(n) implies siblings(
        keys,
        section as nat,
        parent as nat,
    ).contains(n) by {
        let k = choose|k: int|
            0 <= k < cards.len() && under_h3(
                #[trigger] cards[k],
                section as nat,
                parent as nat,
                n,
            );
        lemma_card_blocks(all, k);
        let j = choose|j: int| 0 <= j < all.len() && all[j] == cards[k];
        let key = HeadingKey { section, parent, number: n as usize };
        assert(all[j] == list[j]@);
        assert(is_card(all[j]) && under_h3(all[j], section as nat, parent as nat, n));
        assert(h3_used(all, key));
        assert(keys.contains(key));
        let i = choose|i: int| 0 <= i < keys.len() && keys[i] == key;
        assert(keys[i].number == n);
    }
    assert(siblings(keys, section as nat, parent as nat) =~= h3_numbers(
        cards,
        section as nat,
        parent as nat,
    ));
}

/// The orders of the headings of a note: the headings with cards below them are numbered among
/// their siblings with cards, and the others are not listed.
pub open spec fn orders_of(orders: HeadingOrders, cards: Seq<Block>) -> bool {
    &&& forall|key: HeadingKey| #[trigger]
        listed(orders.h2@, key) == if key.parent == 0 && h2_numbers(
            cards,
            key.section as nat,
        ).contains(key.number as nat) {
            Some(h2_order_of(cards, key.section as nat, key.number as nat))
        } else {
            None
        }
    &&& forall|key: HeadingKey| #[trigger]
        listed(orders.h3@, key) == if h3_numbers(
            cards,
            key.section as nat,
            key.parent as nat,
        ).contains(key.number as nat) {
            Some(h3_order_of(cards, key.section as nat, key.parent as nat, key.number as nat))
        } else {
            None
        }
}

/// Numbers the headings of a note that have cards below them.
pub fn compute_heading_orders(list: &Vec<CalloutBlock>) -> (orders: HeadingOrders)
    ensures
        orders_of(orders, card_blocks(block_models(list@))),
{
    let ghost all = block_models(list@);
    let mut used_h2: Vec<HeadingKey> = Vec::new();
    let mut used_h3: Vec<HeadingKey> = Vec::new();
    for i in 0..list.len()
        invariant
            all == block_models(list@),
            used_h2@.no_duplicates(),
            used_h3@.no_duplicates(),
            forall|key: HeadingKey| #[trigger]
                used_h2@.contains(key) == h2_used(all.take(i as int), key),
            forall|key: HeadingKey| #[trigger]
                used_h3@.contains(key) == h3_used(all.take(i as int), key),
    {
        let block = &list[i];
        let ghost seen = all.take(i as int);
        let ghost next = all.take(i + 1);
        proof {
            assert(next == seen.push(block@));
            assert forall|key: HeadingKey| #[trigger]
                h2_used(next, key) == (h2_used(seen, key) || (key.parent == 0 && is_card(block@)
                    && under_h2(block@, key.section as nat, key.number as nat))) by {
                assert(next[i as int] == block@);
                if h2_used(seen, key) {
                    let j = choose|j: int|
                        0 <= j < seen.len() && is_card(#[trigger] seen[j]) && under_h2(
                            seen[j],
                            key.section as nat,
                            key.number as nat,
                        );
                    assert(next[j] == seen[j]);
                }
                if h2_used(next, key) {
                    let j = choose|j: int|
                        0 <= j < next.len() && is_card(#[trigger] next[j]) && under_h2(
                            next[j],
                            key.section as nat,
                            key.number as nat,
                        );
                    if j < i {
                        assert(seen[j] == next[j]);
                    }
                }
            }
            assert forall|key: HeadingKey| #[trigger]
                h3_used(next, key) == (h3_used(seen, key) || (is_card(block@) && under_h3(
                    block@,
                    key.section as nat,
                    key.parent as nat,
                    key.number as nat,
                ))) by {
                assert(next[i as int] == block@);
                if h3_used(seen, key) {
                    let j = choose|j: int|
                        0 <= j < seen.len() && is_card(#[trigger] seen[j]) && under_h3(
                            seen[j],
                            key.section as nat,
                            key.parent as nat,
                            key.number as nat,
                        );
                    assert(next[j] == seen[j]);
                }
                if h3_used(next, key) {
                    let j = choose|j: int|
                        0 <= j < next.len() && is_card(#[trigger] next[j]) && under_h3(
                            next[j],
                            key.section as nat,
                            key.parent as nat,
                            key.number as nat,
                        );
                    if j < i {
                        assert(seen[j] == next[j]);
                    }
                }
            }
        }
        let title = match &block.title {
            Some(t) => Some(t.as_str()),
            None => None,
        };
        if parser::is_valid_card(title, &block.body_lines) {
            let section = block.position.section;
            let parent = heading_number(&block.position.h2);
            if let Some(h2) = &block.position.h2 {
                insert_heading(
                    &mut used_h2,
                    HeadingKey { section, parent: 0, number: h2.number },
                );
            }
            if let Some(h3) = &block.position.h3 {
                insert_heading(&mut used_h3, HeadingKey { section, parent, number: h3.number });
            }
        }
    }
    assert(all.take(list@.len() as int) == all);
    let ghost keys_h2 = used_h2@;
    let ghost keys_h3 = used_h3@;
    let orders = build_heading_orders(used_h2, used_h3);
    proof {
        let cards = card_blocks(all);
        assert forall|key: HeadingKey| #[trigger]
            listed(orders.h2@, key) == if key.parent == 0 && h2_numbers(
                cards,
                key.section as nat,
            ).contains(key.number as nat) {
                Some(h2_order_of(cards, key.section as nat, key.number as nat))
            } else {
                None
            } by {
            lemma_h2_numbers(list@, keys_h2, key.section);
            if keys_h2.contains(key) {
                assert(h2_used(all, key));
                let i = choose|i: int| 0 <= i < keys_h2.len() && keys_h2[i] == key;
                assert(siblings(keys_h2, key.section as nat, 0).contains(key.number as nat));
            }
            if key.parent == 0 && siblings(keys_h2, key.section as nat, 0).contains(
                key.number as nat,
            ) {
                let i = choose|i: int|
                    0 <= i < keys_h2.len() && (#[trigger] keys_h2[i]).section == key.section as nat
                        && keys_h2[i].parent == 0 && keys_h2[i].number == key.number as nat;
                assert(keys_h2[i] == key);
            }
        }
        assert forall|key: HeadingKey| #[trigger]
            listed(orders.h3@, key) == if h3_numbers(
                cards,
                key.section as nat,
                key.parent as nat,
            ).contains(key.number as nat) {
                Some(h3_order_of(cards, key.section as nat, key.parent as nat, key.number as nat))
            } else {
                None
            } by {
            lemma_h3_numbers(list@, keys_h3, key.section, key.parent);
            if keys_h3.contains(key) {
                let i = choose|i: int| 0 <= i < keys_h3.len() && keys_h3[i] == key;
                assert(siblings(keys_h3, key.section as nat, key.parent as nat).contains(
                    key.number as nat,
                ));
            }
            if siblings(keys_h3, key.section as nat, key.parent as nat).contains(
                key.number as nat,
            ) {
                let i = choose|i: int|
                    0 <= i < keys_h3.len() && (#[trigger] keys_h3[i]).section == key.section as nat
                        && keys_h3[i].parent == key.parent as nat && keys_h3[i].number
                        == key.number as nat;
                assert(keys_h3[i] == key);
            }
        }
    }
    orders
}

} // verus!
