//! Cards scraped from the checklist lines of a text.
use vstd::prelude::*;

use crate::parser::Todo;
use crate::parser::TodoView;
use crate::text::chars_of;
use crate::text::drop_white;
use crate::text::skip_white;
use crate::text::string_of;

verus! {

/// What the marker of a checklist line says.
#[derive(Clone, Copy, PartialEq, Eq, Structural, Debug)]
pub enum Mark {
    Done,
    Doing,
    Open,
}

impl Mark {
    /// The status of the cards on the line.
    pub open spec fn status_spec(self) -> Seq<char> {
        match self {
            Mark::Done => "completed"@,
            Mark::Doing => "in_progress"@,
            Mark::Open => "pending"@,
        }
    }

    /// The status of the cards on the line.
    pub fn status(self) -> (r: &'static str)
        ensures
            r@ == self.status_spec(),
    {
        match self {
            Mark::Done => "completed",
            Mark::Doing => "in_progress",
            Mark::Open => "pending",
        }
    }
}

// ---------------------------------------------------------------------------------------------
// The grammar of a line
// ---------------------------------------------------------------------------------------------

/// What a marker of one character says.
pub open spec fn sign_mark(c: char) -> Option<Mark> {
    if c == '\u{2705}' || c == '\u{2713}' {
        // white heavy check mark, check mark
        Some(Mark::Done)
    } else if c == '\u{1f504}' || c == '\u{23f3}' || c == '\u{1f6a7}' {
        // arrows in a circle, hourglass, construction sign
        Some(Mark::Doing)
    } else if c == '\u{274c}' || c == '\u{2717}' {
        // cross mark, ballot x
        Some(Mark::Open)
    } else {
        None
    }
}

/// The text begins with a check mark in emoji style: a heavy check mark or a ballot box with
/// check, and the variation selector behind it.
pub open spec fn starts_with_emoji_check(s: Seq<char>) -> bool {
    s.len() >= 2 && (s[0] == '\u{2714}' || s[0] == '\u{2611}') && s[1] == '\u{fe0f}'
}

/// What stands behind a box (`[ ]` or `[x]`, with any whitespace inside) at the beginning.
pub open spec fn strip_box(s: Seq<char>) -> Option<(Mark, Seq<char>)> {
    if s.len() > 0 && s[0] == '[' {
        let inner = crate::text::trim_start(s.skip(1));
        if inner.len() > 0 && inner[0] == ']' {
            Some((Mark::Open, inner.skip(1)))
        } else if inner.len() > 0 && (inner[0] == 'x' || inner[0] == 'X') {
            let close = crate::text::trim_start(inner.skip(1));
            if close.len() > 0 && close[0] == ']' {
                Some((Mark::Done, close.skip(1)))
            } else {
                None
            }
        } else {
            None
        }
    } else {
        None
    }
}

/// The marker at the beginning, and what stands behind it.
pub open spec fn strip_marker(s: Seq<char>) -> Option<(Mark, Seq<char>)> {
    if starts_with_emoji_check(s) {
        Some((Mark::Done, s.skip(2)))
    } else if s.len() > 0 && sign_mark(s[0]) is Some {
        Some((sign_mark(s[0])->0, s.skip(1)))
    } else {
        strip_box(s)
    }
}

/// What is left of a line behind its indentation and its bullet, if any.
pub open spec fn strip_bullet(line: Seq<char>) -> Seq<char> {
    let s = crate::text::trim_start(line);
    if s.len() > 0 && (s[0] == '-' || s[0] == '*') {
        crate::text::trim_start(s.skip(1))
    } else {
        s
    }
}

/// The marker of a checklist line and the words behind it. `None` for any other line, and where
/// there are no words.
pub open spec fn line_item(line: Seq<char>) -> Option<(Mark, Seq<char>)> {
    match strip_marker(strip_bullet(line)) {
        Some((mark, rest)) => {
            let words = crate::text::trim_spec(rest);
            if words.len() > 0 {
                Some((mark, words))
            } else {
                None
            }
        },
        None => None,
    }
}

// ---------------------------------------------------------------------------------------------
// The cards of a line
// ---------------------------------------------------------------------------------------------

/// At `p` a parenthesis opens that closes with the last character.
pub open spec fn opens_last_paren(s: Seq<char>, p: int) -> bool {
    &&& 0 <= p < s.len() - 1
    &&& s[p] == '('
    &&& s.last() == ')'
    &&& forall|q: int| p < q < s.len() - 1 ==> #[trigger] s[q] != ')'
}

/// The first place where a parenthesis opens that closes with the last character.
pub open spec fn first_open(s: Seq<char>, p: int) -> bool {
    opens_last_paren(s, p) && forall|q: int| 0 <= q < p ==> !#[trigger] opens_last_paren(s, q)
}

/// `s` without the parenthesis at its end, if any, and without the whitespace round it.
pub open spec fn strip_paren(s: Seq<char>) -> Seq<char> {
    let t = crate::text::trim_end(s);
    if exists|p: int| first_open(t, p) {
        crate::text::trim_end(t.take(choose|p: int| first_open(t, p)))
    } else {
        s
    }
}

/// The pieces that hold more than whitespace, trimmed.
pub open spec fn worded(pieces: Seq<Seq<char>>) -> Seq<Seq<char>>
    decreases pieces.len(),
{
    if pieces.len() == 0 {
        Seq::empty()
    } else {
        let words = crate::text::trim_spec(pieces.last());
        if words.len() > 0 {
            worded(pieces.drop_last()).push(words)
        } else {
            worded(pieces.drop_last())
        }
    }
}

/// The most characters that an item of an enumeration has.
pub const ITEM_CHARS: usize = 40;

/// `s` is an enumeration: it has a comma, and neither an ideographic full stop nor a colon.
pub open spec fn is_enumeration(s: Seq<char>) -> bool {
    s.contains(',') && !s.contains('\u{3002}') && !s.contains(':')
}

/// Each item is short.
pub open spec fn all_short(items: Seq<Seq<char>>) -> bool {
    forall|i: int| 0 <= i < items.len() ==> (#[trigger] items[i]).len() <= ITEM_CHARS
}

/// The items in the words of a line: those of the enumeration where the line is done and its
/// words, but for a parenthesis at the end, enumerate short items; else the words as they are.
pub open spec fn line_words(mark: Mark, words: Seq<char>) -> Seq<Seq<char>> {
    let bare = strip_paren(words);
    let items = worded(crate::text::split_on(bare, ','));
    if mark == Mark::Done && is_enumeration(bare) && all_short(items) {
        items
    } else {
        seq![words]
    }
}

/// The card for an item.
pub open spec fn card(mark: Mark, item: Seq<char>) -> TodoView {
    TodoView { content: item, status: mark.status_spec(), active_form: item }
}

/// The cards of a line.
pub open spec fn line_cards(line: Seq<char>) -> Seq<TodoView> {
    match line_item(line) {
        Some((mark, words)) => {
            let items = line_words(mark, words);
            Seq::new(items.len(), |i: int| card(mark, items[i]))
        },
        None => Seq::empty(),
    }
}

/// The cards of some lines, in their order.
pub open spec fn cards_of_lines(lines: Seq<Seq<char>>) -> Seq<TodoView>
    decreases lines.len(),
{
    if lines.len() == 0 {
        Seq::empty()
    } else {
        cards_of_lines(lines.drop_last()) + line_cards(lines.last())
    }
}

/// The cards in a text.
pub open spec fn cards_of(text: Seq<char>) -> Seq<TodoView> {
    cards_of_lines(crate::text::split_on(text, '\n'))
}

// ---------------------------------------------------------------------------------------------
// Scraping
// ---------------------------------------------------------------------------------------------

/// What a marker of one character says.
fn mark_of_sign(c: char) -> (r: Option<Mark>)
    ensures
        r == sign_mark(c),
{
    if c == '\u{2705}' || c == '\u{2713}' {
        Some(Mark::Done)
    } else if c == '\u{1f504}' || c == '\u{23f3}' || c == '\u{1f6a7}' {
        Some(Mark::Doing)
    } else if c == '\u{274c}' || c == '\u{2717}' {
        Some(Mark::Open)
    } else {
        None
    }
}

proof fn lemma_skip(cs: Seq<char>, from: int, to: int, n: int)
    requires
        0 <= from <= from + n <= to <= cs.len(),
        0 <= n,
    ensures
        cs.subrange(from, to).skip(n) == cs.subrange(from + n, to),
{
    assert(cs.subrange(from, to).skip(n) =~= cs.subrange(from + n, to));
}

/// The marker at `from`, and the position behind it.
fn marker_at(cs: &Vec<char>, from: usize, to: usize) -> (r: Option<(Mark, usize)>)
    requires
        from <= to <= cs@.len(),
    ensures
        r is Some == strip_marker(cs@.subrange(from as int, to as int)) is Some,
        r matches Some((mark, i)) ==> from <= i <= to && strip_marker(
            cs@.subrange(from as int, to as int),
        ) == Some((mark, cs@.subrange(i as int, to as int))),
{
    let ghost s = cs@.subrange(from as int, to as int);
    if from >= to {
        return None;
    }
    let c: char = cs[from];
    proof {
        lemma_skip(cs@, from as int, to as int, 1);
    }
    if (c == '\u{2714}' || c == '\u{2611}') && to - from >= 2 && cs[from + 1] == '\u{fe0f}' {
        proof {
            lemma_skip(cs@, from as int, to as int, 2);
        }
        assert(starts_with_emoji_check(s));
        return Some((Mark::Done, from + 2));
    }
    assert(!starts_with_emoji_check(s));
    if let Some(mark) = mark_of_sign(c) {
        return Some((mark, from + 1));
    }
    if c != '[' {
        return None;
    }
    let a: usize = skip_white(cs, from + 1, to);
    assert(crate::text::trim_start(s.skip(1)) == cs@.subrange(a as int, to as int));
    if a >= to {
        return None;
    }
    proof {
        lemma_skip(cs@, a as int, to as int, 1);
    }
    if cs[a] == ']' {
        return Some((Mark::Open, a + 1));
    }
    if cs[a] != 'x' && cs[a] != 'X' {
        return None;
    }
    let b: usize = skip_white(cs, a + 1, to);
    if b >= to || cs[b] != ']' {
        return None;
    }
    proof {
        lemma_skip(cs@, b as int, to as int, 1);
    }
    Some((Mark::Done, b + 1))
}

/// The marker of the line at `from..to`, and where its words stand.
fn item_at(cs: &Vec<char>, from: usize, to: usize) -> (r: Option<(Mark, usize, usize)>)
    requires
        from <= to <= cs@.len(),
    ensures
        r is Some == line_item(cs@.subrange(from as int, to as int)) is Some,
        r matches Some((mark, a, b)) ==> from <= a < b <= to && line_item(
            cs@.subrange(from as int, to as int),
        ) == Some((mark, cs@.subrange(a as int, b as int))),
{
    let ghost line = cs@.subrange(from as int, to as int);
    let first: usize = skip_white(cs, from, to);
    let start: usize = if first < to && (cs[first] == '-' || cs[first] == '*') {
        proof {
            lemma_skip(cs@, first as int, to as int, 1);
        }
        skip_white(cs, first + 1, to)
    } else {
        first
    };
    assert(strip_bullet(line) == cs@.subrange(start as int, to as int));
    match marker_at(cs, start, to) {
        Some((mark, behind)) => {
            let a: usize = skip_white(cs, behind, to);
            let b: usize = drop_white(cs, a, to);
            if a < b {
                Some((mark, a, b))
            } else {
                None
            }
        },
        None => None,
    }
}

/// Where the parenthesis at the end of `from..to`, with the whitespace round it, begins (`to`
/// where there is none).
fn paren_start(cs: &Vec<char>, from: usize, to: usize) -> (r: usize)
    requires
        from <= to <= cs@.len(),
    ensures
        from <= r <= to,
        strip_paren(cs@.subrange(from as int, to as int)) == cs@.subrange(from as int, r as int),
{
    let ghost s = cs@.subrange(from as int, to as int);
    let end: usize = drop_white(cs, from, to);
    let ghost t = cs@.subrange(from as int, end as int);
    assert(crate::text::trim_end(s) == t);
    if end == from || cs[end - 1] != ')' {
        assert forall|p: int| !first_open(t, p) by {
            if opens_last_paren(t, p) {
                assert(t.last() == cs@[end - 1]);
            }
        }
        return to;
    }
    let mut found: bool = false;
    let mut open: usize = end;
    let mut i: usize = end - 1;
    while i > from && cs[i - 1] != ')'
        invariant
            from <= i < end <= to <= cs@.len(),
            t == cs@.subrange(from as int, end as int),
            t.last() == ')',
            forall|q: int| i <= q < end - 1 ==> #[trigger] cs@[q] != ')',
            found ==> i <= open < end && opens_last_paren(t, open - from),
            forall|q: int|
                i <= q < end && (!found || q < open) ==> !#[trigger] opens_last_paren(t, q - from),
        decreases i - from,
    {
        if cs[i - 1] == '(' {
            assert forall|q: int| i - 1 - from < q < t.len() - 1 implies #[trigger] t[q]
                != ')' by {
                assert(t[q] == cs@[q + from]);
            }
            assert(opens_last_paren(t, i - 1 - from));
            found = true;
            open = i - 1;
        }
        i -= 1;
    }
    assert forall|q: int| 0 <= q && q + from < i implies !#[trigger] opens_last_paren(t, q) by {
        if opens_last_paren(t, q) {
            assert(cs@[i - 1] == ')');
            assert(t[i - 1 - from] == ')');
            assert(t[q] == '(');
        }
    }
    if found {
        let p = open - from;
        assert forall|q: int| 0 <= q < p implies !#[trigger] opens_last_paren(t, q) by {
            if q + from >= i {
                assert(!opens_last_paren(t, (q + from) - from));
            }
        }
        assert(first_open(t, p as int));
        proof {
            let c = choose|c: int| first_open(t, c);
            assert(first_open(t, c));
            assert(c == p) by {
                if c < p {
                    assert(!opens_last_paren(t, c));
                } else if p < c {
                    assert(!opens_last_paren(t, p as int));
                }
            }
            assert(t.take(p as int) == cs@.subrange(from as int, open as int));
        }
        drop_white(cs, from, open)
    } else {
        assert forall|p: int| !first_open(t, p) by {
            if opens_last_paren(t, p) {
                if p + from >= i {
                    assert(!opens_last_paren(t, (p + from) - from));
                }
            }
        }
        to
    }
}

/// Whether `c` stands at `from..to`.
fn has_char(cs: &Vec<char>, from: usize, to: usize, c: char) -> (r: bool)
    requires
        from <= to <= cs@.len(),
    ensures
        r == cs@.subrange(from as int, to as int).contains(c),
{
    let ghost s = cs@.subrange(from as int, to as int);
    let mut i: usize = from;
    while i < to
        invariant
            from <= i <= to <= cs@.len(),
            s == cs@.subrange(from as int, to as int),
            forall|j: int| from <= j < i ==> cs@[j] != c,
        decreases to - i,
    {
        if cs[i] == c {
            assert(s[i - from] == c);
            return true;
        }
        i += 1;
    }
    assert forall|k: int| 0 <= k < s.len() implies s[k] != c by {
        assert(s[k] == cs@[k + from]);
    }
    false
}

/// The items between the commas of `from..to` that hold more than whitespace.
fn enumerated(cs: &Vec<char>, from: usize, to: usize) -> (r: (Vec<String>, bool))
    requires
        from <= to <= cs@.len(),
    ensures
        crate::text::string_views(r.0@) == worded(
            crate::text::split_on(cs@.subrange(from as int, to as int), ','),
        ),
        r.1 == all_short(crate::text::string_views(r.0@)),
{
    let ghost s = cs@.subrange(from as int, to as int);
    let mut out: Vec<String> = Vec::new();
    let mut short: bool = true;
    let mut start: usize = from;
    let mut i: usize = from;
    assert(s.take(0) =~= Seq::<char>::empty());
    assert(cs@.subrange(from as int, from as int) =~= Seq::<char>::empty());
    loop
        invariant_except_break
            from <= start <= i <= to <= cs@.len(),
            s == cs@.subrange(from as int, to as int),
            crate::text::split_on(s.take(i - from), ',').len() > 0,
            crate::text::split_on(s.take(i - from), ',').last() == cs@.subrange(
                start as int,
                i as int,
            ),
            crate::text::string_views(out@) == worded(
                crate::text::split_on(s.take(i - from), ',').drop_last(),
            ),
            short == all_short(crate::text::string_views(out@)),
        ensures
            crate::text::string_views(out@) == worded(crate::text::split_on(s, ',')),
            short == all_short(crate::text::string_views(out@)),
        decreases to - i + 1,
    {
        let at_end: bool = i == to;
        if at_end || cs[i] == ',' {
            let ghost pieces = crate::text::split_on(s.take(i - from), ',');
            let a: usize = skip_white(cs, start, i);
            let b: usize = drop_white(cs, a, i);
            let ghost before = out@;
            if a < b {
                let item = string_of(cs, a, b);
                if b - a > ITEM_CHARS {
                    short = false;
                }
                out.push(item);
                assert(crate::text::string_views(out@) =~= crate::text::string_views(before).push(
                    item@,
                ));
                assert(short == all_short(crate::text::string_views(out@))) by {
                    let n = before.len() as int;
                    assert(crate::text::string_views(out@)[n] == item@);
                    if all_short(crate::text::string_views(out@)) {
                        let old_views = crate::text::string_views(before);
                        assert forall|k: int| 0 <= k < n implies (#[trigger] old_views[k]).len()
                            <= ITEM_CHARS by {
                            assert(crate::text::string_views(out@)[k] == old_views[k]);
                        }
                    }
                }
            }
            assert(crate::text::string_views(out@) == worded(pieces));
            if at_end {
                assert(s.take(i - from) =~= s);
                break;
            }
            proof {
                let longer = s.take(i + 1 - from);
                assert(longer.drop_last() =~= s.take(i - from));
                assert(longer.last() == ',');
                assert(crate::text::split_on(longer, ',').drop_last() =~= pieces);
                assert(cs@.subrange(i + 1, i + 1) =~= Seq::<char>::empty());
            }
            start = i + 1;
        } else {
            proof {
                let longer = s.take(i + 1 - from);
                assert(longer.drop_last() =~= s.take(i - from));
                assert(longer.last() == cs@[i as int]);
                let pieces = crate::text::split_on(s.take(i - from), ',');
                assert(crate::text::split_on(longer, ',').drop_last() =~= pieces.drop_last());
                assert(cs@.subrange(start as int, i + 1) =~= cs@.subrange(
                    start as int,
                    i as int,
                ).push(cs@[i as int]));
            }
        }
        i += 1;
    }
    (out, short)
}

/// The items in the words at `from..to`.
fn words_at(cs: &Vec<char>, mark: Mark, from: usize, to: usize) -> (r: Vec<String>)
    requires
        from <= to <= cs@.len(),
    ensures
        crate::text::string_views(r@) == line_words(mark, cs@.subrange(from as int, to as int)),
{
    if mark == Mark::Done {
        let end: usize = paren_start(cs, from, to);
        if has_char(cs, from, end, ',') && !has_char(cs, from, end, '\u{3002}') && !has_char(
            cs,
            from,
            end,
            ':',
        ) {
            let (items, short) = enumerated(cs, from, end);
            if short {
                return items;
            }
        }
    }
    let mut out: Vec<String> = Vec::new();
    out.push(string_of(cs, from, to));
    assert(crate::text::string_views(out@) =~= seq![cs@.subrange(from as int, to as int)]);
    out
}

/// Adds the cards of the line at `from..to`.
fn add_line(cs: &Vec<char>, from: usize, to: usize, out: &mut Vec<Todo>)
    requires
        from <= to <= cs@.len(),
    ensures
        crate::parser::todo_views(final(out)@) == crate::parser::todo_views(old(out)@)
            + line_cards(cs@.subrange(from as int, to as int)),
{
    let ghost before = crate::parser::todo_views(out@);
    match item_at(cs, from, to) {
        Some((mark, a, b)) => {
            let items = words_at(cs, mark, a, b);
            let ghost cards = line_cards(cs@.subrange(from as int, to as int));
            assert(cards.take(0) =~= Seq::<TodoView>::empty());
            let mut i: usize = 0;
            while i < items.len()
                invariant
                    i <= items@.len() == cards.len(),
                    forall|k: int| 0 <= k < items@.len() ==> #[trigger] cards[k] == card(
                        mark,
                        items@[k]@,
                    ),
                    crate::parser::todo_views(out@) == before + cards.take(i as int),
                decreases items@.len() - i,
            {
                let todo = Todo {
                    content: items[i].clone(),
                    status: mark.status().to_owned(),
                    active_form: items[i].clone(),
                };
                let ghost so_far = out@;
                out.push(todo);
                proof {
                    assert(todo@ == cards[i as int]);
                    assert(crate::parser::todo_views(out@) =~= crate::parser::todo_views(
                        so_far,
                    ).push(todo@));
                    assert(before + cards.take(i + 1) =~= (before + cards.take(i as int)).push(
                        cards[i as int],
                    ));
                }
                i += 1;
            }
            assert(cards.take(items@.len() as int) =~= cards);
        },
        None => {
            assert(before + Seq::<TodoView>::empty() =~= before);
        },
    }
}

/// The cards in a text: one for each checklist line, or one for each item where a line that is
/// done enumerates short items.
pub fn parse_checklist(text: &str) -> (r: Vec<Todo>)
    ensures
        crate::parser::todo_views(r@) == cards_of(text@),
{
    let cs = chars_of(text);
    let n: usize = cs.len();
    let ghost s = cs@;
    let mut out: Vec<Todo> = Vec::new();
    let mut start: usize = 0;
    let mut i: usize = 0;
    assert(s.take(0) =~= Seq::<char>::empty());
    assert(cs@.subrange(0, 0) =~= Seq::<char>::empty());
    assert(crate::parser::todo_views(out@) =~= Seq::<TodoView>::empty());
    loop
        invariant_except_break
            start <= i <= n == cs@.len(),
            s == cs@,
            crate::text::split_on(s.take(i as int), '\n').len() > 0,
            crate::text::split_on(s.take(i as int), '\n').last() == cs@.subrange(
                start as int,
                i as int,
            ),
            crate::parser::todo_views(out@) == cards_of_lines(
                crate::text::split_on(s.take(i as int), '\n').drop_last(),
            ),
        ensures
            crate::parser::todo_views(out@) == cards_of(s),
        decreases n - i + 1,
    {
        let at_end: bool = i == n;
        let ghost pieces = crate::text::split_on(s.take(i as int), '\n');
        if at_end || cs[i] == '\n' {
            add_line(&cs, start, i, &mut out);
            assert(crate::parser::todo_views(out@) == cards_of_lines(pieces));
            if at_end {
                assert(s.take(i as int) =~= s);
                break;
            }
            proof {
                let longer = s.take(i + 1);
                assert(longer.drop_last() =~= s.take(i as int));
                assert(longer.last() == '\n');
                assert(crate::text::split_on(longer, '\n').drop_last() =~= pieces);
                assert(cs@.subrange(i + 1, i + 1) =~= Seq::<char>::empty());
            }
            start = i + 1;
        } else {
            proof {
                let longer = s.take(i + 1);
                assert(longer.drop_last() =~= s.take(i as int));
                assert(longer.last() == cs@[i as int]);
                assert(crate::text::split_on(longer, '\n').drop_last() =~= pieces.drop_last());
                assert(cs@.subrange(start as int, i + 1) =~= cs@.subrange(
                    start as int,
                    i as int,
                ).push(cs@[i as int]));
            }
        }
        i += 1;
    }
    out
}

// ---------------------------------------------------------------------------------------------
// Laws
// ---------------------------------------------------------------------------------------------

/// The status is one of the three that a card on the board can have.
pub open spec fn is_status(status: Seq<char>) -> bool {
    status == "completed"@ || status == "in_progress"@ || status == "pending"@
}

/// A card as a checklist gives it: it has words, without whitespace round them and the same in both
/// places, and one of the three statuses.
pub open spec fn is_checklist_card(todo: TodoView) -> bool {
    &&& todo.content.len() > 0
    &&& crate::text::trim_spec(todo.content) == todo.content
    &&& todo.active_form == todo.content
    &&& is_status(todo.status)
}

proof fn lemma_worded(pieces: Seq<Seq<char>>, i: int) -> (k: int)
    requires
        0 <= i < worded(pieces).len(),
    ensures
        worded(pieces)[i].len() > 0,
        0 <= k < pieces.len(),
        worded(pieces)[i] == crate::text::trim_spec(pieces[k]),
    decreases pieces.len(),
{
    let before = worded(pieces.drop_last());
    if i < before.len() {
        lemma_worded(pieces.drop_last(), i)
    } else {
        pieces.len() - 1
    }
}

/// The words of a checklist line are a part of it, and trimmed.
proof fn lemma_line_item(line: Seq<char>)
    requires
        line_item(line) is Some,
    ensures
        (line_item(line)->0).1.len() > 0,
        crate::text::has_part(line, (line_item(line)->0).1),
        crate::text::trim_spec((line_item(line)->0).1) == (line_item(line)->0).1,
{
    let first = crate::text::trim_start(line);
    let s = strip_bullet(line);
    crate::text::lemma_trim_start(line);
    if s != first {
        crate::text::lemma_tail(first, 1);
        crate::text::lemma_trim_start(first.skip(1));
        crate::text::lemma_part_of_part(first, first.skip(1), s);
        crate::text::lemma_part_of_part(line, first, s);
    }
    let rest = (strip_marker(s)->0).1;
    lemma_marker_part(s);
    crate::text::lemma_trim(rest);
    crate::text::lemma_part_of_part(line, s, rest);
    crate::text::lemma_part_of_part(line, rest, crate::text::trim_spec(rest));
}

/// What stands behind a marker is a part.
proof fn lemma_marker_part(s: Seq<char>)
    requires
        strip_marker(s) is Some,
    ensures
        crate::text::has_part(s, (strip_marker(s)->0).1),
{
    if starts_with_emoji_check(s) {
        crate::text::lemma_tail(s, 2);
    } else if s.len() > 0 && sign_mark(s[0]) is Some {
        crate::text::lemma_tail(s, 1);
    } else {
        let inner = crate::text::trim_start(s.skip(1));
        crate::text::lemma_tail(s, 1);
        crate::text::lemma_trim_start(s.skip(1));
        crate::text::lemma_part_of_part(s, s.skip(1), inner);
        crate::text::lemma_tail(inner, 1);
        crate::text::lemma_part_of_part(s, inner, inner.skip(1));
        if inner[0] != ']' {
            let close = crate::text::trim_start(inner.skip(1));
            crate::text::lemma_trim_start(inner.skip(1));
            crate::text::lemma_part_of_part(s, inner.skip(1), close);
            crate::text::lemma_tail(close, 1);
            crate::text::lemma_part_of_part(s, close, close.skip(1));
        }
    }
}

/// Words without the parenthesis at their end are a part of them.
proof fn lemma_paren_part(s: Seq<char>)
    ensures
        crate::text::has_part(s, strip_paren(s)),
{
    let t = crate::text::trim_end(s);
    crate::text::lemma_trim_end(s);
    if exists|p: int| first_open(t, p) {
        let p = choose|p: int| first_open(t, p);
        crate::text::lemma_head(t, p);
        crate::text::lemma_trim_end(t.take(p));
        crate::text::lemma_part_of_part(t, t.take(p), strip_paren(s));
        crate::text::lemma_part_of_part(s, t, strip_paren(s));
    } else {
        crate::text::lemma_head(s, s.len() as int);
        assert(s.take(s.len() as int) =~= s);
    }
}

/// The cards of a line are checklist cards, and their words a part of it; where there is more than
/// one, the line is done, and each is short.
pub proof fn law_line_cards(line: Seq<char>, i: int)
    requires
        0 <= i < line_cards(line).len(),
    ensures
        is_checklist_card(line_cards(line)[i]),
        crate::text::has_part(line, line_cards(line)[i].content),
        line_cards(line).len() > 1 ==> line_cards(line)[i].status == "completed"@,
        line_cards(line).len() > 1 ==> line_cards(line)[i].content.len() <= ITEM_CHARS,
{
    match line_item(line) {
        Some((mark, words)) => {
            lemma_line_item(line);
            let bare = strip_paren(words);
            let pieces = crate::text::split_on(bare, ',');
            let items = line_words(mark, words);
            if mark == Mark::Done && is_enumeration(bare) && all_short(worded(pieces)) {
                let k = lemma_worded(pieces, i);
                crate::text::lemma_pieces(bare, ',', k);
                crate::text::lemma_trim(pieces[k]);
                crate::text::lemma_part_of_part(bare, pieces[k], items[i]);
                lemma_paren_part(words);
                crate::text::lemma_part_of_part(words, bare, items[i]);
                crate::text::lemma_part_of_part(line, words, items[i]);
            }
            assert(items[i].len() > 0);
        },
        None => {},
    }
}

proof fn lemma_cards_concat(a: Seq<Seq<char>>, b: Seq<Seq<char>>)
    ensures
        cards_of_lines(a + b) == cards_of_lines(a) + cards_of_lines(b),
    decreases b.len(),
{
    if b.len() == 0 {
        assert(a + b =~= a);
        assert(cards_of_lines(a) + cards_of_lines(b) =~= cards_of_lines(a));
    } else {
        assert((a + b).drop_last() =~= a + b.drop_last());
        lemma_cards_concat(a, b.drop_last());
        assert(cards_of_lines(a + b) =~= cards_of_lines(a) + cards_of_lines(b));
    }
}

/// Each line speaks for itself: the cards of two texts, one below the other, are those of the
/// first and then those of the second.
pub proof fn law_lines_are_independent(a: Seq<char>, b: Seq<char>)
    ensures
        cards_of(a + seq!['\n'] + b) == cards_of(a) + cards_of(b),
{
    let front = a.push('\n');
    assert(a + seq!['\n'] + b =~= front + b);
    crate::text::lemma_split_concat(front, b, '\n');
    assert(front.drop_last() =~= a);
    assert(crate::text::split_on(front, '\n').drop_last() =~= crate::text::split_on(a, '\n'));
    lemma_cards_concat(crate::text::split_on(a, '\n'), crate::text::split_on(b, '\n'));
}

proof fn lemma_cards_of_lines(lines: Seq<Seq<char>>, i: int) -> (k: int)
    requires
        0 <= i < cards_of_lines(lines).len(),
    ensures
        is_checklist_card(cards_of_lines(lines)[i]),
        0 <= k < lines.len(),
        crate::text::has_part(lines[k], cards_of_lines(lines)[i].content),
    decreases lines.len(),
{
    let before = cards_of_lines(lines.drop_last());
    if i < before.len() {
        lemma_cards_of_lines(lines.drop_last(), i)
    } else {
        law_line_cards(lines.last(), i - before.len());
        lines.len() - 1
    }
}

/// Every card that is scraped has words, without whitespace round them and the same in both places,
/// and one of the three statuses; its words are a part of some line of the text.
pub proof fn law_cards(text: Seq<char>, i: int)
    requires
        0 <= i < cards_of(text).len(),
    ensures
        is_checklist_card(cards_of(text)[i]),
        exists|k: int|
            0 <= k < crate::text::split_on(text, '\n').len() && crate::text::has_part(
                #[trigger] crate::text::split_on(text, '\n')[k],
                cards_of(text)[i].content,
            ),
{
    let k = lemma_cards_of_lines(crate::text::split_on(text, '\n'), i);
    assert(crate::text::has_part(
        crate::text::split_on(text, '\n')[k],
        cards_of(text)[i].content,
    ));
}

/// An empty text has no cards.
pub proof fn law_no_text_no_cards()
    ensures
        cards_of(Seq::empty()).len() == 0,
{
    let none = Seq::<char>::empty();
    assert(crate::text::split_on(none, '\n') =~= seq![none]);
    assert(seq![none].drop_last() =~= Seq::<Seq<char>>::empty());
    assert(strip_bullet(none).len() == 0);
    assert(line_cards(none).len() == 0);
    assert(cards_of_lines(seq![none]) =~= cards_of_lines(Seq::empty()) + line_cards(none));
}

} // verus!
