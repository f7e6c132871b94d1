//! What a checklist line gives, said of the characters that it is made of.
use vstd::prelude::*;

use crate::checklist::Mark;
use crate::parser::TodoView;

verus! {

// ---------------------------------------------------------------------------------------------
// Pieces
// ---------------------------------------------------------------------------------------------

/// A text without the separator is one piece.
pub proof fn law_one_piece<T>(s: Seq<T>, c: T)
    requires
        !s.contains(c),
    ensures
        crate::text::split_on(s, c) == seq![s],
    decreases s.len(),
{
    if s.len() > 0 {
        let less = s.drop_last();
        assert(!less.contains(c)) by {
            if less.contains(c) {
                let i = choose|i: int| 0 <= i < less.len() && less[i] == c;
                assert(s[i] == c);
            }
        }
        law_one_piece(less, c);
        assert(s[s.len() - 1] != c);
        assert(less.push(s.last()) =~= s);
        assert(crate::text::split_on(s, c) =~= seq![s]);
    } else {
        assert(s =~= Seq::empty());
    }
}

/// What stands in front of the first separator is the first piece; the others are those of what
/// stands behind it.
pub proof fn law_first_piece<T>(first: Seq<T>, c: T, rest: Seq<T>)
    requires
        !first.contains(c),
    ensures
        crate::text::split_on(first + seq![c] + rest, c) == seq![first] + crate::text::split_on(
            rest,
            c,
        ),
{
    let a = first.push(c);
    assert(first + seq![c] + rest =~= a + rest);
    crate::text::lemma_split_concat(a, rest, c);
    law_one_piece(first, c);
    assert(a.drop_last() =~= first);
    assert(crate::text::split_on(a, c).drop_last() =~= seq![first]);
}

// ---------------------------------------------------------------------------------------------
// The parenthesis at the end
// ---------------------------------------------------------------------------------------------

/// Every parenthesis that opens in `s` closes in it.
pub open spec fn leaves_none_open(s: Seq<char>) -> bool {
    forall|q: int|
        0 <= q < s.len() && #[trigger] s[q] == '(' ==> exists|r: int|
            q < r < s.len() && #[trigger] s[r] == ')'
}

/// A parenthesis at the end goes, with what it holds and the whitespace in front of it.
pub proof fn law_end_parenthesis(bare: Seq<char>, gap: Seq<char>, inner: Seq<char>)
    requires
        bare.len() > 0 ==> !crate::text::is_white_spec(bare.last()),
        leaves_none_open(bare),
        crate::laws::is_blank(gap),
        !inner.contains(')'),
    ensures
        crate::checklist::strip_paren(bare + gap + seq!['('] + inner + seq![')']) == bare,
{
    let s = bare + gap + seq!['('] + inner + seq![')'];
    let p = (bare + gap).len() as int;
    let n = s.len() - 1;
    assert(s.last() == ')');
    assert(crate::text::trim_end(s) == s);
    assert forall|q: int| p < q < n implies #[trigger] s[q] != ')' by {
        assert(s[q] == inner[q - p - 1]);
        assert(inner.contains(inner[q - p - 1]));
    }
    assert(s[p] == '(');
    assert(crate::checklist::opens_last_paren(s, p));
    assert forall|q: int| 0 <= q < p implies !#[trigger] crate::checklist::opens_last_paren(
        s,
        q,
    ) by {
        if s[q] == '(' {
            if q < bare.len() {
                assert(bare[q] == s[q]);
                let r = choose|r: int| q < r < bare.len() && #[trigger] bare[r] == ')';
                assert(s[r] == ')');
            } else {
                assert(gap[q - bare.len()] == s[q]);
                assert(crate::text::is_white_spec(gap[q - bare.len()]));
            }
        }
    }
    assert(crate::checklist::first_open(s, p));
    let c = choose|c: int| crate::checklist::first_open(s, c);
    assert(crate::checklist::first_open(s, c));
    assert(c == p) by {
        if c < p {
            assert(!crate::checklist::opens_last_paren(s, c));
        } else if p < c {
            assert(!crate::checklist::opens_last_paren(s, p));
        }
    }
    assert(s.take(p) =~= bare + gap);
    crate::laws::lemma_trim_back(bare, gap);
    assert(crate::text::trim_end(bare) == bare);
}

/// Words that end in no parenthesis stay as they are.
pub proof fn law_no_end_parenthesis(words: Seq<char>)
    requires
        crate::laws::is_tight(words),
        words.len() == 0 || words.last() != ')' || leaves_none_open(words.drop_last()),
    ensures
        crate::checklist::strip_paren(words) == words,
{
    assert(crate::text::trim_end(words) == words);
    assert forall|p: int| !crate::checklist::first_open(words, p) by {
        if crate::checklist::opens_last_paren(words, p) {
            let less = words.drop_last();
            assert(less[p] == '(');
            let r = choose|r: int| p < r < less.len() && #[trigger] less[r] == ')';
            assert(words[r] == ')');
        }
    }
}

// ---------------------------------------------------------------------------------------------
// The form of a line
// ---------------------------------------------------------------------------------------------

/// A box with nothing but whitespace in it.
pub open spec fn is_empty_box(marker: Seq<char>) -> bool {
    &&& marker.len() >= 2
    &&& marker[0] == '['
    &&& marker.last() == ']'
    &&& crate::laws::is_blank(marker.subrange(1, marker.len() - 1))
}

/// A box with a cross at `k` in it, and nothing else but whitespace.
pub open spec fn is_ticked_at(marker: Seq<char>, k: int) -> bool {
    &&& marker[0] == '['
    &&& 0 < k < marker.len() - 1
    &&& marker[k] == 'x' || marker[k] == 'X'
    &&& marker.last() == ']'
    &&& crate::laws::is_blank(marker.subrange(1, k))
    &&& crate::laws::is_blank(marker.subrange(k + 1, marker.len() - 1))
}

/// A box with a cross in it.
pub open spec fn is_ticked_box(marker: Seq<char>) -> bool {
    exists|k: int| is_ticked_at(marker, k)
}

/// The markers, and the status that each stands for.
pub open spec fn is_marker(marker: Seq<char>, status: Seq<char>) -> bool {
    ||| status == "completed"@ && (marker == seq!['\u{2705}'] || marker == seq!['\u{2713}']
        || marker == seq!['\u{2714}', '\u{fe0f}'] || marker == seq!['\u{2611}', '\u{fe0f}']
        || is_ticked_box(marker))
    ||| status == "in_progress"@ && (marker == seq!['\u{1f504}'] || marker == seq!['\u{23f3}']
        || marker == seq!['\u{1f6a7}'])
    ||| status == "pending"@ && (marker == seq!['\u{274c}'] || marker == seq!['\u{2717}']
        || is_empty_box(marker))
}

/// What a checklist line is made of.
pub struct LineParts {
    pub indent: Seq<char>,
    pub bullet: Seq<char>,
    pub gap: Seq<char>,
    pub marker: Seq<char>,
    pub front: Seq<char>,
    pub words: Seq<char>,
    pub back: Seq<char>,
}

/// The line is made of these parts, one behind the other: an indentation, perhaps a bullet, a
/// marker, and words, with whitespace between them where there is any.
pub open spec fn is_made_of(line: Seq<char>, parts: LineParts, status: Seq<char>) -> bool {
    &&& line == parts.indent + (parts.bullet + (parts.gap + (parts.marker + (parts.front
        + parts.words + parts.back))))
    &&& crate::laws::is_blank(parts.indent)
    &&& parts.bullet == seq!['-'] || parts.bullet == seq!['*'] || (parts.bullet.len() == 0
        && parts.gap.len() == 0)
    &&& crate::laws::is_blank(parts.gap)
    &&& is_marker(parts.marker, status)
    &&& crate::laws::is_blank(parts.front)
    &&& parts.words.len() > 0
    &&& crate::laws::is_tight(parts.words)
    &&& crate::laws::is_blank(parts.back)
}

/// A marker is found at the beginning of a text.
proof fn lemma_marker_found(marker: Seq<char>, status: Seq<char>, rest: Seq<char>) -> (mark: Mark)
    requires
        is_marker(marker, status),
    ensures
        mark.status_spec() == status,
        (mark == Mark::Done) == (status == "completed"@),
        crate::checklist::strip_marker(marker + rest) == Some((mark, rest)),
        marker.len() > 0,
        !crate::text::is_white_spec(marker[0]),
        marker[0] != '-' && marker[0] != '*',
{
    lemma_statuses();
    let s = marker + rest;
    let mark = if status == "completed"@ {
        Mark::Done
    } else if status == "in_progress"@ {
        Mark::Doing
    } else {
        Mark::Open
    };
    assert(s.skip(marker.len() as int) =~= rest);
    assert(s[0] == marker[0]);
    if status == "pending"@ && is_empty_box(marker) {
        let inner = marker.subrange(1, marker.len() - 1);
        let close = seq![']'] + rest;
        assert(s.skip(1) =~= inner + close);
        crate::laws::lemma_trim_front(inner, close);
        assert(close[0] == ']');
        assert(crate::text::trim_start(close) == close);
        assert(close.skip(1) =~= rest);
    } else if status == "completed"@ && is_ticked_box(marker) {
        let k = choose|k: int| is_ticked_at(marker, k);
        let a = marker.subrange(1, k);
        let b = marker.subrange(k + 1, marker.len() - 1);
        let close = seq![']'] + rest;
        let cross = seq![marker[k]] + (b + close);
        assert(s.skip(1) =~= a + cross);
        crate::laws::lemma_trim_front(a, cross);
        assert(cross[0] == marker[k]);
        assert(crate::text::trim_start(cross) == cross);
        assert(cross.skip(1) =~= b + close);
        crate::laws::lemma_trim_front(b, close);
        assert(close[0] == ']');
        assert(crate::text::trim_start(close) == close);
        assert(close.skip(1) =~= rest);
    } else if marker.len() == 2 {
        assert(s[1] == marker[1]);
    }
    mark
}

proof fn lemma_statuses()
    ensures
        "completed"@ != "in_progress"@,
        "completed"@ != "pending"@,
        "in_progress"@ != "pending"@,
{
    reveal_strlit("completed");
    reveal_strlit("in_progress");
    reveal_strlit("pending");
    assert("completed"@.len() == 9);
    assert("in_progress"@.len() == 11);
    assert("pending"@.len() == 7);
}

/// A line that is made of the parts has them found.
proof fn lemma_line_found(line: Seq<char>, parts: LineParts, status: Seq<char>) -> (mark: Mark)
    requires
        is_made_of(line, parts, status),
    ensures
        mark.status_spec() == status,
        (mark == Mark::Done) == (status == "completed"@),
        crate::checklist::line_item(line) == Some((mark, parts.words)),
{
    let rest = parts.front + parts.words + parts.back;
    let marked = parts.marker + rest;
    let mark = lemma_marker_found(parts.marker, status, rest);
    assert(marked[0] == parts.marker[0]);
    assert(crate::text::trim_start(marked) == marked);
    let bulleted = parts.bullet + (parts.gap + marked);
    crate::laws::lemma_trim_front(parts.indent, bulleted);
    if parts.bullet.len() == 0 {
        assert(bulleted =~= marked);
    } else {
        assert(bulleted[0] == parts.bullet[0]);
        assert(crate::text::trim_start(bulleted) == bulleted);
        assert(bulleted.skip(1) =~= parts.gap + marked);
        crate::laws::lemma_trim_front(parts.gap, marked);
    }
    assert(crate::checklist::strip_bullet(line) == marked);
    crate::laws::law_trim(parts.front, parts.words, parts.back);
    mark
}

/// The words, but for the parenthesis at their end, hold a comma, and neither a colon nor an
/// ideographic full stop; and no piece between the commas is longer than forty characters.
pub open spec fn enumerates(words: Seq<char>) -> bool {
    let bare = crate::checklist::strip_paren(words);
    let pieces = crate::text::split_on(bare, ',');
    &&& bare.contains(',')
    &&& !bare.contains(':')
    &&& !bare.contains('\u{3002}')
    &&& forall|k: int|
        0 <= k < pieces.len() ==> crate::text::trim_spec(#[trigger] pieces[k]).len() <= 40
}

/// What stands between the commas of the words, but for the parenthesis at their end, trimmed, and
/// without what is empty then.
pub open spec fn enumerated_words(words: Seq<char>) -> Seq<Seq<char>> {
    crate::text::split_on(crate::checklist::strip_paren(words), ',').map_values(
        |piece: Seq<char>| crate::text::trim_spec(piece),
    ).filter(|piece: Seq<char>| piece.len() > 0)
}

proof fn lemma_worded(pieces: Seq<Seq<char>>)
    ensures
        crate::checklist::worded(pieces) == pieces.map_values(
            |piece: Seq<char>| crate::text::trim_spec(piece),
        ).filter(|piece: Seq<char>| piece.len() > 0),
    decreases pieces.len(),
{
    reveal(Seq::filter);
    let trimmed = pieces.map_values(|piece: Seq<char>| crate::text::trim_spec(piece));
    if pieces.len() > 0 {
        lemma_worded(pieces.drop_last());
        assert(trimmed.drop_last() =~= pieces.drop_last().map_values(
            |piece: Seq<char>| crate::text::trim_spec(piece),
        ));
    }
}

proof fn lemma_short(pieces: Seq<Seq<char>>)
    ensures
        crate::checklist::all_short(crate::checklist::worded(pieces)) == forall|k: int|
            0 <= k < pieces.len() ==> crate::text::trim_spec(#[trigger] pieces[k]).len() <= 40,
    decreases pieces.len(),
{
    if pieces.len() > 0 {
        let less = pieces.drop_last();
        let n = less.len() as int;
        lemma_short(less);
        let before = crate::checklist::worded(less);
        let after = crate::checklist::worded(pieces);
        let words = crate::text::trim_spec(pieces[n]);
        assert(pieces.last() == pieces[n]);
        if crate::checklist::all_short(after) {
            assert forall|k: int| 0 <= k < before.len() implies (#[trigger] before[k]).len()
                <= crate::checklist::ITEM_CHARS by {
                assert(after[k] == before[k]);
            }
            if words.len() > 0 {
                assert(after[before.len() as int] == words);
            }
            assert forall|k: int| 0 <= k < pieces.len() implies crate::text::trim_spec(
                #[trigger] pieces[k],
            ).len() <= 40 by {
                if k < n {
                    assert(less[k] == pieces[k]);
                }
            }
        }
        if forall|k: int|
            0 <= k < pieces.len() ==> crate::text::trim_spec(#[trigger] pieces[k]).len() <= 40 {
            assert forall|k: int| 0 <= k < less.len() implies crate::text::trim_spec(
                #[trigger] less[k],
            ).len() <= 40 by {
                assert(less[k] == pieces[k]);
            }
            assert forall|k: int| 0 <= k < after.len() implies (#[trigger] after[k]).len()
                <= crate::checklist::ITEM_CHARS by {
                if k < before.len() {
                    assert(after[k] == before[k]);
                }
            }
        }
    }
}

// ---------------------------------------------------------------------------------------------
// The cards of a line
// ---------------------------------------------------------------------------------------------

/// A line that is done and enumerates has one card for each item, as many as there are, in their
/// order.
pub proof fn law_enumeration_gives_each(line: Seq<char>, parts: LineParts)
    requires
        is_made_of(line, parts, "completed"@),
        enumerates(parts.words),
    ensures
        crate::checklist::line_cards(line).len() == enumerated_words(parts.words).len(),
        forall|i: int|
            0 <= i < crate::checklist::line_cards(line).len() ==> #[trigger]
            crate::checklist::line_cards(line)[i] == (TodoView {
                content: enumerated_words(parts.words)[i],
                status: "completed"@,
                active_form: enumerated_words(parts.words)[i],
            }),
{
    let mark = lemma_line_found(line, parts, "completed"@);
    let pieces = crate::text::split_on(crate::checklist::strip_paren(parts.words), ',');
    lemma_worded(pieces);
    lemma_short(pieces);
}

/// Any other line of the form has one card, with the words as they are.
pub proof fn law_other_line_gives_one(line: Seq<char>, parts: LineParts, status: Seq<char>)
    requires
        is_made_of(line, parts, status),
        status != "completed"@ || !enumerates(parts.words),
    ensures
        crate::checklist::line_cards(line) == seq![
            TodoView { content: parts.words, status, active_form: parts.words },
        ],
{
    let mark = lemma_line_found(line, parts, status);
    let pieces = crate::text::split_on(crate::checklist::strip_paren(parts.words), ',');
    lemma_short(pieces);
    assert(crate::checklist::line_words(mark, parts.words) == seq![parts.words]);
    assert(crate::checklist::line_cards(line) =~= seq![
        TodoView { content: parts.words, status, active_form: parts.words },
    ]);
}

/// The whitespace that is trimmed away in front.
proof fn lemma_front(s: Seq<char>) -> (front: Seq<char>)
    ensures
        crate::laws::is_blank(front),
        s == front + crate::text::trim_start(s),
    decreases s.len(),
{
    if s.len() > 0 && crate::text::is_white_spec(s[0]) {
        let less = lemma_front(s.skip(1));
        let front = seq![s[0]] + less;
        assert forall|i: int| 0 <= i < front.len() implies crate::text::is_white_spec(
            #[trigger] front[i],
        ) by {
            if i > 0 {
                assert(front[i] == less[i - 1]);
            }
        }
        assert(s =~= seq![s[0]] + s.skip(1));
        assert(s =~= front + crate::text::trim_start(s));
        front
    } else {
        assert(s =~= Seq::<char>::empty() + s);
        Seq::empty()
    }
}

/// The whitespace that is trimmed away behind.
proof fn lemma_back(s: Seq<char>) -> (back: Seq<char>)
    ensures
        crate::laws::is_blank(back),
        s == crate::text::trim_end(s) + back,
    decreases s.len(),
{
    if s.len() > 0 && crate::text::is_white_spec(s.last()) {
        let less = lemma_back(s.drop_last());
        let back = less.push(s.last());
        assert(s =~= s.drop_last().push(s.last()));
        assert(s =~= crate::text::trim_end(s) + back);
        back
    } else {
        assert(s =~= s + Seq::<char>::empty());
        Seq::empty()
    }
}

proof fn lemma_marker_form(s: Seq<char>) -> (marker: Seq<char>)
    requires
        crate::checklist::strip_marker(s) is Some,
    ensures
        s == marker + (crate::checklist::strip_marker(s)->0).1,
        is_marker(marker, (crate::checklist::strip_marker(s)->0).0.status_spec()),
{
    let rest = (crate::checklist::strip_marker(s)->0).1;
    if crate::checklist::starts_with_emoji_check(s) {
        let marker = s.take(2);
        assert(s =~= marker + rest);
        assert(marker =~= seq![s[0], s[1]]);
        marker
    } else if s.len() > 0 && crate::checklist::sign_mark(s[0]) is Some {
        let marker = seq![s[0]];
        assert(s =~= marker + rest);
        marker
    } else {
        let a = lemma_front(s.skip(1));
        let inner = crate::text::trim_start(s.skip(1));
        assert(s =~= seq!['['] + (a + inner));
        if inner[0] == ']' {
            let marker = seq!['['] + a + seq![']'];
            assert(inner =~= seq![']'] + rest);
            assert(s =~= marker + rest);
            assert(marker.subrange(1, marker.len() - 1) =~= a);
            marker
        } else {
            let b = lemma_front(inner.skip(1));
            let close = crate::text::trim_start(inner.skip(1));
            assert(close =~= seq![']'] + rest);
            assert(inner =~= seq![inner[0]] + (b + close));
            let marker = seq!['['] + a + seq![inner[0]] + b + seq![']'];
            assert(s =~= marker + rest);
            let k = 1 + a.len() as int;
            assert(marker.subrange(1, k) =~= a);
            assert(marker.subrange(k + 1, marker.len() - 1) =~= b);
            assert(is_ticked_at(marker, k));
            marker
        }
    }
}

/// The indentation, the bullet and the whitespace behind it.
proof fn lemma_bullet_form(line: Seq<char>) -> (r: (Seq<char>, Seq<char>, Seq<char>))
    ensures
        line == r.0 + (r.1 + (r.2 + crate::checklist::strip_bullet(line))),
        crate::laws::is_blank(r.0),
        r.1 == seq!['-'] || r.1 == seq!['*'] || (r.1.len() == 0 && r.2.len() == 0),
        crate::laws::is_blank(r.2),
{
    let first = crate::text::trim_start(line);
    let indent = lemma_front(line);
    let s = crate::checklist::strip_bullet(line);
    if first.len() > 0 && (first[0] == '-' || first[0] == '*') {
        let gap = lemma_front(first.skip(1));
        assert(first =~= seq![first[0]] + first.skip(1));
        (indent, seq![first[0]], gap)
    } else {
        let none = Seq::<char>::empty();
        assert(none + s =~= s);
        assert(none + (none + s) =~= s);
        (indent, none, none)
    }
}

/// The whitespace in front of the words and behind them.
proof fn lemma_words_form(rest: Seq<char>) -> (r: (Seq<char>, Seq<char>))
    ensures
        rest == r.0 + crate::text::trim_spec(rest) + r.1,
        crate::laws::is_blank(r.0),
        crate::laws::is_blank(r.1),
        crate::laws::is_tight(crate::text::trim_spec(rest)),
{
    let front = lemma_front(rest);
    let tail = crate::text::trim_start(rest);
    let back = lemma_back(tail);
    let words = crate::text::trim_spec(rest);
    lemma_tight(rest);
    assert(front + (words + back) =~= front + words + back);
    (front, back)
}

/// A trimmed text has no whitespace at either end.
proof fn lemma_tight(s: Seq<char>)
    ensures
        crate::laws::is_tight(crate::text::trim_spec(s)),
{
    let tail = crate::text::trim_start(s);
    crate::text::lemma_trim_start(s);
    crate::text::lemma_trim_end(tail);
    let words = crate::text::trim_spec(s);
    if words.len() > 0 {
        assert(tail.take(words.len() as int)[0] == tail[0]);
    }
}

/// A line of any other form has no cards.
pub proof fn law_no_form_no_cards(line: Seq<char>)
    requires
        forall|parts: LineParts, status: Seq<char>| !#[trigger] is_made_of(line, parts, status),
    ensures
        crate::checklist::line_cards(line).len() == 0,
{
    if let Some((mark, words)) = crate::checklist::line_item(line) {
        let s = crate::checklist::strip_bullet(line);
        let rest = (crate::checklist::strip_marker(s)->0).1;
        let (indent, bullet, gap) = lemma_bullet_form(line);
        let marker = lemma_marker_form(s);
        let (front, back) = lemma_words_form(rest);
        let parts = LineParts { indent, bullet, gap, marker, front, words, back };
        assert(is_made_of(line, parts, mark.status_spec()));
    }
}

/// A text of one line has the cards of that line.
pub proof fn law_one_line(line: Seq<char>)
    requires
        !line.contains('\n'),
    ensures
        crate::checklist::cards_of(line) == crate::checklist::line_cards(line),
{
    law_one_piece(line, '\n');
    let lines = seq![line];
    assert(lines.drop_last() =~= Seq::<Seq<char>>::empty());
    assert(crate::checklist::cards_of_lines(lines.drop_last()) =~= Seq::<TodoView>::empty());
    assert(crate::checklist::cards_of(line) =~= crate::checklist::line_cards(line));
}

/// The cards of a text are those of its first line, and then those of the rest.
pub proof fn law_first_line(line: Seq<char>, rest: Seq<char>)
    requires
        !line.contains('\n'),
    ensures
        crate::checklist::cards_of(line + seq!['\n'] + rest) == crate::checklist::line_cards(line)
            + crate::checklist::cards_of(rest),
{
    law_one_line(line);
    crate::checklist::law_lines_are_independent(line, rest);
}

} // verus!
