//! Characters and strings: whitespace, trimming, case, comparison, decimal digits.
use vstd::prelude::*;

verus! {

/// Appends one character to the end of the string.
///
/// `String::push` is specified as its documentation has it: the string grows by exactly that
/// character.
pub assume_specification[ String::push ](s: &mut String, c: char)
    ensures
        final(s)@ == old(s)@.push(c),
;

// ---------------------------------------------------------------------------------------------
// Whitespace
// ---------------------------------------------------------------------------------------------

/// The characters with the Unicode property `White_Space`.
pub open spec fn is_white_spec(c: char) -> bool {
    let n = c as u32;
    ||| 0x9 <= n <= 0xd
    ||| n == 0x20
    ||| n == 0x85
    ||| n == 0xa0
    ||| n == 0x1680
    ||| 0x2000 <= n <= 0x200a
    ||| n == 0x2028
    ||| n == 0x2029
    ||| n == 0x202f
    ||| n == 0x205f
    ||| n == 0x3000
}

/// Whether `c` is whitespace.
pub fn is_white(c: char) -> (r: bool)
    ensures
        r == is_white_spec(c),
{
    let n: u32 = c as u32;
    (0x9 <= n && n <= 0xd) || n == 0x20 || n == 0x85 || n == 0xa0 || n == 0x1680 || (0x2000 <= n
        && n <= 0x200a) || n == 0x2028 || n == 0x2029 || n == 0x202f || n == 0x205f || n == 0x3000
}

/// `s` without its leading whitespace.
pub open spec fn trim_start(s: Seq<char>) -> Seq<char>
    decreases s.len(),
{
    if s.len() > 0 && is_white_spec(s[0]) {
        trim_start(s.skip(1))
    } else {
        s
    }
}

/// `s` without its trailing whitespace.
pub open spec fn trim_end(s: Seq<char>) -> Seq<char>
    decreases s.len(),
{
    if s.len() > 0 && is_white_spec(s.last()) {
        trim_end(s.drop_last())
    } else {
        s
    }
}

/// `s` without whitespace at either end.
pub open spec fn trim_spec(s: Seq<char>) -> Seq<char> {
    trim_end(trim_start(s))
}

/// The first position in `from..to` that does not hold whitespace (`to` where there is none).
pub fn skip_white(cs: &Vec<char>, from: usize, to: usize) -> (r: usize)
    requires
        from <= to <= cs@.len(),
    ensures
        from <= r <= to,
        trim_start(cs@.subrange(from as int, to as int)) == cs@.subrange(r as int, to as int),
        r < to ==> !is_white_spec(cs@[r as int]),
{
    let mut i: usize = from;
    while i < to && is_white(cs[i])
        invariant
            from <= i <= to <= cs@.len(),
            trim_start(cs@.subrange(from as int, to as int)) == trim_start(
                cs@.subrange(i as int, to as int),
            ),
        decreases to - i,
    {
        assert(cs@.subrange(i as int, to as int).skip(1) == cs@.subrange(i + 1, to as int));
        i += 1;
    }
    i
}

/// The position behind the last one in `from..to` that does not hold whitespace (`from` where
/// there is none).
pub fn drop_white(cs: &Vec<char>, from: usize, to: usize) -> (r: usize)
    requires
        from <= to <= cs@.len(),
    ensures
        from <= r <= to,
        trim_end(cs@.subrange(from as int, to as int)) == cs@.subrange(from as int, r as int),
        r > from ==> !is_white_spec(cs@[r - 1]),
{
    let mut i: usize = to;
    while i > from && is_white(cs[i - 1])
        invariant
            from <= i <= to <= cs@.len(),
            trim_end(cs@.subrange(from as int, to as int)) == trim_end(
                cs@.subrange(from as int, i as int),
            ),
        decreases i - from,
    {
        assert(cs@.subrange(from as int, i as int).drop_last() == cs@.subrange(
            from as int,
            i - 1,
        ));
        i -= 1;
    }
    i
}

// ---------------------------------------------------------------------------------------------
// Strings and character vectors
// ---------------------------------------------------------------------------------------------

/// The characters of `s`.
pub fn chars_of(s: &str) -> (r: Vec<char>)
    ensures
        r@ == s@,
{
    let mut out: Vec<char> = Vec::new();
    for c in it: s.chars()
        invariant
            it.seq() == s@,
            out@ == s@.take(it.index() as int),
    {
        out.push(c);
        assert(s@.take(it.index() as int + 1) == s@.take(it.index() as int).push(c));
    }
    assert(s@.take(s@.len() as int) == s@);
    out
}

/// The string that holds the characters at `from..to`.
pub fn string_of(cs: &Vec<char>, from: usize, to: usize) -> (r: String)
    requires
        from <= to <= cs@.len(),
    ensures
        r@ == cs@.subrange(from as int, to as int),
{
    let mut out: String = String::new();
    let mut i: usize = from;
    while i < to
        invariant
            from <= i <= to <= cs@.len(),
            out@ == cs@.subrange(from as int, i as int),
        decreases to - i,
    {
        out.push(cs[i]);
        assert(cs@.subrange(from as int, i + 1) == cs@.subrange(from as int, i as int).push(
            cs@[i as int],
        ));
        i += 1;
    }
    out
}

/// The pieces of `s` between the occurrences of `c`.
pub open spec fn split_on<T>(s: Seq<T>, c: T) -> Seq<Seq<T>>
    decreases s.len(),
{
    if s.len() == 0 {
        seq![Seq::empty()]
    } else {
        let before = split_on(s.drop_last(), c);
        if s.last() == c {
            before.push(Seq::empty())
        } else {
            before.drop_last().push(before.last().push(s.last()))
        }
    }
}

/// There is at least one piece.
pub proof fn lemma_split_some<T>(s: Seq<T>, c: T)
    ensures
        split_on(s, c).len() > 0,
    decreases s.len(),
{
    if s.len() > 0 {
        lemma_split_some(s.drop_last(), c);
    }
}

/// The pieces on both sides of a separator are those of the whole.
pub proof fn lemma_split_concat<T>(a: Seq<T>, b: Seq<T>, c: T)
    requires
        a.len() > 0,
        a.last() == c,
    ensures
        split_on(a + b, c) == split_on(a, c).drop_last() + split_on(b, c),
    decreases b.len(),
{
    let whole = a + b;
    let front = split_on(a, c).drop_last();
    if b.len() == 0 {
        assert(whole =~= a);
        assert(split_on(a, c) =~= front + seq![Seq::empty()]);
        assert(split_on(b, c) =~= seq![Seq::empty()]);
    } else {
        assert(whole.drop_last() =~= a + b.drop_last());
        assert(whole.last() == b.last());
        lemma_split_concat(a, b.drop_last(), c);
        lemma_split_some(b.drop_last(), c);
        let before = split_on(b.drop_last(), c);
        assert(split_on(whole.drop_last(), c) == front + before);
        assert((front + before).last() == before.last());
        if b.last() == c {
            assert((front + before).push(Seq::empty()) =~= front + before.push(Seq::empty()));
        } else {
            let longer = before.last().push(b.last());
            assert((front + before).drop_last().push(longer) =~= front + before.drop_last().push(
                longer,
            ));
        }
    }
}

/// The contents of some strings.
pub open spec fn string_views(strings: Seq<String>) -> Seq<Seq<char>> {
    Seq::new(strings.len(), |i: int| strings[i]@)
}

/// The pieces of `s` between the occurrences of `c`.
pub fn split(s: &str, c: char) -> (r: Vec<String>)
    ensures
        string_views(r@) == split_on(s@, c),
{
    let mut out: Vec<String> = Vec::new();
    let mut piece: String = String::new();
    assert(s@.take(0) =~= Seq::<char>::empty());
    for d in it: s.chars()
        invariant
            it.seq() == s@,
            split_on(s@.take(it.index() as int), c) == string_views(out@).push(piece@),
    {
        let ghost i = it.index() as int;
        assert(s@.take(i + 1).drop_last() =~= s@.take(i));
        assert(s@.take(i + 1).last() == d);
        let ghost before = string_views(out@);
        assert(before.push(piece@).drop_last() =~= before);
        if d == c {
            let ghost done = piece@;
            out.push(piece);
            piece = String::new();
            assert(string_views(out@) =~= before.push(done));
            assert(piece@ =~= Seq::<char>::empty());
        } else {
            piece.push(d);
        }
    }
    assert(s@.take(s@.len() as int) =~= s@);
    let ghost before = string_views(out@);
    let ghost last = piece@;
    out.push(piece);
    assert(string_views(out@) =~= before.push(last));
    out
}

/// `s` without whitespace at either end.
pub fn trim(s: &str) -> (r: String)
    ensures
        r@ == trim_spec(s@),
{
    let cs = chars_of(s);
    let n: usize = cs.len();
    assert(cs@.subrange(0, n as int) == s@);
    let a: usize = skip_white(&cs, 0, n);
    let b: usize = drop_white(&cs, a, n);
    string_of(&cs, a, b)
}

/// Whether two strings hold the same characters.
pub fn same(a: &str, b: &str) -> (r: bool)
    ensures
        r == (a@ == b@),
{
    let x = chars_of(a);
    let y = chars_of(b);
    if x.len() != y.len() {
        return false;
    }
    let mut i: usize = 0;
    while i < x.len()
        invariant
            i <= x@.len() == y@.len(),
            x@ == a@,
            y@ == b@,
            forall|j: int| 0 <= j < i ==> x@[j] == y@[j],
        decreases x@.len() - i,
    {
        if x[i] != y[i] {
            return false;
        }
        i += 1;
    }
    assert(a@ =~= b@);
    true
}

/// `part` stands in `s` at `i`.
pub open spec fn part_at(s: Seq<char>, part: Seq<char>, i: int) -> bool {
    0 <= i <= s.len() - part.len() && s.subrange(i, i + part.len()) == part
}

/// `part` stands somewhere in `s`.
pub open spec fn has_part(s: Seq<char>, part: Seq<char>) -> bool {
    exists|i: int| part_at(s, part, i)
}

/// What stands between two places of `s` is a part of it.
pub proof fn lemma_between(s: Seq<char>, from: int, to: int)
    requires
        0 <= from <= to <= s.len(),
    ensures
        has_part(s, s.subrange(from, to)),
{
    assert(part_at(s, s.subrange(from, to), from));
}

/// What stands behind the first `n` characters is a part.
pub proof fn lemma_tail(s: Seq<char>, n: int)
    requires
        0 <= n <= s.len(),
    ensures
        has_part(s, s.skip(n)),
{
    lemma_between(s, n, s.len() as int);
    assert(s.skip(n) =~= s.subrange(n, s.len() as int));
}

/// The first `n` characters are a part.
pub proof fn lemma_head(s: Seq<char>, n: int)
    requires
        0 <= n <= s.len(),
    ensures
        has_part(s, s.take(n)),
{
    lemma_between(s, 0, n);
    assert(s.take(n) =~= s.subrange(0, n));
}

/// A part of a part is a part of the whole.
pub proof fn lemma_part_of_part(s: Seq<char>, part: Seq<char>, smaller: Seq<char>)
    requires
        has_part(s, part),
        has_part(part, smaller),
    ensures
        has_part(s, smaller),
{
    let i = choose|i: int| part_at(s, part, i);
    let j = choose|j: int| part_at(part, smaller, j);
    assert(s.subrange(i + j, i + j + smaller.len()) =~= part.subrange(j, j + smaller.len()));
    assert(part_at(s, smaller, i + j));
}

/// A text without its leading whitespace is a part of it, and has none.
pub proof fn lemma_trim_start(s: Seq<char>)
    ensures
        has_part(s, trim_start(s)),
        trim_start(s).len() > 0 ==> !is_white_spec(trim_start(s)[0]),
    decreases s.len(),
{
    if s.len() > 0 && is_white_spec(s[0]) {
        lemma_trim_start(s.skip(1));
        lemma_tail(s, 1);
        lemma_part_of_part(s, s.skip(1), trim_start(s));
    } else {
        lemma_head(s, s.len() as int);
        assert(s.take(s.len() as int) =~= s);
    }
}

/// A text without its trailing whitespace is its beginning, and has none.
pub proof fn lemma_trim_end(s: Seq<char>)
    ensures
        trim_end(s).len() <= s.len(),
        trim_end(s) == s.take(trim_end(s).len() as int),
        has_part(s, trim_end(s)),
        trim_end(s).len() > 0 ==> !is_white_spec(trim_end(s).last()),
    decreases s.len(),
{
    if s.len() > 0 && is_white_spec(s.last()) {
        let rest = s.drop_last();
        lemma_trim_end(rest);
        assert(rest.take(trim_end(rest).len() as int) =~= s.take(trim_end(rest).len() as int));
        lemma_head(s, trim_end(s).len() as int);
    } else {
        lemma_head(s, s.len() as int);
        assert(s.take(s.len() as int) =~= s);
    }
}

/// A trimmed text is a part of it, and to trim it again changes nothing.
pub proof fn lemma_trim(s: Seq<char>)
    ensures
        has_part(s, trim_spec(s)),
        trim_spec(trim_spec(s)) == trim_spec(s),
{
    let t = trim_start(s);
    lemma_trim_start(s);
    lemma_trim_end(t);
    lemma_part_of_part(s, t, trim_spec(s));
    assert(trim_start(trim_spec(s)) == trim_spec(s));
}

/// The pieces between separators are parts of the text, and the last one is its end.
pub proof fn lemma_pieces(s: Seq<char>, c: char, i: int)
    requires
        0 <= i < split_on(s, c).len(),
    ensures
        has_part(s, split_on(s, c)[i]),
        split_on(s, c).last().len() <= s.len(),
        split_on(s, c).last() == s.skip(s.len() - split_on(s, c).last().len()),
    decreases s.len(),
{
    let pieces = split_on(s, c);
    lemma_split_some(s, c);
    if s.len() > 0 {
        let rest = s.drop_last();
        let before = split_on(rest, c);
        lemma_split_some(rest, c);
        lemma_pieces(rest, c, before.len() - 1);
        assert(pieces.last() =~= s.skip(s.len() - pieces.last().len()));
        if i < pieces.len() - 1 {
            lemma_pieces(rest, c, i);
            lemma_head(s, s.len() - 1);
            assert(s.take(s.len() - 1) =~= rest);
            lemma_part_of_part(s, rest, pieces[i]);
        }
    } else {
        assert(pieces.last() =~= s.skip(0));
    }
    if i == pieces.len() - 1 {
        lemma_tail(s, s.len() - pieces.last().len());
    }
}

/// Whether `part` stands in `cs` at `i`.
fn is_part_at(cs: &Vec<char>, part: &Vec<char>, i: usize) -> (r: bool)
    requires
        i <= cs@.len(),
    ensures
        r == part_at(cs@, part@, i as int),
{
    if cs.len() - i < part.len() {
        return false;
    }
    let ghost piece = cs@.subrange(i as int, i + part@.len());
    let mut k: usize = 0;
    while k < part.len()
        invariant
            k <= part@.len(),
            i + part@.len() <= cs.len(),
            piece == cs@.subrange(i as int, i + part@.len()),
            forall|j: int| 0 <= j < k ==> #[trigger] piece[j] == part@[j],
        decreases part@.len() - k,
    {
        assert(piece[k as int] == cs@[i + k]);
        if cs[i + k] != part[k] {
            return false;
        }
        k += 1;
    }
    assert(piece =~= part@);
    true
}

/// Whether `s` begins with `part`.
pub fn starts_with(s: &str, part: &str) -> (r: bool)
    ensures
        r == part_at(s@, part@, 0),
{
    is_part_at(&chars_of(s), &chars_of(part), 0)
}

/// Whether `part` stands somewhere in `s`.
pub fn contains_part(s: &str, part: &str) -> (r: bool)
    ensures
        r == has_part(s@, part@),
{
    let cs = chars_of(s);
    let wanted = chars_of(part);
    let mut i: usize = 0;
    while i < cs.len()
        invariant
            i <= cs@.len(),
            cs@ == s@,
            wanted@ == part@,
            forall|j: int| 0 <= j < i ==> !#[trigger] part_at(s@, part@, j),
        decreases cs@.len() - i,
    {
        if is_part_at(&cs, &wanted, i) {
            return true;
        }
        i += 1;
    }
    let last: bool = is_part_at(&cs, &wanted, cs.len());
    assert(last == part_at(s@, part@, s@.len() as int));
    last
}

// ---------------------------------------------------------------------------------------------
// ASCII case and decimal digits
// ---------------------------------------------------------------------------------------------

/// The lower-case form of an ASCII letter; any other character stays.
pub open spec fn ascii_lower_char(c: char) -> char {
    if 'A' <= c && c <= 'Z' {
        ((c as u8 + 32) as u8) as char
    } else {
        c
    }
}

/// `s` with each ASCII letter in lower case.
pub open spec fn ascii_lower_spec(s: Seq<char>) -> Seq<char> {
    Seq::new(s.len(), |i: int| ascii_lower_char(s[i]))
}

/// `s` with each ASCII letter in lower case.
pub fn ascii_lower(s: &str) -> (r: String)
    ensures
        r@ == ascii_lower_spec(s@),
{
    let mut out: String = String::new();
    for c in it: s.chars()
        invariant
            it.seq() == s@,
            out@ == ascii_lower_spec(s@.take(it.index() as int)),
    {
        let lower: char = if 'A' <= c && c <= 'Z' {
            let b: u8 = c as u8;
            (b + 32) as char
        } else {
            c
        };
        out.push(lower);
        assert(s@.take(it.index() as int + 1) == s@.take(it.index() as int).push(c));
        assert(ascii_lower_spec(s@.take(it.index() as int + 1)) == ascii_lower_spec(
            s@.take(it.index() as int),
        ).push(lower));
    }
    assert(s@.take(s@.len() as int) == s@);
    out
}

/// The decimal notation of `n`, without leading zeros.
pub open spec fn decimal_spec(n: nat) -> Seq<char>
    decreases n,
{
    let digit = ((48 + n % 10) as u8) as char;
    if n < 10 {
        seq![digit]
    } else {
        decimal_spec(n / 10).push(digit)
    }
}

/// The decimal notation of `n`.
pub fn decimal(n: u16) -> (r: String)
    ensures
        r@ == decimal_spec(n as nat),
    decreases n,
{
    let mut out: String = if n < 10 {
        String::new()
    } else {
        decimal(n / 10)
    };
    let digit: u8 = 48 + (n % 10) as u8;
    out.push(digit as char);
    assert(out@ == decimal_spec(n as nat));
    out
}

} // verus!
