//! Following an event stream that grows: which bytes are read, and how far they lead.
use vstd::prelude::*;

use crate::keyed::Keyed;
use crate::parser::parse_jsonl_lines;
use crate::parser::SessionView;
use crate::state::Store;

verus! {

// ---------------------------------------------------------------------------------------------
// The complete lines in a piece of a file
// ---------------------------------------------------------------------------------------------

/// The byte that ends a line.
pub const NEWLINE: u8 = 10;

/// The number of bytes up to the end of the last complete line.
pub open spec fn complete_len(bytes: Seq<u8>) -> int
    decreases bytes.len(),
{
    if bytes.len() == 0 {
        0
    } else if bytes.last() == NEWLINE {
        bytes.len() as int
    } else {
        complete_len(bytes.drop_last())
    }
}

/// The complete lines, as bytes.
pub open spec fn complete_bytes(bytes: Seq<u8>) -> Seq<u8> {
    bytes.take(complete_len(bytes))
}

/// The text that `String::from_utf8_lossy` puts in place of bytes that are not UTF-8.
pub uninterp spec fn lossy_text(bytes: Seq<u8>) -> Seq<char>;

/// The text in some bytes: what they encode where they are UTF-8, else what stands in for them.
pub open spec fn text_of(bytes: Seq<u8>) -> Seq<char> {
    if vstd::utf8::valid_utf8(bytes) {
        vstd::utf8::decode_utf8(bytes)
    } else {
        lossy_text(bytes)
    }
}

/// The texts of some lines.
pub open spec fn texts_of(lines: Seq<Seq<u8>>) -> Seq<Seq<char>> {
    Seq::new(lines.len(), |i: int| text_of(lines[i]))
}

/// The complete lines, each without the newline that ends it.
pub open spec fn complete_pieces(bytes: Seq<u8>) -> Seq<Seq<u8>> {
    crate::text::split_on(complete_bytes(bytes), NEWLINE).drop_last()
}

/// The texts of the complete lines.
pub open spec fn lines_of(bytes: Seq<u8>) -> Seq<Seq<char>> {
    texts_of(complete_pieces(bytes))
}

/// The session after the complete lines in a piece of its file.
pub open spec fn after_bytes(s: SessionView, bytes: Seq<u8>) -> SessionView {
    crate::parser::after_lines(s, lines_of(bytes))
}

/// The text in some bytes, with `String::from_utf8_lossy`.
///
/// Taken from `std`: bytes that are UTF-8 give the text that they encode; any others give a text
/// that depends on the bytes alone.
#[verifier::external_body]
fn lossy(bytes: &[u8]) -> (r: String)
    ensures
        r@ == (if vstd::utf8::valid_utf8(bytes@) {
            vstd::utf8::decode_utf8(bytes@)
        } else {
            lossy_text(bytes@)
        }),
{
    String::from_utf8_lossy(bytes).into_owned()
}

/// The complete lines in a piece of a file.
#[derive(Debug)]
pub struct Lines {
    /// The number of bytes that they take up.
    pub consumed: usize,
    pub lines: Vec<String>,
}

/// The lines that end within the first `n` bytes.
fn split_lines(bytes: &[u8], n: usize) -> (r: Vec<String>)
    requires
        n <= bytes@.len(),
    ensures
        crate::text::string_views(r@) == texts_of(
            crate::text::split_on(bytes@.take(n as int), NEWLINE).drop_last(),
        ),
{
    let mut out: Vec<String> = Vec::new();
    let mut start: usize = 0;
    let mut i: usize = 0;
    assert(bytes@.take(0) =~= Seq::<u8>::empty());
    assert(bytes@.subrange(0, 0) =~= Seq::<u8>::empty());
    assert(crate::text::string_views(out@) =~= texts_of(
        crate::text::split_on(bytes@.take(0), NEWLINE).drop_last(),
    ));
    while i < n
        invariant
            start <= i <= n <= bytes@.len(),
            crate::text::split_on(bytes@.take(i as int), NEWLINE).len() > 0,
            crate::text::split_on(bytes@.take(i as int), NEWLINE).last() == bytes@.subrange(
                start as int,
                i as int,
            ),
            crate::text::string_views(out@) == texts_of(
                crate::text::split_on(bytes@.take(i as int), NEWLINE).drop_last(),
            ),
        decreases n - i,
    {
        let ghost pieces = crate::text::split_on(bytes@.take(i as int), NEWLINE);
        let ghost longer = bytes@.take(i + 1);
        assert(longer.drop_last() =~= bytes@.take(i as int));
        assert(longer.last() == bytes@[i as int]);
        if bytes[i] == NEWLINE {
            let line = lossy(vstd::slice::slice_subrange(bytes, start, i));
            let ghost before = out@;
            out.push(line);
            proof {
                assert(crate::text::split_on(longer, NEWLINE).drop_last() =~= pieces);
                assert(crate::text::string_views(out@) =~= crate::text::string_views(before).push(
                    line@,
                ));
                assert(texts_of(pieces) =~= texts_of(pieces.drop_last()).push(line@));
                assert(bytes@.subrange(i + 1, i + 1) =~= Seq::<u8>::empty());
            }
            start = i + 1;
        } else {
            proof {
                assert(crate::text::split_on(longer, NEWLINE).drop_last()
                    =~= pieces.drop_last());
                assert(bytes@.subrange(start as int, i + 1) =~= bytes@.subrange(
                    start as int,
                    i as int,
                ).push(bytes@[i as int]));
            }
        }
        i += 1;
    }
    out
}

/// The complete lines in a piece of a file. `None` where no line is complete.
pub fn complete_lines(bytes: &[u8]) -> (r: Option<Lines>)
    ensures
        r is Some == (complete_len(bytes@) > 0),
        r matches Some(part) ==> {
            &&& part.consumed as int == complete_len(bytes@)
            &&& crate::text::string_views(part.lines@) == lines_of(bytes@)
        },
{
    let mut n: usize = bytes.len();
    assert(bytes@.take(n as int) =~= bytes@);
    while n > 0 && bytes[n - 1] != NEWLINE
        invariant
            n <= bytes@.len(),
            complete_len(bytes@) == complete_len(bytes@.take(n as int)),
        decreases n,
    {
        assert(bytes@.take(n as int).drop_last() =~= bytes@.take(n - 1));
        n -= 1;
    }
    if n == 0 {
        return None;
    }
    assert(complete_len(bytes@) == n);
    Some(Lines { consumed: n, lines: split_lines(bytes, n) })
}

// ---------------------------------------------------------------------------------------------
// Offsets
// ---------------------------------------------------------------------------------------------

/// How far a file has been read, and which file that was.
#[derive(Clone, Copy, PartialEq, Eq, Structural, Debug)]
pub struct OffsetEntry {
    pub offset: u64,
    pub inode: u64,
}

/// How far files have been read, by their paths.
#[derive(Debug)]
pub struct OffsetMap {
    pub map: Keyed<OffsetEntry>,
}

impl View for OffsetMap {
    type V = Map<Seq<char>, OffsetEntry>;

    open spec fn view(&self) -> Map<Seq<char>, OffsetEntry> {
        self.map@
    }
}

/// What is known of a file: nothing is read yet where it is unknown.
pub open spec fn entry_or_default(
    offsets: Map<Seq<char>, OffsetEntry>,
    key: Seq<char>,
) -> OffsetEntry {
    if offsets.dom().contains(key) {
        offsets[key]
    } else {
        OffsetEntry { offset: 0, inode: 0 }
    }
}

/// Where to read on: at the beginning where all is to be read, where it is another file, and where
/// the file has become shorter than what was read of it.
pub open spec fn start_of(entry: OffsetEntry, inode: u64, size: u64, force_full: bool) -> u64 {
    if force_full || entry.inode != inode || entry.offset > size {
        0
    } else {
        entry.offset
    }
}

impl OffsetMap {
    /// Nothing is read yet.
    pub fn new() -> (r: OffsetMap)
        ensures
            r@ == Map::<Seq<char>, OffsetEntry>::empty(),
    {
        OffsetMap { map: Keyed::new() }
    }

    /// Where to read on in the file `key`, which has this inode and this size. That place is noted.
    pub fn begin(&mut self, key: &str, inode: u64, size: u64, force_full: bool) -> (r: u64)
        ensures
            r == start_of(entry_or_default(old(self)@, key@), inode, size, force_full),
            final(self)@ == old(self)@.insert(
                key@,
                OffsetEntry { offset: r, inode: entry_or_default(old(self)@, key@).inode },
            ),
    {
        let entry: OffsetEntry = match self.map.get(key) {
            Some(e) => *e,
            None => OffsetEntry { offset: 0, inode: 0 },
        };
        let start: u64 = if force_full || entry.inode != inode || entry.offset > size {
            0
        } else {
            entry.offset
        };
        self.map.insert(key, OffsetEntry { offset: start, inode: entry.inode });
        start
    }

    /// Notes how far the file `key` has been read.
    pub fn commit(&mut self, key: &str, offset: u64, inode: u64)
        ensures
            final(self)@ == old(self)@.insert(key@, OffsetEntry { offset, inode }),
    {
        self.map.insert(key, OffsetEntry { offset, inode });
    }
}

// ---------------------------------------------------------------------------------------------
// Reading on
// ---------------------------------------------------------------------------------------------

impl Store {
    /// Brings the session `sid`, which is made where there is none, up to date with some lines of
    /// its event stream.
    pub fn apply_lines(&mut self, sid: &str, lines: Vec<String>)
        requires
            crate::state::session_or_fresh(old(self)@, sid@).event_count + lines@.len()
                <= u64::MAX,
        ensures
            final(self)@ == old(self)@.insert(
                sid@,
                crate::parser::after_lines(
                    crate::state::session_or_fresh(old(self)@, sid@),
                    crate::text::string_views(lines@),
                ),
            ),
    {
        let ghost before = self.sessions@;
        let ghost texts = crate::text::string_views(lines@);
        let f = |s: &mut crate::parser::SessionState|
            requires
                old(s).event_count + lines@.len() <= u64::MAX,
            ensures
                final(s)@ == crate::parser::after_lines(old(s)@, texts),
            {
                parse_jsonl_lines(lines, s);
            };
        self.mutate_or_create(sid, f);
        proof {
            crate::state::lemma_views_insert(before, sid@, self.sessions@[sid@]);
        }
    }

    /// The number of events that were seen in the session `sid`.
    pub fn event_count(&self, sid: &str) -> (r: u64)
        ensures
            r == crate::state::session_or_fresh(self@, sid@).event_count,
    {
        match self.sessions.get(sid) {
            Some(s) => s.event_count,
            None => 0,
        }
    }
}

/// What became of a piece of a file.
#[derive(Clone, Copy, PartialEq, Eq, Structural, Debug)]
pub enum Reading {
    /// No line in it is complete yet.
    Incomplete,
    /// An offset or a count would leave its range.
    OutOfRange,
    /// Its complete lines were read.
    Done,
}

/// What becomes of a piece of a file: `start` is where it begins, `count` the number of events that
/// were seen before.
pub open spec fn reading_of(bytes: Seq<u8>, start: u64, count: int) -> Reading {
    if complete_len(bytes) == 0 {
        Reading::Incomplete
    } else if start + complete_len(bytes) > u64::MAX || count + lines_of(bytes).len()
        > u64::MAX {
        Reading::OutOfRange
    } else {
        Reading::Done
    }
}

/// Reads the complete lines of a piece of the file `key`, which begins at `start`: the session
/// `sid` is brought up to date, and the offset moves behind them.
pub fn read_piece(
    store: &mut Store,
    offsets: &mut OffsetMap,
    key: &str,
    sid: &str,
    start: u64,
    inode: u64,
    bytes: &[u8],
) -> (r: Reading)
    ensures
        r == reading_of(
            bytes@,
            start,
            crate::state::session_or_fresh(old(store)@, sid@).event_count,
        ),
        r != Reading::Done ==> *final(store) == *old(store) && *final(offsets) == *old(offsets),
        r == Reading::Done ==> final(store)@ == old(store)@.insert(
            sid@,
            after_bytes(crate::state::session_or_fresh(old(store)@, sid@), bytes@),
        ),
        r == Reading::Done ==> final(offsets)@ == old(offsets)@.insert(
            key@,
            OffsetEntry { offset: (start + complete_len(bytes@)) as u64, inode },
        ),
{
    proof {
        lemma_complete_len(bytes@);
    }
    let part = match complete_lines(bytes) {
        Some(part) => part,
        None => {
            return Reading::Incomplete;
        },
    };
    assert(part.lines@.len() == crate::text::string_views(part.lines@).len());
    let count: u64 = store.event_count(sid);
    if part.consumed as u64 > u64::MAX - start || part.lines.len() as u64 > u64::MAX - count {
        return Reading::OutOfRange;
    }
    offsets.commit(key, start + part.consumed as u64, inode);
    store.apply_lines(sid, part.lines);
    Reading::Done
}

/// The complete lines end with a newline, and behind them there is none.
pub proof fn lemma_complete_len(bytes: Seq<u8>)
    ensures
        0 <= complete_len(bytes) <= bytes.len(),
        complete_len(bytes) > 0 ==> bytes[complete_len(bytes) - 1] == NEWLINE,
        forall|i: int| complete_len(bytes) <= i < bytes.len() ==> #[trigger] bytes[i] != NEWLINE,
    decreases bytes.len(),
{
    if bytes.len() > 0 && bytes.last() != NEWLINE {
        let shorter = bytes.drop_last();
        lemma_complete_len(shorter);
        assert forall|i: int| complete_len(bytes) <= i < bytes.len() implies #[trigger] bytes[i]
            != NEWLINE by {
            if i < shorter.len() {
                assert(bytes[i] == shorter[i]);
            }
        }
    }
}

// ---------------------------------------------------------------------------------------------
// Laws
// ---------------------------------------------------------------------------------------------

/// A newline follows the last one in what comes behind it, or is the last one itself.
proof fn lemma_complete_concat(a: Seq<u8>, b: Seq<u8>)
    ensures
        complete_len(a + b) == (if complete_len(b) > 0 {
            a.len() + complete_len(b)
        } else {
            complete_len(a)
        }),
    decreases b.len(),
{
    if b.len() == 0 {
        assert(a + b =~= a);
    } else {
        assert((a + b).last() == b.last());
        if b.last() != NEWLINE {
            assert((a + b).drop_last() =~= a + b.drop_last());
            lemma_complete_concat(a, b.drop_last());
            lemma_complete_len(b.drop_last());
        }
    }
}

/// The complete lines in two pieces of a file, of which the first ends with a line, are those of
/// the first and then those of the second.
pub proof fn lemma_lines_of_both(a: Seq<u8>, b: Seq<u8>)
    requires
        complete_len(a) == a.len(),
    ensures
        complete_len(a + b) == a.len() + complete_len(b),
        lines_of(a + b) == lines_of(a) + lines_of(b),
{
    lemma_complete_len(a);
    lemma_complete_len(b);
    lemma_complete_concat(a, b);
    let x = complete_bytes(a);
    let y = complete_bytes(b);
    assert(x =~= a);
    assert(complete_bytes(a + b) =~= x + y);
    lemma_no_lines(Seq::empty());
    if a.len() == 0 {
        assert(a =~= Seq::<u8>::empty());
        assert(a + b =~= b);
        assert(lines_of(a) + lines_of(b) =~= lines_of(b));
    } else {
        assert(a.last() == NEWLINE);
        crate::text::lemma_split_concat(x, y, NEWLINE);
        crate::text::lemma_split_some(y, NEWLINE);
        let front = crate::text::split_on(x, NEWLINE).drop_last();
        let back = crate::text::split_on(y, NEWLINE);
        assert((front + back).drop_last() =~= front + back.drop_last());
        assert(lines_of(a + b) =~= lines_of(a) + lines_of(b));
    }
}

/// Where no line is complete, there are no lines.
pub proof fn lemma_no_lines(bytes: Seq<u8>)
    requires
        complete_len(bytes) == 0,
    ensures
        lines_of(bytes) == Seq::<Seq<char>>::empty(),
{
    assert(complete_bytes(bytes) =~= Seq::<u8>::empty());
    assert(lines_of(bytes) =~= Seq::<Seq<char>>::empty());
}

/// What is left behind the complete lines does not count.
proof fn lemma_lines_of_complete(bytes: Seq<u8>)
    ensures
        complete_len(complete_bytes(bytes)) == complete_len(bytes),
        complete_bytes(bytes).len() == complete_len(bytes),
        lines_of(complete_bytes(bytes)) == lines_of(bytes),
{
    lemma_complete_len(bytes);
    let front = complete_bytes(bytes);
    assert(front.len() == 0 || front.last() == NEWLINE);
    assert(complete_bytes(front) =~= front);
}

/// The complete lines of a file that grows are those that were complete before, and then those in
/// what stands behind them.
proof fn lemma_lines_in_pieces(seen: Seq<u8>, more: Seq<u8>)
    ensures
        ({
            let file = seen + more;
            let offset = complete_len(seen);
            &&& 0 <= offset <= seen.len()
            &&& offset + complete_len(file.skip(offset)) == complete_len(file)
            &&& lines_of(file) == lines_of(seen) + lines_of(file.skip(offset))
        }),
{
    let file = seen + more;
    lemma_complete_len(seen);
    lemma_lines_of_complete(seen);
    let front = complete_bytes(seen);
    let rest = file.skip(complete_len(seen));
    assert(front + rest =~= file);
    lemma_lines_of_both(front, rest);
}

/// A file that grows can be read in pieces: to read what is there, and later, from the offset that
/// this led to, what is there then, leaves the session and the offset as if all had been read at
/// once.
pub proof fn law_reading_in_pieces(s: SessionView, seen: Seq<u8>, more: Seq<u8>)
    ensures
        ({
            let file = seen + more;
            let offset = complete_len(seen);
            &&& 0 <= offset <= seen.len()
            &&& after_bytes(after_bytes(s, seen), file.skip(offset)) == after_bytes(s, file)
            &&& offset + complete_len(file.skip(offset)) == complete_len(file)
        }),
{
    let file = seen + more;
    lemma_lines_in_pieces(seen, more);
    crate::parser::law_lines_in_two_goes(
        s,
        lines_of(seen),
        lines_of(file.skip(complete_len(seen))),
    );
}

/// The session and the offset after a file has been looked at several times, when it had the
/// lengths `looks`: each time it was read on from the offset.
pub open spec fn followed(s: SessionView, file: Seq<u8>, looks: Seq<int>) -> (SessionView, int)
    decreases looks.len(),
{
    if looks.len() == 0 {
        (s, 0)
    } else {
        let (before, offset) = followed(s, file, looks.drop_last());
        let piece = file.take(looks.last()).skip(offset);
        (after_bytes(before, piece), offset + complete_len(piece))
    }
}

/// However often a file is looked at while it grows, the session and the offset are in the end as
/// if it had been read once, at its last length.
pub proof fn law_growing_file(s: SessionView, file: Seq<u8>, looks: Seq<int>)
    requires
        looks.len() > 0,
        forall|i: int| 0 <= i < looks.len() ==> 0 <= #[trigger] looks[i] <= file.len(),
        forall|i: int, j: int|
            0 <= i <= j < looks.len() ==> #[trigger] looks[i] <= #[trigger] looks[j],
    ensures
        followed(s, file, looks) == (
            after_bytes(s, file.take(looks.last())),
            complete_len(file.take(looks.last())),
        ),
    decreases looks.len(),
{
    let now = file.take(looks.last());
    let rest = looks.drop_last();
    assert(0 <= looks[looks.len() - 1] <= file.len());
    if rest.len() == 0 {
        assert(followed(s, file, rest) == (s, 0int));
        assert(now.skip(0) =~= now);
    } else {
        assert forall|i: int| 0 <= i < rest.len() implies 0 <= #[trigger] rest[i]
            <= file.len() by {
            assert(0 <= looks[i] <= file.len());
        }
        assert forall|i: int, j: int| 0 <= i <= j < rest.len() implies #[trigger] rest[i]
            <= #[trigger] rest[j] by {
            assert(looks[i] <= looks[j]);
        }
        law_growing_file(s, file, rest);
        let last = rest.len() - 1;
        assert(0 <= looks[last] <= file.len());
        assert(looks[last] <= looks[last + 1]);
        let seen = file.take(rest.last());
        let more = file.subrange(rest.last(), looks.last());
        assert(seen + more =~= now);
        law_reading_in_pieces(s, seen, more);
    }
}

/// What was read of a file is not read again, unless it is another file by now or has become
/// shorter, or all is to be read: then reading begins anew.
pub proof fn law_offset_resumes(
    offset: u64,
    inode: u64,
    other: u64,
    size: u64,
    force_full: bool,
)
    ensures
        offset <= size ==> start_of(OffsetEntry { offset, inode }, inode, size, false) == offset,
        offset > size ==> start_of(OffsetEntry { offset, inode }, inode, size, force_full) == 0,
        other != inode ==> start_of(OffsetEntry { offset, inode }, other, size, force_full) == 0,
        start_of(OffsetEntry { offset, inode }, other, size, true) == 0,
{
}

/// The sessions and the offsets after the event stream `key` of the session `sid` has been looked
/// at, when `file` was in it: it is read on from where [`OffsetMap::begin`] says, and what
/// [`read_piece`] reads is taken over.
pub open spec fn after_look(
    sessions: Map<Seq<char>, SessionView>,
    offsets: Map<Seq<char>, OffsetEntry>,
    key: Seq<char>,
    sid: Seq<char>,
    inode: u64,
    file: Seq<u8>,
    force_full: bool,
) -> (Map<Seq<char>, SessionView>, Map<Seq<char>, OffsetEntry>) {
    let entry = entry_or_default(offsets, key);
    let start = start_of(entry, inode, file.len() as u64, force_full);
    let begun = offsets.insert(key, OffsetEntry { offset: start, inode: entry.inode });
    let s = crate::state::session_or_fresh(sessions, sid);
    let piece = file.skip(start as int);
    if reading_of(piece, start, s.event_count) == Reading::Done {
        let offset = (start + complete_len(piece)) as u64;
        (
            sessions.insert(sid, after_bytes(s, piece)),
            begun.insert(key, OffsetEntry { offset, inode }),
        )
    } else {
        (sessions, begun)
    }
}

/// To look at an event stream, and again when it has grown, leaves all sessions and all offsets as
/// if it had been looked at once, at the end: every complete line counts once, and none is lost or
/// cut in two. What was read before must not reach beyond what is there, and the one look must not
/// leave the range of an offset or a count.
pub proof fn law_two_looks_are_one(
    sessions: Map<Seq<char>, SessionView>,
    offsets: Map<Seq<char>, OffsetEntry>,
    key: Seq<char>,
    sid: Seq<char>,
    inode: u64,
    seen: Seq<u8>,
    more: Seq<u8>,
    force_full: bool,
)
    requires
        (seen + more).len() <= u64::MAX,
        entry_or_default(offsets, key).offset <= seen.len() || entry_or_default(
            offsets,
            key,
        ).inode != inode || force_full,
        ({
            let file = seen + more;
            let entry = entry_or_default(offsets, key);
            let start = start_of(entry, inode, file.len() as u64, force_full);
            let s = crate::state::session_or_fresh(sessions, sid);
            reading_of(file.skip(start as int), start, s.event_count) != Reading::OutOfRange
        }),
    ensures
        ({
            let first = after_look(sessions, offsets, key, sid, inode, seen, force_full);
            after_look(first.0, first.1, key, sid, inode, seen + more, false) == after_look(
                sessions,
                offsets,
                key,
                sid,
                inode,
                seen + more,
                force_full,
            )
        }),
{
    let file = seen + more;
    let entry = entry_or_default(offsets, key);
    let start = start_of(entry, inode, file.len() as u64, force_full);
    assert(start == start_of(entry, inode, seen.len() as u64, force_full));
    let s = crate::state::session_or_fresh(sessions, sid);
    let p = seen.skip(start as int);
    let q = file.skip(start as int);
    let n = complete_len(p);
    assert(q =~= p + more);
    lemma_complete_len(p);
    lemma_complete_len(q);
    lemma_lines_in_pieces(p, more);
    law_reading_in_pieces(s, p, more);
    let first = after_look(sessions, offsets, key, sid, inode, seen, force_full);
    let second = after_look(first.0, first.1, key, sid, inode, file, false);
    let once = after_look(sessions, offsets, key, sid, inode, file, force_full);
    if n == 0 {
        assert(second.1 =~= once.1);
    } else {
        let rest = file.skip(start + n);
        assert(rest =~= q.skip(n));
        lemma_complete_len(rest);
        crate::parser::lemma_lines_count(s, lines_of(p));
        assert(reading_of(p, start, s.event_count) == Reading::Done);
        assert(crate::state::session_or_fresh(first.0, sid) == after_bytes(s, p));
        if complete_len(rest) == 0 {
            lemma_no_lines(rest);
        }
        assert(second.0 =~= once.0);
        assert(second.1 =~= once.1);
    }
}

} // verus!
