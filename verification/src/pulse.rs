//! What happens as time goes by: changes of files settle, statuses change, the heart beats.
use vstd::prelude::*;

use crate::keyed::Keyed;
use crate::seconds::Elapsed;
use crate::seconds::Seconds;
use crate::state::Event;
use crate::state::Store;
use crate::summary::SessionSummary;
use crate::summary::SummaryView;
use crate::text::same;

verus! {

// ---------------------------------------------------------------------------------------------
// Changes of files
// ---------------------------------------------------------------------------------------------

/// How often it is looked for files that have become quiet, in milliseconds.
pub const POLL_MILLIS: u64 = 50;

/// The files that have changed and are not read yet, each with the time of its last change. A file
/// is named by a number.
#[derive(Debug)]
pub struct Debouncer {
    changes: Vec<(u64, Elapsed)>,
}

/// The change at `i` is of the file `file`.
spec fn file_at(changes: Seq<(u64, Elapsed)>, file: u64, i: int) -> bool {
    0 <= i < changes.len() && changes[i].0 == file
}

/// No file occurs twice.
spec fn files_distinct(changes: Seq<(u64, Elapsed)>) -> bool {
    forall|i: int, j: int|
        0 <= i < j < changes.len() ==> (#[trigger] changes[i]).0 != (#[trigger] changes[j]).0
}

/// The time of the last change of each file.
spec fn change_times(changes: Seq<(u64, Elapsed)>) -> Map<u64, int> {
    Map::new(
        |file: u64| exists|i: int| file_at(changes, file, i),
        |file: u64| changes[choose|i: int| file_at(changes, file, i)].1@,
    )
}

proof fn lemma_change(changes: Seq<(u64, Elapsed)>, i: int)
    requires
        files_distinct(changes),
        0 <= i < changes.len(),
    ensures
        change_times(changes).dom().contains(changes[i].0),
        change_times(changes)[changes[i].0] == changes[i].1@,
{
    let file = changes[i].0;
    assert(file_at(changes, file, i));
    let k = choose|k: int| file_at(changes, file, k);
    assert(file_at(changes, file, k));
    assert(k == i) by {
        if k < i {
            assert(changes[k].0 != changes[i].0);
        } else if i < k {
            assert(changes[i].0 != changes[k].0);
        }
    }
}

/// The place of a change.
proof fn lemma_place(changes: Seq<(u64, Elapsed)>, file: u64) -> (i: int)
    requires
        change_times(changes).dom().contains(file),
    ensures
        file_at(changes, file, i),
{
    choose|i: int| file_at(changes, file, i)
}

/// The file is among the changes, and has been quiet for `wait`.
spec fn due_among(changes: Seq<(u64, Elapsed)>, file: u64, now: int, wait: int) -> bool {
    exists|j: int|
        0 <= j < changes.len() && (#[trigger] changes[j]).0 == file && now - changes[j].1@ >= wait
}

/// The change is among the changes, and its file has not been quiet for `wait`.
spec fn kept_among(
    changes: Seq<(u64, Elapsed)>,
    change: (u64, Elapsed),
    now: int,
    wait: int,
) -> bool {
    exists|j: int|
        0 <= j < changes.len() && #[trigger] changes[j] == change && now - changes[j].1@ < wait
}

proof fn lemma_among_grows(
    changes: Seq<(u64, Elapsed)>,
    next: (u64, Elapsed),
    now: int,
    wait: int,
)
    ensures
        forall|file: u64| #[trigger]
            due_among(changes.push(next), file, now, wait) == (due_among(changes, file, now, wait)
                || (file == next.0 && now - next.1@ >= wait)),
        forall|change: (u64, Elapsed)| #[trigger]
            kept_among(changes.push(next), change, now, wait) == (kept_among(
                changes,
                change,
                now,
                wait,
            ) || (change == next && now - next.1@ < wait)),
{
    let more = changes.push(next);
    assert(more[changes.len() as int] == next);
    assert forall|file: u64| #[trigger]
        due_among(more, file, now, wait) == (due_among(changes, file, now, wait) || (file == next.0
            && now - next.1@ >= wait)) by {
        if due_among(changes, file, now, wait) {
            let j = choose|j: int|
                0 <= j < changes.len() && (#[trigger] changes[j]).0 == file && now - changes[j].1@
                    >= wait;
            assert(more[j] == changes[j]);
        }
    }
    assert forall|change: (u64, Elapsed)| #[trigger]
        kept_among(more, change, now, wait) == (kept_among(changes, change, now, wait) || (change
            == next && now - next.1@ < wait)) by {
        if kept_among(changes, change, now, wait) {
            let j = choose|j: int|
                0 <= j < changes.len() && #[trigger] changes[j] == change && now - changes[j].1@
                    < wait;
            assert(more[j] == changes[j]);
        }
    }
}

/// The file has changed, and has been quiet for `wait`.
pub open spec fn is_due(changes: Map<u64, int>, file: u64, now: int, wait: int) -> bool {
    changes.dom().contains(file) && now - changes[file] >= wait
}

/// The changes of files that have not been quiet for `wait`.
pub open spec fn left_over(changes: Map<u64, int>, now: int, wait: int) -> Map<u64, int> {
    Map::new(
        |file: u64| changes.dom().contains(file) && !is_due(changes, file, now, wait),
        |file: u64| changes[file],
    )
}

impl View for Debouncer {
    type V = Map<u64, int>;

    /// The time of the last change of each file.
    closed spec fn view(&self) -> Map<u64, int> {
        change_times(self.changes@)
    }
}

impl Debouncer {
    #[verifier::type_invariant]
    spec fn inv(self) -> bool {
        files_distinct(self.changes@)
    }

    /// No file has changed.
    pub fn new() -> (r: Debouncer)
        ensures
            r@ == Map::<u64, int>::empty(),
    {
        let r = Debouncer { changes: Vec::new() };
        assert(r@ =~= Map::<u64, int>::empty());
        r
    }

    /// The file has changed at `now`.
    pub fn note(&mut self, file: u64, now: Elapsed)
        ensures
            final(self)@ == old(self)@.insert(file, now@),
    {
        proof {
            use_type_invariant(&*self);
        }
        let ghost before = self.changes@;
        let mut changes: Vec<(u64, Elapsed)> = Vec::new();
        std::mem::swap(&mut changes, &mut self.changes);
        let mut i: usize = 0;
        while i < changes.len() && changes[i].0 != file
            invariant
                i <= changes@.len(),
                changes@ == before,
                forall|j: int| 0 <= j < i ==> (#[trigger] before[j]).0 != file,
            decreases changes@.len() - i,
        {
            i += 1;
        }
        if i < changes.len() {
            changes[i] = (file, now);
        } else {
            changes.push((file, now));
        }
        let ghost after = changes@;
        proof {
            assert(files_distinct(after)) by {
                assert forall|a: int, b: int| 0 <= a < b < after.len() implies (
                #[trigger] after[a]).0 != (#[trigger] after[b]).0 by {
                    if b < before.len() {
                        assert(before[a].0 != before[b].0);
                    } else {
                        assert(before[a].0 != file);
                    }
                }
            }
            let wanted = change_times(before).insert(file, now@);
            lemma_change(after, i as int);
            assert forall|f: u64|
                change_times(after).dom().contains(f) == wanted.dom().contains(f) by {
                if change_times(after).dom().contains(f) && f != file {
                    let k = lemma_place(after, f);
                    assert(file_at(before, f, k));
                }
                if change_times(before).dom().contains(f) {
                    let k = lemma_place(before, f);
                    assert(file_at(after, f, k));
                }
            }
            assert forall|f: u64| change_times(after).dom().contains(f) implies change_times(
                after,
            )[f] == wanted[f] by {
                let k = lemma_place(after, f);
                lemma_change(after, k);
                if f != file {
                    lemma_change(before, k);
                }
            }
            assert(change_times(after) =~= wanted);
        }
        self.changes = changes;
    }

    /// Takes out the files that have been quiet for `wait`.
    pub fn take_due(&mut self, now: Elapsed, wait: Elapsed) -> (r: Vec<u64>)
        ensures
            r@.no_duplicates(),
            forall|file: u64| #[trigger]
                r@.contains(file) == is_due(old(self)@, file, now@, wait@),
            final(self)@ == left_over(old(self)@, now@, wait@),
    {
        proof {
            use_type_invariant(&*self);
        }
        let ghost before = self.changes@;
        let mut due: Vec<u64> = Vec::new();
        let mut kept: Vec<(u64, Elapsed)> = Vec::new();
        let mut i: usize = 0;
        while i < self.changes.len()
            invariant
                i <= self.changes@.len(),
                self.changes@ == before,
                files_distinct(before),
                files_distinct(kept@),
                due@.no_duplicates(),
                forall|k: int|
                    0 <= k < due@.len() ==> due_among(
                        before.take(i as int),
                        #[trigger] due@[k],
                        now@,
                        wait@,
                    ),
                forall|k: int|
                    0 <= k < kept@.len() ==> kept_among(
                        before.take(i as int),
                        #[trigger] kept@[k],
                        now@,
                        wait@,
                    ),
                forall|j: int|
                    0 <= j < i && now@ - (#[trigger] before[j]).1@ >= wait@ ==> due@.contains(
                        before[j].0,
                    ),
                forall|j: int|
                    0 <= j < i && now@ - (#[trigger] before[j]).1@ < wait@ ==> kept@.contains(
                        before[j],
                    ),
            decreases self.changes@.len() - i,
        {
            let (file, time) = self.changes[i];
            let ghost due_before = due@;
            let ghost kept_before = kept@;
            if now.is_within(time, wait) {
                kept.push((file, time));
                proof {
                    assert(kept@[kept_before.len() as int] == before[i as int]);
                    assert forall|j: int|
                        0 <= j < i + 1 && now@ - (#[trigger] before[j]).1@
                            < wait@ implies kept@.contains(before[j]) by {
                        if j < i {
                            let k = kept_before.index_of(before[j]);
                            assert(kept_before.contains(before[j]));
                            assert(kept@[k] == before[j]);
                        }
                    }
                }
            } else {
                due.push(file);
                proof {
                    assert(due@[due_before.len() as int] == before[i as int].0);
                    assert forall|j: int|
                        0 <= j < i + 1 && now@ - (#[trigger] before[j]).1@
                            >= wait@ implies due@.contains(before[j].0) by {
                        if j < i {
                            let k = due_before.index_of(before[j].0);
                            assert(due_before.contains(before[j].0));
                            assert(due@[k] == before[j].0);
                        }
                    }
                }
            }
            proof {
                let seen = before.take(i as int);
                let more = before.take(i + 1);
                assert(more =~= seen.push(before[i as int]));
                lemma_among_grows(seen, before[i as int], now@, wait@);
            }
            i += 1;
        }
        assert(before.take(before.len() as int) =~= before);
        proof {
            let old_map = change_times(before);
            let new_map = change_times(kept@);
            assert forall|file: u64| #[trigger]
                due@.contains(file) == is_due(old_map, file, now@, wait@) by {
                if due@.contains(file) {
                    let k = due@.index_of(file);
                    assert(due_among(before, due@[k], now@, wait@));
                    let j = choose|j: int|
                        0 <= j < before.len() && (#[trigger] before[j]).0 == due@[k] && now@
                            - before[j].1@ >= wait@;
                    lemma_change(before, j);
                }
                if is_due(old_map, file, now@, wait@) {
                    let j = lemma_place(before, file);
                    lemma_change(before, j);
                }
            }
            assert forall|file: u64| #[trigger] new_map.dom().contains(file) implies {
                &&& old_map.dom().contains(file)
                &&& new_map[file] == old_map[file]
                &&& now@ - old_map[file] < wait@
            } by {
                let k = lemma_place(kept@, file);
                lemma_change(kept@, k);
                assert(kept_among(before, kept@[k], now@, wait@));
                let j = choose|j: int|
                    0 <= j < before.len() && #[trigger] before[j] == kept@[k] && now@
                        - before[j].1@ < wait@;
                lemma_change(before, j);
            }
            assert forall|file: u64| old_map.dom().contains(file) && !is_due(
                old_map,
                file,
                now@,
                wait@,
            ) implies #[trigger] new_map.dom().contains(file) by {
                let j = lemma_place(before, file);
                lemma_change(before, j);
                let k = kept@.index_of(before[j]);
                assert(kept@.contains(before[j]));
                lemma_change(kept@, k);
            }
            assert(new_map =~= left_over(old_map, now@, wait@));
        }
        self.changes = kept;
        due
    }
}

// ---------------------------------------------------------------------------------------------
// Statuses and the heartbeat
// ---------------------------------------------------------------------------------------------

/// How often the statuses are looked at, in seconds: a session that needs a human is told of within
/// this time.
pub const TICK_SECS: u64 = 1;

/// How often the heart beats, in seconds.
pub const HEARTBEAT_SECS: u32 = 15;

/// The status that was last told of each session, and the time of the last heartbeat.
#[derive(Debug)]
pub struct Pulse {
    pub statuses: Keyed<String>,
    pub last_beat: Elapsed,
}

/// The characters of some texts.
pub open spec fn text_views(texts: Map<Seq<char>, String>) -> Map<Seq<char>, Seq<char>> {
    Map::new(|k: Seq<char>| texts.dom().contains(k), |k: Seq<char>| texts[k]@)
}

/// The status of the session differs from the one that was told.
pub open spec fn is_news(told: Map<Seq<char>, Seq<char>>, s: SummaryView) -> bool {
    !(told.dom().contains(s.sid) && told[s.sid] == s.status)
}

/// The statuses after those of some sessions have been told.
pub open spec fn told_after(
    told: Map<Seq<char>, Seq<char>>,
    list: Seq<SummaryView>,
) -> Map<Seq<char>, Seq<char>>
    decreases list.len(),
{
    if list.len() == 0 {
        told
    } else {
        told_after(told, list.drop_last()).insert(list.last().sid, list.last().status)
    }
}

/// The sessions of which there is news, in their order.
pub open spec fn news(
    told: Map<Seq<char>, Seq<char>>,
    list: Seq<SummaryView>,
) -> Seq<Seq<char>>
    decreases list.len(),
{
    if list.len() == 0 {
        Seq::empty()
    } else if is_news(told_after(told, list.drop_last()), list.last()) {
        news(told, list.drop_last()).push(list.last().sid)
    } else {
        news(told, list.drop_last())
    }
}

/// The events tell of those of the sessions `sids` that there are, in their order.
pub open spec fn tell(
    events: Seq<Event>,
    sids: Seq<Seq<char>>,
    sessions: Map<Seq<char>, crate::parser::SessionView>,
    now: int,
) -> bool
    decreases sids.len(),
{
    if sids.len() == 0 {
        events.len() == 0
    } else if sessions.dom().contains(sids.last()) {
        &&& events.len() > 0
        &&& crate::monitor::tells_session(events.last(), sessions[sids.last()], now)
        &&& tell(events.drop_last(), sids.drop_last(), sessions, now)
    } else {
        tell(events, sids.drop_last(), sessions, now)
    }
}

/// The heart is to beat.
pub open spec fn beat_due(last_beat: int, clock: int) -> bool {
    clock - last_beat >= HEARTBEAT_SECS * crate::seconds::NANOS
}

proof fn lemma_text_insert(texts: Map<Seq<char>, String>, key: Seq<char>, text: String)
    ensures
        text_views(texts.insert(key, text)) == text_views(texts).insert(key, text@),
{
    assert(text_views(texts.insert(key, text)) =~= text_views(texts).insert(key, text@));
}

impl Pulse {
    /// Nothing has been told yet; the heart beats from `clock` on.
    pub fn new(clock: Elapsed) -> (r: Pulse)
        ensures
            text_views(r.statuses@) == Map::<Seq<char>, Seq<char>>::empty(),
            r.last_beat == clock,
    {
        let r = Pulse { statuses: Keyed::new(), last_beat: clock };
        assert(text_views(r.statuses@) =~= Map::<Seq<char>, Seq<char>>::empty());
        r
    }

    /// Takes note of the statuses of some sessions. Returns those of which there is news.
    pub fn observe(&mut self, list: &Vec<SessionSummary>) -> (r: Vec<String>)
        ensures
            crate::text::string_views(r@) == news(
                text_views(old(self).statuses@),
                crate::state::summary_views(list@),
            ),
            text_views(final(self).statuses@) == told_after(
                text_views(old(self).statuses@),
                crate::state::summary_views(list@),
            ),
            final(self).last_beat == old(self).last_beat,
    {
        let ghost told = text_views(self.statuses@);
        let ghost views = crate::state::summary_views(list@);
        let mut out: Vec<String> = Vec::new();
        let mut i: usize = 0;
        assert(views.take(0) =~= Seq::<SummaryView>::empty());
        assert(crate::text::string_views(out@) =~= Seq::<Seq<char>>::empty());
        while i < list.len()
            invariant
                i <= list@.len(),
                views == crate::state::summary_views(list@),
                crate::text::string_views(out@) == news(told, views.take(i as int)),
                text_views(self.statuses@) == told_after(told, views.take(i as int)),
                self.last_beat == old(self).last_beat,
            decreases list@.len() - i,
        {
            let s = &list[i];
            let ghost before = text_views(self.statuses@);
            proof {
                assert(views.take(i + 1).drop_last() =~= views.take(i as int));
                assert(views.take(i + 1).last() == s@);
            }
            let known: bool = match self.statuses.get(s.sid.as_str()) {
                Some(status) => same(status.as_str(), s.status),
                None => false,
            };
            assert(known == !is_news(before, s@));
            if known {
                assert(before.insert(s@.sid, s@.status) =~= before);
            } else {
                let status = s.status.to_owned();
                proof {
                    lemma_text_insert(self.statuses@, s.sid@, status);
                }
                self.statuses.insert(s.sid.as_str(), status);
                let ghost so_far = out@;
                let sid = s.sid.clone();
                out.push(sid);
                assert(crate::text::string_views(out@) =~= crate::text::string_views(so_far).push(
                    sid@,
                ));
            }
            i += 1;
        }
        assert(views.take(list@.len() as int) =~= views);
        out
    }

    /// Looks at the sessions at `now`: tells of those whose status has changed, and lets the heart
    /// beat where it is due. `clock` is a reading of a clock that does not jump.
    pub fn tick(&mut self, store: &Store, now: Seconds, clock: Elapsed) -> (r: Vec<Event>)
        ensures
            exists|list: Seq<SummaryView>| #[trigger]
                crate::state::lists_sessions(list, store@, now@, true) && text_views(
                    final(self).statuses@,
                ) == told_after(text_views(old(self).statuses@), list) && tell(
                    if beat_due(old(self).last_beat@, clock@) {
                        r@.drop_last()
                    } else {
                        r@
                    },
                    news(text_views(old(self).statuses@), list),
                    store@,
                    now@,
                ),
            beat_due(old(self).last_beat@, clock@) ==> {
                &&& r@.len() > 0
                &&& r@.last() == (Event::Heartbeat { ts: now })
                &&& final(self).last_beat == clock
            },
            !beat_due(old(self).last_beat@, clock@) ==> final(self).last_beat == old(
                self,
            ).last_beat,
    {
        let list = store.all_summaries_at(now);
        let ghost views = crate::state::summary_views(list@);
        let sids = self.observe(&list);
        let ghost names = crate::text::string_views(sids@);
        let mut out: Vec<Event> = Vec::new();
        let mut i: usize = 0;
        assert(names.take(0) =~= Seq::<Seq<char>>::empty());
        while i < sids.len()
            invariant
                i <= sids@.len(),
                names == crate::text::string_views(sids@),
                tell(out@, names.take(i as int), store@, now@),
            decreases sids@.len() - i,
        {
            proof {
                assert(names.take(i + 1).drop_last() =~= names.take(i as int));
                assert(names.take(i + 1).last() == sids@[i as int]@);
            }
            if let Some(e) = store.publish_session_at(sids[i].as_str(), now) {
                let ghost before = out@;
                out.push(e);
                assert(out@.drop_last() =~= before);
            }
            i += 1;
        }
        assert(names.take(sids@.len() as int) =~= names);
        let ghost told = out@;
        if !clock.is_within(self.last_beat, Elapsed::of_secs(HEARTBEAT_SECS)) {
            out.push(Store::publish_heartbeat_at(now));
            assert(out@.drop_last() =~= told);
            self.last_beat = clock;
        }
        assert(crate::state::lists_sessions(views, store@, now@, true));
        out
    }
}

// ---------------------------------------------------------------------------------------------
// Laws
// ---------------------------------------------------------------------------------------------

/// However often a file changes before it is read, it is read once: only its last change counts.
pub proof fn law_changes_collapse(
    changes: Map<u64, int>,
    file: u64,
    first: int,
    second: int,
    now: int,
    wait: int,
)
    ensures
        changes.insert(file, first).insert(file, second) == changes.insert(file, second),
        is_due(changes.insert(file, first).insert(file, second), file, now, wait) == (now - second
            >= wait),
{
    assert(changes.insert(file, first).insert(file, second) =~= changes.insert(file, second));
}

/// A file that was taken out is not due again before it changes again.
pub proof fn law_read_once(changes: Map<u64, int>, file: u64, now: int, later: int, wait: int)
    requires
        is_due(changes, file, now, wait),
    ensures
        !is_due(left_over(changes, now, wait), file, later, wait),
{
}

/// No two of the sessions have the same id.
pub open spec fn ids_distinct(list: Seq<SummaryView>) -> bool {
    forall|i: int, j: int|
        0 <= i < j < list.len() ==> (#[trigger] list[i]).sid != (#[trigger] list[j]).sid
}

/// What was told of a session that is not listed stays.
proof fn lemma_told_other(
    told: Map<Seq<char>, Seq<char>>,
    list: Seq<SummaryView>,
    sid: Seq<char>,
)
    requires
        forall|i: int| 0 <= i < list.len() ==> (#[trigger] list[i]).sid != sid,
    ensures
        told_after(told, list).dom().contains(sid) == told.dom().contains(sid),
        told_after(told, list)[sid] == told[sid],
    decreases list.len(),
{
    if list.len() > 0 {
        let rest = list.drop_last();
        assert forall|i: int| 0 <= i < rest.len() implies (#[trigger] rest[i]).sid != sid by {
            assert(list[i].sid != sid);
        }
        lemma_told_other(told, rest, sid);
        assert(list[rest.len() as int].sid != sid);
    }
}

proof fn lemma_shorter_distinct(list: Seq<SummaryView>)
    requires
        ids_distinct(list),
        list.len() > 0,
    ensures
        ids_distinct(list.drop_last()),
        forall|i: int|
            0 <= i < list.drop_last().len() ==> (#[trigger] list.drop_last()[i]).sid
                != list.last().sid,
{
    let rest = list.drop_last();
    let n = rest.len() as int;
    assert forall|i: int, j: int| 0 <= i < j < rest.len() implies (#[trigger] rest[i]).sid != (
    #[trigger] rest[j]).sid by {
        assert(list[i].sid != list[j].sid);
    }
    assert forall|i: int| 0 <= i < rest.len() implies (#[trigger] rest[i]).sid
        != list.last().sid by {
        assert(list[i].sid != list[n].sid);
    }
}

/// There is news of a session if, and only if, its status differs from the one that was told;
/// afterwards its status has been told.
pub proof fn law_news_on_change(
    told: Map<Seq<char>, Seq<char>>,
    list: Seq<SummaryView>,
    i: int,
)
    requires
        ids_distinct(list),
        0 <= i < list.len(),
    ensures
        news(told, list).contains(list[i].sid) == is_news(told, list[i]),
        told_after(told, list).dom().contains(list[i].sid),
        told_after(told, list)[list[i].sid] == list[i].status,
    decreases list.len(),
{
    let rest = list.drop_last();
    let n = rest.len() as int;
    lemma_shorter_distinct(list);
    lemma_told_other(told, rest, list[n].sid);
    assert(is_news(told_after(told, rest), list[n]) == is_news(told, list[n]));
    let before = news(told, rest);
    if i < n {
        law_news_on_change(told, rest, i);
        assert(rest[i].sid != list[n].sid);
        lemma_pushed(before, list[n].sid, list[i].sid);
    } else {
        lemma_news_listed(told, rest, list[n].sid);
        lemma_pushed(before, list[n].sid, list[n].sid);
    }
}

proof fn lemma_pushed(s: Seq<Seq<char>>, x: Seq<char>, y: Seq<char>)
    ensures
        s.push(x).contains(y) == (s.contains(y) || x == y),
{
    let more = s.push(x);
    if s.contains(y) {
        let i = s.index_of(y);
        assert(more[i] == y);
    }
    if x == y {
        assert(more[s.len() as int] == y);
    }
    if more.contains(y) && x != y {
        let i = more.index_of(y);
        assert(s[i] == y);
    }
}

/// There is news of listed sessions only.
proof fn lemma_news_listed(
    told: Map<Seq<char>, Seq<char>>,
    list: Seq<SummaryView>,
    sid: Seq<char>,
)
    requires
        forall|i: int| 0 <= i < list.len() ==> (#[trigger] list[i]).sid != sid,
    ensures
        !news(told, list).contains(sid),
    decreases list.len(),
{
    if list.len() > 0 {
        let rest = list.drop_last();
        assert forall|i: int| 0 <= i < rest.len() implies (#[trigger] rest[i]).sid != sid by {
            assert(list[i].sid != sid);
        }
        lemma_news_listed(told, rest, sid);
        assert(list[rest.len() as int].sid != sid);
        lemma_pushed(news(told, rest), list.last().sid, sid);
    }
}

/// What has been told is no news.
pub proof fn law_told_is_no_news(
    told: Map<Seq<char>, Seq<char>>,
    list: Seq<SummaryView>,
)
    requires
        ids_distinct(list),
        forall|i: int| 0 <= i < list.len() ==> !is_news(told, #[trigger] list[i]),
    ensures
        news(told, list).len() == 0,
        told_after(told, list) == told,
    decreases list.len(),
{
    if list.len() > 0 {
        let rest = list.drop_last();
        lemma_shorter_distinct(list);
        assert forall|i: int| 0 <= i < rest.len() implies !is_news(told, #[trigger] rest[i]) by {
            assert(rest[i] == list[i]);
        }
        law_told_is_no_news(told, rest);
        assert(!is_news(told, list[rest.len() as int]));
        assert(told.insert(list.last().sid, list.last().status) =~= told);
    }
}

} // verus!
