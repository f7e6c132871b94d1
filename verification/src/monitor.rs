//! The files that are watched: where they are, what their names say, and what becomes of them.
use vstd::prelude::*;

use crate::follow::read_piece;
use crate::follow::OffsetMap;
use crate::follow::Reading;
use crate::json::Json;
use crate::json::JsonModel;
use crate::parser::any_in_progress;
use crate::parser::todos_from;
use crate::parser::SessionState;
use crate::parser::SessionView;
use crate::parser::Todo;
use crate::parser::TodoView;
use crate::seconds::Elapsed;
use crate::seconds::Seconds;
use crate::state::Event;
use crate::state::Store;
use crate::text::chars_of;
use crate::text::same;
use crate::text::string_of;

verus! {

// ---------------------------------------------------------------------------------------------
// Where the files are
// ---------------------------------------------------------------------------------------------

/// `std::path::PathBuf`, a path.
#[verifier::external_type_specification]
#[verifier::external_body]
pub struct ExPathBuf(std::path::PathBuf);

/// The components of a path, from the first to the last, each as a text.
pub uninterp spec fn path_parts(path: std::path::PathBuf) -> Seq<Seq<char>>;

/// The text is one component of a path on every platform: no separator, no drive, and neither the
/// directory itself nor its parent.
pub open spec fn is_plain_part(part: Seq<char>) -> bool {
    &&& part.len() > 0
    &&& !part.contains('/')
    &&& !part.contains('\\')
    &&& !part.contains(':')
    &&& part != seq!['.']
    &&& part != seq!['.', '.']
}

/// A copy of a path.
///
/// `PathBuf::clone` is specified as its documentation has it: the copy is the same path.
pub assume_specification[ <std::path::PathBuf as Clone>::clone ](
    path: &std::path::PathBuf,
) -> (r: std::path::PathBuf)
    ensures
        path_parts(r) == path_parts(*path),
;

/// Adjoins a component to a path, with `Path::join`.
///
/// Taken from `std`: a component that is no path of several, and neither absolute nor `.` nor
/// `..`, becomes the last one.
#[verifier::external_body]
fn join(base: &std::path::PathBuf, part: &str) -> (r: std::path::PathBuf)
    requires
        is_plain_part(part@),
    ensures
        path_parts(r) == path_parts(*base).push(part@),
{
    base.join(part)
}

/// The user's home directory, with `dirs::home_dir`.
///
/// Nothing is claimed of it: it is what the environment says.
#[verifier::external_body]
fn home_dir() -> (r: Option<std::path::PathBuf>) {
    dirs::home_dir()
}

/// The user's cache directory, with `dirs::cache_dir`.
///
/// Nothing is claimed of it: it is what the environment says.
#[verifier::external_body]
fn cache_dir() -> (r: Option<std::path::PathBuf>) {
    dirs::cache_dir()
}

/// Where the files are, and how long they have to be quiet before they are read.
#[derive(Debug)]
pub struct MonitorConfig {
    pub projects_root: std::path::PathBuf,
    pub todos_root: std::path::PathBuf,
    pub offsets_path: std::path::PathBuf,
    pub debounce: Elapsed,
}

impl Clone for MonitorConfig {
    fn clone(&self) -> (r: MonitorConfig)
        ensures
            path_parts(r.projects_root) == path_parts(self.projects_root),
            path_parts(r.todos_root) == path_parts(self.todos_root),
            path_parts(r.offsets_path) == path_parts(self.offsets_path),
            r.debounce == self.debounce,
    {
        MonitorConfig {
            projects_root: self.projects_root.clone(),
            todos_root: self.todos_root.clone(),
            offsets_path: self.offsets_path.clone(),
            debounce: self.debounce,
        }
    }
}

/// Why it is not known where the files are.
#[derive(Clone, Copy, PartialEq, Eq, Structural, Debug)]
pub enum ConfigError {
    /// The name of the agent cannot stand in the name of a directory.
    BadAgent,
    /// There is no home directory.
    NoHome,
}

/// The period in which changes of a file are taken together, in milliseconds.
pub const DEBOUNCE_MILLIS: u32 = 200;

/// The directory that an agent keeps at home: its name behind a dot.
pub open spec fn agent_dir(agent: Seq<char>) -> Seq<char> {
    "."@ + agent
}

/// The directory that is kept for an agent among the caches.
pub open spec fn cache_name(agent: Seq<char>) -> Seq<char> {
    agent + "-checker"@
}

/// The name of an agent can stand in the names of directories.
pub open spec fn is_agent(agent: Seq<char>) -> bool {
    is_plain_part(agent_dir(agent)) && is_plain_part(cache_name(agent))
}

/// The directory for caches: the user's own, or `.cache` at home.
pub open spec fn cache_parts(
    home: std::path::PathBuf,
    cache: Option<std::path::PathBuf>,
) -> Seq<Seq<char>> {
    match cache {
        Some(path) => path_parts(path),
        None => path_parts(home).push(".cache"@),
    }
}

/// Whether a text is one component of a path on every platform.
fn plain_part(part: &str) -> (r: bool)
    ensures
        r == is_plain_part(part@),
{
    proof {
        reveal_strlit(".");
        reveal_strlit("..");
        assert("."@ =~= seq!['.']);
        assert(".."@ =~= seq!['.', '.']);
    }
    if part.is_empty() || same(part, ".") || same(part, "..") {
        return false;
    }
    let cs = chars_of(part);
    let mut i: usize = 0;
    while i < cs.len()
        invariant
            i <= cs@.len(),
            cs@ == part@,
            forall|j: int|
                0 <= j < i ==> #[trigger] part@[j] != '/' && part@[j] != '\\' && part@[j] != ':',
        decreases cs@.len() - i,
    {
        if cs[i] == '/' || cs[i] == '\\' || cs[i] == ':' {
            assert(part@.contains(cs@[i as int]));
            return false;
        }
        i += 1;
    }
    true
}

/// Fixed components are plain.
proof fn lemma_parts_plain()
    ensures
        is_plain_part("projects"@),
        is_plain_part("todos"@),
        is_plain_part(".cache"@),
        is_plain_part("offsets.json"@),
{
    reveal_strlit("projects");
    reveal_strlit("todos");
    reveal_strlit(".cache");
    reveal_strlit("offsets.json");
    assert("projects"@.len() == 8);
    assert("todos"@.len() == 5);
    assert(".cache"@.len() == 6);
    assert("offsets.json"@.len() == 12);
}

/// The files of `agent` are under `home`, and the offsets among the caches.
pub open spec fn is_at_home(
    cfg: MonitorConfig,
    home: std::path::PathBuf,
    cache: Option<std::path::PathBuf>,
    agent: Seq<char>,
) -> bool {
    let own = path_parts(home).push(agent_dir(agent));
    &&& path_parts(cfg.projects_root) == own.push("projects"@)
    &&& path_parts(cfg.todos_root) == own.push("todos"@)
    &&& path_parts(cfg.offsets_path) == cache_parts(home, cache).push(cache_name(agent)).push(
        "offsets.json"@,
    )
    &&& cfg.debounce@ == DEBOUNCE_MILLIS * crate::seconds::NANOS_PER_MILLI
}

impl MonitorConfig {
    /// The files of `agent` for the user with this home directory and this directory for caches.
    pub fn at_home(
        home: Option<std::path::PathBuf>,
        cache: Option<std::path::PathBuf>,
        agent: &str,
    ) -> (r: Result<MonitorConfig, ConfigError>)
        ensures
            match r {
                Ok(cfg) => is_agent(agent@) && home is Some && is_at_home(
                    cfg,
                    home->0,
                    cache,
                    agent@,
                ),
                Err(ConfigError::BadAgent) => !is_agent(agent@),
                Err(ConfigError::NoHome) => is_agent(agent@) && home is None,
            },
    {
        proof {
            lemma_parts_plain();
        }
        let mut own: String = ".".to_owned();
        own.append(agent);
        let mut cached: String = agent.to_owned();
        cached.append("-checker");
        if !plain_part(own.as_str()) || !plain_part(cached.as_str()) {
            return Err(ConfigError::BadAgent);
        }
        let home = match home {
            Some(path) => path,
            None => {
                return Err(ConfigError::NoHome);
            },
        };
        let caches = match cache {
            Some(path) => path,
            None => join(&home, ".cache"),
        };
        let data = join(&home, own.as_str());
        Ok(
            MonitorConfig {
                projects_root: join(&data, "projects"),
                todos_root: join(&data, "todos"),
                offsets_path: join(&join(&caches, cached.as_str()), "offsets.json"),
                debounce: Elapsed::of_millis(DEBOUNCE_MILLIS),
            },
        )
    }

    /// The files of `agent` for the user whom the environment names.
    pub fn from_home(agent: &str) -> (r: Result<MonitorConfig, ConfigError>)
        ensures
            match r {
                Ok(cfg) => is_agent(agent@) && exists|
                    home: std::path::PathBuf,
                    cache: Option<std::path::PathBuf>,
                | #[trigger] is_at_home(cfg, home, cache, agent@),
                Err(ConfigError::BadAgent) => !is_agent(agent@),
                Err(ConfigError::NoHome) => is_agent(agent@),
            },
    {
        MonitorConfig::at_home(home_dir(), cache_dir(), agent)
    }
}

/// The agent that a program is for by its name, which is that of the directory that is kept for the
/// agent among the caches; `None` where it is no such name.
pub fn agent_of_program(program: &str) -> (r: Option<String>)
    ensures
        match r {
            Some(agent) => program@ == cache_name(agent@),
            None => forall|agent: Seq<char>| program@ != #[trigger] cache_name(agent),
        },
{
    proof {
        reveal_strlit("-checker");
        assert("-checker"@.len() == 8);
        assert forall|agent: Seq<char>| program@ == #[trigger] cache_name(
            agent,
        ) implies program@.len() >= 8 && program@.skip(program@.len() - 8) == "-checker"@ by {
            assert(program@.skip(program@.len() - 8) =~= "-checker"@);
        }
    }
    let cs = chars_of(program);
    if cs.len() < 8 {
        return None;
    }
    let end: usize = cs.len() - 8;
    let rest = string_of(&cs, end, cs.len());
    assert(rest@ =~= program@.skip(program@.len() - 8));
    if !same(rest.as_str(), "-checker") {
        return None;
    }
    let agent = string_of(&cs, 0, end);
    assert(program@ =~= cache_name(agent@));
    Some(agent)
}

// ---------------------------------------------------------------------------------------------
// What the names say
// ---------------------------------------------------------------------------------------------

/// A character of a decoded directory name: dashes stand for separators.
pub open spec fn decoded_char(c: char) -> char {
    if c == '-' {
        '/'
    } else {
        c
    }
}

/// The working directory that the name of a project directory encodes.
pub open spec fn decoded(encoded: Seq<char>) -> Seq<char> {
    if encoded.len() > 0 && encoded[0] == '-' {
        Seq::new(encoded.len(), |i: int| decoded_char(encoded[i]))
    } else {
        encoded
    }
}

/// The working directory that the name of a project directory encodes.
pub fn decode_cwd(encoded: &str) -> (r: String)
    ensures
        r@ == decoded(encoded@),
{
    let cs = chars_of(encoded);
    if cs.len() == 0 || cs[0] != '-' {
        return encoded.to_owned();
    }
    let mut out: String = String::new();
    let mut i: usize = 0;
    while i < cs.len()
        invariant
            i <= cs@.len(),
            cs@ == encoded@,
            out@ == decoded(encoded@).take(i as int),
            decoded(encoded@).len() == cs@.len(),
            cs@.len() > 0 && cs@[0] == '-',
        decreases cs@.len() - i,
    {
        let c: char = if cs[i] == '-' {
            '/'
        } else {
            cs[i]
        };
        out.push(c);
        assert(decoded(encoded@).take(i + 1) =~= decoded(encoded@).take(i as int).push(c));
        i += 1;
    }
    assert(decoded(encoded@).take(cs@.len() as int) =~= decoded(encoded@));
    out
}

/// A hexadecimal digit, with small letters.
pub open spec fn is_hex(c: char) -> bool {
    ('0' <= c && c <= '9') || ('a' <= c && c <= 'f')
}

/// The places of the dashes in a UUID.
pub open spec fn is_dash_place(i: int) -> bool {
    i == 8 || i == 13 || i == 18 || i == 23
}

/// The number of characters in a UUID.
pub const UUID_CHARS: usize = 36;

/// The text is a UUID.
pub open spec fn is_uuid(s: Seq<char>) -> bool {
    s.len() == UUID_CHARS && forall|i: int|
        0 <= i < s.len() ==> if is_dash_place(i) {
            #[trigger] s[i] == '-'
        } else {
            is_hex(s[i])
        }
}

/// The text has the length of a UUID and is made of hexadecimal digits and dashes.
pub open spec fn is_id(s: Seq<char>) -> bool {
    s.len() == UUID_CHARS && forall|i: int|
        0 <= i < s.len() ==> #[trigger] s[i] == '-' || is_hex(s[i])
}

/// The session that a file belongs to whose name is `name`: a UUID and `.jsonl`.
pub open spec fn session_of_name(name: Seq<char>) -> Option<Seq<char>> {
    if name.len() >= UUID_CHARS && is_uuid(name.take(UUID_CHARS as int)) && name.skip(
        UUID_CHARS as int,
    ) == ".jsonl"@ {
        Some(name.take(UUID_CHARS as int))
    } else {
        None
    }
}

/// The name of the todo file of a session.
pub open spec fn todo_file_name(sid: Seq<char>) -> Seq<char> {
    sid + "-agent-"@ + sid + ".json"@
}

/// The session that a todo file belongs to whose name is `name`: its id twice, with `-agent-`
/// between and `.json` behind.
pub open spec fn session_of_todo(name: Seq<char>) -> Option<Seq<char>> {
    let sid = name.take(UUID_CHARS as int);
    if name.len() >= UUID_CHARS && is_id(sid) && name == todo_file_name(sid) {
        Some(sid)
    } else {
        None
    }
}

/// The session that a file belongs to whose name is `name`.
pub fn session_file_sid(name: &str) -> (r: Option<String>)
    ensures
        r is Some == session_of_name(name@) is Some,
        r matches Some(sid) ==> session_of_name(name@) == Some(sid@),
{
    let cs = chars_of(name);
    if cs.len() < UUID_CHARS {
        return None;
    }
    let sid = string_of(&cs, 0, UUID_CHARS);
    assert(sid@ =~= name@.take(UUID_CHARS as int));
    let mut i: usize = 0;
    while i < UUID_CHARS
        invariant
            i <= UUID_CHARS <= cs@.len(),
            cs@ == name@,
            sid@ == name@.take(UUID_CHARS as int),
            forall|j: int|
                0 <= j < i ==> if is_dash_place(j) {
                    #[trigger] sid@[j] == '-'
                } else {
                    is_hex(sid@[j])
                },
        decreases UUID_CHARS - i,
    {
        let c: char = cs[i];
        assert(sid@[i as int] == c);
        let fits: bool = if i == 8 || i == 13 || i == 18 || i == 23 {
            c == '-'
        } else {
            ('0' <= c && c <= '9') || ('a' <= c && c <= 'f')
        };
        if !fits {
            return None;
        }
        i += 1;
    }
    assert(is_uuid(sid@));
    let rest = string_of(&cs, UUID_CHARS, cs.len());
    assert(rest@ =~= name@.skip(UUID_CHARS as int));
    if same(rest.as_str(), ".jsonl") {
        Some(sid)
    } else {
        None
    }
}

/// The session that a todo file belongs to whose name is `name`.
pub fn todo_file_sid(name: &str) -> (r: Option<String>)
    ensures
        r is Some == session_of_todo(name@) is Some,
        r matches Some(sid) ==> session_of_todo(name@) == Some(sid@),
{
    let cs = chars_of(name);
    if cs.len() < UUID_CHARS {
        return None;
    }
    let sid = string_of(&cs, 0, UUID_CHARS);
    assert(sid@ =~= name@.take(UUID_CHARS as int));
    let mut i: usize = 0;
    while i < UUID_CHARS
        invariant
            i <= UUID_CHARS <= cs@.len(),
            cs@ == name@,
            sid@ == name@.take(UUID_CHARS as int),
            forall|j: int| 0 <= j < i ==> #[trigger] sid@[j] == '-' || is_hex(sid@[j]),
        decreases UUID_CHARS - i,
    {
        let c: char = cs[i];
        assert(sid@[i as int] == c);
        if !(c == '-' || ('0' <= c && c <= '9') || ('a' <= c && c <= 'f')) {
            return None;
        }
        i += 1;
    }
    assert(is_id(sid@));
    let mut expected: String = sid.clone();
    expected.append("-agent-");
    expected.append(sid.as_str());
    expected.append(".json");
    assert(expected@ =~= todo_file_name(sid@));
    if same(name, expected.as_str()) {
        Some(sid)
    } else {
        None
    }
}

// ---------------------------------------------------------------------------------------------
// What is done with a file
// ---------------------------------------------------------------------------------------------

/// What a file is.
#[derive(Debug)]
pub enum Route {
    /// The event stream of a session, which works in the directory `cwd`.
    Session { sid: String, cwd: String },
    /// The todo file of a session.
    Todos { sid: String },
    /// A file that is not read.
    Other,
}

/// The content of a [`Route`].
pub enum RouteView {
    Session { sid: Seq<char>, cwd: Seq<char> },
    Todos { sid: Seq<char> },
    Other,
}

impl View for Route {
    type V = RouteView;

    open spec fn view(&self) -> RouteView {
        match self {
            Route::Session { sid, cwd } => RouteView::Session { sid: sid@, cwd: cwd@ },
            Route::Todos { sid } => RouteView::Todos { sid: sid@ },
            Route::Other => RouteView::Other,
        }
    }
}

/// What a file is, by its name and that of its directory, by whether its directory is among the
/// projects, and by whether it is the one for todo files.
pub open spec fn route_of(
    directory: Seq<char>,
    name: Seq<char>,
    in_projects: bool,
    in_todos: bool,
) -> RouteView {
    match (session_of_name(name), session_of_todo(name)) {
        (Some(sid), _) if in_projects => RouteView::Session { sid, cwd: decoded(directory) },
        (_, Some(sid)) if in_todos => RouteView::Todos { sid },
        _ => RouteView::Other,
    }
}

/// What a file is.
pub fn route(directory: &str, name: &str, in_projects: bool, in_todos: bool) -> (r: Route)
    ensures
        r@ == route_of(directory@, name@, in_projects, in_todos),
{
    if in_projects {
        if let Some(sid) = session_file_sid(name) {
            return Route::Session { sid, cwd: decode_cwd(directory) };
        }
    }
    if in_todos {
        if let Some(sid) = todo_file_sid(name) {
            return Route::Todos { sid };
        }
    }
    Route::Other
}

/// Where a directory is: whether it is the root of the projects or lies under it, and whether it is
/// the one for todo files. All three are given by the components of their paths.
pub fn place(parent: &Vec<String>, projects: &Vec<String>, todos: &Vec<String>) -> (r: (bool, bool))
    ensures
        r.0 == crate::text::string_views(projects@).is_prefix_of(
            crate::text::string_views(parent@),
        ),
        r.1 == (crate::text::string_views(parent@) == crate::text::string_views(todos@)),
{
    let under = begins_with(parent, projects);
    let at = parent.len() == todos.len() && begins_with(parent, todos);
    proof {
        let p = crate::text::string_views(parent@);
        let t = crate::text::string_views(todos@);
        assert(p.len() == t.len() ==> p.subrange(0, t.len() as int) =~= p);
    }
    (under, at)
}

/// Whether a path begins with the components of another.
fn begins_with(path: &Vec<String>, base: &Vec<String>) -> (r: bool)
    ensures
        r == crate::text::string_views(base@).is_prefix_of(crate::text::string_views(path@)),
{
    let ghost p = crate::text::string_views(path@);
    let ghost b = crate::text::string_views(base@);
    if base.len() > path.len() {
        return false;
    }
    let mut i: usize = 0;
    while i < base.len()
        invariant
            i <= base@.len() <= path@.len(),
            p == crate::text::string_views(path@),
            b == crate::text::string_views(base@),
            forall|j: int| 0 <= j < i ==> #[trigger] p[j] == b[j],
        decreases base@.len() - i,
    {
        if !same(path[i].as_str(), base[i].as_str()) {
            assert(p.subrange(0, b.len() as int)[i as int] == p[i as int]);
            assert(p[i as int] != b[i as int]);
            return false;
        }
        i += 1;
    }
    assert(b =~= p.subrange(0, b.len() as int));
    true
}

/// The cards in a todo file: it has to be a list. `None` where it is none.
pub open spec fn file_todos(document: Option<JsonModel>) -> Option<Seq<TodoView>> {
    match document {
        Some(d) => match d.items() {
            Some(items) => Some(crate::parser::todos_of(items)),
            None => None,
        },
        None => None,
    }
}

/// The session with the cards of its todo file.
pub open spec fn with_file_todos(s: SessionView, todos: Seq<TodoView>) -> SessionView {
    SessionView { todos, has_active_subagent_task: crate::parser::some_in_progress(todos), ..s }
}

/// The content of a document, if there is one.
pub open spec fn document_view(document: Option<Json>) -> Option<JsonModel> {
    match document {
        Some(d) => Some(d@),
        None => None,
    }
}

/// The cards in a todo file.
pub fn todos_in_file(document: Option<Json>) -> (r: Option<Vec<Todo>>)
    ensures
        r is Some == file_todos(document_view(document)) is Some,
        r matches Some(todos) ==> file_todos(document_view(document)) == Some(
            crate::parser::todo_views(todos@),
        ),
{
    match document {
        Some(d) => match d.as_array() {
            Some(items) => Some(todos_from(items)),
            None => None,
        },
        None => None,
    }
}

impl Store {
    /// Gives the session `sid`, which is made where there is none, the cards of its todo file.
    pub fn set_todos(&mut self, sid: &str, todos: Vec<Todo>)
        ensures
            final(self)@ == old(self)@.insert(
                sid@,
                with_file_todos(
                    crate::state::session_or_fresh(old(self)@, sid@),
                    crate::parser::todo_views(todos@),
                ),
            ),
    {
        let ghost before = self.sessions@;
        let active: bool = any_in_progress(&todos);
        let ghost views = crate::parser::todo_views(todos@);
        let f = |s: &mut SessionState|
            ensures
                final(s)@ == with_file_todos(old(s)@, views),
            {
                s.todos = todos;
                s.has_active_subagent_task = active;
                assert(s@ =~= with_file_todos(old(s)@, views));
            };
        self.mutate_or_create(sid, f);
        proof {
            crate::state::lemma_views_insert(before, sid@, self.sessions@[sid@]);
        }
    }
}

/// Everything that the watched files have told.
#[derive(Debug)]
pub struct Monitor {
    pub cfg: MonitorConfig,
    pub store: Store,
    pub offsets: OffsetMap,
}

/// The event tells what the session `s` shows of itself at `now`.
pub open spec fn tells_session(e: Event, s: SessionView, now: int) -> bool {
    e matches Event::SessionUpdate(summary) && crate::summary::is_summary(summary@, s, now)
}

/// The event tells of the cards that the session `s` shows.
pub open spec fn tells_todos(e: Event, sid: Seq<char>, s: SessionView) -> bool {
    e matches Event::TaskUpdate { sid: id, todos } && id@ == sid && crate::parser::todo_views(
        todos@,
    ) == crate::summary::shown_todos(s).0
}

impl Monitor {
    /// What is known already, and where the files are.
    pub fn new(store: Store, cfg: MonitorConfig, offsets: OffsetMap) -> (r: Monitor)
        ensures
            r.store == store,
            r.cfg == cfg,
            r.offsets == offsets,
    {
        Monitor { cfg, store, offsets }
    }

    /// Reads a piece of the event stream `key` of the session `sid`, which begins at `start`.
    /// Tells of the session at `now` where something was read and `publish` is set.
    pub fn read_jsonl_at(
        &mut self,
        key: &str,
        sid: &str,
        start: u64,
        inode: u64,
        bytes: &[u8],
        publish: bool,
        now: Seconds,
    ) -> (r: Option<Event>)
        ensures
            final(self).cfg == old(self).cfg,
            ({
                let s = crate::state::session_or_fresh(old(self).store@, sid@);
                let reading = crate::follow::reading_of(bytes@, start, s.event_count);
                let after = crate::follow::after_bytes(s, bytes@);
                let offset = (start + crate::follow::complete_len(bytes@)) as u64;
                if reading == Reading::Done {
                    &&& final(self).store@ == old(self).store@.insert(sid@, after)
                    &&& final(self).offsets@ == old(self).offsets@.insert(
                        key@,
                        crate::follow::OffsetEntry { offset, inode },
                    )
                    &&& r is Some == publish
                    &&& r matches Some(e) ==> tells_session(e, after, now@)
                } else {
                    &&& final(self).store == old(self).store
                    &&& final(self).offsets == old(self).offsets
                    &&& r is None
                }
            }),
    {
        let reading = read_piece(
            &mut self.store,
            &mut self.offsets,
            key,
            sid,
            start,
            inode,
            bytes,
        );
        if publish && reading == Reading::Done {
            self.store.publish_session_at(sid, now)
        } else {
            None
        }
    }

    /// Takes over the cards in the todo file of the session `sid`, unless it is not a list. Tells
    /// of them, and of the session at `now`, where `publish` is set.
    pub fn apply_todo_file(
        &mut self,
        sid: &str,
        document: Option<Json>,
        publish: bool,
        now: Seconds,
    ) -> (r: Vec<Event>)
        ensures
            final(self).cfg == old(self).cfg,
            final(self).offsets == old(self).offsets,
            match file_todos(document_view(document)) {
                Some(todos) => {
                    let after = with_file_todos(
                        crate::state::session_or_fresh(old(self).store@, sid@),
                        todos,
                    );
                    &&& final(self).store@ == old(self).store@.insert(sid@, after)
                    &&& r@.len() == (if publish {
                        2int
                    } else {
                        0
                    })
                    &&& publish ==> tells_todos(r@[0], sid@, after)
                    &&& publish ==> tells_session(r@[1], after, now@)
                },
                None => final(self).store == old(self).store && r@.len() == 0,
            },
    {
        let mut out: Vec<Event> = Vec::new();
        if let Some(todos) = todos_in_file(document) {
            self.store.set_todos(sid, todos);
            if publish {
                if let Some(e) = self.store.publish_task(sid) {
                    out.push(e);
                }
                if let Some(e) = self.store.publish_session_at(sid, now) {
                    out.push(e);
                }
            }
        }
        out
    }

    /// Takes over the cards in the todo file of the session `sid`, whose text is `text`, unless it
    /// is not a list. Tells of them, and of the session at `now`, where `publish` is set.
    pub fn read_todo_at(
        &mut self,
        sid: &str,
        text: &str,
        publish: bool,
        now: Seconds,
    ) -> (r: Vec<Event>)
        ensures
            final(self).cfg == old(self).cfg,
            final(self).offsets == old(self).offsets,
            match file_todos(crate::json::json_in_text(text@)) {
                Some(todos) => {
                    let after = with_file_todos(
                        crate::state::session_or_fresh(old(self).store@, sid@),
                        todos,
                    );
                    &&& final(self).store@ == old(self).store@.insert(sid@, after)
                    &&& r@.len() == (if publish {
                        2int
                    } else {
                        0
                    })
                    &&& publish ==> tells_todos(r@[0], sid@, after)
                    &&& publish ==> tells_session(r@[1], after, now@)
                },
                None => final(self).store == old(self).store && r@.len() == 0,
            },
    {
        let document = crate::json::parse_json(text);
        self.apply_todo_file(sid, document, publish, now)
    }
}

// ---------------------------------------------------------------------------------------------
// Laws
// ---------------------------------------------------------------------------------------------

/// An encoded directory is an absolute path without dashes, of the same length; any other name is
/// its own directory.
pub proof fn law_decoded(encoded: Seq<char>)
    ensures
        decoded(encoded).len() == encoded.len(),
        encoded.len() > 0 && encoded[0] == '-' ==> decoded(encoded)[0] == '/' && !decoded(
            encoded,
        ).contains('-'),
        !(encoded.len() > 0 && encoded[0] == '-') ==> decoded(encoded) == encoded,
{
}

/// The file of a session is found by its name, and so is its todo file.
pub proof fn law_names_found(sid: Seq<char>)
    requires
        is_uuid(sid),
    ensures
        session_of_name(sid + ".jsonl"@) == Some(sid),
        session_of_todo(todo_file_name(sid)) == Some(sid),
{
    let name = sid + ".jsonl"@;
    assert(name.take(UUID_CHARS as int) =~= sid);
    assert(name.skip(UUID_CHARS as int) =~= ".jsonl"@);
    assert(todo_file_name(sid).take(UUID_CHARS as int) =~= sid);
    assert(is_id(sid));
}

/// What a name says of a session is what it was made of, and no name is that of an event stream
/// and of a todo file at once.
pub proof fn law_names_tell(name: Seq<char>)
    ensures
        session_of_name(name) matches Some(sid) ==> is_uuid(sid) && name == sid + ".jsonl"@,
        session_of_todo(name) matches Some(sid) ==> is_id(sid) && name == todo_file_name(sid),
        session_of_name(name) is None || session_of_todo(name) is None,
{
    reveal_strlit(".jsonl");
    reveal_strlit("-agent-");
    reveal_strlit(".json");
    if let Some(sid) = session_of_name(name) {
        assert(name =~= sid + ".jsonl"@);
        assert(name.len() == 42);
    }
    if let Some(sid) = session_of_todo(name) {
        assert(name.len() == 84);
    }
}

/// The cards of a todo file are the ones that are shown, unless there are none.
pub proof fn law_todo_file_is_shown(s: SessionView, todos: Seq<TodoView>)
    requires
        todos.len() > 0,
    ensures
        crate::summary::shown_todos(with_file_todos(s, todos)) == (todos, "todo_file"@),
{
}

/// A session with a card in progress in its todo file does not wait for the user, and is idle only
/// where it has been silent for long.
pub proof fn law_card_in_progress_runs(
    s: SessionView,
    todos: Seq<TodoView>,
    i: int,
    now: int,
    d: crate::status::Defaults,
)
    requires
        0 <= i < todos.len(),
        todos[i].status == "in_progress"@,
        !crate::status::is_silent(s, now, d),
    ensures
        ({
            let status = crate::status::status_at(with_file_todos(s, todos), now, d);
            status == crate::status::Status::Running || status
                == crate::status::Status::NeedsPermission
        }),
{
    assert(crate::parser::some_in_progress(todos));
}

/// What is read of its event stream does not touch the todo file of a session, and the other way
/// round.
pub proof fn law_sources_do_not_mix(s: SessionView, bytes: Seq<u8>, todos: Seq<TodoView>)
    ensures
        crate::follow::after_bytes(s, bytes).todos == s.todos,
        with_file_todos(s, todos).todos_from_jsonl == s.todos_from_jsonl,
        with_file_todos(s, todos).event_count == s.event_count,
{
    crate::parser::law_lines_keep(s, crate::follow::lines_of(bytes));
}

} // verus!
