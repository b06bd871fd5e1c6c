//! The server manager: the registry of server definitions with their logs, the
//! handles of running processes, and the decisions of every lifecycle
//! operation. The caller owns the operating-system work (spawning, polling,
//! writing, sleeping, killing) and reports its outcomes back.

use crate::log_buffer::{keep_last, lines_since, LogBuffer};
use crate::server::{
    fresh_id, heap_flag, parent_dir, unix_now, work_dir_of, CreateServerRequest,
    ImportServerRequest, LaunchPlan, LaunchSettings, Liveness, ServerError, ServerInstance,
    ServerInstanceView, ServerStatus, ServerStatusInfo,
};
use crate::text::{decimal_text, same_text, split_words, texts, words};
use vstd::prelude::*;

verus! {

/// One registered server and its log.
struct ServerSlot {
    info: ServerInstance,
    logs: LogBuffer,
}

/// The handle of one running process.
struct ProcessEntry<H> {
    id: String,
    handle: H,
}

/// Whether no two servers of `s` share an id.
pub open spec fn unique_ids(s: Seq<ServerInstanceView>) -> bool {
    forall|i: int, j: int| 0 <= i < s.len() && 0 <= j < s.len() && i != j ==> s[i].id != s[j].id
}

/// Whether a server of `s` has id `id`.
pub open spec fn has_id(s: Seq<ServerInstanceView>, id: Seq<char>) -> bool {
    exists|i: int| 0 <= i < s.len() && #[trigger] s[i].id == id
}

/// The position of a server of `s` with id `id`.
pub open spec fn id_index(s: Seq<ServerInstanceView>, id: Seq<char>) -> int {
    choose|i: int| 0 <= i < s.len() && #[trigger] s[i].id == id
}

/// The servers of `s` whose id no earlier server of `s` has, in order.
pub open spec fn first_of_each(s: Seq<ServerInstanceView>) -> Seq<ServerInstanceView>
    decreases s.len(),
{
    if s.len() == 0 {
        Seq::empty()
    } else {
        let t = first_of_each(s.drop_last());
        if has_id(t, s.last().id) {
            t
        } else {
            t.push(s.last())
        }
    }
}

/// The servers of `s` whose id is not `id`, in order.
pub open spec fn without_id(s: Seq<ServerInstanceView>, id: Seq<char>) -> Seq<ServerInstanceView> {
    s.filter(|v: ServerInstanceView| v.id != id)
}

/// How many log lines each server keeps until a start reads the settings.
pub const DEFAULT_LOG_LIMIT: usize = 5000;

/// The port given to imported servers.
pub const IMPORT_PORT: u16 = 25565;

/// The definition that registering `req` under `id` at time `now` creates.
pub open spec fn created_view(req: CreateServerRequest, id: Seq<char>, now: u64) -> ServerInstanceView {
    ServerInstanceView {
        id: id,
        name: req.name@,
        core_type: req.core_type@,
        core_version: Seq::empty(),
        mc_version: req.mc_version@,
        path: work_dir_of(req.jar_path@),
        jar_path: req.jar_path@,
        java_path: req.java_path@,
        max_memory: req.max_memory,
        min_memory: req.min_memory,
        jvm_args: Seq::empty(),
        port: req.port,
        created_at: now,
        last_started_at: None,
    }
}

/// The creation request that importing `req` amounts to.
pub open spec fn import_request_matches(c: CreateServerRequest, req: ImportServerRequest) -> bool {
    &&& c.name@ == req.name@
    &&& c.core_type@ == "unknown"@
    &&& c.mc_version@ == "unknown"@
    &&& c.max_memory == req.max_memory
    &&& c.min_memory == req.min_memory
    &&& c.port == IMPORT_PORT
    &&& c.java_path@ == req.java_path@
    &&& c.jar_path@ == req.jar_path@
}

/// How many times a stop polls the process for a graceful exit before it
/// kills the process.
pub const STOP_POLL_LIMIT: u32 = 20;

/// Milliseconds between two polls of a stopping process.
pub const STOP_POLL_INTERVAL_MS: u64 = 500;

/// Why a start is refused.
#[derive(PartialEq, Eq, Structural, Clone, Copy, Debug)]
pub enum StartRefusal {
    NotFound,
    AlreadyRunning,
}

/// What a poll during a stop leads to: the stop is over, another poll after
/// one interval, or killing the process.
#[derive(PartialEq, Eq, Structural, Clone, Copy, Debug)]
pub enum PollDecision {
    Finished,
    Wait,
    Kill,
}

/// The next action of a stop for the caller to perform.
pub enum StopStep<H> {
    /// The stop is over.
    Done,
    /// Send this console command to the process, then poll after one interval.
    SendStop(String),
    /// Sleep one interval, then poll again.
    Wait,
    /// Kill this process and wait for it; its handle is already removed.
    Kill(H),
}

/// The decision after poll number `attempt` (from zero) of a process that
/// still has a handle.
pub open spec fn poll_decision(attempt: nat, live: Liveness) -> PollDecision {
    if live is Exited {
        PollDecision::Finished
    } else if attempt + 1 < STOP_POLL_LIMIT {
        PollDecision::Wait
    } else {
        PollDecision::Kill
    }
}

/// Running a stop from poll number `attempt` on with the poll outcomes
/// `polls`: how many polls it takes, and the decision it ends on (`Wait` if
/// `polls` runs out first).
pub open spec fn stop_run(polls: Seq<Liveness>, attempt: nat) -> (nat, PollDecision)
    decreases polls.len(),
{
    if polls.len() == 0 {
        (0, PollDecision::Wait)
    } else {
        match poll_decision(attempt, polls[0]) {
            PollDecision::Wait => {
                let rest = stop_run(polls.drop_first(), attempt + 1);
                (rest.0 + 1, rest.1)
            },
            d => (1, d),
        }
    }
}

/// The arguments that launch server `s`, with the white-space separated
/// `global_args` after the heap flags and before the server's own arguments.
pub open spec fn launch_args(s: ServerInstanceView, global_args: Seq<char>) -> Seq<Seq<char>> {
    seq![heap_flag("-Xmx"@, s.max_memory), heap_flag("-Xms"@, s.min_memory)] + words(global_args)
        + s.jvm_args + seq!["-jar"@, s.jar_path, "nogui"@]
}

/// The EULA file content that accepts the EULA.
pub open spec fn eula_text() -> Seq<char> {
    "# Auto-accepted by Sea Lantern\neula=true\n"@
}

/// Whether `plan` launches server `s` under `settings`.
pub open spec fn plans_launch(plan: LaunchPlan, s: ServerInstanceView, settings: LaunchSettings) -> bool {
    &&& plan.program@ == s.java_path
    &&& texts(plan.args@) == launch_args(s, settings.default_jvm_args@)
    &&& plan.working_dir@ == s.path
    &&& match plan.eula {
        Some(t) => settings.auto_accept_eula && t@ == eula_text(),
        None => !settings.auto_accept_eula,
    }
}

/// The sequence `s` without position `j`, or `s` itself when `present` is false.
pub open spec fn drop_at<A>(s: Seq<A>, present: bool, j: int) -> Seq<A> {
    if present {
        s.remove(j)
    } else {
        s
    }
}

/// Removing the one server with id `id` from a list of unique ids is
/// filtering it out.
proof fn lemma_remove_unique_is_filter(s: Seq<ServerInstanceView>, i: int, id: Seq<char>)
    requires
        0 <= i < s.len(),
        s[i].id == id,
        unique_ids(s),
    ensures
        s.remove(i) == without_id(s, id),
    decreases s.len(),
{
    reveal(Seq::filter);
    if i == s.len() - 1 {
        lemma_filter_absent(s.drop_last(), id);
        assert(s.drop_last().push(s.last()) =~= s);
        assert(s.remove(i) =~= s.drop_last());
    } else {
        let t = s.drop_last();
        assert(unique_ids(t));
        lemma_remove_unique_is_filter(t, i, id);
        assert(t.push(s.last()) =~= s);
        assert(s.last().id != id);
        assert(s.remove(i) =~= t.remove(i).push(s.last()));
    }
}

/// Filtering out an id that no server of `s` has leaves `s` as it is.
proof fn lemma_filter_absent(s: Seq<ServerInstanceView>, id: Seq<char>)
    requires
        !has_id(s, id),
    ensures
        without_id(s, id) == s,
    decreases s.len(),
{
    reveal(Seq::filter);
    if s.len() > 0 {
        let t = s.drop_last();
        assert(!has_id(t, id)) by {
            if has_id(t, id) {
                let k = choose|k: int| 0 <= k < t.len() && #[trigger] t[k].id == id;
                assert(s[k].id == id);
            }
        }
        lemma_filter_absent(t, id);
        assert(t.push(s.last()) =~= s);
        assert(s[s.len() - 1].id != id);
    } else {
        assert(without_id(s, id) =~= s);
    }
}

/// Manages server definitions and the processes that run them. `H` is the
/// handle of a running process.
pub struct ServerManager<H> {
    servers: Vec<ServerSlot>,
    processes: Vec<ProcessEntry<H>>,
    log_limit: usize,
}

impl<H> ServerManager<H> {
    /// The registered servers, in order of registration.
    pub closed spec fn servers(&self) -> Seq<ServerInstanceView> {
        self.servers@.map_values(|s: ServerSlot| s.info@)
    }

    /// The log of each registered server, aligned with `servers()`.
    pub closed spec fn logs(&self) -> Seq<Seq<Seq<char>>> {
        self.servers@.map_values(|s: ServerSlot| s.logs@)
    }

    /// The ids of the servers that have a process handle.
    pub closed spec fn running(&self) -> Seq<Seq<char>> {
        self.processes@.map_values(|p: ProcessEntry<H>| p.id@)
    }

    /// The process handles, aligned with `running()`.
    pub closed spec fn handles(&self) -> Seq<H> {
        self.processes@.map_values(|p: ProcessEntry<H>| p.handle)
    }

    /// How many lines each server's log keeps.
    pub closed spec fn log_limit(&self) -> nat {
        self.log_limit as nat
    }

    /// The manager's invariant: server ids are unique, at most one handle
    /// exists per id, and every handle belongs to a registered server.
    pub open spec fn wf(&self) -> bool {
        &&& self.logs().len() == self.servers().len()
        &&& self.handles().len() == self.running().len()
        &&& unique_ids(self.servers())
        &&& self.running().no_duplicates()
        &&& forall|j: int| 0 <= j < self.running().len() ==> has_id(self.servers(), #[trigger] self.running()[j])
    }

    /// Whether a server with this id is registered.
    pub open spec fn registered(&self, id: Seq<char>) -> bool {
        has_id(self.servers(), id)
    }

    /// The position of the server with this id.
    pub open spec fn index_of(&self, id: Seq<char>) -> int {
        id_index(self.servers(), id)
    }

    /// The registered server with this id.
    pub open spec fn server(&self, id: Seq<char>) -> ServerInstanceView {
        self.servers()[self.index_of(id)]
    }

    /// The log of the server with this id; empty for an unknown id.
    pub open spec fn logs_of(&self, id: Seq<char>) -> Seq<Seq<char>> {
        if self.registered(id) {
            self.logs()[self.index_of(id)]
        } else {
            Seq::empty()
        }
    }

    /// Whether a process handle is recorded for this id.
    pub open spec fn has_process(&self, id: Seq<char>) -> bool {
        self.running().contains(id)
    }

    /// The position of the handle recorded for this id.
    pub open spec fn process_index(&self, id: Seq<char>) -> int {
        choose|j: int| 0 <= j < self.running().len() && #[trigger] self.running()[j] == id
    }

    /// The handle recorded for this id.
    pub open spec fn handle_of(&self, id: Seq<char>) -> H {
        self.handles()[self.process_index(id)]
    }

    /// Whether the registry, the logs and the handles of `self` and `other` agree.
    pub open spec fn same_state(&self, other: &Self) -> bool {
        &&& self.servers() == other.servers()
        &&& self.logs() == other.logs()
        &&& self.running() == other.running()
        &&& self.handles() == other.handles()
        &&& self.log_limit() == other.log_limit()
    }

    /// A manager of the given definitions, none of them running, each with an
    /// empty log. A definition whose id repeats an earlier one is skipped.
    pub fn new(servers: Vec<ServerInstance>) -> (r: Self)
        ensures
            r.wf(),
            r.running() == Seq::<Seq<char>>::empty(),
            r.log_limit() == DEFAULT_LOG_LIMIT,
            r.servers() == first_of_each(servers@.map_values(|s: ServerInstance| s@)),
            forall|i: int| 0 <= i < r.logs().len() ==> #[trigger] r.logs()[i] == Seq::<Seq<char>>::empty(),
            forall|i: int| 0 <= i < servers@.len() ==> r.registered(#[trigger] servers@[i]@.id),
            forall|i: int|
                0 <= i < r.servers().len() ==> exists|j: int|
                    0 <= j < servers@.len() && #[trigger] r.servers()[i] == #[trigger] servers@[j]@,
            unique_ids(servers@.map_values(|s: ServerInstance| s@)) ==> r.servers()
                == servers@.map_values(|s: ServerInstance| s@),
    {
        let mut r = ServerManager { servers: Vec::new(), processes: Vec::new(), log_limit: DEFAULT_LOG_LIMIT };
        let ghost input = servers@.map_values(|s: ServerInstance| s@);
        let mut i: usize = 0;
        assert(r.servers() =~= input.subrange(0, 0));
        while i < servers.len()
            invariant
                i <= servers@.len(),
                input == servers@.map_values(|s: ServerInstance| s@),
                r.wf(),
                r.running() == Seq::<Seq<char>>::empty(),
                r.log_limit() == DEFAULT_LOG_LIMIT,
                forall|k: int| 0 <= k < r.logs().len() ==> #[trigger] r.logs()[k] == Seq::<Seq<char>>::empty(),
                forall|k: int| 0 <= k < i ==> r.registered(#[trigger] servers@[k]@.id),
                forall|k: int|
                    0 <= k < r.servers().len() ==> exists|j: int|
                        0 <= j < servers@.len() && #[trigger] r.servers()[k] == #[trigger] servers@[j]@,
                unique_ids(input) ==> r.servers() == input.subrange(0, i as int),
                r.servers() == first_of_each(input.take(i as int)),
            decreases servers.len() - i,
        {
            let ghost before = r.servers();
            let ghost before_logs = r.logs();
            assert(input.take(i + 1).drop_last() =~= input.take(i as int));
            assert(input.take(i + 1).last() == servers@[i as int]@);
            match r.find_server(servers[i].id.as_str()) {
                Some(_) => {},
                None => {
                    let info = servers[i].duplicate();
                    r.servers.push(ServerSlot { info, logs: LogBuffer::new() });
                    assert(r.servers() =~= before.push(servers@[i as int]@));
                    assert(r.logs() =~= before_logs.push(Seq::<Seq<char>>::empty()));
                    assert(r.registered(servers@[i as int]@.id)) by {
                        assert(r.servers()[before.len() as int].id == servers@[i as int]@.id);
                    }
                    assert forall|k: int| 0 <= k < i implies r.registered(#[trigger] servers@[k]@.id) by {
                        let w = choose|w: int| 0 <= w < before.len() && #[trigger] before[w].id == servers@[k]@.id;
                        assert(r.servers()[w].id == servers@[k]@.id);
                    }
                    assert forall|k: int|
                        0 <= k < r.servers().len() implies exists|j: int|
                            0 <= j < servers@.len() && #[trigger] r.servers()[k] == #[trigger] servers@[j]@ by {
                        if k == before.len() {
                            assert(r.servers()[k] == servers@[i as int]@);
                        } else {
                            assert(r.servers()[k] == before[k]);
                        }
                    }
                    assert(unique_ids(r.servers())) by {
                        assert forall|a: int, b: int|
                            0 <= a < r.servers().len() && 0 <= b < r.servers().len() && a != b implies
                            r.servers()[a].id != r.servers()[b].id by {
                            if a == before.len() {
                                assert(!before.contains(r.servers()[b]) || r.servers()[b].id != r.servers()[a].id);
                            }
                        }
                    }
                },
            }
            proof {
                if unique_ids(input) {
                    if r.servers() != before.push(servers@[i as int]@) {
                        // the id was already present: impossible with unique ids
                        let w = choose|w: int| 0 <= w < before.len() && #[trigger] before[w].id == servers@[i as int]@.id;
                        assert(before[w] == input[w]);
                        assert(input[w].id == input[i as int].id);
                    }
                }
            }
            i = i + 1;
            proof {
                if unique_ids(input) {
                    assert(r.servers() =~= input.subrange(0, i as int));
                }
            }
        }
        assert(input.subrange(0, servers@.len() as int) =~= input);
        assert(input.take(servers@.len() as int) =~= input);
        r
    }

    /// Registers a new server from `req` under `id`, created at `now`, with an
    /// empty log. Fails with `DuplicateId`, changing nothing, when `id` is taken.
    pub fn add_server(&mut self, req: CreateServerRequest, id: String, now: u64) -> (r: Result<
        ServerInstance,
        ServerError,
    >)
        requires
            old(self).wf(),
        ensures
            final(self).wf(),
            match r {
                Ok(s) => {
                    &&& !old(self).registered(id@)
                    &&& s@ == created_view(req, id@, now)
                    &&& final(self).servers() == old(self).servers().push(s@)
                    &&& final(self).logs() == old(self).logs().push(Seq::<Seq<char>>::empty())
                    &&& final(self).running() == old(self).running()
                    &&& final(self).handles() == old(self).handles()
                    &&& final(self).log_limit() == old(self).log_limit()
                },
                Err(e) => old(self).registered(id@) && e is DuplicateId && final(self).same_state(old(self)),
            },
    {
        if self.find_server(id.as_str()).is_some() {
            return Err(ServerError::DuplicateId);
        }
        let path = match parent_dir(req.jar_path.as_str()) {
            Some(d) => d,
            None => ".".to_string(),
        };
        let server = ServerInstance {
            id,
            name: req.name,
            core_type: req.core_type,
            core_version: String::new(),
            mc_version: req.mc_version,
            path,
            jar_path: req.jar_path,
            java_path: req.java_path,
            max_memory: req.max_memory,
            min_memory: req.min_memory,
            jvm_args: Vec::new(),
            port: req.port,
            created_at: now,
            last_started_at: None,
        };
        assert(server@.jvm_args =~= Seq::<Seq<char>>::empty());
        let ghost before = self.servers();
        let ghost before_logs = self.logs();
        let ghost old_running = self.running();
        let copy = server.duplicate();
        self.servers.push(ServerSlot { info: copy, logs: LogBuffer::new() });
        assert(self.servers() =~= before.push(server@));
        assert(self.logs() =~= before_logs.push(Seq::<Seq<char>>::empty()));
        assert(unique_ids(self.servers())) by {
            assert forall|a: int, b: int|
                0 <= a < self.servers().len() && 0 <= b < self.servers().len() && a != b implies
                self.servers()[a].id != self.servers()[b].id by {
                if a == before.len() && b < before.len() {
                    assert(before[b].id != id@);
                } else if b == before.len() && a < before.len() {
                    assert(before[a].id != id@);
                }
            }
        }
        assert forall|j: int| 0 <= j < self.running().len() implies has_id(self.servers(), #[trigger] self.running()[j]) by {
            assert(has_id(before, old_running[j]));
            let w = choose|w: int| 0 <= w < before.len() && #[trigger] before[w].id == old_running[j];
            assert(self.servers()[w].id == old_running[j]);
        }
        Ok(server)
    }

    /// Defines a new server from `req`: a freshly drawn id, the current time
    /// as creation time, the jar's parent directory as working directory, and
    /// an empty log. Fails only if the drawn id is already taken.
    pub fn create_server(&mut self, req: CreateServerRequest) -> (r: Result<ServerInstance, ServerError>)
        requires
            old(self).wf(),
        ensures
            final(self).wf(),
            match r {
                Ok(s) => {
                    &&& s@.id.len() == 36
                    &&& s@ == created_view(req, s@.id, s@.created_at)
                    &&& final(self).servers() == old(self).servers().push(s@)
                    &&& final(self).logs() == old(self).logs().push(Seq::<Seq<char>>::empty())
                    &&& final(self).running() == old(self).running()
                    &&& final(self).handles() == old(self).handles()
                    &&& final(self).log_limit() == old(self).log_limit()
                },
                Err(e) => e is DuplicateId && final(self).same_state(old(self)) && exists|i: int|
                    0 <= i < old(self).servers().len() && old(self).servers()[i].id.len() == 36,
            },
    {
        let id = fresh_id();
        let ghost drawn = id@;
        let now = match unix_now() {
            Some(t) => t,
            None => 0,
        };
        let r = self.add_server(req, id, now);
        proof {
            if r is Err {
                let i = id_index(old(self).servers(), drawn);
                assert(old(self).servers()[i].id == drawn);
            }
        }
        r
    }

    /// Defines a server for an existing jar, of unknown type and version, on
    /// the default port. `jar_exists` tells whether the jar file exists; when
    /// it does not, fails with `JarNotFound` and changes nothing.
    pub fn import_server(&mut self, req: ImportServerRequest, jar_exists: bool) -> (r: Result<
        ServerInstance,
        ServerError,
    >)
        requires
            old(self).wf(),
        ensures
            final(self).wf(),
            !jar_exists ==> final(self).same_state(old(self)) && (r matches Err(
                ServerError::JarNotFound(p),
            ) && p@ == req.jar_path@),
            jar_exists ==> match r {
                Ok(s) => {
                    &&& s@.id.len() == 36
                    &&& exists|c: CreateServerRequest|
                        import_request_matches(c, req) && s@ == created_view(c, s@.id, s@.created_at)
                    &&& final(self).servers() == old(self).servers().push(s@)
                    &&& final(self).logs() == old(self).logs().push(Seq::<Seq<char>>::empty())
                    &&& final(self).running() == old(self).running()
                    &&& final(self).handles() == old(self).handles()
                    &&& final(self).log_limit() == old(self).log_limit()
                },
                Err(e) => e is DuplicateId && final(self).same_state(old(self)) && exists|i: int|
                    0 <= i < old(self).servers().len() && old(self).servers()[i].id.len() == 36,
            },
    {
        if !jar_exists {
            return Err(ServerError::JarNotFound(req.jar_path));
        }
        let c = CreateServerRequest {
            name: req.name,
            core_type: "unknown".to_string(),
            mc_version: "unknown".to_string(),
            max_memory: req.max_memory,
            min_memory: req.min_memory,
            port: IMPORT_PORT,
            java_path: req.java_path,
            jar_path: req.jar_path,
        };
        assert(import_request_matches(c, req));
        self.create_server(c)
    }

    /// Copies of all registered definitions, in order.
    pub fn get_server_list(&self) -> (r: Vec<ServerInstance>)
        ensures
            r@.map_values(|s: ServerInstance| s@) == self.servers(),
    {
        let mut r: Vec<ServerInstance> = Vec::new();
        let mut i: usize = 0;
        while i < self.servers.len()
            invariant
                i <= self.servers@.len(),
                self.servers().len() == self.servers@.len(),
                r@.len() == i,
                r@.map_values(|s: ServerInstance| s@) =~= self.servers().subrange(0, i as int),
            decreases self.servers.len() - i,
        {
            let item = self.servers[i].info.duplicate();
            let ghost prev = r@;
            r.push(item);
            assert(r@ == prev.push(item));
            assert(item@ == self.servers()[i as int]);
            i = i + 1;
            assert(r@.map_values(|s: ServerInstance| s@) =~= self.servers().subrange(0, i as int));
        }
        r
    }

    /// The log lines of server `id` from position `since` on; nothing for an
    /// unknown id or a position past the end.
    pub fn get_logs(&self, id: &str, since: usize) -> (r: Vec<String>)
        requires
            self.wf(),
        ensures
            texts(r@) == lines_since(self.logs_of(id@), since as nat),
    {
        match self.find_server(id) {
            Some(i) => self.servers[i].logs.read_since(since),
            None => {
                let r: Vec<String> = Vec::new();
                assert(texts(r@) =~= lines_since(Seq::<Seq<char>>::empty(), since as nat));
                r
            },
        }
    }

    /// Appends `line` to the log at position `i`, within the log limit.
    fn push_log(&mut self, i: usize, line: String)
        requires
            old(self).wf(),
            i < old(self).servers().len(),
        ensures
            final(self).wf(),
            final(self).servers() == old(self).servers(),
            final(self).logs() == old(self).logs().update(
                i as int,
                keep_last(old(self).logs()[i as int].push(line@), old(self).log_limit()),
            ),
            final(self).running() == old(self).running(),
            final(self).handles() == old(self).handles(),
            final(self).log_limit() == old(self).log_limit(),
    {
        let limit = self.log_limit;
        self.servers[i].logs.append(line, limit);
        assert(self.servers() =~= old(self).servers());
        assert(self.logs() =~= old(self).logs().update(
            i as int,
            keep_last(old(self).logs()[i as int].push(line@), old(self).log_limit()),
        ));
        assert forall|j: int| 0 <= j < self.running().len() implies #[trigger] self.registered(self.running()[j]) by {
            assert(old(self).registered(old(self).running()[j]));
        }
    }

    /// Appends `line` to the log of server `id`, within the log limit;
    /// nothing happens for an unknown id.
    fn notice(&mut self, id: &str, line: String)
        requires
            old(self).wf(),
        ensures
            final(self).wf(),
            final(self).servers() == old(self).servers(),
            final(self).running() == old(self).running(),
            final(self).handles() == old(self).handles(),
            final(self).log_limit() == old(self).log_limit(),
            forall|k: Seq<char>| k != id@ ==> #[trigger] final(self).logs_of(k) == old(self).logs_of(k),
            final(self).logs_of(id@) == if old(self).registered(id@) {
                keep_last(old(self).logs_of(id@).push(line@), old(self).log_limit())
            } else {
                Seq::<Seq<char>>::empty()
            },
    {
        match self.find_server(id) {
            Some(i) => {
                self.push_log(i, line);
                assert forall|k: Seq<char>| k != id@ implies #[trigger] self.logs_of(k) == old(self).logs_of(k) by {
                    if old(self).registered(k) {
                        let w = old(self).index_of(k);
                        assert(self.servers()[w].id == k);
                        assert(self.index_of(k) == w);
                    }
                }
            },
            None => {},
        }
    }

    /// Records a line that server `id`'s process wrote, marking lines from its
    /// error stream; the line is dropped when the server is no longer
    /// registered.
    pub fn append_output(&mut self, id: &str, line: String, from_stderr: bool)
        requires
            old(self).wf(),
        ensures
            final(self).wf(),
            final(self).log_limit() == old(self).log_limit(),
            final(self).servers() == old(self).servers(),
            final(self).running() == old(self).running(),
            final(self).handles() == old(self).handles(),
            forall|k: Seq<char>| k != id@ ==> #[trigger] final(self).logs_of(k) == old(self).logs_of(k),
            final(self).logs_of(id@) == if old(self).registered(id@) {
                keep_last(
                    old(self).logs_of(id@).push(if from_stderr { "[STDERR] "@ + line@ } else { line@ }),
                    old(self).log_limit(),
                )
            } else {
                Seq::<Seq<char>>::empty()
            },
    {
        if from_stderr {
            let tagged = "[STDERR] ".to_string().concat(line.as_str());
            self.notice(id, tagged);
        } else {
            self.notice(id, line);
        }
    }

    /// Whether a start of `id` is refused, given the outcome `live` of a poll of
    /// its handle (ignored when it has none).
    pub open spec fn start_refusal(&self, id: Seq<char>, live: Liveness) -> Option<StartRefusal> {
        if !self.registered(id) {
            Some(StartRefusal::NotFound)
        } else if self.has_process(id) && live is Alive {
            Some(StartRefusal::AlreadyRunning)
        } else {
            None
        }
    }

    /// The status of `id`, given the outcome `live` of a poll of its handle
    /// (ignored when it has none).
    pub open spec fn status_of(&self, id: Seq<char>, live: Liveness) -> ServerStatus {
        if self.has_process(id) && live is Alive {
            ServerStatus::Running
        } else {
            ServerStatus::Stopped
        }
    }

    /// `self` after the handle of `id`, if any, was dropped.
    pub open spec fn purged(&self, old: &Self, id: Seq<char>) -> bool {
        &&& self.servers() == old.servers()
        &&& self.running() == drop_at(old.running(), old.has_process(id), old.process_index(id))
        &&& self.handles() == drop_at(old.handles(), old.has_process(id), old.process_index(id))
        &&& !self.has_process(id)
    }

    /// Removes the handle at position `j`.
    fn remove_process(&mut self, j: usize) -> (h: H)
        requires
            old(self).wf(),
            j < old(self).running().len(),
        ensures
            final(self).wf(),
            h == old(self).handles()[j as int],
            final(self).servers() == old(self).servers(),
            final(self).logs() == old(self).logs(),
            final(self).running() == old(self).running().remove(j as int),
            final(self).handles() == old(self).handles().remove(j as int),
            final(self).log_limit() == old(self).log_limit(),
            !final(self).has_process(old(self).running()[j as int]),
    {
        let ghost gone = self.running()[j as int];
        let e = self.processes.remove(j);
        assert(self.running() =~= old(self).running().remove(j as int));
        assert(self.handles() =~= old(self).handles().remove(j as int));
        assert(self.running().no_duplicates()) by {
            assert forall|a: int, b: int|
                0 <= a < self.running().len() && 0 <= b < self.running().len() && a != b implies
                self.running()[a] != self.running()[b] by {
                let oa = if a < j { a } else { a + 1 };
                let ob = if b < j { b } else { b + 1 };
                assert(self.running()[a] == old(self).running()[oa]);
                assert(self.running()[b] == old(self).running()[ob]);
            }
        }
        assert forall|k: int| 0 <= k < self.running().len() implies #[trigger] self.registered(self.running()[k]) by {
            let ok = if k < j { k } else { k + 1 };
            assert(self.running()[k] == old(self).running()[ok]);
            assert(old(self).registered(old(self).running()[ok]));
        }
        assert(!self.has_process(gone)) by {
            if self.running().contains(gone) {
                let k = choose|k: int| 0 <= k < self.running().len() && self.running()[k] == gone;
                let ok = if k < j { k } else { k + 1 };
                assert(old(self).running()[ok] == old(self).running()[j as int]);
            }
        }
        e.handle
    }

    /// Drops the handle of `id`, if any, when the poll outcome `live` says its
    /// process is gone; tells whether a live handle remains.
    fn purge_if_exited(&mut self, id: &str, live: Liveness) -> (alive: bool)
        requires
            old(self).wf(),
        ensures
            final(self).wf(),
            alive == (old(self).has_process(id@) && live is Alive),
            final(self).logs() == old(self).logs(),
            final(self).log_limit() == old(self).log_limit(),
            alive ==> final(self).same_state(old(self)),
            !alive ==> final(self).purged(old(self), id@),
    {
        match self.find_process(id) {
            Some(j) => {
                if live == Liveness::Alive {
                    true
                } else {
                    self.remove_process(j);
                    false
                }
            },
            None => false,
        }
    }

    /// Whether a process handle is recorded for `id`, without polling it.
    pub fn is_tracked(&self, id: &str) -> (r: bool)
        requires
            self.wf(),
        ensures
            r == self.has_process(id@),
    {
        self.find_process(id).is_some()
    }

    /// The handle recorded for `id`, for the caller to poll or write to.
    pub fn process_mut(&mut self, id: &str) -> (r: Option<&mut H>)
        requires
            old(self).wf(),
        ensures
            final(self).servers() == old(self).servers(),
            final(self).logs() == old(self).logs(),
            final(self).running() == old(self).running(),
            final(self).log_limit() == old(self).log_limit(),
            final(self).handles().len() == old(self).handles().len(),
            final(self).wf(),
            match r {
                Some(h) => old(self).has_process(id@) && *h == old(self).handle_of(id@)
                    && final(self).handles() == old(self).handles().update(
                    old(self).process_index(id@),
                    *final(h),
                ),
                None => !old(self).has_process(id@) && final(self).handles() == old(self).handles(),
            },
    {
        match self.find_process(id) {
            Some(j) => Some(&mut self.processes[j].handle),
            None => None,
        }
    }

    /// The first step of starting server `id`, given the outcome `live` of a
    /// poll of its handle (ignored when it has none). Fails with `NotFound` for
    /// an unknown id and with `AlreadyRunning` when the process is alive,
    /// changing nothing. Otherwise drops a stale handle, adopts the settings'
    /// log limit and returns how to launch the process.
    pub fn start_server(&mut self, id: &str, live: Liveness, settings: &LaunchSettings) -> (r: Result<
        LaunchPlan,
        ServerError,
    >)
        requires
            old(self).wf(),
        ensures
            final(self).wf(),
            match old(self).start_refusal(id@, live) {
                Some(StartRefusal::NotFound) => r matches Err(ServerError::NotFound) && final(self).same_state(old(self)),
                Some(StartRefusal::AlreadyRunning) => r matches Err(ServerError::AlreadyRunning)
                    && final(self).same_state(old(self)),
                None => r matches Ok(plan) && plans_launch(plan, old(self).server(id@), *settings)
                    && final(self).purged(old(self), id@) && final(self).logs() == old(self).logs()
                    && final(self).log_limit() == settings.max_log_lines as nat,
            },
    {
        let i = match self.find_server(id) {
            Some(i) => i,
            None => {
                return Err(ServerError::NotFound);
            },
        };
        if self.purge_if_exited(id, live) {
            return Err(ServerError::AlreadyRunning);
        }
        assert(self.servers() == old(self).servers());
        let ghost purged = self.running();
        self.log_limit = settings.max_log_lines as usize;
        assert(self.running() == purged);
        let plan = self.launch_plan(i, settings);
        Ok(plan)
    }

    /// Records the handle of the freshly spawned process of server `id`,
    /// stamps the server's last start with `now` and logs the start. When `id`
    /// is unknown or already has a handle, hands `handle` back and changes
    /// nothing.
    pub fn record_started(&mut self, id: &str, handle: H, now: u64) -> (r: Result<(), H>)
        requires
            old(self).wf(),
        ensures
            final(self).wf(),
            final(self).log_limit() == old(self).log_limit(),
            forall|k: Seq<char>| k != id@ ==> #[trigger] final(self).logs_of(k) == old(self).logs_of(k),
            old(self).registered(id@) && !old(self).has_process(id@) ==> {
                &&& r is Ok
                &&& final(self).running() == old(self).running().push(id@)
                &&& final(self).handles() == old(self).handles().push(handle)
                &&& final(self).servers() == old(self).servers().update(
                    old(self).index_of(id@),
                    ServerInstanceView { last_started_at: Some(now), ..old(self).server(id@) },
                )
                &&& final(self).logs_of(id@) == keep_last(
                    old(self).logs_of(id@).push("[Sea Lantern] Server starting..."@),
                    old(self).log_limit(),
                )
                &&& final(self).has_process(id@)
                &&& final(self).registered(id@)
            },
            !(old(self).registered(id@) && !old(self).has_process(id@)) ==> r == Err::<(), H>(handle)
                && final(self).same_state(old(self)),
    {
        let i = match self.find_server(id) {
            Some(i) => i,
            None => {
                return Err(handle);
            },
        };
        if self.find_process(id).is_some() {
            return Err(handle);
        }
        let ghost s0 = self.servers();
        let ghost r0 = self.running();
        self.servers[i].info.last_started_at = Some(now);
        assert(self.logs() =~= old(self).logs());
        assert(self.servers() =~= s0.update(i as int, ServerInstanceView { last_started_at: Some(now), ..s0[i as int] }));
        assert(self.running() == r0);
        assert(unique_ids(self.servers())) by {
            assert forall|a: int, b: int|
                0 <= a < self.servers().len() && 0 <= b < self.servers().len() && a != b implies
                self.servers()[a].id != self.servers()[b].id by {
                assert(s0[a].id != s0[b].id);
            }
        }
        assert forall|j: int| 0 <= j < self.running().len() implies has_id(self.servers(), #[trigger] self.running()[j]) by {
            assert(has_id(s0, r0[j]));
            let w = choose|w: int| 0 <= w < s0.len() && #[trigger] s0[w].id == r0[j];
            assert(self.servers()[w].id == r0[j]);
        }
        assert(self.index_of(id@) == i) by {
            let k = self.index_of(id@);
            assert(self.servers()[i as int].id == id@);
            assert(self.registered(id@));
            if k != i as int {
                assert(self.servers()[k].id != self.servers()[i as int].id);
            }
        }
        let ghost s1 = self.servers();
        self.push_log(i, "[Sea Lantern] Server starting...".to_string());
        let ghost r1 = self.running();
        let ghost h1 = self.handles();
        self.processes.push(ProcessEntry { id: id.to_string(), handle });
        assert(self.running() =~= r1.push(id@));
        assert(self.handles() =~= h1.push(handle));
        assert(self.servers() == s1);
        assert(self.running().no_duplicates()) by {
            assert forall|a: int, b: int|
                0 <= a < self.running().len() && 0 <= b < self.running().len() && a != b implies
                self.running()[a] != self.running()[b] by {
                if a == r1.len() as int && b < r1.len() {
                    assert(r1[b] != id@);
                } else if b == r1.len() as int && a < r1.len() {
                    assert(r1[a] != id@);
                }
            }
        }
        assert forall|j: int| 0 <= j < self.running().len() implies has_id(self.servers(), #[trigger] self.running()[j]) by {
            if j == r1.len() as int {
                assert(self.servers()[i as int].id == id@);
            } else {
                assert(self.running()[j] == r1[j]);
            }
        }
        assert(self.has_process(id@)) by {
            assert(self.running()[r1.len() as int] == id@);
        }
        assert forall|k: Seq<char>| k != id@ implies #[trigger] self.logs_of(k) == old(self).logs_of(k) by {
            if has_id(old(self).servers(), k) {
                let w = old(self).index_of(k);
                assert(old(self).servers()[w].id == k);
                assert(self.servers()[w].id == k);
                assert(has_id(self.servers(), k));
                let v = self.index_of(k);
                assert(self.servers()[v].id == k);
                if v != w {
                    assert(self.servers()[v].id != self.servers()[w].id);
                }
                assert(w != i as int);
            } else if has_id(self.servers(), k) {
                let v = choose|v: int| 0 <= v < self.servers().len() && #[trigger] self.servers()[v].id == k;
                assert(old(self).servers()[v].id == k);
            }
        }
        Ok(())
    }

    /// The first step of stopping server `id`, given the outcome `live` of a
    /// poll of its handle (ignored when it has none). Without a live process,
    /// logs that it is not running, drops a stale handle and is done; the
    /// registry is left as it was. Otherwise logs the stop and asks the caller
    /// to send the console command `stop`.
    pub fn stop_server(&mut self, id: &str, live: Liveness) -> (r: StopStep<H>)
        requires
            old(self).wf(),
        ensures
            final(self).wf(),
            final(self).servers() == old(self).servers(),
            final(self).log_limit() == old(self).log_limit(),
            forall|k: Seq<char>| k != id@ ==> #[trigger] final(self).logs_of(k) == old(self).logs_of(k),
            old(self).has_process(id@) && live is Alive ==> {
                &&& r matches StopStep::SendStop(c) && c@ == "stop"@
                &&& final(self).running() == old(self).running()
                &&& final(self).handles() == old(self).handles()
                &&& final(self).logs_of(id@) == if old(self).registered(id@) {
                    keep_last(old(self).logs_of(id@).push("[Sea Lantern] Sending stop command..."@), old(self).log_limit())
                } else {
                    Seq::<Seq<char>>::empty()
                }
            },
            !(old(self).has_process(id@) && live is Alive) ==> {
                &&& r is Done
                &&& final(self).purged(old(self), id@)
                &&& !old(self).has_process(id@) ==> final(self).running() == old(self).running()
                    && final(self).handles() == old(self).handles()
                &&& final(self).logs_of(id@) == if old(self).registered(id@) {
                    keep_last(old(self).logs_of(id@).push("[Sea Lantern] Server is not running"@), old(self).log_limit())
                } else {
                    Seq::<Seq<char>>::empty()
                }
            },
    {
        if self.purge_if_exited(id, live) {
            self.notice(id, "[Sea Lantern] Sending stop command...".to_string());
            StopStep::SendStop("stop".to_string())
        } else {
            let ghost p = self.running();
            let ghost ph = self.handles();
            self.notice(id, "[Sea Lantern] Server is not running".to_string());
            assert(self.running() == p);
            StopStep::Done
        }
    }

    /// A poll during a stop of server `id`: `attempt` counts the polls before
    /// this one, and `live` is this poll's outcome (ignored when the handle is
    /// gone). A process that exited has its handle dropped and the stop is
    /// done; one still alive is waited for until the poll limit, after which
    /// its handle is dropped and handed back to be killed.
    pub fn stop_poll(&mut self, id: &str, attempt: u32, live: Liveness) -> (r: StopStep<H>)
        requires
            old(self).wf(),
        ensures
            final(self).wf(),
            final(self).servers() == old(self).servers(),
            final(self).log_limit() == old(self).log_limit(),
            forall|k: Seq<char>| k != id@ ==> #[trigger] final(self).logs_of(k) == old(self).logs_of(k),
            !old(self).has_process(id@) ==> r is Done && final(self).running() == old(self).running()
                && final(self).handles() == old(self).handles() && final(self).logs_of(id@) == (if old(
                self,
            ).registered(id@) {
                keep_last(old(self).logs_of(id@).push("[Sea Lantern] Server stopped"@), old(self).log_limit())
            } else {
                Seq::<Seq<char>>::empty()
            }),
            old(self).has_process(id@) ==> match poll_decision(attempt as nat, live) {
                PollDecision::Finished => r is Done && final(self).purged(old(self), id@) && final(self).logs_of(id@)
                    == (if old(self).registered(id@) {
                    keep_last(old(self).logs_of(id@).push("[Sea Lantern] Server stopped gracefully"@), old(self).log_limit())
                } else {
                    Seq::<Seq<char>>::empty()
                }),
                PollDecision::Wait => r is Wait && final(self).same_state(old(self)),
                PollDecision::Kill => (r matches StopStep::Kill(h) && h == old(self).handle_of(id@))
                    && final(self).purged(old(self), id@) && final(self).logs_of(id@) == (if old(self).registered(id@) {
                    keep_last(old(self).logs_of(id@).push("[Sea Lantern] Server force-killed after timeout"@), old(self).log_limit())
                } else {
                    Seq::<Seq<char>>::empty()
                }),
            },
    {
        match self.find_process(id) {
            None => {
                self.notice(id, "[Sea Lantern] Server stopped".to_string());
                StopStep::Done
            },
            Some(j) => {
                if live == Liveness::Exited {
                    self.remove_process(j);
                    self.notice(id, "[Sea Lantern] Server stopped gracefully".to_string());
                    StopStep::Done
                } else if attempt < STOP_POLL_LIMIT - 1 {
                    StopStep::Wait
                } else {
                    let h = self.remove_process(j);
                    self.notice(id, "[Sea Lantern] Server force-killed after timeout".to_string());
                    StopStep::Kill(h)
                }
            },
        }
    }

    /// The line to write to the input of server `id`'s process to run
    /// `command`: the command and a line break. Fails with `NotRunning` when
    /// no handle is recorded. Changes nothing.
    pub fn send_command(&self, id: &str, command: &str) -> (r: Result<String, ServerError>)
        requires
            self.wf(),
        ensures
            self.has_process(id@) ==> (r matches Ok(line) && line@ == command@ + "\n"@),
            !self.has_process(id@) ==> r matches Err(ServerError::NotRunning),
    {
        if self.find_process(id).is_none() {
            return Err(ServerError::NotRunning);
        }
        Ok(command.to_string().concat("\n"))
    }

    /// The status of server `id`, given the outcome `live` of a poll of its
    /// handle (ignored when it has none); a handle whose process is gone is
    /// dropped.
    pub fn get_server_status(&mut self, id: &str, live: Liveness) -> (r: ServerStatusInfo)
        requires
            old(self).wf(),
        ensures
            final(self).wf(),
            r.id@ == id@,
            r.status == old(self).status_of(id@, live),
            r.pid.is_none() && r.uptime.is_none(),
            final(self).logs() == old(self).logs(),
            r.status is Running ==> final(self).same_state(old(self)),
            final(self).log_limit() == old(self).log_limit(),
            r.status is Stopped ==> final(self).purged(old(self), id@),
    {
        let alive = self.purge_if_exited(id, live);
        ServerStatusInfo {
            id: id.to_string(),
            status: if alive {
                ServerStatus::Running
            } else {
                ServerStatus::Stopped
            },
            pid: None,
            uptime: None,
        }
    }

    /// Removes server `id` from the registry together with its log and any
    /// handle still recorded, which is handed back. Callers stop a running
    /// server first.
    pub fn delete_server(&mut self, id: &str) -> (r: Option<H>)
        requires
            old(self).wf(),
        ensures
            final(self).wf(),
            final(self).log_limit() == old(self).log_limit(),
            !final(self).registered(id@),
            !final(self).has_process(id@),
            final(self).servers() == without_id(old(self).servers(), id@),
            final(self).running() == drop_at(old(self).running(), old(self).has_process(id@), old(self).process_index(id@)),
            final(self).handles() == drop_at(old(self).handles(), old(self).has_process(id@), old(self).process_index(id@)),
            forall|k: Seq<char>| k != id@ ==> #[trigger] final(self).logs_of(k) == old(self).logs_of(k),
            match r {
                Some(h) => old(self).has_process(id@) && h == old(self).handle_of(id@),
                None => !old(self).has_process(id@),
            },
    {
        let handle = match self.find_process(id) {
            Some(j) => Some(self.remove_process(j)),
            None => None,
        };
        match self.find_server(id) {
            Some(i) => {
                let ghost s0 = self.servers();
                let ghost l0 = self.logs();
                self.servers.remove(i);
                assert(self.servers() =~= s0.remove(i as int));
                assert(self.logs() =~= l0.remove(i as int));
                proof {
                    lemma_remove_unique_is_filter(s0, i as int, id@);
                }
                assert forall|a: int, b: int|
                    0 <= a < self.servers().len() && 0 <= b < self.servers().len() && a != b implies
                    self.servers()[a].id != self.servers()[b].id by {
                    let oa = if a < i { a } else { a + 1 };
                    let ob = if b < i { b } else { b + 1 };
                    assert(self.servers()[a] == s0[oa]);
                    assert(self.servers()[b] == s0[ob]);
                }
                assert(!self.registered(id@)) by {
                    if has_id(self.servers(), id@) {
                        let k = choose|k: int| 0 <= k < self.servers().len() && #[trigger] self.servers()[k].id == id@;
                        let ok = if k < i { k } else { k + 1 };
                        assert(s0[ok].id == s0[i as int].id);
                    }
                }
                assert forall|j: int| 0 <= j < self.running().len() implies has_id(self.servers(), #[trigger] self.running()[j]) by {
                    let x = self.running()[j];
                    assert(has_id(s0, x));
                    let w = choose|w: int| 0 <= w < s0.len() && #[trigger] s0[w].id == x;
                    assert(x != id@);
                    assert(w != i as int);
                    let nw = if w < i { w } else { w - 1 };
                    assert(self.servers()[nw].id == x);
                }
                assert forall|k: Seq<char>| k != id@ implies #[trigger] self.logs_of(k) == old(self).logs_of(k) by {
                    if has_id(s0, k) {
                        let w = id_index(s0, k);
                        assert(s0[w].id == k);
                        assert(w != i as int);
                        let nw = if w < i { w } else { w - 1 };
                        assert(self.servers()[nw].id == k);
                        let v = self.index_of(k);
                        assert(self.servers()[v].id == k);
                        if v != nw {
                            assert(self.servers()[v].id != self.servers()[nw].id);
                        }
                    } else {
                        if has_id(self.servers(), k) {
                            let v = choose|v: int| 0 <= v < self.servers().len() && #[trigger] self.servers()[v].id == k;
                            let ov = if v < i { v } else { v + 1 };
                            assert(s0[ov].id == k);
                        }
                    }
                }
            },
            None => {
                assert(self.servers() =~= without_id(old(self).servers(), id@)) by {
                    lemma_filter_absent(old(self).servers(), id@);
                }
            },
        }
        handle
    }

    /// The ids of the servers that have a handle, for stopping them all.
    pub fn running_ids(&self) -> (r: Vec<String>)
        ensures
            texts(r@) == self.running(),
    {
        let mut r: Vec<String> = Vec::new();
        let mut j: usize = 0;
        while j < self.processes.len()
            invariant
                j <= self.processes@.len(),
                self.running().len() == self.processes@.len(),
                r@.len() == j,
                texts(r@) =~= self.running().subrange(0, j as int),
            decreases self.processes.len() - j,
        {
            let id = self.processes[j].id.clone();
            let ghost prev = r@;
            r.push(id);
            assert(r@ == prev.push(id));
            assert(id@ == self.running()[j as int]);
            j = j + 1;
            assert(texts(r@) =~= self.running().subrange(0, j as int));
        }
        r
    }

    /// How to launch the server at position `i` under `settings`.
    fn launch_plan(&self, i: usize, settings: &LaunchSettings) -> (plan: LaunchPlan)
        requires
            i < self.servers().len(),
        ensures
            plans_launch(plan, self.servers()[i as int], *settings),
    {
        let s = &self.servers[i].info;
        let ghost sv = self.servers()[i as int];
        assert(s@ == sv);
        let mut args: Vec<String> = Vec::new();
        args.push("-Xmx".to_string().concat(decimal_text(s.max_memory).as_str()).concat("M"));
        args.push("-Xms".to_string().concat(decimal_text(s.min_memory).as_str()).concat("M"));
        let mut global = split_words(settings.default_jvm_args.as_str());
        args.append(&mut global);
        let mut own = crate::text::copy_strings(&s.jvm_args);
        args.append(&mut own);
        args.push("-jar".to_string());
        args.push(s.jar_path.clone());
        args.push("nogui".to_string());
        assert(texts(args@) =~= launch_args(sv, settings.default_jvm_args@));
        let eula = if settings.auto_accept_eula {
            Some("# Auto-accepted by Sea Lantern\neula=true\n".to_string())
        } else {
            None
        };
        LaunchPlan { program: s.java_path.clone(), args, working_dir: s.path.clone(), eula }
    }

    /// The position of the server with id `id`, if registered.
    fn find_server(&self, id: &str) -> (r: Option<usize>)
        requires
            self.wf(),
        ensures
            match r {
                Some(i) => i < self.servers().len() && self.servers()[i as int].id == id@
                    && self.index_of(id@) == i && self.registered(id@),
                None => !self.registered(id@),
            },
    {
        let mut i: usize = 0;
        while i < self.servers.len()
            invariant
                self.wf(),
                i <= self.servers@.len(),
                self.servers().len() == self.servers@.len(),
                forall|k: int| 0 <= k < i ==> #[trigger] self.servers()[k].id != id@,
            decreases self.servers.len() - i,
        {
            if same_text(&self.servers[i].info.id, id) {
                assert(self.servers()[i as int].id == id@);
                assert(self.registered(id@));
                let ghost k = self.index_of(id@);
                assert(self.servers()[k].id == id@);
                assert(k == i) by {
                    if k != i as int {
                        assert(self.servers()[k].id != self.servers()[i as int].id);
                    }
                }
                return Some(i);
            }
            i = i + 1;
        }
        None
    }

    /// The position of the handle recorded for `id`, if any.
    fn find_process(&self, id: &str) -> (r: Option<usize>)
        requires
            self.wf(),
        ensures
            match r {
                Some(j) => j < self.running().len() && self.running()[j as int] == id@
                    && self.process_index(id@) == j && self.has_process(id@),
                None => !self.has_process(id@),
            },
    {
        let mut j: usize = 0;
        while j < self.processes.len()
            invariant
                self.wf(),
                j <= self.processes@.len(),
                self.running().len() == self.processes@.len(),
                forall|k: int| 0 <= k < j ==> #[trigger] self.running()[k] != id@,
            decreases self.processes.len() - j,
        {
            if same_text(&self.processes[j].id, id) {
                assert(self.running()[j as int] == id@);
                assert(self.has_process(id@));
                let ghost k = self.process_index(id@);
                assert(self.running()[k] == id@);
                assert(k == j) by {
                    if k != j as int {
                        assert(self.running()[k] != self.running()[j as int]);
                    }
                }
                return Some(j);
            }
            j = j + 1;
        }
        None
    }
}

} // verus!

verus! {

/// A started server is refused a second start while its process is alive, and
/// may start again once a poll finds the process gone.
pub proof fn lemma_start_twice<H>(m: ServerManager<H>, id: Seq<char>)
    requires
        m.wf(),
        m.registered(id),
        m.has_process(id),
    ensures
        m.start_refusal(id, Liveness::Alive) == Some(StartRefusal::AlreadyRunning),
        m.start_refusal(id, Liveness::Exited) is None,
{
}

/// Stopping a server without a process is idempotent: the first stop leaves
/// the registry and the handles as they were, so a second stop finds no
/// process either and again changes neither.
pub proof fn lemma_idle_stop_is_idempotent<H>(before: ServerManager<H>, after: ServerManager<H>, id: Seq<char>)
    requires
        before.wf(),
        !before.has_process(id),
        after.servers() == before.servers(),
        after.running() == before.running(),
        after.handles() == before.handles(),
    ensures
        !after.has_process(id),
        after.registered(id) == before.registered(id),
{
}

proof fn lemma_stop_run_from(polls: Seq<Liveness>, attempt: nat)
    requires
        attempt < STOP_POLL_LIMIT,
    ensures
        stop_run(polls, attempt).0 <= STOP_POLL_LIMIT - attempt,
        polls.len() >= STOP_POLL_LIMIT - attempt ==> stop_run(polls, attempt).1 != PollDecision::Wait,
        polls.len() >= STOP_POLL_LIMIT - attempt && (forall|i: int|
            0 <= i < STOP_POLL_LIMIT - attempt ==> #[trigger] polls[i] == Liveness::Alive) ==> stop_run(
            polls,
            attempt,
        ) == (((STOP_POLL_LIMIT - attempt) as nat, PollDecision::Kill)),
    decreases polls.len(),
{
    if polls.len() > 0 && poll_decision(attempt, polls[0]) == PollDecision::Wait {
        let rest = polls.drop_first();
        lemma_stop_run_from(rest, attempt + 1);
        if polls.len() >= STOP_POLL_LIMIT - attempt && (forall|i: int|
            0 <= i < STOP_POLL_LIMIT - attempt ==> #[trigger] polls[i] == Liveness::Alive) {
            assert forall|i: int| 0 <= i < STOP_POLL_LIMIT - (attempt + 1) implies #[trigger] rest[i]
                == Liveness::Alive by {
                assert(polls[i + 1] == Liveness::Alive);
                assert(rest[i] == polls[i + 1]);
            }
        }
    }
}

/// A stop never waits past the poll limit: whatever the polls report, it ends
/// after at most `STOP_POLL_LIMIT` polls, one interval apart; and a process
/// alive at every one of them is then killed, its handle dropped.
pub proof fn lemma_stop_is_bounded(polls: Seq<Liveness>)
    ensures
        stop_run(polls, 0).0 <= STOP_POLL_LIMIT,
        stop_run(polls, 0).0 * STOP_POLL_INTERVAL_MS <= STOP_POLL_LIMIT * STOP_POLL_INTERVAL_MS,
        polls.len() >= STOP_POLL_LIMIT ==> stop_run(polls, 0).1 != PollDecision::Wait,
        polls.len() >= STOP_POLL_LIMIT && (forall|i: int| 0 <= i < STOP_POLL_LIMIT ==> #[trigger] polls[i] == Liveness::Alive)
            ==> stop_run(polls, 0) == ((STOP_POLL_LIMIT as nat, PollDecision::Kill)),
{
    lemma_stop_run_from(polls, 0);
    assert(stop_run(polls, 0).0 * STOP_POLL_INTERVAL_MS <= STOP_POLL_LIMIT * STOP_POLL_INTERVAL_MS) by (nonlinear_arith)
        requires
            stop_run(polls, 0).0 <= STOP_POLL_LIMIT,
    ;
}

/// Once a server is deleted nothing refers to it: no handle, an empty log from
/// every position, and the status `Stopped` whatever a poll would say.
pub proof fn lemma_deleted_is_gone<H>(m: ServerManager<H>, id: Seq<char>)
    requires
        m.wf(),
        !m.registered(id),
    ensures
        !m.has_process(id),
        forall|since: nat| #[trigger] lines_since(m.logs_of(id), since) == Seq::<Seq<char>>::empty(),
        forall|live: Liveness| #[trigger] m.status_of(id, live) == ServerStatus::Stopped,
{
    if m.has_process(id) {
        let j = choose|j: int| 0 <= j < m.running().len() && m.running()[j] == id;
        assert(has_id(m.servers(), m.running()[j]));
    }
}

} // verus!
