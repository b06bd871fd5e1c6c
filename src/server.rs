//! Server definitions, requests, status reports and errors.

use crate::text::{copy_strings, decimal, texts};
use vstd::prelude::*;

verus! {

/// A server definition, independent of whether its process is running.
#[derive(Clone, Debug)]
pub struct ServerInstance {
    pub id: String,
    pub name: String,
    pub core_type: String,
    pub core_version: String,
    pub mc_version: String,
    /// Working directory of the process.
    pub path: String,
    pub jar_path: String,
    pub java_path: String,
    /// Maximum heap size, in megabytes.
    pub max_memory: u32,
    /// Minimum heap size, in megabytes.
    pub min_memory: u32,
    pub jvm_args: Vec<String>,
    pub port: u16,
    pub created_at: u64,
    pub last_started_at: Option<u64>,
}

/// The content of a `ServerInstance`, with text as character sequences.
pub struct ServerInstanceView {
    pub id: Seq<char>,
    pub name: Seq<char>,
    pub core_type: Seq<char>,
    pub core_version: Seq<char>,
    pub mc_version: Seq<char>,
    pub path: Seq<char>,
    pub jar_path: Seq<char>,
    pub java_path: Seq<char>,
    pub max_memory: u32,
    pub min_memory: u32,
    pub jvm_args: Seq<Seq<char>>,
    pub port: u16,
    pub created_at: u64,
    pub last_started_at: Option<u64>,
}

impl View for ServerInstance {
    type V = ServerInstanceView;

    open spec fn view(&self) -> ServerInstanceView {
        ServerInstanceView {
            id: self.id@,
            name: self.name@,
            core_type: self.core_type@,
            core_version: self.core_version@,
            mc_version: self.mc_version@,
            path: self.path@,
            jar_path: self.jar_path@,
            java_path: self.java_path@,
            max_memory: self.max_memory,
            min_memory: self.min_memory,
            jvm_args: texts(self.jvm_args@),
            port: self.port,
            created_at: self.created_at,
            last_started_at: self.last_started_at,
        }
    }
}

impl ServerInstance {
    /// A field-by-field copy.
    pub fn duplicate(&self) -> (r: ServerInstance)
        ensures
            r@ == self@,
    {
        ServerInstance {
            id: self.id.clone(),
            name: self.name.clone(),
            core_type: self.core_type.clone(),
            core_version: self.core_version.clone(),
            mc_version: self.mc_version.clone(),
            path: self.path.clone(),
            jar_path: self.jar_path.clone(),
            java_path: self.java_path.clone(),
            max_memory: self.max_memory,
            min_memory: self.min_memory,
            jvm_args: copy_strings(&self.jvm_args),
            port: self.port,
            created_at: self.created_at,
            last_started_at: self.last_started_at,
        }
    }
}

/// What a caller supplies to define a new server.
pub struct CreateServerRequest {
    pub name: String,
    pub core_type: String,
    pub mc_version: String,
    pub max_memory: u32,
    pub min_memory: u32,
    pub port: u16,
    pub java_path: String,
    pub jar_path: String,
}

/// What a caller supplies to register an existing server jar.
pub struct ImportServerRequest {
    pub name: String,
    pub jar_path: String,
    pub java_path: String,
    pub max_memory: u32,
    pub min_memory: u32,
}

/// Whether a server's process is running.
#[derive(PartialEq, Eq, Structural, Clone, Copy, Debug)]
pub enum ServerStatus {
    Running,
    Stopped,
}

/// A status report for one server.
pub struct ServerStatusInfo {
    pub id: String,
    pub status: ServerStatus,
    pub pid: Option<u32>,
    pub uptime: Option<u64>,
}

/// The outcome of a non-blocking poll of a process: still running, or gone
/// (exited, or no longer observable).
#[derive(PartialEq, Eq, Structural, Clone, Copy, Debug)]
pub enum Liveness {
    Alive,
    Exited,
}

/// The failures of the server operations.
pub enum ServerError {
    /// No server has the given id.
    NotFound,
    /// The server's process is alive.
    AlreadyRunning,
    /// The server has no process.
    NotRunning,
    /// Writing to the process's input failed; the text describes why.
    CommandFailed(String),
    /// The process could not be launched; the text describes why.
    SpawnFailed(String),
    /// The jar of a server to import does not exist; the text is its path.
    JarNotFound(String),
    /// A freshly drawn server id is already taken.
    DuplicateId,
}

impl ServerError {
    /// The description shown to the user.
    pub fn message(&self) -> (r: String)
        ensures
            self is NotFound ==> r@ == "Server not found"@,
            self is AlreadyRunning ==> r@ == "Server is already running"@,
            self is NotRunning ==> r@ == "Server is not running"@,
            self matches ServerError::CommandFailed(e) ==> r@ == "Failed: "@ + e@,
            self matches ServerError::SpawnFailed(e) ==> r@ == "Failed to start: "@ + e@,
            self matches ServerError::JarNotFound(p) ==> r@ == "JAR file not found: "@ + p@,
            self is DuplicateId ==> r@ == "Server id already in use"@,
    {
        match self {
            ServerError::NotFound => "Server not found".to_string(),
            ServerError::AlreadyRunning => "Server is already running".to_string(),
            ServerError::NotRunning => "Server is not running".to_string(),
            ServerError::CommandFailed(e) => "Failed: ".to_string().concat(e.as_str()),
            ServerError::SpawnFailed(e) => "Failed to start: ".to_string().concat(e.as_str()),
            ServerError::JarNotFound(p) => "JAR file not found: ".to_string().concat(p.as_str()),
            ServerError::DuplicateId => "Server id already in use".to_string(),
        }
    }
}

/// The settings that starting a server reads.
pub struct LaunchSettings {
    pub auto_accept_eula: bool,
    /// Extra JVM arguments for every server, separated by white space.
    pub default_jvm_args: String,
    /// How many log lines each server keeps.
    pub max_log_lines: u32,
}

/// How to launch a server's process.
pub struct LaunchPlan {
    pub program: String,
    pub args: Vec<String>,
    pub working_dir: String,
    /// The text to write to the server's EULA file before launching, if any.
    pub eula: Option<String>,
}

/// The heap flag `<prefix><megabytes>M`.
pub open spec fn heap_flag(prefix: Seq<char>, megabytes: u32) -> Seq<char> {
    prefix + decimal(megabytes as nat) + "M"@
}

/// Relies on `uuid::Uuid::new_v4` and its hyphenated `Display`: a random id of
/// 36 characters.
#[verifier::external_body]
pub(crate) fn fresh_id() -> (r: String)
    ensures
        r@.len() == 36,
{
    uuid::Uuid::new_v4().to_string()
}

/// Relies on `std::time::SystemTime::now`: whole seconds since the Unix epoch,
/// `None` when the clock reads earlier than the epoch.
#[verifier::external_body]
pub(crate) fn unix_now() -> (r: Option<u64>) {
    std::time::SystemTime::now().duration_since(std::time::UNIX_EPOCH).ok().map(|d| d.as_secs())
}

/// The directory part of a path, as `std::path::Path::parent` computes it.
pub uninterp spec fn path_parent(p: Seq<char>) -> Option<Seq<char>>;

/// Relies on `std::path::Path::parent`: the path without its final component;
/// `None` for a root or the empty path.
#[verifier::external_body]
pub(crate) fn parent_dir(p: &str) -> (r: Option<String>)
    ensures
        match r {
            Some(d) => path_parent(p@) == Some(d@),
            None => path_parent(p@).is_none(),
        },
        p@.len() == 0 ==> r.is_none(),
{
    std::path::Path::new(p).parent().map(|d| d.to_string_lossy().to_string())
}

/// The working directory of a server whose jar is at `jar`: the jar's parent
/// directory, or `.` when it has none.
pub open spec fn work_dir_of(jar: Seq<char>) -> Seq<char> {
    match path_parent(jar) {
        Some(d) => d,
        None => "."@,
    }
}

} // verus!
