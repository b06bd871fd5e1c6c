//! The decisions of installing a runtime from a downloaded archive. Each type
//! is one stretch of the pipeline; its methods take the outcome of the
//! caller's I/O and the cancellation flag as sampled at that checkpoint, and
//! say what happens next. The temporary extraction directory exists only from
//! `Download::finish` to the end of `Relocation`, and every failure in that
//! stretch tells the caller to remove it.

use vstd::prelude::*;

verus! {

/// The failures of an install.
pub enum InstallError {
    /// The install was cancelled.
    Cancelled,
    /// The request or the body stream failed; the text describes why.
    DownloadFailed(String),
    /// The payload does not start with the archive signature of the platform.
    InvalidFormat,
    /// The archive could not be unpacked; the text describes why.
    ExtractFailed(String),
    /// The runtime executable is not where it is expected after installing.
    ExecutableMissing,
    /// A filesystem operation failed; the text describes why.
    IoFailure(String),
}

/// A failed install: the error, and whether the caller must remove the
/// temporary extraction directory.
pub struct Failure {
    pub error: InstallError,
    pub remove_temp: bool,
}

/// The stage that a progress event reports.
#[derive(PartialEq, Eq, Structural, Clone, Copy, Debug)]
pub enum ProgressState {
    Downloading,
    Extracting,
    Finished,
}

/// A progress event.
#[derive(PartialEq, Eq, Structural, Clone, Copy, Debug)]
pub struct Progress {
    pub state: ProgressState,
    pub progress: u64,
    pub total: u64,
}

/// The archive formats a runtime comes in.
#[derive(PartialEq, Eq, Structural, Clone, Copy, Debug)]
pub enum ArchiveKind {
    /// A zip archive, unpacked entry by entry.
    Zip,
    /// A gzip-compressed tar archive, unpacked in one go.
    TarGz,
}

/// Milliseconds that must pass between two download progress events.
pub const PROGRESS_INTERVAL_MS: u64 = 100;

/// The archive format used on the platform (`windows` or not).
pub open spec fn platform_archive(windows: bool) -> ArchiveKind {
    if windows {
        ArchiveKind::Zip
    } else {
        ArchiveKind::TarGz
    }
}

/// Whether `data` starts with the signature of `kind`: `PK` for zip, the
/// bytes 1f 8b for gzip. Payloads of two bytes or fewer never match.
pub open spec fn has_signature(data: Seq<u8>, kind: ArchiveKind) -> bool {
    &&& data.len() > 2
    &&& match kind {
        ArchiveKind::Zip => data[0] == 0x50u8 && data[1] == 0x4bu8,
        ArchiveKind::TarGz => data[0] == 0x1fu8 && data[1] == 0x8bu8,
    }
}

/// The name of the directory a runtime `version` is installed in.
pub open spec fn target_dir_name(version: Seq<char>) -> Seq<char> {
    version
}

/// The name of the temporary directory a runtime `version` is extracted in.
pub open spec fn temp_dir_name(version: Seq<char>) -> Seq<char> {
    "temp_"@ + version
}

/// The path of the runtime executable inside an installed directory, by
/// component.
pub open spec fn executable_path(windows: bool) -> Seq<Seq<char>> {
    if windows {
        seq!["bin"@, "java.exe"@]
    } else {
        seq!["bin"@, "java"@]
    }
}

/// The name of the temporary extraction directory of `version`.
pub fn temp_dir_for(version: &str) -> (r: String)
    ensures
        r@ == temp_dir_name(version@),
{
    "temp_".to_string().concat(version)
}

/// The path of the runtime executable inside an installed directory, by
/// component, on the platform (`windows` or not).
pub fn executable_components(windows: bool) -> (r: Vec<String>)
    ensures
        crate::text::texts(r@) == executable_path(windows),
{
    let mut r: Vec<String> = Vec::new();
    r.push("bin".to_string());
    if windows {
        r.push("java.exe".to_string());
    } else {
        r.push("java".to_string());
    }
    assert(crate::text::texts(r@) =~= executable_path(windows));
    r
}

/// An install that has not yet looked at the target directory.
pub struct InstallJob {
    pub url: String,
    pub version_name: String,
    pub windows: bool,
}

/// What an install does after checking the target directory.
pub enum Checked {
    /// The runtime is already installed: the caller returns its executable
    /// without any network request.
    AlreadyInstalled,
    /// The caller requests `url` and feeds the body to this download.
    Fetch(Download),
}

/// A download in progress.
pub struct Download {
    pub url: String,
    pub version_name: String,
    pub windows: bool,
    /// The bytes received so far.
    pub data: Vec<u8>,
    /// The number of bytes received so far, saturating at `u64::MAX`.
    pub downloaded: u64,
    /// The announced size of the body; zero when unknown.
    pub total: u64,
}

impl InstallJob {
    /// A job installing `version_name` from `url` on the platform (`windows`
    /// or not).
    pub fn new(url: String, version_name: String, windows: bool) -> (r: InstallJob)
        ensures
            r.url == url,
            r.version_name == version_name,
            r.windows == windows,
    {
        InstallJob { url, version_name, windows }
    }

    /// Decides, from whether the runtime executable already exists in the
    /// target directory, between using it and downloading.
    pub fn check_existing(self, executable_exists: bool) -> (r: Checked)
        ensures
            executable_exists <==> r is AlreadyInstalled,
            r matches Checked::Fetch(d) ==> d.url == self.url && d.version_name == self.version_name
                && d.windows == self.windows && d.data@ == Seq::<u8>::empty() && d.downloaded == 0
                && d.total == 0,
    {
        if executable_exists {
            Checked::AlreadyInstalled
        } else {
            let d = Download {
                url: self.url,
                version_name: self.version_name,
                windows: self.windows,
                data: Vec::new(),
                downloaded: 0,
                total: 0,
            };
            Checked::Fetch(d)
        }
    }
}

/// The extraction of a downloaded archive into the temporary directory.
pub struct Extraction {
    pub version_name: String,
    pub windows: bool,
    pub kind: ArchiveKind,
}

impl Download {
    /// The event that reports the start of the download.
    pub fn started(&self) -> (r: Progress)
        ensures
            r == (Progress { state: ProgressState::Downloading, progress: 0, total: 0 }),
    {
        Progress { state: ProgressState::Downloading, progress: 0, total: 0 }
    }

    /// Records the announced size of the body, if any.
    pub fn on_response(&mut self, content_length: Option<u64>)
        ensures
            final(self).total == match content_length {
                Some(n) => n,
                None => 0u64,
            },
            final(self).data@ == old(self).data@,
            final(self).downloaded == old(self).downloaded,
            final(self).url == old(self).url,
            final(self).version_name == old(self).version_name,
            final(self).windows == old(self).windows,
    {
        self.total = match content_length {
            Some(n) => n,
            None => 0,
        };
    }

    /// Takes one received chunk of the body. Fails with `Cancelled` when the
    /// flag is set, keeping nothing of the chunk. Otherwise keeps the chunk and
    /// reports progress when the size is known and more than
    /// `PROGRESS_INTERVAL_MS` passed since the last report.
    pub fn on_chunk(&mut self, chunk: &[u8], cancelled: bool, since_report_ms: u64) -> (r: Result<
        Option<Progress>,
        Failure,
    >)
        ensures
            final(self).url == old(self).url,
            final(self).version_name == old(self).version_name,
            final(self).windows == old(self).windows,
            final(self).total == old(self).total,
            cancelled ==> (r matches Err(f) && f.error is Cancelled && !f.remove_temp) && final(self).data@
                == old(self).data@ && final(self).downloaded == old(self).downloaded,
            !cancelled ==> (r matches Ok(p) && final(self).data@ == old(self).data@ + chunk@
                && final(self).downloaded as nat == if old(self).downloaded + chunk@.len() <= u64::MAX {
                (old(self).downloaded + chunk@.len()) as nat
            } else {
                u64::MAX as nat
            } && (p is Some <==> (old(self).total > 0 && since_report_ms > PROGRESS_INTERVAL_MS))
                && (p matches Some(e) ==> e == Progress {
                state: ProgressState::Downloading,
                progress: final(self).downloaded,
                total: old(self).total,
            })),
    {
        if cancelled {
            return Err(Failure { error: InstallError::Cancelled, remove_temp: false });
        }
        let n = chunk.len() as u64;
        self.data.extend_from_slice(chunk);
        self.downloaded = self.downloaded.saturating_add(n);
        if self.total > 0 && since_report_ms > PROGRESS_INTERVAL_MS {
            Ok(Some(Progress { state: ProgressState::Downloading, progress: self.downloaded, total: self.total }))
        } else {
            Ok(None)
        }
    }

    /// The failure of the request or of the body stream, described by `reason`.
    pub fn failed(self, reason: String) -> (f: Failure)
        ensures
            f.error matches InstallError::DownloadFailed(m) && m == reason,
            !f.remove_temp,
    {
        Failure { error: InstallError::DownloadFailed(reason), remove_temp: false }
    }

    /// The event that reports the complete download.
    pub fn completed(&self) -> (r: Progress)
        ensures
            r == (Progress {
                state: ProgressState::Downloading,
                progress: self.downloaded,
                total: self.total,
            }),
    {
        Progress { state: ProgressState::Downloading, progress: self.downloaded, total: self.total }
    }

    /// Ends the download. Fails with `Cancelled` when the flag is set, and with
    /// `InvalidFormat` when the payload lacks the platform's archive signature;
    /// neither leaves a temporary directory. Otherwise the caller creates a
    /// fresh temporary directory and extracts the returned payload, reporting
    /// the extraction event.
    pub fn finish(self, cancelled: bool) -> (r: Result<(Extraction, Vec<u8>, Progress), Failure>)
        ensures
            cancelled ==> (r matches Err(f) && f.error is Cancelled && !f.remove_temp),
            !cancelled && !has_signature(self.data@, platform_archive(self.windows)) ==> (r matches Err(f)
                && f.error is InvalidFormat && !f.remove_temp),
            !cancelled && has_signature(self.data@, platform_archive(self.windows)) ==> (r matches Ok(t)
                && t.0.kind == platform_archive(self.windows) && t.0.version_name == self.version_name
                && t.0.windows == self.windows && t.1@ == self.data@ && t.2 == (Progress {
                state: ProgressState::Extracting,
                progress: 0,
                total: 100,
            })),
    {
        if cancelled {
            return Err(Failure { error: InstallError::Cancelled, remove_temp: false });
        }
        let kind = if self.windows {
            ArchiveKind::Zip
        } else {
            ArchiveKind::TarGz
        };
        if !signature_matches(&self.data, kind) {
            return Err(Failure { error: InstallError::InvalidFormat, remove_temp: false });
        }
        let e = Extraction { version_name: self.version_name, windows: self.windows, kind };
        Ok((e, self.data, Progress { state: ProgressState::Extracting, progress: 0, total: 100 }))
    }
}

/// Whether `data` starts with the signature of `kind`.
pub fn signature_matches(data: &Vec<u8>, kind: ArchiveKind) -> (r: bool)
    ensures
        r == has_signature(data@, kind),
{
    if data.len() <= 2 {
        return false;
    }
    match kind {
        ArchiveKind::Zip => data[0] == 0x50u8 && data[1] == 0x4bu8,
        ArchiveKind::TarGz => data[0] == 0x1fu8 && data[1] == 0x8bu8,
    }
}

/// Moving the extracted runtime into place.
pub struct Relocation {
    pub windows: bool,
    /// Whether the extracted tree's single top-level directory is the root.
    pub use_inner: bool,
}

impl Extraction {
    /// A checkpoint of the extraction: before each entry of a zip archive, and
    /// once before unpacking a tar archive. Fails with `Cancelled`, asking for
    /// the temporary directory's removal, when the flag is set.
    pub fn checkpoint(&self, cancelled: bool) -> (r: Result<(), Failure>)
        ensures
            cancelled ==> (r matches Err(f) && f.error is Cancelled && f.remove_temp),
            !cancelled ==> r is Ok,
    {
        if cancelled {
            Err(Failure { error: InstallError::Cancelled, remove_temp: true })
        } else {
            Ok(())
        }
    }

    /// The failure of unpacking, described by `reason`.
    pub fn failed(self, reason: String) -> (f: Failure)
        ensures
            f.error matches InstallError::ExtractFailed(m) && m == reason,
            f.remove_temp,
    {
        Failure { error: InstallError::ExtractFailed(reason), remove_temp: true }
    }

    /// Ends the extraction, given the flag and what the temporary directory
    /// holds: `entries` entries, `single_is_dir` telling whether there is
    /// exactly one and it is a directory. Fails with `Cancelled`, asking for the
    /// temporary directory's removal, when the flag is set. Otherwise the
    /// install root is that single directory, if so, else the temporary
    /// directory itself.
    pub fn finish(self, cancelled: bool, entries: usize, single_is_dir: bool) -> (r: Result<Relocation, Failure>)
        ensures
            cancelled ==> (r matches Err(f) && f.error is Cancelled && f.remove_temp),
            !cancelled ==> (r matches Ok(rel) && rel.windows == self.windows && rel.use_inner == (entries == 1
                && single_is_dir)),
    {
        if cancelled {
            return Err(Failure { error: InstallError::Cancelled, remove_temp: true });
        }
        Ok(Relocation { windows: self.windows, use_inner: entries == 1 && single_is_dir })
    }
}

/// Checking the installed runtime.
pub struct Verification {
    pub windows: bool,
}

impl Relocation {
    /// The outcome of removing an earlier install and renaming the install
    /// root into the target directory: `Err` with a description when either
    /// failed. A failure asks for the temporary directory's removal; after a
    /// success the temporary directory is left over, and to be removed, only
    /// when its inner directory was moved.
    pub fn relocated(self, outcome: Result<(), String>) -> (r: Result<(Verification, bool), Failure>)
        ensures
            outcome is Err ==> (r matches Err(f) && f.remove_temp && (f.error matches InstallError::IoFailure(m)
                && outcome == Err::<(), String>(m))),
            outcome is Ok ==> (r matches Ok(v) && v.0.windows == self.windows && v.1 == self.use_inner),
    {
        match outcome {
            Err(m) => Err(Failure { error: InstallError::IoFailure(m), remove_temp: true }),
            Ok(()) => Ok((Verification { windows: self.windows }, self.use_inner)),
        }
    }
}

impl Verification {
    /// Ends the install from whether the runtime executable exists in the
    /// target directory: fails with `ExecutableMissing` when it does not, and
    /// otherwise reports completion.
    pub fn finish(self, executable_exists: bool) -> (r: Result<Progress, Failure>)
        ensures
            !executable_exists ==> (r matches Err(f) && f.error is ExecutableMissing && !f.remove_temp),
            executable_exists ==> r == Ok::<Progress, Failure>(
                Progress { state: ProgressState::Finished, progress: 100, total: 100 },
            ),
    {
        if executable_exists {
            Ok(Progress { state: ProgressState::Finished, progress: 100, total: 100 })
        } else {
            Err(Failure { error: InstallError::ExecutableMissing, remove_temp: false })
        }
    }
}

} // verus!
