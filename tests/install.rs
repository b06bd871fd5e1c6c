use sea_lantern::install::{
    executable_components, signature_matches, temp_dir_for, ArchiveKind, Checked, Download, InstallError,
    InstallJob, ProgressState,
};

const GZIP: &[u8] = &[0x1f, 0x8b, 0x08, 0x00];
const ZIP: &[u8] = &[b'P', b'K', 0x03, 0x04];

fn fetch(windows: bool) -> Download {
    let job = InstallJob::new("https://example.test/jdk".to_string(), "jdk-21".to_string(), windows);
    match job.check_existing(false) {
        Checked::Fetch(d) => d,
        Checked::AlreadyInstalled => panic!("expected a download"),
    }
}

#[test]
fn an_installed_runtime_is_used_without_downloading() {
    let job = InstallJob::new("https://example.test/jdk".to_string(), "jdk-21".to_string(), false);
    assert!(matches!(job.check_existing(true), Checked::AlreadyInstalled));
}

#[test]
fn cancelling_after_the_download_leaves_no_temporary_directory() {
    let mut d = fetch(false);
    d.on_response(Some(4));
    assert!(matches!(d.on_chunk(GZIP, false, 0), Ok(None)));
    match d.finish(true) {
        Err(f) => {
            assert!(matches!(f.error, InstallError::Cancelled));
            assert!(!f.remove_temp);
        }
        Ok(_) => panic!("expected cancellation"),
    }
}

#[test]
fn cancelling_during_the_download_keeps_nothing() {
    let mut d = fetch(false);
    d.on_response(None);
    assert!(d.on_chunk(&GZIP[..2], false, 0).is_ok());
    match d.on_chunk(&GZIP[2..], true, 0) {
        Err(f) => assert!(matches!(f.error, InstallError::Cancelled) && !f.remove_temp),
        Ok(_) => panic!("expected cancellation"),
    }
    assert_eq!(d.data, GZIP[..2].to_vec());
    assert_eq!(d.downloaded, 2);
}

#[test]
fn progress_is_reported_only_with_a_known_size_and_after_the_interval() {
    let mut d = fetch(false);
    assert_eq!(d.started().state, ProgressState::Downloading);
    d.on_response(Some(100));
    assert!(matches!(d.on_chunk(&[1, 2, 3], false, 50), Ok(None)));
    match d.on_chunk(&[4, 5], false, 101) {
        Ok(Some(p)) => {
            assert_eq!(p.state, ProgressState::Downloading);
            assert_eq!(p.progress, 5);
            assert_eq!(p.total, 100);
        }
        _ => panic!("expected a progress report"),
    }
    let mut unknown = fetch(false);
    unknown.on_response(None);
    assert!(matches!(unknown.on_chunk(&[1], false, 1000), Ok(None)));
    let c = d.completed();
    assert_eq!((c.progress, c.total), (5, 100));
}

#[test]
fn a_payload_without_the_archive_signature_is_refused() {
    let mut d = fetch(false);
    assert!(d.on_chunk(b"<html>", false, 0).is_ok());
    match d.finish(false) {
        Err(f) => assert!(matches!(f.error, InstallError::InvalidFormat) && !f.remove_temp),
        Ok(_) => panic!("expected InvalidFormat"),
    }
    let mut w = fetch(true);
    assert!(w.on_chunk(GZIP, false, 0).is_ok());
    assert!(w.finish(false).is_err());
}

#[test]
fn signatures_by_platform() {
    assert!(signature_matches(&GZIP.to_vec(), ArchiveKind::TarGz));
    assert!(!signature_matches(&GZIP.to_vec(), ArchiveKind::Zip));
    assert!(signature_matches(&ZIP.to_vec(), ArchiveKind::Zip));
    assert!(!signature_matches(&vec![0x1f, 0x8b], ArchiveKind::TarGz));
    assert!(!signature_matches(&Vec::new(), ArchiveKind::Zip));
}

#[test]
fn a_complete_install_runs_through_every_stage() {
    let mut d = fetch(true);
    d.on_response(Some(4));
    assert!(d.on_chunk(ZIP, false, 0).is_ok());
    let (x, data, p) = match d.finish(false) {
        Ok(t) => t,
        Err(_) => panic!("expected extraction"),
    };
    assert_eq!(x.kind, ArchiveKind::Zip);
    assert_eq!(data, ZIP.to_vec());
    assert_eq!((p.state, p.progress, p.total), (ProgressState::Extracting, 0, 100));
    assert!(x.checkpoint(false).is_ok());
    let rel = match x.finish(false, 1, true) {
        Ok(r) => r,
        Err(_) => panic!("expected relocation"),
    };
    assert!(rel.use_inner);
    let (v, leftover) = match rel.relocated(Ok(())) {
        Ok(t) => t,
        Err(_) => panic!("expected verification"),
    };
    assert!(leftover);
    match v.finish(true) {
        Ok(p) => assert_eq!((p.state, p.progress, p.total), (ProgressState::Finished, 100, 100)),
        Err(_) => panic!("expected success"),
    }
}

#[test]
fn cancelling_during_extraction_removes_the_temporary_directory() {
    let mut d = fetch(false);
    assert!(d.on_chunk(GZIP, false, 0).is_ok());
    let (x, _, _) = match d.finish(false) {
        Ok(t) => t,
        Err(_) => panic!("expected extraction"),
    };
    match x.checkpoint(true) {
        Err(f) => assert!(matches!(f.error, InstallError::Cancelled) && f.remove_temp),
        Ok(_) => panic!("expected cancellation"),
    }
    match x.finish(true, 1, true) {
        Err(f) => assert!(matches!(f.error, InstallError::Cancelled) && f.remove_temp),
        Ok(_) => panic!("expected cancellation"),
    }
}

#[test]
fn other_install_failures() {
    let mut d = fetch(false);
    assert!(d.on_chunk(GZIP, false, 0).is_ok());
    let (x, _, _) = match d.finish(false) {
        Ok(t) => t,
        Err(_) => panic!("expected extraction"),
    };
    let rel = match x.finish(false, 3, false) {
        Ok(r) => r,
        Err(_) => panic!("expected relocation"),
    };
    assert!(!rel.use_inner);
    match rel.relocated(Err("denied".to_string())) {
        Err(f) => match f.error {
            InstallError::IoFailure(m) => assert!(m == "denied" && f.remove_temp),
            _ => panic!("expected IoFailure"),
        },
        Ok(_) => panic!("expected failure"),
    }
    let e = fetch(false).failed("timeout".to_string());
    assert!(matches!(e.error, InstallError::DownloadFailed(ref m) if m == "timeout"));
}

#[test]
fn a_missing_executable_fails_the_install() {
    let mut d = fetch(false);
    assert!(d.on_chunk(GZIP, false, 0).is_ok());
    let (x, _, _) = match d.finish(false) {
        Ok(t) => t,
        Err(_) => panic!("expected extraction"),
    };
    let (v, leftover) = match x.finish(false, 2, true) {
        Ok(r) => match r.relocated(Ok(())) {
            Ok(t) => t,
            Err(_) => panic!("expected verification"),
        },
        Err(_) => panic!("expected relocation"),
    };
    assert!(!leftover);
    match v.finish(false) {
        Err(f) => assert!(matches!(f.error, InstallError::ExecutableMissing)),
        Ok(_) => panic!("expected ExecutableMissing"),
    }
}

#[test]
fn layout_names() {
    assert_eq!(temp_dir_for("jdk-21"), "temp_jdk-21");
    assert_eq!(executable_components(true), vec!["bin", "java.exe"]);
    assert_eq!(executable_components(false), vec!["bin", "java"]);
}

#[test]
fn an_unreadable_archive_fails_extraction() {
    let mut d = fetch(false);
    assert!(d.on_chunk(GZIP, false, 0).is_ok());
    let (x, _, _) = match d.finish(false) {
        Ok(t) => t,
        Err(_) => panic!("expected extraction"),
    };
    let f = x.failed("corrupt".to_string());
    assert!(f.remove_temp);
    assert!(matches!(f.error, InstallError::ExtractFailed(ref m) if m == "corrupt"));
}
