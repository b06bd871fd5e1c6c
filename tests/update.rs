use sea_lantern::update::{
    both_failed, find_suitable_asset, release_update_info, Platform, ReleaseAsset, ReleaseResponse, UpdateSource,
};

fn asset(name: &str) -> ReleaseAsset {
    ReleaseAsset { name: name.to_string(), browser_download_url: format!("https://dl/{}", name) }
}

#[test]
fn repository_addresses() {
    let c = UpdateSource::GitHub.config();
    assert_eq!(c.api_url(), "https://api.github.com/repos/FPSZ/SeaLantern/releases/latest");
    assert_eq!(c.release_url("v1.0.0"), "https://github.com/FPSZ/SeaLantern/releases/tag/v1.0.0");
    assert_eq!(c.accept_header, "application/vnd.github+json");
    let g = UpdateSource::Gitee.config();
    assert_eq!(g.api_url(), "https://gitee.com/api/v5/repos/fps_z/SeaLantern/releases/latest");
    assert_eq!(UpdateSource::Gitee.as_str(), "gitee");
    assert_eq!(UpdateSource::Gitee.accept_header(), "application/json");
}

#[test]
fn picks_the_preferred_installer_for_the_platform() {
    let assets = vec![asset("SeaLantern.EXE"), asset("SeaLantern.msi"), asset("sea.deb"), asset("x.AppImage")];
    assert_eq!(find_suitable_asset(&assets, Platform::Windows), Some("https://dl/SeaLantern.msi".to_string()));
    assert_eq!(find_suitable_asset(&assets, Platform::Linux), Some("https://dl/x.AppImage".to_string()));
    assert_eq!(find_suitable_asset(&assets, Platform::MacOs), None);
}

#[test]
fn builds_the_update_report() {
    let release = ReleaseResponse {
        tag_name: "v2.1.0".to_string(),
        html_url: None,
        body: Some("notes".to_string()),
        assets: vec![asset("readme.txt")],
        published_at: None,
        created_at: Some("2024-01-01".to_string()),
    };
    let info = release_update_info(release, &UpdateSource::GitHub.config(), "2.0.5", "github", Platform::Linux);
    assert!(info.has_update);
    assert_eq!(info.latest_version, "2.1.0");
    assert_eq!(info.current_version, "2.0.5");
    assert_eq!(info.download_url.as_deref(), Some("https://github.com/FPSZ/SeaLantern/releases/tag/v2.1.0"));
    assert_eq!(info.release_notes.as_deref(), Some("notes"));
    assert_eq!(info.published_at.as_deref(), Some("2024-01-01"));
    assert_eq!(info.source.as_deref(), Some("github"));

    let release = ReleaseResponse {
        tag_name: "1.0.0".to_string(),
        html_url: Some("https://page".to_string()),
        body: None,
        assets: Vec::new(),
        published_at: Some("p".to_string()),
        created_at: Some("c".to_string()),
    };
    let info = release_update_info(release, &UpdateSource::Gitee.config(), "1.0.0", "gitee", Platform::Windows);
    assert!(!info.has_update);
    assert_eq!(info.download_url.as_deref(), Some("https://page"));
    assert_eq!(info.published_at.as_deref(), Some("p"));
}

#[test]
fn reports_both_failures() {
    assert_eq!(both_failed("a", "b"), "Both Gitee and GitHub failed. Gitee: a; GitHub: b");
}
