//! Update checks against a release host: where to ask, which download of a
//! release suits the platform, and what to report.

use crate::text::chars_of;
use crate::version::{ascii_lower, cmp_version, parse_spec, strip_v};
use vstd::prelude::*;

verus! {

/// A host that publishes releases.
#[derive(PartialEq, Eq, Structural, Clone, Copy, Debug)]
pub enum UpdateSource {
    Gitee,
    GitHub,
}

/// Where a host's release API and pages are.
pub struct RepoConfig {
    pub owner: &'static str,
    pub repo: &'static str,
    pub api_base: &'static str,
    pub web_base: &'static str,
    pub accept_header: &'static str,
}

impl UpdateSource {
    /// The repository of this project on the host.
    pub fn config(self) -> (r: RepoConfig)
        ensures
            r.accept_header@ == self.accept_header_spec(),
            self is Gitee ==> r.owner@ == "fps_z"@ && r.repo@ == "SeaLantern"@ && r.api_base@
                == "https://gitee.com/api/v5/repos"@ && r.web_base@ == "https://gitee.com"@,
            self is GitHub ==> r.owner@ == "FPSZ"@ && r.repo@ == "SeaLantern"@ && r.api_base@
                == "https://api.github.com/repos"@ && r.web_base@ == "https://github.com"@,
    {
        match self {
            UpdateSource::Gitee => RepoConfig {
                owner: "fps_z",
                repo: "SeaLantern",
                api_base: "https://gitee.com/api/v5/repos",
                web_base: "https://gitee.com",
                accept_header: self.accept_header(),
            },
            UpdateSource::GitHub => RepoConfig {
                owner: "FPSZ",
                repo: "SeaLantern",
                api_base: "https://api.github.com/repos",
                web_base: "https://github.com",
                accept_header: self.accept_header(),
            },
        }
    }

    /// The host's name.
    pub fn as_str(self) -> (r: &'static str)
        ensures
            self is Gitee ==> r@ == "gitee"@,
            self is GitHub ==> r@ == "github"@,
    {
        match self {
            UpdateSource::Gitee => "gitee",
            UpdateSource::GitHub => "github",
        }
    }

    /// The media type to accept from the host's API.
    pub open spec fn accept_header_spec(self) -> Seq<char> {
        match self {
            UpdateSource::Gitee => "application/json"@,
            UpdateSource::GitHub => "application/vnd.github+json"@,
        }
    }

    /// The media type to accept from the host's API.
    pub fn accept_header(self) -> (r: &'static str)
        ensures
            r@ == self.accept_header_spec(),
    {
        match self {
            UpdateSource::Gitee => "application/json",
            UpdateSource::GitHub => "application/vnd.github+json",
        }
    }
}

impl RepoConfig {
    /// The API address of the latest release.
    pub fn api_url(&self) -> (r: String)
        ensures
            r@ == self.api_base@ + "/"@ + self.owner@ + "/"@ + self.repo@ + "/releases/latest"@,
    {
        self.api_base.to_string().concat("/").concat(self.owner).concat("/").concat(self.repo).concat(
            "/releases/latest",
        )
    }

    /// The page of the release tagged `tag`.
    pub fn release_url(&self, tag: &str) -> (r: String)
        ensures
            r@ == self.web_base@ + "/"@ + self.owner@ + "/"@ + self.repo@ + "/releases/tag/"@ + tag@,
    {
        self.web_base.to_string().concat("/").concat(self.owner).concat("/").concat(self.repo).concat(
            "/releases/tag/",
        ).concat(tag)
    }
}

/// A downloadable file of a release.
pub struct ReleaseAsset {
    pub name: String,
    pub browser_download_url: String,
}

/// What a host says about its latest release.
pub struct ReleaseResponse {
    pub tag_name: String,
    pub html_url: Option<String>,
    pub body: Option<String>,
    pub assets: Vec<ReleaseAsset>,
    pub published_at: Option<String>,
    pub created_at: Option<String>,
}

/// The outcome of an update check.
pub struct UpdateInfo {
    pub has_update: bool,
    pub latest_version: String,
    pub current_version: String,
    pub download_url: Option<String>,
    pub release_notes: Option<String>,
    pub published_at: Option<String>,
    pub source: Option<String>,
}

/// The operating system the application runs on.
#[derive(PartialEq, Eq, Structural, Clone, Copy, Debug)]
pub enum Platform {
    Windows,
    MacOs,
    Linux,
}

/// The file name endings of installers for `p`, most preferred first.
pub open spec fn installer_suffixes(p: Platform) -> Seq<Seq<char>> {
    match p {
        Platform::Windows => seq![".msi"@, ".exe"@],
        Platform::MacOs => seq![".dmg"@, ".app"@, ".tar.gz"@],
        Platform::Linux => seq![".appimage"@, ".deb"@, ".rpm"@, ".tar.gz"@],
    }
}

/// Whether `s` ends with `suffix`.
pub open spec fn ends_with(s: Seq<char>, suffix: Seq<char>) -> bool {
    s.len() >= suffix.len() && s.skip(s.len() - suffix.len()) == suffix
}

/// Whether the name `name`, in ASCII lower case, ends with `suffix`.
pub open spec fn name_matches(name: Seq<char>, suffix: Seq<char>) -> bool {
    ends_with(name.map_values(|c: char| ascii_lower(c)), suffix)
}

/// The position of the first of `names` that matches `suffix`, or -1.
pub open spec fn first_match(names: Seq<Seq<char>>, suffix: Seq<char>) -> int
    decreases names.len(),
{
    if names.len() == 0 {
        -1
    } else if name_matches(names[0], suffix) {
        0
    } else {
        let r = first_match(names.drop_first(), suffix);
        if r < 0 {
            -1
        } else {
            r + 1
        }
    }
}

/// The position of the asset to download among assets named `names`: for the
/// first suffix that some name matches, the first such name; -1 if none does.
pub open spec fn asset_choice(names: Seq<Seq<char>>, suffixes: Seq<Seq<char>>) -> int
    decreases suffixes.len(),
{
    if suffixes.len() == 0 {
        -1
    } else if first_match(names, suffixes[0]) >= 0 {
        first_match(names, suffixes[0])
    } else {
        asset_choice(names, suffixes.drop_first())
    }
}

/// The names of `assets`.
pub open spec fn asset_names(assets: Seq<ReleaseAsset>) -> Seq<Seq<char>> {
    assets.map_values(|a: ReleaseAsset| a.name@)
}

/// Whether `name` in ASCII lower case ends with `suffix`.
fn name_ends_with(name: &String, suffix: &str) -> (r: bool)
    ensures
        r == name_matches(name@, suffix@),
{
    let n = chars_of(name.as_str());
    let s = chars_of(suffix);
    if n.len() < s.len() {
        return false;
    }
    let off = n.len() - s.len();
    let ghost lower = n@.map_values(|c: char| ascii_lower(c));
    let mut i: usize = 0;
    while i < s.len()
        invariant
            off + s@.len() == n@.len(),
            off + s.len() == n.len(),
            i <= s@.len(),
            lower == n@.map_values(|c: char| ascii_lower(c)),
            lower.len() == n@.len(),
            n@ == name@,
            s@ == suffix@,
            forall|j: int| 0 <= j < i ==> lower[off + j] == s@[j],
        decreases s.len() - i,
    {
        let c = n[off + i];
        let l = if 'A' <= c && c <= 'Z' {
            ((c as u8) + 32) as char
        } else {
            c
        };
        assert(lower[off + i] == l);
        if l != s[i] {
            assert(lower.skip(off as int)[i as int] != s@[i as int]);
            assert(lower.skip(lower.len() - s@.len()) != s@);
            assert(name@.map_values(|c: char| ascii_lower(c)) == lower);
            assert(!name_matches(name@, suffix@));
            return false;
        }
        i = i + 1;
    }
    assert(lower.skip(off as int) =~= s@);
    true
}

/// The first of `assets` whose name matches `suffix`.
fn find_asset(assets: &Vec<ReleaseAsset>, suffix: &str) -> (r: Option<usize>)
    ensures
        match r {
            Some(i) => first_match(asset_names(assets@), suffix@) == i,
            None => first_match(asset_names(assets@), suffix@) == -1,
        },
{
    let ghost names = asset_names(assets@);
    let mut i: usize = 0;
    assert(names.skip(0) =~= names);
    while i < assets.len()
        invariant
            i <= assets@.len(),
            names == asset_names(assets@),
            first_match(names, suffix@) == if first_match(names.skip(i as int), suffix@) < 0 {
                -1
            } else {
                first_match(names.skip(i as int), suffix@) + i
            },
        decreases assets.len() - i,
    {
        assert(names.skip(i as int)[0] == assets@[i as int].name@);
        if name_ends_with(&assets[i].name, suffix) {
            return Some(i);
        }
        assert(names.skip(i as int).drop_first() =~= names.skip(i + 1));
        i = i + 1;
    }
    assert(names.skip(i as int) =~= Seq::<Seq<char>>::empty());
    None
}

/// The installer suffixes of `p`, most preferred first.
fn suffixes_for(p: Platform) -> (r: Vec<&'static str>)
    ensures
        r@.map_values(|s: &'static str| s@) == installer_suffixes(p),
{
    let mut r: Vec<&'static str> = Vec::new();
    match p {
        Platform::Windows => {
            r.push(".msi");
            r.push(".exe");
        },
        Platform::MacOs => {
            r.push(".dmg");
            r.push(".app");
            r.push(".tar.gz");
        },
        Platform::Linux => {
            r.push(".appimage");
            r.push(".deb");
            r.push(".rpm");
            r.push(".tar.gz");
        },
    }
    assert(r@.map_values(|s: &'static str| s@) =~= installer_suffixes(p));
    r
}

/// The download address of the asset that suits `platform`: for the most
/// preferred installer suffix that some asset name ends with (ignoring ASCII
/// case), the first such asset.
pub fn find_suitable_asset(assets: &Vec<ReleaseAsset>, platform: Platform) -> (r: Option<String>)
    ensures
        match r {
            Some(u) => {
                let i = asset_choice(asset_names(assets@), installer_suffixes(platform));
                0 <= i < assets@.len() && u@ == assets@[i].browser_download_url@
            },
            None => asset_choice(asset_names(assets@), installer_suffixes(platform)) == -1,
        },
{
    let suffixes = suffixes_for(platform);
    let ghost sv = installer_suffixes(platform);
    let ghost names = asset_names(assets@);
    let mut k: usize = 0;
    assert(sv.skip(0) =~= sv);
    while k < suffixes.len()
        invariant
            k <= suffixes@.len(),
            suffixes@.map_values(|s: &'static str| s@) == sv,
            sv == installer_suffixes(platform),
            names == asset_names(assets@),
            asset_choice(names, sv) == asset_choice(names, sv.skip(k as int)),
        decreases suffixes.len() - k,
    {
        assert(sv.skip(k as int)[0] == suffixes@[k as int]@);
        match find_asset(assets, suffixes[k]) {
            Some(i) => {
                proof {
                    lemma_first_match_bound(names, sv[k as int]);
                }
                assert(sv[k as int] == suffixes@[k as int]@);
                assert(first_match(names, sv[k as int]) == i);
                assert(asset_choice(names, sv.skip(k as int)) == first_match(names, sv[k as int]));
                assert(asset_choice(names, sv) == i);
                assert(i < assets@.len());
                let u = assets[i].browser_download_url.clone();
                assert(u@ == assets@[i as int].browser_download_url@);
                return Some(u);
            },
            None => {},
        }
        assert(sv.skip(k as int).drop_first() =~= sv.skip(k + 1));
        k = k + 1;
    }
    assert(sv.skip(k as int) =~= Seq::<Seq<char>>::empty());
    None
}

proof fn lemma_first_match_bound(names: Seq<Seq<char>>, suffix: Seq<char>)
    ensures
        first_match(names, suffix) < names.len(),
    decreases names.len(),
{
    if names.len() > 0 {
        lemma_first_match_bound(names.drop_first(), suffix);
    }
}

/// `tag` without its leading `v` and `V`.
fn strip_v_text(tag: &String) -> (r: String)
    ensures
        r@ == strip_v(tag@),
{
    let n = tag.as_str().unicode_len();
    let mut i: usize = 0;
    assert(tag@.skip(0) =~= tag@);
    while i < n && (tag.as_str().get_char(i) == 'v' || tag.as_str().get_char(i) == 'V')
        invariant
            n == tag@.len(),
            i <= n,
            strip_v(tag@) == strip_v(tag@.skip(i as int)),
        decreases n - i,
    {
        assert(tag@.skip(i as int).drop_first() =~= tag@.skip(i + 1));
        i = i + 1;
    }
    assert(tag@.subrange(i as int, n as int) =~= tag@.skip(i as int));
    tag.as_str().substring_char(i, n).to_string()
}

/// The update report for `release`, fetched from `source` (whose repository
/// is `config`) while running `current_version` on `platform`: the tag without
/// leading `v`/`V` as latest version, whether it is later than the current
/// one, a suitable asset's address or else the release page, the notes, and
/// the publication time or else the creation time.
pub fn release_update_info(
    release: ReleaseResponse,
    config: &RepoConfig,
    current_version: &str,
    source: &str,
    platform: Platform,
) -> (r: UpdateInfo)
    ensures
        r.latest_version@ == strip_v(release.tag_name@),
        r.current_version@ == current_version@,
        r.has_update == (cmp_version(parse_spec(strip_v(release.tag_name@)), parse_spec(current_version@)) > 0),
        r.download_url matches Some(u) && ({
            let i = asset_choice(asset_names(release.assets@), installer_suffixes(platform));
            if i >= 0 {
                u@ == release.assets@[i].browser_download_url@
            } else {
                match release.html_url {
                    Some(h) => u@ == h@,
                    None => u@ == config.web_base@ + "/"@ + config.owner@ + "/"@ + config.repo@
                        + "/releases/tag/"@ + release.tag_name@,
                }
            }
        }),
        r.release_notes == release.body,
        r.published_at == match release.published_at {
            Some(p) => Some(p),
            None => release.created_at,
        },
        r.source matches Some(s) && s@ == source@,
{
    let latest = strip_v_text(&release.tag_name);
    let has_update = crate::version::compare_versions(current_version, latest.as_str());
    let download_url = match find_suitable_asset(&release.assets, platform) {
        Some(u) => Some(u),
        None => match release.html_url {
            Some(h) => Some(h),
            None => Some(config.release_url(release.tag_name.as_str())),
        },
    };
    let published_at = match release.published_at {
        Some(p) => Some(p),
        None => release.created_at,
    };
    UpdateInfo {
        has_update,
        latest_version: latest,
        current_version: current_version.to_string(),
        download_url,
        release_notes: release.body,
        published_at,
        source: Some(source.to_string()),
    }
}

/// The message when both hosts failed.
pub fn both_failed(gitee_error: &str, github_error: &str) -> (r: String)
    ensures
        r@ == "Both Gitee and GitHub failed. Gitee: "@ + gitee_error@ + "; GitHub: "@ + github_error@,
{
    "Both Gitee and GitHub failed. Gitee: ".to_string().concat(gitee_error).concat("; GitHub: ").concat(
        github_error,
    )
}

} // verus!
