//! Decisions of the self-updater: which release asset fits this platform,
//! where to download it from (a CDN mirror first, GitHub as fallback), how
//! its published digest is read, and whether an update is due.
//!
//! Fetching, hashing files and replacing the executable happen in the
//! caller; it hands this module the release data and the hashes it read.
use vstd::prelude::*;
use crate::logging::{lower_ascii_chars, lower_ascii_seq};
use crate::normalize::{find_first, first_occ_from, lemma_first_occ_props, lit_string};
use crate::problem::join_chars;
use crate::text::{
    chars_eq, chars_of, contains_chars, contains_seq, extend_chars, extend_str, is_ascii_digit,
    join, slice_vec, str_eq, string_of, trim, trim_chars,
};

verus! {

/// The version of this build.
pub const CURRENT_VERSION: &'static str = "0.1.5";

/// The mirror that serves release assets.
pub const CDN_BASE: &'static str = "https://dl.zhongbai233.com/release";

/// The path segment that precedes the tag in GitHub asset URLs.
pub const RELEASE_SEGMENT: &'static str = "/releases/download/";

pub open spec fn current_tag_of() -> Seq<char> {
    "v"@ + CURRENT_VERSION@
}

/// The release tag of this build.
pub fn current_tag() -> (r: String)
    ensures
        r@ == current_tag_of(),
{
    let mut v = chars_of("v");
    extend_str(&mut v, CURRENT_VERSION);
    string_of(&v)
}

// ------------------------------------------------------------------
// Download URLs
// ------------------------------------------------------------------
/// The piece of `url` between the first release segment and the next one
/// (or the end): what `split(..).nth(1)` gives.
pub open spec fn release_tail(url: Seq<char>) -> Option<Seq<char>> {
    match first_occ_from(url, RELEASE_SEGMENT@, 0) {
        Some(i) => {
            let rest = url.skip(i + RELEASE_SEGMENT@.len());
            Some(
                match first_occ_from(rest, RELEASE_SEGMENT@, 0) {
                    Some(j) => rest.take(j),
                    None => rest,
                },
            )
        },
        None => None,
    }
}

/// The mirror URL of a GitHub asset URL; other URLs stay as they are.
pub open spec fn accelerated_url(url: Seq<char>) -> Seq<char> {
    match release_tail(url) {
        Some(tail) => CDN_BASE@ + "/"@ + tail,
        None => url,
    }
}

pub fn get_accelerated_url(original_url: &str) -> (r: String)
    ensures
        r@ == accelerated_url(original_url@),
{
    let url = chars_of(original_url);
    let seg = chars_of(RELEASE_SEGMENT);
    match find_first(&url, &seg, 0) {
        Some(i) => {
            proof {
                lemma_first_occ_props(url@, seg@, 0);
            }
            assert(i + seg.len() <= url.len());
            let rest = slice_vec(&url, i + seg.len(), url.len());
            assert(rest@ =~= url@.skip(i + seg@.len()));
            let tail = match find_first(&rest, &seg, 0) {
                Some(j) => {
                    proof {
                        lemma_first_occ_props(rest@, seg@, 0);
                    }
                    slice_vec(&rest, 0, j)
                },
                None => rest,
            };
            let mut out = chars_of(CDN_BASE);
            extend_str(&mut out, "/");
            extend_chars(&mut out, &tail);
            string_of(&out)
        },
        None => string_of(&url),
    }
}

/// The URLs to try, in order: the mirror (unless switched off or the same
/// URL), then the release's own URL.
pub open spec fn download_urls_of(url: Seq<char>, cdn_disabled: bool) -> Seq<Seq<char>> {
    if !cdn_disabled && accelerated_url(url) != url {
        seq![accelerated_url(url), url]
    } else {
        seq![url]
    }
}

pub fn build_download_urls(original_url: &str, cdn_disabled: bool) -> (r: Vec<String>)
    ensures
        r.deep_view() == download_urls_of(original_url@, cdn_disabled),
{
    let mut urls: Vec<String> = Vec::new();
    if !cdn_disabled {
        let accelerated = get_accelerated_url(original_url);
        if !str_eq(accelerated.as_str(), original_url) {
            urls.push(accelerated);
        }
    }
    urls.push(lit_string(original_url));
    assert(urls.deep_view() =~= download_urls_of(original_url@, cdn_disabled));
    urls
}

// ------------------------------------------------------------------
// Platforms
// ------------------------------------------------------------------
/// The words that name this platform's asset, by operating system and
/// architecture (as `std::env::consts` spells them).
pub open spec fn platform_keys_of(os: Seq<char>, arch: Seq<char>) -> Seq<Seq<char>> {
    if os == "windows"@ && arch == "x86_64"@ {
        seq!["Windows-x64"@]
    } else if os == "windows"@ && arch == "aarch64"@ {
        seq!["Windows-arm64"@, "Windows-aarch64"@]
    } else if os == "linux"@ && arch == "x86_64"@ {
        seq!["Linux-x64"@]
    } else if os == "linux"@ && arch == "aarch64"@ {
        seq!["Linux-arm64"@]
    } else if os == "macos"@ && arch == "x86_64"@ {
        seq!["macOS-x64"@, "macOS-Intel"@]
    } else if os == "macos"@ && arch == "aarch64"@ {
        seq!["macOS-arm64"@, "macOS-AppleSilicon"@]
    } else {
        seq![os + "-"@ + arch]
    }
}

pub fn detect_platform_keywords(os: &str, arch: &str) -> (r: Vec<String>)
    ensures
        r.deep_view() == platform_keys_of(os@, arch@),
        r@.len() > 0,
{
    let mut r: Vec<String> = Vec::new();
    if str_eq(os, "windows") && str_eq(arch, "x86_64") {
        r.push(lit_string("Windows-x64"));
    } else if str_eq(os, "windows") && str_eq(arch, "aarch64") {
        r.push(lit_string("Windows-arm64"));
        r.push(lit_string("Windows-aarch64"));
    } else if str_eq(os, "linux") && str_eq(arch, "x86_64") {
        r.push(lit_string("Linux-x64"));
    } else if str_eq(os, "linux") && str_eq(arch, "aarch64") {
        r.push(lit_string("Linux-arm64"));
    } else if str_eq(os, "macos") && str_eq(arch, "x86_64") {
        r.push(lit_string("macOS-x64"));
        r.push(lit_string("macOS-Intel"));
    } else if str_eq(os, "macos") && str_eq(arch, "aarch64") {
        r.push(lit_string("macOS-arm64"));
        r.push(lit_string("macOS-AppleSilicon"));
    } else {
        let mut v = chars_of(os);
        extend_str(&mut v, "-");
        extend_str(&mut v, arch);
        r.push(string_of(&v));
    }
    assert(r.deep_view() =~= platform_keys_of(os@, arch@));
    r
}

// ------------------------------------------------------------------
// Digests
// ------------------------------------------------------------------
/// The characters after the last `:` (all of `s` without one).
pub open spec fn after_last_colon(s: Seq<char>) -> Seq<char>
    decreases s.len(),
{
    if s.len() == 0 {
        s
    } else if s.last() == ':' {
        Seq::empty()
    } else {
        after_last_colon(s.drop_last()).push(s.last())
    }
}

pub open spec fn is_hex_char(c: char) -> bool {
    ('0' <= c && c <= '9') || ('a' <= c && c <= 'f') || ('A' <= c && c <= 'F')
}

/// The SHA-256 in a published digest such as `sha256:<hex>`: the part after
/// the last colon, trimmed, kept only when it is 64 hex digits.
pub open spec fn digest_sha256(digest: Option<Seq<char>>) -> Option<Seq<char>> {
    match digest {
        Some(d) => {
            let h = trim(after_last_colon(d));
            if h.len() == 64 && (forall|i: int| 0 <= i < h.len() ==> is_hex_char(#[trigger] h[i])) {
                Some(h)
            } else {
                None
            }
        },
        None => None,
    }
}

fn after_last_colon_exec(s: &[char]) -> (r: Vec<char>)
    ensures
        r@ == after_last_colon(s@),
{
    let mut i: usize = s.len();
    assert(s@.take(s@.len() as int) =~= s@);
    assert(s@.skip(s@.len() as int) =~= Seq::<char>::empty());
    while i > 0 && s[i - 1] != ':'
        invariant
            i <= s@.len(),
            after_last_colon(s@) == after_last_colon(s@.take(i as int)) + s@.skip(i as int),
        decreases i,
    {
        let ghost t = s@.take(i as int);
        assert(t.drop_last() =~= s@.take(i - 1));
        assert(s@.skip(i - 1) =~= seq![s@[i - 1]] + s@.skip(i as int));
        assert(after_last_colon(t) == after_last_colon(s@.take(i - 1)).push(s@[i - 1]));
        assert(after_last_colon(s@.take(i - 1)).push(s@[i - 1]) + s@.skip(i as int)
            =~= after_last_colon(s@.take(i - 1)) + s@.skip(i - 1));
        i = i - 1;
    }
    proof {
        if i == 0 {
            assert(s@.take(0) =~= Seq::<char>::empty());
        } else {
            assert(s@.take(i as int).last() == ':');
        }
        assert(s@.take(s@.len() as int) =~= s@);
    }
    assert(after_last_colon(s@) =~= s@.subrange(i as int, s@.len() as int));
    slice_vec(s, i, s.len())
}

fn is_hex_digit(c: char) -> (r: bool)
    ensures
        r == is_hex_char(c),
{
    ('0' <= c && c <= '9') || ('a' <= c && c <= 'f') || ('A' <= c && c <= 'F')
}

pub fn digest_to_sha256(digest: Option<&str>) -> (r: Option<String>)
    ensures
        match r {
            Some(h) => digest_sha256(match digest {
                Some(d) => Some(d@),
                None => None,
            }) == Some(h@),
            None => digest_sha256(match digest {
                Some(d) => Some(d@),
                None => None,
            }) is None,
        },
{
    match digest {
        Some(d) => {
            let dv = chars_of(d);
            let h = trim_chars(&after_last_colon_exec(&dv));
            if h.len() != 64 {
                return None;
            }
            let mut i: usize = 0;
            while i < h.len()
                invariant
                    i <= h@.len(),
                    h@ == trim(after_last_colon(d@)),
                    h@.len() == 64,
                    digest == Some(d),
                    forall|k: int| 0 <= k < i ==> is_hex_char(#[trigger] h@[k]),
                decreases h@.len() - i,
            {
                if !is_hex_digit(h[i]) {
                    assert(!is_hex_char(h@[i as int]));
                    return None;
                }
                i = i + 1;
            }
            Some(string_of(&h))
        },
        None => None,
    }
}

/// Two hashes agree, surrounding whitespace and ASCII case aside.
pub open spec fn hashes_equal(a: Seq<char>, b: Seq<char>) -> bool {
    lower_ascii_seq(trim(a)) == lower_ascii_seq(trim(b))
}

pub fn eq_hash(a: &str, b: &str) -> (r: bool)
    ensures
        r == hashes_equal(a@, b@),
{
    let av = chars_of(a);
    let bv = chars_of(b);
    let la = lower_ascii_chars(&trim_chars(&av));
    let lb = lower_ascii_chars(&trim_chars(&bv));
    chars_eq(&la, &lb)
}

// ------------------------------------------------------------------
// Releases
// ------------------------------------------------------------------
/// One downloadable file of a release, as the release API lists it.
pub struct ReleaseAsset {
    pub name: String,
    pub size: Option<u64>,
    pub browser_download_url: String,
    pub digest: Option<String>,
}

/// The latest release, as the release API describes it.
pub struct ReleaseInfo {
    pub name: Option<String>,
    pub tag_name: Option<String>,
    pub assets: Vec<ReleaseAsset>,
}

/// The release that an update would install.
pub struct UpdateInfo {
    pub tag_name: String,
    pub release_name: String,
    pub asset_name: String,
    pub size: u64,
}

/// The asset chosen for this platform, with where to fetch it and the hash
/// to check it against.
pub struct MatchedAsset {
    pub info: UpdateInfo,
    pub download_urls: Vec<String>,
    pub sha256: Option<String>,
}

/// What an update attempt came to.
#[derive(Debug, Clone, Copy, PartialEq, Eq, Structural)]
pub enum UpdateOutcome {
    UpToDate,
    Skipped,
    UpdateLaunched,
}

pub struct AssetView {
    pub name: Seq<char>,
    pub size: Option<u64>,
    pub url: Seq<char>,
    pub digest: Option<Seq<char>>,
}

pub open spec fn opt_seq(o: Option<String>) -> Option<Seq<char>> {
    match o {
        Some(s) => Some(s@),
        None => None,
    }
}

pub open spec fn or_empty(o: Option<String>) -> Seq<char> {
    match o {
        Some(s) => s@,
        None => Seq::empty(),
    }
}

impl View for ReleaseAsset {
    type V = AssetView;

    open spec fn view(&self) -> AssetView {
        AssetView {
            name: self.name@,
            size: self.size,
            url: self.browser_download_url@,
            digest: opt_seq(self.digest),
        }
    }
}

/// The asset name holds one of the platform words.
pub open spec fn names_platform(name: Seq<char>, keys: Seq<Seq<char>>) -> bool {
    exists|k: int| 0 <= k < keys.len() && contains_seq(name, #[trigger] keys[k])
}

/// The first asset that names the platform.
pub open spec fn first_platform_asset(assets: Seq<AssetView>, keys: Seq<Seq<char>>) -> Option<int>
    decreases assets.len(),
{
    if assets.len() == 0 {
        None
    } else if names_platform(assets[0].name, keys) {
        Some(0)
    } else {
        match first_platform_asset(assets.drop_first(), keys) {
            Some(k) => Some(k + 1),
            None => None,
        }
    }
}

pub open spec fn missing_tag_message() -> Seq<char> {
    "latest release missing tag_name"@
}

pub open spec fn no_asset_message(keys: Seq<Seq<char>>) -> Seq<char> {
    "no matching release asset for platform keys: "@ + join(keys, ", "@)
}

/// `m` is the match built from `asset` of a release with this tag and name.
pub open spec fn matched_from(
    m: MatchedAsset,
    tag: Seq<char>,
    release_name: Seq<char>,
    asset: AssetView,
    cdn_disabled: bool,
) -> bool {
    &&& m.info.tag_name@ == tag
    &&& m.info.release_name@ == release_name
    &&& m.info.asset_name@ == asset.name
    &&& m.info.size == match asset.size {
        Some(n) => n,
        None => 0,
    }
    &&& m.download_urls.deep_view() == download_urls_of(asset.url, cdn_disabled)
    &&& opt_seq(m.sha256) == digest_sha256(asset.digest)
}

fn names_platform_exec(name: &str, keys: &Vec<String>) -> (r: bool)
    ensures
        r == names_platform(name@, keys.deep_view()),
{
    let n = chars_of(name);
    let mut i: usize = 0;
    while i < keys.len()
        invariant
            i <= keys@.len(),
            n@ == name@,
            forall|k: int| 0 <= k < i ==> !contains_seq(name@, #[trigger] keys.deep_view()[k]),
        decreases keys@.len() - i,
    {
        let kv = chars_of(keys[i].as_str());
        if contains_chars(&n, &kv) {
            assert(keys.deep_view()[i as int] == kv@);
            return true;
        }
        assert(keys.deep_view()[i as int] == kv@);
        i = i + 1;
    }
    false
}

proof fn lemma_first_platform_asset(assets: Seq<AssetView>, keys: Seq<Seq<char>>, i: int)
    requires
        0 <= i <= assets.len(),
        forall|j: int| 0 <= j < i ==> !names_platform(#[trigger] assets[j].name, keys),
        i == assets.len() || names_platform(assets[i].name, keys),
    ensures
        first_platform_asset(assets, keys) == if i == assets.len() {
            None::<int>
        } else {
            Some(i)
        },
    decreases i,
{
    if i > 0 {
        assert forall|j: int| 0 <= j < i - 1 implies !names_platform(
            #[trigger] assets.drop_first()[j].name,
            keys,
        ) by {
            assert(assets.drop_first()[j] == assets[j + 1]);
        }
        if i < assets.len() {
            assert(assets.drop_first()[i - 1] == assets[i]);
        }
        lemma_first_platform_asset(assets.drop_first(), keys, i - 1);
    }
}

fn copy_opt(o: &Option<String>) -> (r: String)
    ensures
        r@ == or_empty(*o),
{
    match o {
        Some(s) => s.clone(),
        None => String::new(),
    }
}

pub(crate) fn join_strings(keys: &Vec<String>, sep: &str) -> (r: Vec<char>)
    ensures
        r@ == join(keys.deep_view(), sep@),
{
    let mut pieces: Vec<Vec<char>> = Vec::new();
    let mut i: usize = 0;
    while i < keys.len()
        invariant
            i <= keys@.len(),
            pieces.deep_view() == keys.deep_view().take(i as int),
        decreases keys@.len() - i,
    {
        let ghost before = pieces.deep_view();
        let v = chars_of(keys[i].as_str());
        crate::text::push_line(&mut pieces, v);
        assert(pieces.deep_view() =~= keys.deep_view().take(i + 1));
        i = i + 1;
    }
    assert(keys.deep_view().take(keys@.len() as int) =~= keys.deep_view());
    let sv = chars_of(sep);
    join_chars(&pieces, &sv)
}

/// Picks the first asset of the latest release whose name holds one of
/// the platform words.
pub fn get_latest_release_asset(
    latest: &ReleaseInfo,
    platform_keys: &Vec<String>,
    cdn_disabled: bool,
) -> (r: Result<MatchedAsset, String>)
    ensures
        or_empty(latest.tag_name).len() == 0 ==> (r matches Err(e) && e@ == missing_tag_message()),
        or_empty(latest.tag_name).len() > 0 ==> match first_platform_asset(
            latest.assets@.map_values(|a: ReleaseAsset| a@),
            platform_keys.deep_view(),
        ) {
            Some(k) => (r matches Ok(m) && matched_from(
                m,
                or_empty(latest.tag_name),
                or_empty(latest.name),
                latest.assets@[k]@,
                cdn_disabled,
            )),
            None => (r matches Err(e) && e@ == no_asset_message(platform_keys.deep_view())),
        },
{
    let release_name = copy_opt(&latest.name);
    let tag_name = copy_opt(&latest.tag_name);
    let tag_chars = chars_of(tag_name.as_str());
    if tag_chars.len() == 0 {
        return Err(lit_string("latest release missing tag_name"));
    }
    let ghost assets = latest.assets@.map_values(|a: ReleaseAsset| a@);
    let mut i: usize = 0;
    while i < latest.assets.len()
        invariant
            i <= latest.assets@.len(),
            assets == latest.assets@.map_values(|a: ReleaseAsset| a@),
            tag_name@ == or_empty(latest.tag_name),
            release_name@ == or_empty(latest.name),
            tag_name@.len() > 0,
            forall|j: int| 0 <= j < i ==> !names_platform(#[trigger] assets[j].name, platform_keys.deep_view()),
        decreases latest.assets@.len() - i,
    {
        let asset = &latest.assets[i];
        if names_platform_exec(asset.name.as_str(), platform_keys) {
            proof {
                lemma_first_platform_asset(assets, platform_keys.deep_view(), i as int);
            }
            let sha = match &asset.digest {
                Some(d) => digest_to_sha256(Some(d.as_str())),
                None => digest_to_sha256(None),
            };
            let m = MatchedAsset {
                info: UpdateInfo {
                    tag_name,
                    release_name,
                    asset_name: asset.name.clone(),
                    size: match asset.size {
                        Some(n) => n,
                        None => 0,
                    },
                },
                download_urls: build_download_urls(asset.browser_download_url.as_str(), cdn_disabled),
                sha256: sha,
            };
            return Ok(m);
        }
        i = i + 1;
    }
    proof {
        lemma_first_platform_asset(assets, platform_keys.deep_view(), i as int);
    }
    let mut msg = chars_of("no matching release asset for platform keys: ");
    let joined = join_strings(platform_keys, ", ");
    extend_chars(&mut msg, &joined);
    Err(string_of(&msg))
}

/// The release info of the match, when the latest release is newer than
/// this build (its tag differs); `None` when this build is current.
pub fn check_latest_version(
    latest: &ReleaseInfo,
    platform_keys: &Vec<String>,
    cdn_disabled: bool,
) -> (r: Result<Option<UpdateInfo>, String>)
    ensures
        or_empty(latest.tag_name).len() == 0 ==> (r matches Err(e) && e@ == missing_tag_message()),
        or_empty(latest.tag_name).len() > 0 ==> match first_platform_asset(
            latest.assets@.map_values(|a: ReleaseAsset| a@),
            platform_keys.deep_view(),
        ) {
            Some(k) => if or_empty(latest.tag_name) != current_tag_of() {
                r matches Ok(Some(info)) && {
                    &&& info.tag_name@ == or_empty(latest.tag_name)
                    &&& info.release_name@ == or_empty(latest.name)
                    &&& info.asset_name@ == latest.assets@[k]@.name
                    &&& info.size == match latest.assets@[k]@.size {
                        Some(n) => n,
                        None => 0,
                    }
                }
            } else {
                r matches Ok(None)
            },
            None => (r matches Err(e) && e@ == no_asset_message(platform_keys.deep_view())),
        },
{
    match get_latest_release_asset(latest, platform_keys, cdn_disabled) {
        Ok(m) => {
            let current = current_tag();
            if !str_eq(m.info.tag_name.as_str(), current.as_str()) {
                Ok(Some(m.info))
            } else {
                Ok(None)
            }
        },
        Err(e) => Err(e),
    }
}

/// The installed executable must be hashed before deciding: the latest
/// release is this build's and publishes a hash.
pub open spec fn needs_hash_check(m: MatchedAsset) -> bool {
    m.info.tag_name@ == current_tag_of() && m.sha256 is Some
}

/// The hash the installed executable is compared with, when a comparison
/// is due.
pub fn hash_to_verify(matched: &MatchedAsset) -> (r: Option<String>)
    ensures
        needs_hash_check(*matched) ==> opt_seq(r) == opt_seq(matched.sha256),
        !needs_hash_check(*matched) ==> r is None,
{
    let current = current_tag();
    if str_eq(matched.info.tag_name.as_str(), current.as_str()) {
        match &matched.sha256 {
            Some(h) => Some(h.clone()),
            None => None,
        }
    } else {
        None
    }
}

pub open spec fn update_outcome(m: MatchedAsset, installed_sha256: Option<Seq<char>>) -> UpdateOutcome {
    if m.info.tag_name@ != current_tag_of() {
        UpdateOutcome::UpdateLaunched
    } else {
        match (m.sha256, installed_sha256) {
            (Some(expected), Some(actual)) => if hashes_equal(actual, expected@) {
                UpdateOutcome::UpToDate
            } else {
                UpdateOutcome::UpdateLaunched
            },
            _ => UpdateOutcome::UpToDate,
        }
    }
}

/// Whether to install the matched asset: a newer release is installed, and
/// so is this build's release when the installed executable's hash differs
/// from the published one.  `installed_sha256` is the hash of the running
/// executable, which is needed whenever `hash_to_verify` asks for it.
pub fn perform_update(matched: &MatchedAsset, installed_sha256: Option<&str>) -> (r: UpdateOutcome)
    requires
        needs_hash_check(*matched) ==> installed_sha256 is Some,
    ensures
        r == update_outcome(*matched, match installed_sha256 {
            Some(h) => Some(h@),
            None => None,
        }),
{
    let current = current_tag();
    if !str_eq(matched.info.tag_name.as_str(), current.as_str()) {
        return UpdateOutcome::UpdateLaunched;
    }
    match (&matched.sha256, installed_sha256) {
        (Some(expected), Some(actual)) => if eq_hash(actual, expected.as_str()) {
            UpdateOutcome::UpToDate
        } else {
            UpdateOutcome::UpdateLaunched
        },
        _ => UpdateOutcome::UpToDate,
    }
}

/// Builds that run from a cargo target directory (or under cargo) are
/// development builds, which never update themselves.
pub open spec fn dev_build(cargo_env_set: bool, exe_path: Option<Seq<char>>) -> bool {
    cargo_env_set || match exe_path {
        Some(p) => {
            let l = lower_ascii_seq(p);
            ||| contains_seq(l, "\\target\\debug\\"@)
            ||| contains_seq(l, "/target/debug/"@)
            ||| contains_seq(l, "\\target\\release\\"@)
            ||| contains_seq(l, "/target/release/"@)
        },
        None => false,
    }
}

pub fn is_dev_build(cargo_env_set: bool, exe_path: Option<&str>) -> (r: bool)
    ensures
        r == dev_build(cargo_env_set, match exe_path {
            Some(p) => Some(p@),
            None => None,
        }),
{
    if cargo_env_set {
        return true;
    }
    match exe_path {
        Some(p) => {
            let pv = chars_of(p);
            let l = lower_ascii_chars(&pv);
            crate::text::contains_str(&l, "\\target\\debug\\") || crate::text::contains_str(
                &l,
                "/target/debug/",
            ) || crate::text::contains_str(&l, "\\target\\release\\")
                || crate::text::contains_str(&l, "/target/release/")
        },
        None => false,
    }
}

/// The first step of an update: a development build is skipped before any
/// release is looked up (`Some(Skipped)`); any other build goes on to the
/// release lookup and then [`perform_update`] (`None`).
pub fn update_precheck(cargo_env_set: bool, exe_path: Option<&str>) -> (r: Option<UpdateOutcome>)
    ensures
        dev_build(cargo_env_set, match exe_path {
            Some(p) => Some(p@),
            None => None,
        }) ==> r == Some(UpdateOutcome::Skipped),
        !dev_build(cargo_env_set, match exe_path {
            Some(p) => Some(p@),
            None => None,
        }) ==> r is None,
{
    if is_dev_build(cargo_env_set, exe_path) {
        Some(UpdateOutcome::Skipped)
    } else {
        None
    }
}

/// A file in an update archive is the executable: its name is the expected
/// one or `ShuaForge`, ignoring ASCII case.
pub open spec fn is_executable_name(name: Seq<char>, expected: Seq<char>) -> bool {
    lower_ascii_seq(name) == lower_ascii_seq(expected) || lower_ascii_seq(name)
        == lower_ascii_seq("ShuaForge"@)
}

pub fn is_executable_entry(name: &str, expected: &str) -> (r: bool)
    ensures
        r == is_executable_name(name@, expected@),
{
    let n = lower_ascii_chars(&chars_of(name));
    let e = lower_ascii_chars(&chars_of(expected));
    let s = lower_ascii_chars(&chars_of("ShuaForge"));
    chars_eq(&n, &e) || chars_eq(&n, &s)
}

/// The release's own asset URL is always tried, and tried last; the mirror,
/// when used, is tried first.
pub proof fn law_download_falls_back_to_release_url(url: Seq<char>, cdn_disabled: bool)
    ensures
        download_urls_of(url, cdn_disabled).len() >= 1,
        download_urls_of(url, cdn_disabled).last() == url,
        !cdn_disabled && accelerated_url(url) != url ==> download_urls_of(url, cdn_disabled)[0]
            == accelerated_url(url),
        cdn_disabled ==> download_urls_of(url, cdn_disabled) == seq![url],
{
}

/// An update is launched exactly when the latest release differs from this
/// build, or is this build's release with a published hash that the
/// installed executable does not match.
pub proof fn law_update_launch_condition(m: MatchedAsset, installed: Option<Seq<char>>)
    requires
        needs_hash_check(m) ==> installed is Some,
    ensures
        (update_outcome(m, installed) == UpdateOutcome::UpdateLaunched) <==> (m.info.tag_name@
            != current_tag_of() || (m.sha256 is Some && !hashes_equal(
            installed->0,
            m.sha256->0@,
        ))),
        update_outcome(m, installed) != UpdateOutcome::Skipped,
{
}

/// The hash of downloaded (or installed) bytes, as compared with a
/// published one.
pub fn file_sha256(data: &[u8]) -> (r: String)
    ensures
        r@ == crate::codec::hex_lower(crate::codec::sha256_digest(data@)),
{
    crate::codec::sha256_hex(data)
}

/// A download is accepted when no hash is published or its SHA-256
/// matches the published one; otherwise the error names both.
pub fn verify_download(data: &[u8], expected: Option<&str>) -> (r: Result<(), String>)
    ensures
        match expected {
            None => r is Ok,
            Some(e) => {
                let actual = crate::codec::hex_lower(crate::codec::sha256_digest(data@));
                if hashes_equal(actual, e@) {
                    r is Ok
                } else {
                    r matches Err(m) && m@ == "SHA256 mismatch: expected "@ + e@ + ", got "@ + actual
                }
            },
        },
{
    match expected {
        None => Ok(()),
        Some(e) => {
            let actual = crate::codec::sha256_hex(data);
            if eq_hash(actual.as_str(), e) {
                Ok(())
            } else {
                let mut m = chars_of("SHA256 mismatch: expected ");
                extend_str(&mut m, e);
                extend_str(&mut m, ", got ");
                extend_str(&mut m, actual.as_str());
                Err(string_of(&m))
            }
        },
    }
}

} // verus!
