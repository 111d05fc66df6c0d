//! Choosing a sing-box release to install: asset names, digests, mirrors
//! and version comparison.

use vstd::prelude::*;
use vstd::string::*;

use crate::error::{AppError, ErrorView};
use crate::parser::vless::{nonempty, strip_leading, strip_trailing, strip_trailing_exec};
use crate::singbox::version::{compatible_spec, is_version_compatible};
use crate::text::{
    chars_of, copy_range, ends_with, ends_with_str, eq_str, lower_chars, lower_seq, push_all,
    push_str, seq_views, split_char, split_chars, starts_with, starts_with_str, string_of, trim,
    trim_chars,
};

verus! {

/// A resolved release: what to download and how to check it.
#[derive(Debug, Clone)]
pub struct ReleaseInfo {
    /// X.Y.Z, no leading `v`.
    pub version: String,
    /// The download URL, without any mirror prefix.
    pub url: String,
    pub size: u64,
    /// Lower-case hex SHA-256, when the release lists a digest.
    pub sha256: Option<String>,
}

/// A GitHub release as the API lists it (the fields read here).
pub struct GhRelease {
    pub assets: Vec<GhAsset>,
}

/// One downloadable file of a release.
pub struct GhAsset {
    pub name: String,
    pub browser_download_url: String,
    pub size: u64,
    pub digest: Option<String>,
}

pub open spec fn is_ascii_digit(c: char) -> bool {
    '0' <= c && c <= '9'
}

pub open spec fn all_ascii_digits(s: Seq<char>) -> bool {
    forall|i: int| 0 <= i < s.len() ==> is_ascii_digit(#[trigger] s[i])
}

/// `sing-box-X.Y.Z-windows-amd64.zip`: `X.Y.Z`, three non-empty runs of
/// digits; any other name (legacy builds, other platforms) gives nothing.
pub open spec fn asset_version_spec(name: Seq<char>) -> Option<Seq<char>> {
    if starts_with(name, "sing-box-"@) && name.len() >= 9 + 18 && ends_with(
        name,
        "-windows-amd64.zip"@,
    ) {
        let v = name.subrange(9, name.len() - 18);
        let parts = split_char(v, '.');
        if parts.len() == 3 && (forall|k: int|
            0 <= k < 3 ==> (#[trigger] parts[k]).len() > 0 && all_ascii_digits(parts[k])) {
            Some(v)
        } else {
            None
        }
    } else {
        None
    }
}

fn digits_exec(s: &[char]) -> (r: bool)
    ensures
        r == (s@.len() > 0 && all_ascii_digits(s@)),
{
    if s.len() == 0 {
        return false;
    }
    let mut i: usize = 0;
    while i < s.len()
        invariant
            i <= s@.len(),
            forall|j: int| 0 <= j < i ==> is_ascii_digit(#[trigger] s@[j]),
        decreases s.len() - i,
    {
        if !('0' <= s[i] && s[i] <= '9') {
            return false;
        }
        i += 1;
    }
    true
}

/// The version in a Windows amd64 release asset's name.
pub fn asset_version(name: &str) -> (r: Option<String>)
    ensures
        crate::url_text::opt_text(r) == asset_version_spec(name@),
{
    let n = chars_of(name);
    proof {
        reveal_strlit("sing-box-");
        reveal_strlit("-windows-amd64.zip");
    }
    if !(starts_with_str(&n, "sing-box-") && n.len() >= 27 && ends_with_str(&n, "-windows-amd64.zip")) {
        return None;
    }
    let v = copy_range(&n, 9, n.len() - 18);
    let parts = split_chars(&v, '.');
    let ghost pv = seq_views(parts@);
    if parts.len() != 3 {
        return None;
    }
    let ok0 = digits_exec(&parts[0]);
    let ok1 = digits_exec(&parts[1]);
    let ok2 = digits_exec(&parts[2]);
    assert(pv[0] == parts@[0]@ && pv[1] == parts@[1]@ && pv[2] == parts@[2]@);
    if ok0 && ok1 && ok2 {
        assert(forall|k: int| 0 <= k < 3 ==> (#[trigger] pv[k]).len() > 0 && all_ascii_digits(pv[k])) by {
            assert forall|k: int| 0 <= k < 3 implies (#[trigger] pv[k]).len() > 0 && all_ascii_digits(pv[k]) by {
                if k == 0 {
                } else if k == 1 {
                } else {
                }
            }
        }
        Some(string_of(&v))
    } else {
        assert(!(pv[0].len() > 0 && all_ascii_digits(pv[0])) || !(pv[1].len() > 0 && all_ascii_digits(pv[1]))
            || !(pv[2].len() > 0 && all_ascii_digits(pv[2])));
        None
    }
}

pub open spec fn is_hex_digit(c: char) -> bool {
    ('0' <= c && c <= '9') || ('a' <= c && c <= 'f') || ('A' <= c && c <= 'F')
}

/// `sha256:HEX` with exactly 64 hex digits (after trimming): the digits in
/// lower case.
pub open spec fn digest_spec(digest: Seq<char>) -> Option<Seq<char>> {
    if starts_with(digest, "sha256:"@) {
        let hex = trim(digest.subrange(7, digest.len() as int));
        if hex.len() == 64 && (forall|i: int| 0 <= i < 64 ==> is_hex_digit(#[trigger] hex[i])) {
            Some(lower_seq(hex))
        } else {
            None
        }
    } else {
        None
    }
}

/// Reads a GitHub asset digest (`sha256:HEX`) as lower-case hex.
pub fn digest_to_hex(digest: &str) -> (r: Option<String>)
    ensures
        crate::url_text::opt_text(r) == digest_spec(digest@),
{
    let d = chars_of(digest);
    if !starts_with_str(&d, "sha256:") {
        return None;
    }
    proof {
        reveal_strlit("sha256:");
    }
    let hex = trim_chars(&copy_range(&d, 7, d.len()));
    if hex.len() != 64 {
        return None;
    }
    let mut i: usize = 0;
    while i < 64
        invariant
            i <= 64,
            hex@.len() == 64,
            starts_with(digest@, "sha256:"@),
            "sha256:"@.len() == 7,
            hex@ == trim(digest@.subrange(7, digest@.len() as int)),
            forall|j: int| 0 <= j < i ==> is_hex_digit(#[trigger] hex@[j]),
        decreases 64 - i,
    {
        let c = hex[i];
        if !(('0' <= c && c <= '9') || ('a' <= c && c <= 'f') || ('A' <= c && c <= 'F')) {
            assert(!is_hex_digit(hex@[i as int]));
            return None;
        }
        i += 1;
    }
    Some(string_of(&lower_chars(&hex)))
}

/// The URL to fetch through a mirror: the mirror (trimmed, trailing `/`s
/// dropped), `/`, and the full original URL; the URL itself without one.
pub open spec fn mirrored(mirror: Seq<char>, url: Seq<char>) -> Seq<char> {
    let m = strip_trailing(trim(mirror), '/');
    if m.len() == 0 {
        url
    } else {
        m + "/"@ + url
    }
}

/// Prefixes a download URL with a gh-proxy style mirror.
pub fn apply_mirror(mirror: &str, url: &str) -> (r: String)
    ensures
        r@ == mirrored(mirror@, url@),
{
    let m = strip_trailing_exec(&trim_chars(&chars_of(mirror)), '/');
    if m.len() == 0 {
        String::from_str(url)
    } else {
        let mut r = copy_range(&m, 0, m.len());
        push_str(&mut r, "/");
        push_str(&mut r, url);
        string_of(&r)
    }
}

/// Whether `semver::Version::parse` accepts the text.
pub uninterp spec fn semver_valid(text: Seq<char>) -> bool;

/// For two texts that both parse as versions: whether the first is greater
/// in semver precedence (`Version`'s `>`).
pub uninterp spec fn semver_greater(a: Seq<char>, b: Seq<char>) -> bool;

/// Parses both texts with `semver::Version::parse` and compares them with
/// `>`; the contract claims only that the answer is present exactly when
/// both parse (`semver_valid`) and is then `semver_greater`.
#[verifier::external_body]
fn compare_versions(latest: &str, current: &str) -> (r: Option<bool>)
    ensures
        (r is Some) == (semver_valid(latest@) && semver_valid(current@)),
        r matches Some(b) ==> b == semver_greater(latest@, current@),
{
    match (semver::Version::parse(latest), semver::Version::parse(current)) {
        (Ok(l), Ok(c)) => Some(l > c),
        _ => None,
    }
}

/// Whether `latest` is an update over `current`: always without a current
/// version; by semver precedence when both parse; else whenever they
/// differ.
pub open spec fn update_spec(current: Option<Seq<char>>, latest: Seq<char>) -> bool {
    match current {
        None => true,
        Some(c) => if semver_valid(latest) && semver_valid(c) {
            semver_greater(latest, c)
        } else {
            c != latest
        },
    }
}

/// Whether the latest release is an update over the installed version.
pub fn update_available(current: Option<&str>, latest: &str) -> (r: bool)
    ensures
        r == update_spec(crate::subscription::opt_str(current), latest@),
{
    match current {
        None => true,
        Some(c) => match compare_versions(latest, c) {
            Some(b) => b,
            None => !crate::text::seq_eq(&chars_of(c), &chars_of(latest)),
        },
    }
}

/// Whether an archive entry is the core executable (at the top or in any
/// folder).
pub fn is_core_entry(name: &str) -> (r: bool)
    ensures
        r == (name@ == "sing-box.exe"@ || ends_with(name@, "/sing-box.exe"@) || ends_with(
            name@,
            "\\sing-box.exe"@,
        )),
{
    let n = chars_of(name);
    eq_str(&n, "sing-box.exe") || ends_with_str(&n, "/sing-box.exe") || ends_with_str(
        &n,
        "\\sing-box.exe",
    )
}

/// The release tag to ask for: the requested version trimmed, with a `v` in
/// front when it lacks one; nothing when no version (or a blank one) was
/// requested.
pub open spec fn tag_spec(version: Option<Seq<char>>) -> Option<Seq<char>> {
    match version {
        Some(v) => if trim(v).len() == 0 {
            None
        } else if trim(v)[0] == 'v' {
            Some(trim(v))
        } else {
            Some(seq!['v'] + trim(v))
        },
        None => None,
    }
}

/// The release tag for a requested version.
pub fn release_tag(version: Option<&str>) -> (r: Option<String>)
    ensures
        crate::url_text::opt_text(r) == tag_spec(crate::subscription::opt_str(version)),
{
    match version {
        Some(v) => {
            let t = trim_chars(&chars_of(v));
            if t.len() == 0 {
                None
            } else if t[0] == 'v' {
                Some(string_of(&t))
            } else {
                let mut r: Vec<char> = Vec::new();
                r.push('v');
                push_all(&mut r, &t);
                assert(r@ =~= seq!['v'] + t@);
                Some(string_of(&r))
            }
        },
        None => None,
    }
}

/// The first asset of a release whose name is a Windows amd64 archive.
pub open spec fn first_asset(assets: Seq<GhAsset>) -> Option<int>
    decreases assets.len(),
{
    if assets.len() == 0 {
        None
    } else if asset_version_spec(assets[0].name@) is Some {
        Some(0)
    } else {
        match first_asset(assets.drop_first()) {
            Some(i) => Some(i + 1),
            None => None,
        }
    }
}

proof fn lemma_first_asset_bounds(assets: Seq<GhAsset>)
    ensures
        first_asset(assets) matches Some(i) ==> 0 <= i < assets.len() && asset_version_spec(
            assets[i].name@,
        ) is Some,
    decreases assets.len(),
{
    if assets.len() > 0 {
        lemma_first_asset_bounds(assets.drop_first());
    }
}

fn first_asset_exec(assets: &Vec<GhAsset>) -> (r: Option<(usize, String)>)
    ensures
        match r {
            Some((i, v)) => first_asset(assets@) == Some(i as int) && i < assets@.len() && asset_version_spec(
                assets@[i as int].name@,
            ) == Some(v@),
            None => first_asset(assets@) is None,
        },
{
    let mut i: usize = 0;
    assert(assets@.subrange(0, assets@.len() as int) =~= assets@);
    while i < assets.len()
        invariant
            i <= assets@.len(),
            first_asset(assets@) == match first_asset(assets@.subrange(i as int, assets@.len() as int)) {
                Some(k) => Some(k + i),
                None => None,
            },
        decreases assets.len() - i,
    {
        let ghost rest = assets@.subrange(i as int, assets@.len() as int);
        assert(rest.drop_first() =~= assets@.subrange(i + 1, assets@.len() as int));
        assert(rest[0] == assets@[i as int]);
        match asset_version(assets[i].name.as_str()) {
            Some(v) => {
                proof {
                    lemma_first_asset_bounds(assets@);
                }
                return Some((i, v));
            },
            None => {},
        }
        i += 1;
    }
    None
}

/// The release info of an asset with the given version.
pub open spec fn info_matches(info: ReleaseInfo, version: Seq<char>, a: GhAsset) -> bool {
    &&& info.version@ == version
    &&& info.url@ == a.browser_download_url@
    &&& info.size == a.size
    &&& crate::url_text::opt_text(info.sha256) == match a.digest {
        Some(d) => digest_spec(d@),
        None => None,
    }
}

fn info_of(version: String, a: &GhAsset) -> (r: ReleaseInfo)
    ensures
        info_matches(r, version@, *a),
{
    ReleaseInfo {
        version,
        url: a.browser_download_url.clone(),
        size: a.size,
        sha256: match &a.digest {
            Some(d) => digest_to_hex(d.as_str()),
            None => None,
        },
    }
}

/// A requested tag must name a 1.13 release.
pub fn check_tag(tag: &str) -> (r: Result<(), AppError>)
    ensures
        r is Ok <==> compatible_spec(strip_leading(trim(tag@), 'v')),
        r matches Err(e) ==> e@ == ErrorView::Unsupported(
            "version '"@ + tag@ + "' is incompatible with Umbra (requires sing-box 1.13.x)"@,
        ),
{
    let clean = crate::parser::vless::strip_leading_exec(&trim_chars(&chars_of(tag)), 'v');
    if is_version_compatible(string_of(&clean).as_str()) {
        Ok(())
    } else {
        let mut msg = chars_of("version '");
        push_str(&mut msg, tag);
        push_str(&mut msg, "' is incompatible with Umbra (requires sing-box 1.13.x)");
        Err(AppError::Unsupported(string_of(&msg)))
    }
}

/// The release a tag names: its first Windows amd64 asset.
pub fn release_from_tag(release: &GhRelease) -> (r: Result<ReleaseInfo, AppError>)
    ensures
        match first_asset(release.assets@) {
            Some(i) => r matches Ok(info) && info_matches(
                info,
                asset_version_spec(release.assets@[i].name@)->0,
                release.assets@[i],
            ),
            None => r matches Err(e) && e@ == ErrorView::NotFound(
                "windows-amd64 asset in sing-box release"@,
            ),
        },
{
    match first_asset_exec(&release.assets) {
        Some((i, v)) => Ok(info_of(v, &release.assets[i])),
        None => Err(AppError::NotFound(String::from_str("windows-amd64 asset in sing-box release"))),
    }
}

/// Whether a release offers a compatible Windows amd64 asset (its first
/// such asset is a 1.13 one).
pub open spec fn release_usable(r: GhRelease) -> bool {
    match first_asset(r.assets@) {
        Some(i) => compatible_spec(asset_version_spec(r.assets@[i].name@)->0),
        None => false,
    }
}

/// The newest usable release of a list (the API lists newest first): the
/// first release whose first Windows amd64 asset is a 1.13 one.
pub fn latest_compatible(releases: &Vec<GhRelease>) -> (r: Result<ReleaseInfo, AppError>)
    ensures
        match r {
            Ok(info) => exists|k: int|
                0 <= k < releases@.len() && release_usable(#[trigger] releases@[k]) && (forall|j: int|
                    0 <= j < k ==> !release_usable(#[trigger] releases@[j])) && info_matches(
                    info,
                    asset_version_spec(releases@[k].assets@[first_asset(releases@[k].assets@)->0].name@)->0,
                    releases@[k].assets@[first_asset(releases@[k].assets@)->0],
                ),
            Err(e) => (forall|k: int| 0 <= k < releases@.len() ==> !release_usable(
                #[trigger] releases@[k],
            )) && e@ == ErrorView::NotFound("no compatible sing-box 1.13.x release found"@),
        },
{
    let mut k: usize = 0;
    while k < releases.len()
        invariant
            k <= releases@.len(),
            forall|j: int| 0 <= j < k ==> !release_usable(#[trigger] releases@[j]),
        decreases releases.len() - k,
    {
        let rel = &releases[k];
        match first_asset_exec(&rel.assets) {
            Some((i, v)) => {
                if is_version_compatible(v.as_str()) {
                    let info = info_of(v, &rel.assets[i]);
                    assert(release_usable(releases@[k as int]));
                    return Ok(info);
                }
            },
            None => {},
        }
        k += 1;
    }
    Err(AppError::NotFound(String::from_str("no compatible sing-box 1.13.x release found")))
}

/// Bytes between two progress reports while downloading.
pub const PROGRESS_STEP: u64 = 262144;

/// Whether enough has arrived since the last progress report to send one.
pub fn progress_due(downloaded: u64, last_emit: u64) -> (r: bool)
    requires
        last_emit <= downloaded,
    ensures
        r == (downloaded - last_emit >= PROGRESS_STEP),
{
    downloaded - last_emit >= PROGRESS_STEP
}

/// Checks a finished download against the release's published digest:
/// nothing to check without one; otherwise the SHA-256 of the file, as
/// lower-case hex, must equal it.
pub fn verify_digest(expected: Option<&str>, digest: &Vec<u8>) -> (r: Result<(), AppError>)
    ensures
        match expected {
            None => r is Ok,
            Some(e) => if crate::hwid::hex_lower(digest@) == e@ {
                r is Ok
            } else {
                r matches Err(err) && err@ == ErrorView::Internal(
                    "sha256 mismatch for downloaded core (expected "@ + e@ + ", got "@
                        + crate::hwid::hex_lower(digest@) + ")"@,
                )
            },
        },
{
    match expected {
        None => Ok(()),
        Some(e) => {
            let actual = crate::hwid::hex_prefix(digest, digest.len());
            assert(digest@.subrange(0, digest@.len() as int) =~= digest@);
            if crate::text::seq_eq(&actual, &chars_of(e)) {
                Ok(())
            } else {
                let mut msg: Vec<char> = Vec::new();
                push_str(&mut msg, "sha256 mismatch for downloaded core (expected ");
                push_str(&mut msg, e);
                push_str(&mut msg, ", got ");
                push_all(&mut msg, &actual);
                push_str(&mut msg, ")");
                Err(AppError::Internal(string_of(&msg)))
            }
        },
    }
}

/// Checks downloaded bytes against the release's published digest (see
/// `verify_digest`), hashing them with SHA-256.
pub fn check_download(expected: Option<&str>, bytes: &[u8]) -> (r: Result<(), AppError>)
    ensures
        match expected {
            None => r is Ok,
            Some(e) => if crate::hwid::hex_lower(crate::hwid::sha256_digest(bytes@)) == e@ {
                r is Ok
            } else {
                r matches Err(err) && err@ == ErrorView::Internal(
                    "sha256 mismatch for downloaded core (expected "@ + e@ + ", got "@
                        + crate::hwid::hex_lower(crate::hwid::sha256_digest(bytes@)) + ")"@,
                )
            },
        },
{
    match expected {
        None => Ok(()),
        Some(_) => {
            let digest = crate::hwid::sha256(bytes);
            verify_digest(expected, &digest)
        },
    }
}

} // verus!
