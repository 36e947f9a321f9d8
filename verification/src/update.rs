//! The update checker's decision core. Fetching the release feed is the
//! caller's work; given the release's plain fields and the verdict of the
//! version comparison, the functions here decide the outcome and shape the
//! result record the host receives.
use vstd::prelude::*;
use vstd::string::StrSliceExecFns;
use vstd::string::StringExecFns;

use crate::textutil::ascii_lower_chars;
use crate::textutil::push_char;
use crate::textutil::to_ascii_lowercase;
use crate::textutil::trim_string;
use crate::textutil::trim_string_spec;

verus! {

/// How an update check ended, as the host sees it.
#[derive(Clone, Copy, Debug, PartialEq, Eq, Structural)]
pub enum UpdateStatus {
    Available,
    UpToDate,
    HttpError,
    NetworkError,
    InvalidResponse,
    NoDownload,
    InvalidInput,
    InternalError,
}

/// The record an update check hands the host.
#[derive(Debug, Clone)]
pub struct UpdateResult {
    pub status: UpdateStatus,
    pub http_status: i32,
    pub latest_version: String,
    pub download_url: String,
    pub release_notes: String,
    pub error_message: String,
}

/// One downloadable asset of a release.
#[derive(Debug, Clone)]
pub struct ReleaseAsset {
    pub name: String,
    pub browser_download_url: String,
}

/// How an update check can turn out before it is shaped for the host.
#[derive(Debug)]
pub enum UpdateOutcome {
    Available { latest_version: String, release_notes: String, download_url: String },
    UpToDate { latest_version: String },
    HttpError { status: i32 },
    NetworkError { message: String },
    InvalidResponse { message: String },
    NoDownload { message: String },
    InvalidInput { message: String },
}

/// The asset name an update prefers: the installer image or the archive.
pub open spec fn preferred_asset_name(is_installer: bool) -> Seq<char> {
    if is_installer {
        "paperback_setup.exe"@
    } else {
        "paperback.zip"@
    }
}

/// The first index at or after `i` of an asset whose name matches
/// `target` ASCII-case-insensitively, or the asset count.
pub open spec fn asset_index(assets: Seq<ReleaseAsset>, target: Seq<char>, i: int) -> int
    decreases assets.len() - i,
{
    if i < 0 || i >= assets.len() {
        assets.len() as int
    } else if ascii_lower_chars(assets[i].name@) == ascii_lower_chars(target) {
        i
    } else {
        asset_index(assets, target, i + 1)
    }
}

/// Picks the download address of the first asset whose name matches the
/// preferred one, case-insensitively.
pub fn pick_download_url(is_installer: bool, assets: &Vec<ReleaseAsset>) -> (r: Option<String>)
    ensures
        ({
            let k = asset_index(assets@, preferred_asset_name(is_installer), 0);
            match r {
                Some(url) => k < assets@.len() && url@ == assets@[k].browser_download_url@,
                None => k == assets@.len(),
            }
        }),
{
    let preferred: &str = if is_installer {
        "paperback_setup.exe"
    } else {
        "paperback.zip"
    };
    let preferred_lower = to_ascii_lowercase(preferred);
    let ghost target = preferred_asset_name(is_installer);
    let n = assets.len();
    let mut i: usize = 0;
    while i < n
        invariant
            n == assets@.len(),
            i <= n,
            preferred_lower@ == ascii_lower_chars(target),
            target == preferred_asset_name(is_installer),
            asset_index(assets@, target, 0) == asset_index(assets@, target, i as int),
        decreases n - i,
    {
        let lower_name = to_ascii_lowercase(assets[i].name.as_str());
        if lower_name.eq(&preferred_lower) {
            proof {
                assert(asset_index(assets@, target, i as int) == i);
            }
            return Some(assets[i].browser_download_url.clone());
        }
        i = i + 1;
    }
    None
}

/// A version string pared down for parsing: whitespace trimmed, then any
/// leading `v` or `V` dropped.
pub open spec fn normalized_version_spec(s: Seq<char>) -> Seq<char> {
    skip_version_prefix(trim_string_spec(s))
}

pub open spec fn skip_version_prefix(s: Seq<char>) -> Seq<char>
    decreases s.len(),
{
    if s.len() > 0 && (s[0] == 'v' || s[0] == 'V') {
        skip_version_prefix(s.subrange(1, s.len() as int))
    } else {
        s
    }
}

/// Trims a version string and strips its leading `v` marks.
pub fn normalize_version_string(value: &str) -> (r: String)
    ensures
        r@ == normalized_version_spec(value@),
{
    let trimmed = trim_string(value);
    let t = trimmed.as_str();
    let n: usize = t.unicode_len();
    proof {
        assert(t@.subrange(0, n as int) =~= t@);
    }
    let mut i: usize = 0;
    while i < n && (t.get_char(i) == 'v' || t.get_char(i) == 'V')
        invariant
            n == t@.len(),
            i <= n,
            skip_version_prefix(t@) == skip_version_prefix(t@.subrange(i as int, n as int)),
        decreases n - i,
    {
        proof {
            let cur = t@.subrange(i as int, n as int);
            assert(cur[0] == t@[i as int]);
            assert(cur.subrange(1, cur.len() as int) =~= t@.subrange(i + 1, n as int));
        }
        i = i + 1;
    }
    proof {
        let cur = t@.subrange(i as int, n as int);
        if i < n {
            assert(cur[0] == t@[i as int]);
        }
        assert(skip_version_prefix(cur) == cur);
        assert(t@.subrange(0, n as int) =~= t@);
    }
    String::from_str(t.substring_char(i, n))
}

/// Names whether a string parses as a semantic version, as
/// `semver::Version::parse` decides it.
pub uninterp spec fn semver_valid(s: Seq<char>) -> bool;

/// Relies on `semver::Version::parse`: succeeds exactly on a valid
/// semantic version.
#[verifier::external_body]
fn semver_is_valid(s: &str) -> (r: bool)
    ensures
        r == semver_valid(s@),
{
    semver::Version::parse(s).is_ok()
}

/// Names whether the first version string is at least the second under the
/// semantic-version order; the order is a function of the two strings
/// alone.
pub uninterp spec fn semver_ge_of(a: Seq<char>, b: Seq<char>) -> bool;

/// Relies on `semver::Version::parse` and `Version`'s ordering: compares
/// two version strings, succeeding exactly when both parse.
#[verifier::external_body]
fn semver_ge(current: &str, latest: &str) -> (r: Option<bool>)
    ensures
        r is Some <==> (semver_valid(current@) && semver_valid(latest@)),
        r matches Some(b) ==> b == semver_ge_of(current@, latest@),
{
    match (semver::Version::parse(current), semver::Version::parse(latest)) {
        (Ok(a), Ok(b)) => Some(a >= b),
        _ => None,
    }
}

/// The verdict of comparing the running version against the latest one.
#[derive(Clone, Copy, Debug, PartialEq, Eq, Structural)]
pub enum VersionCheck {
    /// The running version is not a semantic version.
    CurrentInvalid,
    /// The latest release's tag holds no semantic version.
    LatestInvalid,
    /// The running version is at least the latest.
    UpToDate,
    /// The latest version is newer.
    Outdated,
}

/// Parses both versions, after normalization, and compares them. The
/// verdicts that reject a side come exactly from that side failing to
/// parse; between the remaining two, the semantic-version order of the
/// normalized strings decides.
pub fn check_versions(current_version: &str, latest_tag: &str) -> (r: VersionCheck)
    ensures
        ({
            let cur = normalized_version_spec(current_version@);
            let latest = normalized_version_spec(latest_tag@);
            let cur_ok = cur.len() > 0 && semver_valid(cur);
            let latest_ok = latest.len() > 0 && semver_valid(latest);
            &&& (r == VersionCheck::CurrentInvalid <==> !cur_ok)
            &&& (r == VersionCheck::LatestInvalid <==> (cur_ok && !latest_ok))
            &&& (cur_ok && latest_ok ==> (r == VersionCheck::UpToDate <==> semver_ge_of(
                cur,
                latest,
            )))
            &&& (cur_ok && latest_ok ==> (r == VersionCheck::Outdated <==> !semver_ge_of(
                cur,
                latest,
            )))
        }),
{
    let current_norm = normalize_version_string(current_version);
    if current_norm.as_str().unicode_len() == 0 {
        return VersionCheck::CurrentInvalid;
    }
    if !semver_is_valid(current_norm.as_str()) {
        return VersionCheck::CurrentInvalid;
    }
    let latest_norm = normalize_version_string(latest_tag);
    if latest_norm.as_str().unicode_len() == 0 {
        return VersionCheck::LatestInvalid;
    }
    if !semver_is_valid(latest_norm.as_str()) {
        return VersionCheck::LatestInvalid;
    }
    match semver_ge(current_norm.as_str(), latest_norm.as_str()) {
        Some(true) => VersionCheck::UpToDate,
        Some(false) => VersionCheck::Outdated,
        None => {
            proof {
                assert(false);
            }
            VersionCheck::Outdated
        },
    }
}

/// Decides the outcome of an update check from the version verdict and the
/// release's fields: an invalid side is reported as such; an up-to-date
/// install reports the latest version; an outdated one reports the
/// matching download, or that none was found.
pub fn evaluate_release(
    check: VersionCheck,
    tag_name: String,
    release_notes: Option<String>,
    assets: Vec<ReleaseAsset>,
    is_installer: bool,
) -> (r: UpdateOutcome)
    ensures
        ({
            let k = asset_index(assets@, preferred_asset_name(is_installer), 0);
            match r {
                UpdateOutcome::InvalidInput { .. } => check == VersionCheck::CurrentInvalid,
                UpdateOutcome::InvalidResponse { .. } => check == VersionCheck::LatestInvalid,
                UpdateOutcome::UpToDate { latest_version } => check == VersionCheck::UpToDate
                    && latest_version == tag_name,
                UpdateOutcome::Available { latest_version, release_notes: notes, download_url } => {
                    &&& check == VersionCheck::Outdated
                    &&& latest_version == tag_name
                    &&& assets@.len() > 0
                    &&& k < assets@.len()
                    &&& download_url@ == assets@[k].browser_download_url@
                    &&& notes@ == match release_notes {
                        Some(b) => b@,
                        None => Seq::<char>::empty(),
                    }
                },
                UpdateOutcome::NoDownload { .. } => check == VersionCheck::Outdated && (assets@.len()
                    == 0 || k == assets@.len()),
                _ => false,
            }
        }),
{
    match check {
        VersionCheck::CurrentInvalid => UpdateOutcome::InvalidInput {
            message: String::from_str("Current version was not a valid semantic version."),
        },
        VersionCheck::LatestInvalid => UpdateOutcome::InvalidResponse {
            message: String::from_str("Latest release tag does not contain a valid semantic version."),
        },
        VersionCheck::UpToDate => UpdateOutcome::UpToDate { latest_version: tag_name },
        VersionCheck::Outdated => {
            if assets.len() == 0 {
                return UpdateOutcome::NoDownload {
                    message: String::from_str("Latest release does not include downloadable assets."),
                };
            }
            match pick_download_url(is_installer, &assets) {
                Some(url) => UpdateOutcome::Available {
                    latest_version: tag_name,
                    release_notes: match release_notes {
                        Some(b) => b,
                        None => String::new(),
                    },
                    download_url: url,
                },
                None => UpdateOutcome::NoDownload {
                    message: String::from_str(
                        "Update is available but no matching download asset was found.",
                    ),
                },
            }
        },
    }
}

/// Shapes an outcome into the record the host receives: the status names
/// the outcome's kind, the fields carry its data, and everything else is
/// empty.
pub fn update_result_from_outcome(outcome: UpdateOutcome) -> (r: UpdateResult)
    ensures
        match outcome {
            UpdateOutcome::Available { latest_version, release_notes, download_url } => r.status
                == UpdateStatus::Available && r.http_status == 0 && r.latest_version
                == latest_version && r.download_url == download_url && r.release_notes
                == release_notes && r.error_message@ == Seq::<char>::empty(),
            UpdateOutcome::UpToDate { latest_version } => r.status == UpdateStatus::UpToDate
                && r.http_status == 0 && r.latest_version == latest_version && r.download_url@
                == Seq::<char>::empty() && r.release_notes@ == Seq::<char>::empty()
                && r.error_message@ == Seq::<char>::empty(),
            UpdateOutcome::HttpError { status } => {
                &&& r.status == UpdateStatus::HttpError
                &&& r.http_status == status
                &&& r.latest_version@ == Seq::<char>::empty()
                &&& (status >= 0 ==> r.error_message@ == "GitHub returned HTTP status "@
                    + crate::textutil::decimal_digits(status as nat) + "."@)
                &&& (status < 0 ==> r.error_message@ == Seq::<char>::empty())
            },
            UpdateOutcome::NetworkError { message } => r.status == UpdateStatus::NetworkError
                && r.http_status == 0 && r.error_message == message,
            UpdateOutcome::InvalidResponse { message } => r.status == UpdateStatus::InvalidResponse
                && r.http_status == 0 && r.error_message == message,
            UpdateOutcome::NoDownload { message } => r.status == UpdateStatus::NoDownload
                && r.http_status == 0 && r.error_message == message,
            UpdateOutcome::InvalidInput { message } => r.status == UpdateStatus::InvalidInput
                && r.http_status == 0 && r.error_message == message,
        },
{
    match outcome {
        UpdateOutcome::Available { latest_version, release_notes, download_url } => UpdateResult {
            status: UpdateStatus::Available,
            http_status: 0,
            latest_version,
            download_url,
            release_notes,
            error_message: String::new(),
        },
        UpdateOutcome::UpToDate { latest_version } => UpdateResult {
            status: UpdateStatus::UpToDate,
            http_status: 0,
            latest_version,
            download_url: String::new(),
            release_notes: String::new(),
            error_message: String::new(),
        },
        UpdateOutcome::HttpError { status } => {
            let error_message = if status >= 0 {
                let mut m = String::from_str("GitHub returned HTTP status ");
                m.append(crate::textutil::usize_to_string(status as usize).as_str());
                m.append(".");
                proof {
                    assert(m@ =~= "GitHub returned HTTP status "@
                        + crate::textutil::decimal_digits(status as nat) + "."@);
                }
                m
            } else {
                String::new()
            };
            UpdateResult {
                status: UpdateStatus::HttpError,
                http_status: status,
                latest_version: String::new(),
                download_url: String::new(),
                release_notes: String::new(),
                error_message,
            }
        },
        UpdateOutcome::NetworkError { message } => UpdateResult {
            status: UpdateStatus::NetworkError,
            http_status: 0,
            latest_version: String::new(),
            download_url: String::new(),
            release_notes: String::new(),
            error_message: message,
        },
        UpdateOutcome::InvalidResponse { message } => UpdateResult {
            status: UpdateStatus::InvalidResponse,
            http_status: 0,
            latest_version: String::new(),
            download_url: String::new(),
            release_notes: String::new(),
            error_message: message,
        },
        UpdateOutcome::NoDownload { message } => UpdateResult {
            status: UpdateStatus::NoDownload,
            http_status: 0,
            latest_version: String::new(),
            download_url: String::new(),
            release_notes: String::new(),
            error_message: message,
        },
        UpdateOutcome::InvalidInput { message } => UpdateResult {
            status: UpdateStatus::InvalidInput,
            http_status: 0,
            latest_version: String::new(),
            download_url: String::new(),
            release_notes: String::new(),
            error_message: message,
        },
    }
}

/// NUL bytes are replaced with spaces, so the text can cross a C string
/// boundary untruncated.
pub open spec fn sanitize_for_c_spec(s: Seq<char>) -> Seq<char>
    decreases s.len(),
{
    if s.len() == 0 {
        Seq::empty()
    } else {
        sanitize_for_c_spec(s.drop_last()).push(
            if s.last() == '\u{0}' {
                ' '
            } else {
                s.last()
            },
        )
    }
}

/// Replaces NUL bytes with spaces.
pub fn sanitize_for_c(text: &str) -> (r: String)
    ensures
        r@ == sanitize_for_c_spec(text@),
{
    let n: usize = text.unicode_len();
    let mut out = String::new();
    let mut i: usize = 0;
    while i < n
        invariant
            n == text@.len(),
            i <= n,
            out@ == sanitize_for_c_spec(text@.subrange(0, i as int)),
        decreases n - i,
    {
        let c = text.get_char(i);
        proof {
            let pre = text@.subrange(0, i + 1);
            assert(pre.drop_last() =~= text@.subrange(0, i as int));
            assert(pre.last() == c);
        }
        if c == '\u{0}' {
            push_char(&mut out, ' ');
        } else {
            push_char(&mut out, c);
        }
        i = i + 1;
    }
    proof {
        assert(text@.subrange(0, n as int) =~= text@);
    }
    out
}

} // verus!
