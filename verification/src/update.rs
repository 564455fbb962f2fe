//! Deciding whether a newer release is on offer. Fetching the release
//! information is the caller's part; what is decided from it stands here.

use crate::config::UpdateConfig;
use crate::text::str_eq;
use vstd::prelude::*;
use vstd::string::*;

verus! {

/// What the update server says about its latest release.
#[derive(Debug, Clone)]
pub struct UpdateInfo {
    pub latest_version: String,
    pub download_url: String,
    pub release_notes: String,
    pub is_mandatory: bool,
}

/// The outcome of one update check.
#[derive(Debug, Clone)]
pub struct CheckResult {
    pub has_update: bool,
    pub is_prerelease: bool,
    pub current_version: String,
    pub update_info: Option<UpdateInfo>,
    pub error: Option<String>,
}

/// Why a check that was made gave no result.
#[derive(Debug, Clone, Copy, PartialEq, Eq, Structural)]
pub enum UpdateError {
    /// The server answered with a status outside 200..=299.
    ServerStatus(u16),
    /// The latest version is not a semantic version.
    InvalidLatestVersion,
    /// The running version is neither `dev` nor a semantic version.
    InvalidCurrentVersion,
}

/// What to do before any request is made.
pub enum CheckPlan {
    /// No request: the check is answered at once.
    Skip(CheckResult),
    /// Ask the server, waiting at most `timeout_ms` milliseconds.
    Fetch { timeout_ms: u64 },
}

/// The parts of a semantic version.
#[derive(Debug, Clone)]
pub struct ParsedVersion {
    pub major: u64,
    pub minor: u64,
    pub patch: u64,
    /// The pre-release part, empty for an ordinary release.
    pub pre: String,
    /// The build metadata, empty where there is none.
    pub build: String,
}

/// [`UpdateInfo`] as the contracts see it.
pub struct UpdateInfoView {
    pub latest_version: Seq<char>,
    pub download_url: Seq<char>,
    pub release_notes: Seq<char>,
    pub is_mandatory: bool,
}

/// [`CheckResult`] as the contracts see it.
pub struct CheckResultView {
    pub has_update: bool,
    pub is_prerelease: bool,
    pub current_version: Seq<char>,
    pub update_info: Option<UpdateInfoView>,
    pub error: Option<Seq<char>>,
}

/// [`ParsedVersion`] as the contracts see it.
pub struct ParsedVersionView {
    pub major: u64,
    pub minor: u64,
    pub patch: u64,
    pub pre: Seq<char>,
    pub build: Seq<char>,
}

impl View for UpdateInfo {
    type V = UpdateInfoView;

    open spec fn view(&self) -> UpdateInfoView {
        UpdateInfoView {
            latest_version: self.latest_version@,
            download_url: self.download_url@,
            release_notes: self.release_notes@,
            is_mandatory: self.is_mandatory,
        }
    }
}

impl View for CheckResult {
    type V = CheckResultView;

    open spec fn view(&self) -> CheckResultView {
        CheckResultView {
            has_update: self.has_update,
            is_prerelease: self.is_prerelease,
            current_version: self.current_version@,
            update_info: match self.update_info {
                Some(info) => Some(info@),
                None => None,
            },
            error: match self.error {
                Some(e) => Some(e@),
                None => None,
            },
        }
    }
}

impl View for ParsedVersion {
    type V = ParsedVersionView;

    open spec fn view(&self) -> ParsedVersionView {
        ParsedVersionView {
            major: self.major,
            minor: self.minor,
            patch: self.patch,
            pre: self.pre@,
            build: self.build@,
        }
    }
}

/// What `semver::Version::parse` makes of a text: the five parts of the
/// version (major, minor, patch, pre-release, build), or `None` where the
/// text is no semantic version.
pub uninterp spec fn semver_parse(text: Seq<char>) -> Option<(u64, u64, u64, Seq<char>, Seq<char>)>;

/// Whether the first version is greater than the second in the order of
/// `semver::Version`, each version given by its five parts.
pub uninterp spec fn semver_exceeds(
    a: (u64, u64, u64, Seq<char>, Seq<char>),
    b: (u64, u64, u64, Seq<char>, Seq<char>),
) -> bool;

/// The five parts of a version: major, minor, patch, pre-release, build.
pub open spec fn parts(v: ParsedVersionView) -> (u64, u64, u64, Seq<char>, Seq<char>) {
    (v.major, v.minor, v.patch, v.pre, v.build)
}

/// `semver::Version::parse`: `Some` with the parts of the version where the
/// text is a semantic version, `None` where the parser refuses it.
#[verifier::external_body]
fn parse_version(text: &str) -> (parsed: Option<ParsedVersion>)
    ensures
        match parsed {
            Some(v) => semver_parse(text@) == Some(parts(v@)),
            None => semver_parse(text@) is None,
        },
{
    match semver::Version::parse(text) {
        Ok(v) => Some(
            ParsedVersion {
                major: v.major,
                minor: v.minor,
                patch: v.patch,
                pre: v.pre.as_str().to_string(),
                build: v.build.as_str().to_string(),
            },
        ),
        Err(_) => None,
    }
}

/// The `>` of `semver::Version` on two versions given by their parts. A
/// pre-release or build text that the crate refuses counts as absent.
#[verifier::external_body]
fn version_exceeds(a: &ParsedVersion, b: &ParsedVersion) -> (greater: bool)
    ensures
        greater == semver_exceeds(parts(a@), parts(b@)),
{
    let mut x = semver::Version::new(a.major, a.minor, a.patch);
    x.pre = semver::Prerelease::new(&a.pre).unwrap_or_default();
    x.build = semver::BuildMetadata::new(&a.build).unwrap_or_default();
    let mut y = semver::Version::new(b.major, b.minor, b.patch);
    y.pre = semver::Prerelease::new(&b.pre).unwrap_or_default();
    y.build = semver::BuildMetadata::new(&b.build).unwrap_or_default();
    x > y
}

/// The message of a check that was not made.
pub open spec fn disabled_message() -> Seq<char> {
    "更新检查未启用或服务器地址未配置"@
}

/// The plan for a check: none where checks are switched off or no server is
/// configured; else a request with the configured timeout, or ten seconds
/// where the configured timeout is not positive.
pub open spec fn plan_of(current_version: Seq<char>, cfg: UpdateConfig) -> CheckPlanView {
    if !cfg.enabled || cfg.server_url@.len() == 0 {
        CheckPlanView::Skip(
            CheckResultView {
                has_update: false,
                is_prerelease: false,
                current_version,
                update_info: None,
                error: Some(disabled_message()),
            },
        )
    } else if cfg.timeout_ms > 0 {
        CheckPlanView::Fetch { timeout_ms: cfg.timeout_ms as u64 }
    } else {
        CheckPlanView::Fetch { timeout_ms: 10_000 }
    }
}

/// [`CheckPlan`] as the contracts see it.
pub enum CheckPlanView {
    Skip(CheckResultView),
    Fetch { timeout_ms: u64 },
}

impl View for CheckPlan {
    type V = CheckPlanView;

    open spec fn view(&self) -> CheckPlanView {
        match *self {
            CheckPlan::Skip(r) => CheckPlanView::Skip(r@),
            CheckPlan::Fetch { timeout_ms } => CheckPlanView::Fetch { timeout_ms },
        }
    }
}

/// Decides whether the server is to be asked at all, and with what timeout.
pub fn plan_check(current_version: &str, cfg: &UpdateConfig) -> (plan: CheckPlan)
    ensures
        plan@ == plan_of(current_version@, *cfg),
{
    if !cfg.enabled || cfg.server_url.as_str().unicode_len() == 0 {
        CheckPlan::Skip(
            CheckResult {
                has_update: false,
                is_prerelease: false,
                current_version: String::from_str(current_version),
                update_info: None,
                error: Some(String::from_str("更新检查未启用或服务器地址未配置")),
            },
        )
    } else if cfg.timeout_ms > 0 {
        CheckPlan::Fetch { timeout_ms: cfg.timeout_ms as u64 }
    } else {
        CheckPlan::Fetch { timeout_ms: 10_000 }
    }
}

/// Accepts the server's answer where its status is one of success.
pub fn check_status(status: u16) -> (r: Result<(), UpdateError>)
    ensures
        r == if 200 <= status <= 299 {
            Ok::<(), UpdateError>(())
        } else {
            Err::<(), UpdateError>(UpdateError::ServerStatus(status))
        },
{
    if 200 <= status && status <= 299 {
        Ok(())
    } else {
        Err(UpdateError::ServerStatus(status))
    }
}

/// The outcome of a check, given what the server said and what the version
/// texts parse to.
///
/// - A latest version that is no semantic version is an error.
/// - A pre-release is reported but not offered where pre-releases are ignored.
/// - A `dev` build is always offered the latest release.
/// - Otherwise the running version must be a semantic version, and the
///   release is offered when `newer` says that it is greater.
pub open spec fn outcome_of(
    current_version: Seq<char>,
    ignore_prerelease: bool,
    info: UpdateInfoView,
    latest: Option<ParsedVersionView>,
    current: Option<ParsedVersionView>,
    newer: bool,
) -> Result<CheckResultView, UpdateError> {
    match latest {
        None => Err(UpdateError::InvalidLatestVersion),
        Some(l) => {
            let is_prerelease = l.pre.len() > 0;
            if ignore_prerelease && is_prerelease {
                Ok(
                    CheckResultView {
                        has_update: false,
                        is_prerelease: true,
                        current_version,
                        update_info: Some(info),
                        error: None,
                    },
                )
            } else if current_version == "dev"@ {
                Ok(
                    CheckResultView {
                        has_update: true,
                        is_prerelease,
                        current_version,
                        update_info: Some(info),
                        error: None,
                    },
                )
            } else if current is None {
                Err(UpdateError::InvalidCurrentVersion)
            } else {
                Ok(
                    CheckResultView {
                        has_update: newer,
                        is_prerelease,
                        current_version,
                        update_info: Some(info),
                        error: None,
                    },
                )
            }
        },
    }
}

/// An outcome as the contracts see it.
pub open spec fn view_of_result(r: Result<CheckResult, UpdateError>) -> Result<
    CheckResultView,
    UpdateError,
> {
    match r {
        Ok(c) => Ok(c@),
        Err(e) => Err(e),
    }
}

/// A parsed version, if any, as the contracts see it.
pub open spec fn view_of_version(v: Option<ParsedVersion>) -> Option<ParsedVersionView> {
    match v {
        Some(p) => Some(p@),
        None => None,
    }
}

/// Decides the outcome of a check from the server's answer, the parsed
/// versions (`None` where a text is no semantic version) and `newer`: whether
/// the latest version is greater than the running one.
pub fn decide_update(
    current_version: &str,
    ignore_prerelease: bool,
    info: UpdateInfo,
    latest: &Option<ParsedVersion>,
    current: &Option<ParsedVersion>,
    newer: bool,
) -> (r: Result<CheckResult, UpdateError>)
    ensures
        view_of_result(r) == outcome_of(
            current_version@,
            ignore_prerelease,
            info@,
            view_of_version(*latest),
            view_of_version(*current),
            newer,
        ),
{
    match latest {
        None => Err(UpdateError::InvalidLatestVersion),
        Some(l) => {
            let is_prerelease = l.pre.as_str().unicode_len() > 0;
            if ignore_prerelease && is_prerelease {
                Ok(
                    CheckResult {
                        has_update: false,
                        is_prerelease: true,
                        current_version: String::from_str(current_version),
                        update_info: Some(info),
                        error: None,
                    },
                )
            } else if str_eq(current_version, "dev") {
                Ok(
                    CheckResult {
                        has_update: true,
                        is_prerelease,
                        current_version: String::from_str(current_version),
                        update_info: Some(info),
                        error: None,
                    },
                )
            } else if current.is_none() {
                Err(UpdateError::InvalidCurrentVersion)
            } else {
                Ok(
                    CheckResult {
                        has_update: newer,
                        is_prerelease,
                        current_version: String::from_str(current_version),
                        update_info: Some(info),
                        error: None,
                    },
                )
            }
        },
    }
}

/// What the version parser makes of `text`, as a view.
pub open spec fn parsed(text: Seq<char>) -> Option<ParsedVersionView> {
    match semver_parse(text) {
        Some(p) => Some(
            ParsedVersionView { major: p.0, minor: p.1, patch: p.2, pre: p.3, build: p.4 },
        ),
        None => None,
    }
}

/// Whether the version in `latest` is greater than the one in `current`;
/// `false` where either text is no semantic version.
pub open spec fn latest_is_newer(latest: Seq<char>, current: Seq<char>) -> bool {
    match (semver_parse(latest), semver_parse(current)) {
        (Some(l), Some(c)) => semver_exceeds(l, c),
        _ => false,
    }
}

/// Evaluates the server's answer against the running version: parses both
/// version texts, compares them as semantic versions, and decides as
/// [`decide_update`] does.
pub fn evaluate_update(current_version: &str, cfg: &UpdateConfig, info: UpdateInfo) -> (r: Result<
    CheckResult,
    UpdateError,
>)
    ensures
        view_of_result(r) == outcome_of(
            current_version@,
            cfg.ignore_prerelease,
            info@,
            parsed(info.latest_version@),
            parsed(current_version@),
            latest_is_newer(info.latest_version@, current_version@),
        ),
{
    let latest = parse_version(info.latest_version.as_str());
    let current = parse_version(current_version);
    let newer = match (&latest, &current) {
        (Some(l), Some(c)) => version_exceeds(l, c),
        _ => false,
    };
    decide_update(current_version, cfg.ignore_prerelease, info, &latest, &current, newer)
}

} // verus!
