//! Looking for newer releases: when to ask, what an answer means, and when to tell
//! of it.

use vstd::prelude::*;

use crate::cache::{in_dir, path_in};
use crate::duration::Duration;
use crate::system::{is_semver, semver_compare, semver_order, semver_valid, Timestamp};
use crate::text::{
    after_prefix, char_count, contains, drop_back, drop_front, ends, ends_with, lowered, occurs,
    only, same, strip_prefix, to_ascii_lowercase, trim, trim_end_matches, trim_start_matches,
    trimmed,
};
use crate::web::maybe;

verus! {

/// Where the project lives.
pub const REPOSITORY: &'static str = "https://github.com/kdheepak/snarf";

/// The version of the stored state.
pub const SCHEMA_VERSION: usize = 1;

/// What is known of newer releases.
#[derive(Debug)]
pub struct UpdateStatus {
    pub checked_at: Option<Timestamp>,
    pub cache_stale: bool,
    pub available: bool,
    pub latest_version: String,
    pub install_type: String,
    pub command: String,
    pub release_url: String,
    pub source: String,
}

/// What is known of newer releases, with its texts as sequences.
pub struct StatusView {
    pub checked_at: Option<Timestamp>,
    pub cache_stale: bool,
    pub available: bool,
    pub latest_version: Seq<char>,
    pub install_type: Seq<char>,
    pub command: Seq<char>,
    pub release_url: Seq<char>,
    pub source: Seq<char>,
}

impl View for UpdateStatus {
    type V = StatusView;

    open spec fn view(&self) -> StatusView {
        StatusView {
            checked_at: self.checked_at,
            cache_stale: self.cache_stale,
            available: self.available,
            latest_version: self.latest_version@,
            install_type: self.install_type@,
            command: self.command@,
            release_url: self.release_url@,
            source: self.source@,
        }
    }
}

impl StatusView {
    /// The status of which nothing is known.
    pub open spec fn empty() -> StatusView {
        StatusView {
            checked_at: None,
            cache_stale: false,
            available: false,
            latest_version: seq![],
            install_type: seq![],
            command: seq![],
            release_url: seq![],
            source: seq![],
        }
    }
}

impl Default for UpdateStatus {
    fn default() -> (r: Self)
        ensures
            r@ == StatusView::empty(),
    {
        UpdateStatus {
            checked_at: None,
            cache_stale: false,
            available: false,
            latest_version: String::new(),
            install_type: String::new(),
            command: String::new(),
            release_url: String::new(),
            source: String::new(),
        }
    }
}

/// How to look for newer releases.
#[derive(Debug)]
pub struct Options {
    pub current_version: String,
    pub allow_network: bool,
    pub timeout: Duration,
}

/// What is stored between looks.
#[derive(Debug)]
pub struct CacheState {
    pub schema_version: usize,
    pub current_version: String,
    pub last_checked_at: Option<Timestamp>,
    pub last_check_failed_at: Option<Timestamp>,
    pub latest_version: String,
    pub release_url: String,
    pub update_available: bool,
    pub install_type: String,
    pub update_command: String,
    pub last_notified_at: Option<Timestamp>,
    pub last_notified_version: String,
}

/// What is stored between looks, with its texts as sequences.
pub struct StateView {
    pub schema_version: usize,
    pub current_version: Seq<char>,
    pub last_checked_at: Option<Timestamp>,
    pub last_check_failed_at: Option<Timestamp>,
    pub latest_version: Seq<char>,
    pub release_url: Seq<char>,
    pub update_available: bool,
    pub install_type: Seq<char>,
    pub update_command: Seq<char>,
    pub last_notified_at: Option<Timestamp>,
    pub last_notified_version: Seq<char>,
}

impl View for CacheState {
    type V = StateView;

    open spec fn view(&self) -> StateView {
        StateView {
            schema_version: self.schema_version,
            current_version: self.current_version@,
            last_checked_at: self.last_checked_at,
            last_check_failed_at: self.last_check_failed_at,
            latest_version: self.latest_version@,
            release_url: self.release_url@,
            update_available: self.update_available,
            install_type: self.install_type@,
            update_command: self.update_command@,
            last_notified_at: self.last_notified_at,
            last_notified_version: self.last_notified_version@,
        }
    }
}

impl StateView {
    /// The state before the first look.
    pub open spec fn empty() -> StateView {
        StateView {
            schema_version: 0,
            current_version: seq![],
            last_checked_at: None,
            last_check_failed_at: None,
            latest_version: seq![],
            release_url: seq![],
            update_available: false,
            install_type: seq![],
            update_command: seq![],
            last_notified_at: None,
            last_notified_version: seq![],
        }
    }

    /// Whether the last look that succeeded is a day old or older.
    pub open spec fn stale(self, now: Timestamp) -> bool {
        match self.last_checked_at {
            Some(then) => hours_passed(now, then, 24),
            None => true,
        }
    }

    /// Whether a look has failed in the last six hours.
    pub open spec fn backing_off(self, now: Timestamp) -> bool {
        match self.last_check_failed_at {
            Some(then) => !hours_passed(now, then, 6),
            None => false,
        }
    }
}

impl Default for CacheState {
    fn default() -> (r: Self)
        ensures
            r@ == StateView::empty(),
    {
        CacheState {
            schema_version: 0,
            current_version: String::new(),
            last_checked_at: None,
            last_check_failed_at: None,
            latest_version: String::new(),
            release_url: String::new(),
            update_available: false,
            install_type: String::new(),
            update_command: String::new(),
            last_notified_at: None,
            last_notified_version: String::new(),
        }
    }
}

impl Clone for CacheState {
    fn clone(&self) -> (r: Self)
        ensures
            r@ == self@,
    {
        CacheState {
            schema_version: self.schema_version,
            current_version: self.current_version.clone(),
            last_checked_at: self.last_checked_at,
            last_check_failed_at: self.last_check_failed_at,
            latest_version: self.latest_version.clone(),
            release_url: self.release_url.clone(),
            update_available: self.update_available,
            install_type: self.install_type.clone(),
            update_command: self.update_command.clone(),
            last_notified_at: self.last_notified_at,
            last_notified_version: self.last_notified_version.clone(),
        }
    }
}

/// What a stored state holds, if there is one.
pub open spec fn maybe_state(state: Option<CacheState>) -> Option<StateView> {
    match state {
        Some(state) => Some(state@),
        None => None,
    }
}

/// A release.
#[derive(Debug)]
pub struct ReleaseInfo {
    pub version: String,
    pub url: String,
}

/// What the environment says of this installation: how it was made, what command
/// makes it anew, and whether the environment itself sets that command.
#[derive(Debug)]
pub struct Install {
    pub install_type: String,
    pub command: String,
    pub overridden: bool,
}

/// Whether `hours` hours have passed from `then` to `now`.
pub open spec fn hours_passed(now: Timestamp, then: Timestamp, hours: int) -> bool {
    now.in_nanos() - then.in_nanos() >= hours * 3_600_000_000_000
}

fn have_hours_passed(now: &Timestamp, then: &Timestamp, hours: u32) -> (r: bool)
    ensures
        r == hours_passed(*now, *then, hours as int),
{
    now.as_nanos() - then.as_nanos() >= hours as i128 * 3_600_000_000_000
}

/// A version without blanks around it and without the letter before it.
pub open spec fn plain_version(version: Seq<char>) -> Seq<char> {
    drop_front(trimmed(version), only('v'))
}

/// `version` without blanks around it and without the letter before it.
pub fn normalize_version(version: &str) -> (r: String)
    ensures
        r@ == plain_version(version@),
{
    trim_start_matches(trim(version).as_str(), 'v')
}

/// Whether `version` can be compared with others.
pub fn is_version_checkable(version: &str) -> (r: bool)
    ensures
        r == semver_valid(plain_version(version@)),
{
    is_semver(normalize_version(version).as_str())
}

/// How two versions are ordered; those that cannot be compared count as the same.
pub open spec fn version_order(left: Seq<char>, right: Seq<char>) -> int {
    if semver_valid(plain_version(left)) && semver_valid(plain_version(right)) {
        semver_order(plain_version(left), plain_version(right))
    } else {
        0
    }
}

/// How two versions are ordered: minus one where the first is the earlier one, one
/// where it is the later one. The other way round it is the negative, and no
/// version comes before itself.
pub fn compare_versions(left: &str, right: &str) -> (r: i8)
    ensures
        r == version_order(left@, right@),
        -1 <= r <= 1,
        version_order(right@, left@) == -r,
        left@ == right@ ==> r == 0,
{
    let left = normalize_version(left);
    let right = normalize_version(right);
    if !is_semver(left.as_str()) || !is_semver(right.as_str()) {
        return 0;
    }
    semver_compare(left.as_str(), right.as_str())
}

/// The page of the latest release of a repository.
pub open spec fn latest_page(repository: Seq<char>) -> Seq<char> {
    drop_back(repository, only('/')) + "/releases/latest"@
}

/// The page of the latest release.
pub fn release_url() -> (r: String)
    ensures
        r@ == latest_page(REPOSITORY@),
{
    let mut url = trim_end_matches(REPOSITORY, '/');
    url.append("/releases/latest");
    url
}

/// A text without a prefix, however often it begins with it.
pub open spec fn without_prefixes(s: Seq<char>, prefix: Seq<char>) -> Seq<char>
    decreases s.len(),
{
    if prefix.len() == 0 {
        s
    } else {
        match after_prefix(s, prefix) {
            Some(rest) => if rest.len() < s.len() {
                without_prefixes(rest, prefix)
            } else {
                s
            },
            None => s,
        }
    }
}

/// Where the latest release of a repository is asked for.
pub open spec fn latest_api(repository: Seq<char>) -> Seq<char> {
    "https://api.github.com/repos/"@ + without_prefixes(
        drop_back(repository, only('/')),
        "https://github.com/"@,
    ) + "/releases/latest"@
}

/// Where the latest release is asked for.
pub fn release_api_url() -> (r: String)
    ensures
        r@ == latest_api(REPOSITORY@),
{
    let mut repository = trim_end_matches(REPOSITORY, '/');
    let ghost whole = repository@;
    proof {
        reveal_strlit("https://github.com/");
    }
    let mut more = true;
    while more
        invariant
            "https://github.com/"@.len() == 19,
            without_prefixes(whole, "https://github.com/"@) == without_prefixes(
                repository@,
                "https://github.com/"@,
            ),
            !more ==> after_prefix(repository@, "https://github.com/"@) is None,
        decreases repository@.len(), more as int,
    {
        match strip_prefix(repository.as_str(), "https://github.com/") {
            Some(rest) => {
                repository = rest;
            },
            None => {
                more = false;
            },
        }
    }
    let mut url = "https://api.github.com/repos/".to_owned();
    url.append(repository.as_str());
    url.append("/releases/latest");
    url
}

/// The release that an answer tells of: its version has to be one that can be
/// compared.
pub fn latest_release(tag_name: &str, html_url: &str) -> (r: Result<ReleaseInfo, String>)
    ensures
        match r {
            Ok(release) => {
                &&& semver_valid(plain_version(plain_version(tag_name@)))
                &&& release.version@ == plain_version(tag_name@)
                &&& release.url@ == (if html_url@.len() == 0 {
                    latest_page(REPOSITORY@)
                } else {
                    html_url@
                })
            },
            Err(message) => !semver_valid(plain_version(plain_version(tag_name@))) && message@
                == "latest release version is not semver"@,
        },
{
    let version = normalize_version(tag_name);
    if !is_version_checkable(version.as_str()) {
        return Err("latest release version is not semver".to_owned());
    }
    let url = if char_count(html_url) == 0 {
        release_url()
    } else {
        html_url.to_owned()
    };
    Ok(ReleaseInfo { version, url })
}

/// How a program at `exe` was installed.
pub open spec fn install_type_of(forced: Option<Seq<char>>, exe: Seq<char>) -> Seq<char> {
    let path = lowered(exe);
    if forced matches Some(name) && is_install_type(lowered(trimmed(name))) {
        lowered(trimmed(forced->0))
    } else if occurs(path, "/homebrew/"@) || occurs(path, "/cellar/"@) {
        "homebrew"@
    } else if occurs(path, "/.cargo/bin/"@) || ends(path, "/cargo/bin/snarf"@) {
        "cargo"@
    } else if ends(path, "/snarf"@) || ends(path, "\\snarf.exe"@) {
        "manual"@
    } else {
        "unknown"@
    }
}

/// Whether a text names a way to install.
pub open spec fn is_install_type(name: Seq<char>) -> bool {
    name == "homebrew"@ || name == "cargo"@ || name == "manual"@ || name == "unknown"@
}

/// How the program at `exe` was installed; `forced` is what the environment says of
/// it, if anything.
pub fn detect_install_type(forced: &Option<String>, exe: &str) -> (r: String)
    ensures
        r@ == install_type_of(maybe(*forced), exe@),
{
    if let Some(name) = forced {
        let name = to_ascii_lowercase(trim(name.as_str()).as_str());
        if same(name.as_str(), "homebrew") || same(name.as_str(), "cargo") || same(
            name.as_str(),
            "manual",
        ) || same(name.as_str(), "unknown") {
            return name;
        }
    }
    let path = to_ascii_lowercase(exe);
    if contains(path.as_str(), "/homebrew/") || contains(path.as_str(), "/cellar/") {
        "homebrew".to_owned()
    } else if contains(path.as_str(), "/.cargo/bin/") || ends_with(
        path.as_str(),
        "/cargo/bin/snarf",
    ) {
        "cargo".to_owned()
    } else if ends_with(path.as_str(), "/snarf") || ends_with(path.as_str(), "\\snarf.exe") {
        "manual".to_owned()
    } else {
        "unknown".to_owned()
    }
}

/// The command that the environment sets, if it sets one.
pub open spec fn override_of(value: Option<Seq<char>>) -> Option<Seq<char>> {
    match value {
        Some(text) => if trimmed(text).len() > 0 {
            Some(trimmed(text))
        } else {
            None
        },
        None => None,
    }
}

/// The command that the environment sets, if it sets one.
pub fn update_command_override(value: &Option<String>) -> (r: Option<String>)
    ensures
        maybe(r) == override_of(maybe(*value)),
{
    match value {
        Some(text) => {
            let command = trim(text.as_str());
            if char_count(command.as_str()) > 0 {
                Some(command)
            } else {
                None
            }
        },
        None => None,
    }
}

/// The command that installs anew.
pub open spec fn command_of(install_type: Seq<char>, overriding: Option<Seq<char>>) -> Seq<char> {
    match overriding {
        Some(command) => command,
        None => if install_type == "cargo"@ {
            "cargo install --git "@ + REPOSITORY@ + " --force"@
        } else {
            latest_page(REPOSITORY@)
        },
    }
}

/// The command that installs anew: what the environment sets, or else what fits how
/// the program was installed.
pub fn render_command(install_type: &str, overriding: &Option<String>) -> (r: String)
    ensures
        r@ == command_of(install_type@, maybe(*overriding)),
{
    if let Some(command) = overriding {
        return command.clone();
    }
    if same(install_type, "cargo") {
        let mut command = "cargo install --git ".to_owned();
        command.append(REPOSITORY);
        command.append(" --force");
        return command;
    }
    release_url()
}

impl Install {
    /// What the environment says of this installation.
    pub fn detect(forced: &Option<String>, exe: &str, command: &Option<String>) -> (r: Self)
        ensures
            r.install_type@ == install_type_of(maybe(*forced), exe@),
            r.command@ == command_of(
                install_type_of(maybe(*forced), exe@),
                override_of(maybe(*command)),
            ),
            r.overridden == (override_of(maybe(*command)) is Some),
    {
        let install_type = detect_install_type(forced, exe);
        let overriding = update_command_override(command);
        let command = render_command(install_type.as_str(), &overriding);
        Install { install_type, command, overridden: overriding.is_some() }
    }
}

/// The command to show where one was stored.
pub open spec fn shown_command(
    cached: Seq<char>,
    current: Seq<char>,
    overridden: bool,
) -> Seq<char> {
    if overridden || cached.len() == 0 {
        current
    } else {
        cached
    }
}

/// The command to show: the stored one, unless there is none or the environment sets
/// one.
pub fn command_from_cached_state(
    cached_command: &str,
    current_command: &str,
    override_active: bool,
) -> (r: String)
    ensures
        r@ == shown_command(cached_command@, current_command@, override_active),
{
    if override_active || char_count(cached_command) == 0 {
        current_command.to_owned()
    } else {
        cached_command.to_owned()
    }
}

/// What a stored state says, where `newer` says whether its release is newer than the
/// current version.
pub open spec fn compared_status(
    state: StateView,
    newer: bool,
    install: Install,
    now: Timestamp,
) -> StatusView {
    StatusView {
        checked_at: state.last_checked_at,
        cache_stale: state.stale(now),
        available: newer,
        latest_version: plain_version(state.latest_version),
        install_type: install.install_type@,
        command: shown_command(state.update_command, install.command@, install.overridden),
        release_url: if state.release_url.len() == 0 {
            latest_page(REPOSITORY@)
        } else {
            state.release_url
        },
        source: "cache"@,
    }
}

/// What a stored state says to the current version.
pub open spec fn stored_status(
    state: StateView,
    current: Seq<char>,
    install: Install,
    now: Timestamp,
) -> StatusView {
    compared_status(
        state,
        version_order(current, plain_version(state.latest_version)) < 0,
        install,
        now,
    )
}

/// Whether the last look that succeeded is a day old or older.
pub fn is_cache_stale(state: &CacheState, now: &Timestamp) -> (r: bool)
    ensures
        r == state@.stale(*now),
{
    match &state.last_checked_at {
        Some(then) => have_hours_passed(now, then, 24),
        None => true,
    }
}

/// Whether a look has failed in the last six hours.
pub fn in_failure_backoff(state: &CacheState, now: &Timestamp) -> (r: bool)
    ensures
        r == state@.backing_off(*now),
{
    match &state.last_check_failed_at {
        Some(then) => !have_hours_passed(now, then, 6),
        None => false,
    }
}

/// What `state` says, where `newer` says whether its release is newer than the current
/// version.
pub fn status_given_order(
    state: &CacheState,
    newer: bool,
    install: &Install,
    now: &Timestamp,
) -> (r: UpdateStatus)
    ensures
        r@ == compared_status(state@, newer, *install, *now),
{
    UpdateStatus {
        checked_at: state.last_checked_at,
        cache_stale: is_cache_stale(state, now),
        available: newer,
        latest_version: normalize_version(state.latest_version.as_str()),
        install_type: install.install_type.clone(),
        command: command_from_cached_state(
            state.update_command.as_str(),
            install.command.as_str(),
            install.overridden,
        ),
        release_url: if char_count(state.release_url.as_str()) == 0 {
            release_url()
        } else {
            state.release_url.clone()
        },
        source: "cache".to_owned(),
    }
}

fn is_newer(state: &CacheState, current_version: &str) -> (r: bool)
    ensures
        r == (version_order(current_version@, plain_version(state@.latest_version)) < 0),
{
    let latest_version = normalize_version(state.latest_version.as_str());
    compare_versions(current_version, latest_version.as_str()) < 0
}

/// What `state` says to the current version.
pub fn status_from_state(
    state: &CacheState,
    current_version: &str,
    install: &Install,
    now: &Timestamp,
) -> (r: UpdateStatus)
    ensures
        r@ == stored_status(state@, current_version@, *install, *now),
{
    status_given_order(state, is_newer(state, current_version), install, now)
}

/// The status of which nothing but the installation is known.
pub open spec fn blank_status(install: Install) -> StatusView {
    StatusView {
        install_type: install.install_type@,
        command: install.command@,
        release_url: latest_page(REPOSITORY@),
        source: "none"@,
        ..StatusView::empty()
    }
}

fn new_status(install: &Install) -> (r: UpdateStatus)
    ensures
        r@ == blank_status(*install),
{
    UpdateStatus {
        install_type: install.install_type.clone(),
        command: install.command.clone(),
        release_url: release_url(),
        source: "none".to_owned(),
        ..UpdateStatus::default()
    }
}

/// What can be said without asking for the latest release, or nothing where it has
/// to be asked for. `checkable` says whether the current version can be compared, and
/// `newer` whether the release of the stored state is newer.
pub open spec fn decided_status(
    checkable: bool,
    newer: bool,
    allow_network: bool,
    install: Install,
    cached: Option<StateView>,
    now: Timestamp,
) -> Option<StatusView> {
    if !checkable {
        Some(blank_status(install))
    } else {
        match cached {
            Some(state) if state.schema_version == SCHEMA_VERSION => if !state.stale(now)
                || !allow_network || state.backing_off(now) {
                Some(compared_status(state, newer, install, now))
            } else {
                None
            },
            _ => if allow_network {
                None
            } else {
                Some(blank_status(install))
            },
        }
    }
}

/// What can be said to the current version without asking for the latest release, or
/// nothing where it has to be asked for.
pub open spec fn known_status(
    current: Seq<char>,
    allow_network: bool,
    install: Install,
    cached: Option<StateView>,
    now: Timestamp,
) -> Option<StatusView> {
    decided_status(
        semver_valid(plain_version(current)),
        match cached {
            Some(state) => version_order(current, plain_version(state.latest_version)) < 0,
            None => false,
        },
        allow_network,
        install,
        cached,
        now,
    )
}

/// What can be said of newer releases without asking for the latest one, or nothing
/// where it has to be asked for. `checkable` says whether the current version can be
/// compared, and `newer` whether the release of the stored state is newer.
pub fn decide_status(
    checkable: bool,
    newer: bool,
    allow_network: bool,
    install: &Install,
    cached: &Option<CacheState>,
    now: &Timestamp,
) -> (r: Option<UpdateStatus>)
    ensures
        match decided_status(
            checkable,
            newer,
            allow_network,
            *install,
            maybe_state(*cached),
            *now,
        ) {
            Some(status) => r is Some && r->0@ == status,
            None => r is None,
        },
{
    if !checkable {
        return Some(new_status(install));
    }
    if let Some(state) = cached {
        if state.schema_version == SCHEMA_VERSION {
            let status = status_given_order(state, newer, install, now);
            if !status.cache_stale || !allow_network || in_failure_backoff(state, now) {
                return Some(status);
            }
            return None;
        }
    }
    if allow_network {
        None
    } else {
        Some(new_status(install))
    }
}

/// What can be said of newer releases without asking for the latest one, or nothing
/// where it has to be asked for and `finish_status` says it.
pub fn get_status(
    options: &Options,
    install: &Install,
    cached: &Option<CacheState>,
    now: &Timestamp,
) -> (r: Option<UpdateStatus>)
    ensures
        match known_status(
            options.current_version@,
            options.allow_network,
            *install,
            maybe_state(*cached),
            *now,
        ) {
            Some(status) => r is Some && r->0@ == status,
            None => r is None,
        },
{
    let newer = match cached {
        Some(state) => is_newer(state, options.current_version.as_str()),
        None => false,
    };
    decide_status(
        is_version_checkable(options.current_version.as_str()),
        newer,
        options.allow_network,
        install,
        cached,
        now,
    )
}

/// The state after a look that found `version` at `url`.
pub open spec fn checked_state(
    current: Seq<char>,
    install: Install,
    cached: Option<StateView>,
    version: Seq<char>,
    url: Seq<char>,
    now: Timestamp,
) -> StateView {
    StateView {
        schema_version: SCHEMA_VERSION,
        current_version: current,
        last_checked_at: Some(now),
        last_check_failed_at: None,
        latest_version: version,
        release_url: url,
        update_available: version_order(current, version) < 0,
        install_type: install.install_type@,
        update_command: install.command@,
        last_notified_at: match cached {
            Some(state) => state.last_notified_at,
            None => None,
        },
        last_notified_version: match cached {
            Some(state) => state.last_notified_version,
            None => seq![],
        },
    }
}

/// The state after a look that failed.
pub open spec fn failed_state(state: StateView, now: Timestamp) -> StateView {
    StateView { last_check_failed_at: Some(now), ..state }
}

/// What is said once the latest release has been asked for, and the state to store,
/// if there is one; `release` is what was found, if the look succeeded.
pub fn finish_status(
    options: &Options,
    install: &Install,
    cached: &Option<CacheState>,
    release: &Option<ReleaseInfo>,
    now: &Timestamp,
) -> (r: (UpdateStatus, Option<CacheState>))
    ensures
        match (*release, maybe_state(*cached)) {
            (Some(found), cached) => {
                let state = checked_state(
                    options.current_version@,
                    *install,
                    cached,
                    found.version@,
                    found.url@,
                    *now,
                );
                &&& maybe_state(r.1) == Some(state)
                &&& r.0@ == (StatusView {
                    source: "live"@,
                    ..stored_status(state, options.current_version@, *install, *now)
                })
            },
            (None, Some(state)) => {
                &&& maybe_state(r.1) == Some(failed_state(state, *now))
                &&& r.0@ == (StatusView {
                    cache_stale: true,
                    ..stored_status(
                        failed_state(state, *now),
                        options.current_version@,
                        *install,
                        *now,
                    )
                })
            },
            (None, None) => r.1 is None && r.0@ == blank_status(*install),
        },
{
    match release {
        Some(found) => {
            let (last_notified_at, last_notified_version) = match cached {
                Some(state) => (state.last_notified_at, state.last_notified_version.clone()),
                None => (None, String::new()),
            };
            let state = CacheState {
                schema_version: SCHEMA_VERSION,
                current_version: options.current_version.clone(),
                last_checked_at: Some(*now),
                last_check_failed_at: None,
                latest_version: found.version.clone(),
                release_url: found.url.clone(),
                update_available: compare_versions(
                    options.current_version.as_str(),
                    found.version.as_str(),
                ) < 0,
                install_type: install.install_type.clone(),
                update_command: install.command.clone(),
                last_notified_at,
                last_notified_version,
            };
            let mut status = status_from_state(
                &state,
                options.current_version.as_str(),
                install,
                now,
            );
            status.source = "live".to_owned();
            (status, Some(state))
        },
        None => match cached {
            Some(state) => {
                let mut state = state.clone();
                state.last_check_failed_at = Some(*now);
                let mut status = status_from_state(
                    &state,
                    options.current_version.as_str(),
                    install,
                    now,
                );
                status.cache_stale = true;
                (status, Some(state))
            },
            None => (new_status(install), None),
        },
    }
}

/// Whether a value of the environment switches notices off.
pub open spec fn switches_off(value: Seq<char>) -> bool {
    let word = lowered(trimmed(value));
    word == "1"@ || word == "true"@ || word == "yes"@ || word == "on"@
}

/// Whether `value`, which the environment holds, switches notices off.
pub fn disabled(value: &str) -> (r: bool)
    ensures
        r == switches_off(value@),
{
    let word = to_ascii_lowercase(trim(value).as_str());
    same(word.as_str(), "1") || same(word.as_str(), "true") || same(word.as_str(), "yes") || same(
        word.as_str(),
        "on",
    )
}

/// Whether there is a release to tell of.
pub open spec fn worth_telling(status: StatusView) -> bool {
    status.available && status.latest_version.len() > 0
}

/// Whether a release is to be told of now.
pub open spec fn tells(
    status: StatusView,
    off: bool,
    state: Option<StateView>,
    now: Timestamp,
) -> bool {
    !off && worth_telling(status) && match state {
        Some(state) => state.last_notified_version != status.latest_version
            || match state.last_notified_at {
            Some(then) => hours_passed(now, then, 24),
            None => true,
        },
        None => true,
    }
}

/// Whether `status` is to be told of now: once a day for a release; `off` says that
/// notices are switched off.
pub fn should_notify(
    status: &UpdateStatus,
    off: bool,
    state: &Option<CacheState>,
    now: &Timestamp,
) -> (r: bool)
    ensures
        r == tells(status@, off, maybe_state(*state), *now),
{
    if off || !status.available || char_count(status.latest_version.as_str()) == 0 {
        return false;
    }
    match state {
        Some(state) => {
            if !same(state.last_notified_version.as_str(), status.latest_version.as_str()) {
                return true;
            }
            match &state.last_notified_at {
                Some(then) => have_hours_passed(now, then, 24),
                None => true,
            }
        },
        None => true,
    }
}

/// The state after a release was told of.
pub open spec fn told(status: StatusView, state: Option<StateView>, now: Timestamp) -> StateView {
    let before = match state {
        Some(state) => state,
        None => StateView {
            schema_version: SCHEMA_VERSION,
            latest_version: status.latest_version,
            release_url: status.release_url,
            install_type: status.install_type,
            update_command: status.command,
            ..StateView::empty()
        },
    };
    StateView {
        last_notified_at: Some(now),
        last_notified_version: status.latest_version,
        ..before
    }
}

/// The state to store after `status` was told of, if there was anything to tell.
pub fn mark_notified(status: &UpdateStatus, state: Option<CacheState>, now: &Timestamp) -> (r:
    Option<CacheState>)
    ensures
        worth_telling(status@) ==> maybe_state(r) == Some(told(status@, maybe_state(state), *now)),
        !worth_telling(status@) ==> r is None,
{
    if !status.available || char_count(status.latest_version.as_str()) == 0 {
        return None;
    }
    let mut state = match state {
        Some(state) => state,
        None => CacheState {
            schema_version: SCHEMA_VERSION,
            latest_version: status.latest_version.clone(),
            release_url: status.release_url.clone(),
            install_type: status.install_type.clone(),
            update_command: status.command.clone(),
            ..CacheState::default()
        },
    };
    state.last_notified_at = Some(*now);
    state.last_notified_version = status.latest_version.clone();
    Some(state)
}

/// The notice of a release.
pub open spec fn notice(status: StatusView) -> Seq<char> {
    if worth_telling(status) {
        "A newer snarf is available: "@ + status.latest_version + "\nUpdate: "@ + (
        if status.command.len() == 0 {
            status.release_url
        } else {
            status.command
        })
    } else {
        seq![]
    }
}

/// The notice of a release, empty where there is none to tell of.
pub fn format_notice(status: &UpdateStatus) -> (r: String)
    ensures
        r@ == notice(status@),
{
    if !status.available || char_count(status.latest_version.as_str()) == 0 {
        return String::new();
    }
    let mut text = "A newer snarf is available: ".to_owned();
    text.append(status.latest_version.as_str());
    text.append("\nUpdate: ");
    if char_count(status.command.as_str()) == 0 {
        text.append(status.release_url.as_str());
    } else {
        text.append(status.command.as_str());
    }
    text
}

/// Where the state is stored.
pub fn cache_path(cache_dir: &str) -> (r: String)
    ensures
        r@ == in_dir(cache_dir@, "update-check.json"@),
{
    path_in(cache_dir, "update-check.json")
}

/// For a day after a look that succeeded nothing is asked.
pub proof fn law_looks_are_a_day_apart(
    current: Seq<char>,
    allow_network: bool,
    install: Install,
    cached: Option<StateView>,
    version: Seq<char>,
    url: Seq<char>,
    now: Timestamp,
    later: Timestamp,
)
    requires
        !hours_passed(later, now, 24),
    ensures
        known_status(
            current,
            allow_network,
            install,
            Some(checked_state(current, install, cached, version, url, now)),
            later,
        ) is Some,
{
}

/// For six hours after a look that failed nothing is asked, where there is a state
/// of this version to answer from.
pub proof fn law_failed_looks_wait(
    current: Seq<char>,
    allow_network: bool,
    install: Install,
    state: StateView,
    now: Timestamp,
    later: Timestamp,
)
    requires
        state.schema_version == SCHEMA_VERSION,
        !hours_passed(later, now, 6),
    ensures
        known_status(
            current,
            allow_network,
            install,
            Some(failed_state(state, now)),
            later,
        ) is Some,
{
}

/// A release that was told of is not told of again for a day; another release is.
pub proof fn law_a_release_is_told_of_once_a_day(
    status: StatusView,
    other: StatusView,
    state: Option<StateView>,
    now: Timestamp,
    later: Timestamp,
)
    requires
        worth_telling(other),
        other.latest_version != status.latest_version,
    ensures
        tells(status, false, Some(told(status, state, now)), later) <==> worth_telling(status)
            && hours_passed(later, now, 24),
        tells(other, false, Some(told(status, state, now)), later),
{
}

/// There is a notice exactly where there is a release to tell of.
pub proof fn law_the_notice_is_empty_without_a_release(status: StatusView)
    ensures
        notice(status).len() > 0 <==> worth_telling(status),
{
    reveal_strlit("A newer snarf is available: ");
}

/// A version is read without white space around it and without the `v` before it.
pub proof fn law_the_letter_before_a_version(
    before: Seq<char>,
    version: Seq<char>,
    after: Seq<char>,
)
    requires
        forall|i: int| 0 <= i < before.len() ==> crate::text::is_white(#[trigger] before[i]),
        forall|i: int| 0 <= i < after.len() ==> crate::text::is_white(#[trigger] after[i]),
        version.len() > 0,
        !crate::text::is_white(version[0]),
        !crate::text::is_white(version.last()),
        version[0] != 'v',
    ensures
        plain_version(before + version + after) == version,
        plain_version(before + (seq!['v'] + version) + after) == version,
{
    crate::text::law_trimming(before, version, after);
    let lettered = seq!['v'] + version;
    assert(lettered.last() == version.last());
    crate::text::law_trimming(before, lettered, after);
    reveal_with_fuel(crate::text::skip_while, 2);
    assert(drop_front(version, only('v')) =~= version);
    assert(drop_front(lettered, only('v')) =~= version);
}

/// Versions are compared as semantic versions; where one of them is none, neither is newer.
pub proof fn law_how_versions_compare(left: Seq<char>, right: Seq<char>)
    ensures
        semver_valid(plain_version(left)) && semver_valid(plain_version(right)) ==> version_order(
            left,
            right,
        ) == semver_order(plain_version(left), plain_version(right)),
        !semver_valid(plain_version(left)) || !semver_valid(plain_version(right)) ==> version_order(
            left,
            right,
        ) == 0,
{
}

/// The page of the latest release stands behind the URL of the repository.
pub proof fn law_the_page_of_the_latest_release(repository: Seq<char>)
    requires
        repository.len() > 0,
        repository.last() != '/',
    ensures
        latest_page(repository) == repository + "/releases/latest"@,
        latest_page(repository + seq!['/']) == repository + "/releases/latest"@,
{
    reveal_with_fuel(crate::text::back_while, 3);
    assert(drop_back(repository, only('/')) =~= repository);
    let slashed = repository + seq!['/'];
    assert(slashed[slashed.len() - 1] == '/');
    assert(slashed[slashed.len() - 2] == repository.last());
    assert(drop_back(slashed, only('/')) =~= repository);
}

/// The latest release of a project on GitHub is asked for by its owner and its name.
pub proof fn law_where_the_latest_release_is_asked_for(project: Seq<char>)
    requires
        project.len() > 0,
        project.last() != '/',
        !crate::text::begins(project, "https://github.com/"@),
    ensures
        latest_api("https://github.com/"@ + project) == "https://api.github.com/repos/"@ + project
            + "/releases/latest"@,
{
    reveal_strlit("https://github.com/");
    let prefix = "https://github.com/"@;
    let s = prefix + project;
    reveal_with_fuel(crate::text::back_while, 2);
    assert(s.last() == project.last());
    assert(drop_back(s, only('/')) =~= s);
    assert(s.subrange(0, prefix.len() as int) =~= prefix);
    assert(s.subrange(prefix.len() as int, s.len() as int) =~= project);
    reveal_with_fuel(without_prefixes, 3);
}

/// What the environment says of how the program was installed counts, if it names a way;
/// else where the program is tells: among the files of Homebrew, of Cargo, or elsewhere.
pub proof fn law_how_the_program_was_installed(name: Seq<char>, exe: Seq<char>)
    ensures
        ({
            let word = lowered(trimmed(name));
            let path = lowered(exe);
            &&& word == "homebrew"@ || word == "cargo"@ || word == "manual"@ || word == "unknown"@
                ==> install_type_of(Some(name), exe) == word
            &&& word != "homebrew"@ && word != "cargo"@ && word != "manual"@ && word != "unknown"@
                ==> install_type_of(Some(name), exe) == install_type_of(None, exe)
            &&& occurs(path, "/homebrew/"@) || occurs(path, "/cellar/"@) ==> install_type_of(
                None,
                exe,
            ) == "homebrew"@
            &&& !occurs(path, "/homebrew/"@) && !occurs(path, "/cellar/"@) && (occurs(
                path,
                "/.cargo/bin/"@,
            ) || ends(path, "/cargo/bin/snarf"@)) ==> install_type_of(None, exe) == "cargo"@
            &&& !occurs(path, "/homebrew/"@) && !occurs(path, "/cellar/"@) && !occurs(
                path,
                "/.cargo/bin/"@,
            ) && !ends(path, "/cargo/bin/snarf"@) ==> install_type_of(None, exe) == (if ends(
                path,
                "/snarf"@,
            ) || ends(path, "\\snarf.exe"@) {
                "manual"@
            } else {
                "unknown"@
            })
        }),
{
}

/// The command that installs anew is what the environment sets, or else the one of Cargo
/// where the program was installed with it, or else the page of the latest release.
pub proof fn law_the_command_that_installs_anew(
    install_type: Seq<char>,
    command: Seq<char>,
    text: Seq<char>,
)
    ensures
        command_of(install_type, Some(command)) == command,
        command_of("cargo"@, None) == "cargo install --git "@
            + "https://github.com/kdheepak/snarf"@ + " --force"@,
        install_type != "cargo"@ ==> command_of(install_type, None) == latest_page(
            "https://github.com/kdheepak/snarf"@,
        ),
        override_of(None) is None,
        trimmed(text).len() > 0 ==> override_of(Some(text)) == Some(trimmed(text)),
        trimmed(text).len() == 0 ==> override_of(Some(text)) is None,
        shown_command(text, command, true) == command,
        text.len() > 0 ==> shown_command(text, command, false) == text,
        text.len() == 0 ==> shown_command(text, command, false) == command,
{
}

/// What a stored state says: the release that was found then, whether it is newer, and
/// whether the look is a day old.
pub proof fn law_what_a_stored_state_says(
    state: StateView,
    current: Seq<char>,
    install: Install,
    now: Timestamp,
)
    ensures
        ({
            let status = stored_status(state, current, install, now);
            &&& status.available <==> version_order(current, plain_version(state.latest_version))
                < 0
            &&& status.latest_version == plain_version(state.latest_version)
            &&& status.checked_at == state.last_checked_at
            &&& status.install_type == install.install_type@
            &&& status.source == "cache"@
            &&& state.release_url.len() > 0 ==> status.release_url == state.release_url
            &&& state.release_url.len() == 0 ==> status.release_url == latest_page(
                "https://github.com/kdheepak/snarf"@,
            )
            &&& status.command == shown_command(
                state.update_command,
                install.command@,
                install.overridden,
            )
            &&& status.cache_stale <==> (state.last_checked_at matches Some(then) ==> now.in_nanos()
                - then.in_nanos() >= 24 * 3600 * 1_000_000_000)
        }),
{
}

/// The latest release is asked for exactly if the current version can be compared, the network
/// may be used, and the stored state is of another format, or is a day old without a look that
/// failed in the last six hours.
pub proof fn law_when_the_latest_release_is_asked_for(
    current: Seq<char>,
    allow_network: bool,
    install: Install,
    state: StateView,
    now: Timestamp,
)
    ensures
        known_status(current, allow_network, install, None, now) is None <==> allow_network
            && semver_valid(plain_version(current)),
        known_status(current, allow_network, install, Some(state), now) is None <==> allow_network
            && semver_valid(plain_version(current)) && (state.schema_version != 1 || ((
        state.last_checked_at matches Some(then) ==> now.in_nanos() - then.in_nanos() >= 24 * 3600
            * 1_000_000_000) && (state.last_check_failed_at matches Some(then) ==> now.in_nanos()
            - then.in_nanos() >= 6 * 3600 * 1_000_000_000))),
        semver_valid(plain_version(current)) && state.schema_version == 1 ==> (known_status(
            current,
            allow_network,
            install,
            Some(state),
            now,
        ) matches Some(status) ==> status == stored_status(state, current, install, now)),
        known_status(current, false, install, None, now) == Some(blank_status(install)),
        !semver_valid(plain_version(current)) ==> known_status(
            current,
            allow_network,
            install,
            Some(state),
            now,
        ) == Some(blank_status(install)),
{
}

/// Without a stored state only the installation is known, and no release is told of.
pub proof fn law_what_is_known_without_a_state(install: Install)
    ensures
        !blank_status(install).available,
        !blank_status(install).cache_stale,
        blank_status(install).checked_at is None,
        blank_status(install).latest_version.len() == 0,
        blank_status(install).install_type == install.install_type@,
        blank_status(install).command == install.command@,
        blank_status(install).release_url == latest_page("https://github.com/kdheepak/snarf"@),
        blank_status(install).source == "none"@,
{
}

/// After a look that succeeded the state holds the release that was found, and what was told
/// of before; after one that failed it holds only that besides what it held.
pub proof fn law_what_is_stored_after_a_look(
    current: Seq<char>,
    install: Install,
    cached: StateView,
    version: Seq<char>,
    url: Seq<char>,
    now: Timestamp,
)
    ensures
        ({
            let state = checked_state(current, install, Some(cached), version, url, now);
            &&& state.schema_version == 1
            &&& state.current_version == current
            &&& state.last_checked_at == Some(now)
            &&& state.last_check_failed_at is None
            &&& state.latest_version == version
            &&& state.release_url == url
            &&& state.update_available <==> version_order(current, version) < 0
            &&& state.install_type == install.install_type@
            &&& state.update_command == install.command@
            &&& state.last_notified_at == cached.last_notified_at
            &&& state.last_notified_version == cached.last_notified_version
        }),
        checked_state(current, install, None, version, url, now).last_notified_at is None,
        failed_state(cached, now).last_check_failed_at == Some(now),
        failed_state(cached, now).last_checked_at == cached.last_checked_at,
        failed_state(cached, now).latest_version == cached.latest_version,
        failed_state(cached, now).last_notified_version == cached.last_notified_version,
{
}

/// Notices are switched off by `1`, `true`, `yes` or `on`, in capitals or small letters, and by
/// nothing else.
pub proof fn law_what_switches_notices_off(value: Seq<char>)
    ensures
        switches_off(value) <==> lowered(trimmed(value)) == "1"@ || lowered(trimmed(value))
            == "true"@ || lowered(trimmed(value)) == "yes"@ || lowered(trimmed(value)) == "on"@,
{
}

/// A release is told of where it is newer, notices are not switched off, and it was not told
/// of in the last day.
pub proof fn law_when_a_release_is_told_of(
    status: StatusView,
    off: bool,
    state: StateView,
    now: Timestamp,
)
    ensures
        tells(status, off, None, now) <==> !off && status.available && status.latest_version.len()
            > 0,
        tells(status, off, Some(state), now) <==> !off && status.available
            && status.latest_version.len() > 0 && (state.last_notified_version
            != status.latest_version || (state.last_notified_at matches Some(then)
            ==> now.in_nanos() - then.in_nanos() >= 24 * 3600 * 1_000_000_000)),
{
}

/// After a release was told of, the state holds when and which, and all that it held before.
pub proof fn law_what_is_stored_after_telling(
    status: StatusView,
    state: StateView,
    now: Timestamp,
)
    ensures
        told(status, Some(state), now).last_notified_at == Some(now),
        told(status, Some(state), now).last_notified_version == status.latest_version,
        told(status, Some(state), now).last_checked_at == state.last_checked_at,
        told(status, Some(state), now).last_check_failed_at == state.last_check_failed_at,
        told(status, Some(state), now).latest_version == state.latest_version,
        told(status, Some(state), now).schema_version == state.schema_version,
        told(status, None, now).last_notified_at == Some(now),
        told(status, None, now).last_notified_version == status.latest_version,
        told(status, None, now).schema_version == 1,
        told(status, None, now).last_checked_at is None,
{
}

/// The notice names the release and how to get it: by its command, or else at its page.
pub proof fn law_what_the_notice_says(status: StatusView)
    requires
        status.available,
        status.latest_version.len() > 0,
    ensures
        status.command.len() > 0 ==> notice(status) == "A newer snarf is available: "@
            + status.latest_version + "\nUpdate: "@ + status.command,
        status.command.len() == 0 ==> notice(status) == "A newer snarf is available: "@
            + status.latest_version + "\nUpdate: "@ + status.release_url,
{
}

/// What is known of newer releases is seen as its fields are.
pub proof fn law_what_a_status_holds(record: UpdateStatus)
    ensures
        record@.latest_version == record.latest_version@,
        record@.install_type == record.install_type@,
        record@.command == record.command@,
        record@.release_url == record.release_url@,
        record@.source == record.source@,
        record@.checked_at == record.checked_at,
        record@.cache_stale == record.cache_stale,
        record@.available == record.available,
{
}

/// What is stored between looks is seen as its fields are.
pub proof fn law_what_a_state_holds(record: CacheState)
    ensures
        record@.current_version == record.current_version@,
        record@.latest_version == record.latest_version@,
        record@.release_url == record.release_url@,
        record@.install_type == record.install_type@,
        record@.update_command == record.update_command@,
        record@.last_notified_version == record.last_notified_version@,
        record@.schema_version == record.schema_version,
        record@.last_checked_at == record.last_checked_at,
        record@.last_check_failed_at == record.last_check_failed_at,
        record@.update_available == record.update_available,
        record@.last_notified_at == record.last_notified_at,
{
}

} // verus!
