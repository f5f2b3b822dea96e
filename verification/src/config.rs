//! Configuration: its model, validation, discovery and source resolution.
//!
//! A configuration lists projects, each an organization or one repository:
//!
//! ```yaml
//! projects:
//!   - org: example-org
//!     exclude: [example-org/sandbox]
//!   - repo: octocat/Hello-World
//! ```

use vstd::prelude::*;
use vstd::string::*;

use std::cmp::Ordering;
use std::path::PathBuf;

use crate::text;

verus! {

/// Where the config file lies below a config root.
pub const REL_PATH: &'static str = "actstat/config.yml";

/// Where the config root lies below the home directory.
pub const HOME_ROOT: &'static str = ".config";

/// Why a configuration could not be had.
#[derive(Debug)]
pub enum ConfigError {
    /// No config file was found; holds the paths that were searched.
    NotFound(String),
    /// The config file could not be read.
    Read {
        /// Path of the file.
        path: String,
        /// What the system said.
        source: String,
    },
    /// The config file could not be parsed or is not valid.
    Invalid {
        /// Path of the file.
        path: String,
        /// What is wrong.
        message: String,
    },
}

/// The view of a [`ConfigError`].
pub enum ConfigErrorView {
    NotFound(Seq<char>),
    Read { path: Seq<char>, source: Seq<char> },
    Invalid { path: Seq<char>, message: Seq<char> },
}

impl View for ConfigError {
    type V = ConfigErrorView;

    open spec fn view(&self) -> ConfigErrorView {
        match self {
            ConfigError::NotFound(searched) => ConfigErrorView::NotFound(searched@),
            ConfigError::Read { path, source } => ConfigErrorView::Read {
                path: path@,
                source: source@,
            },
            ConfigError::Invalid { path, message } => ConfigErrorView::Invalid {
                path: path@,
                message: message@,
            },
        }
    }
}

impl ConfigErrorView {
    /// The message for the user.
    pub open spec fn message(self) -> Seq<char> {
        match self {
            ConfigErrorView::NotFound(searched) => "no actstat config found (looked in: "@
                + searched + "); create one or pass --config PATH / set ACTSTAT_CONFIG"@,
            ConfigErrorView::Read { path, source } => "failed to read config at "@ + path + ": "@
                + source,
            ConfigErrorView::Invalid { path, message } => "invalid config at "@ + path + ": "@
                + message,
        }
    }
}

impl ConfigError {
    /// The message for the user.
    pub fn to_string(&self) -> (r: String)
        ensures
            r@ == self@.message(),
    {
        match self {
            ConfigError::NotFound(searched) => "no actstat config found (looked in: ".to_owned()
                .concat(searched.as_str()).concat(
                "); create one or pass --config PATH / set ACTSTAT_CONFIG",
            ),
            ConfigError::Read { path, source } => "failed to read config at ".to_owned().concat(
                path.as_str(),
            ).concat(": ").concat(source.as_str()),
            ConfigError::Invalid { path, message } => "invalid config at ".to_owned().concat(
                path.as_str(),
            ).concat(": ").concat(message.as_str()),
        }
    }
}

/// A repository's `owner/name`.
#[derive(Debug, PartialEq, Eq, Hash)]
pub struct RepoName {
    /// Login of the owning organization or user.
    pub owner: String,
    /// Name of the repository.
    pub name: String,
}

/// The view of a [`RepoName`].
#[verifier::ext_equal]
pub struct NameView {
    pub owner: Seq<char>,
    pub name: Seq<char>,
}

impl View for RepoName {
    type V = NameView;

    open spec fn view(&self) -> NameView {
        NameView { owner: self.owner@, name: self.name@ }
    }
}

/// Whether `s` can be one side of an `owner/name`: not empty, without `/` and
/// without white space.
pub open spec fn plain_side(s: Seq<char>) -> bool {
    s.len() > 0 && !s.contains('/') && !text::holds_space(s)
}

impl NameView {
    /// The rendering as `owner/name`.
    pub open spec fn full(self) -> Seq<char> {
        self.owner + "/"@ + self.name
    }

    /// Whether this repository stands before `other` in every list: the order
    /// is that of the whole `owner/name`, in which the `/` takes part.
    pub open spec fn precedes(self, other: NameView) -> bool {
        text::before(self.full(), other.full())
    }

    /// Whether both sides are plain.
    pub open spec fn well_formed(self) -> bool {
        plain_side(self.owner) && plain_side(self.name)
    }
}

/// What `s` names, or why it names no repository.
pub open spec fn parsed_name(s: Seq<char>) -> Result<NameView, Seq<char>> {
    let t = text::trimmed(s);
    let sides = text::parts(t, '/');
    let owner = text::trimmed(sides[0]);
    let name = text::trimmed(sides[1]);
    if sides.len() != 2 {
        Err("repo `"@ + t + "` must be in `owner/name` form"@)
    } else if owner.len() == 0 || name.len() == 0 {
        Err("repo `"@ + t + "` must be in `owner/name` form (both owner and name are required)"@)
    } else if text::holds_space(owner) || text::holds_space(name) {
        Err("repo `"@ + t + "` must not contain whitespace"@)
    } else {
        Ok(NameView { owner, name })
    }
}

impl Clone for RepoName {
    fn clone(&self) -> (r: Self)
        ensures
            r == *self,
    {
        RepoName { owner: self.owner.clone(), name: self.name.clone() }
    }
}

impl RepoName {
    /// Parse an `owner/name`. White space around the whole and around each
    /// side is ignored; white space within a side, a missing or an extra `/`
    /// and an empty side are refused.
    pub fn parse(s: &str) -> (r: Result<RepoName, String>)
        ensures
            match r {
                Ok(name) => parsed_name(s@) == Ok::<NameView, Seq<char>>(name@),
                Err(message) => parsed_name(s@) == Err::<NameView, Seq<char>>(message@),
            },
    {
        let trimmed = text::trim(s);
        let sides = text::split(trimmed.as_str(), '/');
        assert(text::views(sides@).len() == sides@.len());
        if sides.len() != 2 {
            return Err(
                "repo `".to_owned().concat(trimmed.as_str()).concat(
                    "` must be in `owner/name` form",
                ),
            );
        }
        let owner = text::trim(sides[0].as_str());
        let name = text::trim(sides[1].as_str());
        if owner.as_str().is_empty() || name.as_str().is_empty() {
            return Err(
                "repo `".to_owned().concat(trimmed.as_str()).concat(
                    "` must be in `owner/name` form (both owner and name are required)",
                ),
            );
        }
        if text::has_space(owner.as_str()) || text::has_space(name.as_str()) {
            return Err(
                "repo `".to_owned().concat(trimmed.as_str()).concat(
                    "` must not contain whitespace",
                ),
            );
        }
        Ok(RepoName { owner, name })
    }

    /// The rendering as `owner/name`.
    pub fn full_name(&self) -> (r: String)
        ensures
            r@ == self@.full(),
    {
        self.owner.clone().concat("/").concat(self.name.as_str())
    }

    /// Whether this repository stands before `other` in every list.
    pub fn precedes(&self, other: &RepoName) -> (r: bool)
        ensures
            r == self@.precedes(other@),
    {
        text::precedes(self.full_name().as_str(), other.full_name().as_str())
    }

    /// The rendering as `owner/name`.
    pub fn to_string(&self) -> (r: String)
        ensures
            r@ == self@.full(),
    {
        self.full_name()
    }
}

impl PartialOrd for RepoName {
    fn partial_cmp(&self, other: &Self) -> (r: Option<Ordering>) {
        if self.precedes(other) {
            Some(Ordering::Less)
        } else if other.precedes(self) {
            Some(Ordering::Greater)
        } else {
            Some(Ordering::Equal)
        }
    }
}

impl vstd::std_specs::cmp::PartialOrdSpecImpl for RepoName {
    open spec fn obeys_partial_cmp_spec() -> bool {
        true
    }

    open spec fn partial_cmp_spec(&self, other: &Self) -> Option<Ordering> {
        if self@.precedes(other@) {
            Some(Ordering::Less)
        } else if other@.precedes(self@) {
            Some(Ordering::Greater)
        } else {
            Some(Ordering::Equal)
        }
    }
}

/// An organization whose repositories are to be inspected.
#[derive(Debug, Clone, PartialEq, Eq)]
pub struct OrgSource {
    /// Bare organization login.
    pub org: String,
    /// Whether archived repositories take part.
    pub include_archived: bool,
    /// Whether forks take part.
    pub include_forks: bool,
    /// Repositories to leave out.
    pub exclude: Vec<RepoName>,
}

/// One configured source of repositories.
#[derive(Debug, Clone, PartialEq, Eq)]
pub enum ProjectSource {
    /// Every repository of an organization that its filters let pass.
    Org(OrgSource),
    /// One repository.
    Repo(RepoName),
}

/// A validated configuration.
#[derive(Debug, Clone, PartialEq, Eq)]
pub struct Config {
    /// The sources, in the order in which they are written.
    pub projects: Vec<ProjectSource>,
}

/// The views of a sequence of names.
pub open spec fn name_views(names: Seq<RepoName>) -> Seq<NameView> {
    names.map_values(|n: RepoName| n@)
}

/// The view of an [`OrgSource`].
#[verifier::ext_equal]
pub struct OrgView {
    pub org: Seq<char>,
    pub include_archived: bool,
    pub include_forks: bool,
    pub exclude: Seq<NameView>,
}

impl View for OrgSource {
    type V = OrgView;

    open spec fn view(&self) -> OrgView {
        OrgView {
            org: self.org@,
            include_archived: self.include_archived,
            include_forks: self.include_forks,
            exclude: name_views(self.exclude@),
        }
    }
}

/// The view of a [`ProjectSource`].
#[verifier::ext_equal]
pub enum ProjectView {
    Org(OrgView),
    Repo(NameView),
}

impl View for ProjectSource {
    type V = ProjectView;

    open spec fn view(&self) -> ProjectView {
        match self {
            ProjectSource::Org(org) => ProjectView::Org(org@),
            ProjectSource::Repo(name) => ProjectView::Repo(name@),
        }
    }
}

impl View for Config {
    type V = Seq<ProjectView>;

    open spec fn view(&self) -> Seq<ProjectView> {
        self.projects@.map_values(|p: ProjectSource| p@)
    }
}

/// A project entry as it is written, before validation.
#[derive(Debug)]
pub struct RawProject {
    /// The organization, where the entry names one.
    pub org: Option<String>,
    /// The repository, where the entry names one.
    pub repo: Option<String>,
    /// Whether archived repositories take part, where the entry says so.
    pub include_archived: Option<bool>,
    /// Whether forks take part, where the entry says so.
    pub include_forks: Option<bool>,
    /// Repositories to leave out, where the entry lists them.
    pub exclude: Option<Vec<String>>,
}

/// A config file as it is written, before validation.
#[derive(Debug)]
pub struct RawConfig {
    /// The project entries, where the file has them.
    pub projects: Option<Vec<RawProject>>,
}

/// The view of a [`RawProject`].
pub struct RawProjectView {
    pub org: Option<Seq<char>>,
    pub repo: Option<Seq<char>>,
    pub include_archived: Option<bool>,
    pub include_forks: Option<bool>,
    pub exclude: Option<Seq<Seq<char>>>,
}

impl View for RawProject {
    type V = RawProjectView;

    open spec fn view(&self) -> RawProjectView {
        RawProjectView {
            org: text::option_view(self.org),
            repo: text::option_view(self.repo),
            include_archived: self.include_archived,
            include_forks: self.include_forks,
            exclude: match self.exclude {
                Some(list) => Some(text::views(list@)),
                None => None,
            },
        }
    }
}

impl View for RawConfig {
    type V = Option<Seq<RawProjectView>>;

    open spec fn view(&self) -> Option<Seq<RawProjectView>> {
        match self.projects {
            Some(list) => Some(list@.map_values(|p: RawProject| p@)),
            None => None,
        }
    }
}

/// How a message about the project numbered `n` begins.
pub open spec fn project_label(n: nat) -> Seq<char> {
    "project #"@ + text::decimal(n)
}

/// How a message about the project numbered `n` begins.
fn label(n: usize) -> (r: String)
    ensures
        r@ == project_label(n as nat),
{
    "project #".to_owned().concat(text::decimal_text(n as u64).as_str())
}

/// The names that an organization's `exclude` list holds, or what is wrong
/// with its first bad entry.
pub open spec fn excluded_names(org: Seq<char>, entries: Seq<Seq<char>>, n: nat) -> Result<
    Seq<NameView>,
    Seq<char>,
>
    decreases entries.len(),
{
    if entries.len() == 0 {
        Ok(Seq::empty())
    } else {
        match excluded_names(org, entries.drop_last(), n) {
            Err(message) => Err(message),
            Ok(names) => match parsed_name(entries.last()) {
                Err(message) => Err(project_label(n) + " `exclude`: "@ + message),
                Ok(name) => if text::lowered(name.owner) != text::lowered(org) {
                    Err(
                        project_label(n) + " `exclude`: `"@ + name.full() + "` is not in org `"@
                            + org + "`"@,
                    )
                } else {
                    Ok(names.push(name))
                },
            },
        }
    }
}

/// The entries of an optional list.
pub open spec fn listed(list: Option<Seq<Seq<char>>>) -> Seq<Seq<char>> {
    match list {
        Some(entries) => entries,
        None => Seq::empty(),
    }
}

/// The organization that an entry describes, or what is wrong with it.
pub open spec fn valid_org(raw: RawProjectView, org: Seq<char>, n: nat) -> Result<
    OrgView,
    Seq<char>,
> {
    let login = text::trimmed(org);
    if login.len() == 0 {
        Err(project_label(n) + ": `org` must not be empty"@)
    } else if login.contains('/') {
        Err(
            project_label(n) + ": `org` must be a bare organization name, not `"@ + login + "`"@,
        )
    } else {
        match excluded_names(login, listed(raw.exclude), n) {
            Err(message) => Err(message),
            Ok(exclude) => Ok(
                OrgView {
                    org: login,
                    include_archived: raw.include_archived == Some(true),
                    include_forks: raw.include_forks == Some(true),
                    exclude,
                },
            ),
        }
    }
}

/// The first key of a repository entry that only an organization may carry.
pub open spec fn misplaced_key(raw: RawProjectView) -> Option<Seq<char>> {
    if raw.exclude is Some {
        Some("exclude"@)
    } else if raw.include_archived is Some {
        Some("include_archived"@)
    } else if raw.include_forks is Some {
        Some("include_forks"@)
    } else {
        None
    }
}

/// What is wrong with a repository entry that carries `key`.
pub open spec fn misplaced_message(n: nat, key: Seq<char>) -> Seq<char> {
    project_label(n) + ": `"@ + key + "` only applies to `org:` entries, not `repo:`"@
}

/// The source that the entry numbered `n` describes, or what is wrong with it.
pub open spec fn valid_project(raw: RawProjectView, n: nat) -> Result<ProjectView, Seq<char>> {
    match (raw.org, raw.repo) {
        (Some(_), Some(_)) => Err(
            project_label(n) + " sets both `org` and `repo`; each entry must set exactly one"@,
        ),
        (None, None) => Err(
            project_label(n) + " sets neither `org` nor `repo`; each entry must set exactly one"@,
        ),
        (Some(org), None) => match valid_org(raw, org, n) {
            Err(message) => Err(message),
            Ok(view) => Ok(ProjectView::Org(view)),
        },
        (None, Some(repo)) => match misplaced_key(raw) {
            Some(key) => Err(misplaced_message(n, key)),
            None => match parsed_name(repo) {
                Err(message) => Err(project_label(n) + ": "@ + message),
                Ok(name) => Ok(ProjectView::Repo(name)),
            },
        },
    }
}

/// The sources that the entries describe, or what is wrong with the first bad
/// one.
pub open spec fn valid_projects(raw: Seq<RawProjectView>) -> Result<Seq<ProjectView>, Seq<char>>
    decreases raw.len(),
{
    if raw.len() == 0 {
        Ok(Seq::empty())
    } else {
        match valid_projects(raw.drop_last()) {
            Err(message) => Err(message),
            Ok(done) => match valid_project(raw.last(), raw.len()) {
                Err(message) => Err(message),
                Ok(project) => Ok(done.push(project)),
            },
        }
    }
}

/// The configuration that a file describes, or what is wrong with it.
pub open spec fn valid_config(raw: Option<Seq<RawProjectView>>) -> Result<
    Seq<ProjectView>,
    Seq<char>,
> {
    match raw {
        Some(entries) if entries.len() > 0 => valid_projects(entries),
        _ => Err("config has no `projects`: add at least one `org:` or `repo:` entry"@),
    }
}

/// The error for an invalid file at `path`.
pub fn invalid(path: &str, message: String) -> (r: ConfigError)
    ensures
        r@ == (ConfigErrorView::Invalid { path: path@, message: message@ }),
{
    ConfigError::Invalid { path: path.to_owned(), message }
}

/// The error for an organization's key on a repository entry.
pub fn org_only_field_error(path: &str, n: usize, field: &str) -> (r: ConfigError)
    ensures
        r@ == (ConfigErrorView::Invalid {
            path: path@,
            message: misplaced_message(n as nat, field@),
        }),
{
    let message = label(n).concat(": `").concat(field).concat(
        "` only applies to `org:` entries, not `repo:`",
    );
    invalid(path, message)
}

/// Check that a repository entry carries no key of an organization.
pub fn validate_repo_entry_fields(raw: &RawProject, n: usize, path: &str) -> (r: Result<
    (),
    ConfigError,
>)
    ensures
        match r {
            Ok(_) => misplaced_key(raw@) is None,
            Err(e) => misplaced_key(raw@) matches Some(key) && e@ == (ConfigErrorView::Invalid {
                path: path@,
                message: misplaced_message(n as nat, key),
            }),
        },
{
    if raw.exclude.is_some() {
        return Err(org_only_field_error(path, n, "exclude"));
    }
    if raw.include_archived.is_some() {
        return Err(org_only_field_error(path, n, "include_archived"));
    }
    if raw.include_forks.is_some() {
        return Err(org_only_field_error(path, n, "include_forks"));
    }
    Ok(())
}

/// Validate an `exclude` list.
fn validate_exclude(org: &str, entries: &Vec<String>, n: usize, path: &str) -> (r: Result<
    Vec<RepoName>,
    ConfigError,
>)
    ensures
        match r {
            Ok(names) => excluded_names(org@, text::views(entries@), n as nat) == Ok::<
                Seq<NameView>,
                Seq<char>,
            >(name_views(names@)),
            Err(e) => excluded_names(org@, text::views(entries@), n as nat) matches Err(message)
                && e@ == (ConfigErrorView::Invalid { path: path@, message }),
        },
{
    let ghost all = text::views(entries@);
    let wanted = text::lowercase(org);
    let mut names: Vec<RepoName> = Vec::new();
    assert(all.take(0) =~= Seq::empty());
    assert(name_views(names@) =~= Seq::empty());
    for i in 0..entries.len()
        invariant
            all == text::views(entries@),
            wanted@ == text::lowered(org@),
            excluded_names(org@, all.take(i as int), n as nat) == Ok::<Seq<NameView>, Seq<char>>(
                name_views(names@),
            ),
    {
        let ghost upto = all.take(i + 1);
        assert(upto.drop_last() =~= all.take(i as int));
        assert(upto.last() == entries@[i as int]@);
        match RepoName::parse(entries[i].as_str()) {
            Err(message) => {
                proof {
                    lemma_first_bad_exclude(org@, all, i as int, n as nat);
                }
                return Err(
                    invalid(path, label(n).concat(" `exclude`: ").concat(message.as_str())),
                );
            },
            Ok(name) => {
                if !text::same(text::lowercase(name.owner.as_str()).as_str(), wanted.as_str()) {
                    proof {
                        lemma_first_bad_exclude(org@, all, i as int, n as nat);
                    }
                    let message = label(n).concat(" `exclude`: `").concat(
                        name.full_name().as_str(),
                    ).concat("` is not in org `").concat(org).concat("`");
                    return Err(invalid(path, message));
                }
                let ghost before = names@;
                names.push(name);
                assert(name_views(names@) =~= name_views(before).push(name@));
            },
        }
    }
    assert(all.take(all.len() as int) =~= all);
    Ok(names)
}

/// What is wrong with a first bad entry is what is wrong with the list.
proof fn lemma_first_bad_exclude(org: Seq<char>, all: Seq<Seq<char>>, i: int, n: nat)
    requires
        0 <= i < all.len(),
        excluded_names(org, all.take(i + 1), n) is Err,
    ensures
        excluded_names(org, all, n) == excluded_names(org, all.take(i + 1), n),
    decreases all.len(),
{
    if i + 1 == all.len() {
        assert(all.take(i + 1) =~= all);
    } else {
        assert(all.drop_last().take(i + 1) =~= all.take(i + 1));
        lemma_first_bad_exclude(org, all.drop_last(), i, n);
    }
}

/// Validate an organization entry.
pub fn validate_org(raw: &RawProject, org: &str, n: usize, path: &str) -> (r: Result<
    OrgSource,
    ConfigError,
>)
    ensures
        match r {
            Ok(source) => valid_org(raw@, org@, n as nat) == Ok::<OrgView, Seq<char>>(source@),
            Err(e) => valid_org(raw@, org@, n as nat) matches Err(message) && e@ == (
            ConfigErrorView::Invalid { path: path@, message }),
        },
{
    let login = text::trim(org);
    if login.as_str().is_empty() {
        return Err(invalid(path, label(n).concat(": `org` must not be empty")));
    }
    if text::has_char(login.as_str(), '/') {
        let message = label(n).concat(": `org` must be a bare organization name, not `").concat(
            login.as_str(),
        ).concat("`");
        return Err(invalid(path, message));
    }
    let names = match &raw.exclude {
        Some(entries) => validate_exclude(login.as_str(), entries, n, path),
        None => {
            let none: Vec<RepoName> = Vec::new();
            assert(name_views(none@) =~= Seq::empty());
            Ok(none)
        },
    };
    match names {
        Err(e) => Err(e),
        Ok(exclude) => Ok(
            OrgSource {
                org: login,
                include_archived: raw.include_archived.unwrap_or(false),
                include_forks: raw.include_forks.unwrap_or(false),
                exclude,
            },
        ),
    }
}

/// Validate the entry numbered `n`.
fn validate_project(raw: &RawProject, n: usize, path: &str) -> (r: Result<
    ProjectSource,
    ConfigError,
>)
    ensures
        match r {
            Ok(source) => valid_project(raw@, n as nat) == Ok::<ProjectView, Seq<char>>(source@),
            Err(e) => valid_project(raw@, n as nat) matches Err(message) && e@ == (
            ConfigErrorView::Invalid { path: path@, message }),
        },
{
    match (&raw.org, &raw.repo) {
        (Some(_), Some(_)) => Err(
            invalid(
                path,
                label(n).concat(" sets both `org` and `repo`; each entry must set exactly one"),
            ),
        ),
        (None, None) => Err(
            invalid(
                path,
                label(n).concat(" sets neither `org` nor `repo`; each entry must set exactly one"),
            ),
        ),
        (Some(org), None) => match validate_org(raw, org.as_str(), n, path) {
            Ok(source) => Ok(ProjectSource::Org(source)),
            Err(e) => Err(e),
        },
        (None, Some(repo)) => match validate_repo_entry_fields(raw, n, path) {
            Err(e) => Err(e),
            Ok(_) => match RepoName::parse(repo.as_str()) {
                Ok(name) => Ok(ProjectSource::Repo(name)),
                Err(message) => Err(
                    invalid(path, label(n).concat(": ").concat(message.as_str())),
                ),
            },
        },
    }
}

/// What is wrong with a first bad entry is what is wrong with the file.
proof fn lemma_first_bad_project(all: Seq<RawProjectView>, i: int)
    requires
        0 <= i < all.len(),
        valid_projects(all.take(i + 1)) is Err,
    ensures
        valid_projects(all) == valid_projects(all.take(i + 1)),
    decreases all.len(),
{
    if i + 1 == all.len() {
        assert(all.take(i + 1) =~= all);
    } else {
        assert(all.drop_last().take(i + 1) =~= all.take(i + 1));
        lemma_first_bad_project(all.drop_last(), i);
    }
}

/// Turn a config file's entries into a checked configuration, or say what is
/// wrong with the first bad one.
pub fn validate(raw: RawConfig, path: &str) -> (r: Result<Config, ConfigError>)
    ensures
        match r {
            Ok(config) => valid_config(raw@) == Ok::<Seq<ProjectView>, Seq<char>>(config@),
            Err(e) => valid_config(raw@) matches Err(message) && e@ == (ConfigErrorView::Invalid {
                path: path@,
                message,
            }),
        },
{
    let empty = "config has no `projects`: add at least one `org:` or `repo:` entry";
    let entries = match raw.projects {
        None => {
            return Err(invalid(path, empty.to_owned()));
        },
        Some(entries) => entries,
    };
    if entries.len() == 0 {
        return Err(invalid(path, empty.to_owned()));
    }
    let ghost all = entries@.map_values(|p: RawProject| p@);
    let mut projects: Vec<ProjectSource> = Vec::new();
    let ghost mut done: Seq<ProjectView> = Seq::empty();
    assert(all.take(0) =~= Seq::empty());
    for i in 0..entries.len()
        invariant
            raw@ == Some(all),
            entries@.len() > 0,
            all == entries@.map_values(|p: RawProject| p@),
            done == projects@.map_values(|p: ProjectSource| p@),
            valid_projects(all.take(i as int)) == Ok::<Seq<ProjectView>, Seq<char>>(done),
    {
        let ghost upto = all.take(i + 1);
        assert(upto.drop_last() =~= all.take(i as int));
        assert(upto.last() == entries@[i as int]@);
        match validate_project(&entries[i], i + 1, path) {
            Err(e) => {
                proof {
                    lemma_first_bad_project(all, i as int);
                }
                return Err(e);
            },
            Ok(source) => {
                let ghost before = projects@;
                projects.push(source);
                proof {
                    done = done.push(source@);
                    assert(projects@.map_values(|p: ProjectSource| p@) =~= done);
                }
            },
        }
    }
    assert(all.take(all.len() as int) =~= all);
    Ok(Config { projects })
}

/// Validate what a YAML parser made of a config file: its entries, or what it
/// said of a file that it could not read.
pub fn parse_str(parsed: Result<RawConfig, String>, source_path: &str) -> (r: Result<
    Config,
    ConfigError,
>)
    ensures
        match parsed {
            Err(said) => r matches Err(e) && e@ == (ConfigErrorView::Invalid {
                path: source_path@,
                message: "YAML parse error: "@ + said@,
            }),
            Ok(raw) => match r {
                Ok(config) => valid_config(raw@) == Ok::<Seq<ProjectView>, Seq<char>>(config@),
                Err(e) => valid_config(raw@) matches Err(message) && e@ == (
                ConfigErrorView::Invalid { path: source_path@, message }),
            },
        },
{
    match parsed {
        Err(said) => Err(
            invalid(source_path, "YAML parse error: ".to_owned().concat(said.as_str())),
        ),
        Ok(raw) => validate(raw, source_path),
    }
}

/// What reading a config file came to.
pub enum Contents {
    /// The file could not be read; what the system said.
    Unreadable(String),
    /// The text is no YAML of the right shape; what the parser said.
    Unparsable(String),
    /// The entries.
    Parsed(RawConfig),
}

/// Validate what reading the config file at `path` came to.
pub fn load_file(path: &str, contents: Contents) -> (r: Result<Config, ConfigError>)
    ensures
        match contents {
            Contents::Unreadable(said) => r matches Err(e) && e@ == (ConfigErrorView::Read {
                path: path@,
                source: said@,
            }),
            Contents::Unparsable(said) => r matches Err(e) && e@ == (ConfigErrorView::Invalid {
                path: path@,
                message: "YAML parse error: "@ + said@,
            }),
            Contents::Parsed(raw) => match r {
                Ok(config) => valid_config(raw@) == Ok::<Seq<ProjectView>, Seq<char>>(config@),
                Err(e) => valid_config(raw@) matches Err(message) && e@ == (
                ConfigErrorView::Invalid { path: path@, message }),
            },
        },
{
    match contents {
        Contents::Unreadable(said) => Err(
            ConfigError::Read { path: path.to_owned(), source: said },
        ),
        Contents::Unparsable(said) => parse_str(Err(said), path),
        Contents::Parsed(raw) => parse_str(Ok(raw), path),
    }
}

/// `std::path::PathBuf`, carried as an opaque value.
#[verifier::external_type_specification]
#[verifier::external_body]
pub struct ExPathBuf(std::path::PathBuf);

/// A well-known place for the config file.
pub struct Candidate {
    /// The path.
    pub path: PathBuf,
    /// The path as it is shown to the user.
    pub shown: String,
    /// Whether a file is there.
    pub is_file: bool,
}

/// What the environment says about where the config file is.
pub struct DiscoveryEnv {
    /// The path that `ACTSTAT_CONFIG` holds.
    pub actstat_config: Option<PathBuf>,
    /// The place below `XDG_CONFIG_HOME`.
    pub xdg_config_home: Option<Candidate>,
    /// The place below `.config` in the home directory.
    pub home: Option<Candidate>,
}

/// The well-known places, in the order in which they are tried.
pub open spec fn places(env: DiscoveryEnv) -> Seq<Candidate> {
    let xdg = match env.xdg_config_home {
        Some(place) => seq![place],
        None => Seq::empty(),
    };
    match env.home {
        Some(place) => xdg.push(place),
        None => xdg,
    }
}

/// Which of the places is the first with a file.
pub open spec fn first_file(places: Seq<Candidate>) -> Option<PathBuf>
    decreases places.len(),
{
    if places.len() == 0 {
        None
    } else if places[0].is_file {
        Some(places[0].path)
    } else {
        first_file(places.drop_first())
    }
}

/// The places as they are shown to the user.
pub open spec fn shown_places(places: Seq<Candidate>) -> Seq<char> {
    text::joined(places.map_values(|p: Candidate| p.shown@), ", "@)
}

/// Find the config file. An `explicit` path wins outright, then the one that
/// `ACTSTAT_CONFIG` holds; both are taken as they are. Otherwise it is the
/// first of the well-known places with a file.
pub fn discover_path_in(explicit: Option<PathBuf>, env: DiscoveryEnv) -> (r: Result<
    PathBuf,
    ConfigError,
>)
    ensures
        match (explicit, env.actstat_config) {
            (Some(path), _) => r == Ok::<PathBuf, ConfigError>(path),
            (None, Some(path)) => r == Ok::<PathBuf, ConfigError>(path),
            (None, None) => match first_file(places(env)) {
                Some(path) => r == Ok::<PathBuf, ConfigError>(path),
                None => r matches Err(e) && e@ == ConfigErrorView::NotFound(
                    shown_places(places(env)),
                ),
            },
        },
{
    if let Some(path) = explicit {
        return Ok(path);
    }
    if let Some(path) = env.actstat_config {
        return Ok(path);
    }
    let ghost all = places(env);
    let ghost shown = all.map_values(|p: Candidate| p.shown@);
    let mut searched: Vec<String> = Vec::new();
    proof {
        reveal_with_fuel(first_file, 3);
    }
    if let Some(place) = env.xdg_config_home {
        assert(all[0] == place);
        if place.is_file {
            return Ok(place.path);
        }
        searched.push(place.shown);
    }
    if let Some(place) = env.home {
        assert(all.last() == place);
        if place.is_file {
            return Ok(place.path);
        }
        searched.push(place.shown);
    }
    assert(text::views(searched@) =~= shown);
    Err(ConfigError::NotFound(text::join(&searched, ", ")))
}

/// A minimal, valid config file.
pub open spec fn example_text() -> Seq<char> {
    "# ~/.config/actstat/config.yml\nprojects:\n  - org: sase-org\n  - repo: bbugyi200/actstat\n"@
}

/// A minimal, valid config file.
pub fn example_config() -> (r: &'static str)
    ensures
        r@ == example_text(),
{
    "# ~/.config/actstat/config.yml\nprojects:\n  - org: sase-org\n  - repo: bbugyi200/actstat\n"
}

impl Config {
    /// The configured single repositories, in order.
    pub fn explicit_repos(&self) -> (r: Vec<&RepoName>)
        ensures
            r@.map_values(|n: &RepoName| n@) == named_repos(self@),
    {
        let ghost all = self@;
        let mut found: Vec<&RepoName> = Vec::new();
        assert(all.take(0) =~= Seq::empty());
        for i in 0..self.projects.len()
            invariant
                all == self@,
                found@.map_values(|n: &RepoName| n@) == named_repos(all.take(i as int)),
        {
            let ghost before = found@;
            assert(all.take(i + 1).drop_last() =~= all.take(i as int));
            match &self.projects[i] {
                ProjectSource::Repo(name) => {
                    found.push(name);
                    assert(found@.map_values(|n: &RepoName| n@) =~= before.map_values(
                        |n: &RepoName| n@,
                    ).push(name@));
                },
                ProjectSource::Org(_) => {},
            }
        }
        assert(all.take(all.len() as int) =~= all);
        found
    }

    /// The configured organizations, in order.
    pub fn orgs(&self) -> (r: Vec<&OrgSource>)
        ensures
            r@.map_values(|o: &OrgSource| o@) == named_orgs(self@),
    {
        let ghost all = self@;
        let mut found: Vec<&OrgSource> = Vec::new();
        assert(all.take(0) =~= Seq::empty());
        for i in 0..self.projects.len()
            invariant
                all == self@,
                found@.map_values(|o: &OrgSource| o@) == named_orgs(all.take(i as int)),
        {
            let ghost before = found@;
            assert(all.take(i + 1).drop_last() =~= all.take(i as int));
            match &self.projects[i] {
                ProjectSource::Org(org) => {
                    found.push(org);
                    assert(found@.map_values(|o: &OrgSource| o@) =~= before.map_values(
                        |o: &OrgSource| o@,
                    ).push(org@));
                },
                ProjectSource::Repo(_) => {},
            }
        }
        assert(all.take(all.len() as int) =~= all);
        found
    }
}

/// The single repositories among the sources, in order.
pub open spec fn named_repos(projects: Seq<ProjectView>) -> Seq<NameView>
    decreases projects.len(),
{
    if projects.len() == 0 {
        Seq::empty()
    } else {
        match projects.last() {
            ProjectView::Repo(name) => named_repos(projects.drop_last()).push(name),
            ProjectView::Org(_) => named_repos(projects.drop_last()),
        }
    }
}

/// The organizations among the sources, in order.
pub open spec fn named_orgs(projects: Seq<ProjectView>) -> Seq<OrgView>
    decreases projects.len(),
{
    if projects.len() == 0 {
        Seq::empty()
    } else {
        match projects.last() {
            ProjectView::Org(org) => named_orgs(projects.drop_last()).push(org),
            ProjectView::Repo(_) => named_orgs(projects.drop_last()),
        }
    }
}

/// Whether the names stand in strict alphabetical order of `owner/name`.
pub open spec fn alphabetical(names: Seq<NameView>) -> bool {
    forall|i: int, j: int|
        #![trigger names[i], names[j]]
        0 <= i < j < names.len() ==> names[i].precedes(names[j])
}

/// Whether some name of the list is written as `full`.
pub open spec fn lists(names: Seq<NameView>, full: Seq<char>) -> bool {
    exists|i: int| 0 <= i < names.len() && (#[trigger] names[i]).full() == full
}

/// Whether `names[k]` is the first of the list that is written as it is.
pub open spec fn first_written(names: Seq<NameView>, k: int) -> bool {
    &&& 0 <= k < names.len()
    &&& forall|m: int| 0 <= m < k ==> (#[trigger] names[m]).full() != names[k].full()
}

/// Whether `merged` is what `all` comes to without repetitions, in order: each
/// way of writing a name stands once, as it came first.
pub open spec fn is_merge(all: Seq<NameView>, merged: Seq<NameView>) -> bool {
    &&& alphabetical(merged)
    &&& forall|k: int| 0 <= k < all.len() ==> lists(merged, (#[trigger] all[k]).full())
    &&& forall|i: int|
        0 <= i < merged.len() ==> exists|k: int|
            first_written(all, k) && all[k] == #[trigger] merged[i]
}

/// Put `name` in its place among `names`, unless one written alike is there.
fn insert_name(names: &mut Vec<RepoName>, name: RepoName)
    requires
        alphabetical(name_views(old(names)@)),
    ensures
        alphabetical(name_views(final(names)@)),
        lists(name_views(old(names)@), name@.full()) ==> name_views(final(names)@) == name_views(
            old(names)@,
        ),
        !lists(name_views(old(names)@), name@.full()) ==> exists|at: int|
            0 <= at <= old(names)@.len() && name_views(final(names)@) == #[trigger] name_views(
                old(names)@,
            ).insert(at, name@),
{
    let ghost before = name_views(names@);
    let full = name.full_name();
    let mut at: usize = 0;
    while at < names.len() && names[at].precedes(&name)
        invariant
            at <= names@.len(),
            before == name_views(names@),
            forall|k: int| 0 <= k < at ==> (#[trigger] before[k]).precedes(name@),
        decreases names@.len() - at,
    {
        at = at + 1;
    }
    proof {
        assert forall|k: int| 0 <= k < at implies (#[trigger] before[k]).full() != name@.full() by {
            text::before_is_irreflexive(name@.full());
        }
        assert forall|k: int| at < k < before.len() implies name@.precedes(#[trigger] before[k]) by {
            text::before_is_total(before[at as int].full(), name@.full());
            assert(before[at as int].precedes(before[k]));
            if before[at as int].full() != name@.full() {
                text::before_is_transitive(
                    name@.full(),
                    before[at as int].full(),
                    before[k].full(),
                );
            }
        }
    }
    if at < names.len() && text::same(names[at].full_name().as_str(), full.as_str()) {
        assert(before[at as int].full() == name@.full());
        return ;
    }
    proof {
        if at < before.len() {
            text::before_is_total(before[at as int].full(), name@.full());
            assert(name@.precedes(before[at as int]));
        }
        assert forall|k: int| 0 <= k < before.len() implies (#[trigger] before[k]).full()
            != name@.full() by {
            text::before_is_irreflexive(name@.full());
        }
    }
    names.insert(at, name);
    assert(name_views(names@) =~= before.insert(at as int, name@));
}

/// A merge of what came so far, brought up to date with one more name.
proof fn lemma_merge_grows(
    all: Seq<NameView>,
    merged: Seq<NameView>,
    name: NameView,
    next: Seq<NameView>,
)
    requires
        is_merge(all, merged),
        alphabetical(next),
        lists(merged, name.full()) ==> next == merged,
        !lists(merged, name.full()) ==> exists|at: int|
            0 <= at <= merged.len() && next == #[trigger] merged.insert(at, name),
    ensures
        is_merge(all.push(name), next),
{
    let grown = all.push(name);
    if lists(merged, name.full()) {
        assert forall|k: int| 0 <= k < grown.len() implies lists(
            next,
            (#[trigger] grown[k]).full(),
        ) by {
            if k < all.len() {
                assert(lists(merged, all[k].full()));
            }
        }
        assert forall|i: int| 0 <= i < next.len() implies exists|k: int|
            first_written(grown, k) && grown[k] == #[trigger] next[i] by {
            let k = choose|k: int| first_written(all, k) && all[k] == merged[i];
            assert(first_written(grown, k) && grown[k] == next[i]);
        }
    } else {
        let at = choose|at: int|
            0 <= at <= merged.len() && next == #[trigger] merged.insert(at, name);
        assert(next[at] == name);
        assert forall|k: int| 0 <= k < grown.len() implies lists(
            next,
            (#[trigger] grown[k]).full(),
        ) by {
            if k < all.len() {
                assert(lists(merged, all[k].full()));
                let i = choose|i: int|
                    0 <= i < merged.len() && (#[trigger] merged[i]).full() == all[k].full();
                if i < at {
                    assert(next[i] == merged[i]);
                } else {
                    assert(next[i + 1] == merged[i]);
                }
            }
        }
        assert forall|i: int| 0 <= i < next.len() implies exists|k: int|
            first_written(grown, k) && grown[k] == #[trigger] next[i] by {
            if i == at {
                assert forall|m: int| 0 <= m < all.len() implies (#[trigger] grown[m]).full()
                    != name.full() by {
                    assert(lists(merged, all[m].full()));
                }
                assert(first_written(grown, all.len() as int));
            } else {
                let j = if i < at {
                    i
                } else {
                    i - 1
                };
                assert(merged[j] == next[i]);
                let k = choose|k: int| first_written(all, k) && all[k] == merged[j];
                assert(first_written(grown, k) && grown[k] == next[i]);
            }
        }
    }
}

/// Merge the configured single repositories with those that organizations
/// expanded to: no repetitions, in alphabetical order of `owner/name`.
pub fn resolve_repos(explicit: Vec<RepoName>, expanded: Vec<RepoName>) -> (r: Vec<RepoName>)
    ensures
        is_merge(name_views(explicit@) + name_views(expanded@), name_views(r@)),
{
    let ghost all = name_views(explicit@) + name_views(expanded@);
    let mut merged: Vec<RepoName> = Vec::new();
    assert(all.take(0) =~= Seq::empty());
    for i in 0..explicit.len()
        invariant
            all == name_views(explicit@) + name_views(expanded@),
            is_merge(all.take(i as int), name_views(merged@)),
    {
        let ghost before = name_views(merged@);
        insert_name(&mut merged, explicit[i].clone());
        proof {
            let name = explicit@[i as int]@;
            assert(all.take(i + 1) =~= all.take(i as int).push(name));
            lemma_merge_grows(all.take(i as int), before, name, name_views(merged@));
        }
    }
    let n: usize = explicit.len();
    for i in 0..expanded.len()
        invariant
            n == explicit@.len(),
            all == name_views(explicit@) + name_views(expanded@),
            is_merge(all.take(n + i), name_views(merged@)),
    {
        let ghost before = name_views(merged@);
        insert_name(&mut merged, expanded[i].clone());
        proof {
            let name = expanded@[i as int]@;
            assert(all.take(n + i + 1) =~= all.take(n + i).push(name));
            lemma_merge_grows(all.take(n + i), before, name, name_views(merged@));
        }
    }
    assert(all.take(all.len() as int) =~= all);
    merged
}

} // verus!
