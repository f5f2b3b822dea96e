//! What the GitHub API is asked, and what its answers mean.

use vstd::prelude::*;
use vstd::string::*;

use crate::config;
use crate::config::{NameView, OrgSource, OrgView, RepoName};
use crate::json;
use crate::text;

verus! {

/// The base URL of the GitHub REST API.
pub const DEFAULT_BASE_URL: &'static str = "https://api.github.com";

/// The `User-Agent` of every request.
pub const USER_AGENT: &'static str = "actstat/0.1.0";

/// The `Accept` of every request.
pub const ACCEPT: &'static str = "application/vnd.github+json";

/// The version of the API that every request asks for.
pub const API_VERSION: &'static str = "2022-11-28";

/// How many seconds a request may take.
pub const TIMEOUT_SECONDS: u64 = 30;

/// The warning that is due where there is no token.
pub const UNAUTHENTICATED_WARNING: &'static str = "no GitHub token found (set \
    ACTSTAT_GITHUB_TOKEN, GH_TOKEN, or GITHUB_TOKEN, or run `gh auth login`); making \
    unauthenticated requests — private repos and org expansion are limited and rate limits are low";

/// Where a token came from.
#[derive(Debug, Clone, PartialEq, Eq)]
pub enum TokenSource {
    /// An environment variable.
    Env(String),
    /// The command `gh auth token`.
    GhCli,
    /// Nowhere: there is none.
    Unauthenticated,
}

/// A token, if there is one, and where it came from.
#[derive(Debug, Clone)]
pub struct DiscoveredToken {
    /// The token.
    pub token: Option<String>,
    /// Where it came from.
    pub source: TokenSource,
}

/// The view of a [`TokenSource`].
pub enum SourceView {
    Env(Seq<char>),
    GhCli,
    Unauthenticated,
}

/// The view of a [`DiscoveredToken`].
pub struct TokenView {
    pub token: Option<Seq<char>>,
    pub source: SourceView,
}

impl View for TokenSource {
    type V = SourceView;

    open spec fn view(&self) -> SourceView {
        match self {
            TokenSource::Env(name) => SourceView::Env(name@),
            TokenSource::GhCli => SourceView::GhCli,
            TokenSource::Unauthenticated => SourceView::Unauthenticated,
        }
    }
}

impl View for DiscoveredToken {
    type V = TokenView;

    open spec fn view(&self) -> TokenView {
        TokenView { token: text::option_view(self.token), source: self.source@ }
    }
}

impl DiscoveredToken {
    /// Whether there is a token.
    pub fn is_authenticated(&self) -> (r: bool)
        ensures
            r == self.token is Some,
    {
        self.token.is_some()
    }

    /// The warning that is due where there is no token.
    pub fn unauthenticated_warning(&self) -> (r: Option<&'static str>)
        ensures
            match self.token {
                Some(_) => r is None,
                None => r matches Some(s) && s@ == UNAUTHENTICATED_WARNING@,
            },
    {
        if self.token.is_none() {
            Some(UNAUTHENTICATED_WARNING)
        } else {
            None
        }
    }
}

/// The token that a text holds, if it is not blank.
pub open spec fn usable(value: Option<String>) -> Option<Seq<char>> {
    match value {
        Some(s) => if text::trimmed(s@).len() == 0 {
            None
        } else {
            Some(text::trimmed(s@))
        },
        None => None,
    }
}

/// The token that a text holds, if it is not blank.
pub fn usable_token(value: Option<String>) -> (r: Option<String>)
    ensures
        text::option_view(r) == usable(value),
{
    match value {
        Some(s) => {
            let token = text::trim(s.as_str());
            if token.as_str().is_empty() {
                None
            } else {
                Some(token)
            }
        },
        None => None,
    }
}

/// What the command `gh auth token` came to: whether it succeeded, and what it
/// printed, where that is text.
pub fn gh_token(success: bool, stdout: Option<String>) -> (r: Option<String>)
    ensures
        text::option_view(r) == (if success {
            usable(stdout)
        } else {
            None
        }),
{
    if success {
        usable_token(stdout)
    } else {
        None
    }
}

/// The token from an environment variable.
pub open spec fn env_view(name: Seq<char>, token: Seq<char>) -> TokenView {
    TokenView { token: Some(token), source: SourceView::Env(name) }
}

/// What is discovered where `env` and `gh` answer as they do: the variables
/// are asked in order, then `gh`; the first answer that is not blank wins, and
/// what comes after it is not asked.
pub open spec fn discovery<E: Fn(&str) -> Option<String>, G: FnOnce() -> Option<String>>(
    env: E,
    gh: G,
    found: TokenView,
) -> bool {
    ||| exists|a: Option<String>| #[trigger]
        env.ensures(("ACTSTAT_GITHUB_TOKEN",), a) && usable(a) is Some && found == env_view(
            "ACTSTAT_GITHUB_TOKEN"@,
            usable(a)->0,
        )
    ||| (unset(env, "ACTSTAT_GITHUB_TOKEN") && exists|b: Option<String>| #[trigger]
        env.ensures(("GH_TOKEN",), b) && usable(b) is Some && found == env_view(
            "GH_TOKEN"@,
            usable(b)->0,
        ))
    ||| (unset(env, "ACTSTAT_GITHUB_TOKEN") && unset(env, "GH_TOKEN") && exists|
        c: Option<String>,
    | #[trigger]
        env.ensures(("GITHUB_TOKEN",), c) && usable(c) is Some && found == env_view(
            "GITHUB_TOKEN"@,
            usable(c)->0,
        ))
    ||| (unset(env, "ACTSTAT_GITHUB_TOKEN") && unset(env, "GH_TOKEN") && unset(env, "GITHUB_TOKEN")
        && exists|g: Option<String>| #[trigger]
        gh.ensures((), g) && found == (match usable(g) {
            Some(token) => TokenView { token: Some(token), source: SourceView::GhCli },
            None => TokenView { token: None, source: SourceView::Unauthenticated },
        }))
}

/// Whether `env` can answer without a usable token.
pub open spec fn unset<E: Fn(&str) -> Option<String>>(env: E, name: &str) -> bool {
    exists|a: Option<String>| #[trigger] env.ensures((name,), a) && usable(a) is None
}

/// Discover a token: the variables `ACTSTAT_GITHUB_TOKEN`, `GH_TOKEN` and
/// `GITHUB_TOKEN`, in this order, then `gh auth token`. Blank answers do not
/// count. `gh` is called only where no variable holds a token, so that only
/// there it has to be callable.
pub fn discover_token_with(
    env: impl Fn(&str) -> Option<String>,
    gh: impl FnOnce() -> Option<String>,
) -> (r: DiscoveredToken)
    requires
        forall|name: &str| env.requires((name,)),
        unset(env, "ACTSTAT_GITHUB_TOKEN") && unset(env, "GH_TOKEN") && unset(env, "GITHUB_TOKEN")
            ==> gh.requires(()),
    ensures
        discovery(env, gh, r@),
{
    let a = env("ACTSTAT_GITHUB_TOKEN");
    if let Some(token) = usable_token(a) {
        return DiscoveredToken {
            token: Some(token),
            source: TokenSource::Env("ACTSTAT_GITHUB_TOKEN".to_owned()),
        };
    }
    assert(unset(env, "ACTSTAT_GITHUB_TOKEN"));
    let b = env("GH_TOKEN");
    if let Some(token) = usable_token(b) {
        return DiscoveredToken {
            token: Some(token),
            source: TokenSource::Env("GH_TOKEN".to_owned()),
        };
    }
    assert(unset(env, "GH_TOKEN"));
    let c = env("GITHUB_TOKEN");
    if let Some(token) = usable_token(c) {
        return DiscoveredToken {
            token: Some(token),
            source: TokenSource::Env("GITHUB_TOKEN".to_owned()),
        };
    }
    assert(unset(env, "GITHUB_TOKEN"));
    let g = gh();
    match usable_token(g) {
        Some(token) => DiscoveredToken { token: Some(token), source: TokenSource::GhCli },
        None => DiscoveredToken { token: None, source: TokenSource::Unauthenticated },
    }
}

/// Why a request to the API failed.
#[derive(Debug)]
pub enum GitHubError {
    /// Missing or bad credentials (401).
    Unauthorized(String),
    /// The token may not do this (403).
    Forbidden(String),
    /// Too many requests.
    RateLimited {
        /// What the API says.
        message: String,
        /// How many seconds the API asks to wait, where it says.
        retry_after: Option<u64>,
    },
    /// There is no such thing, or the token does not see it (404).
    NotFound(String),
    /// Another status that is no success.
    Status {
        /// The status code.
        status: u16,
        /// What the API says.
        message: String,
    },
    /// The request did not come through.
    Transport(String),
    /// The response does not have the expected shape.
    Decode(String),
}

/// The view of a [`GitHubError`].
pub enum GitHubErrorView {
    Unauthorized(Seq<char>),
    Forbidden(Seq<char>),
    RateLimited { message: Seq<char>, retry_after: Option<u64> },
    NotFound(Seq<char>),
    Status { status: u16, message: Seq<char> },
    Transport(Seq<char>),
    Decode(Seq<char>),
}

impl View for GitHubError {
    type V = GitHubErrorView;

    open spec fn view(&self) -> GitHubErrorView {
        match self {
            GitHubError::Unauthorized(message) => GitHubErrorView::Unauthorized(message@),
            GitHubError::Forbidden(message) => GitHubErrorView::Forbidden(message@),
            GitHubError::RateLimited { message, retry_after } => GitHubErrorView::RateLimited {
                message: message@,
                retry_after: *retry_after,
            },
            GitHubError::NotFound(message) => GitHubErrorView::NotFound(message@),
            GitHubError::Status { status, message } => GitHubErrorView::Status {
                status: *status,
                message: message@,
            },
            GitHubError::Transport(message) => GitHubErrorView::Transport(message@),
            GitHubError::Decode(message) => GitHubErrorView::Decode(message@),
        }
    }
}

impl GitHubErrorView {
    /// The message for the user.
    pub open spec fn message(self) -> Seq<char> {
        match self {
            GitHubErrorView::Unauthorized(message) => "unauthorized (401): "@ + message,
            GitHubErrorView::Forbidden(message) => "forbidden (403): "@ + message,
            GitHubErrorView::RateLimited { message, .. } => "rate limited: "@ + message,
            GitHubErrorView::NotFound(message) => "not found (404): "@ + message,
            GitHubErrorView::Status { status, message } => "unexpected status "@ + text::decimal(
                status as nat,
            ) + ": "@ + message,
            GitHubErrorView::Transport(message) => "request failed: "@ + message,
            GitHubErrorView::Decode(message) => "failed to parse response: "@ + message,
        }
    }

    /// How many seconds the API asks to wait, where it says.
    pub open spec fn wait_hint(self) -> Option<u64> {
        match self {
            GitHubErrorView::RateLimited { retry_after, .. } => retry_after,
            _ => None,
        }
    }
}

impl GitHubError {
    /// The message for the user.
    pub fn to_string(&self) -> (r: String)
        ensures
            r@ == self@.message(),
    {
        match self {
            GitHubError::Unauthorized(message) => "unauthorized (401): ".to_owned().concat(
                message.as_str(),
            ),
            GitHubError::Forbidden(message) => "forbidden (403): ".to_owned().concat(
                message.as_str(),
            ),
            GitHubError::RateLimited { message, .. } => "rate limited: ".to_owned().concat(
                message.as_str(),
            ),
            GitHubError::NotFound(message) => "not found (404): ".to_owned().concat(
                message.as_str(),
            ),
            GitHubError::Status { status, message } => "unexpected status ".to_owned().concat(
                text::decimal_text(*status as u64).as_str(),
            ).concat(": ").concat(message.as_str()),
            GitHubError::Transport(message) => "request failed: ".to_owned().concat(
                message.as_str(),
            ),
            GitHubError::Decode(message) => "failed to parse response: ".to_owned().concat(
                message.as_str(),
            ),
        }
    }

    /// How many seconds the API asks to wait, where it says.
    pub fn wait_hint(&self) -> (r: Option<u64>)
        ensures
            r == self@.wait_hint(),
    {
        match self {
            GitHubError::RateLimited { retry_after, .. } => *retry_after,
            _ => None,
        }
    }
}

/// The longest span of time that there is, in nanoseconds: that of a
/// `std::time::Duration`.
pub const LONGEST_DELAY: u128 = 18446744073709551615999999999;

/// How often and how long after each other failed requests are tried again.
#[derive(Debug, Clone, Copy, PartialEq, Eq, Structural)]
pub struct RetryConfig {
    /// How many times a request is tried again, at most.
    pub max_retries: u32,
    /// The delay before the first new try, in nanoseconds; it doubles from
    /// try to try.
    pub base_delay: u128,
}

impl Default for RetryConfig {
    fn default() -> (r: Self)
        ensures
            r.max_retries == 3,
            r.base_delay == 500_000_000,
    {
        RetryConfig { max_retries: 3, base_delay: 500_000_000 }
    }
}

/// The smaller of two numbers.
pub open spec fn least(a: nat, b: nat) -> nat {
    if a < b {
        a
    } else {
        b
    }
}

impl RetryConfig {
    /// Try again without delay.
    pub fn no_delay(max_retries: u32) -> (r: Self)
        ensures
            r.max_retries == max_retries,
            r.base_delay == 0,
    {
        RetryConfig { max_retries, base_delay: 0 }
    }

    /// The delay after the try numbered `attempt`, from 0: the base delay,
    /// doubled for each try up to the sixteenth, and no longer than the
    /// longest delay.
    pub open spec fn backoff_of(self, attempt: nat) -> nat {
        least(
            (self.base_delay * vstd::arithmetic::power2::pow2(least(attempt, 16))) as nat,
            LONGEST_DELAY as nat,
        )
    }

    /// The delay after the try numbered `attempt`, in nanoseconds.
    pub fn backoff(&self, attempt: u32) -> (r: u128)
        ensures
            r == self.backoff_of(attempt as nat),
    {
        let n: u32 = if attempt < 16 {
            attempt
        } else {
            16
        };
        let base: u128 = self.base_delay;
        let mut delay: u128 = if base < LONGEST_DELAY {
            base
        } else {
            LONGEST_DELAY
        };
        proof {
            vstd::arithmetic::power2::lemma2_to64();
            assert(base * vstd::arithmetic::power2::pow2(0) == base);
        }
        for i in 0..n
            invariant
                delay == least(
                    (base * vstd::arithmetic::power2::pow2(i as nat)) as nat,
                    LONGEST_DELAY as nat,
                ),
        {
            proof {
                vstd::arithmetic::power2::lemma_pow2_unfold((i + 1) as nat);
                vstd::arithmetic::power2::lemma_pow2_pos(i as nat);
                let p = vstd::arithmetic::power2::pow2(i as nat) as int;
                let q = vstd::arithmetic::power2::pow2((i + 1) as nat) as int;
                assert(base * q == 2 * (base * p)) by (nonlinear_arith)
                    requires
                        q == 2 * p,
                ;
                assert(base * p >= 0) by (nonlinear_arith)
                    requires
                        p > 0,
                        base >= 0,
                ;
            }
            delay = if delay > LONGEST_DELAY / 2 {
                LONGEST_DELAY
            } else {
                delay * 2
            };
        }
        delay
    }

    /// The delay after the try numbered `attempt`, where the API may have
    /// asked for one: at least what it asked for, up to a minute. Without a
    /// base delay there is none.
    pub open spec fn delay_of(self, attempt: nat, retry_after: Option<u64>) -> nat {
        if self.base_delay == 0 {
            0
        } else {
            match retry_after {
                None => self.backoff_of(attempt),
                Some(secs) => {
                    let asked = least(secs as nat, 60) * 1_000_000_000;
                    if self.backoff_of(attempt) < asked {
                        asked
                    } else {
                        self.backoff_of(attempt)
                    }
                },
            }
        }
    }

    /// The delay after the try numbered `attempt`, in nanoseconds.
    pub fn retry_delay(&self, attempt: u32, retry_after: Option<u64>) -> (r: u128)
        ensures
            r == self.delay_of(attempt as nat, retry_after),
    {
        if self.base_delay == 0 {
            return 0;
        }
        let backoff: u128 = self.backoff(attempt);
        match retry_after {
            None => backoff,
            Some(secs) => {
                let secs: u64 = if secs < 60 {
                    secs
                } else {
                    60
                };
                let asked: u128 = secs as u128 * 1_000_000_000;
                if backoff < asked {
                    asked
                } else {
                    backoff
                }
            },
        }
    }
}

/// A header of a response.
#[derive(Debug)]
pub enum Header {
    /// The response does not have it.
    Absent,
    /// Its value is not visible ASCII text.
    Opaque,
    /// Its value.
    Text(String),
}

impl Header {
    /// The value, where it is text.
    pub open spec fn value(self) -> Option<Seq<char>> {
        match self {
            Header::Text(s) => Some(s@),
            _ => None,
        }
    }
}

/// The headers of a response that matter.
#[derive(Debug)]
pub struct Headers {
    /// `Link`.
    pub link: Header,
    /// `X-RateLimit-Remaining`.
    pub rate_remaining: Header,
    /// `Retry-After`.
    pub retry_after: Header,
}

/// What a part of a `Link` header points to.
pub open spec fn link_target(part: Seq<char>) -> Seq<char> {
    text::without_trailing(
        text::without_leading(text::trimmed(text::parts(part, ';')[0]), text::only('<')),
        text::only('>'),
    )
}

/// Whether a parameter says that the link leads to the next page.
pub open spec fn says_next(parameter: Seq<char>) -> bool {
    text::trimmed(parameter) == "rel=\"next\""@ || text::trimmed(parameter) == "rel=next"@
}

/// Whether a part of a `Link` header is a link to the next page.
pub open spec fn links_next(part: Seq<char>) -> bool {
    exists|i: int|
        1 <= i < text::parts(part, ';').len() && says_next(#[trigger] text::parts(part, ';')[i])
}

/// Where the first link to a next page leads, that leads anywhere.
pub open spec fn next_in(list: Seq<Seq<char>>) -> Option<Seq<char>>
    decreases list.len(),
{
    if list.len() == 0 {
        None
    } else if links_next(list[0]) && link_target(list[0]).len() > 0 {
        Some(link_target(list[0]))
    } else {
        next_in(list.drop_first())
    }
}

/// Where the link to the next page leads, in the value of a `Link` header such
/// as `<https://api.github.com/x?page=2>; rel="next"`.
pub fn parse_link_next(link: &str) -> (r: Option<String>)
    ensures
        text::option_view(r) == next_in(text::parts(link@, ',')),
{
    let list = text::split(link, ',');
    let ghost all = text::parts(link@, ',');
    assert(all.skip(0) =~= all);
    for i in 0..list.len()
        invariant
            text::views(list@) == all,
            all == text::parts(link@, ','),
            next_in(all) == next_in(all.skip(i as int)),
    {
        let ghost part = all[i as int];
        assert(text::views(list@)[i as int] == list@[i as int]@);
        assert(all.skip(i as int)[0] == part);
        assert(all.skip(i as int).drop_first() =~= all.skip(i + 1));
        let segments = text::split(list[i].as_str(), ';');
        assert(text::views(segments@) == text::parts(part, ';'));
        assert(text::views(segments@)[0] == segments@[0]@);
        let mut is_next = false;
        for k in 1..segments.len()
            invariant
                segments@.len() >= 1,
                text::views(segments@) == text::parts(part, ';'),
                is_next == exists|m: int|
                    1 <= m < k && says_next(#[trigger] text::parts(part, ';')[m]),
        {
            assert(text::views(segments@)[k as int] == segments@[k as int]@);
            let parameter = text::trim(segments[k].as_str());
            if text::same(parameter.as_str(), "rel=\"next\"") || text::same(
                parameter.as_str(),
                "rel=next",
            ) {
                assert(says_next(text::parts(part, ';')[k as int]));
                is_next = true;
            }
        }
        assert(text::views(segments@).len() == segments@.len());
        assert(is_next == links_next(part));
        if is_next {
            let target = text::trim_trailing(
                text::trim_leading(text::trim(segments[0].as_str()).as_str(), '<').as_str(),
                '>',
            );
            if !target.as_str().is_empty() {
                return Some(target);
            }
        }
    }
    assert(text::views(list@).len() == list@.len());
    assert(all.skip(all.len() as int) =~= Seq::empty());
    None
}

/// Where the link to the next page leads, if there is one.
pub open spec fn next_link(link: Header) -> Option<Seq<char>> {
    match link.value() {
        Some(value) => next_in(text::parts(value, ',')),
        None => None,
    }
}

/// Where the link to the next page leads, if there is one.
pub fn parse_next_link(link: &Header) -> (r: Option<String>)
    ensures
        text::option_view(r) == next_link(*link),
{
    match link {
        Header::Text(value) => parse_link_next(value.as_str()),
        _ => None,
    }
}

/// Whether a failed response says that there were too many requests.
pub open spec fn rate_limited(status: u16, headers: Headers, body: Seq<char>) -> bool {
    ||| status == 429
    ||| status == 403 && {
        ||| headers.rate_remaining.value() == Some("0"@)
        ||| headers.retry_after !is Absent
        ||| text::holds(text::lowered(body), "rate limit"@)
        ||| text::holds(text::lowered(body), "secondary rate"@)
        ||| text::holds(text::lowered(body), "abuse"@)
    }
}

/// Whether a failed response says that there were too many requests: a status
/// of 429, or one of 403 with a header or a body that says so.
pub fn is_rate_limited(status: u16, headers: &Headers, body: &str) -> (r: bool)
    ensures
        r == rate_limited(status, *headers, body@),
{
    if status == 429 {
        return true;
    }
    if status != 403 {
        return false;
    }
    if let Header::Text(value) = &headers.rate_remaining {
        if text::same(value.as_str(), "0") {
            return true;
        }
    }
    if !matches!(headers.retry_after, Header::Absent) {
        return true;
    }
    let body = text::lowercase(body);
    text::has_part(body.as_str(), "rate limit") || text::has_part(body.as_str(), "secondary rate")
        || text::has_part(body.as_str(), "abuse")
}

/// How many seconds a `Retry-After` header asks to wait, where it gives
/// seconds.
pub open spec fn seconds_asked(header: Header) -> Option<nat> {
    match header.value() {
        Some(value) => text::whole_number(text::trimmed(value), u64::MAX as nat),
        None => None,
    }
}

/// How many seconds a `Retry-After` header asks to wait.
pub fn parse_retry_after(header: &Header) -> (r: Option<u64>)
    ensures
        match r {
            Some(n) => seconds_asked(*header) == Some(n as nat),
            None => seconds_asked(*header) is None,
        },
{
    match header {
        Header::Text(value) => text::parse_number(text::trim(value.as_str()).as_str(), u64::MAX),
        _ => None,
    }
}

/// The message of a failed response, given the one in its JSON body if it has
/// one: that message, else the start of the body.
pub open spec fn failure_text(body: Seq<char>, message: Option<Seq<char>>) -> Seq<char> {
    match message {
        Some(s) if text::trimmed(s).len() > 0 => text::trimmed(s),
        _ => {
            let trimmed = text::trimmed(body);
            if trimmed.len() == 0 {
                "(no response body)"@
            } else if trimmed.len() > 200 {
                trimmed.take(200)
            } else {
                trimmed
            }
        },
    }
}

/// The message in a JSON body, if it has one.
pub open spec fn json_message(body: Seq<char>) -> Option<Seq<char>> {
    match json::parsed(body) {
        Some(value) => json::text_under(value, "message"@),
        None => None,
    }
}

/// The message of a failed response, given the one in its JSON body.
pub fn failure_message(body: &str, message: Option<String>) -> (r: String)
    ensures
        r@ == failure_text(body@, text::option_view(message)),
{
    if let Some(message) = message {
        let trimmed = text::trim(message.as_str());
        if !trimmed.as_str().is_empty() {
            return trimmed;
        }
    }
    let trimmed = text::trim(body);
    if trimmed.as_str().is_empty() {
        "(no response body)".to_owned()
    } else {
        text::first_chars(trimmed.as_str(), 200)
    }
}

/// The message of a failed response: that of its JSON body, else the first 200
/// characters of the body, else a placeholder.
pub fn error_message(body: &str) -> (r: String)
    ensures
        r@ == failure_text(body@, json_message(body@)),
{
    let message = match json::parse(body) {
        Some(value) => json::text_at(&value, "message"),
        None => None,
    };
    failure_message(body, message)
}

/// A page of results, and where the next one is, if there is one.
pub struct Page<T> {
    /// The results.
    pub items: T,
    /// Where the next page is.
    pub next: Option<String>,
}

/// What came of a request.
pub enum Reply<T> {
    /// It did not come through; what the transport said.
    Unsent(String),
    /// It succeeded.
    Success {
        /// The `Link` header.
        link: Header,
        /// What the body holds, or what is wrong with it.
        decoded: Result<T, String>,
    },
    /// It was refused.
    Refused {
        /// The status code.
        status: u16,
        /// The headers.
        headers: Headers,
        /// The body.
        body: String,
    },
}

/// What a reply means.
pub enum Attempt<T> {
    /// Here is the page.
    Done(Page<T>),
    /// It failed, and may succeed when it is tried again.
    Retry(GitHubError),
    /// It failed for good.
    Fail(GitHubError),
}

/// Whether a status code is one of success.
pub fn is_success_status(status: u16) -> (r: bool)
    ensures
        r == (200 <= status < 300),
{
    200 <= status && status < 300
}

/// Why a request was refused, given the message of the response.
pub open spec fn refusal_error(
    status: u16,
    headers: Headers,
    body: Seq<char>,
    message: Seq<char>,
) -> GitHubErrorView {
    if rate_limited(status, headers, body) {
        GitHubErrorView::RateLimited {
            message,
            retry_after: match seconds_asked(headers.retry_after) {
                Some(n) => Some(n as u64),
                None => None,
            },
        }
    } else if status == 401 {
        GitHubErrorView::Unauthorized(message)
    } else if status == 403 {
        GitHubErrorView::Forbidden(message)
    } else if status == 404 {
        GitHubErrorView::NotFound(message)
    } else {
        GitHubErrorView::Status { status, message }
    }
}

/// Whether a refused request may succeed when it is tried again: where there
/// were too many requests, or the server failed.
pub open spec fn passing(status: u16, headers: Headers, body: Seq<char>) -> bool {
    rate_limited(status, headers, body) || 500 <= status < 600
}

/// What a refused request means, given the message of the response.
pub fn refusal<T>(status: u16, headers: &Headers, body: &str, message: String) -> (r: Attempt<T>)
    ensures
        match r {
            Attempt::Done(_) => false,
            Attempt::Retry(e) => passing(status, *headers, body@) && e@ == refusal_error(
                status,
                *headers,
                body@,
                message@,
            ),
            Attempt::Fail(e) => !passing(status, *headers, body@) && e@ == refusal_error(
                status,
                *headers,
                body@,
                message@,
            ),
        },
{
    if is_rate_limited(status, headers, body) {
        let retry_after = parse_retry_after(&headers.retry_after);
        return Attempt::Retry(GitHubError::RateLimited { message, retry_after });
    }
    if status == 401 {
        Attempt::Fail(GitHubError::Unauthorized(message))
    } else if status == 403 {
        Attempt::Fail(GitHubError::Forbidden(message))
    } else if status == 404 {
        Attempt::Fail(GitHubError::NotFound(message))
    } else if 500 <= status && status < 600 {
        Attempt::Retry(GitHubError::Status { status, message })
    } else {
        Attempt::Fail(GitHubError::Status { status, message })
    }
}

/// Tell what a reply means.
pub fn attempt_get<T>(reply: Reply<T>) -> (r: Attempt<T>)
    ensures
        match reply {
            Reply::Unsent(said) => r matches Attempt::Retry(e) && e@ == GitHubErrorView::Transport(
                said@,
            ),
            Reply::Success { link, decoded: Ok(items) } => r matches Attempt::Done(page)
                && page.items == items && text::option_view(page.next) == next_link(link),
            Reply::Success { decoded: Err(said), .. } => r matches Attempt::Fail(e) && e@
                == GitHubErrorView::Decode(said@),
            Reply::Refused { status, headers, body } => {
                let e = refusal_error(
                    status,
                    headers,
                    body@,
                    failure_text(body@, json_message(body@)),
                );
                if passing(status, headers, body@) {
                    r matches Attempt::Retry(x) && x@ == e
                } else {
                    r matches Attempt::Fail(x) && x@ == e
                }
            },
        },
{
    match reply {
        Reply::Unsent(said) => Attempt::Retry(GitHubError::Transport(said)),
        Reply::Success { link, decoded } => match decoded {
            Ok(items) => {
                let next = parse_next_link(&link);
                Attempt::Done(Page { items, next })
            },
            Err(said) => Attempt::Fail(GitHubError::Decode(said)),
        },
        Reply::Refused { status, headers, body } => {
            let message = error_message(body.as_str());
            refusal(status, &headers, body.as_str(), message)
        },
    }
}

/// What to do after a try.
pub enum Step<T> {
    /// It is over.
    Finish(Result<Page<T>, GitHubError>),
    /// Wait, then try again.
    Again {
        /// How long to wait, in nanoseconds.
        delay: u128,
        /// The number of the next try.
        attempt: u32,
    },
}

/// The view of a [`Step`].
pub enum StepView<T> {
    Finish(Result<Page<T>, GitHubError>),
    Again { delay: nat, attempt: nat },
}

impl<T> View for Step<T> {
    type V = StepView<T>;

    open spec fn view(&self) -> StepView<T> {
        match *self {
            Step::Finish(result) => StepView::Finish(result),
            Step::Again { delay, attempt } => StepView::Again {
                delay: delay as nat,
                attempt: attempt as nat,
            },
        }
    }
}

/// What to do after the try numbered `attempt`, from 0: what has succeeded or
/// failed for good is over, and so is the last try allowed; anything else is
/// tried again.
pub open spec fn step_after<T>(retry: RetryConfig, attempt: nat, outcome: Attempt<T>) -> StepView<
    T,
> {
    match outcome {
        Attempt::Done(page) => StepView::Finish(Ok(page)),
        Attempt::Fail(e) => StepView::Finish(Err(e)),
        Attempt::Retry(e) => if attempt >= retry.max_retries {
            StepView::Finish(Err(e))
        } else {
            StepView::Again {
                delay: retry.delay_of(attempt, e@.wait_hint()),
                attempt: attempt + 1,
            }
        },
    }
}

/// Decide what to do after the try numbered `attempt`, from 0.
pub fn after_attempt<T>(retry: &RetryConfig, attempt: u32, outcome: Attempt<T>) -> (r: Step<T>)
    ensures
        r@ == step_after(*retry, attempt as nat, outcome),
{
    match outcome {
        Attempt::Done(page) => Step::Finish(Ok(page)),
        Attempt::Fail(e) => Step::Finish(Err(e)),
        Attempt::Retry(e) => if attempt >= retry.max_retries {
            Step::Finish(Err(e))
        } else {
            Step::Again {
                delay: retry.retry_delay(attempt, e.wait_hint()),
                attempt: attempt + 1,
            }
        },
    }
}

/// What to do after a page.
pub enum Paging<T> {
    /// Ask for the page at this URL.
    More(String),
    /// These are all the results.
    All(Vec<T>),
}

/// The view of a [`Paging`].
pub enum PagingView<T> {
    More(Seq<char>),
    All(Seq<T>),
}

impl<T> View for Paging<T> {
    type V = PagingView<T>;

    open spec fn view(&self) -> PagingView<T> {
        match *self {
            Paging::More(url) => PagingView::More(url@),
            Paging::All(items) => PagingView::All(items@),
        }
    }
}

/// The results so far with those of a page, and what to do after the page:
/// where it leads on, ask for the next one; otherwise hand all results out and
/// keep none.
pub open spec fn step_page<T>(items: Seq<T>, page: Page<Vec<T>>) -> (Seq<T>, PagingView<T>) {
    match page.next {
        Some(next) => (items + page.items@, PagingView::More(next@)),
        None => (Seq::empty(), PagingView::All(items + page.items@)),
    }
}

/// Add a page to the results so far; where there is no next page, hand all of
/// them out.
pub fn after_page<T>(items: &mut Vec<T>, page: Page<Vec<T>>) -> (r: Paging<T>)
    ensures
        final(items)@ == step_page(old(items)@, page).0,
        r@ == step_page(old(items)@, page).1,
{
    let mut more = page.items;
    items.append(&mut more);
    match page.next {
        Some(next) => Paging::More(next),
        None => {
            let mut all: Vec<T> = Vec::new();
            all.append(items);
            assert(all@ =~= old(items)@ + page.items@);
            Paging::All(all)
        },
    }
}

/// A base URL without the slashes at its end.
pub fn base_url(url: &str) -> (r: String)
    ensures
        r@ == text::without_trailing(url@, text::only('/')),
{
    text::trim_trailing(url, '/')
}

/// Whether a URL is absolute.
pub open spec fn absolute(url: Seq<char>) -> bool {
    text::stands_at(url, "http://"@, 0) || text::stands_at(url, "https://"@, 0)
}

/// The full URL of a path below a base URL. An absolute URL stays as it is.
pub fn resolve_url(base: &str, url: &str) -> (r: String)
    ensures
        r@ == (if absolute(url@) {
            url@
        } else {
            base@ + "/"@ + text::without_leading(url@, text::only('/'))
        }),
{
    if text::has_prefix(url, "http://") || text::has_prefix(url, "https://") {
        url.to_owned()
    } else {
        base.to_owned().concat("/").concat(text::trim_leading(url, '/').as_str())
    }
}

/// A repository as the API lists it.
#[derive(Debug)]
pub struct ApiRepo {
    /// Its name.
    pub name: String,
    /// The login of its owner.
    pub owner: String,
    /// Whether it is archived.
    pub archived: bool,
    /// Whether it is a fork.
    pub fork: bool,
}

/// The view of an [`ApiRepo`].
pub struct ApiRepoView {
    pub name: Seq<char>,
    pub owner: Seq<char>,
    pub archived: bool,
    pub fork: bool,
}

impl View for ApiRepo {
    type V = ApiRepoView;

    open spec fn view(&self) -> ApiRepoView {
        ApiRepoView {
            name: self.name@,
            owner: self.owner@,
            archived: self.archived,
            fork: self.fork,
        }
    }
}

/// The path of an organization's repositories.
pub fn org_repos_path(org: &OrgSource) -> (r: String)
    ensures
        r@ == "/orgs/"@ + org@.org + "/repos?per_page=100"@,
{
    "/orgs/".to_owned().concat(org.org.as_str()).concat("/repos?per_page=100")
}

/// Whether two names are the same but for the case of ASCII letters.
pub open spec fn alike(a: NameView, b: NameView) -> bool {
    text::lowered(a.owner) == text::lowered(b.owner) && text::lowered(a.name) == text::lowered(
        b.name,
    )
}

/// Whether an organization's filters let a repository pass.
pub open spec fn passes_filters(org: OrgView, repo: ApiRepoView) -> bool {
    &&& org.include_archived || !repo.archived
    &&& org.include_forks || !repo.fork
    &&& forall|i: int|
        0 <= i < org.exclude.len() ==> !alike(
            #[trigger] org.exclude[i],
            NameView { owner: repo.owner, name: repo.name },
        )
}

/// The repositories that an organization's filters let pass, in order.
pub open spec fn expanded(org: OrgView, repos: Seq<ApiRepoView>) -> Seq<NameView>
    decreases repos.len(),
{
    if repos.len() == 0 {
        Seq::empty()
    } else if passes_filters(org, repos.last()) {
        expanded(org, repos.drop_last()).push(
            NameView { owner: repos.last().owner, name: repos.last().name },
        )
    } else {
        expanded(org, repos.drop_last())
    }
}

/// Whether a name is on a list, but for the case of ASCII letters.
fn excludes(list: &Vec<RepoName>, name: &RepoName) -> (r: bool)
    ensures
        r == exists|i: int| 0 <= i < list@.len() && alike((#[trigger] list@[i])@, name@),
{
    let owner = text::lowercase(name.owner.as_str());
    let repo = text::lowercase(name.name.as_str());
    for i in 0..list.len()
        invariant
            owner@ == text::lowered(name@.owner),
            repo@ == text::lowered(name@.name),
            forall|k: int| 0 <= k < i ==> !alike((#[trigger] list@[k])@, name@),
    {
        if text::same(text::lowercase(list[i].owner.as_str()).as_str(), owner.as_str())
            && text::same(text::lowercase(list[i].name.as_str()).as_str(), repo.as_str()) {
            assert(alike(list@[i as int]@, name@));
            return true;
        }
    }
    false
}

/// The repositories of an organization, of those that the API lists: archived
/// ones and forks only where they are asked for, and none that is excluded.
pub fn select_org_repos(org: &OrgSource, listed: &Vec<ApiRepo>) -> (r: Vec<RepoName>)
    ensures
        config::name_views(r@) == expanded(org@, listed@.map_values(|a: ApiRepo| a@)),
{
    let ghost all = listed@.map_values(|a: ApiRepo| a@);
    let mut names: Vec<RepoName> = Vec::new();
    assert(all.take(0) =~= Seq::empty());
    assert(config::name_views(names@) =~= Seq::empty());
    for i in 0..listed.len()
        invariant
            all == listed@.map_values(|a: ApiRepo| a@),
            config::name_views(names@) == expanded(org@, all.take(i as int)),
    {
        let repo = &listed[i];
        let name = RepoName { owner: repo.owner.clone(), name: repo.name.clone() };
        let excluded = excludes(&org.exclude, &name);
        proof {
            assert(all.take(i + 1).drop_last() =~= all.take(i as int));
            assert(all.take(i + 1).last() == repo@);
            if excluded {
                let k = choose|k: int|
                    0 <= k < org.exclude@.len() && alike((#[trigger] org.exclude@[k])@, name@);
                assert(alike(org@.exclude[k], name@));
            } else {
                assert forall|k: int| 0 <= k < org@.exclude.len() implies !alike(
                    #[trigger] org@.exclude[k],
                    name@,
                ) by {
                    assert(!alike(org.exclude@[k]@, name@));
                }
            }
        }
        if (org.include_archived || !repo.archived) && (org.include_forks || !repo.fork)
            && !excluded {
            let ghost before = names@;
            names.push(name);
            assert(config::name_views(names@) =~= config::name_views(before).push(name@));
        }
    }
    assert(all.take(all.len() as int) =~= all);
    names
}

/// The repositories to inspect, and the organizations that could not be
/// expanded.
#[derive(Debug, Clone)]
pub struct ResolvedRepos {
    /// The repositories, without repetitions and in alphabetical order.
    pub repos: Vec<RepoName>,
    /// The organizations that could not be expanded, each with the reason.
    pub org_errors: Vec<(String, String)>,
}

/// What the expansions of organizations came to: their repositories, in order.
pub open spec fn all_expanded(
    expansions: Seq<(String, Result<Vec<RepoName>, GitHubError>)>,
) -> Seq<NameView>
    decreases expansions.len(),
{
    if expansions.len() == 0 {
        Seq::empty()
    } else {
        let before = all_expanded(expansions.drop_last());
        match expansions.last().1 {
            Ok(names) => before + config::name_views(names@),
            Err(_) => before,
        }
    }
}

/// What the expansions of organizations came to: those that failed, in order.
pub open spec fn all_failed(
    expansions: Seq<(String, Result<Vec<RepoName>, GitHubError>)>,
) -> Seq<(Seq<char>, Seq<char>)>
    decreases expansions.len(),
{
    if expansions.len() == 0 {
        Seq::empty()
    } else {
        let before = all_failed(expansions.drop_last());
        match expansions.last().1 {
            Ok(_) => before,
            Err(e) => before.push((expansions.last().0@, e@.message())),
        }
    }
}

/// The views of a sequence of pairs.
pub open spec fn pair_views(pairs: Seq<(String, String)>) -> Seq<(Seq<char>, Seq<char>)> {
    pairs.map_values(|p: (String, String)| (p.0@, p.1@))
}

/// The single repositories of a configuration, as they are.
fn explicit_names(config: &config::Config) -> (r: Vec<RepoName>)
    ensures
        config::name_views(r@) == config::named_repos(config@),
{
    let found = config.explicit_repos();
    let ghost all = found@.map_values(|n: &RepoName| n@);
    let mut names: Vec<RepoName> = Vec::new();
    for i in 0..found.len()
        invariant
            all == found@.map_values(|n: &RepoName| n@),
            config::name_views(names@) == all.take(i as int),
    {
        let ghost before = names@;
        let name = found[i].clone();
        names.push(name);
        assert(config::name_views(names@) =~= config::name_views(before).push(name@));
        assert(all.take(i + 1) =~= all.take(i as int).push(all[i as int]));
    }
    assert(all.take(all.len() as int) =~= all);
    names
}

/// Merge the configured repositories with what the configured organizations
/// expanded to. An organization that could not be expanded is reported beside
/// the others and stops none of them.
pub fn resolve_repositories(
    config: &config::Config,
    expansions: Vec<(String, Result<Vec<RepoName>, GitHubError>)>,
) -> (r: ResolvedRepos)
    ensures
        config::is_merge(
            config::named_repos(config@) + all_expanded(expansions@),
            config::name_views(r.repos@),
        ),
        pair_views(r.org_errors@) == all_failed(expansions@),
{
    let ghost all = expansions@;
    let mut names: Vec<RepoName> = Vec::new();
    let mut org_errors: Vec<(String, String)> = Vec::new();
    assert(all.take(0) =~= Seq::empty());
    assert(config::name_views(names@) =~= Seq::empty());
    assert(pair_views(org_errors@) =~= Seq::empty());
    for expansion in it: expansions
        invariant
            it.seq() == all,
            config::name_views(names@) == all_expanded(all.take(it.index() as int)),
            pair_views(org_errors@) == all_failed(all.take(it.index() as int)),
    {
        let ghost i = it.index() as int;
        assert(all.take(i + 1).drop_last() =~= all.take(i));
        assert(all.take(i + 1).last() == expansion);
        let (org, result) = expansion;
        match result {
            Ok(more) => {
                let ghost before = names@;
                let mut more = more;
                let ghost added = more@;
                names.append(&mut more);
                assert(config::name_views(names@) =~= config::name_views(before)
                    + config::name_views(added));
            },
            Err(e) => {
                let ghost before = org_errors@;
                let message = e.to_string();
                org_errors.push((org, message));
                assert(pair_views(org_errors@) =~= pair_views(before).push((org@, message@)));
            },
        }
    }
    assert(all.take(all.len() as int) =~= all);
    ResolvedRepos { repos: config::resolve_repos(explicit_names(config), names), org_errors }
}

} // verus!
