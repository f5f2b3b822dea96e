//! Laws of a request from its first try to its last page.

use vstd::prelude::*;

use crate::github;
use crate::github::{
    Attempt, GitHubError, GitHubErrorView, Header, Headers, Page, PagingView, RetryConfig,
    SourceView, StepView, TokenView,
};
use crate::laws::texts::{
    blank, same_but_for_case, small_letters_tell_all_but_case, trimming_undoes_padding,
};
use crate::text;

verus! {

/// The wait before a new try never gets shorter from try to try, and never
/// gets longer than the longest delay.
pub proof fn waits_never_shrink(retry: RetryConfig, a: nat, b: nat)
    requires
        a <= b,
    ensures
        retry.backoff_of(a) <= retry.backoff_of(b) <= github::LONGEST_DELAY,
{
    let m = github::least(a, 16);
    let n = github::least(b, 16);
    if m < n {
        vstd::arithmetic::power2::lemma_pow2_strictly_increases(m, n);
    }
    let p = vstd::arithmetic::power2::pow2(m) as int;
    let q = vstd::arithmetic::power2::pow2(n) as int;
    let base = retry.base_delay as int;
    assert(0 <= base * p <= base * q) by (nonlinear_arith)
        requires
            0 <= base,
            0 <= p <= q,
    ;
}

/// How often a request is sent in all, and how it ends, from the try numbered
/// `attempt` on. `outcomes` tells what each try comes to.
pub open spec fn request_from<T>(
    retry: RetryConfig,
    outcomes: spec_fn(nat) -> Attempt<T>,
    attempt: nat,
) -> (nat, Result<Page<T>, GitHubError>)
    decreases retry.max_retries - attempt,
{
    match github::step_after(retry, attempt, outcomes(attempt)) {
        StepView::Finish(result) => (attempt + 1, result),
        StepView::Again { attempt: next, .. } => request_from(retry, outcomes, next),
    }
}

/// How often a request is sent in all, and how it ends: the first try has the
/// number 0, and each further one the number that the step before it gives.
pub open spec fn request<T>(retry: RetryConfig, outcomes: spec_fn(nat) -> Attempt<T>) -> (
    nat,
    Result<Page<T>, GitHubError>,
) {
    request_from(retry, outcomes, 0)
}

/// How a request ends whose last try comes to `outcome`.
pub open spec fn ending<T>(outcome: Attempt<T>) -> Result<Page<T>, GitHubError> {
    match outcome {
        Attempt::Done(page) => Ok(page),
        Attempt::Retry(e) => Err(e),
        Attempt::Fail(e) => Err(e),
    }
}

/// Tries that may be repeated lead on to the next ones.
proof fn lemma_repeats_lead_on<T>(
    retry: RetryConfig,
    outcomes: spec_fn(nat) -> Attempt<T>,
    n: nat,
    k: nat,
)
    requires
        n <= k <= retry.max_retries,
        forall|j: nat| j < k ==> (#[trigger] outcomes(j)) is Retry,
    ensures
        request_from(retry, outcomes, n) == request_from(retry, outcomes, k),
    decreases k - n,
{
    if n < k {
        assert(outcomes(n) is Retry);
        lemma_repeats_lead_on(retry, outcomes, n + 1, k);
    }
}

/// A request ends with the first try that need not be repeated, where one is
/// allowed to come: it is sent up to that try, and ends as the try does.
pub proof fn a_request_ends_with_its_first_answer<T>(
    retry: RetryConfig,
    outcomes: spec_fn(nat) -> Attempt<T>,
    k: nat,
)
    requires
        k <= retry.max_retries,
        forall|j: nat| j < k ==> (#[trigger] outcomes(j)) is Retry,
        outcomes(k) !is Retry,
    ensures
        request(retry, outcomes) == (k + 1, ending(outcomes(k))),
{
    lemma_repeats_lead_on(retry, outcomes, 0, k);
}

/// A request of which every allowed try fails in passing is sent once, and
/// again as often as allowed, and ends with the last error.
pub proof fn a_request_gives_up_with_the_last_error<T>(
    retry: RetryConfig,
    outcomes: spec_fn(nat) -> Attempt<T>,
)
    requires
        forall|j: nat| j <= retry.max_retries ==> (#[trigger] outcomes(j)) is Retry,
    ensures
        request(retry, outcomes).0 == retry.max_retries + 1,
        request(retry, outcomes).1 == Err::<Page<T>, GitHubError>(
            outcomes(retry.max_retries as nat)->Retry_0,
        ),
{
    let n = retry.max_retries as nat;
    assert(outcomes(n) is Retry);
    lemma_repeats_lead_on(retry, outcomes, 0, n);
}

/// Whatever the tries come to, a request is sent at least once, and again at
/// most as often as allowed.
pub proof fn tries_are_bounded<T>(retry: RetryConfig, outcomes: spec_fn(nat) -> Attempt<T>)
    ensures
        1 <= request(retry, outcomes).0 <= retry.max_retries + 1,
{
    lemma_bounded_from(retry, outcomes, 0);
}

proof fn lemma_bounded_from<T>(
    retry: RetryConfig,
    outcomes: spec_fn(nat) -> Attempt<T>,
    attempt: nat,
)
    requires
        attempt <= retry.max_retries,
    ensures
        attempt < request_from(retry, outcomes, attempt).0 <= retry.max_retries + 1,
    decreases retry.max_retries - attempt,
{
    if outcomes(attempt) is Retry && attempt < retry.max_retries {
        lemma_bounded_from(retry, outcomes, attempt + 1);
    }
}

/// What is handed out in the end, where the results so far are `items` and the
/// pages from number `n` on are still to come; nothing where they do not end.
pub open spec fn handed_out<T>(pages: Seq<Page<Vec<T>>>, n: nat, items: Seq<T>) -> Option<Seq<T>>
    decreases pages.len() - n,
{
    if n >= pages.len() {
        None
    } else {
        let (kept, step) = github::step_page(items, pages[n as int]);
        match step {
            PagingView::All(all) => Some(all),
            PagingView::More(_) => handed_out(pages, n + 1, kept),
        }
    }
}

/// The results of the first `n` pages, in order.
pub open spec fn joined_items<T>(pages: Seq<Page<Vec<T>>>, n: nat) -> Seq<T>
    decreases n,
{
    if n == 0 {
        Seq::empty()
    } else {
        joined_items(pages, (n - 1) as nat) + pages[n - 1].items@
    }
}

/// Where each page but the last leads on, all results are handed out in the
/// end, joined in the order of the pages.
pub proof fn pages_are_joined_in_order<T>(pages: Seq<Page<Vec<T>>>)
    requires
        pages.len() > 0,
        forall|i: int| 0 <= i < pages.len() - 1 ==> (#[trigger] pages[i]).next is Some,
        pages.last().next is None,
    ensures
        handed_out(pages, 0, Seq::empty()) == Some(joined_items(pages, pages.len())),
{
    lemma_joined_from(pages, 0);
}

proof fn lemma_joined_from<T>(pages: Seq<Page<Vec<T>>>, n: nat)
    requires
        n < pages.len(),
        forall|i: int| 0 <= i < pages.len() - 1 ==> (#[trigger] pages[i]).next is Some,
        pages.last().next is None,
    ensures
        handed_out(pages, n, joined_items(pages, n)) == Some(joined_items(pages, pages.len())),
    decreases pages.len() - n,
{
    if n + 1 < pages.len() {
        assert(pages[n as int].next is Some);
        lemma_joined_from(pages, n + 1);
    } else {
        assert(pages[n as int] == pages.last());
    }
}

/// The wait before the second try is the base delay, and doubles from try to
/// try up to the sixteenth, unless it is as long as there is; from there on it
/// stays.
pub proof fn waits_double(retry: RetryConfig, attempt: nat)
    ensures
        retry.backoff_of(0) == github::least(retry.base_delay as nat, github::LONGEST_DELAY as nat),
        attempt < 16 ==> retry.backoff_of(attempt + 1) == github::least(
            2 * retry.backoff_of(attempt),
            github::LONGEST_DELAY as nat,
        ),
        attempt >= 16 ==> retry.backoff_of(attempt) == retry.backoff_of(16),
{
    vstd::arithmetic::power2::lemma2_to64();
    let base = retry.base_delay as int;
    assert(base * vstd::arithmetic::power2::pow2(0) == base);
    if attempt < 16 {
        vstd::arithmetic::power2::lemma_pow2_unfold(attempt + 1);
        let p = vstd::arithmetic::power2::pow2(attempt) as int;
        let q = vstd::arithmetic::power2::pow2(attempt + 1) as int;
        assert(base * q == 2 * (base * p)) by (nonlinear_arith)
            requires
                q == 2 * p,
        ;
        assert(base * p >= 0) by (nonlinear_arith)
            requires
                p >= 0,
                base >= 0,
        ;
    }
}

/// A wait is at least what the tries so far ask for, and at least what the API
/// asks for, up to a minute, and no longer than the longer of both. Without a
/// base delay nobody waits.
pub proof fn waits_honor_what_is_asked(retry: RetryConfig, attempt: nat, asked: Option<u64>)
    ensures
        retry.base_delay == 0 ==> retry.delay_of(attempt, asked) == 0,
        retry.base_delay > 0 ==> {
            let wait = retry.delay_of(attempt, asked);
            &&& wait >= retry.backoff_of(attempt)
            &&& asked is None ==> wait == retry.backoff_of(attempt)
            &&& asked matches Some(secs) ==> secs <= 60 ==> wait >= secs * 1_000_000_000
            &&& asked matches Some(secs) ==> secs > 60 ==> wait >= 60 * 1_000_000_000
            &&& asked matches Some(secs) ==> wait == retry.backoff_of(attempt) || wait == secs
                * 1_000_000_000 && secs <= 60 || wait == 60 * 1_000_000_000 && secs > 60
        },
{
}

/// Only a response of too many requests can ask for a wait.
pub proof fn only_rate_limits_ask_for_a_wait(error: GitHubErrorView)
    ensures
        match error {
            GitHubErrorView::RateLimited { retry_after, .. } => error.wait_hint() == retry_after,
            _ => error.wait_hint() is None,
        },
{
}

/// A new try waits as long as its error asks for, and has the next number.
pub proof fn failed_tries_are_repeated_after_a_wait<T>(
    retry: RetryConfig,
    attempt: nat,
    error: GitHubError,
)
    requires
        attempt < retry.max_retries,
    ensures
        github::step_after(retry, attempt, Attempt::<T>::Retry(error)) == (StepView::<T>::Again {
            delay: retry.delay_of(attempt, error@.wait_hint()),
            attempt: attempt + 1,
        }),
{
}

/// Whether a text holds words, but for the case of ASCII letters.
pub open spec fn mentions(body: Seq<char>, words: Seq<char>) -> bool {
    exists|at: int|
        0 <= at <= body.len() - words.len() && same_but_for_case(
            #[trigger] body.subrange(at, at + words.len()),
            words,
        )
}

proof fn lemma_mentions(body: Seq<char>, words: Seq<char>)
    requires
        text::lowered(words) == words,
    ensures
        text::holds(text::lowered(body), words) <==> mentions(body, words),
{
    let low = text::lowered(body);
    if text::holds(low, words) {
        let at = choose|at: int| text::stands_at(low, words, at);
        let part = body.subrange(at, at + words.len());
        assert(text::lowered(part) =~= low.subrange(at, at + words.len()));
        small_letters_tell_all_but_case(part, words);
    }
    if mentions(body, words) {
        let at = choose|at: int|
            0 <= at <= body.len() - words.len() && same_but_for_case(
                #[trigger] body.subrange(at, at + words.len()),
                words,
            );
        let part = body.subrange(at, at + words.len());
        small_letters_tell_all_but_case(part, words);
        assert(text::lowered(part) =~= low.subrange(at, at + words.len()));
        assert(text::stands_at(low, words, at));
    }
}

proof fn lemma_rate_words()
    ensures
        text::lowered("rate limit"@) == "rate limit"@,
        text::lowered("secondary rate"@) == "secondary rate"@,
        text::lowered("abuse"@) == "abuse"@,
{
    reveal_strlit("rate limit");
    reveal_strlit("secondary rate");
    reveal_strlit("abuse");
    assert(text::lowered("rate limit"@) =~= "rate limit"@);
    assert(text::lowered("secondary rate"@) =~= "secondary rate"@);
    assert(text::lowered("abuse"@) =~= "abuse"@);
}

/// There were too many requests where the status is 429, or where it is 403 and
/// no requests remain, or the response asks for a wait, or its body speaks of a
/// rate limit or of abuse; and nowhere else.
pub proof fn rate_limits_are_told_apart(status: u16, headers: Headers, body: Seq<char>)
    ensures
        github::rate_limited(status, headers, body) <==> status == 429 || status == 403 && ((
        headers.rate_remaining matches Header::Text(n) && n@ == "0"@) || headers.retry_after
            != Header::Absent || mentions(body, "rate limit"@) || mentions(
            body,
            "secondary rate"@,
        ) || mentions(body, "abuse"@)),
{
    lemma_rate_words();
    lemma_mentions(body, "rate limit"@);
    lemma_mentions(body, "secondary rate"@);
    lemma_mentions(body, "abuse"@);
}

/// A refused request is tried again exactly where there were too many requests
/// or the server failed, and what it failed with tells its status.
pub proof fn refusals_are_told_apart(
    status: u16,
    headers: Headers,
    body: Seq<char>,
    message: Seq<char>,
)
    ensures
        github::passing(status, headers, body) <==> github::rate_limited(status, headers, body)
            || 500 <= status <= 599,
        ({
            let error = github::refusal_error(status, headers, body, message);
            &&& github::rate_limited(status, headers, body)
                <==> error is RateLimited
            &&& error matches GitHubErrorView::RateLimited { message: said, retry_after } ==> said
                == message && match retry_after {
                Some(n) => github::seconds_asked(headers.retry_after) == Some(n as nat),
                None => github::seconds_asked(headers.retry_after) is None,
            }
            &&& error matches GitHubErrorView::Unauthorized(said) ==> said == message && status
                == 401
            &&& error matches GitHubErrorView::Forbidden(said) ==> said == message && status == 403
            &&& error matches GitHubErrorView::NotFound(said) ==> said == message && status == 404
            &&& error matches GitHubErrorView::Status { status: code, message: said } ==> said
                == message && code == status && status != 401 && status != 403 && status != 404
            &&& !(error is Transport) && !(error is Decode)
        }),
{
}

/// A response asks for the seconds that its header denotes in decimal notation,
/// whatever white space stands around it; a header that is no text asks for
/// nothing.
pub proof fn seconds_asked_are_read_back(a: Seq<char>, n: u64, b: Seq<char>, header: Header)
    requires
        blank(a),
        blank(b),
        header matches Header::Text(s) ==> s@ == a + text::decimal(n as nat) + b,
    ensures
        header is Text ==> github::seconds_asked(header) == Some(n as nat),
        !(header is Text) ==> github::seconds_asked(header) is None,
{
    let s = text::decimal(n as nat);
    crate::laws::texts::decimal_notation_denotes_the_number(n as nat);
    crate::laws::texts::numbers_are_read_back(n as nat, u64::MAX as nat);
    assert('0' <= s[0] <= '9');
    assert('0' <= s[s.len() - 1] <= '9');
    trimming_undoes_padding(a, s, b);
}

/// What a failed response says is the message in its body, where that is not
/// blank, else the start of the body, at most 200 characters of it, else that
/// there is none.
pub proof fn failures_say_what_the_response_says(body: Seq<char>, message: Option<Seq<char>>)
    ensures
        ({
            let said = github::failure_text(body, message);
            let some = message is Some && text::trimmed(message->0).len() > 0;
            let start = text::trimmed(body);
            &&& some ==> said == text::trimmed(message->0)
            &&& !some && start.len() == 0 ==> said == "(no response body)"@
            &&& !some && start.len() > 0 ==> said.is_prefix_of(start) && (said.len() == 200
                || said == start && start.len() < 200)
        }),
{
    let start = text::trimmed(body);
    assert(start.take(start.len() as int) =~= start);
}

/// The first link to a next page, in the order of the header, is followed.
pub proof fn the_first_next_link_is_followed(a: Seq<Seq<char>>, b: Seq<Seq<char>>)
    ensures
        github::next_in(a + b) == (if github::next_in(a) is Some {
            github::next_in(a)
        } else {
            github::next_in(b)
        }),
        github::next_in(Seq::empty()) is None,
    decreases a.len(),
{
    if a.len() == 0 {
        assert(a + b =~= b);
    } else {
        the_first_next_link_is_followed(a.drop_first(), b);
        assert((a + b).drop_first() =~= a.drop_first() + b);
        assert((a + b)[0] == a[0]);
    }
}

/// Whether `url` can stand in a link.
pub open spec fn plain_url(url: Seq<char>) -> bool {
    url.len() > 0 && forall|i: int|
        0 <= i < url.len() ==> !text::is_space(#[trigger] url[i]) && url[i] != '<' && url[i] != '>'
            && url[i] != ';' && url[i] != ','
}

/// A link as the API writes it, with what it leads to.
pub open spec fn link_to(url: Seq<char>, rel: Seq<char>) -> Seq<char> {
    "<"@ + url + ">"@ + ";"@ + " "@ + rel
}

/// A link says whether it leads to the next page, and where.
pub proof fn links_to_the_next_page_are_read(pad: Seq<char>, url: Seq<char>, rel: Seq<char>)
    requires
        blank(pad),
        plain_url(url),
        rel.len() > 0,
        !rel.contains(';'),
        !text::is_space(rel[0]),
        !text::is_space(rel.last()),
    ensures
        github::next_in(seq![pad + link_to(url, rel)]) == (if rel == "rel=\"next\""@ || rel
            == "rel=next"@ {
            Some(url)
        } else {
            None
        }),
{
    reveal_strlit("<");
    reveal_strlit(">");
    reveal_strlit(";");
    reveal_strlit(" ");
    let none = Seq::<char>::empty();
    let target = seq!['<'] + url + seq!['>'];
    let left = pad + target;
    let gap = seq![' '];
    let right = gap + rel;
    let part = pad + link_to(url, rel);
    assert(part =~= left.push(';') + right);
    assert(!left.contains(';')) by {
        if left.contains(';') {
            let i = choose|i: int| 0 <= i < left.len() && left[i] == ';';
            if i < pad.len() {
                assert(text::is_space(pad[i]));
            } else if pad.len() < i < left.len() - 1 {
                assert(url[i - pad.len() - 1] == ';');
            }
        }
    }
    assert(!right.contains(';')) by {
        if right.contains(';') {
            let i = choose|i: int| 0 <= i < right.len() && right[i] == ';';
            assert(i > 0);
            assert(rel[i - 1] == ';');
        }
    }
    text::lemma_two_parts(left, right, ';');
    let parts = text::parts(part, ';');
    assert(parts[0] == left && parts[1] == right);
    assert(left =~= pad + target + none);
    trimming_undoes_padding(pad, target, none);
    assert(right =~= gap + rel + none);
    trimming_undoes_padding(gap, rel, none);
    let open = text::only('<');
    let shut = text::only('>');
    assert(target.drop_first() =~= url + seq!['>']);
    assert((url + seq!['>'])[0] == url[0]);
    assert(text::without_leading(target.drop_first(), open) == url + seq!['>']);
    assert(text::without_leading(target, open) == url + seq!['>']);
    assert((url + seq!['>']).drop_last() =~= url);
    assert(url.last() == url[url.len() - 1]);
    assert(text::without_trailing(url, shut) == url);
    assert(text::without_trailing(url + seq!['>'], shut) == url);
    assert(github::link_target(part) == url);
    let one = seq![part];
    assert(one.drop_first() =~= Seq::empty());
    assert(github::next_in(one.drop_first()) is None);
    if rel == "rel=\"next\""@ || rel == "rel=next"@ {
        assert(github::says_next(parts[1]));
        assert(github::links_next(part));
    } else {
        assert(!github::says_next(parts[1]));
        assert(!github::links_next(part));
    }
}

/// Links are parted by commas, and a header that is no text has none.
pub proof fn headers_are_split_at_commas(link: Header)
    ensures
        match link {
            Header::Text(value) => github::next_link(link) == github::next_in(
                text::parts(value@, ','),
            ),
            _ => github::next_link(link) is None,
        },
{
}

/// A page that leads on is added to the results so far, and one that does not
/// hands all of them out and keeps none.
pub proof fn pages_are_added_up<T>(items: Seq<T>, page: Page<Vec<T>>)
    ensures
        page.next matches Some(next) ==> github::step_page(items, page) == (
            items + page.items@,
            PagingView::<T>::More(next@),
        ),
        page.next is None ==> github::step_page(items, page) == (
            Seq::<T>::empty(),
            PagingView::<T>::All(items + page.items@),
        ),
{
}

/// What is said of a failed request ends with what the API or the transport
/// said.
pub proof fn errors_pass_on_what_was_said(error: GitHubErrorView, said: Seq<char>)
    requires
        match error {
            GitHubErrorView::Unauthorized(message) => message == said,
            GitHubErrorView::Forbidden(message) => message == said,
            GitHubErrorView::RateLimited { message, .. } => message == said,
            GitHubErrorView::NotFound(message) => message == said,
            GitHubErrorView::Status { message, .. } => message == said,
            GitHubErrorView::Transport(message) => message == said,
            GitHubErrorView::Decode(message) => message == said,
        },
    ensures
        error.message().len() > said.len(),
        error.message().skip(error.message().len() - said.len()) == said,
{
    reveal_strlit("unauthorized (401): ");
    reveal_strlit("forbidden (403): ");
    reveal_strlit("rate limited: ");
    reveal_strlit("not found (404): ");
    reveal_strlit("unexpected status ");
    reveal_strlit(": ");
    reveal_strlit("request failed: ");
    reveal_strlit("failed to parse response: ");
    assert(error.message().skip(error.message().len() - said.len()) =~= said);
}

/// A text is a token without the white space around it, unless it is blank.
pub proof fn blank_tokens_do_not_count(value: Option<String>)
    ensures
        value is None ==> github::usable(value) is None,
        value matches Some(s) ==> (github::usable(value) is None <==> blank(s@)),
        value matches Some(s) ==> !blank(s@) ==> github::usable(value) == Some(text::trimmed(s@)),
{
    if value is Some {
        let s = value->0@;
        crate::laws::texts::trimming_takes_white_space_off_the_ends(s);
        let (from, to) = choose|from: int, to: int|
            0 <= from <= to <= s.len() && text::trimmed(s) == #[trigger] s.subrange(from, to)
                && blank(s.take(from)) && blank(s.skip(to));
        if text::trimmed(s).len() == 0 {
            assert forall|i: int| 0 <= i < s.len() implies text::is_space(#[trigger] s[i]) by {
                if i < from {
                    assert(s.take(from)[i] == s[i]);
                } else {
                    assert(s.skip(to)[i - to] == s[i]);
                }
            }
        } else {
            assert(text::trimmed(s)[0] == s[from]);
        }
    }
}

/// Whether whatever `env` answers for a variable holds the token `token`.
pub open spec fn always_holds<E: Fn(&str) -> Option<String>>(
    env: E,
    name: &str,
    token: Option<Seq<char>>,
) -> bool {
    forall|a: Option<String>| #[trigger] env.ensures((name,), a) ==> github::usable(a) == token
}

/// The first of `ACTSTAT_GITHUB_TOKEN`, `GH_TOKEN` and `GITHUB_TOKEN` that holds
/// a token is taken, else what `gh` prints, else there is none.
pub proof fn tokens_are_looked_for_in_order<
    E: Fn(&str) -> Option<String>,
    G: FnOnce() -> Option<String>,
>(
    env: E,
    gh: G,
    found: TokenView,
    a: Option<Seq<char>>,
    b: Option<Seq<char>>,
    c: Option<Seq<char>>,
    g: Option<Seq<char>>,
)
    requires
        github::discovery(env, gh, found),
        always_holds(env, "ACTSTAT_GITHUB_TOKEN", a),
        always_holds(env, "GH_TOKEN", b),
        always_holds(env, "GITHUB_TOKEN", c),
        forall|x: Option<String>| #[trigger] gh.ensures((), x) ==> github::usable(x) == g,
    ensures
        a is Some ==> found.token == a && found.source == SourceView::Env(
            "ACTSTAT_GITHUB_TOKEN"@,
        ),
        a is None && b is Some ==> found.token == b && found.source == SourceView::Env(
            "GH_TOKEN"@,
        ),
        a is None && b is None && c is Some ==> found.token == c && found.source
            == SourceView::Env("GITHUB_TOKEN"@),
        a is None && b is None && c is None && g is Some ==> found.token == g && found.source
            == SourceView::GhCli,
        a is None && b is None && c is None && g is None ==> found.token is None && found.source
            == SourceView::Unauthenticated,
{
}

/// A URL is absolute where it begins with `http://` or `https://`.
pub proof fn absolute_urls_name_their_scheme(url: Seq<char>)
    ensures
        github::absolute(url) <==> "http://"@.is_prefix_of(url) || "https://"@.is_prefix_of(url),
{
    let a = "http://"@;
    let b = "https://"@;
    if a.len() <= url.len() {
        assert(url.subrange(0, a.len() as int) =~= url.take(a.len() as int));
    }
    if b.len() <= url.len() {
        assert(url.subrange(0, b.len() as int) =~= url.take(b.len() as int));
    }
}

} // verus!
