//! Laws of repository names, and of the list of repositories.

use vstd::prelude::*;

use crate::cli;
use crate::config;
use crate::config::{ConfigErrorView, NameView, OrgView, RawProjectView, RepoName};
use crate::github;
use crate::github::{ApiRepoView, GitHubError};
use crate::laws::texts::{same_but_for_case, small_letters_tell_all_but_case};
use crate::text;

verus! {

/// A parsed name has two plain sides.
pub proof fn parsed_names_are_well_formed(s: Seq<char>)
    ensures
        config::parsed_name(s) matches Ok(name) ==> name.well_formed(),
{
    if config::parsed_name(s) is Ok {
        let t = text::trimmed(s);
        let sides = text::parts(t, '/');
        text::lemma_parts_free(t, '/');
        assert(!sides[0].contains('/') && !sides[1].contains('/'));
        text::lemma_trimmed_free(sides[0], '/');
        text::lemma_trimmed_free(sides[1], '/');
    }
}

/// Parsing the rendering of a well-formed name gives the name back.
pub proof fn parsing_undoes_rendering(name: NameView)
    requires
        name.well_formed(),
    ensures
        config::parsed_name(name.full()) == Ok::<NameView, Seq<char>>(name),
{
    let full = name.full();
    reveal_strlit("/");
    assert(full =~= name.owner.push('/') + name.name);
    assert(full[0] == name.owner[0]);
    assert(full.last() == name.name.last());
    assert(text::without_leading(full, text::spaces()) == full);
    assert(text::without_trailing(full, text::spaces()) == full);
    text::lemma_two_parts(name.owner, name.name, '/');
    assert(!text::is_space(name.owner.last()));
    assert(!text::is_space(name.name[0]));
    assert(text::trimmed(name.owner) == name.owner);
    assert(text::trimmed(name.name) == name.name);
}

/// Two well-formed names that are written alike are the same.
pub proof fn rendering_tells_names_apart(a: NameView, b: NameView)
    requires
        a.well_formed(),
        b.well_formed(),
        a.full() == b.full(),
    ensures
        a == b,
{
    parsing_undoes_rendering(a);
    parsing_undoes_rendering(b);
}

/// Two merges of a list that agree up to some place agree there too.
proof fn lemma_merges_agree_at(all: Seq<NameView>, a: Seq<NameView>, b: Seq<NameView>, i: int)
    requires
        config::is_merge(all, a),
        config::is_merge(all, b),
        0 <= i < a.len(),
        i <= b.len(),
        forall|j: int| 0 <= j < i ==> a[j] == b[j],
    ensures
        i < b.len(),
        a[i] == b[i],
{
    let k = choose|k: int| config::first_written(all, k) && all[k] == a[i];
    assert(config::lists(b, all[k].full()));
    let m = choose|m: int| 0 <= m < b.len() && (#[trigger] b[m]).full() == all[k].full();
    if m < i {
        assert(a[m].precedes(a[i]));
        text::before_is_irreflexive(a[i].full());
    }
    if m > i {
        let l = choose|l: int| config::first_written(all, l) && all[l] == b[i];
        assert(config::lists(a, all[l].full()));
        let n = choose|n: int| 0 <= n < a.len() && (#[trigger] a[n]).full() == all[l].full();
        assert(b[i].precedes(b[m]));
        text::before_is_irreflexive(a[i].full());
        if n < i {
            assert(b[n].precedes(b[i]));
            text::before_is_irreflexive(b[i].full());
        } else if n > i {
            assert(a[i].precedes(a[n]));
            text::before_is_transitive(a[i].full(), b[i].full(), a[i].full());
        }
    }
    let l = choose|l: int| config::first_written(all, l) && all[l] == b[i];
    assert(k == l);
}

/// Two merges of a list agree up to every place that the first one has.
proof fn lemma_merges_agree(all: Seq<NameView>, a: Seq<NameView>, b: Seq<NameView>, n: int)
    requires
        config::is_merge(all, a),
        config::is_merge(all, b),
        0 <= n <= a.len(),
    ensures
        n <= b.len(),
        forall|j: int| 0 <= j < n ==> a[j] == b[j],
    decreases n,
{
    if n > 0 {
        lemma_merges_agree(all, a, b, n - 1);
        lemma_merges_agree_at(all, a, b, n - 1);
    }
}

/// A list of repositories has one merge only.
pub proof fn merge_is_unique(all: Seq<NameView>, a: Seq<NameView>, b: Seq<NameView>)
    requires
        config::is_merge(all, a),
        config::is_merge(all, b),
    ensures
        a == b,
{
    lemma_merges_agree(all, a, b, a.len() as int);
    lemma_merges_agree(all, b, a, b.len() as int);
    assert(a =~= b);
}

/// A repository that is listed twice, or both alone and through its
/// organization, stands in the merge once.
pub proof fn merge_holds_each_name_once(all: Seq<NameView>, merged: Seq<NameView>, i: int, j: int)
    requires
        config::is_merge(all, merged),
        0 <= i < merged.len(),
        0 <= j < merged.len(),
        merged[i].full() == merged[j].full(),
    ensures
        i == j,
{
    text::before_is_irreflexive(merged[i].full());
    if i < j {
        assert(merged[i].precedes(merged[j]));
    } else if j < i {
        assert(merged[j].precedes(merged[i]));
    }
}

/// The merge holds what was listed and nothing else.
pub proof fn merge_keeps_the_listed_names(
    all: Seq<NameView>,
    merged: Seq<NameView>,
    full: Seq<char>,
)
    requires
        config::is_merge(all, merged),
    ensures
        config::lists(merged, full) <==> config::lists(all, full),
{
    if config::lists(merged, full) {
        let i = choose|i: int| 0 <= i < merged.len() && (#[trigger] merged[i]).full() == full;
        let k = choose|k: int| config::first_written(all, k) && all[k] == merged[i];
        assert(all[k].full() == full);
    }
    if config::lists(all, full) {
        let k = choose|k: int| 0 <= k < all.len() && (#[trigger] all[k]).full() == full;
        assert(config::lists(merged, all[k].full()));
    }
}

/// A repository that is configured alone is in the list, whatever the
/// organizations expand to.
pub proof fn explicit_repositories_are_listed(
    explicit: Seq<NameView>,
    expanded: Seq<NameView>,
    merged: Seq<NameView>,
    i: int,
)
    requires
        config::is_merge(explicit + expanded, merged),
        0 <= i < explicit.len(),
    ensures
        config::lists(merged, explicit[i].full()),
{
    assert((explicit + expanded)[i] == explicit[i]);
}

/// What an organization expands to has passed its filters: nothing excluded,
/// and nothing archived or forked that was not asked for.
pub proof fn expansion_passes_the_filters(org: OrgView, repos: Seq<ApiRepoView>, i: int)
    requires
        0 <= i < github::expanded(org, repos).len(),
    ensures
        exists|k: int|
            0 <= k < repos.len() && github::passes_filters(org, #[trigger] repos[k])
                && github::expanded(org, repos)[i] == (NameView {
                owner: repos[k].owner,
                name: repos[k].name,
            }),
        forall|e: int|
            0 <= e < org.exclude.len() ==> !github::alike(
                #[trigger] org.exclude[e],
                github::expanded(org, repos)[i],
            ),
    decreases repos.len(),
{
    let init = repos.drop_last();
    let n = repos.len() - 1;
    if github::passes_filters(org, repos.last()) && i == github::expanded(org, init).len() {
        assert(repos[n] == repos.last());
    } else {
        expansion_passes_the_filters(org, init, i);
        let k = choose|k: int|
            0 <= k < init.len() && github::passes_filters(org, #[trigger] init[k])
                && github::expanded(org, init)[i] == (NameView {
                owner: init[k].owner,
                name: init[k].name,
            });
        assert(repos[k] == init[k]);
    }
}

/// Every repository that passes an organization's filters is in its expansion.
pub proof fn expansion_keeps_what_passes(org: OrgView, repos: Seq<ApiRepoView>, k: int)
    requires
        0 <= k < repos.len(),
        github::passes_filters(org, repos[k]),
    ensures
        github::expanded(org, repos).contains(
            NameView { owner: repos[k].owner, name: repos[k].name },
        ),
    decreases repos.len(),
{
    let init = repos.drop_last();
    let name = NameView { owner: repos[k].owner, name: repos[k].name };
    let all = github::expanded(org, repos);
    if k == repos.len() - 1 {
        assert(all[all.len() - 1] == name);
    } else {
        assert(init[k] == repos[k]);
        expansion_keeps_what_passes(org, init, k);
        let before = github::expanded(org, init);
        let i = choose|i: int| 0 <= i < before.len() && before[i] == name;
        assert(all[i] == name);
    }
}

/// The selection of repositories on the command line only ever removes: what
/// it keeps was there and was asked for.
pub proof fn filtering_only_removes(repos: Seq<NameView>, wanted: Seq<Seq<char>>, i: int)
    requires
        0 <= i < cli::wanted_repos(repos, wanted).len(),
    ensures
        repos.contains(cli::wanted_repos(repos, wanted)[i]),
        wanted.contains(cli::wanted_repos(repos, wanted)[i].full()),
    decreases repos.len(),
{
    let init = repos.drop_last();
    let before = cli::wanted_repos(init, wanted);
    if i < before.len() {
        filtering_only_removes(init, wanted, i);
        let k = choose|k: int| 0 <= k < init.len() && init[k] == before[i];
        assert(repos[k] == before[i]);
    } else {
        assert(repos[repos.len() - 1] == repos.last());
    }
}

/// The selection keeps every repository that was asked for.
pub proof fn filtering_keeps_what_is_wanted(repos: Seq<NameView>, wanted: Seq<Seq<char>>, k: int)
    requires
        0 <= k < repos.len(),
        wanted.contains(repos[k].full()),
    ensures
        cli::wanted_repos(repos, wanted).contains(repos[k]),
    decreases repos.len(),
{
    let init = repos.drop_last();
    let all = cli::wanted_repos(repos, wanted);
    if k == repos.len() - 1 {
        assert(all[all.len() - 1] == repos[k]);
    } else {
        assert(init[k] == repos[k]);
        filtering_keeps_what_is_wanted(init, wanted, k);
        let before = cli::wanted_repos(init, wanted);
        let i = choose|i: int| 0 <= i < before.len() && before[i] == repos[k];
        assert(all[i] == repos[k]);
    }
}

/// The selection keeps the alphabetical order.
pub proof fn filtering_keeps_the_order(repos: Seq<NameView>, wanted: Seq<Seq<char>>)
    requires
        config::alphabetical(repos),
    ensures
        config::alphabetical(cli::wanted_repos(repos, wanted)),
    decreases repos.len(),
{
    if repos.len() > 0 {
        let init = repos.drop_last();
        let last = repos[repos.len() - 1];
        assert forall|i: int, j: int|
            #![trigger init[i], init[j]]
            0 <= i < j < init.len() implies init[i].precedes(init[j]) by {
            assert(repos[i].precedes(repos[j]));
        }
        filtering_keeps_the_order(init, wanted);
        let before = cli::wanted_repos(init, wanted);
        let all = cli::wanted_repos(repos, wanted);
        assert forall|i: int, j: int|
            #![trigger all[i], all[j]]
            0 <= i < j < all.len() implies all[i].precedes(all[j]) by {
            if j < before.len() {
                assert(before[i].precedes(before[j]));
            } else {
                filtering_only_removes(init, wanted, i);
                let k = choose|k: int| 0 <= k < init.len() && init[k] == before[i];
                assert(repos[k].precedes(last));
            }
        }
    }
}

/// An organization that could not be expanded leaves the others as they are.
pub proof fn failed_expansions_change_nothing_else(
    a: Seq<(String, Result<Vec<RepoName>, GitHubError>)>,
    failed: (String, Result<Vec<RepoName>, GitHubError>),
    b: Seq<(String, Result<Vec<RepoName>, GitHubError>)>,
)
    requires
        failed.1 is Err,
    ensures
        github::all_expanded(a.push(failed) + b) == github::all_expanded(a + b),
        github::all_failed(a.push(failed) + b).len() == github::all_failed(a + b).len() + 1,
    decreases b.len(),
{
    if b.len() == 0 {
        assert(a.push(failed) + b =~= a.push(failed));
        assert(a + b =~= a);
        assert(a.push(failed).drop_last() =~= a);
    } else {
        let init = b.drop_last();
        failed_expansions_change_nothing_else(a, failed, init);
        assert((a.push(failed) + b).drop_last() =~= a.push(failed) + init);
        assert((a + b).drop_last() =~= a + init);
        assert((a.push(failed) + b).last() == b.last());
        assert((a + b).last() == b.last());
    }
}

/// A valid configuration has a source for each of its entries, at least one.
pub proof fn valid_configs_keep_every_entry(raw: Option<Seq<RawProjectView>>)
    ensures
        config::valid_config(raw) matches Ok(projects) ==> raw is Some && projects.len()
            == raw->0.len() && projects.len() > 0,
{
    if config::valid_config(raw) is Ok {
        lemma_valid_projects_len(raw->0);
    }
}

proof fn lemma_valid_projects_len(raw: Seq<RawProjectView>)
    ensures
        config::valid_projects(raw) matches Ok(projects) ==> projects.len() == raw.len(),
    decreases raw.len(),
{
    if raw.len() > 0 {
        lemma_valid_projects_len(raw.drop_last());
    }
}

/// Each name that a valid organization entry excludes belongs to the
/// organization, but for the case of ASCII letters.
pub proof fn exclusions_belong_to_their_org(org: Seq<char>, entries: Seq<Seq<char>>, n: nat)
    ensures
        config::excluded_names(org, entries, n) matches Ok(names) ==> names.len() == entries.len()
            && forall|i: int|
            0 <= i < names.len() ==> text::lowered((#[trigger] names[i]).owner) == text::lowered(
                org,
            ),
    decreases entries.len(),
{
    if entries.len() > 0 {
        exclusions_belong_to_their_org(org, entries.drop_last(), n);
    }
}

/// The message of an invalid or unreadable config names the file.
pub proof fn config_errors_name_the_file(path: Seq<char>, said: Seq<char>)
    ensures
        text::holds((ConfigErrorView::Invalid { path, message: said }).message(), path),
        text::holds((ConfigErrorView::Read { path, source: said }).message(), path),
{
    let a = "invalid config at "@;
    let invalid = (ConfigErrorView::Invalid { path, message: said }).message();
    assert(invalid.subrange(a.len() as int, (a.len() + path.len()) as int) =~= path);
    assert(text::stands_at(invalid, path, a.len() as int));
    let b = "failed to read config at "@;
    let unread = (ConfigErrorView::Read { path, source: said }).message();
    assert(unread.subrange(b.len() as int, (b.len() + path.len()) as int) =~= path);
    assert(text::stands_at(unread, path, b.len() as int));
}

/// Whether two names are the same but for the case of ASCII letters: the owner
/// and the name, each as a whole.
pub open spec fn same_repository(a: NameView, b: NameView) -> bool {
    same_but_for_case(a.owner, b.owner) && same_but_for_case(a.name, b.name)
}

/// Whether an organization leaves a repository out: an archived one or a fork
/// that was not asked for, or one whose owner and name are on its list.
pub open spec fn left_out(org: OrgView, repo: ApiRepoView) -> bool {
    ||| repo.archived && !org.include_archived
    ||| repo.fork && !org.include_forks
    ||| exists|e: int|
        0 <= e < org.exclude.len() && same_repository(
            #[trigger] org.exclude[e],
            NameView { owner: repo.owner, name: repo.name },
        )
}

proof fn lemma_left_out(org: OrgView, repo: ApiRepoView)
    ensures
        github::passes_filters(org, repo) <==> !left_out(org, repo),
{
    let name = NameView { owner: repo.owner, name: repo.name };
    assert forall|e: int| 0 <= e < org.exclude.len() implies (github::alike(
        #[trigger] org.exclude[e],
        name,
    ) <==> same_repository(org.exclude[e], name)) by {
        small_letters_tell_all_but_case(org.exclude[e].owner, name.owner);
        small_letters_tell_all_but_case(org.exclude[e].name, name.name);
    }
    if left_out(org, repo) && github::passes_filters(org, repo) {
        let e = choose|e: int|
            0 <= e < org.exclude.len() && same_repository(#[trigger] org.exclude[e], name);
        assert(github::alike(org.exclude[e], name));
    }
    if !left_out(org, repo) {
        assert forall|e: int| 0 <= e < org.exclude.len() implies !github::alike(
            #[trigger] org.exclude[e],
            name,
        ) by {
            assert(!same_repository(org.exclude[e], name));
        }
    }
}

/// A listed repository is in the expansion where it is neither archived nor a
/// fork, or such ones are asked for, and no entry of the exclude list has both
/// the same owner and the same name. A name that only begins alike is no
/// reason to leave it out.
pub proof fn only_what_is_left_out_is_missing(org: OrgView, repos: Seq<ApiRepoView>, k: int)
    requires
        0 <= k < repos.len(),
        org.include_archived || !repos[k].archived,
        org.include_forks || !repos[k].fork,
        forall|e: int|
            0 <= e < org.exclude.len() ==> !(same_but_for_case(
                (#[trigger] org.exclude[e]).owner,
                repos[k].owner,
            ) && same_but_for_case(org.exclude[e].name, repos[k].name)),
    ensures
        github::expanded(org, repos).contains(
            NameView { owner: repos[k].owner, name: repos[k].name },
        ),
{
    lemma_left_out(org, repos[k]);
    expansion_keeps_what_passes(org, repos, k);
}

/// One listed repository expands to itself, or to nothing where it is left out.
pub proof fn a_repository_expands_unless_left_out(org: OrgView, repo: ApiRepoView)
    ensures
        github::expanded(org, seq![repo]) == (if left_out(org, repo) {
            Seq::empty()
        } else {
            seq![NameView { owner: repo.owner, name: repo.name }]
        }),
{
    lemma_left_out(org, repo);
    let one = seq![repo];
    assert(one.drop_last() =~= Seq::empty());
    assert(one.last() == repo);
    assert(github::expanded(org, one.drop_last()) =~= Seq::<NameView>::empty());
    assert(!left_out(org, repo) ==> github::expanded(org, one) =~= seq![
        NameView { owner: repo.owner, name: repo.name },
    ]);
}

/// An expansion follows the listing: what two lists expand to together is what
/// the one expands to and then what the other does.
pub proof fn expansions_follow_the_listing(
    org: OrgView,
    a: Seq<ApiRepoView>,
    b: Seq<ApiRepoView>,
)
    ensures
        github::expanded(org, a + b) == github::expanded(org, a) + github::expanded(org, b),
    decreases b.len(),
{
    if b.len() == 0 {
        assert(a + b =~= a);
        assert(github::expanded(org, a) + github::expanded(org, b) =~= github::expanded(org, a));
    } else {
        expansions_follow_the_listing(org, a, b.drop_last());
        assert((a + b).drop_last() =~= a + b.drop_last());
        assert((a + b).last() == b.last());
        assert(github::expanded(org, a + b) =~= github::expanded(org, a) + github::expanded(
            org,
            b,
        ));
    }
}

/// What several organizations expand to is what each of them does, in order;
/// and so are their failures.
pub proof fn organizations_are_expanded_one_by_one(
    a: Seq<(String, Result<Vec<RepoName>, GitHubError>)>,
    b: Seq<(String, Result<Vec<RepoName>, GitHubError>)>,
)
    ensures
        github::all_expanded(a + b) == github::all_expanded(a) + github::all_expanded(b),
        github::all_failed(a + b) == github::all_failed(a) + github::all_failed(b),
    decreases b.len(),
{
    if b.len() == 0 {
        assert(a + b =~= a);
        assert(github::all_expanded(a) + github::all_expanded(b) =~= github::all_expanded(a));
        assert(github::all_failed(a) + github::all_failed(b) =~= github::all_failed(a));
    } else {
        organizations_are_expanded_one_by_one(a, b.drop_last());
        assert((a + b).drop_last() =~= a + b.drop_last());
        assert((a + b).last() == b.last());
        assert(github::all_expanded(a + b) =~= github::all_expanded(a) + github::all_expanded(b));
        assert(github::all_failed(a + b) =~= github::all_failed(a) + github::all_failed(b));
    }
}

/// An organization either contributes its repositories, or is reported by its
/// login with the reason why it could not be expanded.
pub proof fn an_organization_expands_or_fails(
    expansion: (String, Result<Vec<RepoName>, GitHubError>),
)
    ensures
        match expansion.1 {
            Ok(names) => github::all_expanded(seq![expansion]) == config::name_views(names@)
                && github::all_failed(seq![expansion]).len() == 0,
            Err(e) => github::all_expanded(seq![expansion]).len() == 0 && github::all_failed(
                seq![expansion],
            ) == seq![(expansion.0@, e@.message())],
        },
{
    let one = seq![expansion];
    assert(one.drop_last() =~= Seq::empty());
    assert(one.last() == expansion);
    assert(github::all_expanded(one.drop_last()) =~= Seq::<NameView>::empty());
    assert(github::all_failed(one.drop_last()) =~= Seq::<(Seq<char>, Seq<char>)>::empty());
    match expansion.1 {
        Ok(names) => {
            assert(github::all_expanded(one) =~= config::name_views(names@));
        },
        Err(e) => {
            assert(github::all_failed(one) =~= seq![(expansion.0@, e@.message())]);
        },
    }
}

/// The merged list stands in the order of `owner/name`: of two of its names the
/// earlier one is written before the later one, and each was listed.
pub proof fn merge_is_alphabetical(all: Seq<NameView>, merged: Seq<NameView>, i: int, j: int)
    requires
        config::is_merge(all, merged),
        0 <= i < j < merged.len(),
    ensures
        text::before(
            merged[i].owner + "/"@ + merged[i].name,
            merged[j].owner + "/"@ + merged[j].name,
        ),
        all.contains(merged[i]),
        all.contains(merged[j]),
{
    assert(merged[i].precedes(merged[j]));
    let k = choose|k: int| config::first_written(all, k) && all[k] == merged[i];
    let l = choose|l: int| config::first_written(all, l) && all[l] == merged[j];
    assert(all[k] == merged[i] && all[l] == merged[j]);
}

/// Every listed name is in the merged list, written as it is.
pub proof fn every_listed_name_is_merged(all: Seq<NameView>, merged: Seq<NameView>, k: int)
    requires
        config::is_merge(all, merged),
        0 <= k < all.len(),
    ensures
        exists|i: int|
            0 <= i < merged.len() && (#[trigger] merged[i]).owner + "/"@ + merged[i].name
                == all[k].owner + "/"@ + all[k].name,
{
    assert(config::lists(merged, all[k].full()));
    let i = choose|i: int| 0 <= i < merged.len() && (#[trigger] merged[i]).full() == all[k].full();
    assert(merged[i].owner + "/"@ + merged[i].name == all[k].owner + "/"@ + all[k].name);
}

/// The selection on the command line follows the list: what it keeps of two
/// lists is what it keeps of the one and then of the other.
pub proof fn filtering_follows_the_list(
    a: Seq<NameView>,
    b: Seq<NameView>,
    wanted: Seq<Seq<char>>,
)
    ensures
        cli::wanted_repos(a + b, wanted) == cli::wanted_repos(a, wanted) + cli::wanted_repos(
            b,
            wanted,
        ),
    decreases b.len(),
{
    if b.len() == 0 {
        assert(a + b =~= a);
        assert(cli::wanted_repos(a, wanted) + cli::wanted_repos(b, wanted) =~= cli::wanted_repos(
            a,
            wanted,
        ));
    } else {
        filtering_follows_the_list(a, b.drop_last(), wanted);
        assert((a + b).drop_last() =~= a + b.drop_last());
        assert((a + b).last() == b.last());
        assert(cli::wanted_repos(a + b, wanted) =~= cli::wanted_repos(a, wanted)
            + cli::wanted_repos(b, wanted));
    }
}

/// A repository is kept exactly where one of the names asked for is its
/// `owner/name`, letter for letter.
pub proof fn a_repository_is_kept_where_asked_for(repo: NameView, wanted: Seq<Seq<char>>)
    ensures
        cli::wanted_repos(seq![repo], wanted) == (if exists|i: int|
            0 <= i < wanted.len() && #[trigger] wanted[i] == repo.owner + "/"@ + repo.name {
            seq![repo]
        } else {
            Seq::empty()
        }),
{
    let one = seq![repo];
    assert(one.drop_last() =~= Seq::empty());
    assert(one.last() == repo);
    assert(cli::wanted_repos(one.drop_last(), wanted) =~= Seq::<NameView>::empty());
    if exists|i: int|
        0 <= i < wanted.len() && #[trigger] wanted[i] == repo.owner + "/"@ + repo.name {
        let i = choose|i: int|
            0 <= i < wanted.len() && #[trigger] wanted[i] == repo.owner + "/"@ + repo.name;
        assert(wanted[i] == repo.full());
        assert(wanted.contains(repo.full()));
        assert(cli::wanted_repos(one, wanted) =~= seq![repo]);
    } else {
        assert(!wanted.contains(repo.full()));
    }
}

/// The names asked for are parsed one by one: each must be a name, and is
/// looked for as its `owner/name`.
pub proof fn wanted_names_are_parsed_one_by_one(requested: Seq<Seq<char>>)
    ensures
        match cli::wanted_names(requested) {
            Ok(names) => names.len() == requested.len() && forall|i: int|
                #![trigger names[i]]
                #![trigger requested[i]]
                0 <= i < requested.len() ==> config::parsed_name(requested[i]) is Ok && names[i]
                    == config::parsed_name(requested[i])->Ok_0.owner + "/"@ + config::parsed_name(
                    requested[i],
                )->Ok_0.name,
            Err(message) => exists|i: int|
                0 <= i < requested.len() && config::parsed_name(#[trigger] requested[i]) == Err::<
                    NameView,
                    Seq<char>,
                >(message) && forall|j: int|
                    0 <= j < i ==> config::parsed_name(#[trigger] requested[j]) is Ok,
        },
    decreases requested.len(),
{
    if requested.len() > 0 {
        let init = requested.drop_last();
        let last = requested.len() - 1;
        wanted_names_are_parsed_one_by_one(init);
        assert forall|j: int| 0 <= j < last implies #[trigger] requested[j] == init[j] by {}
        match cli::wanted_names(init) {
            Err(message) => {
                let i = choose|i: int|
                    0 <= i < init.len() && config::parsed_name(#[trigger] init[i]) == Err::<
                        NameView,
                        Seq<char>,
                    >(message) && forall|j: int|
                        0 <= j < i ==> config::parsed_name(#[trigger] init[j]) is Ok;
                assert(config::parsed_name(requested[i]) == Err::<NameView, Seq<char>>(message));
                assert forall|j: int| 0 <= j < i implies config::parsed_name(
                    #[trigger] requested[j],
                ) is Ok by {
                    assert(config::parsed_name(init[j]) is Ok);
                }
            },
            Ok(before) => {
                assert forall|j: int| 0 <= j < last implies config::parsed_name(
                    #[trigger] requested[j],
                ) is Ok by {
                    assert(config::parsed_name(init[j]) is Ok);
                }
                match config::parsed_name(requested.last()) {
                    Err(message) => {
                        assert(config::parsed_name(requested[last]) == Err::<NameView, Seq<char>>(
                            message,
                        ));
                    },
                    Ok(name) => {
                        let names = cli::wanted_names(requested)->Ok_0;
                        assert forall|i: int| 0 <= i < requested.len() implies names[i]
                            == config::parsed_name(#[trigger] requested[i])->Ok_0.owner + "/"@
                            + config::parsed_name(requested[i])->Ok_0.name by {
                            if i < last {
                                assert(names[i] == before[i]);
                            }
                        }
                    },
                }
            },
        }
    }
}

} // verus!
