//! Laws of the configuration: how names are read, what is valid, and where the
//! file is found.

use vstd::prelude::*;

use crate::config;
use crate::config::{
    ConfigErrorView, DiscoveryEnv, NameView, OrgView, ProjectView, RawProjectView,
};
use crate::laws::texts;
use crate::laws::texts::{blank, same_but_for_case};
use crate::text;

verus! {

/// Whether `s` can be one side of an `owner/name`.
pub open spec fn is_side(s: Seq<char>) -> bool {
    s.len() > 0 && forall|i: int|
        0 <= i < s.len() ==> (#[trigger] s[i]) != '/' && !text::is_space(s[i])
}

/// A plain side is one without a slash and without white space.
proof fn lemma_sides(s: Seq<char>)
    ensures
        config::plain_side(s) <==> is_side(s),
{
    if config::plain_side(s) {
        assert forall|i: int| 0 <= i < s.len() implies (#[trigger] s[i]) != '/' && !text::is_space(
            s[i],
        ) by {
            assert(s.contains(s[i]));
        }
    }
}

/// White space holds no slash.
proof fn lemma_blank_has_no_slash(s: Seq<char>)
    requires
        blank(s),
    ensures
        !s.contains('/'),
{
    if s.contains('/') {
        let i = choose|i: int| 0 <= i < s.len() && s[i] == '/';
        assert(text::is_space(s[i]));
    }
}

/// Two sides with a slash between them are a name, whatever white space stands
/// around each of them.
pub proof fn padded_names_are_read(
    a: Seq<char>,
    owner: Seq<char>,
    b: Seq<char>,
    c: Seq<char>,
    name: Seq<char>,
    d: Seq<char>,
)
    requires
        blank(a),
        blank(b),
        blank(c),
        blank(d),
        is_side(owner),
        is_side(name),
    ensures
        config::parsed_name(a + owner + b + seq!['/'] + c + name + d) == Ok::<NameView, Seq<char>>(
            NameView { owner, name },
        ),
{
    let s = a + owner + b + seq!['/'] + c + name + d;
    let left = owner + b;
    let right = c + name;
    let core = left.push('/') + right;
    assert(s =~= a + core + d);
    assert(core[0] == owner[0]);
    assert(core.last() == name.last());
    texts::trimming_undoes_padding(a, core, d);
    lemma_blank_has_no_slash(b);
    lemma_blank_has_no_slash(c);
    assert(!left.contains('/')) by {
        if left.contains('/') {
            let i = choose|i: int| 0 <= i < left.len() && left[i] == '/';
            if i < owner.len() {
                assert(owner[i] == '/');
            } else {
                assert(b[i - owner.len()] == '/');
            }
        }
    }
    assert(!right.contains('/')) by {
        if right.contains('/') {
            let i = choose|i: int| 0 <= i < right.len() && right[i] == '/';
            if i < c.len() {
                assert(c[i] == '/');
            } else {
                assert(name[i - c.len()] == '/');
            }
        }
    }
    text::lemma_two_parts(left, right, '/');
    let none = Seq::<char>::empty();
    assert(none + owner + b =~= left);
    texts::trimming_undoes_padding(none, owner, b);
    assert(c + name + none =~= right);
    texts::trimming_undoes_padding(c, name, none);
    lemma_sides(owner);
    lemma_sides(name);
    assert(text::parts(core, '/')[0] == left);
    assert(text::parts(core, '/')[1] == right);
}

/// The white space around what trimming leaves.
proof fn lemma_pads(s: Seq<char>) -> (r: (Seq<char>, Seq<char>))
    ensures
        blank(r.0),
        blank(r.1),
        s == r.0 + text::trimmed(s) + r.1,
{
    texts::trimming_takes_white_space_off_the_ends(s);
    let (from, to) = choose|from: int, to: int|
        0 <= from <= to <= s.len() && text::trimmed(s) == #[trigger] s.subrange(from, to) && blank(
            s.take(from),
        ) && blank(s.skip(to));
    assert(s =~= s.take(from) + text::trimmed(s) + s.skip(to));
    (s.take(from), s.skip(to))
}

/// Blank texts are blank together.
proof fn lemma_blanks_join(a: Seq<char>, b: Seq<char>)
    requires
        blank(a),
        blank(b),
    ensures
        blank(a + b),
{
    assert forall|i: int| 0 <= i < (a + b).len() implies text::is_space(#[trigger] (a + b)[i]) by {
        if i < a.len() {
            assert((a + b)[i] == a[i]);
        } else {
            assert((a + b)[i] == b[i - a.len()]);
        }
    }
}

/// Nothing else is a name: what is read as one is two sides with one slash
/// between them, and white space around each of them.
pub proof fn only_padded_names_are_read(s: Seq<char>)
    ensures
        config::parsed_name(s) matches Ok(name) ==> is_side(name.owner) && is_side(name.name)
            && exists|a: Seq<char>, b: Seq<char>, c: Seq<char>, d: Seq<char>| #[trigger]
            blank(a) && #[trigger] blank(b) && #[trigger] blank(c) && #[trigger] blank(d) && s == a
                + name.owner + b + seq!['/'] + c + name.name + d,
{
    if config::parsed_name(s) is Ok {
        let name = config::parsed_name(s)->Ok_0;
        let t = text::trimmed(s);
        let sides = text::parts(t, '/');
        texts::splitting_loses_nothing(t, '/');
        let (p, q) = lemma_pads(s);
        let (p0, q0) = lemma_pads(sides[0]);
        let (p1, q1) = lemma_pads(sides[1]);
        reveal_with_fuel(text::joined, 2);
        assert(sides.drop_last() =~= seq![sides[0]]);
        assert(text::joined(sides, seq!['/']) =~= sides[0] + seq!['/'] + sides[1]);
        lemma_blanks_join(p, p0);
        lemma_blanks_join(q1, q);
        let a = p + p0;
        let d = q1 + q;
        assert(s =~= a + name.owner + q0 + seq!['/'] + p1 + name.name + d);
        text::lemma_trimmed_free(sides[0], '/');
        text::lemma_trimmed_free(sides[1], '/');
        assert forall|i: int| 0 <= i < name.owner.len() implies (#[trigger] name.owner[i]) != '/'
            && !text::is_space(name.owner[i]) by {
            assert(name.owner.contains(name.owner[i]));
        }
        assert forall|i: int| 0 <= i < name.name.len() implies (#[trigger] name.name[i]) != '/'
            && !text::is_space(name.name[i]) by {
            assert(name.name.contains(name.name[i]));
        }
        assert(blank(a) && blank(q0) && blank(p1) && blank(d));
    }
}

/// What is said of a text that is no name quotes it.
pub proof fn refusals_quote_the_text(s: Seq<char>)
    ensures
        config::parsed_name(s) matches Err(message) ==> text::holds(
            message,
            "`"@ + text::trimmed(s) + "`"@,
        ),
{
    if config::parsed_name(s) is Err {
        let message = config::parsed_name(s)->Err_0;
        let quoted = "`"@ + text::trimmed(s) + "`"@;
        reveal_strlit("`");
        reveal_strlit("repo `");
        reveal_strlit("` must be in `owner/name` form");
        reveal_strlit("` must be in `owner/name` form (both owner and name are required)");
        reveal_strlit("` must not contain whitespace");
        let at: int = "repo `"@.len() - 1;
        assert(message.subrange(at, at + quoted.len()) =~= quoted);
        assert(text::stands_at(message, quoted, at));
    }
}

/// An organization's exclude list is valid exactly where each entry is a name
/// whose owner is the organization, but for the case of ASCII letters; it then
/// holds these names, in order.
pub proof fn exclude_lists_are_read_one_by_one(org: Seq<char>, entries: Seq<Seq<char>>, n: nat)
    ensures
        config::excluded_names(org, entries, n) is Ok <==> forall|i: int|
            0 <= i < entries.len() ==> config::parsed_name(#[trigger] entries[i]) is Ok
                && same_but_for_case(config::parsed_name(entries[i])->Ok_0.owner, org),
        config::excluded_names(org, entries, n) matches Ok(names) ==> names.len() == entries.len()
            && forall|i: int|
            0 <= i < entries.len() ==> config::parsed_name(#[trigger] entries[i]) == Ok::<
                NameView,
                Seq<char>,
            >(names[i]),
    decreases entries.len(),
{
    if entries.len() > 0 {
        let init = entries.drop_last();
        let last = entries.len() - 1;
        exclude_lists_are_read_one_by_one(org, init, n);
        assert forall|i: int| 0 <= i < last implies #[trigger] entries[i] == init[i] by {}
        if config::parsed_name(entries[last]) is Ok {
            texts::small_letters_tell_all_but_case(
                config::parsed_name(entries[last])->Ok_0.owner,
                org,
            );
        }
        if forall|i: int|
            0 <= i < entries.len() ==> config::parsed_name(#[trigger] entries[i]) is Ok
                && same_but_for_case(config::parsed_name(entries[i])->Ok_0.owner, org) {
            assert forall|i: int| 0 <= i < init.len() implies config::parsed_name(
                #[trigger] init[i],
            ) is Ok && same_but_for_case(config::parsed_name(init[i])->Ok_0.owner, org) by {
                assert(config::parsed_name(entries[i]) is Ok);
            }
            assert(config::parsed_name(entries[last]) is Ok);
        }
        if config::excluded_names(org, entries, n) is Ok {
            assert forall|i: int| 0 <= i < entries.len() implies config::parsed_name(
                #[trigger] entries[i],
            ) is Ok && same_but_for_case(config::parsed_name(entries[i])->Ok_0.owner, org) by {
                if i < last {
                    assert(config::parsed_name(init[i]) is Ok);
                }
            }
        }
    }
}

/// An organization entry is valid exactly where its login, without the white
/// space around it, is not empty and holds no slash, and its exclude list is
/// valid for the login. It takes archived repositories and forks in only where
/// it says so.
pub proof fn organization_entries_are_checked(raw: RawProjectView, org: Seq<char>, n: nat)
    ensures
        config::valid_org(raw, org, n) is Ok <==> text::trimmed(org).len() > 0 && !text::trimmed(
            org,
        ).contains('/') && (raw.exclude matches Some(entries) ==> config::excluded_names(
            text::trimmed(org),
            entries,
            n,
        ) is Ok),
        config::valid_org(raw, org, n) matches Ok(view) ==> {
            &&& view.org == text::trimmed(org)
            &&& view.include_archived <==> raw.include_archived == Some(true)
            &&& view.include_forks <==> raw.include_forks == Some(true)
            &&& raw.exclude is None ==> view.exclude.len() == 0
            &&& raw.exclude matches Some(entries) ==> config::excluded_names(
                text::trimmed(org),
                entries,
                n,
            ) == Ok::<Seq<NameView>, Seq<char>>(view.exclude)
        },
{
}

/// Each entry sets exactly one of `org` and `repo`, and the keys of an
/// organization stand on no repository.
pub proof fn entries_set_exactly_one_source(raw: RawProjectView, n: nat)
    ensures
        match config::valid_project(raw, n) {
            Ok(ProjectView::Org(view)) => raw.repo is None && raw.org is Some && config::valid_org(
                raw,
                raw.org->0,
                n,
            ) == Ok::<OrgView, Seq<char>>(view),
            Ok(ProjectView::Repo(name)) => raw.org is None && raw.repo is Some
                && config::parsed_name(raw.repo->0) == Ok::<NameView, Seq<char>>(name)
                && raw.exclude is None && raw.include_archived is None && raw.include_forks is None,
            Err(_) => {
                ||| raw.org is Some && raw.repo is Some
                ||| raw.org is None && raw.repo is None
                ||| raw.org is Some && config::valid_org(raw, raw.org->0, n) is Err
                ||| raw.repo is Some && (raw.exclude is Some || raw.include_archived is Some
                    || raw.include_forks is Some)
                ||| raw.repo is Some && config::parsed_name(raw.repo->0) is Err
            },
        },
{
}

/// What is said of a bad entry names it by its number.
pub proof fn bad_entries_are_named_by_number(raw: RawProjectView, n: nat)
    ensures
        config::valid_project(raw, n) matches Err(message) ==> ("project #"@ + text::decimal(
            n,
        )).is_prefix_of(message),
{
    let label = "project #"@ + text::decimal(n);
    if config::valid_project(raw, n) is Err {
        let message = config::valid_project(raw, n)->Err_0;
        if raw.org is Some && raw.repo is None {
            let login = text::trimmed(raw.org->0);
            lemma_exclude_label(login, config::listed(raw.exclude), n);
        }
        assert(message.take(label.len() as int) =~= label);
    }
}

proof fn lemma_exclude_label(org: Seq<char>, entries: Seq<Seq<char>>, n: nat)
    ensures
        config::excluded_names(org, entries, n) matches Err(message) ==> message.len()
            >= config::project_label(n).len() && message.take(
            config::project_label(n).len() as int,
        ) == config::project_label(n),
    decreases entries.len(),
{
    if entries.len() > 0 && config::excluded_names(org, entries, n) is Err {
        lemma_exclude_label(org, entries.drop_last(), n);
        let message = config::excluded_names(org, entries, n)->Err_0;
        let label = config::project_label(n);
        assert(config::excluded_names(org, entries.drop_last(), n) is Ok ==> message.take(
            label.len() as int,
        ) =~= label);
    }
}

/// A file is valid exactly where it has entries and each of them is valid; its
/// sources are then those of its entries, in order.
pub proof fn files_are_checked_entry_by_entry(raw: Seq<RawProjectView>)
    ensures
        config::valid_projects(raw) is Ok <==> forall|i: int|
            0 <= i < raw.len() ==> config::valid_project(#[trigger] raw[i], (i + 1) as nat) is Ok,
        config::valid_projects(raw) matches Ok(projects) ==> projects.len() == raw.len()
            && forall|i: int|
            0 <= i < raw.len() ==> config::valid_project(#[trigger] raw[i], (i + 1) as nat) == Ok::<
                ProjectView,
                Seq<char>,
            >(projects[i]),
    decreases raw.len(),
{
    if raw.len() > 0 {
        let init = raw.drop_last();
        let last = raw.len() - 1;
        files_are_checked_entry_by_entry(init);
        assert forall|i: int| 0 <= i < last implies #[trigger] raw[i] == init[i] by {}
        assert(raw[last] == raw.last());
        if forall|i: int|
            0 <= i < raw.len() ==> config::valid_project(#[trigger] raw[i], (i + 1) as nat) is Ok {
            assert forall|i: int| 0 <= i < init.len() implies config::valid_project(
                #[trigger] init[i],
                (i + 1) as nat,
            ) is Ok by {
                assert(config::valid_project(raw[i], (i + 1) as nat) is Ok);
            }
            assert(config::valid_project(raw[last], (last + 1) as nat) is Ok);
        }
        if config::valid_projects(raw) is Ok {
            assert forall|i: int| 0 <= i < raw.len() implies config::valid_project(
                #[trigger] raw[i],
                (i + 1) as nat,
            ) is Ok by {
                if i < last {
                    assert(config::valid_project(init[i], (i + 1) as nat) is Ok);
                }
            }
        }
    }
}

/// Of several bad entries the first one is reported.
pub proof fn the_first_bad_entry_is_reported(raw: Seq<RawProjectView>, i: int)
    requires
        0 <= i < raw.len(),
        config::valid_project(raw[i], (i + 1) as nat) is Err,
        forall|j: int|
            0 <= j < i ==> config::valid_project(#[trigger] raw[j], (j + 1) as nat) is Ok,
    ensures
        config::valid_projects(raw) == Err::<Seq<ProjectView>, Seq<char>>(
            config::valid_project(raw[i], (i + 1) as nat)->Err_0,
        ),
        config::valid_config(Some(raw)) == config::valid_projects(raw),
    decreases raw.len(),
{
    let init = raw.drop_last();
    if i < raw.len() - 1 {
        assert(init[i] == raw[i]);
        assert forall|j: int| 0 <= j < i implies config::valid_project(
            #[trigger] init[j],
            (j + 1) as nat,
        ) is Ok by {
            assert(config::valid_project(raw[j], (j + 1) as nat) is Ok);
        }
        the_first_bad_entry_is_reported(init, i);
    } else {
        files_are_checked_entry_by_entry(init);
        assert forall|j: int| 0 <= j < init.len() implies config::valid_project(
            #[trigger] init[j],
            (j + 1) as nat,
        ) is Ok by {
            assert(config::valid_project(raw[j], (j + 1) as nat) is Ok);
        }
    }
}

/// A file without entries is not valid.
pub proof fn empty_files_are_refused(raw: Option<Seq<RawProjectView>>)
    ensures
        raw is None ==> config::valid_config(raw) is Err,
        raw matches Some(entries) ==> entries.len() == 0 ==> config::valid_config(raw) is Err,
        raw matches Some(entries) ==> entries.len() > 0 ==> config::valid_config(raw)
            == config::valid_projects(entries),
{
}

/// The repositories and the organizations of two lists of sources are those of
/// the one and then those of the other.
pub proof fn sources_keep_their_order(a: Seq<ProjectView>, b: Seq<ProjectView>)
    ensures
        config::named_repos(a + b) == config::named_repos(a) + config::named_repos(b),
        config::named_orgs(a + b) == config::named_orgs(a) + config::named_orgs(b),
    decreases b.len(),
{
    if b.len() == 0 {
        assert(a + b =~= a);
        assert(config::named_repos(a) + config::named_repos(b) =~= config::named_repos(a));
        assert(config::named_orgs(a) + config::named_orgs(b) =~= config::named_orgs(a));
    } else {
        sources_keep_their_order(a, b.drop_last());
        assert((a + b).drop_last() =~= a + b.drop_last());
        assert((a + b).last() == b.last());
        assert(config::named_repos(a + b) =~= config::named_repos(a) + config::named_repos(b));
        assert(config::named_orgs(a + b) =~= config::named_orgs(a) + config::named_orgs(b));
    }
}

/// Every source is a repository or an organization, as it is written.
pub proof fn a_source_is_one_or_the_other(source: ProjectView)
    ensures
        match source {
            ProjectView::Repo(name) => config::named_repos(seq![source]) == seq![name]
                && config::named_orgs(seq![source]).len() == 0,
            ProjectView::Org(org) => config::named_orgs(seq![source]) == seq![org]
                && config::named_repos(seq![source]).len() == 0,
        },
{
    let one = seq![source];
    assert(one.drop_last() =~= Seq::empty());
    assert(one.last() == source);
    assert(config::named_repos(one.drop_last()) =~= Seq::<NameView>::empty());
    assert(config::named_orgs(one.drop_last()) =~= Seq::<OrgView>::empty());
    match source {
        ProjectView::Repo(name) => {
            assert(config::named_repos(one) =~= seq![name]);
        },
        ProjectView::Org(org) => {
            assert(config::named_orgs(one) =~= seq![org]);
        },
    }
}

/// Of the well-known places, the one below `XDG_CONFIG_HOME` is taken where a
/// file is there, else the one below the home directory where a file is there.
pub proof fn the_first_file_is_taken(env: DiscoveryEnv)
    ensures
        ({
            let found = config::first_file(config::places(env));
            let xdg = env.xdg_config_home is Some && env.xdg_config_home->0.is_file;
            let home = env.home is Some && env.home->0.is_file;
            &&& xdg ==> found == Some(env.xdg_config_home->0.path)
            &&& !xdg && home ==> found == Some(env.home->0.path)
            &&& !xdg && !home ==> found is None
        }),
{
    reveal_with_fuel(config::first_file, 3);
    let all = config::places(env);
    if env.xdg_config_home is Some {
        assert(all[0] == env.xdg_config_home->0);
    }
    if env.home is Some {
        assert(all.last() == env.home->0);
    }
}

/// Where nothing is found, every place that was searched is shown, in order.
pub proof fn searched_places_are_shown(env: DiscoveryEnv)
    ensures
        config::shown_places(config::places(env)) == (match (env.xdg_config_home, env.home) {
            (Some(a), Some(b)) => a.shown@ + ", "@ + b.shown@,
            (Some(a), None) => a.shown@,
            (None, Some(b)) => b.shown@,
            (None, None) => Seq::empty(),
        }),
{
    reveal_with_fuel(text::joined, 2);
    let shown = config::places(env).map_values(|p: config::Candidate| p.shown@);
    match (env.xdg_config_home, env.home) {
        (Some(a), Some(b)) => {
            assert(shown =~= seq![a.shown@, b.shown@]);
            assert(shown.drop_last() =~= seq![a.shown@]);
        },
        (Some(a), None) => {
            assert(shown =~= seq![a.shown@]);
        },
        (None, Some(b)) => {
            assert(shown =~= seq![b.shown@]);
        },
        (None, None) => {},
    }
}

/// What is said of a repository entry with keys of an organization names the
/// first of them, in the order `exclude`, `include_archived`, `include_forks`.
pub proof fn misplaced_keys_are_named(raw: RawProjectView, n: nat)
    requires
        raw.org is None,
        raw.repo is Some,
        raw.exclude is Some || raw.include_archived is Some || raw.include_forks is Some,
    ensures
        config::valid_project(raw, n) == Err::<ProjectView, Seq<char>>(
            "project #"@ + text::decimal(n) + ": `"@ + (if raw.exclude is Some {
                "exclude"@
            } else if raw.include_archived is Some {
                "include_archived"@
            } else {
                "include_forks"@
            }) + "` only applies to `org:` entries, not `repo:`"@,
        ),
{
}

/// What is said of a config error ends with what the system or the check said,
/// and shows the places that were searched.
pub proof fn config_errors_pass_on_what_was_said(path: Seq<char>, said: Seq<char>)
    ensures
        (ConfigErrorView::Read { path, source: said }).message() == "failed to read config at "@
            + path + ": "@ + said,
        (ConfigErrorView::Invalid { path, message: said }).message() == "invalid config at "@ + path
            + ": "@ + said,
        text::holds(ConfigErrorView::NotFound(said).message(), said),
{
    let a = "no actstat config found (looked in: "@;
    let whole = ConfigErrorView::NotFound(said).message();
    assert(whole.subrange(a.len() as int, (a.len() + said.len()) as int) =~= said);
    assert(text::stands_at(whole, said, a.len() as int));
}

} // verus!
