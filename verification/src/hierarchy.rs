//! Checks on team naming and on the parent hierarchy: kind prefixes, the
//! character set of names, parent existence, cycle detection, the
//! two-level depth bound, project-group parents, and chat stream names.
use crate::collect::lemma_step_emit;
use crate::collect::lemma_step_zero;
use crate::collect::outcome_msgs;
use crate::collect::wrapper;
use crate::data::find_team;
use crate::data::team_name_fn;
use crate::data::Data;
use crate::data::Team;
use crate::data::TeamKind;
use crate::messages::cat5;
use crate::messages::cat6;
use crate::messages::cat8;
use crate::messages::cat3;
use crate::messages::kind_label_text;
use crate::messages::msg_bad_team_name;
use crate::messages::msg_parent_missing;
use crate::messages::msg_prefix_misleading;
use crate::messages::msg_prefix_missing;
use crate::messages::msg_project_group_no_parent;
use crate::messages::msg_stream_is_link;
use crate::messages::msg_subteam_cycle;
use crate::messages::msg_subteam_too_deep;
use crate::seqtools::cat;
use crate::seqtools::join_with;
use crate::seqtools::lemma_find_first_some;
use crate::seqtools::lemma_take_all;
use crate::seqtools::views;
use crate::text::alphanumeric;
use crate::text::char_is_alphanumeric;
use crate::text::contains_view;
use crate::text::has_prefix;
use crate::text::join_strings;
use crate::text::starts_with_seq;
use crate::text::string_eq_text;
use vstd::prelude::*;
use vstd::string::StrSliceExecFns;

verus! {

/// The one naming violation a team has against the prefix rule of one
/// kind, if any: a team of the kind must carry the prefix, a team of any
/// other kind must not, and the named exception is left alone.
pub open spec fn prefix_violation(
    t: Team,
    kind: TeamKind,
    prefix: Seq<char>,
    exception: Seq<char>,
) -> Option<Seq<char>> {
    if t.name@ == exception {
        Option::None
    } else if t.kind == kind && !starts_with_seq(t.name@, prefix) {
        Option::Some(msg_prefix_missing(kind, t.name@, prefix))
    } else if t.kind != kind && starts_with_seq(t.name@, prefix) {
        Option::Some(msg_prefix_misleading(t.kind, t.name@, kind, prefix))
    } else {
        Option::None
    }
}

/// What the prefix check says of one team: the working-group rule first,
/// then the project-group rule.
pub open spec fn name_prefix_msgs(t: Team) -> Seq<Seq<char>> {
    match prefix_violation(t, TeamKind::WorkingGroup, "wg-"@, "wg-leads"@) {
        Option::Some(m) => seq![m],
        Option::None => match prefix_violation(
            t,
            TeamKind::ProjectGroup,
            "project-"@,
            "project-group-leads"@,
        ) {
            Option::Some(m) => seq![m],
            Option::None => Seq::empty(),
        },
    }
}

pub open spec fn name_prefix_msgs_fn() -> spec_fn(Team) -> Seq<Seq<char>> {
    |t: Team| name_prefix_msgs(t)
}

/// Everything the prefix check reports, team by team.
pub open spec fn check_name_prefixes(data: Data) -> Seq<Seq<char>> {
    cat(data.teams@.map_values(name_prefix_msgs_fn()))
}

fn ensure_prefix(team: &Team, kind: TeamKind, prefix: &str, exception: &str) -> (r: Result<
    (),
    String,
>)
    ensures
        outcome_msgs(
            match r {
                Result::Ok(u) => Result::Ok(u),
                Result::Err(m) => Result::Err(m@),
            },
        ) == (match prefix_violation(*team, kind, prefix@, exception@) {
            Option::Some(m) => seq![m],
            Option::None => Seq::<Seq<char>>::empty(),
        }),
{
    if string_eq_text(&team.name, exception) {
        return Result::Ok(());
    }
    let pref = has_prefix(team.name.as_str(), prefix);
    let same = team.kind == kind;
    if same && !pref {
        let m = cat6(
            kind_label_text(&kind),
            " `",
            team.name.as_str(),
            "`'s name doesn't start with `",
            prefix,
            "`",
        );
        return Result::Err(m);
    }
    if !same && pref {
        let m = cat8(
            kind_label_text(&team.kind),
            " `",
            team.name.as_str(),
            "` seems like a ",
            kind_label_text(&kind),
            " (since it has the `",
            prefix,
            "` prefix)",
        );
        return Result::Err(m);
    }
    Result::Ok(())
}

/// Working groups carry `wg-`, project groups carry `project-`, and no
/// team of another kind carries either prefix.
pub fn validate_name_prefixes(data: &Data, errors: &mut Vec<String>)
    ensures
        views(final(errors)@) == views(old(errors)@) + check_name_prefixes(*data),
{
    let ghost base = views(errors@);
    let ghost f = name_prefix_msgs_fn();
    let n = data.teams.len();
    let mut i: usize = 0;
    proof {
        lemma_step_zero(base, data.teams@, f);
    }
    while i != n
        invariant
            i <= n,
            n == data.teams@.len(),
            base == views(old(errors)@),
            f == name_prefix_msgs_fn(),
            views(errors@) == base + cat(data.teams@.take(i as int).map_values(f)),
        decreases n - i,
    {
        let team = &data.teams[i];
        proof {
            lemma_step_emit(base, data.teams@, f, i as int, views(errors@));
        }
        let outcome = match ensure_prefix(team, TeamKind::WorkingGroup, "wg-", "wg-leads") {
            Result::Ok(u) => ensure_prefix(
                team,
                TeamKind::ProjectGroup,
                "project-",
                "project-group-leads",
            ),
            Result::Err(m) => Result::Err(m),
        };
        wrapper(outcome, errors);
        i = i + 1;
    }
    proof {
        lemma_take_all(data.teams@);
    }
}

/// The walk up the parent chain from one team: stops with a cycle message
/// when a name comes back, a dangling-parent message when a parent name
/// resolves to no team, and a depth message when a team that is not of
/// kind `Team` hangs under a team that itself has a parent. The fuel only
/// bounds the recursion; a walk that starts at a team of the model never
/// runs out, since each step visits a fresh team name.
pub open spec fn subteam_walk(data: Data, t: Team, visited: Seq<Seq<char>>, fuel: nat) -> Seq<
    Seq<char>,
>
    decreases fuel,
{
    if t.subteam_of is None {
        Seq::empty()
    } else {
        let parent = t.subteam_of->0@;
        let visited2 = visited.push(t.name@);
        if visited2.contains(parent) {
            seq![msg_subteam_cycle(parent, join_with(visited2, " => "@))]
        } else {
            match find_team(data, parent) {
                Option::None => seq![msg_parent_missing(t.name@, parent)],
                Option::Some(p) => {
                    if t.kind != TeamKind::Team && p.subteam_of is Some {
                        seq![msg_subteam_too_deep(t.kind, t.name@, p.name@)]
                    } else if fuel == 0 {
                        Seq::empty()
                    } else {
                        subteam_walk(data, p, visited2, (fuel - 1) as nat)
                    }
                },
            }
        }
    }
}

/// What the hierarchy check says of one team.
pub open spec fn subteam_msgs(data: Data, t: Team) -> Seq<Seq<char>> {
    subteam_walk(data, t, Seq::empty(), data.teams@.len() as nat)
}

pub open spec fn subteam_msgs_fn(data: Data) -> spec_fn(Team) -> Seq<Seq<char>> {
    |t: Team| subteam_msgs(data, t)
}

/// Everything the hierarchy check reports, team by team.
pub open spec fn check_subteam_of(data: Data) -> Seq<Seq<char>> {
    cat(data.teams@.map_values(subteam_msgs_fn(data)))
}

fn subteam_walk_exec<'a>(data: &'a Data, start: &'a Team) -> (r: Result<(), String>)
    requires
        data.teams@.contains(*start),
    ensures
        outcome_msgs(
            match r {
                Result::Ok(u) => Result::Ok(u),
                Result::Err(m) => Result::Err(m@),
            },
        ) == subteam_msgs(*data, *start),
{
    let ghost names = data.teams@.map_values(team_name_fn());
    let ghost total = data.teams@.len() as nat;
    let mut visited: Vec<String> = Vec::new();
    let mut cur: &'a Team = start;
    proof {
        assert(views(visited@) =~= Seq::<Seq<char>>::empty());
        let k = choose|k: int| 0 <= k < data.teams@.len() && data.teams@[k] == *start;
        assert(names[k] == start.name@);
        assert(names.contains(start.name@));
    }
    loop
        invariant
            names == data.teams@.map_values(team_name_fn()),
            total == data.teams@.len() as nat,
            names.contains(cur.name@),
            views(visited@).no_duplicates(),
            !views(visited@).contains(cur.name@),
            forall|k: int| 0 <= k < views(visited@).len() ==> names.contains(
                #[trigger] views(visited@)[k],
            ),
            visited@.len() <= total,
            subteam_msgs(*data, *start) == subteam_walk(
                *data,
                *cur,
                views(visited@),
                (total - visited@.len()) as nat,
            ),
        decreases total - visited@.len(),
    {
        let ghost pre_visited = views(visited@);
        let ghost fuel = (total - visited@.len()) as nat;
        match &cur.subteam_of {
            Option::None => {
                return Result::Ok(());
            },
            Option::Some(parent) => {
                let ghost parent_v = parent@;
                visited.push(cur.name.clone());
                proof {
                    crate::seqtools::lemma_views_push(
                        visited@.drop_last(),
                        visited@.last(),
                    );
                    assert(visited@.drop_last().push(visited@.last()) =~= visited@);
                    assert(views(visited@) == pre_visited.push(cur.name@));
                }
                let cyc = contains_view(&visited, parent);
                if cyc {
                    let path = join_strings(&visited, " => ");
                    let m = cat6(
                        "team `",
                        parent.as_str(),
                        "` is a subteam of itself: ",
                        path.as_str(),
                        " => ",
                        parent.as_str(),
                    );
                    proof {
                        assert(m@ == msg_subteam_cycle(parent_v, join_with(views(visited@), " => "@)));
                    }
                    return Result::Err(m);
                }
                match data.team(parent.as_str()) {
                    Option::None => {
                        let m = cat5(
                            "the parent of team `",
                            cur.name.as_str(),
                            "` doesn't exist: `",
                            parent.as_str(),
                            "`",
                        );
                        return Result::Err(m);
                    },
                    Option::Some(p) => {
                        let top = matches!(cur.kind, TeamKind::Team);
                        if !top && p.subteam_of.is_some() {
                            let m = cat6(
                                kind_label_text(&cur.kind),
                                " `",
                                cur.name.as_str(),
                                "` can't be a subteam of a subteam (`",
                                p.name.as_str(),
                                "`)",
                            );
                            return Result::Err(m);
                        }
                        proof {
                            // The walked names are distinct and all team
                            // names, so the walk cannot outlast the team
                            // list.
                            lemma_find_first_some(
                                data.teams@,
                                crate::data::team_named(parent_v),
                            );
                            let pk = choose|pk: int|
                                0 <= pk < data.teams@.len() && data.teams@[pk] == *p;
                            assert(names[pk] == p.name@);
                            assert(names.contains(p.name@));
                            views(visited@).unique_seq_to_set();
                            assert(views(visited@).to_set() <= names.to_set()) by {
                                assert forall|x: Seq<char>|
                                    views(visited@).to_set().contains(x) implies names.to_set().contains(x) by {
                                    assert(views(visited@).contains(x));
                                    let xk = choose|xk: int|
                                        0 <= xk < views(visited@).len() && views(visited@)[xk] == x;
                                    assert(names.contains(views(visited@)[xk]));
                                }
                            }
                            vstd::set_lib::lemma_len_subset(
                                views(visited@).to_set(),
                                names.to_set(),
                            );
                            names.lemma_cardinality_of_set();
                            assert(visited@.len() <= names.to_set().len());
                            assert(visited@.len() <= total);
                            assert(visited@.len() < total || fuel >= 1) by {
                                if visited@.len() == total {
                                    assert(views(visited@).len() == total);
                                }
                            }
                            assert(fuel >= 1);
                        }
                        cur = p;
                    },
                }
            },
        }
    }
}

/// Every parent link resolves, the hierarchy is acyclic, and only
/// top-level teams hang under another team that itself has a parent.
pub fn validate_subteam_of(data: &Data, errors: &mut Vec<String>)
    ensures
        views(final(errors)@) == views(old(errors)@) + check_subteam_of(*data),
{
    let ghost base = views(errors@);
    let ghost f = subteam_msgs_fn(*data);
    let n = data.teams.len();
    let mut i: usize = 0;
    proof {
        lemma_step_zero(base, data.teams@, f);
    }
    while i != n
        invariant
            i <= n,
            n == data.teams@.len(),
            base == views(old(errors)@),
            f == subteam_msgs_fn(*data),
            views(errors@) == base + cat(data.teams@.take(i as int).map_values(f)),
        decreases n - i,
    {
        let team = &data.teams[i];
        proof {
            lemma_step_emit(base, data.teams@, f, i as int, views(errors@));
            assert(data.teams@.contains(*team));
        }
        let outcome = subteam_walk_exec(data, team);
        wrapper(outcome, errors);
        i = i + 1;
    }
    proof {
        lemma_take_all(data.teams@);
    }
}

/// Whether every character of a team name is alphanumeric or a dash.
pub open spec fn team_name_ok(name: Seq<char>) -> bool {
    forall|i: int| 0 <= i < name.len() ==> alphanumeric(#[trigger] name[i]) || name[i] == '-'
}

/// What the name-character check says of one team.
pub open spec fn team_name_msgs(t: Team) -> Seq<Seq<char>> {
    if team_name_ok(t.name@) {
        Seq::empty()
    } else {
        seq![msg_bad_team_name(t.name@)]
    }
}

pub open spec fn team_name_msgs_fn() -> spec_fn(Team) -> Seq<Seq<char>> {
    |t: Team| team_name_msgs(t)
}

/// Everything the name-character check reports, team by team.
pub open spec fn check_team_names(data: Data) -> Seq<Seq<char>> {
    cat(data.teams@.map_values(team_name_msgs_fn()))
}

fn name_chars_ok(name: &String) -> (r: bool)
    ensures
        r == team_name_ok(name@),
{
    let s = name.as_str();
    let n = s.unicode_len();
    let mut i: usize = 0;
    while i != n
        invariant
            i <= n,
            n == name@.len(),
            s@ == name@,
            forall|j: int| 0 <= j < i ==> alphanumeric(#[trigger] name@[j]) || name@[j] == '-',
        decreases n - i,
    {
        let c = s.get_char(i);
        let ok = char_is_alphanumeric(c);
        if !ok && (c as u32) != ('-' as u32) {
            proof {
                assert(!(alphanumeric(name@[i as int]) || name@[i as int] == '-'));
            }
            return false;
        }
        proof {
            if !ok {
                crate::text::lemma_char_eq(c, '-');
            }
        }
        i = i + 1;
    }
    true
}

/// Team names hold only alphanumeric characters and dashes.
pub fn validate_team_names(data: &Data, errors: &mut Vec<String>)
    ensures
        views(final(errors)@) == views(old(errors)@) + check_team_names(*data),
{
    let ghost base = views(errors@);
    let ghost f = team_name_msgs_fn();
    let n = data.teams.len();
    let mut i: usize = 0;
    proof {
        lemma_step_zero(base, data.teams@, f);
    }
    while i != n
        invariant
            i <= n,
            n == data.teams@.len(),
            base == views(old(errors)@),
            f == team_name_msgs_fn(),
            views(errors@) == base + cat(data.teams@.take(i as int).map_values(f)),
        decreases n - i,
    {
        let team = &data.teams[i];
        proof {
            lemma_step_emit(base, data.teams@, f, i as int, views(errors@));
        }
        let outcome: Result<(), String> = if name_chars_ok(&team.name) {
            Result::Ok(())
        } else {
            Result::Err(
                cat3("team name `", team.name.as_str(), "` can only be alphanumeric with dashes"),
            )
        };
        wrapper(outcome, errors);
        i = i + 1;
    }
    proof {
        lemma_take_all(data.teams@);
    }
}

/// What the project-group parent check says of one team.
pub open spec fn project_group_parent_msgs(t: Team) -> Seq<Seq<char>> {
    if t.kind == TeamKind::ProjectGroup && t.subteam_of is None {
        seq![msg_project_group_no_parent(t.name@)]
    } else {
        Seq::empty()
    }
}

pub open spec fn project_group_parent_msgs_fn() -> spec_fn(Team) -> Seq<Seq<char>> {
    |t: Team| project_group_parent_msgs(t)
}

/// Everything the project-group parent check reports, team by team.
pub open spec fn check_project_groups_have_parent_teams(data: Data) -> Seq<Seq<char>> {
    cat(data.teams@.map_values(project_group_parent_msgs_fn()))
}

/// Every project group has a parent team.
pub fn validate_project_groups_have_parent_teams(data: &Data, errors: &mut Vec<String>)
    ensures
        views(final(errors)@) == views(old(errors)@) + check_project_groups_have_parent_teams(
            *data,
        ),
{
    let ghost base = views(errors@);
    let ghost f = project_group_parent_msgs_fn();
    let n = data.teams.len();
    let mut i: usize = 0;
    proof {
        lemma_step_zero(base, data.teams@, f);
    }
    while i != n
        invariant
            i <= n,
            n == data.teams@.len(),
            base == views(old(errors)@),
            f == project_group_parent_msgs_fn(),
            views(errors@) == base + cat(data.teams@.take(i as int).map_values(f)),
        decreases n - i,
    {
        let team = &data.teams[i];
        proof {
            lemma_step_emit(base, data.teams@, f, i as int, views(errors@));
        }
        let pg = matches!(team.kind, TeamKind::ProjectGroup);
        let outcome: Result<(), String> = if pg && team.subteam_of.is_none() {
            Result::Err(
                cat3(
                    "the project group `",
                    team.name.as_str(),
                    "` doesn't have a parent team, but it's required to have one",
                ),
            )
        } else {
            Result::Ok(())
        };
        wrapper(outcome, errors);
        i = i + 1;
    }
    proof {
        lemma_take_all(data.teams@);
    }
}

/// What the stream-name check says of one team.
pub open spec fn zulip_stream_msgs(t: Team) -> Seq<Seq<char>> {
    if t.website_data is Some && t.website_data->0.zulip_stream is Some && starts_with_seq(
        t.website_data->0.zulip_stream->0@,
        "https://"@,
    ) {
        seq![msg_stream_is_link(t.name@)]
    } else {
        Seq::empty()
    }
}

pub open spec fn zulip_stream_msgs_fn() -> spec_fn(Team) -> Seq<Seq<char>> {
    |t: Team| zulip_stream_msgs(t)
}

/// Everything the stream-name check reports, team by team.
pub open spec fn check_zulip_stream_name(data: Data) -> Seq<Seq<char>> {
    cat(data.teams@.map_values(zulip_stream_msgs_fn()))
}

/// A published chat stream is given by name, never as a link.
pub fn validate_zulip_stream_name(data: &Data, errors: &mut Vec<String>)
    ensures
        views(final(errors)@) == views(old(errors)@) + check_zulip_stream_name(*data),
{
    let ghost base = views(errors@);
    let ghost f = zulip_stream_msgs_fn();
    let n = data.teams.len();
    let mut i: usize = 0;
    proof {
        lemma_step_zero(base, data.teams@, f);
    }
    while i != n
        invariant
            i <= n,
            n == data.teams@.len(),
            base == views(old(errors)@),
            f == zulip_stream_msgs_fn(),
            views(errors@) == base + cat(data.teams@.take(i as int).map_values(f)),
        decreases n - i,
    {
        let team = &data.teams[i];
        proof {
            lemma_step_emit(base, data.teams@, f, i as int, views(errors@));
        }
        let mut linked = false;
        match &team.website_data {
            Option::Some(w) => match &w.zulip_stream {
                Option::Some(stream) => {
                    linked = has_prefix(stream.as_str(), "https://");
                },
                Option::None => {},
            },
            Option::None => {},
        }
        let outcome: Result<(), String> = if linked {
            Result::Err(
                cat3(
                    "the zulip stream name of the team `",
                    team.name.as_str(),
                    "` is a link: only the name is required",
                ),
            )
        } else {
            Result::Ok(())
        };
        wrapper(outcome, errors);
        i = i + 1;
    }
    proof {
        lemma_take_all(data.teams@);
    }
}

} // verus!
