//! Checks on code-host mappings and repositories: mapped organizations
//! are allowed, no code-host team is mapped twice, repositories sit in
//! allowed organizations, and their access grants name known code-host
//! teams and existing people.
use crate::collect::lemma_step_emit;
use crate::collect::lemma_step_zero;
use crate::collect::wrapper;
use crate::data::all_github_teams;
use crate::data::Data;
use crate::data::GitHubTeam;
use crate::data::Repo;
use crate::data::RepoTeam;
use crate::data::Team;
use crate::lists::missing_person_pred;
use crate::messages::cat5;
use crate::messages::cat7;
use crate::messages::cat9;
use crate::messages::msg_github_team_reused;
use crate::messages::msg_org_not_allowed;
use crate::messages::msg_repo_bad_org;
use crate::messages::msg_repo_person_unknown;
use crate::messages::msg_repo_team_unknown;
use crate::seqtools::cat;
use crate::seqtools::find_first;
use crate::seqtools::lemma_find_first_at;
use crate::seqtools::lemma_find_first_none;
use crate::seqtools::lemma_take_all;
use crate::seqtools::lemma_views_push;
use crate::seqtools::views;
use crate::text::contains_view;
use vstd::prelude::*;

verus! {

/// One code-host team already seen, with the team that mapped it.
struct GhSeen {
    org: String,
    name: String,
    team: String,
}

/// The mathematical reading of a seen entry.
spec fn gh_seen_view(e: GhSeen) -> (Seq<char>, Seq<char>, Seq<char>) {
    (e.org@, e.name@, e.team@)
}

spec fn gh_seen_view_fn() -> spec_fn(GhSeen) -> (Seq<char>, Seq<char>, Seq<char>) {
    |e: GhSeen| gh_seen_view(e)
}

/// The team that most recently mapped the given code-host team, if any.
pub open spec fn found_lookup(
    found: Seq<(Seq<char>, Seq<char>, Seq<char>)>,
    org: Seq<char>,
    name: Seq<char>,
) -> Option<Seq<char>>
    decreases found.len(),
{
    if found.len() == 0 {
        Option::None
    } else if found.last().0 == org && found.last().1 == name {
        Option::Some(found.last().2)
    } else {
        found_lookup(found.drop_last(), org, name)
    }
}

/// The uniqueness walk over one team's code-host mappings: a mapping into
/// a disallowed organization is reported and not recorded; a mapping seen
/// before is reported against the team that recorded it last, and
/// recorded anew.
pub open spec fn gh_walk(
    allowed: Seq<Seq<char>>,
    team: Seq<char>,
    gs: Seq<GitHubTeam>,
    found: Seq<(Seq<char>, Seq<char>, Seq<char>)>,
) -> (Seq<Seq<char>>, Seq<(Seq<char>, Seq<char>, Seq<char>)>)
    decreases gs.len(),
{
    if gs.len() == 0 {
        (Seq::empty(), found)
    } else {
        let g = gs[0];
        if !allowed.contains(g.org@) {
            let rest = gh_walk(allowed, team, gs.drop_first(), found);
            (seq![msg_org_not_allowed(g.org@, team)] + rest.0, rest.1)
        } else {
            let found2 = found.push((g.org@, g.name@, team));
            let head = match found_lookup(found, g.org@, g.name@) {
                Option::Some(other) => seq![msg_github_team_reused(g.org@, g.name@, team, other)],
                Option::None => Seq::<Seq<char>>::empty(),
            };
            let rest = gh_walk(allowed, team, gs.drop_first(), found2);
            (head + rest.0, rest.1)
        }
    }
}

/// The walk over the whole active team list.
pub open spec fn gh_teams_walk(
    data: Data,
    teams: Seq<Team>,
    found: Seq<(Seq<char>, Seq<char>, Seq<char>)>,
) -> Seq<Seq<char>>
    decreases teams.len(),
{
    if teams.len() == 0 {
        Seq::empty()
    } else {
        let t = teams[0];
        let gs = if t.github is Some {
            t.github->0.teams@
        } else {
            Seq::empty()
        };
        let r = gh_walk(views(data.config.allowed_github_orgs@), t.name@, gs, found);
        r.0 + gh_teams_walk(data, teams.drop_first(), r.1)
    }
}

/// Everything the mapping check reports, in team and mapping order.
pub open spec fn check_github_teams(data: Data) -> Seq<Seq<char>> {
    gh_teams_walk(data, data.teams@, Seq::empty())
}

fn found_lookup_exec(found: &Vec<GhSeen>, org: &String, name: &String) -> (r: Option<String>)
    ensures
        (match r {
            Option::Some(other) => found_lookup(found@.map_values(gh_seen_view_fn()), org@, name@)
                == Option::Some(other@),
            Option::None => found_lookup(found@.map_values(gh_seen_view_fn()), org@, name@)
                is None,
        }),
{
    let ghost fv = found@.map_values(gh_seen_view_fn());
    let mut k: usize = found.len();
    proof {
        assert(fv.take(found@.len() as int) =~= fv);
    }
    loop
        invariant
            k <= found@.len(),
            fv == found@.map_values(gh_seen_view_fn()),
            found_lookup(fv, org@, name@) == found_lookup(fv.take(k as int), org@, name@),
        decreases k,
    {
        if k == 0 {
            proof {
                assert(fv.take(0) =~= Seq::<(Seq<char>, Seq<char>, Seq<char>)>::empty());
            }
            return Option::None;
        }
        k = k - 1;
        let hit = found[k].org == *org && found[k].name == *name;
        proof {
            assert(fv.take(k + 1).last() == fv[k as int]);
            assert(fv.take(k + 1).drop_last() =~= fv.take(k as int));
            assert(fv[k as int] == gh_seen_view(found@[k as int]));
        }
        if hit {
            let other = found[k].team.clone();
            return Option::Some(other);
        }
    }
}

/// Every code-host mapping is into an allowed organization, and no two
/// teams map the same code-host team.
pub fn validate_github_teams(data: &Data, errors: &mut Vec<String>)
    ensures
        views(final(errors)@) == views(old(errors)@) + check_github_teams(*data),
{
    let ghost goal = views(errors@) + check_github_teams(*data);
    let ghost allowed = views(data.config.allowed_github_orgs@);
    let mut found: Vec<GhSeen> = Vec::new();
    let n = data.teams.len();
    let mut i: usize = 0;
    proof {
        assert(data.teams@.skip(0) =~= data.teams@);
        assert(found@.map_values(gh_seen_view_fn()) =~= Seq::<
            (Seq<char>, Seq<char>, Seq<char>),
        >::empty());
    }
    while i != n
        invariant
            i <= n,
            n == data.teams@.len(),
            allowed == views(data.config.allowed_github_orgs@),
            goal == views(old(errors)@) + check_github_teams(*data),
            views(errors@) + gh_teams_walk(
                *data,
                data.teams@.skip(i as int),
                found@.map_values(gh_seen_view_fn()),
            ) == goal,
        decreases n - i,
    {
        let team = &data.teams[i];
        proof {
            assert(data.teams@.skip(i as int)[0] == *team);
            assert(data.teams@.skip(i as int).drop_first() =~= data.teams@.skip(i + 1));
        }
        match &team.github {
            Option::None => {
                proof {
                    let r = gh_walk(
                        allowed,
                        team.name@,
                        Seq::<GitHubTeam>::empty(),
                        found@.map_values(gh_seen_view_fn()),
                    );
                    assert(r.0 =~= Seq::<Seq<char>>::empty());
                    assert(views(errors@) + (r.0 + gh_teams_walk(
                        *data,
                        data.teams@.skip(i + 1),
                        r.1,
                    )) =~= views(errors@) + gh_teams_walk(*data, data.teams@.skip(i + 1), r.1));
                }
            },
            Option::Some(gh) => {
                let gn = gh.teams.len();
                let mut g: usize = 0;
                proof {
                    assert(gh.teams@.skip(0) =~= gh.teams@);
                }
                while g != gn
                    invariant
                        g <= gn,
                        gn == gh.teams@.len(),
                        i < n,
                        n == data.teams@.len(),
                        team == data.teams@[i as int],
                        gh == team.github->0,
                        allowed == views(data.config.allowed_github_orgs@),
                        views(errors@) + ({
                            let r = gh_walk(
                                allowed,
                                team.name@,
                                gh.teams@.skip(g as int),
                                found@.map_values(gh_seen_view_fn()),
                            );
                            r.0 + gh_teams_walk(*data, data.teams@.skip(i + 1), r.1)
                        }) == goal,
                    decreases gn - g,
                {
                    let entry = &gh.teams[g];
                    proof {
                        assert(gh.teams@.skip(g as int)[0] == *entry);
                        assert(gh.teams@.skip(g as int).drop_first() =~= gh.teams@.skip(g + 1));
                    }
                    let org_ok = contains_view(&data.config.allowed_github_orgs, &entry.org);
                    if !org_ok {
                        let ghost pre = errors@;
                        let m = cat5(
                            "GitHub organization `",
                            entry.org.as_str(),
                            "` isn't allowed (in team `",
                            team.name.as_str(),
                            "`)",
                        );
                        errors.push(m);
                        proof {
                            lemma_views_push(pre, errors@.last());
                            assert(views(errors@) =~= views(pre) + seq![
                                msg_org_not_allowed(entry.org@, team.name@),
                            ]);
                        }
                    } else {
                        let previous = found_lookup_exec(&found, &entry.org, &entry.name);
                        let ghost found_pre = found@.map_values(gh_seen_view_fn());
                        let seen = GhSeen {
                            org: entry.org.clone(),
                            name: entry.name.clone(),
                            team: team.name.clone(),
                        };
                        found.push(seen);
                        proof {
                            crate::seqtools::lemma_map_values_push(
                                found@.drop_last(),
                                gh_seen_view_fn(),
                                found@.last(),
                            );
                            assert(found@.drop_last().push(found@.last()) =~= found@);
                            assert(found@.map_values(gh_seen_view_fn()) == found_pre.push(
                                (entry.org@, entry.name@, team.name@),
                            ));
                        }
                        match previous {
                            Option::Some(other) => {
                                let ghost pre = errors@;
                                let m = cat9(
                                    "GitHub team `",
                                    entry.org.as_str(),
                                    "/",
                                    entry.name.as_str(),
                                    "` is defined for both the `",
                                    team.name.as_str(),
                                    "` and `",
                                    other.as_str(),
                                    "` teams",
                                );
                                errors.push(m);
                                proof {
                                    lemma_views_push(pre, errors@.last());
                                    assert(views(errors@) =~= views(pre) + seq![
                                        msg_github_team_reused(
                                            entry.org@,
                                            entry.name@,
                                            team.name@,
                                            other@,
                                        ),
                                    ]);
                                }
                            },
                            Option::None => {
                                proof {
                                    assert(views(errors@) + Seq::<Seq<char>>::empty() =~= views(
                                        errors@,
                                    ));
                                }
                            },
                        }
                    }
                    g = g + 1;
                }
                proof {
                    assert(gh.teams@.skip(gn as int) =~= Seq::<GitHubTeam>::empty());
                    let r = gh_walk(
                        allowed,
                        team.name@,
                        gh.teams@.skip(gn as int),
                        found@.map_values(gh_seen_view_fn()),
                    );
                    assert(r.0 =~= Seq::<Seq<char>>::empty());
                    assert(views(errors@) + (r.0 + gh_teams_walk(
                        *data,
                        data.teams@.skip(i + 1),
                        r.1,
                    )) =~= views(errors@) + gh_teams_walk(*data, data.teams@.skip(i + 1), r.1));
                }
            },
        }
        i = i + 1;
    }
    proof {
        assert(data.teams@.skip(n as int) =~= Seq::<Team>::empty());
        assert(views(errors@) + Seq::<Seq<char>>::empty() =~= views(errors@));
    }
}

/// The name of a team-level access grant.
pub open spec fn repo_team_name_fn() -> spec_fn(RepoTeam) -> Seq<char> {
    |t: RepoTeam| t.name@
}

/// Matches a team grant that names no known code-host team of the
/// repository's organization.
pub open spec fn unknown_gh_pred(data: Data, org: Seq<char>) -> spec_fn(Seq<char>) -> bool {
    |tn: Seq<char>| !all_github_teams(data).contains((org, tn))
}

/// What the repository check says of one repository: its first violation,
/// if any — a disallowed organization, then an unknown team grant, then an
/// unknown person grant.
pub open spec fn repo_msgs(data: Data, r: Repo) -> Seq<Seq<char>> {
    if !views(data.config.allowed_github_orgs@).contains(r.org@) {
        seq![msg_repo_bad_org(r.name@, r.org@)]
    } else {
        match find_first(r.teams@.map_values(repo_team_name_fn()), unknown_gh_pred(data, r.org@)) {
            Option::Some(tn) => seq![msg_repo_team_unknown(r.org@, r.name@, tn)],
            Option::None => match find_first(
                r.members@.map_values(crate::membership::repo_member_name_fn()),
                missing_person_pred(data),
            ) {
                Option::Some(p) => seq![msg_repo_person_unknown(r.org@, r.name@, p)],
                Option::None => Seq::empty(),
            },
        }
    }
}

pub open spec fn repo_msgs_fn(data: Data) -> spec_fn(Repo) -> Seq<Seq<char>> {
    |r: Repo| repo_msgs(data, r)
}

/// Everything the repository check reports, repository by repository.
pub open spec fn check_repos(data: Data) -> Seq<Seq<char>> {
    cat(data.repos@.map_values(repo_msgs_fn(data)))
}

fn repo_outcome(data: &Data, repo: &Repo) -> (outcome: Result<(), String>)
    ensures
        (match outcome {
            Result::Ok(u) => repo_msgs(*data, *repo) == Seq::<Seq<char>>::empty(),
            Result::Err(m) => repo_msgs(*data, *repo) == seq![m@],
        }),
{
    let org_ok = contains_view(&data.config.allowed_github_orgs, &repo.org);
    if !org_ok {
        return Result::Err(
            cat5(
                "The repo '",
                repo.name.as_str(),
                "' is in an invalid org '",
                repo.org.as_str(),
                "'",
            ),
        );
    }
    let ghost tpred = unknown_gh_pred(*data, repo.org@);
    let ghost tnames = repo.teams@.map_values(repo_team_name_fn());
    let tn = repo.teams.len();
    let mut ti: usize = 0;
    loop
        invariant
            ti <= tn,
            tn == repo.teams@.len(),
            tpred == unknown_gh_pred(*data, repo.org@),
            tnames == repo.teams@.map_values(repo_team_name_fn()),
            org_ok,
            views(data.config.allowed_github_orgs@).contains(repo.org@),
            forall|q: int| 0 <= q < ti ==> !(#[trigger] tpred(tnames[q])),
        ensures
            find_first(tnames, tpred) is None,
            org_ok,
        decreases tn - ti,
    {
        if ti == tn {
            proof {
                lemma_find_first_none(tnames, tpred);
            }
            break ;
        }
        let grant = &repo.teams[ti];
        proof {
            assert(tnames[ti as int] == grant.name@);
        }
        let known = data.github_team_defined(&repo.org, &grant.name);
        if !known {
            proof {
                lemma_find_first_at(tnames, tpred, ti as int);
            }
            return Result::Err(
                cat9(
                    "access for ",
                    repo.org.as_str(),
                    "/",
                    repo.name.as_str(),
                    " is invalid: '",
                    grant.name.as_str(),
                    "' is not configured as a GitHub team for the '",
                    repo.org.as_str(),
                    "' org",
                ),
            );
        }
        ti = ti + 1;
    }
    let ghost ppred = missing_person_pred(*data);
    let ghost pnames = repo.members@.map_values(crate::membership::repo_member_name_fn());
    let pn = repo.members.len();
    let mut pi: usize = 0;
    loop
        invariant
            pi <= pn,
            pn == repo.members@.len(),
            ppred == missing_person_pred(*data),
            pnames == repo.members@.map_values(crate::membership::repo_member_name_fn()),
            views(data.config.allowed_github_orgs@).contains(repo.org@),
            find_first(repo.teams@.map_values(repo_team_name_fn()), unknown_gh_pred(*data, repo.org@)) is None,
            forall|q: int| 0 <= q < pi ==> !(#[trigger] ppred(pnames[q])),
        ensures
            find_first(pnames, ppred) is None,
            views(data.config.allowed_github_orgs@).contains(repo.org@),
            find_first(repo.teams@.map_values(repo_team_name_fn()), unknown_gh_pred(*data, repo.org@)) is None,
        decreases pn - pi,
    {
        if pi == pn {
            proof {
                lemma_find_first_none(pnames, ppred);
            }
            break ;
        }
        let grant = &repo.members[pi];
        proof {
            assert(pnames[pi as int] == grant.name@);
        }
        match data.person(grant.name.as_str()) {
            Option::None => {
                proof {
                    lemma_find_first_at(pnames, ppred, pi as int);
                }
                return Result::Err(
                    cat7(
                        "access for ",
                        repo.org.as_str(),
                        "/",
                        repo.name.as_str(),
                        " is invalid: '",
                        grant.name.as_str(),
                        "' is not the name of a person in the team repo",
                    ),
                );
            },
            Option::Some(p) => {},
        }
        pi = pi + 1;
    }
    Result::Ok(())
}

/// Every repository sits in an allowed organization, and its access
/// grants name known code-host teams and existing people.
pub fn validate_repos(data: &Data, errors: &mut Vec<String>)
    ensures
        views(final(errors)@) == views(old(errors)@) + check_repos(*data),
{
    let ghost base = views(errors@);
    let ghost f = repo_msgs_fn(*data);
    let n = data.repos.len();
    let mut i: usize = 0;
    proof {
        lemma_step_zero(base, data.repos@, f);
    }
    while i != n
        invariant
            i <= n,
            n == data.repos@.len(),
            base == views(old(errors)@),
            f == repo_msgs_fn(*data),
            views(errors@) == base + cat(data.repos@.take(i as int).map_values(f)),
        decreases n - i,
    {
        let repo = &data.repos[i];
        proof {
            lemma_step_emit(base, data.repos@, f, i as int, views(errors@));
        }
        let outcome = repo_outcome(data, repo);
        wrapper(outcome, errors);
        i = i + 1;
    }
    proof {
        lemma_take_all(data.repos@);
    }
}

} // verus!
