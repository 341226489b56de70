//! Checks on who belongs where: leads are members of their teams, members
//! are people, alumni are not active, nobody is orphaned, and teams with
//! chat roles have chat ids for every member.
use crate::collect::lemma_step_emit;
use crate::collect::lemma_step_zero;
use crate::collect::wrapper;
use crate::data::active_members_spec;
use crate::data::effective_members_spec;
use crate::data::find_person;
use crate::data::find_team;
use crate::data::member_github_fn;
use crate::data::Data;
use crate::data::List;
use crate::data::Person;
use crate::data::Team;
use crate::messages::cat3;
use crate::messages::cat4;
use crate::messages::cat5;
use crate::messages::msg_alumni_active;
use crate::messages::msg_alumni_duplicated;
use crate::messages::msg_discord_ids_missing;
use crate::messages::msg_lead_not_member;
use crate::messages::msg_member_not_person;
use crate::messages::msg_orphan;
use crate::seqtools::cat;
use crate::seqtools::dedup_first;
use crate::seqtools::join_with;
use crate::seqtools::lemma_dedup_first_push;
use crate::seqtools::lemma_take_all;
use crate::seqtools::lemma_views_push;
use crate::seqtools::views;
use crate::text::contains_view;
use crate::text::join_strings;
use crate::text::string_eq_text;
use vstd::prelude::*;

verus! {

/// What the lead check says of one lead handle.
pub open spec fn lead_msg_fn(ms: Seq<Seq<char>>, team: Seq<char>) -> spec_fn(Seq<char>) -> Seq<
    Seq<char>,
> {
    |lead: Seq<char>|
        if ms.contains(lead) {
            Seq::empty()
        } else {
            seq![msg_lead_not_member(lead, team)]
        }
}

/// What the lead check says of one team: the membership failure, or one
/// message per lead who is not an effective member.
pub open spec fn team_leads_msgs(data: Data, t: Team) -> Seq<Seq<char>> {
    match effective_members_spec(data, t) {
        Result::Err(e) => seq![e],
        Result::Ok(ms) => cat(views(t.leads@).map_values(lead_msg_fn(ms, t.name@))),
    }
}

pub open spec fn team_leads_msgs_fn(data: Data) -> spec_fn(Team) -> Seq<Seq<char>> {
    |t: Team| team_leads_msgs(data, t)
}

/// Everything the lead check reports, team by team.
pub open spec fn check_team_leads(data: Data) -> Seq<Seq<char>> {
    cat(data.teams@.map_values(team_leads_msgs_fn(data)))
}

/// Every declared lead of a team is one of its effective members.
pub fn validate_team_leads(data: &Data, errors: &mut Vec<String>)
    ensures
        views(final(errors)@) == views(old(errors)@) + check_team_leads(*data),
{
    let ghost base = views(errors@);
    let ghost f = team_leads_msgs_fn(*data);
    let n = data.teams.len();
    let mut i: usize = 0;
    proof {
        lemma_step_zero(base, data.teams@, f);
    }
    while i != n
        invariant
            i <= n,
            n == data.teams@.len(),
            base == views(old(errors)@),
            f == team_leads_msgs_fn(*data),
            views(errors@) == base + cat(data.teams@.take(i as int).map_values(f)),
        decreases n - i,
    {
        let team = &data.teams[i];
        proof {
            lemma_step_emit(base, data.teams@, f, i as int, views(errors@));
        }
        match data.effective_members(team) {
            Result::Err(e) => {
                wrapper(Result::Err(e), errors);
            },
            Result::Ok(ms) => {
                let ghost base2 = views(errors@);
                let ghost g = lead_msg_fn(views(ms@), team.name@);
                let ln = team.leads.len();
                let mut j: usize = 0;
                proof {
                    lemma_step_zero(base2, views(team.leads@), g);
                }
                while j != ln
                    invariant
                        j <= ln,
                        ln == team.leads@.len(),
                        g == lead_msg_fn(views(ms@), team.name@),
                        views(errors@) == base2 + cat(
                            views(team.leads@).take(j as int).map_values(g),
                        ),
                    decreases ln - j,
                {
                    let lead = &team.leads[j];
                    proof {
                        lemma_step_emit(base2, views(team.leads@), g, j as int, views(errors@));
                        assert(views(team.leads@)[j as int] == lead@);
                    }
                    let outcome: Result<(), String> = if contains_view(&ms, lead) {
                        Result::Ok(())
                    } else {
                        Result::Err(
                            cat5(
                                "`",
                                lead.as_str(),
                                "` leads team `",
                                team.name.as_str(),
                                "`, but is not a member of it",
                            ),
                        )
                    };
                    wrapper(outcome, errors);
                    j = j + 1;
                }
                proof {
                    lemma_take_all(views(team.leads@));
                    assert(views(team.leads@).take(team.leads@.len() as int) == views(
                        team.leads@,
                    ));
                }
            },
        }
        i = i + 1;
    }
    proof {
        lemma_take_all(data.teams@);
    }
}

/// What the member-existence check says of one handle.
pub open spec fn member_person_fn(data: Data, team: Seq<char>) -> spec_fn(Seq<char>) -> Seq<
    Seq<char>,
> {
    |m: Seq<char>|
        if find_person(data, m) is Some {
            Seq::empty()
        } else {
            seq![msg_member_not_person(m, team)]
        }
}

/// What the member-existence check says of one team.
pub open spec fn team_members_msgs(data: Data, t: Team) -> Seq<Seq<char>> {
    match effective_members_spec(data, t) {
        Result::Err(e) => seq![e],
        Result::Ok(ms) => cat(ms.map_values(member_person_fn(data, t.name@))),
    }
}

pub open spec fn team_members_msgs_fn(data: Data) -> spec_fn(Team) -> Seq<Seq<char>> {
    |t: Team| team_members_msgs(data, t)
}

/// Everything the member-existence check reports, team by team.
pub open spec fn check_team_members(data: Data) -> Seq<Seq<char>> {
    cat(data.teams@.map_values(team_members_msgs_fn(data)))
}

/// Every effective member handle names a person that exists.
pub fn validate_team_members(data: &Data, errors: &mut Vec<String>)
    ensures
        views(final(errors)@) == views(old(errors)@) + check_team_members(*data),
{
    let ghost base = views(errors@);
    let ghost f = team_members_msgs_fn(*data);
    let n = data.teams.len();
    let mut i: usize = 0;
    proof {
        lemma_step_zero(base, data.teams@, f);
    }
    while i != n
        invariant
            i <= n,
            n == data.teams@.len(),
            base == views(old(errors)@),
            f == team_members_msgs_fn(*data),
            views(errors@) == base + cat(data.teams@.take(i as int).map_values(f)),
        decreases n - i,
    {
        let team = &data.teams[i];
        proof {
            lemma_step_emit(base, data.teams@, f, i as int, views(errors@));
        }
        match data.effective_members(team) {
            Result::Err(e) => {
                wrapper(Result::Err(e), errors);
            },
            Result::Ok(ms) => {
                let ghost base2 = views(errors@);
                let ghost g = member_person_fn(*data, team.name@);
                let mn = ms.len();
                let mut j: usize = 0;
                proof {
                    lemma_step_zero(base2, views(ms@), g);
                }
                while j != mn
                    invariant
                        j <= mn,
                        mn == ms@.len(),
                        g == member_person_fn(*data, team.name@),
                        views(errors@) == base2 + cat(views(ms@).take(j as int).map_values(g)),
                    decreases mn - j,
                {
                    let member = &ms[j];
                    proof {
                        lemma_step_emit(base2, views(ms@), g, j as int, views(errors@));
                        assert(views(ms@)[j as int] == member@);
                    }
                    let outcome: Result<(), String> = match data.person(member.as_str()) {
                        Option::Some(p) => Result::Ok(()),
                        Option::None => Result::Err(
                            cat5(
                                "person `",
                                member.as_str(),
                                "` is member of team `",
                                team.name.as_str(),
                                "` but doesn't exist",
                            ),
                        ),
                    };
                    wrapper(outcome, errors);
                    j = j + 1;
                }
                proof {
                    lemma_take_all(views(ms@));
                }
            },
        }
        i = i + 1;
    }
    proof {
        lemma_take_all(data.teams@);
    }
}

/// What part one of the alumni check says of one effective alumni-team
/// member.
pub open spec fn active_alumni_fn(active: Seq<Seq<char>>) -> spec_fn(Seq<char>) -> Seq<Seq<char>> {
    |m: Seq<char>|
        if active.contains(m) {
            seq![msg_alumni_active(m)]
        } else {
            Seq::empty()
        }
}

/// The alumni handles one team names.
pub open spec fn alumni_handles(t: Team) -> Seq<Seq<char>> {
    t.alumni@.map_values(member_github_fn())
}

/// Part two of the alumni check on one team's alumni list: an explicit
/// member of the alumni team who is already named alumni of another team
/// is reported once, for the first team found, and struck from the
/// remaining set.
pub open spec fn alumni_dup_team(
    tn: Seq<char>,
    ms: Seq<Seq<char>>,
    remaining: Seq<Seq<char>>,
) -> (Seq<Seq<char>>, Seq<Seq<char>>)
    decreases ms.len(),
{
    if ms.len() == 0 {
        (Seq::empty(), remaining)
    } else {
        let head = ms[0];
        if remaining.contains(head) {
            let rest = alumni_dup_team(tn, ms.drop_first(), remaining.remove_value(head));
            (seq![msg_alumni_duplicated(head, tn)] + rest.0, rest.1)
        } else {
            alumni_dup_team(tn, ms.drop_first(), remaining)
        }
    }
}

/// Part two over the whole team list, threading the remaining set.
pub open spec fn alumni_dup_teams(teams: Seq<Team>, remaining: Seq<Seq<char>>) -> Seq<Seq<char>>
    decreases teams.len(),
{
    if teams.len() == 0 {
        Seq::empty()
    } else {
        let t = teams[0];
        if t.name@ == "alumni"@ {
            alumni_dup_teams(teams.drop_first(), remaining)
        } else {
            let r = alumni_dup_team(t.name@, alumni_handles(t), remaining);
            r.0 + alumni_dup_teams(teams.drop_first(), r.1)
        }
    }
}

/// Everything the alumni check reports: the active-member failure, or, for
/// the distinguished alumni team, one message per effective member who is
/// still active, then one message per explicit member already named
/// alumni elsewhere.
pub open spec fn check_alumni(data: Data) -> Seq<Seq<char>> {
    match active_members_spec(data) {
        Result::Err(e) => seq![e],
        Result::Ok(active) => match find_team(data, "alumni"@) {
            Option::None => Seq::empty(),
            Option::Some(at) => match effective_members_spec(data, at) {
                Result::Err(e) => seq![e],
                Result::Ok(ms) => cat(ms.map_values(active_alumni_fn(active)))
                    + alumni_dup_teams(data.teams@, dedup_first(crate::data::explicit_handles(at))),
            },
        },
    }
}

fn remove_first(v: &mut Vec<String>, x: &String)
    requires
        views(old(v)@).contains(x@),
    ensures
        views(final(v)@) == views(old(v)@).remove_value(x@),
{
    let n = v.len();
    let mut i: usize = 0;
    loop
        invariant
            i <= n,
            n == v@.len(),
            v == old(v),
            views(v@).contains(x@),
            forall|j: int| 0 <= j < i ==> views(v@)[j] != x@,
        ensures
            0 <= i < v@.len(),
            v == old(v),
            views(v@)[i as int] == x@,
            forall|j: int| 0 <= j < i ==> views(v@)[j] != x@,
        decreases n - i,
    {
        if i == n {
            proof {
                let k = choose|k: int| 0 <= k < views(v@).len() && views(v@)[k] == x@;
                assert(false);
            }
        }
        if v[i] == *x {
            proof {
                assert(views(v@)[i as int] == x@);
            }
            break ;
        }
        i = i + 1;
    }
    let ghost pre = views(v@);
    let removed = v.remove(i);
    proof {
        assert(views(v@) =~= pre.remove(i as int));
        pre.index_of_first_ensures(x@);
        assert(pre.index_of_first(x@) == Option::Some(i as int)) by {
            match pre.index_of_first(x@) {
                Option::Some(k) => {
                    if k < i as int {
                        assert(pre[k] != x@);
                    }
                    if k > i as int {
                        assert(pre[i as int] != x@);
                    }
                },
                Option::None => {
                    assert(!pre.contains(x@));
                },
            }
        }
    }
}

/// The alumni team's effective members are inactive, and nobody is named
/// alumni both there and on another team.
pub fn validate_alumni(data: &Data, errors: &mut Vec<String>)
    ensures
        views(final(errors)@) == views(old(errors)@) + check_alumni(*data),
{
    let ghost base = views(errors@);
    let active = match data.active_members() {
        Result::Ok(v) => v,
        Result::Err(e) => {
            let ghost pre = errors@;
            errors.push(e);
            proof {
                lemma_views_push(pre, errors@.last());
                assert(views(pre).push(errors@.last()@) =~= base + check_alumni(*data));
            }
            return ;
        },
    };
    let at = match data.team("alumni") {
        Option::Some(t) => t,
        Option::None => {
            proof {
                assert(base + check_alumni(*data) =~= base);
            }
            return ;
        },
    };
    let ms = match data.effective_members(at) {
        Result::Ok(v) => v,
        Result::Err(e) => {
            let ghost pre = errors@;
            errors.push(e);
            proof {
                lemma_views_push(pre, errors@.last());
                assert(views(pre).push(errors@.last()@) =~= base + check_alumni(*data));
            }
            return ;
        },
    };
    // Part one: effective members of the alumni team must be inactive.
    let ghost g = active_alumni_fn(views(active@));
    let mn = ms.len();
    let mut j: usize = 0;
    proof {
        lemma_step_zero(base, views(ms@), g);
    }
    while j != mn
        invariant
            j <= mn,
            mn == ms@.len(),
            g == active_alumni_fn(views(active@)),
            views(errors@) == base + cat(views(ms@).take(j as int).map_values(g)),
        decreases mn - j,
    {
        let member = &ms[j];
        proof {
            lemma_step_emit(base, views(ms@), g, j as int, views(errors@));
            assert(views(ms@)[j as int] == member@);
        }
        let outcome: Result<(), String> = if contains_view(&active, member) {
            Result::Err(cat3("alumni team includes active member '", member.as_str(), "'"))
        } else {
            Result::Ok(())
        };
        wrapper(outcome, errors);
        j = j + 1;
    }
    proof {
        lemma_take_all(views(ms@));
    }
    // Part two: explicit alumni-team members already named alumni elsewhere.
    let ghost part1 = views(errors@);
    let mut rem: Vec<String> = Vec::new();
    let en = at.members.len();
    let mut k: usize = 0;
    proof {
        assert(crate::data::explicit_handles(*at).take(0) =~= Seq::<Seq<char>>::empty());
        assert(views(rem@) =~= dedup_first(crate::data::explicit_handles(*at).take(0)));
    }
    while k != en
        invariant
            k <= en,
            en == at.members@.len(),
            views(rem@) == dedup_first(crate::data::explicit_handles(*at).take(k as int)),
        decreases en - k,
    {
        let x = &at.members[k].github;
        proof {
            assert(crate::data::explicit_handles(*at)[k as int] == x@);
            assert(crate::data::explicit_handles(*at).take(k + 1) =~= crate::data::explicit_handles(*at).take(
                k as int,
            ).push(x@));
            lemma_dedup_first_push(crate::data::explicit_handles(*at).take(k as int), x@);
        }
        let absent = !contains_view(&rem, x);
        if absent {
            let ghost pre = rem@;
            let c = x.clone();
            rem.push(c);
            proof {
                lemma_views_push(pre, rem@.last());
            }
        }
        k = k + 1;
    }
    proof {
        lemma_take_all(crate::data::explicit_handles(*at));
    }
    let ghost goal = part1 + alumni_dup_teams(data.teams@, views(rem@));
    let tn = data.teams.len();
    let mut i: usize = 0;
    proof {
        assert(data.teams@.skip(0) =~= data.teams@);
    }
    while i != tn
        invariant
            i <= tn,
            tn == data.teams@.len(),
            goal == part1 + alumni_dup_teams(data.teams@, dedup_first(crate::data::explicit_handles(*at))),
            views(errors@) + alumni_dup_teams(data.teams@.skip(i as int), views(rem@)) == goal,
        decreases tn - i,
    {
        let team = &data.teams[i];
        proof {
            assert(data.teams@.skip(i as int)[0] == *team);
            assert(data.teams@.skip(i as int).drop_first() =~= data.teams@.skip(i + 1));
        }
        let skip_team = string_eq_text(&team.name, "alumni");
        if !skip_team {
            let an = team.alumni.len();
            let mut a: usize = 0;
            proof {
                assert(alumni_handles(*team).skip(0) =~= alumni_handles(*team));
            }
            while a != an
                invariant
                    a <= an,
                    an == team.alumni@.len(),
                    i < tn,
                    tn == data.teams@.len(),
                    team == data.teams@[i as int],
                    views(errors@) + alumni_dup_team(
                        team.name@,
                        alumni_handles(*team).skip(a as int),
                        views(rem@),
                    ).0 + alumni_dup_teams(
                        data.teams@.skip(i + 1),
                        alumni_dup_team(
                            team.name@,
                            alumni_handles(*team).skip(a as int),
                            views(rem@),
                        ).1,
                    ) == goal,
                decreases an - a,
            {
                let m = &team.alumni[a].github;
                proof {
                    assert(alumni_handles(*team).skip(a as int)[0] == m@);
                    assert(alumni_handles(*team).skip(a as int).drop_first() =~= alumni_handles(
                        *team,
                    ).skip(a + 1));
                }
                let ghost rem_old = views(rem@);
                let ghost errs_old = views(errors@);
                let dup = contains_view(&rem, m);
                if dup {
                    let msg = cat5(
                        "alumni team explicitly includes member '",
                        m.as_str(),
                        "' who was specified as an alumni already in '",
                        team.name.as_str(),
                        "'",
                    );
                    let ghost pre = errors@;
                    errors.push(msg);
                    proof {
                        lemma_views_push(pre, errors@.last());
                    }
                    remove_first(&mut rem, m);
                    proof {
                        let w_old = alumni_dup_team(
                            team.name@,
                            alumni_handles(*team).skip(a as int),
                            rem_old,
                        );
                        let w_new = alumni_dup_team(
                            team.name@,
                            alumni_handles(*team).skip(a + 1),
                            views(rem@),
                        );
                        assert(views(rem@) == rem_old.remove_value(m@));
                        assert(w_old.0 == seq![msg_alumni_duplicated(m@, team.name@)] + w_new.0);
                        assert(w_old.1 == w_new.1);
                        assert(views(errors@) + w_new.0 =~= errs_old + w_old.0);
                    }
                } else {
                    proof {
                        let w_old = alumni_dup_team(
                            team.name@,
                            alumni_handles(*team).skip(a as int),
                            rem_old,
                        );
                        let w_new = alumni_dup_team(
                            team.name@,
                            alumni_handles(*team).skip(a + 1),
                            views(rem@),
                        );
                        assert(w_old == w_new);
                    }
                }
                a = a + 1;
            }
            proof {
                assert(alumni_handles(*team).skip(an as int) =~= Seq::<Seq<char>>::empty());
            }
        }
        i = i + 1;
    }
    proof {
        assert(data.teams@.skip(tn as int) =~= Seq::<Team>::empty());
        assert(views(errors@) + Seq::<Seq<char>>::empty() =~= views(errors@));
        assert(views(errors@) == goal);
        assert(goal =~= base + check_alumni(*data));
    }
}

/// The extra people of one mailing list.
pub open spec fn list_people_fn() -> spec_fn(List) -> Seq<Seq<char>> {
    |l: List| views(l.extra_people@)
}

/// Every extra person the team's mailing lists name.
pub open spec fn list_people(t: Team) -> Seq<Seq<char>> {
    cat(t.lists@.map_values(list_people_fn()))
}

/// The handles one team contributes to the referenced-member pool: its
/// effective members (none when resolution fails), its alumni, and the
/// extra people of its lists.
pub open spec fn contribution_fn(data: Data) -> spec_fn(Team) -> Seq<Seq<char>> {
    |t: Team|
        match effective_members_spec(data, t) {
            Result::Err(e) => Seq::empty(),
            Result::Ok(ms) => ms + alumni_handles(t) + list_people(t),
        }
}

/// The resolution failure one team contributes, if any.
pub open spec fn ref_err_fn(data: Data) -> spec_fn(Team) -> Seq<Seq<char>> {
    |t: Team|
        match effective_members_spec(data, t) {
            Result::Err(e) => seq![e],
            Result::Ok(ms) => Seq::empty(),
        }
}

/// Every handle referenced by an active or archived team.
pub open spec fn referenced_members(data: Data) -> Seq<Seq<char>> {
    cat((data.teams@ + data.archived_teams@).map_values(contribution_fn(data)))
}

pub open spec fn repo_member_name_fn() -> spec_fn(crate::data::RepoMember) -> Seq<char> {
    |m: crate::data::RepoMember| m.name@
}

pub open spec fn repo_individuals_fn() -> spec_fn(crate::data::Repo) -> Seq<Seq<char>> {
    |r: crate::data::Repo| r.members@.map_values(repo_member_name_fn())
}

/// Everyone granted repository access in person.
pub open spec fn individual_contributors(data: Data) -> Seq<Seq<char>> {
    cat(data.repos@.map_values(repo_individuals_fn()))
}

/// What the orphan check says of one person.
pub open spec fn orphan_fn(refd: Seq<Seq<char>>, ics: Seq<Seq<char>>) -> spec_fn(Person) -> Seq<
    Seq<char>,
> {
    |p: Person|
        if !refd.contains(p.github@) && p.permissions@.len() == 0 && !ics.contains(p.github@) {
            seq![msg_orphan(p.github@)]
        } else {
            Seq::empty()
        }
}

/// Everything the orphan check reports: first the membership-resolution
/// failures, team by team, then one message per person no team references
/// who also holds no permission and no personal repository access.
pub open spec fn check_inactive_members(data: Data) -> Seq<Seq<char>> {
    cat((data.teams@ + data.archived_teams@).map_values(ref_err_fn(data))) + cat(
        data.people@.map_values(
            orphan_fn(referenced_members(data), individual_contributors(data)),
        ),
    )
}

/// Gathers one team's contribution to the referenced-member pool.
fn team_contribution(data: &Data, team: &Team, refd: &mut Vec<String>) -> (r: Result<(), String>)
    ensures
        views(final(refd)@) == views(old(refd)@) + contribution_fn(*data)(*team),
        (match r {
            Result::Ok(u) => crate::collect::outcome_msgs(Result::Ok(u)),
            Result::Err(m) => crate::collect::outcome_msgs(
                Result::<(), Seq<char>>::Err(m@),
            ),
        }) == ref_err_fn(*data)(*team),
{
    match data.effective_members(team) {
        Result::Err(e) => {
            proof {
                assert(views(refd@) + contribution_fn(*data)(*team) =~= views(refd@));
            }
            Result::Err(e)
        },
        Result::Ok(mut ms) => {
            let ghost s0 = views(refd@);
            let ghost eff = views(ms@);
            refd.append(&mut ms);
            proof {
                assert(views(refd@) =~= s0 + eff);
            }
            let ghost s1 = views(refd@);
            let an = team.alumni.len();
            let mut a: usize = 0;
            proof {
                assert(alumni_handles(*team).take(0) =~= Seq::<Seq<char>>::empty());
                assert(s1 + alumni_handles(*team).take(0) =~= s1);
            }
            while a != an
                invariant
                    a <= an,
                    an == team.alumni@.len(),
                    views(refd@) == s1 + alumni_handles(*team).take(a as int),
                decreases an - a,
            {
                let ghost pre = refd@;
                let h = team.alumni[a].github.clone();
                refd.push(h);
                proof {
                    lemma_views_push(pre, refd@.last());
                    assert(alumni_handles(*team)[a as int] == team.alumni@[a as int].github@);
                    assert(alumni_handles(*team).take(a + 1) =~= alumni_handles(*team).take(
                        a as int,
                    ).push(team.alumni@[a as int].github@));
                    assert(views(refd@) =~= s1 + alumni_handles(*team).take(a + 1));
                }
                a = a + 1;
            }
            proof {
                lemma_take_all(alumni_handles(*team));
            }
            let ghost s2 = views(refd@);
            let ln = team.lists.len();
            let mut li: usize = 0;
            proof {
                assert(team.lists@.take(0).map_values(list_people_fn()) =~= Seq::<
                    Seq<Seq<char>>,
                >::empty());
                assert(s2 + cat(team.lists@.take(0).map_values(list_people_fn())) =~= s2);
            }
            while li != ln
                invariant
                    li <= ln,
                    ln == team.lists@.len(),
                    views(refd@) == s2 + cat(
                        team.lists@.take(li as int).map_values(list_people_fn()),
                    ),
                decreases ln - li,
            {
                let ghost s3 = views(refd@);
                let l = &team.lists[li];
                let pn = l.extra_people.len();
                let mut pi: usize = 0;
                proof {
                    assert(views(l.extra_people@).take(0) =~= Seq::<Seq<char>>::empty());
                    assert(s3 + views(l.extra_people@).take(0) =~= s3);
                }
                while pi != pn
                    invariant
                        pi <= pn,
                        pn == l.extra_people@.len(),
                        li < ln,
                        ln == team.lists@.len(),
                        l == team.lists@[li as int],
                        views(refd@) == s3 + views(l.extra_people@).take(pi as int),
                    decreases pn - pi,
                {
                    let ghost pre = refd@;
                    let h = l.extra_people[pi].clone();
                    refd.push(h);
                    proof {
                        lemma_views_push(pre, refd@.last());
                        assert(views(l.extra_people@).take(pi + 1) =~= views(
                            l.extra_people@,
                        ).take(pi as int).push(l.extra_people@[pi as int]@));
                        assert(views(refd@) =~= s3 + views(l.extra_people@).take(pi + 1));
                    }
                    pi = pi + 1;
                }
                proof {
                    lemma_take_all(views(l.extra_people@));
                    assert(views(l.extra_people@).take(pn as int) == views(l.extra_people@));
                    crate::seqtools::lemma_cat_map_take_step(
                        team.lists@,
                        list_people_fn(),
                        li as int,
                    );
                    assert(views(refd@) =~= s2 + cat(
                        team.lists@.take(li + 1).map_values(list_people_fn()),
                    ));
                }
                li = li + 1;
            }
            proof {
                lemma_take_all(team.lists@);
                assert(views(refd@) =~= s0 + (eff + alumni_handles(*team) + list_people(*team)));
            }
            Result::Ok(())
        },
    }
}

/// Every person is referenced by some team, or holds a permission, or has
/// personal repository access.
pub fn validate_inactive_members(data: &Data, errors: &mut Vec<String>)
    ensures
        views(final(errors)@) == views(old(errors)@) + check_inactive_members(*data),
{
    let ghost base = views(errors@);
    let ghost allteams = data.teams@ + data.archived_teams@;
    let ghost fe = ref_err_fn(*data);
    let ghost fc = contribution_fn(*data);
    let mut refd: Vec<String> = Vec::new();
    let n1 = data.teams.len();
    let n2 = data.archived_teams.len();
    let mut i: usize = 0;
    proof {
        lemma_step_zero(base, allteams, fe);
        assert(views(refd@) =~= Seq::<Seq<char>>::empty());
        assert(allteams.take(0).map_values(fc) =~= Seq::<Seq<Seq<char>>>::empty());
        assert(views(refd@) =~= cat(allteams.take(0).map_values(fc)));
    }
    while i != n1
        invariant
            i <= n1,
            n1 == data.teams@.len(),
            n2 == data.archived_teams@.len(),
            allteams == data.teams@ + data.archived_teams@,
            base == views(old(errors)@),
            fe == ref_err_fn(*data),
            fc == contribution_fn(*data),
            views(errors@) == base + cat(allteams.take(i as int).map_values(fe)),
            views(refd@) == cat(allteams.take(i as int).map_values(fc)),
        decreases n1 - i,
    {
        let team = &data.teams[i];
        proof {
            assert(allteams[i as int] == *team);
            lemma_step_emit(base, allteams, fe, i as int, views(errors@));
            crate::seqtools::lemma_cat_map_take_step(allteams, fc, i as int);
        }
        let outcome = team_contribution(data, team, &mut refd);
        wrapper(outcome, errors);
        i = i + 1;
    }
    let mut k: usize = 0;
    while k != n2
        invariant
            k <= n2,
            n1 == data.teams@.len(),
            n2 == data.archived_teams@.len(),
            allteams == data.teams@ + data.archived_teams@,
            base == views(old(errors)@),
            fe == ref_err_fn(*data),
            fc == contribution_fn(*data),
            views(errors@) == base + cat(allteams.take(n1 + k).map_values(fe)),
            views(refd@) == cat(allteams.take(n1 + k).map_values(fc)),
        decreases n2 - k,
    {
        let team = &data.archived_teams[k];
        proof {
            assert(allteams[n1 + k] == *team);
            lemma_step_emit(base, allteams, fe, n1 + k, views(errors@));
            crate::seqtools::lemma_cat_map_take_step(allteams, fc, n1 + k);
        }
        let outcome = team_contribution(data, team, &mut refd);
        wrapper(outcome, errors);
        k = k + 1;
    }
    proof {
        lemma_take_all(allteams);
        assert(allteams.take((n1 + n2) as int) == allteams);
        assert(views(refd@) == referenced_members(*data));
    }
    // Everyone with personal repository access.
    let mut ics: Vec<String> = Vec::new();
    let rn = data.repos.len();
    let mut ri: usize = 0;
    proof {
        assert(data.repos@.take(0).map_values(repo_individuals_fn()) =~= Seq::<
            Seq<Seq<char>>,
        >::empty());
        assert(views(ics@) =~= cat(data.repos@.take(0).map_values(repo_individuals_fn())));
    }
    while ri != rn
        invariant
            ri <= rn,
            rn == data.repos@.len(),
            views(ics@) == cat(data.repos@.take(ri as int).map_values(repo_individuals_fn())),
        decreases rn - ri,
    {
        let ghost s0 = views(ics@);
        let repo = &data.repos[ri];
        let mn = repo.members.len();
        let mut mi: usize = 0;
        proof {
            let ghost names = repo.members@.map_values(repo_member_name_fn());
            assert(names.take(0) =~= Seq::<Seq<char>>::empty());
            assert(s0 + names.take(0) =~= s0);
        }
        while mi != mn
            invariant
                mi <= mn,
                mn == repo.members@.len(),
                ri < rn,
                rn == data.repos@.len(),
                repo == data.repos@[ri as int],
                views(ics@) == s0 + repo.members@.map_values(repo_member_name_fn()).take(
                    mi as int,
                ),
            decreases mn - mi,
        {
            let ghost pre = ics@;
            let h = repo.members[mi].name.clone();
            ics.push(h);
            proof {
                lemma_views_push(pre, ics@.last());
                let names = repo.members@.map_values(repo_member_name_fn());
                assert(names[mi as int] == repo.members@[mi as int].name@);
                assert(names.take(mi + 1) =~= names.take(mi as int).push(names[mi as int]));
                assert(views(ics@) =~= s0 + names.take(mi + 1));
            }
            mi = mi + 1;
        }
        proof {
            lemma_take_all(repo.members@.map_values(repo_member_name_fn()));
            crate::seqtools::lemma_cat_map_take_step(data.repos@, repo_individuals_fn(), ri as int);
            assert(views(ics@) =~= cat(data.repos@.take(ri + 1).map_values(
                repo_individuals_fn(),
            )));
        }
        ri = ri + 1;
    }
    proof {
        lemma_take_all(data.repos@);
        assert(views(ics@) == individual_contributors(*data));
    }
    // Report everyone referenced nowhere who holds nothing.
    let ghost base2 = views(errors@);
    let ghost fo = orphan_fn(views(refd@), views(ics@));
    let pn = data.people.len();
    let mut pi: usize = 0;
    proof {
        lemma_step_zero(base2, data.people@, fo);
    }
    while pi != pn
        invariant
            pi <= pn,
            pn == data.people@.len(),
            fo == orphan_fn(views(refd@), views(ics@)),
            views(refd@) == referenced_members(*data),
            views(ics@) == individual_contributors(*data),
            views(errors@) == base2 + cat(data.people@.take(pi as int).map_values(fo)),
        decreases pn - pi,
    {
        let person = &data.people[pi];
        proof {
            lemma_step_emit(base2, data.people@, fo, pi as int, views(errors@));
        }
        let referenced = contains_view(&refd, &person.github);
        let has_perms = person.permissions.len() > 0;
        let ic = contains_view(&ics, &person.github);
        let outcome: Result<(), String> = if !referenced && !has_perms && !ic {
            Result::Err(
                cat3(
                    "person `",
                    person.github.as_str(),
                    "` is not a member of any team (active or archived), has no permissions, and is not an individual contributor to any repo",
                ),
            )
        } else {
            Result::Ok(())
        };
        wrapper(outcome, errors);
        pi = pi + 1;
    }
    proof {
        lemma_take_all(data.people@);
        assert(base2 == base + cat(allteams.map_values(fe)));
        assert(views(errors@) =~= base + check_inactive_members(*data));
    }
}

/// What the chat-id check says of one effective member: the member's
/// handle where no person record with a chat id backs it.
pub open spec fn lacks_discord_fn(data: Data) -> spec_fn(Seq<char>) -> Seq<Seq<char>> {
    |m: Seq<char>|
        match find_person(data, m) {
            Option::Some(p) => if p.discord_id is Some {
                Seq::empty()
            } else {
                seq![m]
            },
            Option::None => seq![m],
        }
}

/// What the chat-id check says of one team: for a team with chat role
/// bindings, other than the universal team, the list of effective members
/// without a chat id, joined into one message.
pub open spec fn discord_msgs(data: Data, t: Team) -> Seq<Seq<char>> {
    if t.discord@.len() > 0 && t.name@ != "all"@ {
        match effective_members_spec(data, t) {
            Result::Err(e) => seq![e],
            Result::Ok(ms) => {
                let missing = cat(ms.map_values(lacks_discord_fn(data)));
                if missing.len() == 0 {
                    Seq::empty()
                } else {
                    seq![msg_discord_ids_missing(t.name@, join_with(missing, ", "@))]
                }
            },
        }
    } else {
        Seq::empty()
    }
}

pub open spec fn discord_msgs_fn(data: Data) -> spec_fn(Team) -> Seq<Seq<char>> {
    |t: Team| discord_msgs(data, t)
}

/// Everything the chat-id check reports, team by team.
pub open spec fn check_discord_ids(data: Data) -> Seq<Seq<char>> {
    cat(data.teams@.map_values(discord_msgs_fn(data)))
}

/// Every member of a team with chat role bindings has a chat id.
pub fn validate_discord_team_members_have_discord_ids(data: &Data, errors: &mut Vec<String>)
    ensures
        views(final(errors)@) == views(old(errors)@) + check_discord_ids(*data),
{
    let ghost base = views(errors@);
    let ghost f = discord_msgs_fn(*data);
    let n = data.teams.len();
    let mut i: usize = 0;
    proof {
        lemma_step_zero(base, data.teams@, f);
    }
    while i != n
        invariant
            i <= n,
            n == data.teams@.len(),
            base == views(old(errors)@),
            f == discord_msgs_fn(*data),
            views(errors@) == base + cat(data.teams@.take(i as int).map_values(f)),
        decreases n - i,
    {
        let team = &data.teams[i];
        proof {
            lemma_step_emit(base, data.teams@, f, i as int, views(errors@));
        }
        let bound = team.discord.len() > 0 && !string_eq_text(&team.name, "all");
        if bound {
            match data.effective_members(team) {
                Result::Err(e) => {
                    wrapper(Result::Err(e), errors);
                },
                Result::Ok(ms) => {
                    let ghost g = lacks_discord_fn(*data);
                    let mut missing: Vec<String> = Vec::new();
                    let mn = ms.len();
                    let mut j: usize = 0;
                    proof {
                        assert(views(ms@).take(0).map_values(g) =~= Seq::<Seq<Seq<char>>>::empty());
                        assert(views(missing@) =~= cat(views(ms@).take(0).map_values(g)));
                    }
                    while j != mn
                        invariant
                            j <= mn,
                            mn == ms@.len(),
                            g == lacks_discord_fn(*data),
                            views(missing@) == cat(views(ms@).take(j as int).map_values(g)),
                        decreases mn - j,
                    {
                        let member = &ms[j];
                        proof {
                            crate::seqtools::lemma_cat_map_take_step(views(ms@), g, j as int);
                            assert(views(ms@)[j as int] == member@);
                        }
                        let mut lacks = true;
                        match data.person(member.as_str()) {
                            Option::Some(p) => {
                                if p.discord_id.is_some() {
                                    lacks = false;
                                }
                            },
                            Option::None => {},
                        }
                        if lacks {
                            let ghost pre = missing@;
                            let h = member.clone();
                            missing.push(h);
                            proof {
                                lemma_views_push(pre, missing@.last());
                                assert(views(missing@) =~= views(pre) + seq![member@]);
                            }
                        } else {
                            proof {
                                assert(views(missing@) + Seq::<Seq<char>>::empty() =~= views(
                                    missing@,
                                ));
                            }
                        }
                        j = j + 1;
                    }
                    proof {
                        lemma_take_all(views(ms@));
                    }
                    let outcome: Result<(), String> = if missing.len() > 0 {
                        let joined = join_strings(&missing, ", ");
                        Result::Err(
                            cat4(
                                "the following members of the \"",
                                team.name.as_str(),
                                "\" team do not have discord_ids: ",
                                joined.as_str(),
                            ),
                        )
                    } else {
                        Result::Ok(())
                    };
                    wrapper(outcome, errors);
                },
            }
        } else {
            proof {
                assert(views(errors@) + f(data.teams@[i as int]) =~= views(errors@));
            }
        }
        i = i + 1;
    }
    proof {
        lemma_take_all(data.teams@);
    }
}

} // verus!
