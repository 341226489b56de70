//! Checks on permission grants: nobody holds a permission both directly
//! and through a team, and every granted permission name is one the
//! configuration offers.
use crate::collect::lemma_step_emit;
use crate::collect::lemma_step_zero;
use crate::collect::wrapper;
use crate::data::effective_members_spec;
use crate::data::find_person;
use crate::data::Data;
use crate::data::Person;
use crate::data::Team;
use crate::messages::cat3;
use crate::messages::cat4;
use crate::messages::cat7;
use crate::messages::holder_team;
use crate::messages::holder_user;
use crate::messages::msg_duplicate_permission;
use crate::messages::msg_unknown_permission;
use crate::seqtools::cat;
use crate::seqtools::find_first;
use crate::seqtools::lemma_find_first_at;
use crate::seqtools::lemma_find_first_none;
use crate::seqtools::lemma_take_all;
use crate::seqtools::views;
use crate::text::contains_view;
use vstd::prelude::*;

verus! {

/// What the duplication check says of one available permission for one
/// member of one team.
pub open spec fn dup_perm_fn(team: Team, member: Seq<char>, p: Person) -> spec_fn(Seq<char>) -> Seq<
    Seq<char>,
> {
    |perm: Seq<char>|
        if views(team.permissions@).contains(perm) && views(p.permissions@).contains(perm) {
            seq![msg_duplicate_permission(member, perm, team.name@)]
        } else {
            Seq::empty()
        }
}

/// What the duplication check says of one effective member: one message
/// per available permission the member holds both ways.
pub open spec fn member_dup_fn(data: Data, team: Team) -> spec_fn(Seq<char>) -> Seq<Seq<char>> {
    |member: Seq<char>|
        match find_person(data, member) {
            Option::None => Seq::empty(),
            Option::Some(p) => cat(
                views(data.config.available_permissions@).map_values(dup_perm_fn(team, member, p)),
            ),
        }
}

/// What the duplication check says of one team.
pub open spec fn team_dup_msgs(data: Data, t: Team) -> Seq<Seq<char>> {
    match effective_members_spec(data, t) {
        Result::Err(e) => seq![e],
        Result::Ok(ms) => cat(ms.map_values(member_dup_fn(data, t))),
    }
}

pub open spec fn team_dup_msgs_fn(data: Data) -> spec_fn(Team) -> Seq<Seq<char>> {
    |t: Team| team_dup_msgs(data, t)
}

/// Everything the duplication check reports, team by team: one message
/// for every (member, permission, team) triple granted both ways.
pub open spec fn check_duplicate_permissions(data: Data) -> Seq<Seq<char>> {
    cat(data.teams@.map_values(team_dup_msgs_fn(data)))
}

/// No member of a team with a permission also holds it directly.
pub fn validate_duplicate_permissions(data: &Data, errors: &mut Vec<String>)
    ensures
        views(final(errors)@) == views(old(errors)@) + check_duplicate_permissions(*data),
{
    let ghost base = views(errors@);
    let ghost f = team_dup_msgs_fn(*data);
    let n = data.teams.len();
    let mut i: usize = 0;
    proof {
        lemma_step_zero(base, data.teams@, f);
    }
    while i != n
        invariant
            i <= n,
            n == data.teams@.len(),
            base == views(old(errors)@),
            f == team_dup_msgs_fn(*data),
            views(errors@) == base + cat(data.teams@.take(i as int).map_values(f)),
        decreases n - i,
    {
        let team = &data.teams[i];
        proof {
            lemma_step_emit(base, data.teams@, f, i as int, views(errors@));
        }
        match data.effective_members(team) {
            Result::Err(e) => {
                wrapper(Result::Err(e), errors);
            },
            Result::Ok(ms) => {
                let ghost base2 = views(errors@);
                let ghost g = member_dup_fn(*data, *team);
                let mn = ms.len();
                let mut j: usize = 0;
                proof {
                    lemma_step_zero(base2, views(ms@), g);
                }
                while j != mn
                    invariant
                        j <= mn,
                        mn == ms@.len(),
                        g == member_dup_fn(*data, *team),
                        team == data.teams@[i as int],
                        views(errors@) == base2 + cat(views(ms@).take(j as int).map_values(g)),
                    decreases mn - j,
                {
                    let member = &ms[j];
                    proof {
                        lemma_step_emit(base2, views(ms@), g, j as int, views(errors@));
                        assert(views(ms@)[j as int] == member@);
                    }
                    match data.person(member.as_str()) {
                        Option::None => {
                            proof {
                                assert(views(errors@) + g(views(ms@)[j as int]) =~= views(
                                    errors@,
                                ));
                            }
                        },
                        Option::Some(p) => {
                            let ghost base3 = views(errors@);
                            let ghost h = dup_perm_fn(*team, member@, *p);
                            let avail = &data.config.available_permissions;
                            let an = avail.len();
                            let mut k: usize = 0;
                            proof {
                                lemma_step_zero(base3, views(avail@), h);
                            }
                            while k != an
                                invariant
                                    k <= an,
                                    an == avail@.len(),
                                    avail == data.config.available_permissions,
                                    h == dup_perm_fn(*team, member@, *p),
                                    views(errors@) == base3 + cat(
                                        views(avail@).take(k as int).map_values(h),
                                    ),
                                decreases an - k,
                            {
                                let perm = &avail[k];
                                proof {
                                    lemma_step_emit(
                                        base3,
                                        views(avail@),
                                        h,
                                        k as int,
                                        views(errors@),
                                    );
                                    assert(views(avail@)[k as int] == perm@);
                                }
                                let both = contains_view(&team.permissions, perm)
                                    && contains_view(&p.permissions, perm);
                                let outcome: Result<(), String> = if both {
                                    Result::Err(
                                        cat7(
                                            "user `",
                                            member.as_str(),
                                            "` has the permission `",
                                            perm.as_str(),
                                            "` both explicitly and through the `",
                                            team.name.as_str(),
                                            "` team",
                                        ),
                                    )
                                } else {
                                    Result::Ok(())
                                };
                                wrapper(outcome, errors);
                                k = k + 1;
                            }
                            proof {
                                lemma_take_all(views(avail@));
                            }
                        },
                    }
                    j = j + 1;
                }
                proof {
                    lemma_take_all(views(ms@));
                }
            },
        }
        i = i + 1;
    }
    proof {
        lemma_take_all(data.teams@);
    }
}

/// Matches a permission name the configuration does not offer.
pub open spec fn unknown_perm_pred(avail: Seq<Seq<char>>) -> spec_fn(Seq<char>) -> bool {
    |p: Seq<char>| !avail.contains(p)
}

/// What the validity check says of one permission set: the first unknown
/// name, if any, attributed to the holder.
pub open spec fn perm_set_msg(
    avail: Seq<Seq<char>>,
    perms: Seq<Seq<char>>,
    holder: Seq<char>,
) -> Seq<Seq<char>> {
    match find_first(perms, unknown_perm_pred(avail)) {
        Option::Some(p) => seq![msg_unknown_permission(p, holder)],
        Option::None => Seq::empty(),
    }
}

/// What the validity check says of one team: its own grants first, then
/// the grants its leads receive.
pub open spec fn team_perm_msgs(data: Data, t: Team) -> Seq<Seq<char>> {
    let avail = views(data.config.available_permissions@);
    match find_first(views(t.permissions@), unknown_perm_pred(avail)) {
        Option::Some(p) => seq![msg_unknown_permission(p, holder_team(t.name@))],
        Option::None => perm_set_msg(avail, views(t.leads_permissions@), holder_team(t.name@)),
    }
}

pub open spec fn team_perm_msgs_fn(data: Data) -> spec_fn(Team) -> Seq<Seq<char>> {
    |t: Team| team_perm_msgs(data, t)
}

/// What the validity check says of one person.
pub open spec fn person_perm_msgs(data: Data, p: Person) -> Seq<Seq<char>> {
    perm_set_msg(
        views(data.config.available_permissions@),
        views(p.permissions@),
        holder_user(p.github@),
    )
}

pub open spec fn person_perm_msgs_fn(data: Data) -> spec_fn(Person) -> Seq<Seq<char>> {
    |p: Person| person_perm_msgs(data, p)
}

/// Everything the validity check reports: teams first, then people.
pub open spec fn check_permissions(data: Data) -> Seq<Seq<char>> {
    cat(data.teams@.map_values(team_perm_msgs_fn(data))) + cat(
        data.people@.map_values(person_perm_msgs_fn(data)),
    )
}

fn first_unknown_permission(avail: &Vec<String>, perms: &Vec<String>, holder: &String) -> (r:
    Result<(), String>)
    ensures
        (match r {
            Result::Ok(u) => find_first(views(perms@), unknown_perm_pred(views(avail@))) is None,
            Result::Err(m) => find_first(views(perms@), unknown_perm_pred(views(avail@))) is Some
                && m@ == msg_unknown_permission(
                find_first(views(perms@), unknown_perm_pred(views(avail@)))->0,
                holder@,
            ),
        }),
{
    let ghost pred = unknown_perm_pred(views(avail@));
    let n = perms.len();
    let mut i: usize = 0;
    loop
        invariant
            i <= n,
            n == perms@.len(),
            pred == unknown_perm_pred(views(avail@)),
            forall|q: int| 0 <= q < i ==> !(#[trigger] pred(views(perms@)[q])),
        decreases n - i,
    {
        if i == n {
            proof {
                lemma_find_first_none(views(perms@), pred);
            }
            return Result::Ok(());
        }
        let perm = &perms[i];
        proof {
            assert(views(perms@)[i as int] == perm@);
        }
        if !contains_view(avail, perm) {
            proof {
                lemma_find_first_at(views(perms@), pred, i as int);
            }
            return Result::Err(
                cat4("unknown permission `", perm.as_str(), "` for ", holder.as_str()),
            );
        }
        i = i + 1;
    }
}

/// Every granted permission, on teams, their leads, and people, is one
/// the configuration offers.
pub fn validate_permissions(data: &Data, errors: &mut Vec<String>)
    ensures
        views(final(errors)@) == views(old(errors)@) + check_permissions(*data),
{
    let ghost base = views(errors@);
    let ghost f = team_perm_msgs_fn(*data);
    let avail = &data.config.available_permissions;
    let n = data.teams.len();
    let mut i: usize = 0;
    proof {
        lemma_step_zero(base, data.teams@, f);
    }
    while i != n
        invariant
            i <= n,
            n == data.teams@.len(),
            base == views(old(errors)@),
            f == team_perm_msgs_fn(*data),
            avail == data.config.available_permissions,
            views(errors@) == base + cat(data.teams@.take(i as int).map_values(f)),
        decreases n - i,
    {
        let team = &data.teams[i];
        proof {
            lemma_step_emit(base, data.teams@, f, i as int, views(errors@));
        }
        let holder = cat3("team `", team.name.as_str(), "`");
        let outcome = match first_unknown_permission(avail, &team.permissions, &holder) {
            Result::Ok(u) => first_unknown_permission(avail, &team.leads_permissions, &holder),
            Result::Err(m) => Result::Err(m),
        };
        wrapper(outcome, errors);
        i = i + 1;
    }
    proof {
        lemma_take_all(data.teams@);
    }
    let ghost base2 = views(errors@);
    let ghost g = person_perm_msgs_fn(*data);
    let pn = data.people.len();
    let mut pi: usize = 0;
    proof {
        lemma_step_zero(base2, data.people@, g);
    }
    while pi != pn
        invariant
            pi <= pn,
            pn == data.people@.len(),
            base2 == views(old(errors)@) + cat(data.teams@.map_values(team_perm_msgs_fn(*data))),
            g == person_perm_msgs_fn(*data),
            avail == data.config.available_permissions,
            views(errors@) == base2 + cat(data.people@.take(pi as int).map_values(g)),
        decreases pn - pi,
    {
        let person = &data.people[pi];
        proof {
            lemma_step_emit(base2, data.people@, g, pi as int, views(errors@));
        }
        let holder = cat3("user `", person.github.as_str(), "`");
        let outcome = first_unknown_permission(avail, &person.permissions, &holder);
        wrapper(outcome, errors);
        pi = pi + 1;
    }
    proof {
        lemma_take_all(data.people@);
        assert(views(errors@) =~= views(old(errors)@) + check_permissions(*data));
    }
}

} // verus!
