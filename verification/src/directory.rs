//! Checks against the two external directories, and the chat-group checks
//! on the data model itself: recorded handles still match the code-host
//! directory, chat-group members are known to the chat directory, members
//! of teams with chat groups have chat ids, and extra people on chat
//! groups exist.
use crate::collect::lemma_step_emit;
use crate::collect::lemma_step_zero;
use crate::collect::wrapper;
use crate::data::all_zulip_groups;
use crate::data::effective_members_spec;
use crate::data::find_person;
use crate::data::find_person_by_id;
use crate::data::Data;
use crate::data::GitHubDirectory;
use crate::data::IdUsername;
use crate::data::Team;
use crate::data::ZulipDirectory;
use crate::data::ZulipGroupDef;
use crate::data::ZulipMemberView;
use crate::messages::cat2;
use crate::messages::cat4;
use crate::messages::cat5;
use crate::messages::id_label;
use crate::messages::msg_username_changed;
use crate::messages::msg_usernames_unverified;
use crate::messages::msg_zulip_groups_unresolved;
use crate::messages::msg_zulip_id_missing;
use crate::messages::msg_zulip_members_missing;
use crate::messages::msg_zulip_person_missing;
use crate::messages::msg_zulip_users_unverified;
use crate::seqtools::cat;
use crate::seqtools::dedup_first;
use crate::seqtools::find_first;
use crate::seqtools::join_with;
use crate::seqtools::lemma_dedup_first_push;
use crate::seqtools::lemma_find_first_at;
use crate::seqtools::lemma_find_first_none;
use crate::seqtools::lemma_take_all;
use crate::seqtools::lemma_views_push;
use crate::seqtools::views;
use crate::text::contains_usize;
use crate::text::contains_view;
use crate::text::join_strings;
use crate::text::usize_to_string;
use vstd::prelude::*;

verus! {

/// What the username check says of one directory row: the recorded person
/// with that id, if any, must still carry the recorded handle.
pub open spec fn username_fn(data: Data) -> spec_fn(IdUsername) -> Seq<Seq<char>> {
    |row: IdUsername|
        match find_person_by_id(data, row.github_id) {
            Option::Some(p) => if p.github@ != row.username@ {
                seq![msg_username_changed(p.github@, row.username@)]
            } else {
                Seq::empty()
            },
            Option::None => Seq::empty(),
        }
}

/// Everything the username check reports for one directory answer.
pub open spec fn usernames_msgs(data: Data, res: Result<Vec<IdUsername>, String>) -> Seq<
    Seq<char>,
> {
    match res {
        Result::Ok(rows) => cat(rows@.map_values(username_fn(data))),
        Result::Err(e) => seq![msg_usernames_unverified(e@)],
    }
}

/// What the username check reports for the directory's whole side of a
/// run: nothing when it was unavailable, since the check is then skipped.
pub open spec fn check_github_usernames(data: Data, d: GitHubDirectory) -> Seq<Seq<char>> {
    match d {
        GitHubDirectory::Unavailable { cause } => Seq::empty(),
        GitHubDirectory::Available { usernames } => usernames_msgs(data, usernames),
    }
}

/// Every recorded person still carries the handle the code-host directory
/// knows their id under.
pub fn validate_github_usernames(data: &Data, github: &GitHubDirectory, errors: &mut Vec<String>)
    ensures
        views(final(errors)@) == views(old(errors)@) + check_github_usernames(*data, *github),
{
    let ghost base = views(errors@);
    match github {
        GitHubDirectory::Unavailable { cause } => {
            proof {
                assert(base + check_github_usernames(*data, *github) =~= base);
            }
        },
        GitHubDirectory::Available { usernames } => {
            match usernames {
                Result::Err(e) => {
                    let m = cat2("couldn't verify GitHub usernames: ", e.as_str());
                    wrapper(Result::Err(m), errors);
                },
                Result::Ok(rows) => {
                    let ghost f = username_fn(*data);
                    let n = rows.len();
                    let mut i: usize = 0;
                    proof {
                        lemma_step_zero(base, rows@, f);
                    }
                    while i != n
                        invariant
                            i <= n,
                            n == rows@.len(),
                            base == views(old(errors)@),
                            f == username_fn(*data),
                            views(errors@) == base + cat(rows@.take(i as int).map_values(f)),
                        decreases n - i,
                    {
                        let row = &rows[i];
                        proof {
                            lemma_step_emit(base, rows@, f, i as int, views(errors@));
                        }
                        let outcome: Result<(), String> = match data.person_by_id(row.github_id) {
                            Option::Some(p) => {
                                if !(p.github == row.username) {
                                    Result::Err(
                                        cat5(
                                            "user `",
                                            p.github.as_str(),
                                            "` changed username to `",
                                            row.username.as_str(),
                                            "`",
                                        ),
                                    )
                                } else {
                                    Result::Ok(())
                                }
                            },
                            Option::None => Result::Ok(()),
                        };
                        wrapper(outcome, errors);
                        i = i + 1;
                    }
                    proof {
                        lemma_take_all(rows@);
                    }
                },
            }
        },
    }
}

/// What the chat-membership check says of one group member against the
/// directory's known ids: a handle without an id is always missing; an
/// id-bearing member is missing exactly when its id is unknown.
pub open spec fn member_missing(m: ZulipMemberView, ids: Seq<usize>) -> Seq<Seq<char>> {
    match m {
        ZulipMemberView::WithId { github, zulip_id } => if !ids.contains(zulip_id) {
            seq![github]
        } else {
            Seq::empty()
        },
        ZulipMemberView::JustId(id) => if !ids.contains(id) {
            seq![id_label(id as int)]
        } else {
            Seq::empty()
        },
        ZulipMemberView::WithoutId { github } => seq![github],
    }
}

pub open spec fn member_missing_fn(ids: Seq<usize>) -> spec_fn(ZulipMemberView) -> Seq<Seq<char>> {
    |m: ZulipMemberView| member_missing(m, ids)
}

/// The missing members of one group, first occurrence of each name kept.
pub open spec fn group_missing(members: Seq<ZulipMemberView>, ids: Seq<usize>) -> Seq<Seq<char>> {
    dedup_first(cat(members.map_values(member_missing_fn(ids))))
}

/// What the chat-membership check says of one resolved group.
pub open spec fn group_missing_fn(ids: Seq<usize>) -> spec_fn((Seq<char>, Seq<ZulipMemberView>)) -> Seq<
    Seq<char>,
> {
    |g: (Seq<char>, Seq<ZulipMemberView>)|
        {
            let miss = group_missing(g.1, ids);
            if miss.len() == 0 {
                Seq::empty()
            } else {
                seq![msg_zulip_members_missing(g.0, join_with(miss, ", "@))]
            }
        }
}

/// Everything the chat-membership check reports for the directory's whole
/// side of a run.
pub open spec fn check_zulip_users(data: Data, d: ZulipDirectory) -> Seq<Seq<char>> {
    match d {
        ZulipDirectory::Unavailable { cause } => Seq::empty(),
        ZulipDirectory::Available { users } => match users {
            Result::Err(e) => seq![msg_zulip_users_unverified(e@)],
            Result::Ok(ids) => match all_zulip_groups(data) {
                Result::Err(e) => seq![msg_zulip_groups_unresolved(e)],
                Result::Ok(groups) => cat(groups.map_values(group_missing_fn(ids@))),
            },
        },
    }
}

/// Every chat-group member appears on the chat platform: members encoded
/// as a bare handle are always reported, id-bearing members exactly when
/// the directory does not know the id.
pub fn validate_zulip_users(data: &Data, zulip: &ZulipDirectory, errors: &mut Vec<String>)
    ensures
        views(final(errors)@) == views(old(errors)@) + check_zulip_users(*data, *zulip),
{
    let ghost base = views(errors@);
    match zulip {
        ZulipDirectory::Unavailable { cause } => {
            proof {
                assert(base + check_zulip_users(*data, *zulip) =~= base);
            }
        },
        ZulipDirectory::Available { users } => {
            match users {
                Result::Err(e) => {
                    let m = cat2("couldn't verify Zulip users: ", e.as_str());
                    wrapper(Result::Err(m), errors);
                },
                Result::Ok(ids) => {
                    match data.zulip_groups() {
                        Result::Err(e) => {
                            let m = cat2("couldn't get all the Zulip groups: ", e.as_str());
                            wrapper(Result::Err(m), errors);
                        },
                        Result::Ok(groups) => {
                            let ghost gviews = groups@.map_values(
                                crate::data::group_view_fn(),
                            );
                            let ghost f = group_missing_fn(ids@);
                            let n = groups.len();
                            let mut i: usize = 0;
                            proof {
                                lemma_step_zero(base, gviews, f);
                            }
                            while i != n
                                invariant
                                    i <= n,
                                    n == groups@.len(),
                                    gviews == groups@.map_values(crate::data::group_view_fn()),
                                    gviews.len() == n,
                                    base == views(old(errors)@),
                                    f == group_missing_fn(ids@),
                                    views(errors@) == base + cat(
                                        gviews.take(i as int).map_values(f),
                                    ),
                                decreases n - i,
                            {
                                let group = &groups[i];
                                proof {
                                    lemma_step_emit(base, gviews, f, i as int, views(errors@));
                                    assert(gviews[i as int] == crate::data::group_view(*group));
                                }
                                let ghost mviews = group.members@.map_values(
                                    crate::data::zulip_member_view_fn(),
                                );
                                let ghost g = member_missing_fn(ids@);
                                let mut missing: Vec<String> = Vec::new();
                                let mn = group.members.len();
                                let mut j: usize = 0;
                                proof {
                                    assert(mviews.take(0).map_values(g) =~= Seq::<
                                        Seq<Seq<char>>,
                                    >::empty());
                                    assert(views(missing@) =~= dedup_first(
                                        cat(mviews.take(0).map_values(g)),
                                    ));
                                }
                                while j != mn
                                    invariant
                                        j <= mn,
                                        mn == group.members@.len(),
                                        i < n,
                                        n == groups@.len(),
                                        group == groups@[i as int],
                                        mviews == group.members@.map_values(
                                            crate::data::zulip_member_view_fn(),
                                        ),
                                        g == member_missing_fn(ids@),
                                        views(missing@) == dedup_first(
                                            cat(mviews.take(j as int).map_values(g)),
                                        ),
                                    decreases mn - j,
                                {
                                    proof {
                                        crate::seqtools::lemma_cat_map_take_step(
                                            mviews,
                                            g,
                                            j as int,
                                        );
                                        assert(mviews[j as int] == crate::data::zulip_member_view(
                                            group.members@[j as int],
                                        ));
                                    }
                                    let entry: Option<String> = match &group.members[j] {
                                        crate::data::ZulipGroupMember::MemberWithId {
                                            github,
                                            zulip_id,
                                        } => {
                                            if !contains_usize(ids, *zulip_id) {
                                                Option::Some(github.clone())
                                            } else {
                                                Option::None
                                            }
                                        },
                                        crate::data::ZulipGroupMember::JustId(id) => {
                                            if !contains_usize(ids, *id) {
                                                let idtext = usize_to_string(*id);
                                                Option::Some(cat2("ID: ", idtext.as_str()))
                                            } else {
                                                Option::None
                                            }
                                        },
                                        crate::data::ZulipGroupMember::MemberWithoutId {
                                            github,
                                        } => Option::Some(github.clone()),
                                    };
                                    let ghost emitted = g(mviews[j as int]);
                                    match entry {
                                        Option::Some(name) => {
                                            proof {
                                                assert(emitted =~= seq![name@]);
                                                lemma_dedup_first_push(
                                                    cat(mviews.take(j as int).map_values(g)),
                                                    name@,
                                                );
                                                assert(cat(mviews.take(j + 1).map_values(g))
                                                    =~= cat(
                                                    mviews.take(j as int).map_values(g),
                                                ).push(name@));
                                            }
                                            let absent = !contains_view(&missing, &name);
                                            if absent {
                                                let ghost pre = missing@;
                                                missing.push(name);
                                                proof {
                                                    lemma_views_push(pre, missing@.last());
                                                }
                                            } else {
                                                proof {
                                                    crate::seqtools::lemma_dedup_first_contains(
                                                        cat(mviews.take(j as int).map_values(g)),
                                                        name@,
                                                    );
                                                }
                                            }
                                        },
                                        Option::None => {
                                            proof {
                                                assert(emitted =~= Seq::<Seq<char>>::empty());
                                                assert(cat(mviews.take(j + 1).map_values(g))
                                                    =~= cat(mviews.take(j as int).map_values(g)));
                                            }
                                        },
                                    }
                                    j = j + 1;
                                }
                                proof {
                                    lemma_take_all(mviews);
                                }
                                let outcome: Result<(), String> = if missing.len() > 0 {
                                    let joined = join_strings(&missing, ", ");
                                    Result::Err(
                                        cat4(
                                            "the \"",
                                            group.name.as_str(),
                                            "\" Zulip group includes members who don't appear on Zulip: ",
                                            joined.as_str(),
                                        ),
                                    )
                                } else {
                                    Result::Ok(())
                                };
                                wrapper(outcome, errors);
                                i = i + 1;
                            }
                            proof {
                                lemma_take_all(gviews);
                            }
                        },
                    }
                },
            }
        },
    }
}

/// What the chat-id check says of one effective member.
pub open spec fn no_zulip_id_fn(data: Data, team: Seq<char>) -> spec_fn(Seq<char>) -> Seq<
    Seq<char>,
> {
    |m: Seq<char>|
        match find_person(data, m) {
            Option::Some(p) => if p.zulip_id is None {
                seq![msg_zulip_id_missing(m, team)]
            } else {
                Seq::empty()
            },
            Option::None => Seq::empty(),
        }
}

/// Whether any of the team's declared groups carries the team members.
pub open spec fn some_group_includes_members(gs: Seq<ZulipGroupDef>) -> bool {
    exists|k: int| 0 <= k < gs.len() && (#[trigger] gs[k]).includes_team_members
}

/// What the chat-id check says of one team.
pub open spec fn zulip_ids_msgs(data: Data, t: Team) -> Seq<Seq<char>> {
    if !some_group_includes_members(t.zulip_groups@) {
        Seq::empty()
    } else {
        match effective_members_spec(data, t) {
            Result::Err(e) => seq![e],
            Result::Ok(ms) => cat(ms.map_values(no_zulip_id_fn(data, t.name@))),
        }
    }
}

pub open spec fn zulip_ids_msgs_fn(data: Data) -> spec_fn(Team) -> Seq<Seq<char>> {
    |t: Team| zulip_ids_msgs(data, t)
}

/// Everything the chat-id check reports, team by team.
pub open spec fn check_zulip_group_ids(data: Data) -> Seq<Seq<char>> {
    cat(data.teams@.map_values(zulip_ids_msgs_fn(data)))
}

fn any_group_includes_members(gs: &Vec<ZulipGroupDef>) -> (r: bool)
    ensures
        r == some_group_includes_members(gs@),
{
    let n = gs.len();
    let mut i: usize = 0;
    loop
        invariant
            i <= n,
            n == gs@.len(),
            forall|k: int| 0 <= k < i ==> !(#[trigger] gs@[k]).includes_team_members,
        decreases n - i,
    {
        if i == n {
            return false;
        }
        if gs[i].includes_team_members {
            return true;
        }
        i = i + 1;
    }
}

/// Every member of a team whose chat groups carry the membership has a
/// chat id.
pub fn validate_zulip_group_ids(data: &Data, errors: &mut Vec<String>)
    ensures
        views(final(errors)@) == views(old(errors)@) + check_zulip_group_ids(*data),
{
    let ghost base = views(errors@);
    let ghost f = zulip_ids_msgs_fn(*data);
    let n = data.teams.len();
    let mut i: usize = 0;
    proof {
        lemma_step_zero(base, data.teams@, f);
    }
    while i != n
        invariant
            i <= n,
            n == data.teams@.len(),
            base == views(old(errors)@),
            f == zulip_ids_msgs_fn(*data),
            views(errors@) == base + cat(data.teams@.take(i as int).map_values(f)),
        decreases n - i,
    {
        let team = &data.teams[i];
        proof {
            lemma_step_emit(base, data.teams@, f, i as int, views(errors@));
        }
        let relevant = any_group_includes_members(&team.zulip_groups);
        if !relevant {
            proof {
                assert(views(errors@) + f(data.teams@[i as int]) =~= views(errors@));
            }
        } else {
            match data.effective_members(team) {
                Result::Err(e) => {
                    wrapper(Result::Err(e), errors);
                },
                Result::Ok(ms) => {
                    let ghost base2 = views(errors@);
                    let ghost g = no_zulip_id_fn(*data, team.name@);
                    let mn = ms.len();
                    let mut j: usize = 0;
                    proof {
                        lemma_step_zero(base2, views(ms@), g);
                    }
                    while j != mn
                        invariant
                            j <= mn,
                            mn == ms@.len(),
                            g == no_zulip_id_fn(*data, team.name@),
                            views(errors@) == base2 + cat(
                                views(ms@).take(j as int).map_values(g),
                            ),
                        decreases mn - j,
                    {
                        let member = &ms[j];
                        proof {
                            lemma_step_emit(base2, views(ms@), g, j as int, views(errors@));
                            assert(views(ms@)[j as int] == member@);
                        }
                        let mut lacking = false;
                        match data.person(member.as_str()) {
                            Option::Some(p) => {
                                if p.zulip_id.is_none() {
                                    lacking = true;
                                }
                            },
                            Option::None => {},
                        }
                        let outcome: Result<(), String> = if lacking {
                            Result::Err(
                                cat5(
                                    "person `",
                                    member.as_str(),
                                    "` in '",
                                    team.name.as_str(),
                                    "' is a member of a Zulip user group but has no Zulip id",
                                ),
                            )
                        } else {
                            Result::Ok(())
                        };
                        wrapper(outcome, errors);
                        j = j + 1;
                    }
                    proof {
                        lemma_take_all(views(ms@));
                    }
                },
            }
        }
        i = i + 1;
    }
    proof {
        lemma_take_all(data.teams@);
    }
}

/// What the extra-people check says of one declared group: the first
/// extra person that does not exist, if any.
pub open spec fn zulip_extra_people_msgs_fn(data: Data) -> spec_fn(ZulipGroupDef) -> Seq<
    Seq<char>,
> {
    |g: ZulipGroupDef|
        match find_first(views(g.extra_people@), crate::lists::missing_person_pred(data)) {
            Option::Some(p) => seq![msg_zulip_person_missing(p, g.name@)],
            Option::None => Seq::empty(),
        }
}

/// What the extra-people check says of one team.
pub open spec fn team_zulip_extra_msgs(data: Data, t: Team) -> Seq<Seq<char>> {
    cat(t.zulip_groups@.map_values(zulip_extra_people_msgs_fn(data)))
}

pub open spec fn team_zulip_extra_msgs_fn(data: Data) -> spec_fn(Team) -> Seq<Seq<char>> {
    |t: Team| team_zulip_extra_msgs(data, t)
}

/// Everything the extra-people check reports.
pub open spec fn check_zulip_group_extra_people(data: Data) -> Seq<Seq<char>> {
    cat(data.teams@.map_values(team_zulip_extra_msgs_fn(data)))
}

fn first_missing_group_person(data: &Data, g: &ZulipGroupDef) -> (outcome: Result<(), String>)
    ensures
        (match outcome {
            Result::Ok(u) => find_first(
                views(g.extra_people@),
                crate::lists::missing_person_pred(*data),
            ) is None,
            Result::Err(m) => find_first(
                views(g.extra_people@),
                crate::lists::missing_person_pred(*data),
            ) is Some && m@ == msg_zulip_person_missing(
                find_first(views(g.extra_people@), crate::lists::missing_person_pred(*data))->0,
                g.name@,
            ),
        }),
{
    let ghost pred = crate::lists::missing_person_pred(*data);
    let pn = g.extra_people.len();
    let mut pi: usize = 0;
    loop
        invariant
            pi <= pn,
            pn == g.extra_people@.len(),
            pred == crate::lists::missing_person_pred(*data),
            forall|q: int| 0 <= q < pi ==> !(#[trigger] pred(views(g.extra_people@)[q])),
        decreases pn - pi,
    {
        if pi == pn {
            proof {
                lemma_find_first_none(views(g.extra_people@), pred);
            }
            return Result::Ok(());
        }
        let person = &g.extra_people[pi];
        proof {
            assert(views(g.extra_people@)[pi as int] == person@);
        }
        match data.person(person.as_str()) {
            Option::None => {
                proof {
                    lemma_find_first_at(views(g.extra_people@), pred, pi as int);
                }
                return Result::Err(
                    cat5(
                        "person `",
                        person.as_str(),
                        "` does not exist (in Zulip group `",
                        g.name.as_str(),
                        "`)",
                    ),
                );
            },
            Option::Some(p) => {},
        }
        pi = pi + 1;
    }
}

/// Every extra person on a declared chat group exists.
pub fn validate_zulip_group_extra_people(data: &Data, errors: &mut Vec<String>)
    ensures
        views(final(errors)@) == views(old(errors)@) + check_zulip_group_extra_people(*data),
{
    let ghost base = views(errors@);
    let ghost f = team_zulip_extra_msgs_fn(*data);
    let n = data.teams.len();
    let mut i: usize = 0;
    proof {
        lemma_step_zero(base, data.teams@, f);
    }
    while i != n
        invariant
            i <= n,
            n == data.teams@.len(),
            base == views(old(errors)@),
            f == team_zulip_extra_msgs_fn(*data),
            views(errors@) == base + cat(data.teams@.take(i as int).map_values(f)),
        decreases n - i,
    {
        let team = &data.teams[i];
        proof {
            lemma_step_emit(base, data.teams@, f, i as int, views(errors@));
        }
        let ghost base2 = views(errors@);
        let ghost g = zulip_extra_people_msgs_fn(*data);
        let gn = team.zulip_groups.len();
        let mut gi: usize = 0;
        proof {
            lemma_step_zero(base2, team.zulip_groups@, g);
        }
        while gi != gn
            invariant
                gi <= gn,
                gn == team.zulip_groups@.len(),
                g == zulip_extra_people_msgs_fn(*data),
                views(errors@) == base2 + cat(team.zulip_groups@.take(gi as int).map_values(g)),
            decreases gn - gi,
        {
            let group = &team.zulip_groups[gi];
            proof {
                lemma_step_emit(base2, team.zulip_groups@, g, gi as int, views(errors@));
            }
            let outcome = first_missing_group_person(data, group);
            wrapper(outcome, errors);
            gi = gi + 1;
        }
        proof {
            lemma_take_all(team.zulip_groups@);
        }
        i = i + 1;
    }
    proof {
        lemma_take_all(data.teams@);
    }
}

} // verus!
