//! The library's stated laws, proved once and for all inputs: what the
//! hierarchy walk reports for self-cycles and nesting, that alumni still
//! active are reported, that double-granted permissions are reported, how
//! chat-group members resolve, and that the canonical report is free of
//! duplicates. Order-independence of the report is
//! `crate::order::lemma_normalize_set_equal`.
use crate::data::active_members_spec;
use crate::data::effective_members_spec;
use crate::data::find_person;
use crate::data::find_team;
use crate::data::Data;
use crate::data::Team;
use crate::data::TeamKind;
use crate::data::ZulipMemberView;
use crate::directory::member_missing;
use crate::hierarchy::subteam_msgs;
use crate::hierarchy::subteam_walk;
use crate::membership::active_alumni_fn;
use crate::membership::check_alumni;
use crate::messages::id_label;
use crate::messages::msg_alumni_active;
use crate::messages::msg_duplicate_permission;
use crate::messages::msg_subteam_cycle;
use crate::messages::msg_subteam_too_deep;
use crate::order::lemma_normalize_props;
use crate::order::normalize;
use crate::permissions::check_duplicate_permissions;
use crate::permissions::dup_perm_fn;
use crate::permissions::member_dup_fn;
use crate::permissions::team_dup_msgs_fn;
use crate::seqtools::cat;
use crate::seqtools::lemma_add_contains;
use crate::seqtools::lemma_cat_contains_iff;
use crate::seqtools::views;
use vstd::prelude::*;

verus! {

/// A team that names itself as its own parent is reported with the full
/// cycle path, which is the team's own name twice.
pub proof fn lemma_self_cycle_reported(data: Data, t: Team)
    requires
        t.subteam_of is Some,
        t.subteam_of->0@ == t.name@,
    ensures
        subteam_msgs(data, t) == seq![
            msg_subteam_cycle(t.name@, t.name@),
        ],
{
    let visited2 = Seq::<Seq<char>>::empty().push(t.name@);
    assert(visited2[0] == t.name@);
    assert(visited2.contains(t.name@));
    assert(crate::seqtools::join_with(visited2, " => "@) == t.name@);
}

/// A two-team parent cycle is reported against the team the walk started
/// from, with the full cycle path.
pub proof fn lemma_two_step_cycle_reported(data: Data, t: Team)
    requires
        data.teams@.len() > 0,
        t.kind == TeamKind::Team,
        t.subteam_of is Some,
        t.subteam_of->0@ != t.name@,
        find_team(data, t.subteam_of->0@) is Some,
        find_team(data, t.subteam_of->0@)->0.subteam_of is Some,
        find_team(data, t.subteam_of->0@)->0.subteam_of->0@ == t.name@,
    ensures
        subteam_msgs(data, t) == seq![
            msg_subteam_cycle(
                t.name@,
                t.name@ + " => "@ + find_team(data, t.subteam_of->0@)->0.name@,
            ),
        ],
{
    let parent = t.subteam_of->0@;
    let p = find_team(data, parent)->0;
    let visited1 = Seq::<Seq<char>>::empty().push(t.name@);
    assert(!visited1.contains(parent)) by {
        if visited1.contains(parent) {
            let k = choose|k: int| 0 <= k < visited1.len() && visited1[k] == parent;
            assert(visited1[0] == t.name@);
        }
    }
    let fuel = data.teams@.len() as nat;
    assert(fuel >= 1);
    let visited2 = visited1.push(p.name@);
    assert(visited2[0] == t.name@);
    assert(visited2.contains(t.name@));
    assert(subteam_msgs(data, t) == subteam_walk(data, p, visited1, (fuel - 1) as nat));
    assert(crate::seqtools::join_with(visited2, " => "@) == t.name@ + " => "@ + p.name@) by {
        assert(visited2.len() == 2);
        assert(visited2.drop_last() =~= visited1);
        assert(visited2.last() == p.name@);
        assert(visited1.len() == 1);
        assert(visited1[0] == t.name@);
        assert(crate::seqtools::join_with(visited1, " => "@) == t.name@);
        assert(crate::seqtools::join_with(visited2, " => "@) == crate::seqtools::join_with(
            visited1,
            " => "@,
        ) + " => "@ + p.name@);
    }
}

/// The hierarchy walk reports at most one violation for one team.
pub proof fn lemma_walk_reports_at_most_one(
    data: Data,
    t: Team,
    visited: Seq<Seq<char>>,
    fuel: nat,
)
    ensures
        subteam_walk(data, t, visited, fuel).len() <= 1,
    decreases fuel,
{
    if t.subteam_of is Some {
        let parent = t.subteam_of->0@;
        let visited2 = visited.push(t.name@);
        if !visited2.contains(parent) {
            match find_team(data, parent) {
                Option::Some(p) => {
                    if !(t.kind != TeamKind::Team && p.subteam_of is Some) && fuel > 0 {
                        lemma_walk_reports_at_most_one(data, p, visited2, (fuel - 1) as nat);
                    }
                },
                Option::None => {},
            }
        }
    }
}

/// A project group whose parent is itself a subteam is always reported for
/// nesting.
pub proof fn lemma_nested_project_group_reported(data: Data, t: Team)
    requires
        t.kind == TeamKind::ProjectGroup,
        t.subteam_of is Some,
        t.subteam_of->0@ != t.name@,
        find_team(data, t.subteam_of->0@) is Some,
        find_team(data, t.subteam_of->0@)->0.subteam_of is Some,
    ensures
        subteam_msgs(data, t) == seq![
            msg_subteam_too_deep(
                TeamKind::ProjectGroup,
                t.name@,
                find_team(data, t.subteam_of->0@)->0.name@,
            ),
        ],
{
    let parent = t.subteam_of->0@;
    let visited2 = Seq::<Seq<char>>::empty().push(t.name@);
    assert(!visited2.contains(parent)) by {
        if visited2.contains(parent) {
            let k = choose|k: int| 0 <= k < visited2.len() && visited2[k] == parent;
            assert(visited2[0] == t.name@);
        }
    }
}

/// A project group hanging under a top-level team is never reported for
/// nesting, nor for anything else by the hierarchy walk.
pub proof fn lemma_top_level_parent_fine(data: Data, t: Team)
    requires
        t.kind == TeamKind::ProjectGroup,
        t.subteam_of is Some,
        t.subteam_of->0@ != t.name@,
        find_team(data, t.subteam_of->0@) is Some,
        find_team(data, t.subteam_of->0@)->0.subteam_of is None,
    ensures
        subteam_msgs(data, t) == Seq::<Seq<char>>::empty(),
{
    let parent = t.subteam_of->0@;
    let p = find_team(data, parent)->0;
    let visited2 = Seq::<Seq<char>>::empty().push(t.name@);
    assert(!visited2.contains(parent)) by {
        if visited2.contains(parent) {
            let k = choose|k: int| 0 <= k < visited2.len() && visited2[k] == parent;
            assert(visited2[0] == t.name@);
        }
    }
    let fuel = data.teams@.len() as nat;
    if fuel > 0 {
        assert(subteam_walk(data, p, visited2, (fuel - 1) as nat) == Seq::<Seq<char>>::empty())
            by {
            assert(p.subteam_of is None);
        }
    }
}

/// An effective member of the alumni team who is still an active member of
/// some other team is reported, and the canonical report holds that
/// message exactly once.
pub proof fn lemma_alumni_disjointness(data: Data, member: Seq<char>)
    requires
        active_members_spec(data) is Ok,
        find_team(data, "alumni"@) is Some,
        effective_members_spec(data, find_team(data, "alumni"@)->0) is Ok,
        effective_members_spec(data, find_team(data, "alumni"@)->0)->Ok_0.contains(member),
        active_members_spec(data)->Ok_0.contains(member),
    ensures
        check_alumni(data).contains(msg_alumni_active(member)),
        normalize(check_alumni(data)).contains(msg_alumni_active(member)),
        normalize(check_alumni(data)).no_duplicates(),
{
    let active = active_members_spec(data)->Ok_0;
    let at = find_team(data, "alumni"@)->0;
    let ms = effective_members_spec(data, at)->Ok_0;
    let f = active_alumni_fn(active);
    let mapped = ms.map_values(f);
    let j = choose|j: int| 0 <= j < ms.len() && ms[j] == member;
    assert(mapped[j] == f(member));
    assert(f(member) == seq![msg_alumni_active(member)]);
    assert(mapped[j].contains(msg_alumni_active(member))) by {
        assert(f(member)[0] == msg_alumni_active(member));
    }
    lemma_cat_contains_iff(mapped, msg_alumni_active(member));
    let dup_part = crate::membership::alumni_dup_teams(
        data.teams@,
        crate::seqtools::dedup_first(crate::data::explicit_handles(at)),
    );
    lemma_add_contains(cat(mapped), dup_part, msg_alumni_active(member));
    lemma_normalize_props(check_alumni(data));
}

/// A permission granted to a team and also held directly by one of its
/// effective members is reported for that (member, permission, team)
/// triple, and the canonical report holds the message exactly once.
pub proof fn lemma_duplicate_permission_reported(
    data: Data,
    t: Team,
    member: Seq<char>,
    perm: Seq<char>,
)
    requires
        data.teams@.contains(t),
        effective_members_spec(data, t) is Ok,
        effective_members_spec(data, t)->Ok_0.contains(member),
        find_person(data, member) is Some,
        views(data.config.available_permissions@).contains(perm),
        views(t.permissions@).contains(perm),
        views(find_person(data, member)->0.permissions@).contains(perm),
    ensures
        check_duplicate_permissions(data).contains(
            msg_duplicate_permission(member, perm, t.name@),
        ),
        normalize(check_duplicate_permissions(data)).contains(
            msg_duplicate_permission(member, perm, t.name@),
        ),
        normalize(check_duplicate_permissions(data)).no_duplicates(),
{
    let msg = msg_duplicate_permission(member, perm, t.name@);
    let ms = effective_members_spec(data, t)->Ok_0;
    let p = find_person(data, member)->0;
    let avail = views(data.config.available_permissions@);
    let h = dup_perm_fn(t, member, p);
    let k = choose|k: int| 0 <= k < avail.len() && avail[k] == perm;
    assert(avail.map_values(h)[k] == h(perm));
    assert(h(perm) == seq![msg]);
    assert(avail.map_values(h)[k].contains(msg)) by {
        assert(h(perm)[0] == msg);
    }
    lemma_cat_contains_iff(avail.map_values(h), msg);
    let g = member_dup_fn(data, t);
    let j = choose|j: int| 0 <= j < ms.len() && ms[j] == member;
    assert(ms.map_values(g)[j] == g(member));
    assert(g(member) == cat(avail.map_values(h)));
    lemma_cat_contains_iff(ms.map_values(g), msg);
    let f = team_dup_msgs_fn(data);
    let i = choose|i: int| 0 <= i < data.teams@.len() && data.teams@[i] == t;
    assert(data.teams@.map_values(f)[i] == f(t));
    assert(f(t) == cat(ms.map_values(g)));
    lemma_cat_contains_iff(data.teams@.map_values(f), msg);
    lemma_normalize_props(check_duplicate_permissions(data));
}

/// How one chat-group member resolves against the directory's known ids:
/// a member encoded as a bare handle is always missing; a member carrying
/// an id, with or without a handle, is missing exactly when the directory
/// does not know the id.
pub proof fn lemma_chat_member_resolution(m: ZulipMemberView, ids: Seq<usize>)
    ensures
        (match m {
            ZulipMemberView::WithoutId { github } => member_missing(m, ids) == seq![github],
            ZulipMemberView::WithId { github, zulip_id } => member_missing(m, ids) == (
            if ids.contains(zulip_id) {
                Seq::<Seq<char>>::empty()
            } else {
                seq![github]
            }),
            ZulipMemberView::JustId(id) => member_missing(m, ids) == (
            if ids.contains(id) {
                Seq::<Seq<char>>::empty()
            } else {
                seq![id_label(id as int)]
            }),
        }),
{
}

} // verus!
