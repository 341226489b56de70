//! The violation messages, one spec function per message kind, and small
//! verified builders that concatenate message pieces.
use crate::data::TeamKind;
use crate::text::dec_rep;
use vstd::prelude::*;
use vstd::string::StringExecFns;

verus! {

/// How a team kind is written in a message.
pub open spec fn kind_label(k: TeamKind) -> Seq<char> {
    match k {
        TeamKind::Team => "team"@,
        TeamKind::WorkingGroup => "working group"@,
        TeamKind::ProjectGroup => "project group"@,
        TeamKind::MarkerTeam => "marker team"@,
        TeamKind::Unknown => "unknown"@,
    }
}

pub fn kind_label_text(k: &TeamKind) -> (r: &'static str)
    ensures
        r@ == kind_label(*k),
{
    match k {
        TeamKind::Team => "team",
        TeamKind::WorkingGroup => "working group",
        TeamKind::ProjectGroup => "project group",
        TeamKind::MarkerTeam => "marker team",
        TeamKind::Unknown => "unknown",
    }
}

pub fn cat2(p0: &str, p1: &str) -> (r: String)
    ensures
        r@ == p0@ + p1@,
{
    let mut m = String::from_str(p0);
    m.append(p1);
    m
}

pub fn cat3(p0: &str, p1: &str, p2: &str) -> (r: String)
    ensures
        r@ == p0@ + p1@ + p2@,
{
    let mut m = String::from_str(p0);
    m.append(p1);
    m.append(p2);
    m
}

pub fn cat4(p0: &str, p1: &str, p2: &str, p3: &str) -> (r: String)
    ensures
        r@ == p0@ + p1@ + p2@ + p3@,
{
    let mut m = String::from_str(p0);
    m.append(p1);
    m.append(p2);
    m.append(p3);
    m
}

pub fn cat5(p0: &str, p1: &str, p2: &str, p3: &str, p4: &str) -> (r: String)
    ensures
        r@ == p0@ + p1@ + p2@ + p3@ + p4@,
{
    let mut m = String::from_str(p0);
    m.append(p1);
    m.append(p2);
    m.append(p3);
    m.append(p4);
    m
}

pub fn cat6(p0: &str, p1: &str, p2: &str, p3: &str, p4: &str, p5: &str) -> (r: String)
    ensures
        r@ == p0@ + p1@ + p2@ + p3@ + p4@ + p5@,
{
    let mut m = String::from_str(p0);
    m.append(p1);
    m.append(p2);
    m.append(p3);
    m.append(p4);
    m.append(p5);
    m
}

pub fn cat7(p0: &str, p1: &str, p2: &str, p3: &str, p4: &str, p5: &str, p6: &str) -> (r: String)
    ensures
        r@ == p0@ + p1@ + p2@ + p3@ + p4@ + p5@ + p6@,
{
    let mut m = String::from_str(p0);
    m.append(p1);
    m.append(p2);
    m.append(p3);
    m.append(p4);
    m.append(p5);
    m.append(p6);
    m
}

pub fn cat8(
    p0: &str,
    p1: &str,
    p2: &str,
    p3: &str,
    p4: &str,
    p5: &str,
    p6: &str,
    p7: &str,
) -> (r: String)
    ensures
        r@ == p0@ + p1@ + p2@ + p3@ + p4@ + p5@ + p6@ + p7@,
{
    let mut m = String::from_str(p0);
    m.append(p1);
    m.append(p2);
    m.append(p3);
    m.append(p4);
    m.append(p5);
    m.append(p6);
    m.append(p7);
    m
}

pub fn cat9(
    p0: &str,
    p1: &str,
    p2: &str,
    p3: &str,
    p4: &str,
    p5: &str,
    p6: &str,
    p7: &str,
    p8: &str,
) -> (r: String)
    ensures
        r@ == p0@ + p1@ + p2@ + p3@ + p4@ + p5@ + p6@ + p7@ + p8@,
{
    let mut m = String::from_str(p0);
    m.append(p1);
    m.append(p2);
    m.append(p3);
    m.append(p4);
    m.append(p5);
    m.append(p6);
    m.append(p7);
    m.append(p8);
    m
}

/// A team of the given kind misses its naming prefix.
pub open spec fn msg_prefix_missing(k: TeamKind, name: Seq<char>, prefix: Seq<char>) -> Seq<char> {
    kind_label(k) + " `"@ + name + "`'s name doesn't start with `"@ + prefix + "`"@
}

/// A team of another kind carries the prefix of this kind.
pub open spec fn msg_prefix_misleading(
    k: TeamKind,
    name: Seq<char>,
    expected: TeamKind,
    prefix: Seq<char>,
) -> Seq<char> {
    kind_label(k) + " `"@ + name + "` seems like a "@ + kind_label(expected)
        + " (since it has the `"@ + prefix + "` prefix)"@
}

/// A parent chain comes back to a team already walked.
pub open spec fn msg_subteam_cycle(parent: Seq<char>, path: Seq<char>) -> Seq<char> {
    "team `"@ + parent + "` is a subteam of itself: "@ + path + " => "@ + parent
}

/// A parent name resolves to no team.
pub open spec fn msg_parent_missing(name: Seq<char>, parent: Seq<char>) -> Seq<char> {
    "the parent of team `"@ + name + "` doesn't exist: `"@ + parent + "`"@
}

/// A non-top-level team hangs under a team that itself has a parent.
pub open spec fn msg_subteam_too_deep(k: TeamKind, name: Seq<char>, parent: Seq<char>) -> Seq<
    char,
> {
    kind_label(k) + " `"@ + name + "` can't be a subteam of a subteam (`"@ + parent + "`)"@
}

/// A declared lead is not a member of the team led.
pub open spec fn msg_lead_not_member(lead: Seq<char>, team: Seq<char>) -> Seq<char> {
    "`"@ + lead + "` leads team `"@ + team + "`, but is not a member of it"@
}

/// A member handle resolves to no person.
pub open spec fn msg_member_not_person(member: Seq<char>, team: Seq<char>) -> Seq<char> {
    "person `"@ + member + "` is member of team `"@ + team + "` but doesn't exist"@
}

/// A github id in a team's code-host mapping resolves to no person.
pub open spec fn msg_member_id_unresolved(team: Seq<char>, id: int) -> Seq<char> {
    "team `"@ + team + "` references github id `"@ + dec_rep(id)
        + "` that isn't the id of any person"@
}

/// The alumni team holds someone still active.
pub open spec fn msg_alumni_active(member: Seq<char>) -> Seq<char> {
    "alumni team includes active member '"@ + member + "'"@
}

/// The alumni team names someone already alumni of another team.
pub open spec fn msg_alumni_duplicated(member: Seq<char>, team: Seq<char>) -> Seq<char> {
    "alumni team explicitly includes member '"@ + member
        + "' who was specified as an alumni already in '"@ + team + "'"@
}

/// A person is referenced nowhere and holds nothing.
pub open spec fn msg_orphan(person: Seq<char>) -> Seq<char> {
    "person `"@ + person
        + "` is not a member of any team (active or archived), has no permissions, and is not an individual contributor to any repo"@
}

/// A mailing-list member has no email address.
pub open spec fn msg_no_email(github: Seq<char>) -> Seq<char> {
    "person `"@ + github + "` is a member of a mailing list but has no email address"@
}

/// An extra person named on a list does not exist.
pub open spec fn msg_list_person_missing(person: Seq<char>, address: Seq<char>) -> Seq<char> {
    "person `"@ + person + "` does not exist (in list `"@ + address + "`)"@
}

/// An extra team named on a list does not exist.
pub open spec fn msg_list_team_missing(team: Seq<char>, address: Seq<char>) -> Seq<char> {
    "team `"@ + team + "` does not exist (in list `"@ + address + "`)"@
}

/// A list address sits on a domain that is not ours.
pub open spec fn msg_list_bad_domain(address: Seq<char>) -> Seq<char> {
    "list address on a domain we don't own: `"@ + address + "`"@
}

/// A list address is not an address at all.
pub open spec fn msg_list_bad_address(address: Seq<char>) -> Seq<char> {
    "invalid list address: `"@ + address + "`"@
}

/// A person's email address is malformed.
pub open spec fn msg_bad_email(github: Seq<char>, email: Seq<char>) -> Seq<char> {
    "invalid email address of `"@ + github + "`: "@ + email
}

/// A permission is held both directly and through a team.
pub open spec fn msg_duplicate_permission(
    member: Seq<char>,
    permission: Seq<char>,
    team: Seq<char>,
) -> Seq<char> {
    "user `"@ + member + "` has the permission `"@ + permission
        + "` both explicitly and through the `"@ + team + "` team"@
}

/// A granted permission is not one the configuration offers.
pub open spec fn msg_unknown_permission(permission: Seq<char>, holder: Seq<char>) -> Seq<char> {
    "unknown permission `"@ + permission + "` for "@ + holder
}

/// Names a team as a permission holder.
pub open spec fn holder_team(team: Seq<char>) -> Seq<char> {
    "team `"@ + team + "`"@
}

/// Names a person as a permission holder.
pub open spec fn holder_user(github: Seq<char>) -> Seq<char> {
    "user `"@ + github + "`"@
}

/// Two teams define the same rfcbot label.
pub open spec fn msg_duplicate_label(label: Seq<char>) -> Seq<char> {
    "duplicate rfcbot label: "@ + label
}

/// The same member twice in one exclude list.
pub open spec fn msg_duplicate_exclude(team: Seq<char>, member: Seq<char>) -> Seq<char> {
    "duplicate member in `"@ + team + "` rfcbot.exclude-members: "@ + member
}

/// An excluded member is not a member at all.
pub open spec fn msg_exclude_not_member(member: Seq<char>, team: Seq<char>) -> Seq<char> {
    "person `"@ + member + "` is not a member of team `"@ + team
        + "` (in rfcbot.exclude-members)"@
}

/// A team name with characters beyond letters, digits and dashes.
pub open spec fn msg_bad_team_name(name: Seq<char>) -> Seq<char> {
    "team name `"@ + name + "` can only be alphanumeric with dashes"@
}

/// A code-host organization that is not on the allow-list.
pub open spec fn msg_org_not_allowed(org: Seq<char>, team: Seq<char>) -> Seq<char> {
    "GitHub organization `"@ + org + "` isn't allowed (in team `"@ + team + "`)"@
}

/// The same code-host team mapped from two teams.
pub open spec fn msg_github_team_reused(
    org: Seq<char>,
    name: Seq<char>,
    team: Seq<char>,
    other: Seq<char>,
) -> Seq<char> {
    "GitHub team `"@ + org + "/"@ + name + "` is defined for both the `"@ + team + "` and `"@
        + other + "` teams"@
}

/// The directory knows the person's id under another username.
pub open spec fn msg_username_changed(original: Seq<char>, current: Seq<char>) -> Seq<char> {
    "user `"@ + original + "` changed username to `"@ + current + "`"@
}

/// The username query itself failed.
pub open spec fn msg_usernames_unverified(cause: Seq<char>) -> Seq<char> {
    "couldn't verify GitHub usernames: "@ + cause
}

/// A chat stream recorded as a link instead of a name.
pub open spec fn msg_stream_is_link(team: Seq<char>) -> Seq<char> {
    "the zulip stream name of the team `"@ + team + "` is a link: only the name is required"@
}

/// A project group without a parent team.
pub open spec fn msg_project_group_no_parent(team: Seq<char>) -> Seq<char> {
    "the project group `"@ + team + "` doesn't have a parent team, but it's required to have one"@
}

/// Members of a team with chat roles who have no chat id.
pub open spec fn msg_discord_ids_missing(team: Seq<char>, members: Seq<char>) -> Seq<char> {
    "the following members of the \""@ + team + "\" team do not have discord_ids: "@ + members
}

/// The chat user listing itself failed.
pub open spec fn msg_zulip_users_unverified(cause: Seq<char>) -> Seq<char> {
    "couldn't verify Zulip users: "@ + cause
}

/// The chat groups could not all be resolved.
pub open spec fn msg_zulip_groups_unresolved(cause: Seq<char>) -> Seq<char> {
    "couldn't get all the Zulip groups: "@ + cause
}

/// Group members the chat directory does not know.
pub open spec fn msg_zulip_members_missing(group: Seq<char>, members: Seq<char>) -> Seq<char> {
    "the \""@ + group + "\" Zulip group includes members who don't appear on Zulip: "@ + members
}

/// A member of a team with a chat group who has no chat id.
pub open spec fn msg_zulip_id_missing(github: Seq<char>, team: Seq<char>) -> Seq<char> {
    "person `"@ + github + "` in '"@ + team
        + "' is a member of a Zulip user group but has no Zulip id"@
}

/// An extra person in a chat group who does not exist.
pub open spec fn msg_zulip_person_missing(person: Seq<char>, group: Seq<char>) -> Seq<char> {
    "person `"@ + person + "` does not exist (in Zulip group `"@ + group + "`)"@
}

/// The label a group member without a known id is reported under.
pub open spec fn id_label(id: int) -> Seq<char> {
    "ID: "@ + dec_rep(id)
}

/// A repository in an organization that is not on the allow-list.
pub open spec fn msg_repo_bad_org(name: Seq<char>, org: Seq<char>) -> Seq<char> {
    "The repo '"@ + name + "' is in an invalid org '"@ + org + "'"@
}

/// A repository grants access to an unknown code-host team.
pub open spec fn msg_repo_team_unknown(org: Seq<char>, name: Seq<char>, team: Seq<char>) -> Seq<
    char,
> {
    "access for "@ + org + "/"@ + name + " is invalid: '"@ + team
        + "' is not configured as a GitHub team for the '"@ + org + "' org"@
}

/// A repository grants access to an unknown person.
pub open spec fn msg_repo_person_unknown(org: Seq<char>, name: Seq<char>, person: Seq<char>) -> Seq<
    char,
> {
    "access for "@ + org + "/"@ + name + " is invalid: '"@ + person
        + "' is not the name of a person in the team repo"@
}

/// The run's aggregate failure line.
pub open spec fn msg_error_count(n: int) -> Seq<char> {
    dec_rep(n) + " validation errors found"@
}

} // verus!
