//! The data model a validation run reads: teams, people, repositories,
//! mailing lists, chat groups and permission grants, with the derived
//! queries the checks need (lookups, effective membership, the active
//! member set, the code-host team mappings, resolved chat groups).
//!
//! Everything here is plain data, built by the caller before a run and
//! only read by the checks.
use crate::messages::msg_member_id_unresolved;
use crate::seqtools::cat;
use crate::seqtools::dedup_first;
use crate::seqtools::find_first;
use crate::seqtools::lemma_cat_contains_iff;
use crate::seqtools::lemma_cat_map_take_step;
use crate::seqtools::lemma_dedup_first_push;
use crate::seqtools::lemma_find_first_at;
use crate::seqtools::lemma_find_first_none;
use crate::seqtools::lemma_take_all;
use crate::seqtools::views;
use crate::text::contains_view;
use crate::text::string_eq_text;
use crate::text::usize_to_string;
use crate::messages::cat5;
use vstd::prelude::*;

verus! {

/// What a team is for: a top-level team, or one of the subordinate group
/// kinds.
#[derive(Clone, Copy, Debug, PartialEq, Eq, Structural)]
pub enum TeamKind {
    Team,
    WorkingGroup,
    ProjectGroup,
    MarkerTeam,
    Unknown,
}

/// An explicit member entry of a team.
#[derive(Clone, Debug)]
pub struct TeamMember {
    pub name: String,
    pub github: String,
    pub github_id: usize,
    pub is_lead: bool,
}

/// A code-host team a team maps to, with the member ids the code host
/// derives membership from.
#[derive(Clone, Debug)]
pub struct GitHubTeam {
    pub org: String,
    pub name: String,
    pub members: Vec<usize>,
}

/// A team's code-host mappings.
#[derive(Clone, Debug)]
pub struct TeamGitHub {
    pub teams: Vec<GitHubTeam>,
}

/// An invite link for a chat channel.
#[derive(Clone, Debug)]
pub struct DiscordInvite {
    pub channel: String,
    pub url: String,
}

/// Published-site metadata of a team.
#[derive(Clone, Debug)]
pub struct TeamWebsite {
    pub name: String,
    pub description: String,
    pub page: String,
    pub email: Option<String>,
    pub repo: Option<String>,
    pub discord: Option<DiscordInvite>,
    pub zulip_stream: Option<String>,
    pub weight: i64,
}

/// A chat-platform role binding of a team.
#[derive(Clone, Debug)]
pub struct TeamDiscord {
    pub name: String,
    pub members: Vec<usize>,
    pub color: Option<String>,
}

/// A mailing list bound to a team, with the extra people and teams it
/// names beyond the team's own members.
#[derive(Clone, Debug)]
pub struct List {
    pub address: String,
    pub extra_people: Vec<String>,
    pub extra_teams: Vec<String>,
}

/// A team's bot-integration configuration: the label it reacts to and the
/// members excluded from pings.
#[derive(Clone, Debug)]
pub struct RfcbotTeam {
    pub label: String,
    pub exclude_members: Vec<String>,
}

/// A chat user group declared on a team, before resolution.
#[derive(Clone, Debug)]
pub struct ZulipGroupDef {
    pub name: String,
    pub includes_team_members: bool,
    pub extra_people: Vec<String>,
    pub extra_ids: Vec<usize>,
}

/// One member of a resolved chat group, in one of the three legacy
/// encodings: handle with a known chat id, bare chat id, or handle
/// without a known chat id.
#[derive(Clone, Debug)]
pub enum ZulipGroupMember {
    MemberWithId { github: String, zulip_id: usize },
    JustId(usize),
    MemberWithoutId { github: String },
}

/// A resolved chat user group.
#[derive(Clone, Debug)]
pub struct ZulipGroup {
    pub name: String,
    pub members: Vec<ZulipGroupMember>,
}

/// A team of the organization.
#[derive(Clone, Debug)]
pub struct Team {
    pub name: String,
    pub kind: TeamKind,
    pub subteam_of: Option<String>,
    pub members: Vec<TeamMember>,
    pub leads: Vec<String>,
    pub alumni: Vec<TeamMember>,
    pub github: Option<TeamGitHub>,
    pub website_data: Option<TeamWebsite>,
    pub discord: Vec<TeamDiscord>,
    pub lists: Vec<List>,
    pub zulip_groups: Vec<ZulipGroupDef>,
    pub permissions: Vec<String>,
    pub leads_permissions: Vec<String>,
    pub rfcbot: Option<RfcbotTeam>,
}

/// A person, keyed by their code-host handle.
#[derive(Clone, Debug)]
pub struct Person {
    pub name: String,
    pub github: String,
    pub github_id: usize,
    pub email: Option<String>,
    pub zulip_id: Option<usize>,
    pub discord_id: Option<usize>,
    pub permissions: Vec<String>,
}

/// The access level a repository grants.
#[derive(Clone, Copy, Debug, PartialEq, Eq, Structural)]
pub enum RepoPermission {
    Write,
    Admin,
    Maintain,
    Triage,
}

/// A team-level access grant on a repository.
#[derive(Clone, Debug)]
pub struct RepoTeam {
    pub name: String,
    pub permission: RepoPermission,
}

/// A person-level access grant on a repository.
#[derive(Clone, Debug)]
pub struct RepoMember {
    pub name: String,
    pub permission: RepoPermission,
}

/// A bot installed on a repository.
#[derive(Clone, Copy, Debug, PartialEq, Eq, Structural)]
pub enum Bot {
    Bors,
    Highfive,
    Rustbot,
    RustTimer,
    Rfcbot,
}

/// A branch-protection rule of a repository.
#[derive(Clone, Debug)]
pub struct BranchProtection {
    pub pattern: String,
    pub ci_checks: Vec<String>,
    pub dismiss_stale_review: bool,
}

/// A repository under the organization's control.
#[derive(Clone, Debug)]
pub struct Repo {
    pub org: String,
    pub name: String,
    pub description: String,
    pub bots: Vec<Bot>,
    pub teams: Vec<RepoTeam>,
    pub members: Vec<RepoMember>,
    pub branch_protections: Vec<BranchProtection>,
}

/// A named capability with its full holder set, as published.
#[derive(Clone, Debug)]
pub struct Permission {
    pub github_users: Vec<String>,
    pub github_ids: Vec<usize>,
    pub discord_ids: Vec<usize>,
}

/// The configured allow-lists and the available permission names.
#[derive(Clone, Debug)]
pub struct Config {
    pub allowed_github_orgs: Vec<String>,
    pub allowed_mailing_lists_domains: Vec<String>,
    pub available_permissions: Vec<String>,
}

/// The whole materialized graph a validation run reads.
#[derive(Clone, Debug)]
pub struct Data {
    pub teams: Vec<Team>,
    pub archived_teams: Vec<Team>,
    pub people: Vec<Person>,
    pub repos: Vec<Repo>,
    pub config: Config,
}

/// One row of the code-host directory's answer to the usernames query.
#[derive(Clone, Debug)]
pub struct IdUsername {
    pub github_id: usize,
    pub username: String,
}

/// The code-host directory's side of a run: either it could not be
/// reached at all, or the outcome of the usernames query.
#[derive(Debug)]
pub enum GitHubDirectory {
    Unavailable { cause: String },
    Available { usernames: Result<Vec<IdUsername>, String> },
}

/// The chat-platform directory's side of a run: either it could not be
/// reached, or the outcome of listing every known user id.
#[derive(Debug)]
pub enum ZulipDirectory {
    Unavailable { cause: String },
    Available { users: Result<Vec<usize>, String> },
}

/// A team's name.
pub open spec fn team_name_fn() -> spec_fn(Team) -> Seq<char> {
    |t: Team| t.name@
}

/// Matches a team by name.
pub open spec fn team_named(name: Seq<char>) -> spec_fn(Team) -> bool {
    |t: Team| t.name@ == name
}

/// The first active team with the given name.
pub open spec fn find_team(data: Data, name: Seq<char>) -> Option<Team> {
    find_first(data.teams@, team_named(name))
}

/// Matches a person by handle.
pub open spec fn person_named(github: Seq<char>) -> spec_fn(Person) -> bool {
    |p: Person| p.github@ == github
}

/// The first person with the given handle.
pub open spec fn find_person(data: Data, github: Seq<char>) -> Option<Person> {
    find_first(data.people@, person_named(github))
}

/// Matches a person by code-host id.
pub open spec fn person_with_id(id: usize) -> spec_fn(Person) -> bool {
    |p: Person| p.github_id == id
}

/// The first person with the given code-host id.
pub open spec fn find_person_by_id(data: Data, id: usize) -> Option<Person> {
    find_first(data.people@, person_with_id(id))
}

/// The handle of an explicit member entry.
pub open spec fn member_github_fn() -> spec_fn(TeamMember) -> Seq<char> {
    |m: TeamMember| m.github@
}

/// The handles a team names explicitly.
pub open spec fn explicit_handles(t: Team) -> Seq<Seq<char>> {
    t.members@.map_values(member_github_fn())
}

/// The member ids of one code-host team mapping.
pub open spec fn gh_members_fn() -> spec_fn(GitHubTeam) -> Seq<usize> {
    |g: GitHubTeam| g.members@
}

/// Every member id the team's code-host mappings carry, in order.
pub open spec fn member_ids(t: Team) -> Seq<usize> {
    if t.github is Some {
        cat(t.github->0.teams@.map_values(gh_members_fn()))
    } else {
        Seq::empty()
    }
}

/// Turns code-host member ids into handles; fails on the first id that is
/// nobody's.
pub open spec fn resolve_ids(people: Seq<Person>, ids: Seq<usize>) -> Result<
    Seq<Seq<char>>,
    usize,
>
    decreases ids.len(),
{
    if ids.len() == 0 {
        Result::Ok(Seq::empty())
    } else {
        match resolve_ids(people, ids.drop_last()) {
            Result::Ok(hs) => match find_first(people, person_with_id(ids.last())) {
                Option::Some(p) => Result::Ok(hs.push(p.github@)),
                Option::None => Result::Err(ids.last()),
            },
            Result::Err(id) => Result::Err(id),
        }
    }
}

proof fn lemma_resolve_ids_push(people: Seq<Person>, ids: Seq<usize>, x: usize)
    ensures
        resolve_ids(people, ids.push(x)) == (match resolve_ids(people, ids) {
            Result::Ok(hs) => match find_first(people, person_with_id(x)) {
                Option::Some(p) => Result::<Seq<Seq<char>>, usize>::Ok(hs.push(p.github@)),
                Option::None => Result::<Seq<Seq<char>>, usize>::Err(x),
            },
            Result::Err(id) => Result::<Seq<Seq<char>>, usize>::Err(id),
        }),
{
    assert(ids.push(x).drop_last() =~= ids);
    assert(ids.push(x).last() == x);
}

/// A failure on a prefix of the ids is the failure of the whole list.
proof fn lemma_resolve_ids_err_prefix(people: Seq<Person>, ids: Seq<usize>, m: int)
    requires
        0 <= m <= ids.len(),
        resolve_ids(people, ids.take(m)) is Err,
    ensures
        resolve_ids(people, ids) == resolve_ids(people, ids.take(m)),
    decreases ids.len() - m,
{
    if m < ids.len() {
        assert(ids.take(m + 1).drop_last() =~= ids.take(m));
        assert(resolve_ids(people, ids.take(m + 1)) == resolve_ids(people, ids.take(m)));
        lemma_resolve_ids_err_prefix(people, ids, m + 1);
    } else {
        assert(ids.take(m) =~= ids);
    }
}

/// A team's effective membership: the explicit handles merged with the
/// handles its code-host mappings derive, first occurrence of each handle
/// kept. Resolution fails on the first code-host id that matches no
/// person.
pub open spec fn effective_members_spec(data: Data, t: Team) -> Result<Seq<Seq<char>>, Seq<char>> {
    match resolve_ids(data.people@, member_ids(t)) {
        Result::Ok(derived) => Result::Ok(dedup_first(explicit_handles(t) + derived)),
        Result::Err(id) => Result::Err(msg_member_id_unresolved(t.name@, id as int)),
    }
}

/// Every handle that is an effective member of some active team other
/// than the distinguished alumni team; the first resolution failure, in
/// team order, fails the query.
pub open spec fn active_members_rec(data: Data, teams: Seq<Team>) -> Result<
    Seq<Seq<char>>,
    Seq<char>,
>
    decreases teams.len(),
{
    if teams.len() == 0 {
        Result::Ok(Seq::empty())
    } else {
        match active_members_rec(data, teams.drop_last()) {
            Result::Ok(acc) => {
                if teams.last().name@ == "alumni"@ {
                    Result::Ok(acc)
                } else {
                    match effective_members_spec(data, teams.last()) {
                        Result::Ok(ms) => Result::Ok(acc + ms),
                        Result::Err(e) => Result::Err(e),
                    }
                }
            },
            Result::Err(e) => Result::Err(e),
        }
    }
}

pub open spec fn active_members_spec(data: Data) -> Result<Seq<Seq<char>>, Seq<char>> {
    active_members_rec(data, data.teams@)
}

proof fn lemma_active_members_rec_push(data: Data, teams: Seq<Team>, t: Team)
    ensures
        active_members_rec(data, teams.push(t)) == (match active_members_rec(data, teams) {
            Result::Ok(acc) => {
                if t.name@ == "alumni"@ {
                    Result::<Seq<Seq<char>>, Seq<char>>::Ok(acc)
                } else {
                    match effective_members_spec(data, t) {
                        Result::Ok(ms) => Result::<Seq<Seq<char>>, Seq<char>>::Ok(acc + ms),
                        Result::Err(e) => Result::<Seq<Seq<char>>, Seq<char>>::Err(e),
                    }
                }
            },
            Result::Err(e) => Result::<Seq<Seq<char>>, Seq<char>>::Err(e),
        }),
{
    assert(teams.push(t).drop_last() =~= teams);
    assert(teams.push(t).last() == t);
}

proof fn lemma_active_members_rec_err_prefix(data: Data, teams: Seq<Team>, m: int)
    requires
        0 <= m <= teams.len(),
        active_members_rec(data, teams.take(m)) is Err,
    ensures
        active_members_rec(data, teams) == active_members_rec(data, teams.take(m)),
    decreases teams.len() - m,
{
    if m < teams.len() {
        assert(teams.take(m + 1).drop_last() =~= teams.take(m));
        assert(active_members_rec(data, teams.take(m + 1)) == active_members_rec(
            data,
            teams.take(m),
        ));
        lemma_active_members_rec_err_prefix(data, teams, m + 1);
    } else {
        assert(teams.take(m) =~= teams);
    }
}

impl Data {
    /// Looks an active team up by name.
    pub fn team(&self, name: &str) -> (r: Option<&Team>)
        ensures
            match r {
                Option::Some(t) => find_team(*self, name@) == Option::Some(*t),
                Option::None => find_team(*self, name@) is None,
            },
    {
        let n = self.teams.len();
        let mut i: usize = 0;
        while i != n
            invariant
                i <= n,
                n == self.teams@.len(),
                forall|j: int| 0 <= j < i ==> !(#[trigger] team_named(name@)(self.teams@[j])),
            decreases n - i,
        {
            if string_eq_text(&self.teams[i].name, name) {
                proof {
                    assert(team_named(name@)(self.teams@[i as int]));
                    lemma_find_first_at(self.teams@, team_named(name@), i as int);
                }
                return Option::Some(&self.teams[i]);
            }
            proof {
                assert(!team_named(name@)(self.teams@[i as int]));
            }
            i = i + 1;
        }
        proof {
            lemma_find_first_none(self.teams@, team_named(name@));
        }
        Option::None
    }

    /// Looks a person up by handle.
    pub fn person(&self, github: &str) -> (r: Option<&Person>)
        ensures
            match r {
                Option::Some(p) => find_person(*self, github@) == Option::Some(*p),
                Option::None => find_person(*self, github@) is None,
            },
    {
        let n = self.people.len();
        let mut i: usize = 0;
        while i != n
            invariant
                i <= n,
                n == self.people@.len(),
                forall|j: int| 0 <= j < i ==> !(#[trigger] person_named(github@)(self.people@[j])),
            decreases n - i,
        {
            if string_eq_text(&self.people[i].github, github) {
                proof {
                    assert(person_named(github@)(self.people@[i as int]));
                    lemma_find_first_at(self.people@, person_named(github@), i as int);
                }
                return Option::Some(&self.people[i]);
            }
            proof {
                assert(!person_named(github@)(self.people@[i as int]));
            }
            i = i + 1;
        }
        proof {
            lemma_find_first_none(self.people@, person_named(github@));
        }
        Option::None
    }

    /// Looks a person up by code-host id.
    pub fn person_by_id(&self, id: usize) -> (r: Option<&Person>)
        ensures
            match r {
                Option::Some(p) => find_person_by_id(*self, id) == Option::Some(*p),
                Option::None => find_person_by_id(*self, id) is None,
            },
    {
        let n = self.people.len();
        let mut i: usize = 0;
        while i != n
            invariant
                i <= n,
                n == self.people@.len(),
                forall|j: int| 0 <= j < i ==> !(#[trigger] person_with_id(id)(self.people@[j])),
            decreases n - i,
        {
            if self.people[i].github_id == id {
                proof {
                    assert(person_with_id(id)(self.people@[i as int]));
                    lemma_find_first_at(self.people@, person_with_id(id), i as int);
                }
                return Option::Some(&self.people[i]);
            }
            proof {
                assert(!person_with_id(id)(self.people@[i as int]));
            }
            i = i + 1;
        }
        proof {
            lemma_find_first_none(self.people@, person_with_id(id));
        }
        Option::None
    }

    /// Resolves a team's effective membership.
    pub fn effective_members(&self, team: &Team) -> (r: Result<Vec<String>, String>)
        ensures
            match r {
                Result::Ok(v) => effective_members_spec(*self, *team) == Result::<
                    Seq<Seq<char>>,
                    Seq<char>,
                >::Ok(views(v@)),
                Result::Err(e) => effective_members_spec(*self, *team) == Result::<
                    Seq<Seq<char>>,
                    Seq<char>,
                >::Err(e@),
            },
    {
        // Gather the code-host member ids, in mapping order.
        let mut ids: Vec<usize> = Vec::new();
        match &team.github {
            Option::None => {
                proof {
                    assert(ids@ =~= member_ids(*team));
                }
            },
            Option::Some(gh) => {
                let gn = gh.teams.len();
                let mut g: usize = 0;
                proof {
                    assert(gh.teams@.take(0).map_values(gh_members_fn()) =~= Seq::<
                        Seq<usize>,
                    >::empty());
                    assert(ids@ =~= cat(gh.teams@.take(0).map_values(gh_members_fn())));
                }
                while g != gn
                    invariant
                        g <= gn,
                        gn == gh.teams@.len(),
                        ids@ == cat(gh.teams@.take(g as int).map_values(gh_members_fn())),
                    decreases gn - g,
                {
                    let mn = gh.teams[g].members.len();
                    let mut j: usize = 0;
                    proof {
                        assert(gh.teams@[g as int].members@.take(0) =~= Seq::<usize>::empty());
                        assert(ids@ =~= cat(gh.teams@.take(g as int).map_values(gh_members_fn()))
                            + gh.teams@[g as int].members@.take(0));
                    }
                    while j != mn
                        invariant
                            j <= mn,
                            g < gn,
                            gn == gh.teams@.len(),
                            mn == gh.teams@[g as int].members@.len(),
                            ids@ == cat(gh.teams@.take(g as int).map_values(gh_members_fn()))
                                + gh.teams@[g as int].members@.take(j as int),
                        decreases mn - j,
                    {
                        let id = gh.teams[g].members[j];
                        ids.push(id);
                        proof {
                            assert(gh.teams@[g as int].members@.take(j + 1)
                                =~= gh.teams@[g as int].members@.take(j as int).push(id));
                            assert(ids@ =~= cat(gh.teams@.take(g as int).map_values(
                                gh_members_fn(),
                            )) + gh.teams@[g as int].members@.take(j + 1));
                        }
                        j = j + 1;
                    }
                    proof {
                        lemma_take_all(gh.teams@[g as int].members@);
                        lemma_cat_map_take_step(gh.teams@, gh_members_fn(), g as int);
                        assert(gh_members_fn()(gh.teams@[g as int]) == gh.teams@[g as int].members@);
                    }
                    g = g + 1;
                }
                proof {
                    lemma_take_all(gh.teams@);
                    assert(ids@ == member_ids(*team));
                }
            },
        }
        // Resolve each id to a handle; the first unknown id fails.
        let mut derived: Vec<String> = Vec::new();
        let kn = ids.len();
        let mut k: usize = 0;
        proof {
            assert(ids@.take(0) =~= Seq::<usize>::empty());
            assert(views(derived@) =~= Seq::<Seq<char>>::empty());
        }
        while k != kn
            invariant
                k <= kn,
                kn == ids@.len(),
                ids@ == member_ids(*team),
                resolve_ids(self.people@, ids@.take(k as int)) == Result::<
                    Seq<Seq<char>>,
                    usize,
                >::Ok(views(derived@)),
            decreases kn - k,
        {
            let id = ids[k];
            proof {
                assert(ids@.take(k + 1) =~= ids@.take(k as int).push(id));
                lemma_resolve_ids_push(self.people@, ids@.take(k as int), id);
            }
            match self.person_by_id(id) {
                Option::Some(p) => {
                    let h = p.github.clone();
                    let ghost pre = derived@;
                    derived.push(h);
                    proof {
                        crate::seqtools::lemma_views_push(pre, derived@.last());
                        assert(views(derived@) == views(pre).push(p.github@));
                    }
                },
                Option::None => {
                    proof {
                        assert(resolve_ids(self.people@, ids@.take(k + 1)) == Result::<
                            Seq<Seq<char>>,
                            usize,
                        >::Err(id));
                        lemma_resolve_ids_err_prefix(self.people@, ids@, k + 1);
                    }
                    let idtext = usize_to_string(id);
                    let m = cat5(
                        "team `",
                        team.name.as_str(),
                        "` references github id `",
                        idtext.as_str(),
                        "` that isn't the id of any person",
                    );
                    return Result::Err(m);
                },
            }
            k = k + 1;
        }
        proof {
            lemma_take_all(ids@);
        }
        // Merge: explicit handles first, then derived, first occurrence kept.
        let ghost target = explicit_handles(*team) + views(derived@);
        let mut out: Vec<String> = Vec::new();
        let en = team.members.len();
        let mut i: usize = 0;
        proof {
            assert(target.take(0) =~= Seq::<Seq<char>>::empty());
            assert(views(out@) =~= dedup_first(target.take(0)));
        }
        while i != en
            invariant
                i <= en,
                en == team.members@.len(),
                target == explicit_handles(*team) + views(derived@),
                views(out@) == dedup_first(target.take(i as int)),
            decreases en - i,
        {
            let x = &team.members[i].github;
            proof {
                assert(target[i as int] == explicit_handles(*team)[i as int]);
                assert(explicit_handles(*team)[i as int] == x@);
                assert(target.take(i + 1) =~= target.take(i as int).push(x@));
                lemma_dedup_first_push(target.take(i as int), x@);
            }
            let absent = !contains_view(&out, x);
            if absent {
                let c = x.clone();
                out.push(c);
                proof {
                    assert(views(out@) =~= dedup_first(target.take(i as int)).push(x@));
                }
            }
            i = i + 1;
        }
        let dn = derived.len();
        let mut d: usize = 0;
        while d != dn
            invariant
                d <= dn,
                dn == derived@.len(),
                en == team.members@.len(),
                target == explicit_handles(*team) + views(derived@),
                views(out@) == dedup_first(target.take(en + d)),
            decreases dn - d,
        {
            let x = &derived[d];
            proof {
                assert(target[en + d] == views(derived@)[d as int]);
                assert(views(derived@)[d as int] == x@);
                assert(target.take(en + d + 1) =~= target.take(en + d).push(x@));
                lemma_dedup_first_push(target.take(en + d), x@);
            }
            let absent = !contains_view(&out, x);
            if absent {
                let c = x.clone();
                out.push(c);
                proof {
                    assert(views(out@) =~= dedup_first(target.take(en + d)).push(x@));
                }
            }
            d = d + 1;
        }
        proof {
            assert(target.take(en + dn) =~= target);
        }
        Result::Ok(out)
    }

    /// The union of every non-alumni active team's effective membership.
    pub fn active_members(&self) -> (r: Result<Vec<String>, String>)
        ensures
            match r {
                Result::Ok(v) => active_members_spec(*self) == Result::<
                    Seq<Seq<char>>,
                    Seq<char>,
                >::Ok(views(v@)),
                Result::Err(e) => active_members_spec(*self) == Result::<
                    Seq<Seq<char>>,
                    Seq<char>,
                >::Err(e@),
            },
    {
        let mut out: Vec<String> = Vec::new();
        let n = self.teams.len();
        let mut i: usize = 0;
        proof {
            assert(self.teams@.take(0) =~= Seq::<Team>::empty());
            assert(views(out@) =~= Seq::<Seq<char>>::empty());
        }
        while i != n
            invariant
                i <= n,
                n == self.teams@.len(),
                active_members_rec(*self, self.teams@.take(i as int)) == Result::<
                    Seq<Seq<char>>,
                    Seq<char>,
                >::Ok(views(out@)),
            decreases n - i,
        {
            let team = &self.teams[i];
            proof {
                assert(self.teams@.take(i + 1) =~= self.teams@.take(i as int).push(*team));
                lemma_active_members_rec_push(*self, self.teams@.take(i as int), *team);
            }
            let is_alumni = string_eq_text(&team.name, "alumni");
            if !is_alumni {
                match self.effective_members(team) {
                    Result::Ok(mut ms) => {
                        let ghost pre = views(out@);
                        let ghost add = views(ms@);
                        out.append(&mut ms);
                        proof {
                            assert(views(out@) =~= pre + add);
                        }
                    },
                    Result::Err(e) => {
                        proof {
                            lemma_active_members_rec_err_prefix(*self, self.teams@, i + 1);
                        }
                        return Result::Err(e);
                    },
                }
            }
            i = i + 1;
        }
        proof {
            lemma_take_all(self.teams@);
        }
        Result::Ok(out)
    }
}

/// The (organization, team-name) pair of one code-host mapping.
pub open spec fn gh_pair_fn() -> spec_fn(GitHubTeam) -> (Seq<char>, Seq<char>) {
    |g: GitHubTeam| (g.org@, g.name@)
}

/// The code-host pairs one team maps to.
pub open spec fn gh_pairs_fn() -> spec_fn(Team) -> Seq<(Seq<char>, Seq<char>)> {
    |t: Team|
        if t.github is Some {
            t.github->0.teams@.map_values(gh_pair_fn())
        } else {
            Seq::empty()
        }
}

/// Every (organization, team-name) pair some team, active or archived,
/// maps to.
pub open spec fn all_github_teams(data: Data) -> Seq<(Seq<char>, Seq<char>)> {
    cat(data.teams@.map_values(gh_pairs_fn())) + cat(
        data.archived_teams@.map_values(gh_pairs_fn()),
    )
}

fn scan_teams_for_pair(teams: &Vec<Team>, org: &String, name: &String) -> (r: bool)
    ensures
        r == cat(teams@.map_values(gh_pairs_fn())).contains((org@, name@)),
{
    let n = teams.len();
    let mut i: usize = 0;
    while i != n
        invariant
            i <= n,
            n == teams@.len(),
            forall|j: int|
                0 <= j < i ==> !(#[trigger] teams@.map_values(gh_pairs_fn())[j]).contains(
                    (org@, name@),
                ),
        decreases n - i,
    {
        let ghost block = teams@.map_values(gh_pairs_fn())[i as int];
        match &teams[i].github {
            Option::Some(gh) => {
                proof {
                    assert(block == gh.teams@.map_values(gh_pair_fn()));
                }
                let m = gh.teams.len();
                let mut k: usize = 0;
                while k != m
                    invariant
                        k <= m,
                        m == gh.teams@.len(),
                        i < n,
                        n == teams@.len(),
                        block == gh.teams@.map_values(gh_pair_fn()),
                        block == teams@.map_values(gh_pairs_fn())[i as int],
                        forall|l: int| 0 <= l < k ==> #[trigger] block[l] != (org@, name@),
                    decreases m - k,
                {
                    let hit = gh.teams[k].org == *org && gh.teams[k].name == *name;
                    if hit {
                        proof {
                            assert(block[k as int] == (org@, name@));
                            assert(block.contains((org@, name@)));
                            assert(teams@.map_values(gh_pairs_fn())[i as int].contains(
                                (org@, name@),
                            ));
                            lemma_cat_contains_iff(teams@.map_values(gh_pairs_fn()), (org@, name@));
                        }
                        return true;
                    }
                    proof {
                        assert(block[k as int] == (gh.teams@[k as int].org@, gh.teams@[k as int].name@));
                    }
                    k = k + 1;
                }
                proof {
                    assert(!block.contains((org@, name@))) by {
                        if block.contains((org@, name@)) {
                            let l = choose|l: int| 0 <= l < block.len() && block[l] == (org@, name@);
                            assert(block[l] != (org@, name@));
                        }
                    }
                }
            },
            Option::None => {
                proof {
                    assert(block =~= Seq::<(Seq<char>, Seq<char>)>::empty());
                }
            },
        }
        i = i + 1;
    }
    proof {
        lemma_cat_contains_iff(teams@.map_values(gh_pairs_fn()), (org@, name@));
    }
    false
}

/// The mathematical reading of one resolved group member.
pub enum ZulipMemberView {
    WithId { github: Seq<char>, zulip_id: usize },
    JustId(usize),
    WithoutId { github: Seq<char> },
}

pub open spec fn zulip_member_view(m: ZulipGroupMember) -> ZulipMemberView {
    match m {
        ZulipGroupMember::MemberWithId { github, zulip_id } => ZulipMemberView::WithId {
            github: github@,
            zulip_id,
        },
        ZulipGroupMember::JustId(id) => ZulipMemberView::JustId(id),
        ZulipGroupMember::MemberWithoutId { github } => ZulipMemberView::WithoutId {
            github: github@,
        },
    }
}

pub open spec fn zulip_member_view_fn() -> spec_fn(ZulipGroupMember) -> ZulipMemberView {
    |m: ZulipGroupMember| zulip_member_view(m)
}

/// The mathematical reading of a resolved group: its name and its members.
pub open spec fn group_view(g: ZulipGroup) -> (Seq<char>, Seq<ZulipMemberView>) {
    (g.name@, g.members@.map_values(zulip_member_view_fn()))
}

pub open spec fn group_view_fn() -> spec_fn(ZulipGroup) -> (Seq<char>, Seq<ZulipMemberView>) {
    |g: ZulipGroup| group_view(g)
}

/// How one handle resolves against the people records: with the person's
/// chat id where one is recorded, as a bare handle otherwise.
pub open spec fn resolve_handle(data: Data, h: Seq<char>) -> ZulipMemberView {
    match find_person(data, h) {
        Option::Some(p) => if p.zulip_id is Some {
            ZulipMemberView::WithId { github: h, zulip_id: p.zulip_id->0 }
        } else {
            ZulipMemberView::WithoutId { github: h }
        },
        Option::None => ZulipMemberView::WithoutId { github: h },
    }
}

pub open spec fn resolve_handle_fn(data: Data) -> spec_fn(Seq<char>) -> ZulipMemberView {
    |h: Seq<char>| resolve_handle(data, h)
}

pub open spec fn just_id_fn() -> spec_fn(usize) -> ZulipMemberView {
    |id: usize| ZulipMemberView::JustId(id)
}

/// Resolving one declared group of a team: the team's effective members
/// where the group includes them, then the extra people, then the bare
/// ids.
pub open spec fn resolve_group_spec(data: Data, t: Team, g: ZulipGroupDef) -> Result<
    (Seq<char>, Seq<ZulipMemberView>),
    Seq<char>,
> {
    let base = if g.includes_team_members {
        effective_members_spec(data, t)
    } else {
        Result::Ok(Seq::empty())
    };
    match base {
        Result::Ok(hs) => Result::Ok(
            (
                g.name@,
                hs.map_values(resolve_handle_fn(data)) + views(g.extra_people@).map_values(
                    resolve_handle_fn(data),
                ) + g.extra_ids@.map_values(just_id_fn()),
            ),
        ),
        Result::Err(e) => Result::Err(e),
    }
}

/// Resolving every group one team declares, in order.
pub open spec fn team_groups_rec(data: Data, t: Team, gs: Seq<ZulipGroupDef>) -> Result<
    Seq<(Seq<char>, Seq<ZulipMemberView>)>,
    Seq<char>,
>
    decreases gs.len(),
{
    if gs.len() == 0 {
        Result::Ok(Seq::empty())
    } else {
        match team_groups_rec(data, t, gs.drop_last()) {
            Result::Ok(acc) => match resolve_group_spec(data, t, gs.last()) {
                Result::Ok(gv) => Result::Ok(acc.push(gv)),
                Result::Err(e) => Result::Err(e),
            },
            Result::Err(e) => Result::Err(e),
        }
    }
}

/// Resolving every active team's groups; the first failure, in team and
/// declaration order, fails the query.
pub open spec fn all_zulip_groups_rec(data: Data, teams: Seq<Team>) -> Result<
    Seq<(Seq<char>, Seq<ZulipMemberView>)>,
    Seq<char>,
>
    decreases teams.len(),
{
    if teams.len() == 0 {
        Result::Ok(Seq::empty())
    } else {
        match all_zulip_groups_rec(data, teams.drop_last()) {
            Result::Ok(acc) => match team_groups_rec(
                data,
                teams.last(),
                teams.last().zulip_groups@,
            ) {
                Result::Ok(gs) => Result::Ok(acc + gs),
                Result::Err(e) => Result::Err(e),
            },
            Result::Err(e) => Result::Err(e),
        }
    }
}

pub open spec fn all_zulip_groups(data: Data) -> Result<
    Seq<(Seq<char>, Seq<ZulipMemberView>)>,
    Seq<char>,
> {
    all_zulip_groups_rec(data, data.teams@)
}

proof fn lemma_team_groups_rec_push(data: Data, t: Team, gs: Seq<ZulipGroupDef>, g: ZulipGroupDef)
    ensures
        team_groups_rec(data, t, gs.push(g)) == (match team_groups_rec(data, t, gs) {
            Result::Ok(acc) => match resolve_group_spec(data, t, g) {
                Result::Ok(gv) => Result::<Seq<(Seq<char>, Seq<ZulipMemberView>)>, Seq<char>>::Ok(
                    acc.push(gv),
                ),
                Result::Err(e) => Result::<Seq<(Seq<char>, Seq<ZulipMemberView>)>, Seq<char>>::Err(
                    e,
                ),
            },
            Result::Err(e) => Result::<Seq<(Seq<char>, Seq<ZulipMemberView>)>, Seq<char>>::Err(e),
        }),
{
    assert(gs.push(g).drop_last() =~= gs);
    assert(gs.push(g).last() == g);
}

proof fn lemma_team_groups_rec_err_prefix(data: Data, t: Team, gs: Seq<ZulipGroupDef>, m: int)
    requires
        0 <= m <= gs.len(),
        team_groups_rec(data, t, gs.take(m)) is Err,
    ensures
        team_groups_rec(data, t, gs) == team_groups_rec(data, t, gs.take(m)),
    decreases gs.len() - m,
{
    if m < gs.len() {
        assert(gs.take(m + 1).drop_last() =~= gs.take(m));
        assert(team_groups_rec(data, t, gs.take(m + 1)) == team_groups_rec(data, t, gs.take(m)));
        lemma_team_groups_rec_err_prefix(data, t, gs, m + 1);
    } else {
        assert(gs.take(m) =~= gs);
    }
}

proof fn lemma_all_zulip_groups_rec_push(data: Data, teams: Seq<Team>, t: Team)
    ensures
        all_zulip_groups_rec(data, teams.push(t)) == (match all_zulip_groups_rec(data, teams) {
            Result::Ok(acc) => match team_groups_rec(data, t, t.zulip_groups@) {
                Result::Ok(gs) => Result::<Seq<(Seq<char>, Seq<ZulipMemberView>)>, Seq<char>>::Ok(
                    acc + gs,
                ),
                Result::Err(e) => Result::<Seq<(Seq<char>, Seq<ZulipMemberView>)>, Seq<char>>::Err(
                    e,
                ),
            },
            Result::Err(e) => Result::<Seq<(Seq<char>, Seq<ZulipMemberView>)>, Seq<char>>::Err(e),
        }),
{
    assert(teams.push(t).drop_last() =~= teams);
    assert(teams.push(t).last() == t);
}

proof fn lemma_all_zulip_groups_rec_err_prefix(data: Data, teams: Seq<Team>, m: int)
    requires
        0 <= m <= teams.len(),
        all_zulip_groups_rec(data, teams.take(m)) is Err,
    ensures
        all_zulip_groups_rec(data, teams) == all_zulip_groups_rec(data, teams.take(m)),
    decreases teams.len() - m,
{
    if m < teams.len() {
        assert(teams.take(m + 1).drop_last() =~= teams.take(m));
        assert(all_zulip_groups_rec(data, teams.take(m + 1)) == all_zulip_groups_rec(
            data,
            teams.take(m),
        ));
        lemma_all_zulip_groups_rec_err_prefix(data, teams, m + 1);
    } else {
        assert(teams.take(m) =~= teams);
    }
}

impl Data {
    /// Whether some team, active or archived, maps to the given code-host
    /// team.
    pub fn github_team_defined(&self, org: &String, name: &String) -> (r: bool)
        ensures
            r == all_github_teams(*self).contains((org@, name@)),
    {
        let in_active = scan_teams_for_pair(&self.teams, org, name);
        let in_archived = scan_teams_for_pair(&self.archived_teams, org, name);
        proof {
            crate::seqtools::lemma_add_contains(
                cat(self.teams@.map_values(gh_pairs_fn())),
                cat(self.archived_teams@.map_values(gh_pairs_fn())),
                (org@, name@),
            );
        }
        in_active || in_archived
    }

    /// Resolves one handle to a group member entry.
    fn resolve_group_handle(&self, h: &String) -> (r: ZulipGroupMember)
        ensures
            zulip_member_view(r) == resolve_handle(*self, h@),
    {
        match self.person(h.as_str()) {
            Option::Some(p) => match p.zulip_id {
                Option::Some(id) => ZulipGroupMember::MemberWithId {
                    github: h.clone(),
                    zulip_id: id,
                },
                Option::None => ZulipGroupMember::MemberWithoutId { github: h.clone() },
            },
            Option::None => ZulipGroupMember::MemberWithoutId { github: h.clone() },
        }
    }

    /// Resolves one declared group of a team.
    fn resolve_group(&self, t: &Team, g: &ZulipGroupDef) -> (r: Result<ZulipGroup, String>)
        ensures
            match r {
                Result::Ok(zg) => resolve_group_spec(*self, *t, *g) == Result::<
                    (Seq<char>, Seq<ZulipMemberView>),
                    Seq<char>,
                >::Ok(group_view(zg)),
                Result::Err(e) => resolve_group_spec(*self, *t, *g) == Result::<
                    (Seq<char>, Seq<ZulipMemberView>),
                    Seq<char>,
                >::Err(e@),
            },
    {
        let base: Vec<String>;
        if g.includes_team_members {
            match self.effective_members(t) {
                Result::Ok(v) => {
                    base = v;
                },
                Result::Err(e) => {
                    return Result::Err(e);
                },
            }
        } else {
            base = Vec::new();
            proof {
                assert(views(base@) =~= Seq::<Seq<char>>::empty());
            }
        }
        let ghost hs = views(base@);
        let ghost m1 = hs.map_values(resolve_handle_fn(*self));
        let ghost m2 = views(g.extra_people@).map_values(resolve_handle_fn(*self));
        let ghost m3 = g.extra_ids@.map_values(just_id_fn());
        let mut members: Vec<ZulipGroupMember> = Vec::new();
        let bn = base.len();
        let mut i: usize = 0;
        proof {
            assert(members@.map_values(zulip_member_view_fn()) =~= m1.take(0));
        }
        while i != bn
            invariant
                i <= bn,
                bn == base@.len(),
                hs == views(base@),
                m1 == hs.map_values(resolve_handle_fn(*self)),
                members@.map_values(zulip_member_view_fn()) == m1.take(i as int),
            decreases bn - i,
        {
            let entry = self.resolve_group_handle(&base[i]);
            let ghost pre = members@;
            members.push(entry);
            proof {
                crate::seqtools::lemma_map_values_push(pre, zulip_member_view_fn(), entry);
                assert(m1[i as int] == resolve_handle(*self, base@[i as int]@));
                assert(m1.take(i + 1) =~= m1.take(i as int).push(m1[i as int]));
            }
            i = i + 1;
        }
        proof {
            assert(m1.take(bn as int) =~= m1);
        }
        let pn = g.extra_people.len();
        let mut j: usize = 0;
        proof {
            assert(m2.take(0) =~= Seq::<ZulipMemberView>::empty());
            assert(members@.map_values(zulip_member_view_fn()) =~= m1 + m2.take(0));
        }
        while j != pn
            invariant
                j <= pn,
                pn == g.extra_people@.len(),
                hs == views(base@),
                m1 == hs.map_values(resolve_handle_fn(*self)),
                m2 == views(g.extra_people@).map_values(resolve_handle_fn(*self)),
                members@.map_values(zulip_member_view_fn()) == m1 + m2.take(j as int),
            decreases pn - j,
        {
            let entry = self.resolve_group_handle(&g.extra_people[j]);
            let ghost pre = members@;
            members.push(entry);
            proof {
                crate::seqtools::lemma_map_values_push(pre, zulip_member_view_fn(), entry);
                assert(m2[j as int] == resolve_handle(*self, g.extra_people@[j as int]@));
                assert(m2.take(j + 1) =~= m2.take(j as int).push(m2[j as int]));
                assert(m1 + m2.take(j + 1) =~= (m1 + m2.take(j as int)).push(m2[j as int]));
            }
            j = j + 1;
        }
        proof {
            assert(m2.take(pn as int) =~= m2);
        }
        let qn = g.extra_ids.len();
        let mut q: usize = 0;
        proof {
            assert(m3.take(0) =~= Seq::<ZulipMemberView>::empty());
            assert(m1 + m2 + m3.take(0) =~= m1 + m2);
        }
        while q != qn
            invariant
                q <= qn,
                qn == g.extra_ids@.len(),
                hs == views(base@),
                m1 == hs.map_values(resolve_handle_fn(*self)),
                m2 == views(g.extra_people@).map_values(resolve_handle_fn(*self)),
                m3 == g.extra_ids@.map_values(just_id_fn()),
                members@.map_values(zulip_member_view_fn()) == m1 + m2 + m3.take(q as int),
            decreases qn - q,
        {
            let entry = ZulipGroupMember::JustId(g.extra_ids[q]);
            let ghost pre = members@;
            members.push(entry);
            proof {
                crate::seqtools::lemma_map_values_push(pre, zulip_member_view_fn(), entry);
                assert(m3[q as int] == just_id_fn()(g.extra_ids@[q as int]));
                assert(m3.take(q + 1) =~= m3.take(q as int).push(m3[q as int]));
                assert(m1 + m2 + m3.take(q + 1) =~= (m1 + m2 + m3.take(q as int)).push(
                    m3[q as int],
                ));
            }
            q = q + 1;
        }
        proof {
            assert(m3.take(qn as int) =~= m3);
        }
        let zg = ZulipGroup { name: g.name.clone(), members };
        proof {
            assert(group_view(zg) == (g.name@, m1 + m2 + m3));
        }
        Result::Ok(zg)
    }

    /// Resolves every active team's declared chat groups.
    pub fn zulip_groups(&self) -> (r: Result<Vec<ZulipGroup>, String>)
        ensures
            match r {
                Result::Ok(v) => all_zulip_groups(*self) == Result::<
                    Seq<(Seq<char>, Seq<ZulipMemberView>)>,
                    Seq<char>,
                >::Ok(v@.map_values(group_view_fn())),
                Result::Err(e) => all_zulip_groups(*self) == Result::<
                    Seq<(Seq<char>, Seq<ZulipMemberView>)>,
                    Seq<char>,
                >::Err(e@),
            },
    {
        let mut out: Vec<ZulipGroup> = Vec::new();
        let n = self.teams.len();
        let mut i: usize = 0;
        proof {
            assert(out@.map_values(group_view_fn()) =~= Seq::<
                (Seq<char>, Seq<ZulipMemberView>),
            >::empty());
            assert(self.teams@.take(0) =~= Seq::<Team>::empty());
        }
        while i != n
            invariant
                i <= n,
                n == self.teams@.len(),
                all_zulip_groups_rec(*self, self.teams@.take(i as int)) == Result::<
                    Seq<(Seq<char>, Seq<ZulipMemberView>)>,
                    Seq<char>,
                >::Ok(out@.map_values(group_view_fn())),
            decreases n - i,
        {
            let team = &self.teams[i];
            proof {
                assert(self.teams@.take(i + 1) =~= self.teams@.take(i as int).push(*team));
                lemma_all_zulip_groups_rec_push(*self, self.teams@.take(i as int), *team);
            }
            let gn = team.zulip_groups.len();
            let mut j: usize = 0;
            let ghost acc = out@.map_values(group_view_fn());
            proof {
                assert(team.zulip_groups@.take(0) =~= Seq::<ZulipGroupDef>::empty());
                assert(acc + Seq::<(Seq<char>, Seq<ZulipMemberView>)>::empty() =~= acc);
            }
            while j != gn
                invariant
                    j <= gn,
                    i < n,
                    n == self.teams@.len(),
                    gn == team.zulip_groups@.len(),
                    team == self.teams@[i as int],
                    acc + (match team_groups_rec(
                        *self,
                        *team,
                        team.zulip_groups@.take(j as int),
                    ) {
                        Result::Ok(gs) => gs,
                        Result::Err(e) => Seq::empty(),
                    }) == out@.map_values(group_view_fn()),
                    team_groups_rec(*self, *team, team.zulip_groups@.take(j as int)) is Ok,
                    all_zulip_groups_rec(*self, self.teams@.take(i as int)) == Result::<
                        Seq<(Seq<char>, Seq<ZulipMemberView>)>,
                        Seq<char>,
                    >::Ok(acc),
                decreases gn - j,
            {
                let g = &team.zulip_groups[j];
                proof {
                    assert(team.zulip_groups@.take(j + 1) =~= team.zulip_groups@.take(
                        j as int,
                    ).push(*g));
                    lemma_team_groups_rec_push(
                        *self,
                        *team,
                        team.zulip_groups@.take(j as int),
                        *g,
                    );
                }
                match self.resolve_group(team, g) {
                    Result::Ok(zg) => {
                        let ghost pre = out@;
                        out.push(zg);
                        proof {
                            crate::seqtools::lemma_map_values_push(pre, group_view_fn(), zg);
                        }
                    },
                    Result::Err(e) => {
                        proof {
                            assert(self.teams@.take(i + 1) =~= self.teams@.take(i as int).push(
                                *team,
                            ));
                            lemma_all_zulip_groups_rec_push(
                                *self,
                                self.teams@.take(i as int),
                                *team,
                            );
                            assert(team_groups_rec(
                                *self,
                                *team,
                                team.zulip_groups@.take(j + 1),
                            ) == Result::<Seq<(Seq<char>, Seq<ZulipMemberView>)>, Seq<char>>::Err(
                                e@,
                            ));
                            lemma_team_groups_rec_err_prefix(
                                *self,
                                *team,
                                team.zulip_groups@,
                                j + 1,
                            );
                            lemma_take_all(team.zulip_groups@);
                            assert(team_groups_rec(*self, *team, team.zulip_groups@) == Result::<
                                Seq<(Seq<char>, Seq<ZulipMemberView>)>,
                                Seq<char>,
                            >::Err(e@));
                            assert(all_zulip_groups_rec(*self, self.teams@.take(i + 1))
                                == Result::<
                                Seq<(Seq<char>, Seq<ZulipMemberView>)>,
                                Seq<char>,
                            >::Err(e@));
                            lemma_all_zulip_groups_rec_err_prefix(*self, self.teams@, i + 1);
                            lemma_take_all(self.teams@);
                        }
                        return Result::Err(e);
                    },
                }
                j = j + 1;
            }
            proof {
                lemma_take_all(team.zulip_groups@);
            }
            i = i + 1;
        }
        proof {
            lemma_take_all(self.teams@);
        }
        Result::Ok(out)
    }
}

} // verus!
