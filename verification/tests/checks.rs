use team_check::data::Config;
use team_check::data::Data;
use team_check::data::GitHubDirectory;
use team_check::data::GitHubTeam;
use team_check::data::IdUsername;
use team_check::data::List;
use team_check::data::Person;
use team_check::data::RepoPermission;
use team_check::data::RfcbotTeam;
use team_check::data::Team;
use team_check::data::TeamGitHub;
use team_check::data::TeamKind;
use team_check::data::TeamMember;
use team_check::data::ZulipDirectory;
use team_check::data::ZulipGroupDef;
use team_check::directory::validate_github_usernames;
use team_check::directory::validate_zulip_group_ids;
use team_check::directory::validate_zulip_users;
use team_check::hierarchy::validate_name_prefixes;
use team_check::hierarchy::validate_project_groups_have_parent_teams;
use team_check::hierarchy::validate_subteam_of;
use team_check::hierarchy::validate_team_names;
use team_check::hierarchy::validate_zulip_stream_name;
use team_check::lists::validate_list_addresses;
use team_check::membership::validate_alumni;
use team_check::membership::validate_discord_team_members_have_discord_ids;
use team_check::membership::validate_inactive_members;
use team_check::membership::validate_team_leads;
use team_check::membership::validate_team_members;
use team_check::permissions::validate_duplicate_permissions;
use team_check::permissions::validate_permissions;
use team_check::rfcbot::validate_rfcbot_exclude_members;
use team_check::rfcbot::validate_rfcbot_labels;
use team_check::repos::validate_github_teams;

fn blank_team(name: &str) -> Team {
    Team {
        name: name.to_string(),
        kind: TeamKind::Team,
        subteam_of: None,
        members: Vec::new(),
        leads: Vec::new(),
        alumni: Vec::new(),
        github: None,
        website_data: None,
        discord: Vec::new(),
        lists: Vec::new(),
        zulip_groups: Vec::new(),
        permissions: Vec::new(),
        leads_permissions: Vec::new(),
        rfcbot: None,
    }
}

fn member(handle: &str, id: usize) -> TeamMember {
    TeamMember { name: handle.to_string(), github: handle.to_string(), github_id: id, is_lead: false }
}

fn person(handle: &str, id: usize) -> Person {
    Person {
        name: handle.to_string(),
        github: handle.to_string(),
        github_id: id,
        email: Some(format!("{}@example.com", handle)),
        zulip_id: None,
        discord_id: None,
        permissions: Vec::new(),
    }
}

fn config() -> Config {
    Config {
        allowed_github_orgs: vec!["rust-lang".to_string()],
        allowed_mailing_lists_domains: vec!["example.com".to_string()],
        available_permissions: vec!["perf".to_string(), "crater".to_string()],
    }
}

fn model(teams: Vec<Team>, people: Vec<Person>) -> Data {
    Data { teams, archived_teams: Vec::new(), people, repos: Vec::new(), config: config() }
}

#[test]
fn wg_prefix_reported_only_for_bar() {
    let mut wg_foo = blank_team("wg-foo");
    wg_foo.kind = TeamKind::WorkingGroup;
    let mut bar = blank_team("bar");
    bar.kind = TeamKind::WorkingGroup;
    let data = model(vec![wg_foo, bar], Vec::new());
    let mut errors: Vec<String> = Vec::new();
    validate_name_prefixes(&data, &mut errors);
    assert_eq!(
        errors,
        vec!["working group `bar`'s name doesn't start with `wg-`".to_string()]
    );
}

#[test]
fn misleading_prefix_reported() {
    let wg_named_team = blank_team("wg-core");
    let data = model(vec![wg_named_team], Vec::new());
    let mut errors: Vec<String> = Vec::new();
    validate_name_prefixes(&data, &mut errors);
    assert_eq!(
        errors,
        vec!["team `wg-core` seems like a working group (since it has the `wg-` prefix)".to_string()]
    );
}

#[test]
fn prefix_exception_not_reported() {
    let mut leads = blank_team("wg-leads");
    leads.kind = TeamKind::Team;
    let data = model(vec![leads], Vec::new());
    let mut errors: Vec<String> = Vec::new();
    validate_name_prefixes(&data, &mut errors);
    assert!(errors.is_empty());
}

#[test]
fn self_cycle_reported_with_path() {
    let mut a = blank_team("a");
    a.subteam_of = Some("a".to_string());
    let data = model(vec![a], Vec::new());
    let mut errors: Vec<String> = Vec::new();
    validate_subteam_of(&data, &mut errors);
    assert_eq!(errors, vec!["team `a` is a subteam of itself: a => a".to_string()]);
}

#[test]
fn two_step_cycle_reported_once_per_team() {
    let mut a = blank_team("a");
    a.subteam_of = Some("b".to_string());
    let mut b = blank_team("b");
    b.subteam_of = Some("a".to_string());
    let data = model(vec![a, b], Vec::new());
    let mut errors: Vec<String> = Vec::new();
    validate_subteam_of(&data, &mut errors);
    assert_eq!(
        errors,
        vec![
            "team `a` is a subteam of itself: a => b => a".to_string(),
            "team `b` is a subteam of itself: b => a => b".to_string(),
        ]
    );
}

#[test]
fn acyclic_chain_not_reported() {
    let top = blank_team("top");
    let mut mid = blank_team("mid");
    mid.subteam_of = Some("top".to_string());
    let data = model(vec![top, mid], Vec::new());
    let mut errors: Vec<String> = Vec::new();
    validate_subteam_of(&data, &mut errors);
    assert!(errors.is_empty());
}

#[test]
fn dangling_parent_reported() {
    let mut a = blank_team("a");
    a.subteam_of = Some("ghostly".to_string());
    let data = model(vec![a], Vec::new());
    let mut errors: Vec<String> = Vec::new();
    validate_subteam_of(&data, &mut errors);
    assert_eq!(errors, vec!["the parent of team `a` doesn't exist: `ghostly`".to_string()]);
}

#[test]
fn nested_project_group_reported() {
    let top = blank_team("top");
    let mut mid = blank_team("mid");
    mid.subteam_of = Some("top".to_string());
    let mut pg = blank_team("project-x");
    pg.kind = TeamKind::ProjectGroup;
    pg.subteam_of = Some("mid".to_string());
    let data = model(vec![top, mid, pg], Vec::new());
    let mut errors: Vec<String> = Vec::new();
    validate_subteam_of(&data, &mut errors);
    assert_eq!(
        errors,
        vec!["project group `project-x` can't be a subteam of a subteam (`mid`)".to_string()]
    );
}

#[test]
fn project_group_under_top_level_not_reported() {
    let top = blank_team("top");
    let mut pg = blank_team("project-x");
    pg.kind = TeamKind::ProjectGroup;
    pg.subteam_of = Some("top".to_string());
    let data = model(vec![top, pg], Vec::new());
    let mut errors: Vec<String> = Vec::new();
    validate_subteam_of(&data, &mut errors);
    assert!(errors.is_empty());
}

#[test]
fn project_group_without_parent_reported() {
    let mut pg = blank_team("project-x");
    pg.kind = TeamKind::ProjectGroup;
    let data = model(vec![pg], Vec::new());
    let mut errors: Vec<String> = Vec::new();
    validate_project_groups_have_parent_teams(&data, &mut errors);
    assert_eq!(
        errors,
        vec![
            "the project group `project-x` doesn't have a parent team, but it's required to have one"
                .to_string(),
        ]
    );
}

#[test]
fn team_name_characters_checked() {
    let good = blank_team("team-1");
    let bad = blank_team("team one!");
    let data = model(vec![good, bad], Vec::new());
    let mut errors: Vec<String> = Vec::new();
    validate_team_names(&data, &mut errors);
    assert_eq!(
        errors,
        vec!["team name `team one!` can only be alphanumeric with dashes".to_string()]
    );
}

#[test]
fn lead_must_be_member() {
    let mut t = blank_team("core");
    t.members = vec![member("alice", 1)];
    t.leads = vec!["bob".to_string()];
    let data = model(vec![t], vec![person("alice", 1), person("bob", 2)]);
    let mut errors: Vec<String> = Vec::new();
    validate_team_leads(&data, &mut errors);
    assert_eq!(errors, vec!["`bob` leads team `core`, but is not a member of it".to_string()]);
}

#[test]
fn member_must_exist() {
    let mut t = blank_team("core");
    t.members = vec![member("nobody", 9)];
    let data = model(vec![t], Vec::new());
    let mut errors: Vec<String> = Vec::new();
    validate_team_members(&data, &mut errors);
    assert_eq!(
        errors,
        vec!["person `nobody` is member of team `core` but doesn't exist".to_string()]
    );
}

#[test]
fn derived_membership_resolves_ids() {
    let mut t = blank_team("core");
    t.github = Some(TeamGitHub {
        teams: vec![GitHubTeam {
            org: "rust-lang".to_string(),
            name: "core".to_string(),
            members: vec![1, 2],
        }],
    });
    let data = model(vec![t], vec![person("alice", 1), person("bob", 2)]);
    let mut errors: Vec<String> = Vec::new();
    validate_team_members(&data, &mut errors);
    assert!(errors.is_empty());
}

#[test]
fn unresolved_member_id_reported() {
    let mut t = blank_team("core");
    t.github = Some(TeamGitHub {
        teams: vec![GitHubTeam {
            org: "rust-lang".to_string(),
            name: "core".to_string(),
            members: vec![3],
        }],
    });
    let data = model(vec![t], vec![person("alice", 1)]);
    let mut errors: Vec<String> = Vec::new();
    validate_team_members(&data, &mut errors);
    assert_eq!(
        errors,
        vec!["team `core` references github id `3` that isn't the id of any person".to_string()]
    );
}

#[test]
fn active_alumni_reported() {
    let mut core = blank_team("core");
    core.members = vec![member("alice", 1)];
    let mut alumni = blank_team("alumni");
    alumni.members = vec![member("alice", 1)];
    let data = model(vec![core, alumni], vec![person("alice", 1)]);
    let mut errors: Vec<String> = Vec::new();
    validate_alumni(&data, &mut errors);
    assert_eq!(errors, vec!["alumni team includes active member 'alice'".to_string()]);
}

#[test]
fn doubly_listed_alumni_reported_once_for_first_team() {
    let mut t1 = blank_team("t1");
    t1.alumni = vec![member("carol", 3)];
    let mut t2 = blank_team("t2");
    t2.alumni = vec![member("carol", 3)];
    let mut alumni = blank_team("alumni");
    alumni.members = vec![member("carol", 3)];
    let data = model(vec![t1, t2, alumni], vec![person("carol", 3)]);
    let mut errors: Vec<String> = Vec::new();
    validate_alumni(&data, &mut errors);
    assert_eq!(
        errors,
        vec![
            "alumni team explicitly includes member 'carol' who was specified as an alumni already in 't1'"
                .to_string(),
        ]
    );
}

#[test]
fn orphan_reported_until_granted_a_permission() {
    let core = blank_team("core");
    let mut alice = person("alice", 1);
    let data = model(vec![core.clone()], vec![alice.clone()]);
    let mut errors: Vec<String> = Vec::new();
    validate_inactive_members(&data, &mut errors);
    assert_eq!(
        errors,
        vec![
            "person `alice` is not a member of any team (active or archived), has no permissions, and is not an individual contributor to any repo"
                .to_string(),
        ]
    );
    alice.permissions = vec!["perf".to_string()];
    let data2 = model(vec![core], vec![alice]);
    let mut errors2: Vec<String> = Vec::new();
    validate_inactive_members(&data2, &mut errors2);
    assert!(errors2.is_empty());
}

#[test]
fn archived_membership_prevents_orphan_report() {
    let mut archived = blank_team("old-team");
    archived.members = vec![member("alice", 1)];
    let data = Data {
        teams: Vec::new(),
        archived_teams: vec![archived],
        people: vec![person("alice", 1)],
        repos: Vec::new(),
        config: config(),
    };
    let mut errors: Vec<String> = Vec::new();
    validate_inactive_members(&data, &mut errors);
    assert!(errors.is_empty());
}

#[test]
fn duplicate_permission_reported_per_triple() {
    let mut t = blank_team("core");
    t.members = vec![member("alice", 1)];
    t.permissions = vec!["perf".to_string(), "crater".to_string()];
    let mut alice = person("alice", 1);
    alice.permissions = vec!["crater".to_string(), "perf".to_string()];
    let data = model(vec![t], vec![alice]);
    let mut errors: Vec<String> = Vec::new();
    validate_duplicate_permissions(&data, &mut errors);
    assert_eq!(
        errors,
        vec![
            "user `alice` has the permission `perf` both explicitly and through the `core` team"
                .to_string(),
            "user `alice` has the permission `crater` both explicitly and through the `core` team"
                .to_string(),
        ]
    );
}

#[test]
fn unknown_permission_reported() {
    let mut t = blank_team("core");
    t.permissions = vec!["bogus".to_string()];
    let data = model(vec![t], Vec::new());
    let mut errors: Vec<String> = Vec::new();
    validate_permissions(&data, &mut errors);
    assert_eq!(errors, vec!["unknown permission `bogus` for team `core`".to_string()]);
}

#[test]
fn duplicate_rfcbot_label_reported() {
    let mut t1 = blank_team("t1");
    t1.rfcbot = Some(RfcbotTeam { label: "T-lang".to_string(), exclude_members: Vec::new() });
    let mut t2 = blank_team("t2");
    t2.rfcbot = Some(RfcbotTeam { label: "T-lang".to_string(), exclude_members: Vec::new() });
    let data = model(vec![t1, t2], Vec::new());
    let mut errors: Vec<String> = Vec::new();
    validate_rfcbot_labels(&data, &mut errors);
    assert_eq!(errors, vec!["duplicate rfcbot label: T-lang".to_string()]);
}

#[test]
fn rfcbot_exclude_members_checked() {
    let mut t = blank_team("core");
    t.members = vec![member("alice", 1)];
    t.rfcbot = Some(RfcbotTeam {
        label: "T-core".to_string(),
        exclude_members: vec!["alice".to_string(), "alice".to_string(), "mallory".to_string()],
    });
    let data = model(vec![t], vec![person("alice", 1)]);
    let mut errors: Vec<String> = Vec::new();
    validate_rfcbot_exclude_members(&data, &mut errors);
    assert_eq!(
        errors,
        vec![
            "duplicate member in `core` rfcbot.exclude-members: alice".to_string(),
            "person `mallory` is not a member of team `core` (in rfcbot.exclude-members)"
                .to_string(),
        ]
    );
}

#[test]
fn reused_github_team_reported() {
    let gh = |org: &str, name: &str| TeamGitHub {
        teams: vec![GitHubTeam { org: org.to_string(), name: name.to_string(), members: Vec::new() }],
    };
    let mut t1 = blank_team("t1");
    t1.github = Some(gh("rust-lang", "compiler"));
    let mut t2 = blank_team("t2");
    t2.github = Some(gh("rust-lang", "compiler"));
    let mut t3 = blank_team("t3");
    t3.github = Some(gh("evil-org", "compiler"));
    let data = model(vec![t1, t2, t3], Vec::new());
    let mut errors: Vec<String> = Vec::new();
    validate_github_teams(&data, &mut errors);
    assert_eq!(
        errors,
        vec![
            "GitHub team `rust-lang/compiler` is defined for both the `t2` and `t1` teams"
                .to_string(),
            "GitHub organization `evil-org` isn't allowed (in team `t3`)".to_string(),
        ]
    );
}

#[test]
fn list_addresses_checked() {
    let list = |address: &str| List {
        address: address.to_string(),
        extra_people: Vec::new(),
        extra_teams: Vec::new(),
    };
    let mut t = blank_team("core");
    t.lists = vec![list("core@example.com"), list("core@evil.com"), list("not an address")];
    let data = model(vec![t], Vec::new());
    let mut errors: Vec<String> = Vec::new();
    validate_list_addresses(&data, &mut errors);
    assert_eq!(
        errors,
        vec![
            "list address on a domain we don't own: `core@evil.com`".to_string(),
            "invalid list address: `not an address`".to_string(),
        ]
    );
}

#[test]
fn zulip_stream_link_reported() {
    let mut t = blank_team("core");
    t.website_data = Some(team_check::data::TeamWebsite {
        name: "Core".to_string(),
        description: String::new(),
        page: String::new(),
        email: None,
        repo: None,
        discord: None,
        zulip_stream: Some("https://example.zulipchat.com/#narrow".to_string()),
        weight: 0,
    });
    let data = model(vec![t], Vec::new());
    let mut errors: Vec<String> = Vec::new();
    validate_zulip_stream_name(&data, &mut errors);
    assert_eq!(
        errors,
        vec![
            "the zulip stream name of the team `core` is a link: only the name is required"
                .to_string(),
        ]
    );
}

#[test]
fn discord_members_need_ids() {
    let mut t = blank_team("core");
    t.members = vec![member("alice", 1), member("bob", 2)];
    t.discord = vec![team_check::data::TeamDiscord {
        name: "core".to_string(),
        members: Vec::new(),
        color: None,
    }];
    let mut alice = person("alice", 1);
    alice.discord_id = Some(77);
    let bob = person("bob", 2);
    let data = model(vec![t], vec![alice, bob]);
    let mut errors: Vec<String> = Vec::new();
    validate_discord_team_members_have_discord_ids(&data, &mut errors);
    assert_eq!(
        errors,
        vec!["the following members of the \"core\" team do not have discord_ids: bob".to_string()]
    );
}

#[test]
fn username_changes_reported() {
    let data = model(Vec::new(), vec![person("alice", 1)]);
    let github = GitHubDirectory::Available {
        usernames: Ok(vec![IdUsername { github_id: 1, username: "alice-new".to_string() }]),
    };
    let mut errors: Vec<String> = Vec::new();
    validate_github_usernames(&data, &github, &mut errors);
    assert_eq!(errors, vec!["user `alice` changed username to `alice-new`".to_string()]);
}

#[test]
fn username_query_failure_reported() {
    let data = model(Vec::new(), Vec::new());
    let github = GitHubDirectory::Available { usernames: Err("boom".to_string()) };
    let mut errors: Vec<String> = Vec::new();
    validate_github_usernames(&data, &github, &mut errors);
    assert_eq!(errors, vec!["couldn't verify GitHub usernames: boom".to_string()]);
}

#[test]
fn zulip_polymorphic_members_checked() {
    let mut t = blank_team("core");
    t.zulip_groups = vec![ZulipGroupDef {
        name: "grp".to_string(),
        includes_team_members: false,
        extra_people: vec!["xena".to_string(), "yuri".to_string(), "zoe".to_string()],
        extra_ids: vec![9],
    }];
    let mut xena = person("xena", 10);
    xena.zulip_id = Some(5);
    let mut yuri = person("yuri", 11);
    yuri.zulip_id = Some(7);
    let zoe = person("zoe", 12);
    let data = model(vec![t], vec![xena, yuri, zoe]);
    let zulip = ZulipDirectory::Available { users: Ok(vec![5]) };
    let mut errors: Vec<String> = Vec::new();
    validate_zulip_users(&data, &zulip, &mut errors);
    assert_eq!(
        errors,
        vec![
            "the \"grp\" Zulip group includes members who don't appear on Zulip: yuri, zoe, ID: 9"
                .to_string(),
        ]
    );
}

#[test]
fn zulip_group_members_need_zulip_ids() {
    let mut t = blank_team("core");
    t.members = vec![member("alice", 1)];
    t.zulip_groups = vec![ZulipGroupDef {
        name: "grp".to_string(),
        includes_team_members: true,
        extra_people: Vec::new(),
        extra_ids: Vec::new(),
    }];
    let data = model(vec![t], vec![person("alice", 1)]);
    let mut errors: Vec<String> = Vec::new();
    validate_zulip_group_ids(&data, &mut errors);
    assert_eq!(
        errors,
        vec![
            "person `alice` in 'core' is a member of a Zulip user group but has no Zulip id"
                .to_string(),
        ]
    );
}

#[test]
fn repo_permission_kinds_exist() {
    let kinds = vec![
        RepoPermission::Write,
        RepoPermission::Admin,
        RepoPermission::Maintain,
        RepoPermission::Triage,
    ];
    assert_eq!(kinds.len(), 4);
}
