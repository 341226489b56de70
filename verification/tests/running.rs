use team_check::data::Config;
use team_check::data::Data;
use team_check::data::GitHubDirectory;
use team_check::data::List;
use team_check::data::Person;
use team_check::data::Repo;
use team_check::data::RepoMember;
use team_check::data::RepoPermission;
use team_check::data::RepoTeam;
use team_check::data::Team;
use team_check::data::TeamKind;
use team_check::data::TeamMember;
use team_check::data::ZulipDirectory;
use team_check::lists::validate_list_email_addresses;
use team_check::lists::validate_list_extra_people;
use team_check::lists::validate_list_extra_teams;
use team_check::lists::validate_people_addresses;
use team_check::repos::validate_repos;
use team_check::runner::validate;
use team_check::runner::ValidationError;

fn blank_team(name: &str) -> Team {
    Team {
        name: name.to_string(),
        kind: TeamKind::Team,
        subteam_of: None,
        members: Vec::new(),
        leads: Vec::new(),
        alumni: Vec::new(),
        github: None,
        website_data: None,
        discord: Vec::new(),
        lists: Vec::new(),
        zulip_groups: Vec::new(),
        permissions: Vec::new(),
        leads_permissions: Vec::new(),
        rfcbot: None,
    }
}

fn member(handle: &str, id: usize) -> TeamMember {
    TeamMember { name: handle.to_string(), github: handle.to_string(), github_id: id, is_lead: false }
}

fn person(handle: &str, id: usize) -> Person {
    Person {
        name: handle.to_string(),
        github: handle.to_string(),
        github_id: id,
        email: Some(format!("{}@example.com", handle)),
        zulip_id: None,
        discord_id: None,
        permissions: Vec::new(),
    }
}

fn config() -> Config {
    Config {
        allowed_github_orgs: vec!["rust-lang".to_string()],
        allowed_mailing_lists_domains: vec!["example.com".to_string()],
        available_permissions: vec!["perf".to_string(), "crater".to_string()],
    }
}

fn model(teams: Vec<Team>, people: Vec<Person>) -> Data {
    Data { teams, archived_teams: Vec::new(), people, repos: Vec::new(), config: config() }
}

fn offline_github() -> GitHubDirectory {
    GitHubDirectory::Unavailable { cause: "no credentials".to_string() }
}

fn offline_zulip() -> ZulipDirectory {
    ZulipDirectory::Unavailable { cause: "no credentials".to_string() }
}

#[test]
fn clean_model_passes() {
    let mut core = blank_team("core");
    core.members = vec![member("alice", 1)];
    let data = model(vec![core], vec![person("alice", 1)]);
    let skip: Vec<String> = Vec::new();
    let r = validate(&data, false, &skip, &offline_github(), &offline_zulip());
    assert!(r.is_ok());
}

#[test]
fn strict_mode_fails_without_code_host_directory() {
    let data = model(Vec::new(), Vec::new());
    let skip: Vec<String> = Vec::new();
    let r = validate(&data, true, &skip, &offline_github(), &offline_zulip());
    match r {
        Err(ValidationError::GitHubUnavailable { cause }) => {
            assert_eq!(cause, "no credentials".to_string());
        }
        _ => panic!("expected the code-host unavailability to be fatal"),
    }
}

#[test]
fn report_is_sorted_deduplicated_and_counted() {
    // The same missing person is referenced both as a team member and as a
    // list extra person, producing the same message from two checks only
    // once, plus distinct messages, all sorted.
    let mut t = blank_team("zz");
    t.members = vec![member("ghost", 9)];
    let mut a = blank_team("aa");
    a.subteam_of = Some("nowhere".to_string());
    let data = model(vec![t, a], Vec::new());
    let skip: Vec<String> = Vec::new();
    let r = validate(&data, false, &skip, &offline_github(), &offline_zulip());
    match r {
        Err(ValidationError::Violations { count, messages }) => {
            assert_eq!(count, messages.len());
            let mut sorted = messages.clone();
            sorted.sort();
            sorted.dedup();
            assert_eq!(messages, sorted);
            // A second run reports the same canonical list.
            let r2 = validate(&data, false, &skip, &offline_github(), &offline_zulip());
            match r2 {
                Err(ValidationError::Violations { count: c2, messages: m2 }) => {
                    assert_eq!(c2, count);
                    assert_eq!(m2, messages);
                }
                _ => panic!("expected violations again"),
            }
        }
        _ => panic!("expected violations"),
    }
}

#[test]
fn aggregate_error_line_carries_the_count() {
    let e = ValidationError::Violations { count: 12, messages: Vec::new() };
    assert_eq!(e.message(), "12 validation errors found".to_string());
}

#[test]
fn skipping_a_check_by_name_suppresses_its_findings() {
    let mut a = blank_team("aa");
    a.subteam_of = Some("nowhere".to_string());
    let data = model(vec![a], Vec::new());
    let skip = vec!["validate_subteam_of".to_string()];
    let r = validate(&data, false, &skip, &offline_github(), &offline_zulip());
    assert!(r.is_ok());
}

#[test]
fn list_members_need_email_addresses() {
    let mut t = blank_team("core");
    t.members = vec![member("alice", 1)];
    t.lists = vec![List {
        address: "core@example.com".to_string(),
        extra_people: Vec::new(),
        extra_teams: Vec::new(),
    }];
    let mut alice = person("alice", 1);
    alice.email = None;
    let data = model(vec![t], vec![alice]);
    let mut errors: Vec<String> = Vec::new();
    validate_list_email_addresses(&data, &mut errors);
    assert_eq!(
        errors,
        vec!["person `alice` is a member of a mailing list but has no email address".to_string()]
    );
}

#[test]
fn list_extras_must_exist() {
    let mut t = blank_team("core");
    t.lists = vec![List {
        address: "core@example.com".to_string(),
        extra_people: vec!["ghost".to_string()],
        extra_teams: vec!["phantom".to_string()],
    }];
    let data = model(vec![t], Vec::new());
    let mut errors: Vec<String> = Vec::new();
    validate_list_extra_people(&data, &mut errors);
    validate_list_extra_teams(&data, &mut errors);
    assert_eq!(
        errors,
        vec![
            "person `ghost` does not exist (in list `core@example.com`)".to_string(),
            "team `phantom` does not exist (in list `core@example.com`)".to_string(),
        ]
    );
}

#[test]
fn malformed_person_email_reported() {
    let mut alice = person("alice", 1);
    alice.email = Some("nothing-here".to_string());
    let mut core = blank_team("core");
    core.members = vec![member("alice", 1)];
    let data = model(vec![core], vec![alice]);
    let mut errors: Vec<String> = Vec::new();
    validate_people_addresses(&data, &mut errors);
    assert_eq!(errors, vec!["invalid email address of `alice`: nothing-here".to_string()]);
}

#[test]
fn repos_are_checked_for_org_teams_and_people() {
    let repo = |org: &str, name: &str, teams: Vec<RepoTeam>, members: Vec<RepoMember>| Repo {
        org: org.to_string(),
        name: name.to_string(),
        description: String::new(),
        bots: Vec::new(),
        teams,
        members,
        branch_protections: Vec::new(),
    };
    let mut core = blank_team("core");
    core.github = Some(team_check::data::TeamGitHub {
        teams: vec![team_check::data::GitHubTeam {
            org: "rust-lang".to_string(),
            name: "core".to_string(),
            members: Vec::new(),
        }],
    });
    let grant = |name: &str| RepoTeam { name: name.to_string(), permission: RepoPermission::Write };
    let igrant = |name: &str| RepoMember {
        name: name.to_string(),
        permission: RepoPermission::Triage,
    };
    let data = Data {
        teams: vec![core],
        archived_teams: Vec::new(),
        people: vec![person("alice", 1)],
        repos: vec![
            repo("evil-org", "tools", Vec::new(), Vec::new()),
            repo("rust-lang", "good", vec![grant("core")], vec![igrant("alice")]),
            repo("rust-lang", "bad-team", vec![grant("ghosts")], Vec::new()),
            repo("rust-lang", "bad-person", Vec::new(), vec![igrant("mallory")]),
        ],
        config: config(),
    };
    let mut errors: Vec<String> = Vec::new();
    validate_repos(&data, &mut errors);
    assert_eq!(
        errors,
        vec![
            "The repo 'tools' is in an invalid org 'evil-org'".to_string(),
            "access for rust-lang/bad-team is invalid: 'ghosts' is not configured as a GitHub team for the 'rust-lang' org"
                .to_string(),
            "access for rust-lang/bad-person is invalid: 'mallory' is not the name of a person in the team repo"
                .to_string(),
        ]
    );
}

#[test]
fn individual_contributor_is_not_orphaned() {
    let mut data = model(Vec::new(), vec![person("alice", 1)]);
    data.repos = vec![Repo {
        org: "rust-lang".to_string(),
        name: "tools".to_string(),
        description: String::new(),
        bots: Vec::new(),
        teams: Vec::new(),
        members: vec![RepoMember { name: "alice".to_string(), permission: RepoPermission::Write }],
        branch_protections: Vec::new(),
    }];
    let mut errors: Vec<String> = Vec::new();
    team_check::membership::validate_inactive_members(&data, &mut errors);
    assert!(errors.is_empty());
}

#[test]
fn code_host_tier_runs_when_available() {
    let mut core = blank_team("core");
    core.members = vec![member("alice", 1)];
    let data = model(vec![core], vec![person("alice", 1)]);
    let skip: Vec<String> = Vec::new();
    let github = GitHubDirectory::Available {
        usernames: Ok(vec![team_check::data::IdUsername {
            github_id: 1,
            username: "alice-renamed".to_string(),
        }]),
    };
    let r = validate(&data, true, &skip, &github, &offline_zulip());
    match r {
        Err(ValidationError::Violations { count, messages }) => {
            assert_eq!(count, 1);
            assert_eq!(
                messages,
                vec!["user `alice` changed username to `alice-renamed`".to_string()]
            );
        }
        _ => panic!("expected the renamed handle to be reported"),
    }
}

#[test]
fn chat_unavailability_is_never_fatal() {
    let data = model(Vec::new(), Vec::new());
    let skip: Vec<String> = Vec::new();
    let github = GitHubDirectory::Available { usernames: Ok(Vec::new()) };
    let r = validate(&data, true, &skip, &github, &offline_zulip());
    assert!(r.is_ok());
}
