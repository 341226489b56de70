//! The validation runner: every check of the local tier runs unless
//! skipped by name, the directory-dependent tiers run when their
//! directory is available, and the collected violations are reported
//! deduplicated and sorted. Code-host unavailability is fatal only in
//! strict mode; chat-platform unavailability never is.
use crate::data::Data;
use crate::data::GitHubDirectory;
use crate::data::ZulipDirectory;
use crate::directory::check_github_usernames;
use crate::directory::check_zulip_group_extra_people;
use crate::directory::check_zulip_group_ids;
use crate::directory::check_zulip_users;
use crate::directory::validate_github_usernames;
use crate::directory::validate_zulip_group_extra_people;
use crate::directory::validate_zulip_group_ids;
use crate::directory::validate_zulip_users;
use crate::hierarchy::check_name_prefixes;
use crate::hierarchy::check_project_groups_have_parent_teams;
use crate::hierarchy::check_subteam_of;
use crate::hierarchy::check_team_names;
use crate::hierarchy::check_zulip_stream_name;
use crate::hierarchy::validate_name_prefixes;
use crate::hierarchy::validate_project_groups_have_parent_teams;
use crate::hierarchy::validate_subteam_of;
use crate::hierarchy::validate_team_names;
use crate::hierarchy::validate_zulip_stream_name;
use crate::lists::check_list_addresses;
use crate::lists::check_list_email_addresses;
use crate::lists::check_list_extra_people;
use crate::lists::check_list_extra_teams;
use crate::lists::check_people_addresses;
use crate::lists::validate_list_addresses;
use crate::lists::validate_list_email_addresses;
use crate::lists::validate_list_extra_people;
use crate::lists::validate_list_extra_teams;
use crate::lists::validate_people_addresses;
use crate::membership::check_alumni;
use crate::membership::check_discord_ids;
use crate::membership::check_inactive_members;
use crate::membership::check_team_leads;
use crate::membership::check_team_members;
use crate::membership::validate_alumni;
use crate::membership::validate_discord_team_members_have_discord_ids;
use crate::membership::validate_inactive_members;
use crate::membership::validate_team_leads;
use crate::membership::validate_team_members;
use crate::messages::msg_error_count;
use crate::order::normalize;
use crate::order::normalize_messages;
use crate::permissions::check_duplicate_permissions;
use crate::permissions::check_permissions;
use crate::permissions::validate_duplicate_permissions;
use crate::permissions::validate_permissions;
use crate::repos::check_github_teams;
use crate::repos::check_repos;
use crate::repos::validate_github_teams;
use crate::repos::validate_repos;
use crate::rfcbot::check_rfcbot_exclude_members;
use crate::rfcbot::check_rfcbot_labels;
use crate::rfcbot::validate_rfcbot_exclude_members;
use crate::rfcbot::validate_rfcbot_labels;
use crate::seqtools::views;
use crate::text::contains_text;
use crate::text::usize_to_string;
use vstd::prelude::*;
use vstd::string::StringExecFns;

verus! {

/// The messages a check contributes: none when its name is skipped.
pub open spec fn gate(skip: Seq<Seq<char>>, name: Seq<char>, msgs: Seq<Seq<char>>) -> Seq<
    Seq<char>,
> {
    if skip.contains(name) {
        Seq::empty()
    } else {
        msgs
    }
}

/// The first stretch of the local tier, in registry order.
pub open spec fn local_checks_first(data: Data, skip: Seq<Seq<char>>) -> Seq<Seq<char>> {
    gate(skip, "validate_name_prefixes"@, check_name_prefixes(data)) + gate(skip, "validate_subteam_of"@, check_subteam_of(data)) + gate(skip, "validate_team_leads"@, check_team_leads(data)) + gate(skip, "validate_team_members"@, check_team_members(data)) + gate(skip, "validate_alumni"@, check_alumni(data)) + gate(skip, "validate_inactive_members"@, check_inactive_members(data)) + gate(skip, "validate_list_email_addresses"@, check_list_email_addresses(data)) + gate(skip, "validate_list_extra_people"@, check_list_extra_people(data))
}

/// The middle stretch of the local tier, in registry order.
pub open spec fn local_checks_middle(data: Data, skip: Seq<Seq<char>>) -> Seq<Seq<char>> {
    gate(skip, "validate_list_extra_teams"@, check_list_extra_teams(data)) + gate(skip, "validate_list_addresses"@, check_list_addresses(data)) + gate(skip, "validate_people_addresses"@, check_people_addresses(data)) + gate(skip, "validate_duplicate_permissions"@, check_duplicate_permissions(data)) + gate(skip, "validate_permissions"@, check_permissions(data)) + gate(skip, "validate_rfcbot_labels"@, check_rfcbot_labels(data)) + gate(skip, "validate_rfcbot_exclude_members"@, check_rfcbot_exclude_members(data)) + gate(skip, "validate_team_names"@, check_team_names(data))
}

/// The last stretch of the local tier, in registry order.
pub open spec fn local_checks_last(data: Data, skip: Seq<Seq<char>>) -> Seq<Seq<char>> {
    gate(skip, "validate_github_teams"@, check_github_teams(data)) + gate(skip, "validate_zulip_stream_name"@, check_zulip_stream_name(data)) + gate(skip, "validate_project_groups_have_parent_teams"@, check_project_groups_have_parent_teams(data)) + gate(skip, "validate_discord_team_members_have_discord_ids"@, check_discord_ids(data)) + gate(skip, "validate_zulip_group_ids"@, check_zulip_group_ids(data)) + gate(skip, "validate_zulip_group_extra_people"@, check_zulip_group_extra_people(data)) + gate(skip, "validate_repos"@, check_repos(data))
}

/// Everything the local tier collects, in registry order.
pub open spec fn local_checks_msgs(data: Data, skip: Seq<Seq<char>>) -> Seq<Seq<char>> {
    local_checks_first(data, skip) + local_checks_middle(data, skip) + local_checks_last(
        data,
        skip,
    )
}

/// Everything a run collects: the local tier, then the code-host tier,
/// then the chat tier. A tier whose directory is unavailable contributes
/// nothing.
pub open spec fn collected_msgs(
    data: Data,
    skip: Seq<Seq<char>>,
    github: GitHubDirectory,
    zulip: ZulipDirectory,
) -> Seq<Seq<char>> {
    local_checks_msgs(data, skip) + gate(
        skip,
        "validate_github_usernames"@,
        check_github_usernames(data, github),
    ) + gate(skip, "validate_zulip_users"@, check_zulip_users(data, zulip))
}

/// How a validation run fails: the code-host directory was unavailable in
/// strict mode, or violations were found.
pub enum ValidationError {
    GitHubUnavailable { cause: String },
    Violations { count: usize, messages: Vec<String> },
}

impl ValidationError {
    /// The one aggregate failure line of the run.
    pub fn message(&self) -> (r: String)
        ensures
            (match self {
                ValidationError::GitHubUnavailable { cause } => r@ == cause@,
                ValidationError::Violations { count, messages } => r@ == msg_error_count(
                    *count as int,
                ),
            }),
    {
        match self {
            ValidationError::GitHubUnavailable { cause } => cause.clone(),
            ValidationError::Violations { count, messages } => {
                let c = usize_to_string(*count);
                let mut m = c;
                m.append(" validation errors found");
                m
            },
        }
    }
}


/// Runs the first stretch of the local tier into a fresh log.
#[verifier::rlimit(60)]
fn run_local_checks_first(data: &Data, skip: &Vec<String>) -> (r: Vec<String>)
    ensures
        views(r@) == local_checks_first(*data, views(skip@)),
{
    let ghost skipv = views(skip@);
    let mut collected: Vec<String> = Vec::new();
    let ghost t1 = gate(skipv, "validate_name_prefixes"@, check_name_prefixes(*data));
    if !contains_text(skip, "validate_name_prefixes") {
        validate_name_prefixes(data, &mut collected);
    } else {
        proof {
            assert(views(collected@) =~= t1);
        }
    }
    proof {
        assert(views(collected@) =~= t1);
    }
    let ghost t2 = t1 + gate(skipv, "validate_subteam_of"@, check_subteam_of(*data));
    if !contains_text(skip, "validate_subteam_of") {
        validate_subteam_of(data, &mut collected);
    } else {
        proof {
            crate::seqtools::lemma_add_empty(t1);
        }
    }
    proof {
        assert(views(collected@) == t2);
    }
    let ghost t3 = t2 + gate(skipv, "validate_team_leads"@, check_team_leads(*data));
    if !contains_text(skip, "validate_team_leads") {
        validate_team_leads(data, &mut collected);
    } else {
        proof {
            crate::seqtools::lemma_add_empty(t2);
        }
    }
    proof {
        assert(views(collected@) == t3);
    }
    let ghost t4 = t3 + gate(skipv, "validate_team_members"@, check_team_members(*data));
    if !contains_text(skip, "validate_team_members") {
        validate_team_members(data, &mut collected);
    } else {
        proof {
            crate::seqtools::lemma_add_empty(t3);
        }
    }
    proof {
        assert(views(collected@) == t4);
    }
    let ghost t5 = t4 + gate(skipv, "validate_alumni"@, check_alumni(*data));
    if !contains_text(skip, "validate_alumni") {
        validate_alumni(data, &mut collected);
    } else {
        proof {
            crate::seqtools::lemma_add_empty(t4);
        }
    }
    proof {
        assert(views(collected@) == t5);
    }
    let ghost t6 = t5 + gate(skipv, "validate_inactive_members"@, check_inactive_members(*data));
    if !contains_text(skip, "validate_inactive_members") {
        validate_inactive_members(data, &mut collected);
    } else {
        proof {
            crate::seqtools::lemma_add_empty(t5);
        }
    }
    proof {
        assert(views(collected@) == t6);
    }
    let ghost t7 = t6 + gate(skipv, "validate_list_email_addresses"@, check_list_email_addresses(*data));
    if !contains_text(skip, "validate_list_email_addresses") {
        validate_list_email_addresses(data, &mut collected);
    } else {
        proof {
            crate::seqtools::lemma_add_empty(t6);
        }
    }
    proof {
        assert(views(collected@) == t7);
    }
    let ghost t8 = t7 + gate(skipv, "validate_list_extra_people"@, check_list_extra_people(*data));
    if !contains_text(skip, "validate_list_extra_people") {
        validate_list_extra_people(data, &mut collected);
    } else {
        proof {
            crate::seqtools::lemma_add_empty(t7);
        }
    }
    proof {
        assert(views(collected@) == t8);
    }
    proof {
        assert(t8 == local_checks_first(*data, skipv));
    }
    collected
}

/// Runs the middle stretch of the local tier into a fresh log.
#[verifier::rlimit(60)]
fn run_local_checks_middle(data: &Data, skip: &Vec<String>) -> (r: Vec<String>)
    ensures
        views(r@) == local_checks_middle(*data, views(skip@)),
{
    let ghost skipv = views(skip@);
    let mut collected: Vec<String> = Vec::new();
    let ghost t1 = gate(skipv, "validate_list_extra_teams"@, check_list_extra_teams(*data));
    if !contains_text(skip, "validate_list_extra_teams") {
        validate_list_extra_teams(data, &mut collected);
    } else {
        proof {
            assert(views(collected@) =~= t1);
        }
    }
    proof {
        assert(views(collected@) =~= t1);
    }
    let ghost t2 = t1 + gate(skipv, "validate_list_addresses"@, check_list_addresses(*data));
    if !contains_text(skip, "validate_list_addresses") {
        validate_list_addresses(data, &mut collected);
    } else {
        proof {
            crate::seqtools::lemma_add_empty(t1);
        }
    }
    proof {
        assert(views(collected@) == t2);
    }
    let ghost t3 = t2 + gate(skipv, "validate_people_addresses"@, check_people_addresses(*data));
    if !contains_text(skip, "validate_people_addresses") {
        validate_people_addresses(data, &mut collected);
    } else {
        proof {
            crate::seqtools::lemma_add_empty(t2);
        }
    }
    proof {
        assert(views(collected@) == t3);
    }
    let ghost t4 = t3 + gate(skipv, "validate_duplicate_permissions"@, check_duplicate_permissions(*data));
    if !contains_text(skip, "validate_duplicate_permissions") {
        validate_duplicate_permissions(data, &mut collected);
    } else {
        proof {
            crate::seqtools::lemma_add_empty(t3);
        }
    }
    proof {
        assert(views(collected@) == t4);
    }
    let ghost t5 = t4 + gate(skipv, "validate_permissions"@, check_permissions(*data));
    if !contains_text(skip, "validate_permissions") {
        validate_permissions(data, &mut collected);
    } else {
        proof {
            crate::seqtools::lemma_add_empty(t4);
        }
    }
    proof {
        assert(views(collected@) == t5);
    }
    let ghost t6 = t5 + gate(skipv, "validate_rfcbot_labels"@, check_rfcbot_labels(*data));
    if !contains_text(skip, "validate_rfcbot_labels") {
        validate_rfcbot_labels(data, &mut collected);
    } else {
        proof {
            crate::seqtools::lemma_add_empty(t5);
        }
    }
    proof {
        assert(views(collected@) == t6);
    }
    let ghost t7 = t6 + gate(skipv, "validate_rfcbot_exclude_members"@, check_rfcbot_exclude_members(*data));
    if !contains_text(skip, "validate_rfcbot_exclude_members") {
        validate_rfcbot_exclude_members(data, &mut collected);
    } else {
        proof {
            crate::seqtools::lemma_add_empty(t6);
        }
    }
    proof {
        assert(views(collected@) == t7);
    }
    let ghost t8 = t7 + gate(skipv, "validate_team_names"@, check_team_names(*data));
    if !contains_text(skip, "validate_team_names") {
        validate_team_names(data, &mut collected);
    } else {
        proof {
            crate::seqtools::lemma_add_empty(t7);
        }
    }
    proof {
        assert(views(collected@) == t8);
    }
    proof {
        assert(t8 == local_checks_middle(*data, skipv));
    }
    collected
}

/// Runs the last stretch of the local tier into a fresh log.
#[verifier::rlimit(60)]
fn run_local_checks_last(data: &Data, skip: &Vec<String>) -> (r: Vec<String>)
    ensures
        views(r@) == local_checks_last(*data, views(skip@)),
{
    let ghost skipv = views(skip@);
    let mut collected: Vec<String> = Vec::new();
    let ghost t1 = gate(skipv, "validate_github_teams"@, check_github_teams(*data));
    if !contains_text(skip, "validate_github_teams") {
        validate_github_teams(data, &mut collected);
    } else {
        proof {
            assert(views(collected@) =~= t1);
        }
    }
    proof {
        assert(views(collected@) =~= t1);
    }
    let ghost t2 = t1 + gate(skipv, "validate_zulip_stream_name"@, check_zulip_stream_name(*data));
    if !contains_text(skip, "validate_zulip_stream_name") {
        validate_zulip_stream_name(data, &mut collected);
    } else {
        proof {
            crate::seqtools::lemma_add_empty(t1);
        }
    }
    proof {
        assert(views(collected@) == t2);
    }
    let ghost t3 = t2 + gate(skipv, "validate_project_groups_have_parent_teams"@, check_project_groups_have_parent_teams(*data));
    if !contains_text(skip, "validate_project_groups_have_parent_teams") {
        validate_project_groups_have_parent_teams(data, &mut collected);
    } else {
        proof {
            crate::seqtools::lemma_add_empty(t2);
        }
    }
    proof {
        assert(views(collected@) == t3);
    }
    let ghost t4 = t3 + gate(skipv, "validate_discord_team_members_have_discord_ids"@, check_discord_ids(*data));
    if !contains_text(skip, "validate_discord_team_members_have_discord_ids") {
        validate_discord_team_members_have_discord_ids(data, &mut collected);
    } else {
        proof {
            crate::seqtools::lemma_add_empty(t3);
        }
    }
    proof {
        assert(views(collected@) == t4);
    }
    let ghost t5 = t4 + gate(skipv, "validate_zulip_group_ids"@, check_zulip_group_ids(*data));
    if !contains_text(skip, "validate_zulip_group_ids") {
        validate_zulip_group_ids(data, &mut collected);
    } else {
        proof {
            crate::seqtools::lemma_add_empty(t4);
        }
    }
    proof {
        assert(views(collected@) == t5);
    }
    let ghost t6 = t5 + gate(skipv, "validate_zulip_group_extra_people"@, check_zulip_group_extra_people(*data));
    if !contains_text(skip, "validate_zulip_group_extra_people") {
        validate_zulip_group_extra_people(data, &mut collected);
    } else {
        proof {
            crate::seqtools::lemma_add_empty(t5);
        }
    }
    proof {
        assert(views(collected@) == t6);
    }
    let ghost t7 = t6 + gate(skipv, "validate_repos"@, check_repos(*data));
    if !contains_text(skip, "validate_repos") {
        validate_repos(data, &mut collected);
    } else {
        proof {
            crate::seqtools::lemma_add_empty(t6);
        }
    }
    proof {
        assert(views(collected@) == t7);
    }
    proof {
        assert(t7 == local_checks_last(*data, skipv));
    }
    collected
}

/// Runs every check, honoring the skip set and the two directories, and
/// reports the deduplicated, sorted violation list. In strict mode an
/// unavailable code-host directory fails the run by itself; an
/// unavailable chat directory only skips its tier.
#[verifier::rlimit(60)]
pub fn validate(
    data: &Data,
    strict: bool,
    skip: &Vec<String>,
    github: &GitHubDirectory,
    zulip: &ZulipDirectory,
) -> (r: Result<(), ValidationError>)
    ensures
        ({
            let collected = collected_msgs(*data, views(skip@), *github, *zulip);
            if strict && (github is Unavailable) {
                r matches Result::Err(ValidationError::GitHubUnavailable { cause })
                    && cause@ == github->Unavailable_cause@
            } else {
                match r {
                    Result::Ok(u) => collected.len() == 0,
                    Result::Err(e) => collected.len() > 0 && (match e {
                        ValidationError::Violations { count, messages } => views(messages@)
                            == normalize(collected) && count == messages@.len(),
                        ValidationError::GitHubUnavailable { cause } => false,
                    }),
                }
            }
        }),
{
    let ghost skipv = views(skip@);
    let mut collected = run_local_checks_first(data, skip);
    let mut mid = run_local_checks_middle(data, skip);
    let ghost a = views(collected@);
    let ghost b = views(mid@);
    collected.append(&mut mid);
    proof {
        assert(views(collected@) =~= a + b);
    }
    let mut tail_part = run_local_checks_last(data, skip);
    let ghost ab = views(collected@);
    let ghost c = views(tail_part@);
    collected.append(&mut tail_part);
    proof {
        assert(views(collected@) =~= ab + c);
        assert(views(collected@) == local_checks_msgs(*data, skipv));
    }
    // Code-host tier: fatal in strict mode when the directory is away.
    if strict {
        match github {
            GitHubDirectory::Unavailable { cause } => {
                let c2 = cause.clone();
                return Result::Err(ValidationError::GitHubUnavailable { cause: c2 });
            },
            GitHubDirectory::Available { usernames } => {},
        }
    }
    let ghost t24 = local_checks_msgs(*data, skipv) + gate(
        skipv,
        "validate_github_usernames"@,
        check_github_usernames(*data, *github),
    );
    if !contains_text(skip, "validate_github_usernames") {
        validate_github_usernames(data, github, &mut collected);
    } else {
        proof {
            crate::seqtools::lemma_add_empty(local_checks_msgs(*data, skipv));
        }
    }
    proof {
        assert(views(collected@) == t24);
    }
    // Chat tier: never fatal.
    let ghost t25 = t24 + gate(skipv, "validate_zulip_users"@, check_zulip_users(*data, *zulip));
    if !contains_text(skip, "validate_zulip_users") {
        validate_zulip_users(data, zulip, &mut collected);
    } else {
        proof {
            crate::seqtools::lemma_add_empty(t24);
        }
    }
    proof {
        assert(views(collected@) == t25);
        assert(t25 == collected_msgs(*data, skipv, *github, *zulip));
    }
    if collected.len() == 0 {
        return Result::Ok(());
    }
    let messages = normalize_messages(collected);
    let count = messages.len();
    proof {
        crate::order::lemma_normalize_props(collected_msgs(*data, skipv, *github, *zulip));
    }
    Result::Err(ValidationError::Violations { count, messages })
}

} // verus!
