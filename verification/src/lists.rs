//! Checks on mailing lists and email addresses: members of teams with
//! lists have an email, the extra people and teams on a list exist, list
//! addresses sit on domains we own, and people's addresses are well
//! formed.
use crate::collect::lemma_step_emit;
use crate::collect::lemma_step_zero;
use crate::collect::wrapper;
use crate::data::effective_members_spec;
use crate::data::find_person;
use crate::data::find_team;
use crate::data::Data;
use crate::data::List;
use crate::data::Person;
use crate::data::Team;
use crate::messages::cat4;
use crate::messages::cat3;
use crate::messages::cat5;
use crate::messages::msg_bad_email;
use crate::messages::msg_list_bad_address;
use crate::messages::msg_list_bad_domain;
use crate::messages::msg_list_person_missing;
use crate::messages::msg_list_team_missing;
use crate::messages::msg_no_email;
use crate::seqtools::cat;
use crate::seqtools::find_first;
use crate::seqtools::lemma_find_first_at;
use crate::seqtools::lemma_find_first_none;
use crate::seqtools::lemma_take_all;
use crate::seqtools::views;
use crate::text::contains_view;
use crate::text::contains_char;
use crate::text::has_char;
use vstd::prelude::*;

verus! {

/// What the list-email check says of one effective member.
pub open spec fn no_email_fn(data: Data) -> spec_fn(Seq<char>) -> Seq<Seq<char>> {
    |m: Seq<char>|
        match find_person(data, m) {
            Option::Some(p) => if p.email is None {
                seq![msg_no_email(m)]
            } else {
                Seq::empty()
            },
            Option::None => Seq::empty(),
        }
}

/// What the list-email check says of one team: nothing for a team without
/// mailing lists; otherwise the membership failure, or one message per
/// member without an email address.
pub open spec fn list_email_msgs(data: Data, t: Team) -> Seq<Seq<char>> {
    if t.lists@.len() == 0 {
        Seq::empty()
    } else {
        match effective_members_spec(data, t) {
            Result::Err(e) => seq![e],
            Result::Ok(ms) => cat(ms.map_values(no_email_fn(data))),
        }
    }
}

pub open spec fn list_email_msgs_fn(data: Data) -> spec_fn(Team) -> Seq<Seq<char>> {
    |t: Team| list_email_msgs(data, t)
}

/// Everything the list-email check reports, team by team.
pub open spec fn check_list_email_addresses(data: Data) -> Seq<Seq<char>> {
    cat(data.teams@.map_values(list_email_msgs_fn(data)))
}

/// Every member of a team with a mailing list has an email address.
pub fn validate_list_email_addresses(data: &Data, errors: &mut Vec<String>)
    ensures
        views(final(errors)@) == views(old(errors)@) + check_list_email_addresses(*data),
{
    let ghost base = views(errors@);
    let ghost f = list_email_msgs_fn(*data);
    let n = data.teams.len();
    let mut i: usize = 0;
    proof {
        lemma_step_zero(base, data.teams@, f);
    }
    while i != n
        invariant
            i <= n,
            n == data.teams@.len(),
            base == views(old(errors)@),
            f == list_email_msgs_fn(*data),
            views(errors@) == base + cat(data.teams@.take(i as int).map_values(f)),
        decreases n - i,
    {
        let team = &data.teams[i];
        proof {
            lemma_step_emit(base, data.teams@, f, i as int, views(errors@));
        }
        if team.lists.len() == 0 {
            proof {
                assert(views(errors@) + f(data.teams@[i as int]) =~= views(errors@));
            }
        } else {
            match data.effective_members(team) {
                Result::Err(e) => {
                    wrapper(Result::Err(e), errors);
                },
                Result::Ok(ms) => {
                    let ghost base2 = views(errors@);
                    let ghost g = no_email_fn(*data);
                    let mn = ms.len();
                    let mut j: usize = 0;
                    proof {
                        lemma_step_zero(base2, views(ms@), g);
                    }
                    while j != mn
                        invariant
                            j <= mn,
                            mn == ms@.len(),
                            g == no_email_fn(*data),
                            views(errors@) == base2 + cat(
                                views(ms@).take(j as int).map_values(g),
                            ),
                        decreases mn - j,
                    {
                        let member = &ms[j];
                        proof {
                            lemma_step_emit(base2, views(ms@), g, j as int, views(errors@));
                            assert(views(ms@)[j as int] == member@);
                        }
                        let mut missing = false;
                        match data.person(member.as_str()) {
                            Option::Some(p) => {
                                if p.email.is_none() {
                                    missing = true;
                                }
                            },
                            Option::None => {},
                        }
                        let outcome: Result<(), String> = if missing {
                            Result::Err(
                                cat3(
                                    "person `",
                                    member.as_str(),
                                    "` is a member of a mailing list but has no email address",
                                ),
                            )
                        } else {
                            Result::Ok(())
                        };
                        wrapper(outcome, errors);
                        j = j + 1;
                    }
                    proof {
                        lemma_take_all(views(ms@));
                    }
                },
            }
        }
        i = i + 1;
    }
    proof {
        lemma_take_all(data.teams@);
    }
}

/// Matches a handle that names no person.
pub open spec fn missing_person_pred(data: Data) -> spec_fn(Seq<char>) -> bool {
    |h: Seq<char>| find_person(data, h) is None
}

/// Matches a name that names no active team.
pub open spec fn missing_team_pred(data: Data) -> spec_fn(Seq<char>) -> bool {
    |h: Seq<char>| find_team(data, h) is None
}

/// What the extra-people check says of one list: the first extra person
/// that does not exist, if any.
pub open spec fn list_extra_people_msgs_fn(data: Data) -> spec_fn(List) -> Seq<Seq<char>> {
    |l: List|
        match find_first(views(l.extra_people@), missing_person_pred(data)) {
            Option::Some(p) => seq![msg_list_person_missing(p, l.address@)],
            Option::None => Seq::empty(),
        }
}

/// What the extra-people check says of one team.
pub open spec fn team_extra_people_msgs(data: Data, t: Team) -> Seq<Seq<char>> {
    cat(t.lists@.map_values(list_extra_people_msgs_fn(data)))
}

pub open spec fn team_extra_people_msgs_fn(data: Data) -> spec_fn(Team) -> Seq<Seq<char>> {
    |t: Team| team_extra_people_msgs(data, t)
}

/// Everything the extra-people check reports.
pub open spec fn check_list_extra_people(data: Data) -> Seq<Seq<char>> {
    cat(data.teams@.map_values(team_extra_people_msgs_fn(data)))
}

fn first_missing_person(data: &Data, l: &List) -> (outcome: Result<(), String>)
    ensures
        (match outcome {
            Result::Ok(u) => find_first(views(l.extra_people@), missing_person_pred(*data)) is None,
            Result::Err(m) => find_first(views(l.extra_people@), missing_person_pred(*data))
                is Some && msg_list_person_missing(
                find_first(views(l.extra_people@), missing_person_pred(*data))->0,
                l.address@,
            ) == m@,
        }),
{
    let ghost pred = missing_person_pred(*data);
    let pn = l.extra_people.len();
    let mut pi: usize = 0;
    loop
        invariant
            pi <= pn,
            pn == l.extra_people@.len(),
            pred == missing_person_pred(*data),
            forall|q: int| 0 <= q < pi ==> !(#[trigger] pred(views(l.extra_people@)[q])),
        decreases pn - pi,
    {
        if pi == pn {
            proof {
                lemma_find_first_none(views(l.extra_people@), pred);
            }
            return Result::Ok(());
        }
        let person = &l.extra_people[pi];
        proof {
            assert(views(l.extra_people@)[pi as int] == person@);
        }
        match data.person(person.as_str()) {
            Option::None => {
                proof {
                    lemma_find_first_at(views(l.extra_people@), pred, pi as int);
                }
                return Result::Err(
                    cat5(
                        "person `",
                        person.as_str(),
                        "` does not exist (in list `",
                        l.address.as_str(),
                        "`)",
                    ),
                );
            },
            Option::Some(p) => {},
        }
        pi = pi + 1;
    }
}

fn first_missing_team(data: &Data, l: &List) -> (outcome: Result<(), String>)
    ensures
        (match outcome {
            Result::Ok(u) => find_first(views(l.extra_teams@), missing_team_pred(*data)) is None,
            Result::Err(m) => find_first(views(l.extra_teams@), missing_team_pred(*data)) is Some
                && msg_list_team_missing(
                find_first(views(l.extra_teams@), missing_team_pred(*data))->0,
                l.address@,
            ) == m@,
        }),
{
    let ghost pred = missing_team_pred(*data);
    let tn = l.extra_teams.len();
    let mut ti: usize = 0;
    loop
        invariant
            ti <= tn,
            tn == l.extra_teams@.len(),
            pred == missing_team_pred(*data),
            forall|q: int| 0 <= q < ti ==> !(#[trigger] pred(views(l.extra_teams@)[q])),
        decreases tn - ti,
    {
        if ti == tn {
            proof {
                lemma_find_first_none(views(l.extra_teams@), pred);
            }
            return Result::Ok(());
        }
        let tname = &l.extra_teams[ti];
        proof {
            assert(views(l.extra_teams@)[ti as int] == tname@);
        }
        match data.team(tname.as_str()) {
            Option::None => {
                proof {
                    lemma_find_first_at(views(l.extra_teams@), pred, ti as int);
                }
                return Result::Err(
                    cat5(
                        "team `",
                        tname.as_str(),
                        "` does not exist (in list `",
                        l.address.as_str(),
                        "`)",
                    ),
                );
            },
            Option::Some(t) => {},
        }
        ti = ti + 1;
    }
}

/// Every extra person on a mailing list exists.
pub fn validate_list_extra_people(data: &Data, errors: &mut Vec<String>)
    ensures
        views(final(errors)@) == views(old(errors)@) + check_list_extra_people(*data),
{
    let ghost base = views(errors@);
    let ghost f = team_extra_people_msgs_fn(*data);
    let n = data.teams.len();
    let mut i: usize = 0;
    proof {
        lemma_step_zero(base, data.teams@, f);
    }
    while i != n
        invariant
            i <= n,
            n == data.teams@.len(),
            base == views(old(errors)@),
            f == team_extra_people_msgs_fn(*data),
            views(errors@) == base + cat(data.teams@.take(i as int).map_values(f)),
        decreases n - i,
    {
        let team = &data.teams[i];
        proof {
            lemma_step_emit(base, data.teams@, f, i as int, views(errors@));
        }
        let ghost base2 = views(errors@);
        let ghost g = list_extra_people_msgs_fn(*data);
        let ln = team.lists.len();
        let mut li: usize = 0;
        proof {
            lemma_step_zero(base2, team.lists@, g);
        }
        while li != ln
            invariant
                li <= ln,
                ln == team.lists@.len(),
                g == list_extra_people_msgs_fn(*data),
                views(errors@) == base2 + cat(team.lists@.take(li as int).map_values(g)),
            decreases ln - li,
        {
            let l = &team.lists[li];
            proof {
                lemma_step_emit(base2, team.lists@, g, li as int, views(errors@));
            }
            let outcome = first_missing_person(data, l);
            wrapper(outcome, errors);
            li = li + 1;
        }
        proof {
            lemma_take_all(team.lists@);
        }
        i = i + 1;
    }
    proof {
        lemma_take_all(data.teams@);
    }
}

/// What the extra-teams check says of one list: the first extra team that
/// does not exist, if any.
pub open spec fn list_extra_teams_msgs_fn(data: Data) -> spec_fn(List) -> Seq<Seq<char>> {
    |l: List|
        match find_first(views(l.extra_teams@), missing_team_pred(data)) {
            Option::Some(t) => seq![msg_list_team_missing(t, l.address@)],
            Option::None => Seq::empty(),
        }
}

/// What the extra-teams check says of one team.
pub open spec fn team_extra_teams_msgs(data: Data, t: Team) -> Seq<Seq<char>> {
    cat(t.lists@.map_values(list_extra_teams_msgs_fn(data)))
}

pub open spec fn team_extra_teams_msgs_fn(data: Data) -> spec_fn(Team) -> Seq<Seq<char>> {
    |t: Team| team_extra_teams_msgs(data, t)
}

/// Everything the extra-teams check reports.
pub open spec fn check_list_extra_teams(data: Data) -> Seq<Seq<char>> {
    cat(data.teams@.map_values(team_extra_teams_msgs_fn(data)))
}

/// Every extra team on a mailing list exists.
pub fn validate_list_extra_teams(data: &Data, errors: &mut Vec<String>)
    ensures
        views(final(errors)@) == views(old(errors)@) + check_list_extra_teams(*data),
{
    let ghost base = views(errors@);
    let ghost f = team_extra_teams_msgs_fn(*data);
    let n = data.teams.len();
    let mut i: usize = 0;
    proof {
        lemma_step_zero(base, data.teams@, f);
    }
    while i != n
        invariant
            i <= n,
            n == data.teams@.len(),
            base == views(old(errors)@),
            f == team_extra_teams_msgs_fn(*data),
            views(errors@) == base + cat(data.teams@.take(i as int).map_values(f)),
        decreases n - i,
    {
        let team = &data.teams[i];
        proof {
            lemma_step_emit(base, data.teams@, f, i as int, views(errors@));
        }
        let ghost base2 = views(errors@);
        let ghost g = list_extra_teams_msgs_fn(*data);
        let ln = team.lists.len();
        let mut li: usize = 0;
        proof {
            lemma_step_zero(base2, team.lists@, g);
        }
        while li != ln
            invariant
                li <= ln,
                ln == team.lists@.len(),
                g == list_extra_teams_msgs_fn(*data),
                views(errors@) == base2 + cat(team.lists@.take(li as int).map_values(g)),
            decreases ln - li,
        {
            let l = &team.lists[li];
            proof {
                lemma_step_emit(base2, team.lists@, g, li as int, views(errors@));
            }
            let outcome = first_missing_team(data, l);
            wrapper(outcome, errors);
            li = li + 1;
        }
        proof {
            lemma_take_all(team.lists@);
        }
        i = i + 1;
    }
    proof {
        lemma_take_all(data.teams@);
    }
}

/// A character allowed in list addresses: a letter, a digit, or one of
/// `_`, `.`, `-`.
pub open spec fn addr_char(c: char) -> bool {
    ||| ('a' as u32) <= (c as u32) <= ('z' as u32)
    ||| ('A' as u32) <= (c as u32) <= ('Z' as u32)
    ||| ('0' as u32) <= (c as u32) <= ('9' as u32)
    ||| c == '_'
    ||| c == '.'
    ||| c == '-'
}

/// The address splits at position `i`: a nonempty run of address
/// characters, one `@`, and a nonempty run of address characters.
pub open spec fn addr_split_at(s: Seq<char>, i: int) -> bool {
    &&& 1 <= i
    &&& i + 1 < s.len()
    &&& s[i] == '@'
    &&& forall|j: int| 0 <= j < s.len() && j != i ==> addr_char(#[trigger] s[j])
}

/// Whether the address is a well-formed list address.
pub open spec fn is_list_address(s: Seq<char>) -> bool {
    exists|i: int| addr_split_at(s, i)
}

/// The domain of a well-formed list address: what follows the `@`.
pub open spec fn list_domain(s: Seq<char>) -> Seq<char> {
    let i = choose|i: int| addr_split_at(s, i);
    s.subrange(i + 1, s.len() as int)
}

/// Relies on regex::Regex with the anchored pattern
/// `^[a-zA-Z0-9_\.-]+@([a-zA-Z0-9_\.-]+)$`: the pattern matches exactly
/// the strings made of one `@` between two nonempty runs of the character
/// class, and the first capture group is the run after the `@`. The
/// pattern is valid, so compilation cannot fail.
#[verifier::external_body]
fn capture_list_domain(address: &String) -> (r: Option<String>)
    ensures
        r is Some <==> is_list_address(address@),
        r is Some ==> r->0@ == list_domain(address@),
{
    let re = match regex::Regex::new(r"^[a-zA-Z0-9_\.-]+@([a-zA-Z0-9_\.-]+)$") {
        Ok(re) => re,
        Err(_) => return None,
    };
    match re.captures(address) {
        Some(c) => Some(c[1].to_string()),
        None => None,
    }
}

/// What the address check says of one list.
pub open spec fn list_address_msgs_fn(data: Data) -> spec_fn(List) -> Seq<Seq<char>> {
    |l: List|
        if is_list_address(l.address@) {
            if views(data.config.allowed_mailing_lists_domains@).contains(list_domain(l.address@)) {
                Seq::empty()
            } else {
                seq![msg_list_bad_domain(l.address@)]
            }
        } else {
            seq![msg_list_bad_address(l.address@)]
        }
}

/// What the address check says of one team.
pub open spec fn team_addresses_msgs(data: Data, t: Team) -> Seq<Seq<char>> {
    cat(t.lists@.map_values(list_address_msgs_fn(data)))
}

pub open spec fn team_addresses_msgs_fn(data: Data) -> spec_fn(Team) -> Seq<Seq<char>> {
    |t: Team| team_addresses_msgs(data, t)
}

/// Everything the address check reports.
pub open spec fn check_list_addresses(data: Data) -> Seq<Seq<char>> {
    cat(data.teams@.map_values(team_addresses_msgs_fn(data)))
}

/// Every list address is well formed and sits on a domain we own.
pub fn validate_list_addresses(data: &Data, errors: &mut Vec<String>)
    ensures
        views(final(errors)@) == views(old(errors)@) + check_list_addresses(*data),
{
    let ghost base = views(errors@);
    let ghost f = team_addresses_msgs_fn(*data);
    let n = data.teams.len();
    let mut i: usize = 0;
    proof {
        lemma_step_zero(base, data.teams@, f);
    }
    while i != n
        invariant
            i <= n,
            n == data.teams@.len(),
            base == views(old(errors)@),
            f == team_addresses_msgs_fn(*data),
            views(errors@) == base + cat(data.teams@.take(i as int).map_values(f)),
        decreases n - i,
    {
        let team = &data.teams[i];
        proof {
            lemma_step_emit(base, data.teams@, f, i as int, views(errors@));
        }
        let ghost base2 = views(errors@);
        let ghost g = list_address_msgs_fn(*data);
        let ln = team.lists.len();
        let mut li: usize = 0;
        proof {
            lemma_step_zero(base2, team.lists@, g);
        }
        while li != ln
            invariant
                li <= ln,
                ln == team.lists@.len(),
                g == list_address_msgs_fn(*data),
                views(errors@) == base2 + cat(team.lists@.take(li as int).map_values(g)),
            decreases ln - li,
        {
            let l = &team.lists[li];
            proof {
                lemma_step_emit(base2, team.lists@, g, li as int, views(errors@));
            }
            let outcome: Result<(), String> = match capture_list_domain(&l.address) {
                Option::Some(domain) => {
                    if contains_view(&data.config.allowed_mailing_lists_domains, &domain) {
                        Result::Ok(())
                    } else {
                        Result::Err(
                            cat3(
                                "list address on a domain we don't own: `",
                                l.address.as_str(),
                                "`",
                            ),
                        )
                    }
                },
                Option::None => Result::Err(
                    cat3("invalid list address: `", l.address.as_str(), "`"),
                ),
            };
            wrapper(outcome, errors);
            li = li + 1;
        }
        proof {
            lemma_take_all(team.lists@);
        }
        i = i + 1;
    }
    proof {
        lemma_take_all(data.teams@);
    }
}

/// What the person-address check says of one person.
pub open spec fn person_email_msgs(p: Person) -> Seq<Seq<char>> {
    if p.email is Some && !has_char(p.email->0@, '@') {
        seq![msg_bad_email(p.github@, p.email->0@)]
    } else {
        Seq::empty()
    }
}

pub open spec fn person_email_msgs_fn() -> spec_fn(Person) -> Seq<Seq<char>> {
    |p: Person| person_email_msgs(p)
}

/// Everything the person-address check reports, person by person.
pub open spec fn check_people_addresses(data: Data) -> Seq<Seq<char>> {
    cat(data.people@.map_values(person_email_msgs_fn()))
}

/// Every recorded email address holds an `@`.
pub fn validate_people_addresses(data: &Data, errors: &mut Vec<String>)
    ensures
        views(final(errors)@) == views(old(errors)@) + check_people_addresses(*data),
{
    let ghost base = views(errors@);
    let ghost f = person_email_msgs_fn();
    let n = data.people.len();
    let mut i: usize = 0;
    proof {
        lemma_step_zero(base, data.people@, f);
    }
    while i != n
        invariant
            i <= n,
            n == data.people@.len(),
            base == views(old(errors)@),
            f == person_email_msgs_fn(),
            views(errors@) == base + cat(data.people@.take(i as int).map_values(f)),
        decreases n - i,
    {
        let person = &data.people[i];
        proof {
            lemma_step_emit(base, data.people@, f, i as int, views(errors@));
        }
        let outcome: Result<(), String> = match &person.email {
            Option::Some(email) => {
                if !contains_char(email.as_str(), '@') {
                    Result::Err(
                        cat4(
                            "invalid email address of `",
                            person.github.as_str(),
                            "`: ",
                            email.as_str(),
                        ),
                    )
                } else {
                    Result::Ok(())
                }
            },
            Option::None => Result::Ok(()),
        };
        wrapper(outcome, errors);
        i = i + 1;
    }
    proof {
        lemma_take_all(data.people@);
    }
}

} // verus!
