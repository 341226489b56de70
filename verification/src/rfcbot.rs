//! Checks on the bot-integration configuration: labels are unique across
//! teams, and exclude lists hold each member once and only members of the
//! team.
use crate::collect::wrapper;
use crate::data::effective_members_spec;
use crate::data::Data;
use crate::data::Team;
use crate::messages::cat2;
use crate::messages::cat4;
use crate::messages::cat5;
use crate::messages::msg_duplicate_exclude;
use crate::messages::msg_duplicate_label;
use crate::messages::msg_exclude_not_member;
use crate::seqtools::lemma_views_push;
use crate::seqtools::views;
use crate::text::contains_view;
use vstd::prelude::*;

verus! {

/// The label-uniqueness walk over the team list, carrying the labels seen
/// so far: a label seen before is reported, a fresh one is remembered.
pub open spec fn label_walk(teams: Seq<Team>, seen: Seq<Seq<char>>) -> Seq<Seq<char>>
    decreases teams.len(),
{
    if teams.len() == 0 {
        Seq::empty()
    } else {
        match teams[0].rfcbot {
            Option::None => label_walk(teams.drop_first(), seen),
            Option::Some(r) => if seen.contains(r.label@) {
                seq![msg_duplicate_label(r.label@)] + label_walk(teams.drop_first(), seen)
            } else {
                label_walk(teams.drop_first(), seen.push(r.label@))
            },
        }
    }
}

/// Everything the label check reports, in team order.
pub open spec fn check_rfcbot_labels(data: Data) -> Seq<Seq<char>> {
    label_walk(data.teams@, Seq::empty())
}

/// No two teams define the same bot label.
pub fn validate_rfcbot_labels(data: &Data, errors: &mut Vec<String>)
    ensures
        views(final(errors)@) == views(old(errors)@) + check_rfcbot_labels(*data),
{
    let ghost goal = views(errors@) + check_rfcbot_labels(*data);
    let mut seen: Vec<String> = Vec::new();
    let n = data.teams.len();
    let mut i: usize = 0;
    proof {
        assert(data.teams@.skip(0) =~= data.teams@);
        assert(views(seen@) =~= Seq::<Seq<char>>::empty());
    }
    while i != n
        invariant
            i <= n,
            n == data.teams@.len(),
            goal == views(old(errors)@) + check_rfcbot_labels(*data),
            views(errors@) + label_walk(data.teams@.skip(i as int), views(seen@)) == goal,
        decreases n - i,
    {
        let team = &data.teams[i];
        proof {
            assert(data.teams@.skip(i as int)[0] == *team);
            assert(data.teams@.skip(i as int).drop_first() =~= data.teams@.skip(i + 1));
        }
        match &team.rfcbot {
            Option::None => {},
            Option::Some(r) => {
                let dup = contains_view(&seen, &r.label);
                if dup {
                    let ghost pre = errors@;
                    let m = cat2_label(&r.label);
                    errors.push(m);
                    proof {
                        lemma_views_push(pre, errors@.last());
                        assert(views(errors@) =~= views(pre) + seq![msg_duplicate_label(r.label@)]);
                    }
                } else {
                    let ghost pre = seen@;
                    let c = r.label.clone();
                    seen.push(c);
                    proof {
                        lemma_views_push(pre, seen@.last());
                    }
                }
            },
        }
        i = i + 1;
    }
    proof {
        assert(data.teams@.skip(n as int) =~= Seq::<Team>::empty());
        assert(views(errors@) + Seq::<Seq<char>>::empty() =~= views(errors@));
    }
}

fn cat2_label(label: &String) -> (r: String)
    ensures
        r@ == msg_duplicate_label(label@),
{
    cat2("duplicate rfcbot label: ", label.as_str())
}

/// The exclude-list walk over one team's entries, carrying the entries
/// seen so far: a repeated entry is reported as a duplicate, a fresh one
/// is remembered and reported when it is no member of the team.
pub open spec fn exclude_walk(
    team: Seq<char>,
    ms: Seq<Seq<char>>,
    entries: Seq<Seq<char>>,
    seen: Seq<Seq<char>>,
) -> Seq<Seq<char>>
    decreases entries.len(),
{
    if entries.len() == 0 {
        Seq::empty()
    } else {
        let e = entries[0];
        if seen.contains(e) {
            seq![msg_duplicate_exclude(team, e)] + exclude_walk(
                team,
                ms,
                entries.drop_first(),
                seen,
            )
        } else {
            let head = if !ms.contains(e) {
                seq![msg_exclude_not_member(e, team)]
            } else {
                Seq::<Seq<char>>::empty()
            };
            head + exclude_walk(team, ms, entries.drop_first(), seen.push(e))
        }
    }
}

/// What the exclude check says of one team.
pub open spec fn rfcbot_exclude_msgs(data: Data, t: Team) -> Seq<Seq<char>> {
    match t.rfcbot {
        Option::None => Seq::empty(),
        Option::Some(r) => match effective_members_spec(data, t) {
            Result::Err(e) => seq![e],
            Result::Ok(ms) => exclude_walk(
                t.name@,
                ms,
                views(r.exclude_members@),
                Seq::empty(),
            ),
        },
    }
}

pub open spec fn rfcbot_exclude_msgs_fn(data: Data) -> spec_fn(Team) -> Seq<Seq<char>> {
    |t: Team| rfcbot_exclude_msgs(data, t)
}

/// Everything the exclude check reports, team by team.
pub open spec fn check_rfcbot_exclude_members(data: Data) -> Seq<Seq<char>> {
    crate::seqtools::cat(data.teams@.map_values(rfcbot_exclude_msgs_fn(data)))
}

/// Exclude lists name each member once, and only members of the team.
pub fn validate_rfcbot_exclude_members(data: &Data, errors: &mut Vec<String>)
    ensures
        views(final(errors)@) == views(old(errors)@) + check_rfcbot_exclude_members(*data),
{
    let ghost base = views(errors@);
    let ghost f = rfcbot_exclude_msgs_fn(*data);
    let n = data.teams.len();
    let mut i: usize = 0;
    proof {
        crate::collect::lemma_step_zero(base, data.teams@, f);
    }
    while i != n
        invariant
            i <= n,
            n == data.teams@.len(),
            base == views(old(errors)@),
            f == rfcbot_exclude_msgs_fn(*data),
            views(errors@) == base + crate::seqtools::cat(
                data.teams@.take(i as int).map_values(f),
            ),
        decreases n - i,
    {
        let team = &data.teams[i];
        proof {
            crate::collect::lemma_step_emit(base, data.teams@, f, i as int, views(errors@));
        }
        match &team.rfcbot {
            Option::None => {
                proof {
                    assert(views(errors@) + f(data.teams@[i as int]) =~= views(errors@));
                }
            },
            Option::Some(r) => {
                match data.effective_members(team) {
                    Result::Err(e) => {
                        wrapper(Result::Err(e), errors);
                    },
                    Result::Ok(ms) => {
                        let ghost goal2 = views(errors@) + exclude_walk(
                            team.name@,
                            views(ms@),
                            views(r.exclude_members@),
                            Seq::empty(),
                        );
                        let mut seen: Vec<String> = Vec::new();
                        let en = r.exclude_members.len();
                        let mut k: usize = 0;
                        proof {
                            assert(views(r.exclude_members@).skip(0) =~= views(
                                r.exclude_members@,
                            ));
                            assert(views(seen@) =~= Seq::<Seq<char>>::empty());
                        }
                        while k != en
                            invariant
                                k <= en,
                                en == r.exclude_members@.len(),
                                views(errors@) + exclude_walk(
                                    team.name@,
                                    views(ms@),
                                    views(r.exclude_members@).skip(k as int),
                                    views(seen@),
                                ) == goal2,
                            decreases en - k,
                        {
                            let entry = &r.exclude_members[k];
                            proof {
                                assert(views(r.exclude_members@).skip(k as int)[0] == entry@);
                                assert(views(r.exclude_members@).skip(k as int).drop_first()
                                    =~= views(r.exclude_members@).skip(k + 1));
                            }
                            let dup = contains_view(&seen, entry);
                            if dup {
                                let ghost pre = errors@;
                                let m = cat4(
                                    "duplicate member in `",
                                    team.name.as_str(),
                                    "` rfcbot.exclude-members: ",
                                    entry.as_str(),
                                );
                                errors.push(m);
                                proof {
                                    lemma_views_push(pre, errors@.last());
                                    assert(views(errors@) =~= views(pre) + seq![
                                        msg_duplicate_exclude(team.name@, entry@),
                                    ]);
                                }
                            } else {
                                let ghost pre_seen = seen@;
                                let c = entry.clone();
                                seen.push(c);
                                proof {
                                    lemma_views_push(pre_seen, seen@.last());
                                }
                                let is_member = contains_view(&ms, entry);
                                if !is_member {
                                    let ghost pre = errors@;
                                    let m = cat5(
                                        "person `",
                                        entry.as_str(),
                                        "` is not a member of team `",
                                        team.name.as_str(),
                                        "` (in rfcbot.exclude-members)",
                                    );
                                    errors.push(m);
                                    proof {
                                        lemma_views_push(pre, errors@.last());
                                        assert(views(errors@) =~= views(pre) + seq![
                                            msg_exclude_not_member(entry@, team.name@),
                                        ]);
                                    }
                                } else {
                                    proof {
                                        assert(views(errors@) + Seq::<Seq<char>>::empty()
                                            =~= views(errors@));
                                    }
                                }
                            }
                            k = k + 1;
                        }
                        proof {
                            assert(views(r.exclude_members@).skip(en as int) =~= Seq::<
                                Seq<char>,
                            >::empty());
                            assert(views(errors@) + Seq::<Seq<char>>::empty() =~= views(errors@));
                        }
                    },
                }
            },
        }
        i = i + 1;
    }
    proof {
        crate::seqtools::lemma_take_all(data.teams@);
    }
}

} // verus!
