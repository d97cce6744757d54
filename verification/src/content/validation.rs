//! Validation of campaign content and of events entering it.

use vstd::prelude::*;
use crate::text::{
    views, spec_blank, is_blank, decimal, join, push_text, texts_contain, text_of, cat2, cat3,
    cat4, cat5, cat6, append_decimal, append_text, join_texts, copy_texts, extend_texts,
};
use crate::content::{
    CampaignContent, FactionContent, EventContent, EventConditionContent, LocationContent, NpcContent, QuestContent,
    EncounterContent, LocationAtmosphere, event_ids, event_id_list, location_ids, location_names,
    faction_ids, faction_names, npc_ids, npc_names, quest_ids, item_visual_names, location_id_list,
    location_name_list, faction_id_list, faction_name_list, npc_id_list, npc_name_list, quest_id_list,
    item_visual_name_list,
};

verus! {

/// A one-issue list when `cond` holds, else no issue.
pub open spec fn opt_issue(cond: bool, msg: Seq<char>) -> Seq<Seq<char>> {
    if cond { seq![msg] } else { seq![] }
}

/// One issue, `prefix` followed by the name, for each name that `known` lacks, in order.
pub open spec fn unknown_name_issues(names: Seq<Seq<char>>, known: Seq<Seq<char>>, prefix: Seq<char>) -> Seq<Seq<char>>
    decreases names.len(),
{
    if names.len() == 0 {
        seq![]
    } else {
        unknown_name_issues(names.drop_last(), known, prefix)
            + opt_issue(!known.contains(names.last()), prefix + names.last())
    }
}

/// Whether an optional name is present and blank.
pub open spec fn blank_name(name: Option<String>) -> bool {
    match name {
        Some(n) => spec_blank(n@),
        None => false,
    }
}

/// The issue of an inverted day range.
pub open spec fn day_range_issue(c: EventConditionContent) -> Seq<Seq<char>> {
    match (c.min_day, c.max_day) {
        (Some(lo), Some(hi)) => opt_issue(lo > hi, "min_day greater than max_day"@),
        _ => seq![],
    }
}

/// The issue of a prior event id that is not known.
pub open spec fn prior_event_issue(c: EventConditionContent, known: Seq<Seq<char>>) -> Seq<Seq<char>> {
    match c.prior_event_id {
        Some(p) => opt_issue(!known.contains(p@), "unknown prior event id "@ + p@),
        None => seq![],
    }
}

/// The issue of a faction name that is not known.
pub open spec fn faction_issue(c: EventConditionContent, facs: Seq<Seq<char>>) -> Seq<Seq<char>> {
    match c.faction_name {
        Some(f) => opt_issue(!facs.contains(f@), "unknown faction "@ + f@),
        None => seq![],
    }
}

/// Whether a reputation bound is given without the faction it is measured against.
pub open spec fn reputation_without_faction(c: EventConditionContent) -> bool {
    (c.min_reputation is Some || c.max_reputation is Some) && c.faction_name is None
}

/// The issue of an inverted reputation range.
pub open spec fn reputation_range_issue(c: EventConditionContent) -> Seq<Seq<char>> {
    match (c.min_reputation, c.max_reputation) {
        (Some(lo), Some(hi)) => opt_issue(lo > hi, "min_reputation greater than max_reputation"@),
        _ => seq![],
    }
}

/// The issues of an event's conditions, as an event entering content is checked.
pub open spec fn condition_issues(
    c: EventConditionContent,
    locs: Seq<Seq<char>>,
    facs: Seq<Seq<char>>,
    known: Seq<Seq<char>>,
) -> Seq<Seq<char>> {
    unknown_name_issues(views(c.locations@), locs, "unknown location "@)
    + day_range_issue(c)
    + prior_event_issue(c, known)
    + faction_issue(c, facs)
    + opt_issue(reputation_without_faction(c), "reputation condition requires faction_name"@)
    + reputation_range_issue(c)
    + opt_issue(blank_name(c.required_item_name), "required_item_name cannot be empty"@)
    + opt_issue(blank_name(c.required_condition_name), "required_condition_name cannot be empty"@)
}

/// The issues that keep an event out of content, checked against the known location names,
/// faction names and event ids.
pub open spec fn event_issues(
    e: EventContent,
    locs: Seq<Seq<char>>,
    facs: Seq<Seq<char>>,
    known: Seq<Seq<char>>,
) -> Seq<Seq<char>> {
    opt_issue(spec_blank(e.id@), "empty id"@)
    + opt_issue(spec_blank(e.trigger@), "empty trigger"@)
    + opt_issue(e.weight == 0, "zero weight"@)
    + (match e.chance_percent {
        Some(ch) => opt_issue(ch > 100, "invalid chance "@ + decimal(ch as nat)),
        None => seq![],
    })
    + opt_issue(e.effects@.len() == 0, "no effects"@)
    + (match e.conditions {
        Some(c) => condition_issues(c, locs, facs, known),
        None => seq![],
    })
}

/// Pushes an issue when `cond` holds.
fn push_if(issues: &mut Vec<String>, cond: bool, msg: String)
    ensures
        views(final(issues)@) == views(old(issues)@) + opt_issue(cond, msg@),
{
    if cond {
        push_text(issues, msg);
    }
    assert(views(final(issues)@) =~= views(old(issues)@) + opt_issue(cond, msg@));
}

/// Pushes `prefix` followed by the name for each of `names` that `known` lacks.
pub fn push_unknown_names(issues: &mut Vec<String>, names: &[String], known: &[String], prefix: &str)
    ensures
        views(final(issues)@) == views(old(issues)@) + unknown_name_issues(views(names@), views(known@), prefix@),
{
    let ghost start = views(issues@);
    let mut i: usize = 0;
    while i < names.len()
        invariant
            i <= names@.len(),
            views(issues@) == start + unknown_name_issues(views(names@).take(i as int), views(known@), prefix@),
        decreases names@.len() - i,
    {
        let missing = !texts_contain(known, names[i].as_str());
        push_if(issues, missing, cat2(prefix, names[i].as_str()));
        proof {
            let t = views(names@).take(i + 1);
            assert(t.drop_last() =~= views(names@).take(i as int));
            assert(t.last() == names@[i as int]@);
            assert(views(issues@) =~= start + unknown_name_issues(t, views(known@), prefix@));
        }
        i = i + 1;
    }
    assert(views(names@).take(names@.len() as int) =~= views(names@));
}

/// Whether an optional name is present and blank.
fn is_blank_name(name: &Option<String>) -> (b: bool)
    ensures
        b == blank_name(*name),
{
    match name {
        Some(n) => is_blank(n.as_str()),
        None => false,
    }
}

fn push_day_range_issue(issues: &mut Vec<String>, c: &EventConditionContent)
    ensures
        views(final(issues)@) == views(old(issues)@) + day_range_issue(*c),
{
    match (c.min_day, c.max_day) {
        (Some(lo), Some(hi)) => push_if(issues, lo > hi, text_of("min_day greater than max_day")),
        _ => {
            assert(views(issues@) =~= views(issues@) + day_range_issue(*c));
        },
    }
}

fn push_prior_event_issue(issues: &mut Vec<String>, c: &EventConditionContent, known_ids: &[String])
    ensures
        views(final(issues)@) == views(old(issues)@) + prior_event_issue(*c, views(known_ids@)),
{
    match &c.prior_event_id {
        Some(p) => {
            let missing = !texts_contain(known_ids, p.as_str());
            push_if(issues, missing, cat2("unknown prior event id ", p.as_str()));
        },
        None => {
            assert(views(issues@) =~= views(issues@) + prior_event_issue(*c, views(known_ids@)));
        },
    }
}

fn push_faction_issue(issues: &mut Vec<String>, c: &EventConditionContent, faction_names: &[String])
    ensures
        views(final(issues)@) == views(old(issues)@) + faction_issue(*c, views(faction_names@)),
{
    match &c.faction_name {
        Some(f) => {
            let missing = !texts_contain(faction_names, f.as_str());
            push_if(issues, missing, cat2("unknown faction ", f.as_str()));
        },
        None => {
            assert(views(issues@) =~= views(issues@) + faction_issue(*c, views(faction_names@)));
        },
    }
}

fn push_reputation_range_issue(issues: &mut Vec<String>, c: &EventConditionContent)
    ensures
        views(final(issues)@) == views(old(issues)@) + reputation_range_issue(*c),
{
    match (c.min_reputation, c.max_reputation) {
        (Some(lo), Some(hi)) => push_if(issues, lo > hi, text_of("min_reputation greater than max_reputation")),
        _ => {
            assert(views(issues@) =~= views(issues@) + reputation_range_issue(*c));
        },
    }
}

proof fn lemma_cat_assoc(a: Seq<Seq<char>>, b: Seq<Seq<char>>, c: Seq<Seq<char>>)
    ensures
        a + (b + c) == (a + b) + c,
{
    assert(a + (b + c) =~= (a + b) + c);
}

#[verifier::spinoff_prover]
fn push_condition_issues(
    issues: &mut Vec<String>,
    c: &EventConditionContent,
    location_names: &[String],
    faction_names: &[String],
    known_ids: &[String],
)
    ensures
        views(final(issues)@) == views(old(issues)@) + condition_issues(*c, views(location_names@), views(faction_names@), views(known_ids@)),
{
    let ghost start = views(issues@);
    let ghost locs = views(location_names@);
    let ghost facs = views(faction_names@);
    let ghost known = views(known_ids@);
    push_unknown_names(issues, c.locations.as_slice(), location_names, "unknown location ");
    let ghost p1 = unknown_name_issues(views(c.locations@), locs, "unknown location "@);
    push_day_range_issue(issues, c);
    let ghost q = day_range_issue(*c);
    proof { lemma_cat_assoc(start, p1, q); }
    let ghost p2 = p1 + q;
    push_prior_event_issue(issues, c, known_ids);
    let ghost q = prior_event_issue(*c, known);
    proof { lemma_cat_assoc(start, p2, q); }
    let ghost p3 = p2 + q;
    push_faction_issue(issues, c, faction_names);
    let ghost q = faction_issue(*c, facs);
    proof { lemma_cat_assoc(start, p3, q); }
    let ghost p4 = p3 + q;
    push_if(
        issues,
        (c.min_reputation.is_some() || c.max_reputation.is_some()) && c.faction_name.is_none(),
        text_of("reputation condition requires faction_name"),
    );
    let ghost q = opt_issue(reputation_without_faction(*c), "reputation condition requires faction_name"@);
    proof { lemma_cat_assoc(start, p4, q); }
    let ghost p5 = p4 + q;
    push_reputation_range_issue(issues, c);
    let ghost q = reputation_range_issue(*c);
    proof { lemma_cat_assoc(start, p5, q); }
    let ghost p6 = p5 + q;
    push_if(issues, is_blank_name(&c.required_item_name), text_of("required_item_name cannot be empty"));
    let ghost q = opt_issue(blank_name(c.required_item_name), "required_item_name cannot be empty"@);
    proof { lemma_cat_assoc(start, p6, q); }
    let ghost p7 = p6 + q;
    push_if(issues, is_blank_name(&c.required_condition_name), text_of("required_condition_name cannot be empty"));
    let ghost q = opt_issue(blank_name(c.required_condition_name), "required_condition_name cannot be empty"@);
    proof { lemma_cat_assoc(start, p7, q); }
}

/// The issues that keep `event` out of content.
pub fn validate_event_content(
    event: &EventContent,
    location_names: &[String],
    faction_names: &[String],
    known_ids: &[String],
) -> (issues: Vec<String>)
    ensures
        views(issues@) == event_issues(*event, views(location_names@), views(faction_names@), views(known_ids@)),
{
    let mut issues: Vec<String> = Vec::new();
    push_if(&mut issues, is_blank(event.id.as_str()), text_of("empty id"));
    push_if(&mut issues, is_blank(event.trigger.as_str()), text_of("empty trigger"));
    push_if(&mut issues, event.weight == 0, text_of("zero weight"));
    match event.chance_percent {
        Some(ch) => {
            let mut msg = text_of("invalid chance ");
            append_decimal(&mut msg, ch as u64);
            push_if(&mut issues, ch > 100, msg);
        },
        None => {},
    }
    push_if(&mut issues, event.effects.len() == 0, text_of("no effects"));
    match &event.conditions {
        Some(c) => push_condition_issues(&mut issues, c, location_names, faction_names, known_ids),
        None => {},
    }
    assert(views(issues@) =~= event_issues(*event, views(location_names@), views(faction_names@), views(known_ids@)));
    issues
}


/// The warning for an event turned away by screening.
pub open spec fn rejection_message(id: Seq<char>, source: Seq<char>, issues: Seq<Seq<char>>) -> Seq<char> {
    "rejecting event '"@ + id + "' from "@ + source + ": "@ + join(issues, "; "@)
}

/// The warning for an event whose prior event did not make it into content.
pub open spec fn missing_prior_message(id: Seq<char>, source: Seq<char>, prior: Seq<char>) -> Seq<char> {
    "rejecting event '"@ + id + "' from "@ + source + ": prior event '"@ + prior
        + "' was rejected or unavailable"@
}

/// The issues of an event in screening, where `seen` holds the ids met before it.
pub open spec fn screening_issues(
    e: EventContent,
    locs: Seq<Seq<char>>,
    facs: Seq<Seq<char>>,
    known: Seq<Seq<char>>,
    seen: Seq<Seq<char>>,
) -> Seq<Seq<char>> {
    event_issues(e, locs, facs, known) + opt_issue(seen.contains(e.id@), "duplicate event id "@ + e.id@)
}

/// Screening: the events with no issue, in order, and a warning for each other event.
/// An id is a duplicate when an existing event or an earlier incoming event has it.
pub open spec fn screen_events(
    events: Seq<EventContent>,
    locs: Seq<Seq<char>>,
    facs: Seq<Seq<char>>,
    known: Seq<Seq<char>>,
    existing: Seq<Seq<char>>,
    source: Seq<char>,
) -> (Seq<EventContent>, Seq<Seq<char>>)
    decreases events.len(),
{
    if events.len() == 0 {
        (seq![], seq![])
    } else {
        let r = screen_events(events.drop_last(), locs, facs, known, existing, source);
        let e = events.last();
        let issues = screening_issues(e, locs, facs, known, existing + event_ids(events.drop_last()));
        if issues.len() == 0 {
            (r.0.push(e), r.1)
        } else {
            (r.0, r.1.push(rejection_message(e.id@, source, issues)))
        }
    }
}

/// The prior event id that an event's conditions name, if any.
pub open spec fn prior_reference(e: EventContent) -> Option<Seq<char>> {
    match e.conditions {
        Some(c) => match c.prior_event_id {
            Some(p) => Some(p@),
            None => None,
        },
        None => None,
    }
}

/// Whether an event names a prior event that `available` lacks.
pub open spec fn misses_prior(e: EventContent, available: Seq<Seq<char>>) -> bool {
    match prior_reference(e) {
        Some(p) => !available.contains(p),
        None => false,
    }
}

/// One pruning round: the events whose prior event is available, and a warning for each other.
pub open spec fn prune_round(
    pending: Seq<EventContent>,
    available: Seq<Seq<char>>,
    source: Seq<char>,
) -> (Seq<EventContent>, Seq<Seq<char>>)
    decreases pending.len(),
{
    if pending.len() == 0 {
        (seq![], seq![])
    } else {
        let r = prune_round(pending.drop_last(), available, source);
        let e = pending.last();
        if misses_prior(e, available) {
            (r.0, r.1.push(missing_prior_message(e.id@, source, prior_reference(e)->0)))
        } else {
            (r.0.push(e), r.1)
        }
    }
}

/// Every pending event is either kept or warned about in a round.
pub proof fn lemma_prune_round_len(pending: Seq<EventContent>, available: Seq<Seq<char>>, source: Seq<char>)
    ensures
        prune_round(pending, available, source).0.len() + prune_round(pending, available, source).1.len()
            == pending.len(),
    decreases pending.len(),
{
    if pending.len() > 0 {
        lemma_prune_round_len(pending.drop_last(), available, source);
    }
}

/// Pruning repeats rounds, each against the existing ids and those still pending, until a
/// round removes nothing.
pub open spec fn prune_missing_priors(
    pending: Seq<EventContent>,
    existing: Seq<Seq<char>>,
    source: Seq<char>,
) -> (Seq<EventContent>, Seq<Seq<char>>)
    decreases pending.len(),
{
    let r = prune_round(pending, existing + event_ids(pending), source);
    if r.1.len() == 0 {
        (pending, seq![])
    } else {
        proof {
            lemma_prune_round_len(pending, existing + event_ids(pending), source);
        }
        let rest = prune_missing_priors(r.0, existing, source);
        (rest.0, r.1 + rest.1)
    }
}

/// The accepted events and the warnings of filtering incoming events.
pub open spec fn filter_events(
    events: Seq<EventContent>,
    locs: Seq<Seq<char>>,
    facs: Seq<Seq<char>>,
    known: Seq<Seq<char>>,
    existing: Seq<Seq<char>>,
    source: Seq<char>,
) -> (Seq<EventContent>, Seq<Seq<char>>) {
    let s = screen_events(events, locs, facs, known, existing, source);
    let p = prune_missing_priors(s.0, existing, source);
    (p.0, s.1 + p.1)
}


/// A round that warns about nothing keeps every event.
pub proof fn lemma_prune_round_keeps_all(pending: Seq<EventContent>, available: Seq<Seq<char>>, source: Seq<char>)
    requires
        prune_round(pending, available, source).1.len() == 0,
    ensures
        prune_round(pending, available, source).0 == pending,
    decreases pending.len(),
{
    if pending.len() > 0 {
        let r = prune_round(pending.drop_last(), available, source);
        if !misses_prior(pending.last(), available) {
            lemma_prune_round_keeps_all(pending.drop_last(), available, source);
            assert(pending.drop_last().push(pending.last()) =~= pending);
        }
    } else {
        assert(pending =~= seq![]);
    }
}

/// One pruning round over `pending`, pushing a warning for each event it removes.
fn run_prune_round(
    pending: Vec<EventContent>,
    available: &[String],
    source: &str,
    warnings: &mut Vec<String>,
) -> (kept: Vec<EventContent>)
    ensures
        kept@ == prune_round(pending@, views(available@), source@).0,
        views(final(warnings)@) == views(old(warnings)@) + prune_round(pending@, views(available@), source@).1,
{
    let ghost all = pending@;
    let ghost avail = views(available@);
    let ghost w0 = views(warnings@);
    let mut kept: Vec<EventContent> = Vec::new();
    let n = pending.len();
    let mut rest = pending;
    let mut j: usize = 0;
    while rest.len() > 0
        invariant
            all.len() == n,
            avail == views(available@),
            j <= all.len(),
            rest@ == all.skip(j as int),
            kept@ == prune_round(all.take(j as int), avail, source@).0,
            views(warnings@) == w0 + prune_round(all.take(j as int), avail, source@).1,
        decreases rest@.len(),
    {
        proof {
            assert(rest@[0] == all[j as int]);
        }
        let event = rest.remove(0);
        let ghost t = all.take(j + 1);
        proof {
            assert(t.drop_last() =~= all.take(j as int));
            assert(t.last() == event);
            assert(rest@ =~= all.skip(j + 1));
        }
        let mut missing: Option<String> = None;
        match &event.conditions {
            Some(c) => match &c.prior_event_id {
                Some(p) => {
                    if !texts_contain(available, p.as_str()) {
                        missing = Some(p.clone());
                    }
                },
                None => {},
            },
            None => {},
        }
        proof {
            assert(misses_prior(event, avail) == missing is Some);
            if missing is Some {
                assert(prior_reference(event) == Some(missing->0@));
            }
        }
        match missing {
            Some(p) => {
                let msg = cat5("rejecting event '", event.id.as_str(), "' from ", source, ": prior event '");
                let msg = cat3(msg.as_str(), p.as_str(), "' was rejected or unavailable");
                push_text(warnings, msg);
                proof {
                    assert(views(warnings@) =~= w0 + prune_round(t, avail, source@).1);
                }
            },
            None => {
                kept.push(event);
                proof {
                    assert(views(warnings@) =~= w0 + prune_round(t, avail, source@).1);
                }
            },
        }
        j = j + 1;
    }
    proof {
        assert(all.take(j as int) =~= all);
    }
    kept
}

/// Screens incoming events against `location_names`, `faction_names` and `known_ids`,
/// rejects ids already taken by `existing_ids` or by an earlier incoming event, then
/// prunes, round by round, the events whose prior event did not make it. Every event
/// turned away gets a warning naming `source`.
pub fn filter_valid_events(
    events: Vec<EventContent>,
    location_names: &[String],
    faction_names: &[String],
    known_ids: &[String],
    existing_ids: &[String],
    source: &str,
    warnings: &mut Vec<String>,
) -> (accepted: Vec<EventContent>)
    ensures
        accepted@ == filter_events(events@, views(location_names@), views(faction_names@),
            views(known_ids@), views(existing_ids@), source@).0,
        views(final(warnings)@) == views(old(warnings)@) + filter_events(events@, views(location_names@),
            views(faction_names@), views(known_ids@), views(existing_ids@), source@).1,
{
    let ghost all = events@;
    let ghost locs = views(location_names@);
    let ghost facs = views(faction_names@);
    let ghost known = views(known_ids@);
    let ghost existing = views(existing_ids@);
    let ghost w0 = views(warnings@);
    let mut seen = copy_texts(existing_ids);
    let mut pending: Vec<EventContent> = Vec::new();
    let n = events.len();
    let mut rest = events;
    let mut i: usize = 0;
    while rest.len() > 0
        invariant
            all.len() == n,
            locs == views(location_names@),
            facs == views(faction_names@),
            known == views(known_ids@),
            existing == views(existing_ids@),
            i <= all.len(),
            rest@ == all.skip(i as int),
            views(seen@) == existing + event_ids(all.take(i as int)),
            pending@ == screen_events(all.take(i as int), locs, facs, known, existing, source@).0,
            views(warnings@) == w0 + screen_events(all.take(i as int), locs, facs, known, existing, source@).1,
        decreases rest@.len(),
    {
        proof {
            assert(rest@[0] == all[i as int]);
        }
        let event = rest.remove(0);
        let ghost t = all.take(i + 1);
        proof {
            assert(t.drop_last() =~= all.take(i as int));
            assert(t.last() == event);
            assert(rest@ =~= all.skip(i + 1));
        }
        let mut issues = validate_event_content(&event, location_names, faction_names, known_ids);
        let duplicate = texts_contain(seen.as_slice(), event.id.as_str());
        push_if(&mut issues, duplicate, cat2("duplicate event id ", event.id.as_str()));
        push_text(&mut seen, event.id.clone());
        proof {
            assert(event_ids(t) =~= event_ids(all.take(i as int)).push(event.id@));
            assert(views(seen@) =~= existing + event_ids(t));
        }
        if issues.len() == 0 {
            pending.push(event);
        } else {
            let joined = join_texts(issues.as_slice(), "; ");
            let msg = cat6("rejecting event '", event.id.as_str(), "' from ", source, ": ", joined.as_str());
            push_text(warnings, msg);
            proof {
                assert(views(warnings@) =~= w0 + screen_events(t, locs, facs, known, existing, source@).1);
            }
        }
        i = i + 1;
    }
    proof {
        assert(all.take(i as int) =~= all);
    }
    let ghost p0 = pending@;
    let ghost w1 = views(warnings@);
    loop
        invariant_except_break
            existing == views(existing_ids@),
            prune_missing_priors(pending@, existing, source@).0 == prune_missing_priors(p0, existing, source@).0,
            w1 + prune_missing_priors(p0, existing, source@).1
                == views(warnings@) + prune_missing_priors(pending@, existing, source@).1,
        ensures
            pending@ == prune_missing_priors(p0, existing, source@).0,
            views(warnings@) == w1 + prune_missing_priors(p0, existing, source@).1,
        decreases pending@.len(),
    {
        let ghost cur = pending@;
        let ghost wb = views(warnings@);
        let mut available = copy_texts(existing_ids);
        let ids = event_id_list(pending.as_slice());
        extend_texts(&mut available, ids.as_slice());
        let before = warnings.len();
        let kept = run_prune_round(pending, available.as_slice(), source, warnings);
        let ghost avail = existing + event_ids(cur);
        let ghost r = prune_round(cur, avail, source@);
        assert(views(available@) == avail);
        assert(wb.len() == before);
        assert(views(warnings@) == wb + r.1);
        assert(views(warnings@).len() == warnings@.len());
        pending = kept;
        if warnings.len() == before {
            proof {
                assert(r.1.len() == 0);
                lemma_prune_round_keeps_all(cur, avail, source@);
                assert(views(warnings@) =~= wb);
                assert(views(warnings@) + seq![] =~= views(warnings@));
            }
            break;
        }
        proof {
            lemma_prune_round_len(cur, avail, source@);
            let rest = prune_missing_priors(r.0, existing, source@);
            assert(prune_missing_priors(cur, existing, source@) == (rest.0, r.1 + rest.1));
            assert(views(warnings@) + rest.1 =~= wb + (r.1 + rest.1));
        }
    }
    pending
}


/// No two events share an id.
pub open spec fn distinct_ids(s: Seq<EventContent>) -> bool {
    forall|i: int, j: int| 0 <= i < j < s.len() ==> s[i].id@ != s[j].id@
}

proof fn lemma_screen(
    events: Seq<EventContent>,
    locs: Seq<Seq<char>>,
    facs: Seq<Seq<char>>,
    known: Seq<Seq<char>>,
    existing: Seq<Seq<char>>,
    source: Seq<char>,
)
    ensures
        ({
            let r = screen_events(events, locs, facs, known, existing, source);
            &&& r.0.len() + r.1.len() == events.len()
            &&& distinct_ids(r.0)
            &&& forall|i: int| 0 <= i < r.0.len() ==> {
                &&& events.contains(#[trigger] r.0[i])
                &&& event_issues(r.0[i], locs, facs, known).len() == 0
                &&& !existing.contains(r.0[i].id@)
            }
        }),
    decreases events.len(),
{
    if events.len() > 0 {
        let prev = events.drop_last();
        lemma_screen(prev, locs, facs, known, existing, source);
        let r0 = screen_events(prev, locs, facs, known, existing, source);
        let e = events.last();
        let seen = existing + event_ids(prev);
        let issues = screening_issues(e, locs, facs, known, seen);
        let r = screen_events(events, locs, facs, known, existing, source);
        assert forall|i: int| 0 <= i < r0.0.len() implies events.contains(#[trigger] r0.0[i]) by {
            let k = choose|k: int| 0 <= k < prev.len() && prev[k] == r0.0[i];
            assert(events[k] == prev[k]);
        }
        if issues.len() == 0 {
            assert(event_issues(e, locs, facs, known).len() == 0);
            assert(!seen.contains(e.id@));
            assert forall|k: int| 0 <= k < existing.len() implies existing[k] != e.id@ by {
                assert(seen[k] == existing[k]);
            }
            assert forall|k: int| 0 <= k < prev.len() implies prev[k].id@ != e.id@ by {
                assert(seen[existing.len() + k] == event_ids(prev)[k]);
            }
            assert(events.contains(e)) by {
                assert(events[events.len() - 1] == e);
            }
            assert forall|i: int, j: int| 0 <= i < j < r.0.len() implies r.0[i].id@ != r.0[j].id@ by {
                if j == r.0.len() - 1 {
                    assert(r.0[j] == e);
                    assert(r.0[i] == r0.0[i]);
                    let k = choose|k: int| 0 <= k < prev.len() && prev[k] == r0.0[i];
                } else {
                    assert(r.0[i] == r0.0[i]);
                    assert(r.0[j] == r0.0[j]);
                }
            }
            assert forall|i: int| 0 <= i < r.0.len() implies {
                &&& events.contains(#[trigger] r.0[i])
                &&& event_issues(r.0[i], locs, facs, known).len() == 0
                &&& !existing.contains(r.0[i].id@)
            } by {
                if i < r0.0.len() {
                    assert(r.0[i] == r0.0[i]);
                }
            }
        }
    }
}

proof fn lemma_round(pending: Seq<EventContent>, available: Seq<Seq<char>>, source: Seq<char>)
    ensures
        ({
            let r = prune_round(pending, available, source);
            &&& r.0.len() + r.1.len() == pending.len()
            &&& distinct_ids(pending) ==> distinct_ids(r.0)
            &&& forall|i: int| 0 <= i < r.0.len() ==> pending.contains(#[trigger] r.0[i])
            &&& r.1.len() == 0 ==> forall|i: int| 0 <= i < pending.len() ==> !misses_prior(#[trigger] pending[i], available)
        }),
    decreases pending.len(),
{
    if pending.len() > 0 {
        let prev = pending.drop_last();
        lemma_round(prev, available, source);
        let r0 = prune_round(prev, available, source);
        let r = prune_round(pending, available, source);
        let e = pending.last();
        assert forall|i: int| 0 <= i < r0.0.len() implies pending.contains(#[trigger] r0.0[i]) by {
            let k = choose|k: int| 0 <= k < prev.len() && prev[k] == r0.0[i];
            assert(pending[k] == prev[k]);
        }
        if !misses_prior(e, available) {
            assert(pending.contains(e)) by {
                assert(pending[pending.len() - 1] == e);
            }
            assert forall|i: int| 0 <= i < r.0.len() implies pending.contains(#[trigger] r.0[i]) by {
                if i < r0.0.len() {
                    assert(r.0[i] == r0.0[i]);
                }
            }
            if distinct_ids(pending) {
                assert(distinct_ids(prev)) by {
                    assert forall|i: int, j: int| 0 <= i < j < prev.len() implies prev[i].id@ != prev[j].id@ by {
                        assert(prev[i] == pending[i]);
                        assert(prev[j] == pending[j]);
                    }
                }
                assert forall|i: int, j: int| 0 <= i < j < r.0.len() implies r.0[i].id@ != r.0[j].id@ by {
                    if j == r.0.len() - 1 {
                        assert(r.0[i] == r0.0[i]);
                        let k = choose|k: int| 0 <= k < prev.len() && prev[k] == r0.0[i];
                        assert(pending[k] == prev[k]);
                        assert(pending[pending.len() - 1] == e);
                    } else {
                        assert(r.0[i] == r0.0[i]);
                        assert(r.0[j] == r0.0[j]);
                    }
                }
            }
            if r.1.len() == 0 {
                assert forall|i: int| 0 <= i < pending.len() implies !misses_prior(#[trigger] pending[i], available) by {
                    if i < prev.len() {
                        assert(pending[i] == prev[i]);
                    }
                }
            }
        }
    }
}

proof fn lemma_prune(pending: Seq<EventContent>, existing: Seq<Seq<char>>, source: Seq<char>)
    ensures
        ({
            let r = prune_missing_priors(pending, existing, source);
            &&& r.0.len() + r.1.len() == pending.len()
            &&& distinct_ids(pending) ==> distinct_ids(r.0)
            &&& forall|i: int| 0 <= i < r.0.len() ==> pending.contains(#[trigger] r.0[i])
            &&& forall|i: int| 0 <= i < r.0.len() ==> !misses_prior(#[trigger] r.0[i], existing + event_ids(r.0))
        }),
    decreases pending.len(),
{
    let avail = existing + event_ids(pending);
    let round = prune_round(pending, avail, source);
    lemma_round(pending, avail, source);
    if round.1.len() == 0 {
    } else {
        lemma_prune(round.0, existing, source);
        let rest = prune_missing_priors(round.0, existing, source);
        assert forall|i: int| 0 <= i < rest.0.len() implies pending.contains(#[trigger] rest.0[i]) by {
            let k = choose|k: int| 0 <= k < round.0.len() && round.0[k] == rest.0[i];
            assert(pending.contains(round.0[k]));
        }
    }
}

/// What filtering guarantees of the events it accepts: their ids are distinct and none is
/// already taken by existing content, each passes validation, each comes from the incoming
/// events, each prior event it names is existing or accepted, and every incoming event is
/// either accepted or warned about exactly once.
pub proof fn law_filter_events(
    events: Seq<EventContent>,
    locs: Seq<Seq<char>>,
    facs: Seq<Seq<char>>,
    known: Seq<Seq<char>>,
    existing: Seq<Seq<char>>,
    source: Seq<char>,
)
    ensures
        ({
            let r = filter_events(events, locs, facs, known, existing, source);
            &&& r.0.len() + r.1.len() == events.len()
            &&& distinct_ids(r.0)
            &&& forall|i: int| 0 <= i < r.0.len() ==> {
                &&& events.contains(#[trigger] r.0[i])
                &&& event_issues(r.0[i], locs, facs, known).len() == 0
                &&& !existing.contains(r.0[i].id@)
                &&& (prior_reference(r.0[i]) matches Some(p) ==> (existing + event_ids(r.0)).contains(p))
            }
        }),
{
    let s = screen_events(events, locs, facs, known, existing, source);
    lemma_screen(events, locs, facs, known, existing, source);
    lemma_prune(s.0, existing, source);
    let p = prune_missing_priors(s.0, existing, source);
    assert forall|i: int| 0 <= i < p.0.len() implies {
        &&& events.contains(#[trigger] p.0[i])
        &&& event_issues(p.0[i], locs, facs, known).len() == 0
        &&& !existing.contains(p.0[i].id@)
        &&& (prior_reference(p.0[i]) matches Some(q) ==> (existing + event_ids(p.0)).contains(q))
    } by {
        let k = choose|k: int| 0 <= k < s.0.len() && s.0[k] == p.0[i];
        assert(s.0.contains(p.0[i]));
        assert(!misses_prior(p.0[i], existing + event_ids(p.0)));
    }
}


/// The issue of an unrecognized content version.
pub open spec fn version_issue(version: u32) -> Seq<Seq<char>> {
    opt_issue(version != 1, "content version "@ + decimal(version as nat) + " is not recognized"@)
}

/// One issue for each id that repeats an earlier one.
pub open spec fn duplicate_issues(kind: Seq<char>, ids: Seq<Seq<char>>) -> Seq<Seq<char>>
    decreases ids.len(),
{
    if ids.len() == 0 {
        seq![]
    } else {
        duplicate_issues(kind, ids.drop_last())
            + opt_issue(ids.drop_last().contains(ids.last()), "duplicate "@ + kind + " id "@ + ids.last())
    }
}

/// The issues of exits that name no location id.
pub open spec fn exit_issues(locs: Seq<LocationContent>, ids: Seq<Seq<char>>) -> Seq<Seq<char>>
    decreases locs.len(),
{
    if locs.len() == 0 {
        seq![]
    } else {
        let l = locs.last();
        exit_issues(locs.drop_last(), ids)
            + unknown_name_issues(views(l.exits@), ids, "location "@ + l.id@ + " exits to unknown location id "@)
    }
}

/// The issues of one npc's references.
pub open spec fn npc_issues(n: NpcContent, locs: Seq<Seq<char>>, facs: Seq<Seq<char>>) -> Seq<Seq<char>> {
    opt_issue(!locs.contains(n.location_name@), "npc "@ + n.id@ + " uses unknown location "@ + n.location_name@)
    + (match n.faction_name {
        Some(f) => opt_issue(!facs.contains(f@), "npc "@ + n.id@ + " uses unknown faction "@ + f@),
        None => seq![],
    })
}

pub open spec fn npc_list_issues(s: Seq<NpcContent>, locs: Seq<Seq<char>>, facs: Seq<Seq<char>>) -> Seq<Seq<char>>
    decreases s.len(),
{
    if s.len() == 0 { seq![] } else { npc_list_issues(s.drop_last(), locs, facs) + npc_issues(s.last(), locs, facs) }
}

/// The issues of one quest's references.
pub open spec fn quest_issues(q: QuestContent, locs: Seq<Seq<char>>, facs: Seq<Seq<char>>, npcs: Seq<Seq<char>>) -> Seq<Seq<char>> {
    opt_issue(!locs.contains(q.location_name@), "quest "@ + q.id@ + " uses unknown location "@ + q.location_name@)
    + opt_issue(!facs.contains(q.faction_name@), "quest "@ + q.id@ + " uses unknown faction "@ + q.faction_name@)
    + opt_issue(!npcs.contains(q.giver_npc_name@), "quest "@ + q.id@ + " uses unknown giver "@ + q.giver_npc_name@)
}

pub open spec fn quest_list_issues(s: Seq<QuestContent>, locs: Seq<Seq<char>>, facs: Seq<Seq<char>>, npcs: Seq<Seq<char>>) -> Seq<Seq<char>>
    decreases s.len(),
{
    if s.len() == 0 { seq![] } else { quest_list_issues(s.drop_last(), locs, facs, npcs) + quest_issues(s.last(), locs, facs, npcs) }
}

/// The issue of an encounter placed at an unknown location.
pub open spec fn encounter_issues(e: EncounterContent, locs: Seq<Seq<char>>) -> Seq<Seq<char>> {
    opt_issue(!locs.contains(e.location_name@), "encounter "@ + e.enemy_name@ + " uses unknown location "@ + e.location_name@)
}

pub open spec fn encounter_list_issues(s: Seq<EncounterContent>, locs: Seq<Seq<char>>) -> Seq<Seq<char>>
    decreases s.len(),
{
    if s.len() == 0 { seq![] } else { encounter_list_issues(s.drop_last(), locs) + encounter_issues(s.last(), locs) }
}

/// The issue of an atmosphere for an unknown location.
pub open spec fn atmosphere_issues(a: LocationAtmosphere, locs: Seq<Seq<char>>) -> Seq<Seq<char>> {
    opt_issue(!locs.contains(a.location_name@), "atmosphere uses unknown location "@ + a.location_name@)
}

pub open spec fn atmosphere_list_issues(s: Seq<LocationAtmosphere>, locs: Seq<Seq<char>>) -> Seq<Seq<char>>
    decreases s.len(),
{
    if s.len() == 0 { seq![] } else { atmosphere_list_issues(s.drop_last(), locs) + atmosphere_issues(s.last(), locs) }
}

/// The issues of an event's conditions, as whole content is checked.
pub open spec fn content_condition_issues(id: Seq<char>, c: EventConditionContent, locs: Seq<Seq<char>>, facs: Seq<Seq<char>>) -> Seq<Seq<char>> {
    unknown_name_issues(views(c.locations@), locs, "event "@ + id + " uses unknown location "@)
    + (match (c.min_day, c.max_day) {
        (Some(lo), Some(hi)) => opt_issue(lo > hi, "event "@ + id + " has min_day greater than max_day"@),
        _ => seq![],
    })
    + (match c.faction_name {
        Some(f) => opt_issue(!facs.contains(f@), "event "@ + id + " uses unknown faction "@ + f@),
        None => seq![],
    })
    + opt_issue(reputation_without_faction(c), "event "@ + id + " has a reputation condition without a faction_name"@)
    + (match (c.min_reputation, c.max_reputation) {
        (Some(lo), Some(hi)) => opt_issue(lo > hi, "event "@ + id + " has min_reputation greater than max_reputation"@),
        _ => seq![],
    })
    + opt_issue(blank_name(c.required_item_name), "event "@ + id + " has an empty required_item_name"@)
    + opt_issue(blank_name(c.required_condition_name), "event "@ + id + " has an empty required_condition_name"@)
}

/// The issues of one event, as whole content is checked.
pub open spec fn content_event_issues(e: EventContent, locs: Seq<Seq<char>>, facs: Seq<Seq<char>>) -> Seq<Seq<char>> {
    opt_issue(spec_blank(e.id@), "event has an empty id"@)
    + opt_issue(spec_blank(e.trigger@), "event "@ + e.id@ + " has an empty trigger"@)
    + opt_issue(e.weight == 0, "event "@ + e.id@ + " has zero weight"@)
    + (match e.chance_percent {
        Some(ch) => opt_issue(ch > 100, "event "@ + e.id@ + " has invalid chance "@ + decimal(ch as nat)),
        None => seq![],
    })
    + opt_issue(e.effects@.len() == 0, "event "@ + e.id@ + " has no effects"@)
    + (match e.conditions {
        Some(c) => content_condition_issues(e.id@, c, locs, facs),
        None => seq![],
    })
}

pub open spec fn event_list_issues(s: Seq<EventContent>, locs: Seq<Seq<char>>, facs: Seq<Seq<char>>) -> Seq<Seq<char>>
    decreases s.len(),
{
    if s.len() == 0 { seq![] } else { event_list_issues(s.drop_last(), locs, facs) + content_event_issues(s.last(), locs, facs) }
}

/// Every issue of a campaign, in the order `validate` reports them.
pub open spec fn content_issues(c: CampaignContent) -> Seq<Seq<char>> {
    let locs = location_names(c.world.locations@);
    let facs = faction_names(c.factions@);
    let npcs = npc_names(c.npcs@);
    version_issue(c.version)
    + duplicate_issues("location"@, location_ids(c.world.locations@))
    + duplicate_issues("faction"@, faction_ids(c.factions@))
    + duplicate_issues("npc"@, npc_ids(c.npcs@))
    + duplicate_issues("quest"@, quest_ids(c.quests@))
    + duplicate_issues("item visual"@, item_visual_names(c.item_visuals@))
    + duplicate_issues("event"@, event_ids(c.events@))
    + exit_issues(c.world.locations@, location_ids(c.world.locations@))
    + npc_list_issues(c.npcs@, locs, facs)
    + quest_list_issues(c.quests@, locs, facs, npcs)
    + encounter_list_issues(c.encounters@, locs)
    + event_list_issues(c.events@, locs, facs)
    + atmosphere_list_issues(c.atmospheres@, locs)
}

/// Pushes one issue for each id that repeats an earlier one.
pub fn validate_unique_ids(kind: &str, ids: &[String], issues: &mut Vec<String>)
    ensures
        views(final(issues)@) == views(old(issues)@) + duplicate_issues(kind@, views(ids@)),
{
    let ghost start = views(issues@);
    let mut seen: Vec<String> = Vec::new();
    let mut i: usize = 0;
    while i < ids.len()
        invariant
            i <= ids@.len(),
            views(seen@) == views(ids@).take(i as int),
            views(issues@) == start + duplicate_issues(kind@, views(ids@).take(i as int)),
        decreases ids@.len() - i,
    {
        let repeated = texts_contain(seen.as_slice(), ids[i].as_str());
        push_if(issues, repeated, cat4("duplicate ", kind, " id ", ids[i].as_str()));
        push_text(&mut seen, ids[i].clone());
        proof {
            let t = views(ids@).take(i + 1);
            assert(t.drop_last() =~= views(ids@).take(i as int));
            assert(t.last() == ids@[i as int]@);
            assert(views(seen@) =~= t);
            lemma_cat_assoc(start, duplicate_issues(kind@, t.drop_last()),
                opt_issue(t.drop_last().contains(t.last()), "duplicate "@ + kind@ + " id "@ + t.last()));
        }
        i = i + 1;
    }
    assert(views(ids@).take(ids@.len() as int) =~= views(ids@));
}


fn push_exit_issues(issues: &mut Vec<String>, locs: &[LocationContent], ids: &[String])
    ensures
        views(final(issues)@) == views(old(issues)@) + exit_issues(locs@, views(ids@)),
{
    let ghost start = views(issues@);
    let mut i: usize = 0;
    while i < locs.len()
        invariant
            i <= locs@.len(),
            views(issues@) == start + exit_issues(locs@.take(i as int), views(ids@)),
        decreases locs@.len() - i,
    {
        let l = &locs[i];
        let prefix = cat3("location ", l.id.as_str(), " exits to unknown location id ");
        push_unknown_names(issues, l.exits.as_slice(), ids, prefix.as_str());
        proof {
            let t = locs@.take(i + 1);
            assert(t.drop_last() =~= locs@.take(i as int));
            assert(t.last() == locs@[i as int]);
            lemma_cat_assoc(start, exit_issues(t.drop_last(), views(ids@)),
                unknown_name_issues(views(l.exits@), views(ids@), prefix@));
        }
        i = i + 1;
    }
    assert(locs@.take(locs@.len() as int) =~= locs@);
}

fn push_npc_issues(issues: &mut Vec<String>, n: &NpcContent, locs: &[String], facs: &[String])
    ensures
        views(final(issues)@) == views(old(issues)@) + npc_issues(*n, views(locs@), views(facs@)),
{
    let ghost start = views(issues@);
    let missing = !texts_contain(locs, n.location_name.as_str());
    push_if(issues, missing, cat4("npc ", n.id.as_str(), " uses unknown location ", n.location_name.as_str()));
    let ghost a = opt_issue(!views(locs@).contains(n.location_name@), "npc "@ + n.id@ + " uses unknown location "@ + n.location_name@);
    match &n.faction_name {
        Some(f) => {
            let missing = !texts_contain(facs, f.as_str());
            push_if(issues, missing, cat4("npc ", n.id.as_str(), " uses unknown faction ", f.as_str()));
            proof { lemma_cat_assoc(start, a, opt_issue(!views(facs@).contains(f@), "npc "@ + n.id@ + " uses unknown faction "@ + f@)); }
        },
        None => {
            assert(views(issues@) =~= start + npc_issues(*n, views(locs@), views(facs@)));
        },
    }
}

fn push_npc_list_issues(issues: &mut Vec<String>, s: &[NpcContent], locs: &[String], facs: &[String])
    ensures
        views(final(issues)@) == views(old(issues)@) + npc_list_issues(s@, views(locs@), views(facs@)),
{
    let ghost start = views(issues@);
    let mut i: usize = 0;
    while i < s.len()
        invariant
            i <= s@.len(),
            views(issues@) == start + npc_list_issues(s@.take(i as int), views(locs@), views(facs@)),
        decreases s@.len() - i,
    {
        push_npc_issues(issues, &s[i], locs, facs);
        proof {
            let t = s@.take(i + 1);
            assert(t.drop_last() =~= s@.take(i as int));
            assert(t.last() == s@[i as int]);
            lemma_cat_assoc(start, npc_list_issues(t.drop_last(), views(locs@), views(facs@)), npc_issues(s@[i as int], views(locs@), views(facs@)));
        }
        i = i + 1;
    }
    assert(s@.take(s@.len() as int) =~= s@);
}

fn push_quest_issues(issues: &mut Vec<String>, q: &QuestContent, locs: &[String], facs: &[String], npcs: &[String])
    ensures
        views(final(issues)@) == views(old(issues)@) + quest_issues(*q, views(locs@), views(facs@), views(npcs@)),
{
    let ghost start = views(issues@);
    let missing = !texts_contain(locs, q.location_name.as_str());
    push_if(issues, missing, cat4("quest ", q.id.as_str(), " uses unknown location ", q.location_name.as_str()));
    let ghost a = opt_issue(!views(locs@).contains(q.location_name@), "quest "@ + q.id@ + " uses unknown location "@ + q.location_name@);
    let missing = !texts_contain(facs, q.faction_name.as_str());
    push_if(issues, missing, cat4("quest ", q.id.as_str(), " uses unknown faction ", q.faction_name.as_str()));
    let ghost b = opt_issue(!views(facs@).contains(q.faction_name@), "quest "@ + q.id@ + " uses unknown faction "@ + q.faction_name@);
    proof { lemma_cat_assoc(start, a, b); }
    let missing = !texts_contain(npcs, q.giver_npc_name.as_str());
    push_if(issues, missing, cat4("quest ", q.id.as_str(), " uses unknown giver ", q.giver_npc_name.as_str()));
    let ghost c = opt_issue(!views(npcs@).contains(q.giver_npc_name@), "quest "@ + q.id@ + " uses unknown giver "@ + q.giver_npc_name@);
    proof { lemma_cat_assoc(start, a + b, c); }
}

fn push_quest_list_issues(issues: &mut Vec<String>, s: &[QuestContent], locs: &[String], facs: &[String], npcs: &[String])
    ensures
        views(final(issues)@) == views(old(issues)@) + quest_list_issues(s@, views(locs@), views(facs@), views(npcs@)),
{
    let ghost start = views(issues@);
    let mut i: usize = 0;
    while i < s.len()
        invariant
            i <= s@.len(),
            views(issues@) == start + quest_list_issues(s@.take(i as int), views(locs@), views(facs@), views(npcs@)),
        decreases s@.len() - i,
    {
        push_quest_issues(issues, &s[i], locs, facs, npcs);
        proof {
            let t = s@.take(i + 1);
            assert(t.drop_last() =~= s@.take(i as int));
            assert(t.last() == s@[i as int]);
            lemma_cat_assoc(start, quest_list_issues(t.drop_last(), views(locs@), views(facs@), views(npcs@)),
                quest_issues(s@[i as int], views(locs@), views(facs@), views(npcs@)));
        }
        i = i + 1;
    }
    assert(s@.take(s@.len() as int) =~= s@);
}

fn push_encounter_list_issues(issues: &mut Vec<String>, s: &[EncounterContent], locs: &[String])
    ensures
        views(final(issues)@) == views(old(issues)@) + encounter_list_issues(s@, views(locs@)),
{
    let ghost start = views(issues@);
    let mut i: usize = 0;
    while i < s.len()
        invariant
            i <= s@.len(),
            views(issues@) == start + encounter_list_issues(s@.take(i as int), views(locs@)),
        decreases s@.len() - i,
    {
        let e = &s[i];
        let missing = !texts_contain(locs, e.location_name.as_str());
        push_if(issues, missing, cat4("encounter ", e.enemy_name.as_str(), " uses unknown location ", e.location_name.as_str()));
        proof {
            let t = s@.take(i + 1);
            assert(t.drop_last() =~= s@.take(i as int));
            assert(t.last() == s@[i as int]);
            lemma_cat_assoc(start, encounter_list_issues(t.drop_last(), views(locs@)), encounter_issues(s@[i as int], views(locs@)));
        }
        i = i + 1;
    }
    assert(s@.take(s@.len() as int) =~= s@);
}

fn push_atmosphere_list_issues(issues: &mut Vec<String>, s: &[LocationAtmosphere], locs: &[String])
    ensures
        views(final(issues)@) == views(old(issues)@) + atmosphere_list_issues(s@, views(locs@)),
{
    let ghost start = views(issues@);
    let mut i: usize = 0;
    while i < s.len()
        invariant
            i <= s@.len(),
            views(issues@) == start + atmosphere_list_issues(s@.take(i as int), views(locs@)),
        decreases s@.len() - i,
    {
        let a = &s[i];
        let missing = !texts_contain(locs, a.location_name.as_str());
        push_if(issues, missing, cat2("atmosphere uses unknown location ", a.location_name.as_str()));
        proof {
            let t = s@.take(i + 1);
            assert(t.drop_last() =~= s@.take(i as int));
            assert(t.last() == s@[i as int]);
            lemma_cat_assoc(start, atmosphere_list_issues(t.drop_last(), views(locs@)), atmosphere_issues(s@[i as int], views(locs@)));
        }
        i = i + 1;
    }
    assert(s@.take(s@.len() as int) =~= s@);
}

#[verifier::spinoff_prover]
fn push_content_condition_issues(issues: &mut Vec<String>, id: &str, c: &EventConditionContent, locs: &[String], facs: &[String])
    ensures
        views(final(issues)@) == views(old(issues)@) + content_condition_issues(id@, *c, views(locs@), views(facs@)),
{
    let ghost start = views(issues@);
    let prefix = cat3("event ", id, " uses unknown location ");
    push_unknown_names(issues, c.locations.as_slice(), locs, prefix.as_str());
    let ghost p1 = unknown_name_issues(views(c.locations@), views(locs@), prefix@);
    let ghost q = match (c.min_day, c.max_day) {
        (Some(lo), Some(hi)) => opt_issue(lo > hi, "event "@ + id@ + " has min_day greater than max_day"@),
        _ => seq![],
    };
    match (c.min_day, c.max_day) {
        (Some(lo), Some(hi)) => push_if(issues, lo > hi, cat3("event ", id, " has min_day greater than max_day")),
        _ => { assert(views(issues@) =~= views(issues@) + q); },
    }
    proof { lemma_cat_assoc(start, p1, q); }
    let ghost p2 = p1 + q;
    let ghost q = match &c.faction_name {
        Some(f) => opt_issue(!views(facs@).contains(f@), "event "@ + id@ + " uses unknown faction "@ + f@),
        None => seq![],
    };
    match &c.faction_name {
        Some(f) => {
            let missing = !texts_contain(facs, f.as_str());
            push_if(issues, missing, cat4("event ", id, " uses unknown faction ", f.as_str()));
        },
        None => { assert(views(issues@) =~= views(issues@) + q); },
    }
    proof { lemma_cat_assoc(start, p2, q); }
    let ghost p3 = p2 + q;
    push_if(
        issues,
        (c.min_reputation.is_some() || c.max_reputation.is_some()) && c.faction_name.is_none(),
        cat3("event ", id, " has a reputation condition without a faction_name"),
    );
    let ghost q = opt_issue(reputation_without_faction(*c), "event "@ + id@ + " has a reputation condition without a faction_name"@);
    proof { lemma_cat_assoc(start, p3, q); }
    let ghost p4 = p3 + q;
    let ghost q = match (c.min_reputation, c.max_reputation) {
        (Some(lo), Some(hi)) => opt_issue(lo > hi, "event "@ + id@ + " has min_reputation greater than max_reputation"@),
        _ => seq![],
    };
    match (c.min_reputation, c.max_reputation) {
        (Some(lo), Some(hi)) => push_if(issues, lo > hi, cat3("event ", id, " has min_reputation greater than max_reputation")),
        _ => { assert(views(issues@) =~= views(issues@) + q); },
    }
    proof { lemma_cat_assoc(start, p4, q); }
    let ghost p5 = p4 + q;
    push_if(issues, is_blank_name(&c.required_item_name), cat3("event ", id, " has an empty required_item_name"));
    let ghost q = opt_issue(blank_name(c.required_item_name), "event "@ + id@ + " has an empty required_item_name"@);
    proof { lemma_cat_assoc(start, p5, q); }
    let ghost p6 = p5 + q;
    push_if(issues, is_blank_name(&c.required_condition_name), cat3("event ", id, " has an empty required_condition_name"));
    let ghost q = opt_issue(blank_name(c.required_condition_name), "event "@ + id@ + " has an empty required_condition_name"@);
    proof { lemma_cat_assoc(start, p6, q); }
}

#[verifier::spinoff_prover]
fn push_content_event_issues(issues: &mut Vec<String>, e: &EventContent, locs: &[String], facs: &[String])
    ensures
        views(final(issues)@) == views(old(issues)@) + content_event_issues(*e, views(locs@), views(facs@)),
{
    let ghost start = views(issues@);
    let id = e.id.as_str();
    push_if(issues, is_blank(id), text_of("event has an empty id"));
    let ghost p1 = opt_issue(spec_blank(e.id@), "event has an empty id"@);
    push_if(issues, is_blank(e.trigger.as_str()), cat3("event ", id, " has an empty trigger"));
    let ghost q = opt_issue(spec_blank(e.trigger@), "event "@ + e.id@ + " has an empty trigger"@);
    proof { lemma_cat_assoc(start, p1, q); }
    let ghost p2 = p1 + q;
    push_if(issues, e.weight == 0, cat3("event ", id, " has zero weight"));
    let ghost q = opt_issue(e.weight == 0, "event "@ + e.id@ + " has zero weight"@);
    proof { lemma_cat_assoc(start, p2, q); }
    let ghost p3 = p2 + q;
    let ghost q = match e.chance_percent {
        Some(ch) => opt_issue(ch > 100, "event "@ + e.id@ + " has invalid chance "@ + decimal(ch as nat)),
        None => seq![],
    };
    match e.chance_percent {
        Some(ch) => {
            let mut msg = cat3("event ", id, " has invalid chance ");
            append_decimal(&mut msg, ch as u64);
            push_if(issues, ch > 100, msg);
        },
        None => { assert(views(issues@) =~= views(issues@) + q); },
    }
    proof { lemma_cat_assoc(start, p3, q); }
    let ghost p4 = p3 + q;
    push_if(issues, e.effects.len() == 0, cat3("event ", id, " has no effects"));
    let ghost q = opt_issue(e.effects@.len() == 0, "event "@ + e.id@ + " has no effects"@);
    proof { lemma_cat_assoc(start, p4, q); }
    let ghost p5 = p4 + q;
    let ghost q = match &e.conditions {
        Some(c) => content_condition_issues(e.id@, *c, views(locs@), views(facs@)),
        None => seq![],
    };
    match &e.conditions {
        Some(c) => push_content_condition_issues(issues, id, c, locs, facs),
        None => { assert(views(issues@) =~= views(issues@) + q); },
    }
    proof { lemma_cat_assoc(start, p5, q); }
}

fn push_event_list_issues(issues: &mut Vec<String>, s: &[EventContent], locs: &[String], facs: &[String])
    ensures
        views(final(issues)@) == views(old(issues)@) + event_list_issues(s@, views(locs@), views(facs@)),
{
    let ghost start = views(issues@);
    let mut i: usize = 0;
    while i < s.len()
        invariant
            i <= s@.len(),
            views(issues@) == start + event_list_issues(s@.take(i as int), views(locs@), views(facs@)),
        decreases s@.len() - i,
    {
        push_content_event_issues(issues, &s[i], locs, facs);
        proof {
            let t = s@.take(i + 1);
            assert(t.drop_last() =~= s@.take(i as int));
            assert(t.last() == s@[i as int]);
            lemma_cat_assoc(start, event_list_issues(t.drop_last(), views(locs@), views(facs@)), content_event_issues(s@[i as int], views(locs@), views(facs@)));
        }
        i = i + 1;
    }
    assert(s@.take(s@.len() as int) =~= s@);
}

impl CampaignContent {
    /// Every issue of this campaign: an unknown version, repeated ids, and references to
    /// locations, factions and npcs that it does not define.
    #[verifier::spinoff_prover]
    pub fn validate(&self) -> (issues: Vec<String>)
        ensures
            views(issues@) == content_issues(*self),
    {
        let mut issues: Vec<String> = Vec::new();
        let mut msg = text_of("content version ");
        append_decimal(&mut msg, self.version as u64);
        append_text(&mut msg, " is not recognized");
        push_if(&mut issues, self.version != 1, msg);
        let ghost p = version_issue(self.version);
        assert(views(issues@) =~= p);

        let loc_ids = location_id_list(self.world.locations.as_slice());
        validate_unique_ids("location", loc_ids.as_slice(), &mut issues);
        let ghost q = duplicate_issues("location"@, location_ids(self.world.locations@));
        let ghost p = p + q;
        validate_unique_ids("faction", faction_id_list(self.factions.as_slice()).as_slice(), &mut issues);
        let ghost q = duplicate_issues("faction"@, faction_ids(self.factions@));
        proof { lemma_cat_assoc(seq![], p, q); }
        let ghost p = p + q;
        validate_unique_ids("npc", npc_id_list(self.npcs.as_slice()).as_slice(), &mut issues);
        let ghost q = duplicate_issues("npc"@, npc_ids(self.npcs@));
        let ghost p = p + q;
        validate_unique_ids("quest", quest_id_list(self.quests.as_slice()).as_slice(), &mut issues);
        let ghost q = duplicate_issues("quest"@, quest_ids(self.quests@));
        let ghost p = p + q;
        validate_unique_ids("item visual", item_visual_name_list(self.item_visuals.as_slice()).as_slice(), &mut issues);
        let ghost q = duplicate_issues("item visual"@, item_visual_names(self.item_visuals@));
        let ghost p = p + q;
        validate_unique_ids("event", event_id_list(self.events.as_slice()).as_slice(), &mut issues);
        let ghost q = duplicate_issues("event"@, event_ids(self.events@));
        let ghost p = p + q;
        assert(views(issues@) == p);

        let loc_names = location_name_list(self.world.locations.as_slice());
        let fac_names = faction_name_list(self.factions.as_slice());
        let npc_name_texts = npc_name_list(self.npcs.as_slice());

        push_exit_issues(&mut issues, self.world.locations.as_slice(), loc_ids.as_slice());
        let ghost p = p + exit_issues(self.world.locations@, location_ids(self.world.locations@));
        push_npc_list_issues(&mut issues, self.npcs.as_slice(), loc_names.as_slice(), fac_names.as_slice());
        let ghost p = p + npc_list_issues(self.npcs@, views(loc_names@), views(fac_names@));
        push_quest_list_issues(&mut issues, self.quests.as_slice(), loc_names.as_slice(), fac_names.as_slice(), npc_name_texts.as_slice());
        let ghost p = p + quest_list_issues(self.quests@, views(loc_names@), views(fac_names@), views(npc_name_texts@));
        push_encounter_list_issues(&mut issues, self.encounters.as_slice(), loc_names.as_slice());
        let ghost p = p + encounter_list_issues(self.encounters@, views(loc_names@));
        push_event_list_issues(&mut issues, self.events.as_slice(), loc_names.as_slice(), fac_names.as_slice());
        let ghost p = p + event_list_issues(self.events@, views(loc_names@), views(fac_names@));
        push_atmosphere_list_issues(&mut issues, self.atmospheres.as_slice(), loc_names.as_slice());
        let ghost p = p + atmosphere_list_issues(self.atmospheres@, views(loc_names@));
        assert(views(issues@) == p);
        issues
    }
}


/// Ids that raise no duplicate issue are pairwise distinct.
proof fn lemma_no_duplicates(kind: Seq<char>, ids: Seq<Seq<char>>)
    requires
        duplicate_issues(kind, ids).len() == 0,
    ensures
        forall|i: int, j: int| 0 <= i < j < ids.len() ==> ids[i] != ids[j],
    decreases ids.len(),
{
    if ids.len() > 0 {
        let rest = ids.drop_last();
        lemma_no_duplicates(kind, rest);
        assert(!rest.contains(ids.last()));
        assert forall|i: int, j: int| 0 <= i < j < ids.len() implies ids[i] != ids[j] by {
            if j < ids.len() - 1 {
                assert(ids[i] == rest[i] && ids[j] == rest[j]);
            } else {
                assert(rest[i] == ids[i]);
            }
        }
    }
}

/// Names that raise no unknown-name issue are all known.
proof fn lemma_no_unknown_names(names: Seq<Seq<char>>, known: Seq<Seq<char>>, prefix: Seq<char>)
    requires
        unknown_name_issues(names, known, prefix).len() == 0,
    ensures
        forall|i: int| 0 <= i < names.len() ==> known.contains(#[trigger] names[i]),
    decreases names.len(),
{
    if names.len() > 0 {
        let rest = names.drop_last();
        lemma_no_unknown_names(rest, known, prefix);
        assert forall|i: int| 0 <= i < names.len() implies known.contains(#[trigger] names[i]) by {
            if i < names.len() - 1 {
                assert(names[i] == rest[i]);
            }
        }
    }
}

/// Locations whose exits raise no issue lead only to known location ids.
proof fn lemma_no_exit_issues(locs: Seq<LocationContent>, ids: Seq<Seq<char>>)
    requires
        exit_issues(locs, ids).len() == 0,
    ensures
        forall|i: int, k: int| 0 <= i < locs.len() && 0 <= k < locs[i].exits@.len() ==>
            ids.contains(#[trigger] locs[i].exits@[k]@),
    decreases locs.len(),
{
    if locs.len() > 0 {
        let rest = locs.drop_last();
        let l = locs.last();
        lemma_no_exit_issues(rest, ids);
        lemma_no_unknown_names(views(l.exits@), ids, "location "@ + l.id@ + " exits to unknown location id "@);
        assert forall|i: int, k: int| 0 <= i < locs.len() && 0 <= k < locs[i].exits@.len() implies
            ids.contains(#[trigger] locs[i].exits@[k]@) by {
            if i < locs.len() - 1 {
                assert(locs[i] == rest[i]);
            } else {
                assert(views(l.exits@)[k] == l.exits@[k]@);
            }
        }
    }
}

/// Content that validates without an issue is of the recognized version, its locations,
/// factions, npcs, quests and events each have distinct ids, and every exit of a location
/// names the id of a location of the content.
pub proof fn law_clean_content_is_consistent(c: CampaignContent)
    requires
        content_issues(c).len() == 0,
    ensures
        c.version == 1,
        forall|i: int, j: int| 0 <= i < j < c.world.locations@.len() ==> c.world.locations@[i].id@ != c.world.locations@[j].id@,
        forall|i: int, j: int| 0 <= i < j < c.factions@.len() ==> c.factions@[i].id@ != c.factions@[j].id@,
        forall|i: int, j: int| 0 <= i < j < c.npcs@.len() ==> c.npcs@[i].id@ != c.npcs@[j].id@,
        forall|i: int, j: int| 0 <= i < j < c.quests@.len() ==> c.quests@[i].id@ != c.quests@[j].id@,
        forall|i: int, j: int| 0 <= i < j < c.events@.len() ==> c.events@[i].id@ != c.events@[j].id@,
        forall|i: int, k: int| 0 <= i < c.world.locations@.len() && 0 <= k < c.world.locations@[i].exits@.len() ==>
            location_ids(c.world.locations@).contains(#[trigger] c.world.locations@[i].exits@[k]@),
{
    let locs = location_names(c.world.locations@);
    let facs = faction_names(c.factions@);
    let npcs = npc_names(c.npcs@);
    let a = version_issue(c.version);
    let b = duplicate_issues("location"@, location_ids(c.world.locations@));
    let f = duplicate_issues("faction"@, faction_ids(c.factions@));
    let n = duplicate_issues("npc"@, npc_ids(c.npcs@));
    let q = duplicate_issues("quest"@, quest_ids(c.quests@));
    let v = duplicate_issues("item visual"@, item_visual_names(c.item_visuals@));
    let e = duplicate_issues("event"@, event_ids(c.events@));
    let x = exit_issues(c.world.locations@, location_ids(c.world.locations@));
    assert(a.len() == 0 && b.len() == 0 && f.len() == 0 && n.len() == 0 && q.len() == 0 && v.len() == 0
        && e.len() == 0 && x.len() == 0);
    lemma_no_duplicates("location"@, location_ids(c.world.locations@));
    lemma_no_duplicates("faction"@, faction_ids(c.factions@));
    lemma_no_duplicates("npc"@, npc_ids(c.npcs@));
    lemma_no_duplicates("quest"@, quest_ids(c.quests@));
    lemma_no_duplicates("event"@, event_ids(c.events@));
    lemma_no_exit_issues(c.world.locations@, location_ids(c.world.locations@));
    assert forall|i: int, j: int| 0 <= i < j < c.world.locations@.len() implies c.world.locations@[i].id@ != c.world.locations@[j].id@ by {
        assert(location_ids(c.world.locations@)[i] == c.world.locations@[i].id@);
        assert(location_ids(c.world.locations@)[j] == c.world.locations@[j].id@);
    }
    assert forall|i: int, j: int| 0 <= i < j < c.factions@.len() implies c.factions@[i].id@ != c.factions@[j].id@ by {
        assert(faction_ids(c.factions@)[i] == c.factions@[i].id@);
        assert(faction_ids(c.factions@)[j] == c.factions@[j].id@);
    }
    assert forall|i: int, j: int| 0 <= i < j < c.npcs@.len() implies c.npcs@[i].id@ != c.npcs@[j].id@ by {
        assert(npc_ids(c.npcs@)[i] == c.npcs@[i].id@);
        assert(npc_ids(c.npcs@)[j] == c.npcs@[j].id@);
    }
    assert forall|i: int, j: int| 0 <= i < j < c.quests@.len() implies c.quests@[i].id@ != c.quests@[j].id@ by {
        assert(quest_ids(c.quests@)[i] == c.quests@[i].id@);
        assert(quest_ids(c.quests@)[j] == c.quests@[j].id@);
    }
    assert forall|i: int, j: int| 0 <= i < j < c.events@.len() implies c.events@[i].id@ != c.events@[j].id@ by {
        assert(event_ids(c.events@)[i] == c.events@[i].id@);
        assert(event_ids(c.events@)[j] == c.events@[j].id@);
    }
}


proof fn lemma_quest_list_clean(s: Seq<QuestContent>, locs: Seq<Seq<char>>, facs: Seq<Seq<char>>, npcs: Seq<Seq<char>>)
    requires
        quest_list_issues(s, locs, facs, npcs).len() == 0,
    ensures
        forall|i: int| 0 <= i < s.len() ==> locs.contains((#[trigger] s[i]).location_name@)
            && facs.contains(s[i].faction_name@) && npcs.contains(s[i].giver_npc_name@),
    decreases s.len(),
{
    if s.len() > 0 {
        let d = s.drop_last();
        lemma_quest_list_clean(d, locs, facs, npcs);
        assert forall|i: int| 0 <= i < s.len() implies locs.contains((#[trigger] s[i]).location_name@)
            && facs.contains(s[i].faction_name@) && npcs.contains(s[i].giver_npc_name@) by {
            if i < d.len() {
                assert(s[i] == d[i]);
            }
        }
    }
}

proof fn lemma_npc_list_clean(s: Seq<NpcContent>, locs: Seq<Seq<char>>, facs: Seq<Seq<char>>)
    requires
        npc_list_issues(s, locs, facs).len() == 0,
    ensures
        forall|i: int| 0 <= i < s.len() ==> locs.contains((#[trigger] s[i]).location_name@)
            && (s[i].faction_name matches Some(f) ==> facs.contains(f@)),
    decreases s.len(),
{
    if s.len() > 0 {
        let d = s.drop_last();
        lemma_npc_list_clean(d, locs, facs);
        assert forall|i: int| 0 <= i < s.len() implies locs.contains((#[trigger] s[i]).location_name@)
            && (s[i].faction_name matches Some(f) ==> facs.contains(f@)) by {
            if i < d.len() {
                assert(s[i] == d[i]);
            }
        }
    }
}

proof fn lemma_encounter_list_clean(s: Seq<EncounterContent>, locs: Seq<Seq<char>>)
    requires
        encounter_list_issues(s, locs).len() == 0,
    ensures
        forall|i: int| 0 <= i < s.len() ==> locs.contains((#[trigger] s[i]).location_name@),
    decreases s.len(),
{
    if s.len() > 0 {
        let d = s.drop_last();
        lemma_encounter_list_clean(d, locs);
        assert forall|i: int| 0 <= i < s.len() implies locs.contains((#[trigger] s[i]).location_name@) by {
            if i < d.len() {
                assert(s[i] == d[i]);
            }
        }
    }
}

proof fn lemma_atmosphere_list_clean(s: Seq<LocationAtmosphere>, locs: Seq<Seq<char>>)
    requires
        atmosphere_list_issues(s, locs).len() == 0,
    ensures
        forall|i: int| 0 <= i < s.len() ==> locs.contains((#[trigger] s[i]).location_name@),
    decreases s.len(),
{
    if s.len() > 0 {
        let d = s.drop_last();
        lemma_atmosphere_list_clean(d, locs);
        assert forall|i: int| 0 <= i < s.len() implies locs.contains((#[trigger] s[i]).location_name@) by {
            if i < d.len() {
                assert(s[i] == d[i]);
            }
        }
    }
}

/// Whether some location of the content has this name.
pub open spec fn names_location(c: CampaignContent, name: Seq<char>) -> bool {
    exists|j: int| 0 <= j < c.world.locations@.len() && (#[trigger] c.world.locations@[j]).name@ == name
}

/// Whether some faction of the content has this name.
pub open spec fn names_faction(c: CampaignContent, name: Seq<char>) -> bool {
    exists|j: int| 0 <= j < c.factions@.len() && (#[trigger] c.factions@[j]).name@ == name
}

/// Whether some npc of the content has this name.
pub open spec fn names_npc(c: CampaignContent, name: Seq<char>) -> bool {
    exists|j: int| 0 <= j < c.npcs@.len() && (#[trigger] c.npcs@[j]).name@ == name
}

proof fn lemma_in_names<T>(s: Seq<T>, f: spec_fn(T) -> Seq<char>, name: Seq<char>)
    requires
        s.map_values(f).contains(name),
    ensures
        exists|j: int| 0 <= j < s.len() && f(#[trigger] s[j]) == name,
{
    let k = choose|k: int| 0 <= k < s.map_values(f).len() && s.map_values(f)[k] == name;
    assert(f(s[k]) == name);
}

/// In content that validates without an issue, every reference by name resolves: each
/// quest is placed at a location of the content, for a faction of the content, and given
/// by an npc of the content; each npc stands at a location of the content and belongs, if
/// to any faction, to one of the content; and each encounter and each atmosphere belongs to
/// a location of the content.
pub proof fn law_clean_content_references_resolve(c: CampaignContent)
    requires
        content_issues(c).len() == 0,
    ensures
        forall|i: int| 0 <= i < c.quests@.len() ==> names_location(c, (#[trigger] c.quests@[i]).location_name@)
            && names_faction(c, c.quests@[i].faction_name@) && names_npc(c, c.quests@[i].giver_npc_name@),
        forall|i: int| 0 <= i < c.npcs@.len() ==> names_location(c, (#[trigger] c.npcs@[i]).location_name@)
            && (c.npcs@[i].faction_name matches Some(f) ==> names_faction(c, f@)),
        forall|i: int| 0 <= i < c.encounters@.len() ==> names_location(c, (#[trigger] c.encounters@[i]).location_name@),
        forall|i: int| 0 <= i < c.atmospheres@.len() ==> names_location(c, (#[trigger] c.atmospheres@[i]).location_name@),
{
    let locs = location_names(c.world.locations@);
    let facs = faction_names(c.factions@);
    let npcs = npc_names(c.npcs@);
    let n = npc_list_issues(c.npcs@, locs, facs);
    let q = quest_list_issues(c.quests@, locs, facs, npcs);
    let e = encounter_list_issues(c.encounters@, locs);
    let a = atmosphere_list_issues(c.atmospheres@, locs);
    assert(n.len() == 0 && q.len() == 0 && e.len() == 0 && a.len() == 0);
    lemma_quest_list_clean(c.quests@, locs, facs, npcs);
    lemma_npc_list_clean(c.npcs@, locs, facs);
    lemma_encounter_list_clean(c.encounters@, locs);
    lemma_atmosphere_list_clean(c.atmospheres@, locs);
    let lf = |l: LocationContent| l.name@;
    let ff = |f: FactionContent| f.name@;
    let nf = |x: NpcContent| x.name@;
    assert forall|i: int| 0 <= i < c.quests@.len() implies names_location(c, (#[trigger] c.quests@[i]).location_name@)
        && names_faction(c, c.quests@[i].faction_name@) && names_npc(c, c.quests@[i].giver_npc_name@) by {
        lemma_in_names(c.world.locations@, lf, c.quests@[i].location_name@);
        lemma_in_names(c.factions@, ff, c.quests@[i].faction_name@);
        lemma_in_names(c.npcs@, nf, c.quests@[i].giver_npc_name@);
    }
    assert forall|i: int| 0 <= i < c.npcs@.len() implies names_location(c, (#[trigger] c.npcs@[i]).location_name@)
        && (c.npcs@[i].faction_name matches Some(f) ==> names_faction(c, f@)) by {
        lemma_in_names(c.world.locations@, lf, c.npcs@[i].location_name@);
        if let Some(f) = c.npcs@[i].faction_name {
            lemma_in_names(c.factions@, ff, f@);
        }
    }
    assert forall|i: int| 0 <= i < c.encounters@.len() implies names_location(c, (#[trigger] c.encounters@[i]).location_name@) by {
        lemma_in_names(c.world.locations@, lf, c.encounters@[i].location_name@);
    }
    assert forall|i: int| 0 <= i < c.atmospheres@.len() implies names_location(c, (#[trigger] c.atmospheres@[i]).location_name@) by {
        lemma_in_names(c.world.locations@, lf, c.atmospheres@[i].location_name@);
    }
}


/// An event valid against some known ids stays valid against more.
pub proof fn lemma_event_issues_more_known(
    e: EventContent,
    locs: Seq<Seq<char>>,
    facs: Seq<Seq<char>>,
    k1: Seq<Seq<char>>,
    k2: Seq<Seq<char>>,
)
    requires
        event_issues(e, locs, facs, k1).len() == 0,
        forall|x: Seq<char>| k1.contains(x) ==> k2.contains(x),
    ensures
        event_issues(e, locs, facs, k2).len() == 0,
        prior_reference(e) matches Some(p) ==> k1.contains(p),
{
    if let Some(c) = e.conditions {
        assert(condition_issues(c, locs, facs, k1).len() == 0);
        assert(prior_event_issue(c, k1).len() == 0);
    }
}

proof fn lemma_screen_clean(
    events: Seq<EventContent>,
    locs: Seq<Seq<char>>,
    facs: Seq<Seq<char>>,
    known: Seq<Seq<char>>,
    existing: Seq<Seq<char>>,
    source: Seq<char>,
)
    requires
        forall|i: int| 0 <= i < events.len() ==> event_issues(#[trigger] events[i], locs, facs, known).len() == 0,
        distinct_ids(events),
        forall|i: int| 0 <= i < events.len() ==> !existing.contains((#[trigger] events[i]).id@),
    ensures
        screen_events(events, locs, facs, known, existing, source) == (events, Seq::<Seq<char>>::empty()),
    decreases events.len(),
{
    if events.len() > 0 {
        let d = events.drop_last();
        let e = events.last();
        assert forall|i: int| 0 <= i < d.len() implies event_issues(#[trigger] d[i], locs, facs, known).len() == 0 by {
            assert(d[i] == events[i]);
        }
        assert forall|i: int| 0 <= i < d.len() implies !existing.contains((#[trigger] d[i]).id@) by {
            assert(d[i] == events[i]);
        }
        assert(distinct_ids(d)) by {
            assert forall|i: int, j: int| 0 <= i < j < d.len() implies d[i].id@ != d[j].id@ by {
                assert(d[i] == events[i] && d[j] == events[j]);
            }
        }
        lemma_screen_clean(d, locs, facs, known, existing, source);
        assert(event_issues(events[events.len() - 1], locs, facs, known).len() == 0);
        assert(!existing.contains(events[events.len() - 1].id@));
        assert(!(existing + event_ids(d)).contains(e.id@)) by {
            if (existing + event_ids(d)).contains(e.id@) {
                let k = choose|k: int| 0 <= k < (existing + event_ids(d)).len() && (existing + event_ids(d))[k] == e.id@;
                if k < existing.len() {
                    assert(existing[k] == e.id@);
                } else {
                    let j = k - existing.len();
                    assert(event_ids(d)[j] == d[j].id@);
                    assert(d[j] == events[j]);
                }
            }
        }
        assert(screening_issues(e, locs, facs, known, existing + event_ids(d)).len() == 0);
        assert(d.push(e) =~= events);
    } else {
        assert(events =~= Seq::<EventContent>::empty());
    }
}

proof fn lemma_prune_round_none_missing(pending: Seq<EventContent>, available: Seq<Seq<char>>, source: Seq<char>)
    requires
        forall|i: int| 0 <= i < pending.len() ==> !misses_prior(#[trigger] pending[i], available),
    ensures
        prune_round(pending, available, source) == (pending, Seq::<Seq<char>>::empty()),
    decreases pending.len(),
{
    if pending.len() > 0 {
        let d = pending.drop_last();
        assert forall|i: int| 0 <= i < d.len() implies !misses_prior(#[trigger] d[i], available) by {
            assert(d[i] == pending[i]);
        }
        lemma_prune_round_none_missing(d, available, source);
        assert(!misses_prior(pending[pending.len() - 1], available));
        assert(d.push(pending.last()) =~= pending);
    } else {
        assert(pending =~= Seq::<EventContent>::empty());
    }
}

/// Filtering turns nothing away when nothing is wrong: incoming events that each pass
/// validation, have distinct ids that existing content does not have, and name only prior
/// events that exist or come in with them, are all accepted, in order, without a warning.
pub proof fn law_filter_accepts_clean_events(
    events: Seq<EventContent>,
    locs: Seq<Seq<char>>,
    facs: Seq<Seq<char>>,
    known: Seq<Seq<char>>,
    existing: Seq<Seq<char>>,
    source: Seq<char>,
)
    requires
        forall|i: int| 0 <= i < events.len() ==> event_issues(#[trigger] events[i], locs, facs, known).len() == 0,
        distinct_ids(events),
        forall|i: int| 0 <= i < events.len() ==> !existing.contains((#[trigger] events[i]).id@),
        forall|i: int| 0 <= i < events.len() ==> (prior_reference(#[trigger] events[i]) matches Some(p)
            ==> existing.contains(p) || event_ids(events).contains(p)),
    ensures
        filter_events(events, locs, facs, known, existing, source).0 == events,
        filter_events(events, locs, facs, known, existing, source).1.len() == 0,
{
    lemma_screen_clean(events, locs, facs, known, existing, source);
    let avail = existing + event_ids(events);
    assert forall|i: int| 0 <= i < events.len() implies !misses_prior(#[trigger] events[i], avail) by {
        if let Some(p) = prior_reference(events[i]) {
            if existing.contains(p) {
                let k = choose|k: int| 0 <= k < existing.len() && existing[k] == p;
                assert(avail[k] == p);
            } else {
                let k = choose|k: int| 0 <= k < event_ids(events).len() && event_ids(events)[k] == p;
                assert(avail[existing.len() + k] == p);
            }
        }
    }
    lemma_prune_round_none_missing(events, avail, source);
    assert(Seq::<Seq<char>>::empty() + Seq::<Seq<char>>::empty() =~= Seq::<Seq<char>>::empty());
}

} // verus!
