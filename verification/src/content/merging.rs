//! Merging mod content into a campaign, and the report of a content load.

use vstd::prelude::*;
use crate::text::{views, push_text, cat2, cat4, cat6, cat3};
use crate::model::{first_match, lemma_first_match, lemma_first_match_step, lemma_first_match_none};
use crate::content::{
    CampaignContent, LocationContent, FactionContent, NpcContent, QuestContent, EncounterContent,
    LocationAtmosphere, ItemVisualContent, ModManifest, ContentLoadReport, EventContent, location_names,
    faction_names, event_ids, location_name_list, faction_name_list, event_id_list,
};
use crate::content::validation::{filter_events, filter_valid_events, law_filter_events, distinct_ids, content_issues,
    event_issues, prior_reference, lemma_event_issues_more_known, law_filter_accepts_clean_events};
use crate::text::extend_texts;

verus! {

/// Content entries that a mod replaces by a stable key.
pub trait MergeKey: Sized {
    spec fn merge_key(&self) -> Seq<char>;

    fn key_text(&self) -> (r: &String)
        ensures
            r@ == self.merge_key();
}

impl MergeKey for LocationContent {
    open spec fn merge_key(&self) -> Seq<char> { self.id@ }

    fn key_text(&self) -> (r: &String) { &self.id }
}

impl MergeKey for FactionContent {
    open spec fn merge_key(&self) -> Seq<char> { self.id@ }

    fn key_text(&self) -> (r: &String) { &self.id }
}

impl MergeKey for NpcContent {
    open spec fn merge_key(&self) -> Seq<char> { self.id@ }

    fn key_text(&self) -> (r: &String) { &self.id }
}

impl MergeKey for QuestContent {
    open spec fn merge_key(&self) -> Seq<char> { self.id@ }

    fn key_text(&self) -> (r: &String) { &self.id }
}

impl MergeKey for EncounterContent {
    open spec fn merge_key(&self) -> Seq<char> { self.location_name@ }

    fn key_text(&self) -> (r: &String) { &self.location_name }
}

impl MergeKey for LocationAtmosphere {
    open spec fn merge_key(&self) -> Seq<char> { self.location_name@ }

    fn key_text(&self) -> (r: &String) { &self.location_name }
}

impl MergeKey for ItemVisualContent {
    open spec fn merge_key(&self) -> Seq<char> { self.item_name@ }

    fn key_text(&self) -> (r: &String) { &self.item_name }
}

pub open spec fn key_is<T: MergeKey>(key: Seq<char>) -> spec_fn(T) -> bool {
    |x: T| x.merge_key() == key
}

/// The entries after each incoming entry, in order, replaces the first entry with its key,
/// or is appended when none has it.
pub open spec fn merged<T: MergeKey>(base: Seq<T>, incoming: Seq<T>) -> Seq<T>
    decreases incoming.len(),
{
    if incoming.len() == 0 {
        base
    } else {
        let prev = merged(base, incoming.drop_last());
        let item = incoming.last();
        let k = first_match(prev, key_is::<T>(item.merge_key()));
        if k < prev.len() {
            prev.update(k, item)
        } else {
            prev.push(item)
        }
    }
}

/// The position of the first entry with `key`.
fn key_position<T: MergeKey>(items: &Vec<T>, key: &String) -> (r: Option<usize>)
    ensures
        ({
            let k = first_match(items@, key_is::<T>(key@));
            &&& (r is Some) == (k < items@.len())
            &&& r matches Some(i) ==> i as int == k
        }),
{
    proof { lemma_first_match(items@, key_is::<T>(key@)); }
    let mut i: usize = 0;
    while i < items.len()
        invariant
            i <= items@.len(),
            forall|j: int| 0 <= j < i ==> !key_is::<T>(key@)(#[trigger] items@[j]),
        decreases items@.len() - i,
    {
        proof { lemma_first_match_step(items@, key_is::<T>(key@), i as int); }
        if *items[i].key_text() == *key {
            return Some(i);
        }
        i = i + 1;
    }
    proof { lemma_first_match_none(items@, key_is::<T>(key@)); }
    None
}

/// Merges `incoming` into `base` by key: an entry with a key already present replaces the
/// first entry with it; any other is appended.
pub fn merge_vec_by_key<T: MergeKey>(base: &mut Vec<T>, incoming: Vec<T>)
    ensures
        final(base)@ == merged(old(base)@, incoming@),
{
    let ghost b0 = base@;
    let ghost all = incoming@;
    let n = incoming.len();
    let mut rest = incoming;
    let mut i: usize = 0;
    while rest.len() > 0
        invariant
            all.len() == n,
            i <= n,
            rest@ == all.skip(i as int),
            base@ == merged(b0, all.take(i as int)),
        decreases rest@.len(),
    {
        proof {
            assert(rest@[0] == all[i as int]);
        }
        let item = rest.remove(0);
        proof {
            let t = all.take(i + 1);
            assert(t.drop_last() =~= all.take(i as int));
            assert(t.last() == item);
            assert(rest@ =~= all.skip(i + 1));
            lemma_first_match(base@, key_is::<T>(item.merge_key()));
        }
        let key = item.key_text().clone();
        match key_position(base, &key) {
            Some(position) => {
                base.set(position, item);
            },
            None => {
                base.push(item);
            },
        }
        i = i + 1;
    }
    proof {
        assert(all.take(n as int) =~= all);
    }
}


/// The events a mod brings in: incoming events filtered against the merged locations and
/// factions, with the existing event ids taken and the existing and incoming ids known.
pub open spec fn mod_event_filter(
    base_events: Seq<EventContent>,
    merged_locations: Seq<LocationContent>,
    merged_factions: Seq<FactionContent>,
    incoming_events: Seq<EventContent>,
) -> (Seq<EventContent>, Seq<Seq<char>>) {
    filter_events(
        incoming_events,
        location_names(merged_locations),
        faction_names(merged_factions),
        event_ids(base_events) + event_ids(incoming_events),
        event_ids(base_events),
        "mod content"@,
    )
}

/// Merges mod content into `base`: the region is replaced, keyed entries are merged by id,
/// encounters and atmospheres by location name, item visuals by item name, and incoming
/// events are filtered and appended; every event turned away gets a warning.
pub fn merge_campaign_content(base: &mut CampaignContent, incoming: CampaignContent, warnings: &mut Vec<String>)
    ensures
        final(base).version == old(base).version,
        final(base).world.region == incoming.world.region,
        final(base).world.locations@ == merged(old(base).world.locations@, incoming.world.locations@),
        final(base).factions@ == merged(old(base).factions@, incoming.factions@),
        final(base).npcs@ == merged(old(base).npcs@, incoming.npcs@),
        final(base).quests@ == merged(old(base).quests@, incoming.quests@),
        final(base).encounters@ == merged(old(base).encounters@, incoming.encounters@),
        final(base).atmospheres@ == merged(old(base).atmospheres@, incoming.atmospheres@),
        final(base).item_visuals@ == merged(old(base).item_visuals@, incoming.item_visuals@),
        ({
            let r = mod_event_filter(old(base).events@, final(base).world.locations@, final(base).factions@, incoming.events@);
            &&& final(base).events@ == old(base).events@ + r.0
            &&& views(final(warnings)@) == views(old(warnings)@) + r.1
        }),
{
    let CampaignContent {
        version: _,
        world,
        factions,
        npcs,
        quests,
        encounters,
        atmospheres,
        item_visuals,
        events,
    } = incoming;
    base.world.region = world.region;
    merge_vec_by_key(&mut base.world.locations, world.locations);
    merge_vec_by_key(&mut base.factions, factions);
    merge_vec_by_key(&mut base.npcs, npcs);
    merge_vec_by_key(&mut base.quests, quests);
    merge_vec_by_key(&mut base.encounters, encounters);
    merge_vec_by_key(&mut base.atmospheres, atmospheres);
    merge_vec_by_key(&mut base.item_visuals, item_visuals);

    let location_name_texts = location_name_list(base.world.locations.as_slice());
    let faction_name_texts = faction_name_list(base.factions.as_slice());
    let existing_ids = event_id_list(base.events.as_slice());
    let incoming_ids = event_id_list(events.as_slice());
    let mut known_ids = existing_ids.clone();
    assert(views(known_ids@) == views(existing_ids@)) by {
        assert(known_ids@ =~= existing_ids@);
    }
    extend_texts(&mut known_ids, incoming_ids.as_slice());
    let mut accepted = filter_valid_events(
        events,
        location_name_texts.as_slice(),
        faction_name_texts.as_slice(),
        known_ids.as_slice(),
        existing_ids.as_slice(),
        "mod content",
        warnings,
    );
    base.events.append(&mut accepted);
}

/// Merging keeps every key it had and gains every incoming key; and when the keys were
/// distinct, they stay distinct, each incoming key holding the last incoming entry with it.
pub proof fn law_merge_by_key<T: MergeKey>(base: Seq<T>, incoming: Seq<T>)
    ensures
        forall|i: int| 0 <= i < base.len() ==>
            first_match(merged(base, incoming), key_is::<T>((#[trigger] base[i]).merge_key())) < merged(base, incoming).len(),
        forall|i: int| 0 <= i < incoming.len() ==>
            first_match(merged(base, incoming), key_is::<T>((#[trigger] incoming[i]).merge_key())) < merged(base, incoming).len(),
        distinct_keys(base) ==> distinct_keys(merged(base, incoming)),
    decreases incoming.len(),
{
    if incoming.len() > 0 {
        let d = incoming.drop_last();
        law_merge_by_key(base, d);
        let prev = merged(base, d);
        let item = incoming.last();
        let res = merged(base, incoming);
        let k = first_match(prev, key_is::<T>(item.merge_key()));
        lemma_first_match(prev, key_is::<T>(item.merge_key()));
        assert forall|key: Seq<char>| first_match(prev, key_is::<T>(key)) < prev.len()
            implies #[trigger] first_match(res, key_is::<T>(key)) < res.len() by {
            lemma_merge_step_keeps(prev, item, key);
        }
        assert forall|i: int| 0 <= i < base.len() implies
            first_match(res, key_is::<T>((#[trigger] base[i]).merge_key())) < res.len() by {
            lemma_merge_step_keeps(prev, item, base[i].merge_key());
        }
        assert forall|i: int| 0 <= i < incoming.len() implies
            first_match(res, key_is::<T>((#[trigger] incoming[i]).merge_key())) < res.len() by {
            if i < d.len() {
                assert(incoming[i] == d[i]);
                lemma_merge_step_keeps(prev, item, d[i].merge_key());
            } else {
                lemma_merge_step_has(prev, item);
            }
        }
        if distinct_keys(base) {
            lemma_merge_step_distinct(prev, item);
        }
    } else {
        assert forall|i: int| 0 <= i < base.len() implies
            first_match(merged(base, incoming), key_is::<T>((#[trigger] base[i]).merge_key())) < merged(base, incoming).len() by {
            lemma_first_match(base, key_is::<T>(base[i].merge_key()));
            if first_match(base, key_is::<T>(base[i].merge_key())) == base.len() {
                assert(!key_is::<T>(base[i].merge_key())(base[i]));
            }
        }
    }
}

/// No two entries share a key.
pub open spec fn distinct_keys<T: MergeKey>(s: Seq<T>) -> bool {
    forall|i: int, j: int| 0 <= i < j < s.len() ==> s[i].merge_key() != s[j].merge_key()
}

/// The merge of one more entry into `prev`.
pub open spec fn merge_step<T: MergeKey>(prev: Seq<T>, item: T) -> Seq<T> {
    let k = first_match(prev, key_is::<T>(item.merge_key()));
    if k < prev.len() { prev.update(k, item) } else { prev.push(item) }
}

proof fn lemma_merge_step_shape<T: MergeKey>(prev: Seq<T>, item: T)
    ensures
        ({
            let res = merge_step(prev, item);
            &&& res.len() >= prev.len()
            &&& forall|j: int| 0 <= j < prev.len() ==> (#[trigger] res[j]).merge_key() == prev[j].merge_key()
            &&& exists|p: int| 0 <= p < res.len() && res[p] == item
        }),
{
    let k = first_match(prev, key_is::<T>(item.merge_key()));
    lemma_first_match(prev, key_is::<T>(item.merge_key()));
    let res = merge_step(prev, item);
    if k < prev.len() {
        assert(res[k] == item);
    } else {
        assert(res[prev.len() as int] == item);
    }
}

proof fn lemma_merge_step_keeps<T: MergeKey>(prev: Seq<T>, item: T, key: Seq<char>)
    requires
        first_match(prev, key_is::<T>(key)) < prev.len(),
    ensures
        first_match(merge_step(prev, item), key_is::<T>(key)) < merge_step(prev, item).len(),
{
    lemma_merge_step_shape(prev, item);
    lemma_first_match(prev, key_is::<T>(key));
    let j = first_match(prev, key_is::<T>(key));
    let res = merge_step(prev, item);
    assert(key_is::<T>(key)(res[j]));
    lemma_first_match(res, key_is::<T>(key));
    if first_match(res, key_is::<T>(key)) == res.len() {
        assert(!key_is::<T>(key)(res[j]));
    }
}

proof fn lemma_merge_step_has<T: MergeKey>(prev: Seq<T>, item: T)
    ensures
        first_match(merge_step(prev, item), key_is::<T>(item.merge_key())) < merge_step(prev, item).len(),
{
    lemma_merge_step_shape(prev, item);
    let res = merge_step(prev, item);
    let p = choose|p: int| 0 <= p < res.len() && res[p] == item;
    lemma_first_match(res, key_is::<T>(item.merge_key()));
    if first_match(res, key_is::<T>(item.merge_key())) == res.len() {
        assert(!key_is::<T>(item.merge_key())(res[p]));
    }
}

proof fn lemma_merge_step_distinct<T: MergeKey>(prev: Seq<T>, item: T)
    requires
        distinct_keys(prev),
    ensures
        distinct_keys(merge_step(prev, item)),
{
    let k = first_match(prev, key_is::<T>(item.merge_key()));
    lemma_first_match(prev, key_is::<T>(item.merge_key()));
    let res = merge_step(prev, item);
    if k < prev.len() {
        assert forall|i: int, j: int| 0 <= i < j < res.len() implies res[i].merge_key() != res[j].merge_key() by {
            if i != k && j != k {
                assert(res[i] == prev[i] && res[j] == prev[j]);
            } else if i == k {
                assert(res[j] == prev[j]);
            } else {
                assert(res[i] == prev[i]);
            }
        }
    } else {
        assert forall|i: int, j: int| 0 <= i < j < res.len() implies res[i].merge_key() != res[j].merge_key() by {
            if j < prev.len() {
                assert(res[i] == prev[i] && res[j] == prev[j]);
            } else {
                assert(res[i] == prev[i]);
                assert(!key_is::<T>(item.merge_key())(prev[i]));
            }
        }
    }
}

/// Merging a mod never drops or rewrites existing events: the existing events stay, in
/// order, as a prefix; and when the existing ids are distinct, all ids stay distinct.
pub proof fn law_merge_keeps_existing_events(
    base_events: Seq<EventContent>,
    merged_locations: Seq<LocationContent>,
    merged_factions: Seq<FactionContent>,
    incoming_events: Seq<EventContent>,
)
    ensures
        ({
            let all = base_events + mod_event_filter(base_events, merged_locations, merged_factions, incoming_events).0;
            &&& all.take(base_events.len() as int) == base_events
            &&& distinct_ids(base_events) ==> distinct_ids(all)
        }),
{
    let r = mod_event_filter(base_events, merged_locations, merged_factions, incoming_events);
    law_filter_events(incoming_events, location_names(merged_locations), faction_names(merged_factions),
        event_ids(base_events) + event_ids(incoming_events), event_ids(base_events), "mod content"@);
    let all = base_events + r.0;
    assert(all.take(base_events.len() as int) =~= base_events);
    if distinct_ids(base_events) {
        assert forall|i: int, j: int| 0 <= i < j < all.len() implies all[i].id@ != all[j].id@ by {
            if j >= base_events.len() && i < base_events.len() {
                let jj = j - base_events.len();
                assert(all[j] == r.0[jj]);
                assert(!event_ids(base_events).contains(r.0[jj].id@));
                assert(event_ids(base_events)[i] == base_events[i].id@);
            } else if i >= base_events.len() {
                assert(all[i] == r.0[i - base_events.len()]);
                assert(all[j] == r.0[j - base_events.len()]);
            }
        }
    }
}


/// A mod's events that are sound in the light of the base content alone are all merged:
/// when each incoming event passes validation against the merged locations and factions
/// with the base events known, their ids are distinct, and none repeats a base event's id,
/// every one of them is appended, in order, and no warning is raised. In particular an
/// incoming event may name a base event as its prior event.
pub proof fn law_merge_accepts_sound_mod_events(
    base_events: Seq<EventContent>,
    merged_locations: Seq<LocationContent>,
    merged_factions: Seq<FactionContent>,
    incoming_events: Seq<EventContent>,
)
    requires
        forall|i: int| 0 <= i < incoming_events.len() ==> event_issues(#[trigger] incoming_events[i],
            location_names(merged_locations), faction_names(merged_factions), event_ids(base_events)).len() == 0,
        distinct_ids(incoming_events),
        forall|i: int| 0 <= i < incoming_events.len() ==> !event_ids(base_events).contains((#[trigger] incoming_events[i]).id@),
    ensures
        mod_event_filter(base_events, merged_locations, merged_factions, incoming_events).0 == incoming_events,
        mod_event_filter(base_events, merged_locations, merged_factions, incoming_events).1.len() == 0,
{
    let locs = location_names(merged_locations);
    let facs = faction_names(merged_factions);
    let base = event_ids(base_events);
    let known = event_ids(base_events) + event_ids(incoming_events);
    assert forall|x: Seq<char>| base.contains(x) implies known.contains(x) by {
        let k = choose|k: int| 0 <= k < base.len() && base[k] == x;
        assert(known[k] == x);
    }
    assert forall|i: int| 0 <= i < incoming_events.len() implies
        event_issues(#[trigger] incoming_events[i], locs, facs, known).len() == 0 by {
        lemma_event_issues_more_known(incoming_events[i], locs, facs, base, known);
    }
    assert forall|i: int| 0 <= i < incoming_events.len() implies (prior_reference(#[trigger] incoming_events[i])
        matches Some(p) ==> base.contains(p) || event_ids(incoming_events).contains(p)) by {
        lemma_event_issues_more_known(incoming_events[i], locs, facs, base, known);
    }
    law_filter_accepts_clean_events(incoming_events, locs, facs, known, base, "mod content"@);
}

} // verus!
