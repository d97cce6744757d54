//! The order mods load in, and the report that a content load builds up.

use vstd::prelude::*;
use crate::text::{views, push_text, text_less, text_lt, lemma_text_less_asymmetric, lemma_text_less_split, cat2, cat6, cat3};
use crate::content::{
    CampaignContent, WorldContent, ModManifest, ContentLoadReport, EventContent, location_names, faction_names,
    event_ids, location_name_list, faction_name_list, event_id_list,
};
use crate::content::validation::{filter_events, filter_valid_events, content_issues};
use crate::content::merging::{merge_campaign_content, merged, mod_event_filter};
use crate::text::extend_texts;

verus! {

/// Whether mod `a` loads before mod `b`: lower priority first, then by id.
pub open spec fn mod_before(a: ModManifest, b: ModManifest) -> bool {
    a.priority < b.priority || (a.priority == b.priority && text_less(a.id@, b.id@))
}

/// Whether the mod at index `a` loads before the one at `b`; mods that tie keep their order.
pub open spec fn mod_precedes(ms: Seq<ModManifest>, a: int, b: int) -> bool {
    mod_before(ms[a], ms[b]) || (!mod_before(ms[b], ms[a]) && a < b)
}

/// An order of all the mods, by priority then id, ties kept in their found order.
pub open spec fn is_load_order(ms: Seq<ModManifest>, order: Seq<int>) -> bool {
    &&& order.len() == ms.len()
    &&& forall|p: int| 0 <= p < order.len() ==> 0 <= #[trigger] order[p] < ms.len()
    &&& forall|p: int, q: int| 0 <= p < q < order.len() ==> mod_precedes(ms, #[trigger] order[p], #[trigger] order[q])
}

proof fn lemma_mod_before_asymmetric(a: ModManifest, b: ModManifest)
    ensures
        mod_before(a, b) ==> !mod_before(b, a),
{
    lemma_text_less_asymmetric(a.id@, b.id@);
}

proof fn lemma_mod_before_split(a: ModManifest, b: ModManifest, c: ModManifest)
    requires
        mod_before(a, c),
    ensures
        mod_before(a, b) || mod_before(b, c),
{
    if a.priority == c.priority && b.priority == c.priority {
        lemma_text_less_split(a.id@, b.id@, c.id@);
    }
}

/// Whether mod `a` loads before mod `b`.
fn mod_lt(a: &ModManifest, b: &ModManifest) -> (r: bool)
    ensures
        r == mod_before(*a, *b),
{
    a.priority < b.priority || (a.priority == b.priority && text_lt(a.id.as_str(), b.id.as_str()))
}

pub open spec fn as_ints(s: Seq<usize>) -> Seq<int> {
    s.map_values(|x: usize| x as int)
}

/// The order the mods load in: by priority, then by id, ties kept in their found order.
pub fn mod_load_order(manifests: &[ModManifest]) -> (order: Vec<usize>)
    ensures
        is_load_order(manifests@, as_ints(order@)),
{
    let ghost ms = manifests@;
    let mut order: Vec<usize> = Vec::new();
    let mut i: usize = 0;
    while i < manifests.len()
        invariant
            ms == manifests@,
            i <= ms.len(),
            order@.len() == i,
            forall|p: int| 0 <= p < order@.len() ==> (#[trigger] order@[p]) < i,
            forall|p: int, q: int| 0 <= p < q < order@.len() ==>
                mod_precedes(ms, #[trigger] order@[p] as int, #[trigger] order@[q] as int),
        decreases ms.len() - i,
    {
        let mut pos: usize = 0;
        while pos < order.len() && !mod_lt(&manifests[i], &manifests[order[pos]])
            invariant
                ms == manifests@,
                i < ms.len(),
                pos <= order@.len(),
                forall|p: int| 0 <= p < order@.len() ==> (#[trigger] order@[p]) < i,
                forall|p: int| 0 <= p < pos ==> !mod_before(ms[i as int], ms[#[trigger] order@[p] as int]),
            decreases order@.len() - pos,
        {
            pos = pos + 1;
        }
        let ghost old_order = order@;
        order.insert(pos, i);
        proof {
            assert forall|p: int, q: int| 0 <= p < q < order@.len() implies
                mod_precedes(ms, #[trigger] order@[p] as int, #[trigger] order@[q] as int) by {
                let op = order@[p] as int;
                let oq = order@[q] as int;
                if q < pos {
                    assert(order@[p] == old_order[p] && order@[q] == old_order[q]);
                } else if q == pos {
                    assert(order@[p] == old_order[p]);
                    assert(!mod_before(ms[i as int], ms[op]));
                } else if p == pos {
                    assert(order@[q] == old_order[q - 1]);
                    let first = old_order[pos as int] as int;
                    assert(mod_before(ms[i as int], ms[first]));
                    if q - 1 > pos {
                        assert(mod_precedes(ms, first, oq));
                        lemma_mod_before_asymmetric(ms[first], ms[oq]);
                    }
                    if !mod_before(ms[i as int], ms[oq]) {
                        lemma_mod_before_split(ms[i as int], ms[oq], ms[first]);
                    }
                } else if p < pos {
                    assert(order@[p] == old_order[p] && order@[q] == old_order[q - 1]);
                } else {
                    assert(order@[p] == old_order[p - 1] && order@[q] == old_order[q - 1]);
                }
            }
            assert forall|p: int| 0 <= p < order@.len() implies (#[trigger] order@[p]) < i + 1 by {
                if p < pos {
                    assert(order@[p] == old_order[p]);
                } else if p > pos {
                    assert(order@[p] == old_order[p - 1]);
                }
            }
        }
        i = i + 1;
    }
    proof {
        assert forall|p: int, q: int| 0 <= p < q < order@.len() implies
            mod_precedes(ms, #[trigger] as_ints(order@)[p], #[trigger] as_ints(order@)[q]) by {
            assert(mod_precedes(ms, order@[p] as int, order@[q] as int));
        }
    }
    order
}


/// What to do with a mod, in load order.
#[derive(Debug, Clone, Copy, PartialEq, Eq, Structural)]
pub enum ModStep {
    /// Load the mod at this index of the manifests.
    Load(usize),
    /// Skip the mod at this index: an earlier enabled mod has its id.
    SkipDuplicate(usize),
}

/// The ids of the enabled mods in an order.
pub open spec fn enabled_ids(ms: Seq<ModManifest>, order: Seq<int>) -> Seq<Seq<char>>
    decreases order.len(),
{
    if order.len() == 0 {
        seq![]
    } else {
        let prev = enabled_ids(ms, order.drop_last());
        let m = ms[order.last()];
        if m.enabled { prev.push(m.id@) } else { prev }
    }
}

/// The steps for mods taken in `order`: disabled mods are passed over, an enabled mod whose
/// id an earlier enabled mod has is skipped, and every other enabled mod is loaded.
pub open spec fn plan_steps(ms: Seq<ModManifest>, order: Seq<int>) -> Seq<ModStep>
    decreases order.len(),
{
    if order.len() == 0 {
        seq![]
    } else {
        let prev = plan_steps(ms, order.drop_last());
        let k = order.last();
        if !ms[k].enabled {
            prev
        } else if enabled_ids(ms, order.drop_last()).contains(ms[k].id@) {
            prev.push(ModStep::SkipDuplicate(k as usize))
        } else {
            prev.push(ModStep::Load(k as usize))
        }
    }
}

/// The steps of loading the mods: in load order, disabled mods passed over, duplicate ids
/// skipped.
pub fn mod_load_plan(manifests: &[ModManifest]) -> (steps: Vec<ModStep>)
    ensures
        exists|order: Seq<int>| is_load_order(manifests@, order) && steps@ == plan_steps(manifests@, order),
{
    let order = mod_load_order(manifests);
    let ghost ord = as_ints(order@);
    let mut steps: Vec<ModStep> = Vec::new();
    let mut seen: Vec<String> = Vec::new();
    let mut i: usize = 0;
    while i < order.len()
        invariant
            ord == as_ints(order@),
            is_load_order(manifests@, ord),
            i <= ord.len(),
            views(seen@) == enabled_ids(manifests@, ord.take(i as int)),
            steps@ == plan_steps(manifests@, ord.take(i as int)),
        decreases ord.len() - i,
    {
        let k = order[i];
        proof {
            let t = ord.take(i + 1);
            assert(t.drop_last() =~= ord.take(i as int));
            assert(t.last() == k as int);
            assert(0 <= ord[i as int] < manifests@.len());
        }
        let m = &manifests[k];
        if m.enabled {
            if crate::text::texts_contain(seen.as_slice(), m.id.as_str()) {
                steps.push(ModStep::SkipDuplicate(k));
            } else {
                steps.push(ModStep::Load(k));
            }
            push_text(&mut seen, m.id.clone());
        }
        i = i + 1;
    }
    proof {
        assert(ord.take(ord.len() as int) =~= ord);
    }
    steps
}

/// The events that survive filtering of a campaign's own events.
pub open spec fn base_event_filter(content: CampaignContent) -> (Seq<EventContent>, Seq<Seq<char>>) {
    filter_events(
        content.events@,
        location_names(content.world.locations@),
        faction_names(content.factions@),
        event_ids(content.events@),
        seq![],
        "base content"@,
    )
}

impl ContentLoadReport {
    /// A report of `content` with no mods and no warnings.
    pub fn with_content(content: CampaignContent) -> (r: Self)
        ensures
            r.content == content,
            r.loaded_mods@.len() == 0,
            r.warnings@.len() == 0,
    {
        ContentLoadReport { content, loaded_mods: Vec::new(), warnings: Vec::new() }
    }

    /// The report of base content: its own events are filtered against its locations,
    /// factions and event ids, with a warning for each event turned away.
    pub fn from_base(content: CampaignContent) -> (r: Self)
        ensures
            r.content.version == content.version,
            r.content.world == content.world,
            r.content.factions == content.factions,
            r.content.npcs == content.npcs,
            r.content.quests == content.quests,
            r.content.encounters == content.encounters,
            r.content.atmospheres == content.atmospheres,
            r.content.item_visuals == content.item_visuals,
            r.content.events@ == base_event_filter(content).0,
            views(r.warnings@) == base_event_filter(content).1,
            r.loaded_mods@.len() == 0,
    {
        let ghost c = content;
        let CampaignContent { version, world, factions, npcs, quests, encounters, atmospheres, item_visuals, events } = content;
        let location_name_texts = location_name_list(world.locations.as_slice());
        let faction_name_texts = faction_name_list(factions.as_slice());
        let ids = event_id_list(events.as_slice());
        let no_ids: Vec<String> = Vec::new();
        let mut warnings: Vec<String> = Vec::new();
        let accepted = filter_valid_events(
            events,
            location_name_texts.as_slice(),
            faction_name_texts.as_slice(),
            ids.as_slice(),
            no_ids.as_slice(),
            "base content",
            &mut warnings,
        );
        proof {
            assert(views(no_ids@) =~= seq![]);
            assert(views(warnings@) =~= base_event_filter(c).1);
        }
        ContentLoadReport {
            content: CampaignContent { version, world, factions, npcs, quests, encounters, atmospheres, item_visuals, events: accepted },
            loaded_mods: Vec::new(),
            warnings,
        }
    }

    /// Notes that a mod was skipped for repeating an earlier mod's id.
    pub fn skip_duplicate_mod(&mut self, id: &str)
        ensures
            final(self).content == old(self).content,
            final(self).loaded_mods == old(self).loaded_mods,
            views(final(self).warnings@) == views(old(self).warnings@).push("skipping duplicate mod id "@ + id@),
    {
        push_text(&mut self.warnings, cat2("skipping duplicate mod id ", id));
    }

    /// Merges a loaded mod's content in and lists the mod as loaded.
    pub fn add_mod(&mut self, manifest: ModManifest, content: CampaignContent)
        ensures
            final(self).loaded_mods@ == old(self).loaded_mods@.push(manifest),
            final(self).content.version == old(self).content.version,
            final(self).content.world.region == content.world.region,
            final(self).content.world.locations@ == merged(old(self).content.world.locations@, content.world.locations@),
            final(self).content.factions@ == merged(old(self).content.factions@, content.factions@),
            final(self).content.npcs@ == merged(old(self).content.npcs@, content.npcs@),
            final(self).content.quests@ == merged(old(self).content.quests@, content.quests@),
            final(self).content.encounters@ == merged(old(self).content.encounters@, content.encounters@),
            final(self).content.atmospheres@ == merged(old(self).content.atmospheres@, content.atmospheres@),
            final(self).content.item_visuals@ == merged(old(self).content.item_visuals@, content.item_visuals@),
            ({
                let r = mod_event_filter(old(self).content.events@, final(self).content.world.locations@,
                    final(self).content.factions@, content.events@);
                &&& final(self).content.events@ == old(self).content.events@ + r.0
                &&& views(final(self).warnings@) == views(old(self).warnings@) + r.1
            }),
    {
        merge_campaign_content(&mut self.content, content, &mut self.warnings);
        self.loaded_mods.push(manifest);
    }

    /// Notes that a mod's content could not be loaded.
    pub fn record_mod_failure(&mut self, id: &str, name: &str, location: &str, error: &str)
        ensures
            final(self).content == old(self).content,
            final(self).loaded_mods == old(self).loaded_mods,
            views(final(self).warnings@) == views(old(self).warnings@).push(
                "could not load mod "@ + id@ + " ("@ + name@ + ") from "@ + location@ + ": "@ + error@),
    {
        let head = cat6("could not load mod ", id, " (", name, ") from ", location);
        push_text(&mut self.warnings, cat3(head.as_str(), ": ", error));
    }

    /// Ends the load: the issues of the whole content join the warnings.
    pub fn finish(&mut self)
        ensures
            final(self).content == old(self).content,
            final(self).loaded_mods == old(self).loaded_mods,
            views(final(self).warnings@) == views(old(self).warnings@) + content_issues(old(self).content),
    {
        let issues = self.content.validate();
        extend_texts(&mut self.warnings, issues.as_slice());
    }
}

} // verus!
