//! Campaign content definitions: the declarative data that seeds worlds and drives events.

pub mod validation;
pub mod seeding;
pub mod merging;
pub mod loading;

use vstd::prelude::*;
use crate::text::{views, push_text, text_eq};
use crate::model::{first_match, lemma_first_match, lemma_first_match_step, lemma_first_match_none};

verus! {

/// A campaign: the world layout and everything that references it.
#[derive(Debug)]
pub struct CampaignContent {
    pub version: u32,
    pub world: WorldContent,
    pub factions: Vec<FactionContent>,
    pub npcs: Vec<NpcContent>,
    pub quests: Vec<QuestContent>,
    pub encounters: Vec<EncounterContent>,
    pub atmospheres: Vec<LocationAtmosphere>,
    pub item_visuals: Vec<ItemVisualContent>,
    pub events: Vec<EventContent>,
}

/// The region and its locations.
#[derive(Debug)]
pub struct WorldContent {
    pub region: RegionContent,
    pub locations: Vec<LocationContent>,
}

#[derive(Debug)]
pub struct RegionContent {
    pub id: String,
    pub name: String,
    pub description: String,
}

/// A location; `exits` hold the content ids of neighbouring locations.
#[derive(Debug)]
pub struct LocationContent {
    pub id: String,
    pub name: String,
    pub description: String,
    pub dangerous: bool,
    pub exits: Vec<String>,
    pub scene_art: Option<String>,
}

#[derive(Debug)]
pub struct FactionContent {
    pub id: String,
    pub name: String,
}

#[derive(Debug)]
pub struct NpcContent {
    pub id: String,
    pub name: String,
    pub title: String,
    pub location_name: String,
    pub faction_name: Option<String>,
    pub memory: Vec<String>,
    pub portrait: Option<String>,
}

#[derive(Debug)]
pub struct QuestContent {
    pub id: String,
    pub title: String,
    pub description: String,
    pub location_name: String,
    pub faction_name: String,
    pub giver_npc_name: String,
    pub required_item_name: String,
    pub reward_item_name: String,
}

#[derive(Debug)]
pub struct EncounterContent {
    pub location_name: String,
    pub enemy_name: String,
    pub enemy_hp: i32,
    pub enemy_power: i32,
    pub trophy_item_name: String,
    pub description: String,
}

#[derive(Debug)]
pub struct LocationAtmosphere {
    pub location_name: String,
    pub text: String,
}

#[derive(Debug)]
pub struct ItemVisualContent {
    pub item_name: String,
    pub art: String,
}

/// Conditions that gate an event; an absent field places no constraint.
#[derive(Debug)]
pub struct EventConditionContent {
    pub night: Option<bool>,
    pub dangerous: Option<bool>,
    pub min_day: Option<u32>,
    pub max_day: Option<u32>,
    pub locations: Vec<String>,
    pub prior_event_id: Option<String>,
    pub faction_name: Option<String>,
    pub min_reputation: Option<i32>,
    pub max_reputation: Option<i32>,
    pub required_item_name: Option<String>,
    pub required_condition_name: Option<String>,
}

impl Default for EventConditionContent {
    fn default() -> (r: Self)
        ensures
            r.night is None,
            r.dangerous is None,
            r.min_day is None,
            r.max_day is None,
            r.locations@.len() == 0,
            r.prior_event_id is None,
            r.faction_name is None,
            r.min_reputation is None,
            r.max_reputation is None,
            r.required_item_name is None,
            r.required_condition_name is None,
    {
        EventConditionContent {
            night: None,
            dangerous: None,
            min_day: None,
            max_day: None,
            locations: Vec::new(),
            prior_event_id: None,
            faction_name: None,
            min_reputation: None,
            max_reputation: None,
            required_item_name: None,
            required_condition_name: None,
        }
    }
}

/// What an event does when it fires.
#[derive(Debug)]
pub enum EventEffectContent {
    Message { text: String },
    History { text: String },
    Pause,
    Heal { amount: i32 },
    Damage { amount: i32 },
    AddCondition { name: String, remaining: u32, penalty: i32, bonus: i32 },
}

/// A data-driven event with its trigger, selection weight, gates and effects.
#[derive(Debug)]
pub struct EventContent {
    pub id: String,
    pub trigger: String,
    pub weight: u32,
    pub chance_percent: Option<u8>,
    pub cooldown_turns: Option<u32>,
    pub conditions: Option<EventConditionContent>,
    pub effects: Vec<EventEffectContent>,
}

/// The manifest of a mod found under the mods directory.
#[derive(Debug)]
pub struct ModManifest {
    pub id: String,
    pub name: String,
    pub version: String,
    pub priority: i32,
    pub enabled: bool,
    pub content_file: String,
}

/// Loaded content with the mods that contributed to it and every warning raised on the way.
#[derive(Debug)]
pub struct ContentLoadReport {
    pub content: CampaignContent,
    pub loaded_mods: Vec<ModManifest>,
    pub warnings: Vec<String>,
}

/// The ids of locations.
pub open spec fn location_ids(s: Seq<LocationContent>) -> Seq<Seq<char>> {
    s.map_values(|l: LocationContent| l.id@)
}

/// The names of locations.
pub open spec fn location_names(s: Seq<LocationContent>) -> Seq<Seq<char>> {
    s.map_values(|l: LocationContent| l.name@)
}

/// The ids of factions.
pub open spec fn faction_ids(s: Seq<FactionContent>) -> Seq<Seq<char>> {
    s.map_values(|f: FactionContent| f.id@)
}

/// The names of factions.
pub open spec fn faction_names(s: Seq<FactionContent>) -> Seq<Seq<char>> {
    s.map_values(|f: FactionContent| f.name@)
}

/// The ids of npcs.
pub open spec fn npc_ids(s: Seq<NpcContent>) -> Seq<Seq<char>> {
    s.map_values(|n: NpcContent| n.id@)
}

/// The names of npcs.
pub open spec fn npc_names(s: Seq<NpcContent>) -> Seq<Seq<char>> {
    s.map_values(|n: NpcContent| n.name@)
}

/// The ids of quests.
pub open spec fn quest_ids(s: Seq<QuestContent>) -> Seq<Seq<char>> {
    s.map_values(|q: QuestContent| q.id@)
}

/// The item names that item visuals describe.
pub open spec fn item_visual_names(s: Seq<ItemVisualContent>) -> Seq<Seq<char>> {
    s.map_values(|v: ItemVisualContent| v.item_name@)
}

/// The ids of events.
pub open spec fn event_ids(s: Seq<EventContent>) -> Seq<Seq<char>> {
    s.map_values(|e: EventContent| e.id@)
}

/// The ids of the locations, in order.
pub fn location_id_list(s: &[LocationContent]) -> (r: Vec<String>)
    ensures
        views(r@) == location_ids(s@),
{
    let mut r: Vec<String> = Vec::new();
    let mut i: usize = 0;
    while i < s.len()
        invariant
            i <= s@.len(),
            views(r@) == location_ids(s@.take(i as int)),
        decreases s@.len() - i,
    {
        push_text(&mut r, s[i].id.clone());
        assert(location_ids(s@.take(i + 1)) =~= location_ids(s@.take(i as int)).push(s@[i as int].id@));
        i = i + 1;
    }
    assert(s@.take(s@.len() as int) =~= s@);
    r
}

/// The names of the locations, in order.
pub fn location_name_list(s: &[LocationContent]) -> (r: Vec<String>)
    ensures
        views(r@) == location_names(s@),
{
    let mut r: Vec<String> = Vec::new();
    let mut i: usize = 0;
    while i < s.len()
        invariant
            i <= s@.len(),
            views(r@) == location_names(s@.take(i as int)),
        decreases s@.len() - i,
    {
        push_text(&mut r, s[i].name.clone());
        assert(location_names(s@.take(i + 1)) =~= location_names(s@.take(i as int)).push(s@[i as int].name@));
        i = i + 1;
    }
    assert(s@.take(s@.len() as int) =~= s@);
    r
}

/// The ids of the factions, in order.
pub fn faction_id_list(s: &[FactionContent]) -> (r: Vec<String>)
    ensures
        views(r@) == faction_ids(s@),
{
    let mut r: Vec<String> = Vec::new();
    let mut i: usize = 0;
    while i < s.len()
        invariant
            i <= s@.len(),
            views(r@) == faction_ids(s@.take(i as int)),
        decreases s@.len() - i,
    {
        push_text(&mut r, s[i].id.clone());
        assert(faction_ids(s@.take(i + 1)) =~= faction_ids(s@.take(i as int)).push(s@[i as int].id@));
        i = i + 1;
    }
    assert(s@.take(s@.len() as int) =~= s@);
    r
}

/// The names of the factions, in order.
pub fn faction_name_list(s: &[FactionContent]) -> (r: Vec<String>)
    ensures
        views(r@) == faction_names(s@),
{
    let mut r: Vec<String> = Vec::new();
    let mut i: usize = 0;
    while i < s.len()
        invariant
            i <= s@.len(),
            views(r@) == faction_names(s@.take(i as int)),
        decreases s@.len() - i,
    {
        push_text(&mut r, s[i].name.clone());
        assert(faction_names(s@.take(i + 1)) =~= faction_names(s@.take(i as int)).push(s@[i as int].name@));
        i = i + 1;
    }
    assert(s@.take(s@.len() as int) =~= s@);
    r
}

/// The ids of the npcs, in order.
pub fn npc_id_list(s: &[NpcContent]) -> (r: Vec<String>)
    ensures
        views(r@) == npc_ids(s@),
{
    let mut r: Vec<String> = Vec::new();
    let mut i: usize = 0;
    while i < s.len()
        invariant
            i <= s@.len(),
            views(r@) == npc_ids(s@.take(i as int)),
        decreases s@.len() - i,
    {
        push_text(&mut r, s[i].id.clone());
        assert(npc_ids(s@.take(i + 1)) =~= npc_ids(s@.take(i as int)).push(s@[i as int].id@));
        i = i + 1;
    }
    assert(s@.take(s@.len() as int) =~= s@);
    r
}

/// The names of the npcs, in order.
pub fn npc_name_list(s: &[NpcContent]) -> (r: Vec<String>)
    ensures
        views(r@) == npc_names(s@),
{
    let mut r: Vec<String> = Vec::new();
    let mut i: usize = 0;
    while i < s.len()
        invariant
            i <= s@.len(),
            views(r@) == npc_names(s@.take(i as int)),
        decreases s@.len() - i,
    {
        push_text(&mut r, s[i].name.clone());
        assert(npc_names(s@.take(i + 1)) =~= npc_names(s@.take(i as int)).push(s@[i as int].name@));
        i = i + 1;
    }
    assert(s@.take(s@.len() as int) =~= s@);
    r
}

/// The ids of the quests, in order.
pub fn quest_id_list(s: &[QuestContent]) -> (r: Vec<String>)
    ensures
        views(r@) == quest_ids(s@),
{
    let mut r: Vec<String> = Vec::new();
    let mut i: usize = 0;
    while i < s.len()
        invariant
            i <= s@.len(),
            views(r@) == quest_ids(s@.take(i as int)),
        decreases s@.len() - i,
    {
        push_text(&mut r, s[i].id.clone());
        assert(quest_ids(s@.take(i + 1)) =~= quest_ids(s@.take(i as int)).push(s@[i as int].id@));
        i = i + 1;
    }
    assert(s@.take(s@.len() as int) =~= s@);
    r
}

/// The item names that the visuals describe, in order.
pub fn item_visual_name_list(s: &[ItemVisualContent]) -> (r: Vec<String>)
    ensures
        views(r@) == item_visual_names(s@),
{
    let mut r: Vec<String> = Vec::new();
    let mut i: usize = 0;
    while i < s.len()
        invariant
            i <= s@.len(),
            views(r@) == item_visual_names(s@.take(i as int)),
        decreases s@.len() - i,
    {
        push_text(&mut r, s[i].item_name.clone());
        assert(item_visual_names(s@.take(i + 1)) =~= item_visual_names(s@.take(i as int)).push(s@[i as int].item_name@));
        i = i + 1;
    }
    assert(s@.take(s@.len() as int) =~= s@);
    r
}

/// The ids of the events, in order.
pub fn event_id_list(s: &[EventContent]) -> (r: Vec<String>)
    ensures
        views(r@) == event_ids(s@),
{
    let mut r: Vec<String> = Vec::new();
    let mut i: usize = 0;
    while i < s.len()
        invariant
            i <= s@.len(),
            views(r@) == event_ids(s@.take(i as int)),
        decreases s@.len() - i,
    {
        push_text(&mut r, s[i].id.clone());
        assert(event_ids(s@.take(i + 1)) =~= event_ids(s@.take(i as int)).push(s@[i as int].id@));
        i = i + 1;
    }
    assert(s@.take(s@.len() as int) =~= s@);
    r
}


pub open spec fn atmosphere_at(name: Seq<char>) -> spec_fn(LocationAtmosphere) -> bool {
    |a: LocationAtmosphere| a.location_name@ == name
}

pub open spec fn encounter_at(name: Seq<char>) -> spec_fn(EncounterContent) -> bool {
    |e: EncounterContent| e.location_name@ == name
}

pub open spec fn location_content_named(name: Seq<char>) -> spec_fn(LocationContent) -> bool {
    |l: LocationContent| l.name@ == name
}

pub open spec fn npc_content_named(name: Seq<char>) -> spec_fn(NpcContent) -> bool {
    |n: NpcContent| n.name@ == name
}

pub open spec fn item_visual_for(name: Seq<char>) -> spec_fn(ItemVisualContent) -> bool {
    |v: ItemVisualContent| v.item_name@ == name
}

fn atmosphere_index(s: &[LocationAtmosphere], name: &str) -> (r: Option<usize>)
    ensures
        ({
            let k = first_match(s@, atmosphere_at(name@));
            &&& (r is Some) == (k < s@.len())
            &&& r matches Some(i) ==> i as int == k
        }),
{
    proof { lemma_first_match(s@, atmosphere_at(name@)); }
    let mut i: usize = 0;
    while i < s.len()
        invariant
            i <= s@.len(),
            forall|j: int| 0 <= j < i ==> !atmosphere_at(name@)(#[trigger] s@[j]),
        decreases s@.len() - i,
    {
        proof { lemma_first_match_step(s@, atmosphere_at(name@), i as int); }
        if text_eq(s[i].location_name.as_str(), name) {
            return Some(i);
        }
        i = i + 1;
    }
    proof { lemma_first_match_none(s@, atmosphere_at(name@)); }
    None
}

fn encounter_index(s: &[EncounterContent], name: &str) -> (r: Option<usize>)
    ensures
        ({
            let k = first_match(s@, encounter_at(name@));
            &&& (r is Some) == (k < s@.len())
            &&& r matches Some(i) ==> i as int == k
        }),
{
    proof { lemma_first_match(s@, encounter_at(name@)); }
    let mut i: usize = 0;
    while i < s.len()
        invariant
            i <= s@.len(),
            forall|j: int| 0 <= j < i ==> !encounter_at(name@)(#[trigger] s@[j]),
        decreases s@.len() - i,
    {
        proof { lemma_first_match_step(s@, encounter_at(name@), i as int); }
        if text_eq(s[i].location_name.as_str(), name) {
            return Some(i);
        }
        i = i + 1;
    }
    proof { lemma_first_match_none(s@, encounter_at(name@)); }
    None
}

fn location_content_index(s: &[LocationContent], name: &str) -> (r: Option<usize>)
    ensures
        ({
            let k = first_match(s@, location_content_named(name@));
            &&& (r is Some) == (k < s@.len())
            &&& r matches Some(i) ==> i as int == k
        }),
{
    proof { lemma_first_match(s@, location_content_named(name@)); }
    let mut i: usize = 0;
    while i < s.len()
        invariant
            i <= s@.len(),
            forall|j: int| 0 <= j < i ==> !location_content_named(name@)(#[trigger] s@[j]),
        decreases s@.len() - i,
    {
        proof { lemma_first_match_step(s@, location_content_named(name@), i as int); }
        if text_eq(s[i].name.as_str(), name) {
            return Some(i);
        }
        i = i + 1;
    }
    proof { lemma_first_match_none(s@, location_content_named(name@)); }
    None
}

fn npc_content_index(s: &[NpcContent], name: &str) -> (r: Option<usize>)
    ensures
        ({
            let k = first_match(s@, npc_content_named(name@));
            &&& (r is Some) == (k < s@.len())
            &&& r matches Some(i) ==> i as int == k
        }),
{
    proof { lemma_first_match(s@, npc_content_named(name@)); }
    let mut i: usize = 0;
    while i < s.len()
        invariant
            i <= s@.len(),
            forall|j: int| 0 <= j < i ==> !npc_content_named(name@)(#[trigger] s@[j]),
        decreases s@.len() - i,
    {
        proof { lemma_first_match_step(s@, npc_content_named(name@), i as int); }
        if text_eq(s[i].name.as_str(), name) {
            return Some(i);
        }
        i = i + 1;
    }
    proof { lemma_first_match_none(s@, npc_content_named(name@)); }
    None
}

fn item_visual_index(s: &[ItemVisualContent], name: &str) -> (r: Option<usize>)
    ensures
        ({
            let k = first_match(s@, item_visual_for(name@));
            &&& (r is Some) == (k < s@.len())
            &&& r matches Some(i) ==> i as int == k
        }),
{
    proof { lemma_first_match(s@, item_visual_for(name@)); }
    let mut i: usize = 0;
    while i < s.len()
        invariant
            i <= s@.len(),
            forall|j: int| 0 <= j < i ==> !item_visual_for(name@)(#[trigger] s@[j]),
        decreases s@.len() - i,
    {
        proof { lemma_first_match_step(s@, item_visual_for(name@), i as int); }
        if text_eq(s[i].item_name.as_str(), name) {
            return Some(i);
        }
        i = i + 1;
    }
    proof { lemma_first_match_none(s@, item_visual_for(name@)); }
    None
}

impl CampaignContent {
    /// The atmosphere text of the first atmosphere for the location.
    pub fn atmosphere_for(&self, location_name: &str) -> (r: Option<&str>)
        ensures
            ({
                let k = first_match(self.atmospheres@, atmosphere_at(location_name@));
                &&& (r is Some) == (k < self.atmospheres@.len())
                &&& r matches Some(t) ==> t@ == self.atmospheres@[k].text@
            }),
    {
        proof { lemma_first_match(self.atmospheres@, atmosphere_at(location_name@)); }
        match atmosphere_index(self.atmospheres.as_slice(), location_name) {
            Some(i) => Some(self.atmospheres[i].text.as_str()),
            None => None,
        }
    }

    /// The first encounter at the location.
    pub fn encounter_for(&self, location_name: &str) -> (r: Option<&EncounterContent>)
        ensures
            ({
                let k = first_match(self.encounters@, encounter_at(location_name@));
                &&& (r is Some) == (k < self.encounters@.len())
                &&& r matches Some(e) ==> *e == self.encounters@[k]
            }),
    {
        proof { lemma_first_match(self.encounters@, encounter_at(location_name@)); }
        match encounter_index(self.encounters.as_slice(), location_name) {
            Some(i) => Some(&self.encounters[i]),
            None => None,
        }
    }

    /// The scene art of the first content location with the name, if it has any.
    pub fn location_art_for(&self, location_name: &str) -> (r: Option<&str>)
        ensures
            ({
                let k = first_match(self.world.locations@, location_content_named(location_name@));
                &&& (r is Some) == (k < self.world.locations@.len() && self.world.locations@[k].scene_art is Some)
                &&& r matches Some(t) ==> t@ == self.world.locations@[k].scene_art->0@
            }),
    {
        proof { lemma_first_match(self.world.locations@, location_content_named(location_name@)); }
        match location_content_index(self.world.locations.as_slice(), location_name) {
            Some(i) => match &self.world.locations[i].scene_art {
                Some(art) => Some(art.as_str()),
                None => None,
            },
            None => None,
        }
    }

    /// The portrait of the first npc with the name, if it has one.
    pub fn portrait_for(&self, npc_name: &str) -> (r: Option<&str>)
        ensures
            ({
                let k = first_match(self.npcs@, npc_content_named(npc_name@));
                &&& (r is Some) == (k < self.npcs@.len() && self.npcs@[k].portrait is Some)
                &&& r matches Some(t) ==> t@ == self.npcs@[k].portrait->0@
            }),
    {
        proof { lemma_first_match(self.npcs@, npc_content_named(npc_name@)); }
        match npc_content_index(self.npcs.as_slice(), npc_name) {
            Some(i) => match &self.npcs[i].portrait {
                Some(art) => Some(art.as_str()),
                None => None,
            },
            None => None,
        }
    }

    /// The art of the first item visual for the item.
    pub fn item_art_for(&self, item_name: &str) -> (r: Option<&str>)
        ensures
            ({
                let k = first_match(self.item_visuals@, item_visual_for(item_name@));
                &&& (r is Some) == (k < self.item_visuals@.len())
                &&& r matches Some(t) ==> t@ == self.item_visuals@[k].art@
            }),
    {
        proof { lemma_first_match(self.item_visuals@, item_visual_for(item_name@)); }
        match item_visual_index(self.item_visuals.as_slice(), item_name) {
            Some(i) => Some(self.item_visuals[i].art.as_str()),
            None => None,
        }
    }
}

/// Whether an optional setting is on when absent.
pub fn default_true() -> (r: bool)
    ensures
        r,
{
    true
}

/// The content file a mod manifest names when it names none.
pub fn default_mod_content_file() -> (r: String)
    ensures
        r@ == "content.json"@,
{
    crate::text::text_of("content.json")
}

} // verus!
