//! The persistent world and the character who walks it.

use vstd::prelude::*;
use crate::text::{text_of, cat3, text_eq};
use crate::text::cat2;

verus! {

pub type EntityId = u64;

/// Whether the world was made fresh or passed on from a fallen character.
#[derive(Debug, Clone, Copy, PartialEq, Eq, Structural)]
pub enum WorldMode {
    New,
    Inherited,
}

/// The threat that hangs over the world, if any.
#[derive(Debug)]
pub struct ThreatState {
    pub active: bool,
    pub source_location_id: Option<EntityId>,
    pub label: String,
    pub description: String,
}

/// When an event may fire again.
#[derive(Debug)]
pub struct EventCooldown {
    pub event_id: String,
    pub ready_at_turn: u32,
}

#[derive(Debug)]
pub struct World {
    pub id: EntityId,
    pub name: String,
    pub mode: WorldMode,
    pub next_id: EntityId,
    pub regions: Vec<Region>,
    pub locations: Vec<Location>,
    pub history: Vec<HistoryEntry>,
    pub day: u32,
    pub time_points: u32,
    pub event_cooldowns: Vec<EventCooldown>,
}

#[derive(Debug)]
pub struct Region {
    pub id: EntityId,
    pub name: String,
    pub description: String,
    pub location_ids: Vec<EntityId>,
}

#[derive(Debug)]
pub struct Location {
    pub id: EntityId,
    pub name: String,
    pub description: String,
    pub region_id: EntityId,
    pub dangerous: bool,
    pub corpse_ids: Vec<EntityId>,
    pub exits: Vec<EntityId>,
}

/// An entry of the world's history; an entry written when an event fired carries its record.
#[derive(Debug)]
pub struct HistoryEntry {
    pub id: EntityId,
    pub turn: u32,
    pub text: String,
    pub event: Option<EventRecord>,
}

/// What the character was left with when an event fired.
#[derive(Debug, Clone, Copy, PartialEq, Eq, Structural)]
pub struct EventOutcome {
    pub hp_before: i32,
    pub hp_after: i32,
    pub alive: bool,
}

/// The structured record of an event that fired: which event, where, and its outcome.
#[derive(Debug)]
pub struct EventRecord {
    pub event_id: String,
    pub location: String,
    pub outcome: EventOutcome,
}

#[derive(Debug, Clone, Copy)]
pub struct Attributes {
    pub might: i32,
    pub insight: i32,
    pub endurance: i32,
}

/// A lasting condition on the character.
#[derive(Debug)]
pub struct Condition {
    pub name: String,
    pub remaining: u32,
    pub penalty: i32,
    pub bonus: i32,
}

#[derive(Debug)]
pub struct Character {
    pub id: EntityId,
    pub name: String,
    pub title: String,
    pub hp: i32,
    pub max_hp: i32,
    pub location_id: EntityId,
    pub inventory: Vec<Item>,
    pub alive: bool,
    pub turn: u32,
    pub notes: Vec<String>,
    pub level: u32,
    pub attributes: Attributes,
    pub conditions: Vec<Condition>,
}

#[derive(Debug)]
pub struct Item {
    pub id: EntityId,
    pub name: String,
    pub description: String,
}

/// What remains of a fallen character.
#[derive(Debug)]
pub struct Corpse {
    pub id: EntityId,
    pub former_name: String,
    pub former_title: String,
    pub location_id: EntityId,
    pub turn_of_death: u32,
    pub inventory: Vec<Item>,
    pub epitaph: String,
    pub scavenged: bool,
}

#[derive(Debug)]
pub struct Faction {
    pub id: EntityId,
    pub name: String,
    pub reputation: i32,
    pub memory: Vec<String>,
}

#[derive(Debug)]
pub struct Npc {
    pub id: EntityId,
    pub name: String,
    pub title: String,
    pub location_id: EntityId,
    pub faction_id: Option<EntityId>,
    pub memory: Vec<String>,
}

#[derive(Debug)]
pub struct Quest {
    pub id: EntityId,
    pub title: String,
    pub description: String,
    pub target_location_id: EntityId,
    pub faction_id: EntityId,
    pub giver_npc_id: EntityId,
    pub required_item_name: String,
    pub completed_by: Option<String>,
    pub offered: bool,
    pub completed: bool,
    pub reward_claimed: bool,
}

/// Everything a save holds.
#[derive(Debug)]
pub struct GameState {
    pub world: World,
    pub character: Character,
    pub threat: ThreatState,
    pub corpses: Vec<Corpse>,
    pub factions: Vec<Faction>,
    pub npcs: Vec<Npc>,
    pub quests: Vec<Quest>,
    pub last_announced_location_id: Option<EntityId>,
}

/// The threat state of a world with no threat.
pub open spec fn no_threat(t: ThreatState) -> bool {
    &&& !t.active
    &&& t.source_location_id is None
    &&& t.label@.len() == 0
    &&& t.description@.len() == 0
}

impl Default for ThreatState {
    fn default() -> (r: Self)
        ensures
            no_threat(r),
    {
        ThreatState { active: false, source_location_id: None, label: String::new(), description: String::new() }
    }
}

impl ThreatState {
    /// Raises the threat at a location.
    pub fn activate(&mut self, source_location_id: EntityId, label: String, description: String)
        ensures
            final(self).active,
            final(self).source_location_id == Some(source_location_id),
            final(self).label == label,
            final(self).description == description,
    {
        self.active = true;
        self.source_location_id = Some(source_location_id);
        self.label = label;
        self.description = description;
    }

    /// Lifts the threat.
    pub fn clear(&mut self)
        ensures
            no_threat(*final(self)),
    {
        *self = ThreatState::default();
    }
}

impl Condition {
    /// A condition that lasts `remaining` turns with the given penalty and no bonus.
    pub fn new(name: String, remaining: u32, penalty: i32) -> (r: Self)
        ensures
            r.name == name,
            r.remaining == remaining,
            r.penalty == penalty,
            r.bonus == 0,
    {
        Condition { name, remaining, penalty, bonus: 0 }
    }
}


/// The index of the first element that satisfies `pred`, or the length when none does.
pub open spec fn first_match<T>(s: Seq<T>, pred: spec_fn(T) -> bool) -> int
    decreases s.len(),
{
    if s.len() == 0 {
        0
    } else {
        let k = first_match(s.drop_last(), pred);
        if k < s.len() - 1 {
            k
        } else if pred(s.last()) {
            s.len() - 1
        } else {
            s.len() as int
        }
    }
}

/// `first_match` is the first index that satisfies the predicate, or the length when none does.
pub proof fn lemma_first_match<T>(s: Seq<T>, pred: spec_fn(T) -> bool)
    ensures
        0 <= first_match(s, pred) <= s.len(),
        first_match(s, pred) < s.len() ==> pred(s[first_match(s, pred)]),
        forall|j: int| 0 <= j < first_match(s, pred) ==> !pred(#[trigger] s[j]),
    decreases s.len(),
{
    if s.len() > 0 {
        lemma_first_match(s.drop_last(), pred);
        let k = first_match(s.drop_last(), pred);
        assert forall|j: int| 0 <= j < first_match(s, pred) implies !pred(#[trigger] s[j]) by {
            if j < s.len() - 1 {
                assert(s[j] == s.drop_last()[j]);
            }
        }
        if k < s.len() - 1 {
            assert(s[k] == s.drop_last()[k]);
        }
    }
}

/// Scanning a prefix that has no match keeps the search going past it.
pub proof fn lemma_first_match_step<T>(s: Seq<T>, pred: spec_fn(T) -> bool, i: int)
    requires
        0 <= i < s.len(),
        forall|j: int| 0 <= j < i ==> !pred(#[trigger] s[j]),
    ensures
        pred(s[i]) ==> first_match(s, pred) == i,
        !pred(s[i]) ==> forall|j: int| 0 <= j < i + 1 ==> !pred(#[trigger] s[j]),
        first_match(s, pred) >= i,
    decreases s.len(),
{
    lemma_first_match(s, pred);
    if i < s.len() - 1 {
        assert forall|j: int| 0 <= j < i implies !pred(#[trigger] s.drop_last()[j]) by {
            assert(s.drop_last()[j] == s[j]);
        }
        lemma_first_match_step(s.drop_last(), pred, i);
        assert(s.drop_last()[i] == s[i]);
    } else {
        lemma_first_match(s.drop_last(), pred);
        if first_match(s.drop_last(), pred) < s.len() - 1 {
            let k = first_match(s.drop_last(), pred);
            assert(s.drop_last()[k] == s[k]);
        }
    }
}

/// When no element satisfies the predicate, the search ends at the length.
pub proof fn lemma_first_match_none<T>(s: Seq<T>, pred: spec_fn(T) -> bool)
    requires
        forall|j: int| 0 <= j < s.len() ==> !pred(#[trigger] s[j]),
    ensures
        first_match(s, pred) == s.len(),
{
    lemma_first_match(s, pred);
}

/// What a region is, as plain values.
pub struct RegionModel {
    pub id: EntityId,
    pub name: Seq<char>,
    pub description: Seq<char>,
    pub location_ids: Seq<EntityId>,
}

/// What a location is, as plain values.
pub struct LocationModel {
    pub id: EntityId,
    pub name: Seq<char>,
    pub description: Seq<char>,
    pub region_id: EntityId,
    pub dangerous: bool,
    pub corpse_ids: Seq<EntityId>,
    pub exits: Seq<EntityId>,
}

/// An event record as plain values.
pub struct EventRecordModel {
    pub event_id: Seq<char>,
    pub location: Seq<char>,
    pub outcome: EventOutcome,
}

/// A history entry as plain values.
pub struct HistoryModel {
    pub id: EntityId,
    pub turn: u32,
    pub text: Seq<char>,
    pub event: Option<EventRecordModel>,
}

/// A condition as plain values.
pub struct ConditionModel {
    pub name: Seq<char>,
    pub remaining: u32,
    pub penalty: i32,
    pub bonus: i32,
}

/// A cooldown as plain values.
pub struct CooldownModel {
    pub event_id: Seq<char>,
    pub ready_at_turn: u32,
}

impl DeepView for HistoryEntry {
    type V = HistoryModel;

    open spec fn deep_view(&self) -> HistoryModel {
        HistoryModel {
            id: self.id,
            turn: self.turn,
            text: self.text@,
            event: match self.event {
                Some(r) => Some(r.deep_view()),
                None => None,
            },
        }
    }
}

impl DeepView for EventRecord {
    type V = EventRecordModel;

    open spec fn deep_view(&self) -> EventRecordModel {
        EventRecordModel { event_id: self.event_id@, location: self.location@, outcome: self.outcome }
    }
}

impl DeepView for Condition {
    type V = ConditionModel;

    open spec fn deep_view(&self) -> ConditionModel {
        ConditionModel { name: self.name@, remaining: self.remaining, penalty: self.penalty, bonus: self.bonus }
    }
}

impl DeepView for EventCooldown {
    type V = CooldownModel;

    open spec fn deep_view(&self) -> CooldownModel {
        CooldownModel { event_id: self.event_id@, ready_at_turn: self.ready_at_turn }
    }
}

impl DeepView for Region {
    type V = RegionModel;

    open spec fn deep_view(&self) -> RegionModel {
        RegionModel { id: self.id, name: self.name@, description: self.description@, location_ids: self.location_ids@ }
    }
}

impl DeepView for Location {
    type V = LocationModel;

    open spec fn deep_view(&self) -> LocationModel {
        LocationModel {
            id: self.id,
            name: self.name@,
            description: self.description@,
            region_id: self.region_id,
            dangerous: self.dangerous,
            corpse_ids: self.corpse_ids@,
            exits: self.exits@,
        }
    }
}

pub open spec fn region_with_id(id: EntityId) -> spec_fn(RegionModel) -> bool {
    |r: RegionModel| r.id == id
}

pub open spec fn location_with_id(id: EntityId) -> spec_fn(LocationModel) -> bool {
    |l: LocationModel| l.id == id
}

pub open spec fn location_named(name: Seq<char>) -> spec_fn(LocationModel) -> bool {
    |l: LocationModel| l.name == name
}

/// The ids of regions, then locations, then history entries.
pub open spec fn world_entity_ids(w: World) -> Seq<EntityId> {
    w.regions@.map_values(|r: Region| r.id) + w.locations@.map_values(|l: Location| l.id)
        + w.history@.map_values(|h: HistoryEntry| h.id)
}

/// Every id is below `next` and no two are equal.
pub open spec fn fresh_distinct(ids: Seq<EntityId>, next: EntityId) -> bool {
    &&& forall|i: int| 0 <= i < ids.len() ==> ids[i] < next
    &&& forall|i: int, j: int| 0 <= i < j < ids.len() ==> ids[i] != ids[j]
}

/// Adding the next id to a list of fresh, distinct ids keeps it so for the id after it.
pub proof fn lemma_fresh_insert(a: Seq<EntityId>, b: Seq<EntityId>, c: Seq<EntityId>, next: EntityId)
    requires
        fresh_distinct(a + b + c, next),
        next < u64::MAX,
    ensures
        fresh_distinct(a + b.push(next) + c, (next + 1) as EntityId),
{
    let old_ids = a + b + c;
    let ids = a + b.push(next) + c;
    let pos = a.len() + b.len();
    assert forall|i: int| 0 <= i < ids.len() implies ids[i] < next + 1 && (i != pos ==> ids[i] < next) by {
        if i < pos {
            assert(ids[i] == old_ids[i]);
        } else if i > pos {
            assert(ids[i] == old_ids[i - 1]);
        }
    }
    assert forall|i: int, j: int| 0 <= i < j < ids.len() implies ids[i] != ids[j] by {
        if i != pos && j != pos {
            let oi = if i < pos { i } else { i - 1 };
            let oj = if j < pos { j } else { j - 1 };
            assert(ids[i] == old_ids[oi]);
            assert(ids[j] == old_ids[oj]);
        }
    }
}

impl World {
    /// Ids are unique across regions, locations and history, and all below `next_id`.
    pub open spec fn wf(self) -> bool {
        fresh_distinct(world_entity_ids(self), self.next_id)
    }

    /// Hands out the next id.
    pub fn allocate_id(&mut self) -> (id: EntityId)
        requires
            old(self).next_id < u64::MAX,
        ensures
            id == old(self).next_id,
            final(self).next_id == old(self).next_id + 1,
            final(self).id == old(self).id,
            final(self).name == old(self).name,
            final(self).mode == old(self).mode,
            final(self).regions == old(self).regions,
            final(self).locations == old(self).locations,
            final(self).history == old(self).history,
            final(self).day == old(self).day,
            final(self).time_points == old(self).time_points,
            final(self).event_cooldowns == old(self).event_cooldowns,
    {
        let id = self.next_id;
        self.next_id = self.next_id + 1;
        id
    }

    /// The first region with `id`.
    pub fn region_by_id(&self, id: EntityId) -> (r: Option<&Region>)
        ensures
            ({
                let k = first_match(self.regions.deep_view(), region_with_id(id));
                &&& k < self.regions@.len() ==> r == Some(&self.regions@[k])
                &&& k == self.regions@.len() ==> r is None
            }),
    {
        proof { lemma_first_match(self.regions.deep_view(), region_with_id(id)); }
        let mut i: usize = 0;
        while i < self.regions.len()
            invariant
                i <= self.regions@.len(),
                forall|j: int| 0 <= j < i ==> !region_with_id(id)(#[trigger] self.regions.deep_view()[j]),
            decreases self.regions@.len() - i,
        {
            proof { lemma_first_match_step(self.regions.deep_view(), region_with_id(id), i as int); }
            if self.regions[i].id == id {
                return Some(&self.regions[i]);
            }
            i = i + 1;
        }
        proof { lemma_first_match_none(self.regions.deep_view(), region_with_id(id)); }
        None
    }

    /// The position of the first location with `id`.
    pub fn location_index_by_id(&self, id: EntityId) -> (r: Option<usize>)
        ensures
            ({
                let k = first_match(self.locations.deep_view(), location_with_id(id));
                &&& (r is Some) == (k < self.locations@.len())
                &&& r matches Some(i) ==> i as int == k
            }),
    {
        proof { lemma_first_match(self.locations.deep_view(), location_with_id(id)); }
        let mut i: usize = 0;
        while i < self.locations.len()
            invariant
                i <= self.locations@.len(),
                forall|j: int| 0 <= j < i ==> !location_with_id(id)(#[trigger] self.locations.deep_view()[j]),
            decreases self.locations@.len() - i,
        {
            proof { lemma_first_match_step(self.locations.deep_view(), location_with_id(id), i as int); }
            if self.locations[i].id == id {
                return Some(i);
            }
            i = i + 1;
        }
        proof { lemma_first_match_none(self.locations.deep_view(), location_with_id(id)); }
        None
    }

    /// The first location with `id`.
    pub fn location_by_id(&self, id: EntityId) -> (r: Option<&Location>)
        ensures
            ({
                let k = first_match(self.locations.deep_view(), location_with_id(id));
                &&& k < self.locations@.len() ==> r == Some(&self.locations@[k])
                &&& k == self.locations@.len() ==> r is None
            }),
    {
        proof { lemma_first_match(self.locations.deep_view(), location_with_id(id)); }
        match self.location_index_by_id(id) {
            Some(i) => Some(&self.locations[i]),
            None => None,
        }
    }

    /// The first location with `id`, to change in place.
    pub fn location_by_id_mut(&mut self, id: EntityId) -> (r: Option<&mut Location>)
        ensures
            ({
                let k = first_match(old(self).locations.deep_view(), location_with_id(id));
                &&& (r is Some) == (k < old(self).locations@.len())
                &&& r is None ==> *final(self) == *old(self)
                &&& (r matches Some(x) ==> *x == old(self).locations@[k]
                    && final(self).locations@ == old(self).locations@.update(k, *final(x)))
            }),
            final(self).id == old(self).id,
            final(self).name == old(self).name,
            final(self).mode == old(self).mode,
            final(self).next_id == old(self).next_id,
            final(self).regions == old(self).regions,
            final(self).history == old(self).history,
            final(self).day == old(self).day,
            final(self).time_points == old(self).time_points,
            final(self).event_cooldowns == old(self).event_cooldowns,
    {
        proof { lemma_first_match(self.locations.deep_view(), location_with_id(id)); }
        match self.location_index_by_id(id) {
            Some(i) => Some(&mut self.locations[i]),
            None => None,
        }
    }

    /// The position of the first location named `name`.
    pub fn location_index_by_name(&self, name: &str) -> (r: Option<usize>)
        ensures
            ({
                let k = first_match(self.locations.deep_view(), location_named(name@));
                &&& (r is Some) == (k < self.locations@.len())
                &&& r matches Some(i) ==> i as int == k
            }),
    {
        proof { lemma_first_match(self.locations.deep_view(), location_named(name@)); }
        let mut i: usize = 0;
        while i < self.locations.len()
            invariant
                i <= self.locations@.len(),
                forall|j: int| 0 <= j < i ==> !location_named(name@)(#[trigger] self.locations.deep_view()[j]),
            decreases self.locations@.len() - i,
        {
            proof { lemma_first_match_step(self.locations.deep_view(), location_named(name@), i as int); }
            if text_eq(self.locations[i].name.as_str(), name) {
                return Some(i);
            }
            i = i + 1;
        }
        proof { lemma_first_match_none(self.locations.deep_view(), location_named(name@)); }
        None
    }

    /// The first location named `name`.
    pub fn location_by_name(&self, name: &str) -> (r: Option<&Location>)
        ensures
            ({
                let k = first_match(self.locations.deep_view(), location_named(name@));
                &&& k < self.locations@.len() ==> r == Some(&self.locations@[k])
                &&& k == self.locations@.len() ==> r is None
            }),
    {
        proof { lemma_first_match(self.locations.deep_view(), location_named(name@)); }
        match self.location_index_by_name(name) {
            Some(i) => Some(&self.locations[i]),
            None => None,
        }
    }

    /// Whether the first location with `id` is dangerous; an unknown location is not.
    pub fn location_is_dangerous(&self, id: EntityId) -> (b: bool)
        ensures
            ({
                let k = first_match(self.locations.deep_view(), location_with_id(id));
                b == (k < self.locations@.len() && self.locations@[k].dangerous)
            }),
    {
        match self.location_by_id(id) {
            Some(location) => location.dangerous,
            None => false,
        }
    }

    /// Records an entry in the world's history under a fresh id.
    pub fn record_history(&mut self, turn: u32, text: String)
        requires
            old(self).next_id < u64::MAX,
        ensures
            final(self).history@ == old(self).history@.push(HistoryEntry { id: old(self).next_id, turn, text, event: None }),
            final(self).next_id == old(self).next_id + 1,
            final(self).id == old(self).id,
            final(self).name == old(self).name,
            final(self).mode == old(self).mode,
            final(self).regions == old(self).regions,
            final(self).locations == old(self).locations,
            final(self).day == old(self).day,
            final(self).time_points == old(self).time_points,
            final(self).event_cooldowns == old(self).event_cooldowns,
            old(self).wf() ==> final(self).wf(),
    {
        self.push_history_entry(turn, text, None);
    }

    /// Records the firing of an event in the world's history under a fresh id, with its
    /// structured record.
    pub fn record_event(&mut self, turn: u32, text: String, record: EventRecord)
        requires
            old(self).next_id < u64::MAX,
        ensures
            final(self).history@ == old(self).history@.push(HistoryEntry { id: old(self).next_id, turn, text, event: Some(record) }),
            final(self).next_id == old(self).next_id + 1,
            final(self).id == old(self).id,
            final(self).name == old(self).name,
            final(self).mode == old(self).mode,
            final(self).regions == old(self).regions,
            final(self).locations == old(self).locations,
            final(self).day == old(self).day,
            final(self).time_points == old(self).time_points,
            final(self).event_cooldowns == old(self).event_cooldowns,
            old(self).wf() ==> final(self).wf(),
    {
        self.push_history_entry(turn, text, Some(record));
    }

    fn push_history_entry(&mut self, turn: u32, text: String, event: Option<EventRecord>)
        requires
            old(self).next_id < u64::MAX,
        ensures
            final(self).history@ == old(self).history@.push(HistoryEntry { id: old(self).next_id, turn, text, event }),
            final(self).next_id == old(self).next_id + 1,
            final(self).id == old(self).id,
            final(self).name == old(self).name,
            final(self).mode == old(self).mode,
            final(self).regions == old(self).regions,
            final(self).locations == old(self).locations,
            final(self).day == old(self).day,
            final(self).time_points == old(self).time_points,
            final(self).event_cooldowns == old(self).event_cooldowns,
            old(self).wf() ==> final(self).wf(),
    {
        let ghost w0 = *self;
        let id = self.allocate_id();
        let entry = HistoryEntry { id, turn, text, event };
        self.history.push(entry);
        proof {
            let a = w0.regions@.map_values(|r: Region| r.id);
            let b = w0.locations@.map_values(|l: Location| l.id);
            let c = w0.history@.map_values(|h: HistoryEntry| h.id);
            assert(self.history@.map_values(|h: HistoryEntry| h.id) =~= c.push(id));
            assert(self.regions@.map_values(|r: Region| r.id) =~= a);
            assert(self.locations@.map_values(|l: Location| l.id) =~= b);
            if w0.wf() {
                assert(a + b + c + seq![] =~= a + b + c);
                lemma_fresh_insert(a + b, c, seq![], id);
                assert(a + b + c.push(id) + seq![] =~= world_entity_ids(*self));
            }
        }
    }
}


/// The name of the `i`-th location of the starting world.
pub open spec fn demo_name(i: int) -> Seq<char> {
    if i == 0 { "Ashen Gate"@ } else if i == 1 { "Hollow Market"@ } else if i == 2 { "Old Shrine"@ } else if i == 3 { "Charred Watchtower"@ } else if i == 4 { "Mourning Fields"@ } else if i == 5 { "Blackroot Hollow"@ } else if i == 6 { "Drowned Chapel"@ } else { "Sootbound Crossing"@ }
}

/// The description of the `i`-th location of the starting world.
pub open spec fn demo_description(i: int) -> Seq<char> {
    if i == 0 { "A cracked iron gate hanging between broken towers, staring over a dead road."@ } else if i == 1 { "Stalls without merchants, lanterns without flame, and the echo of old bargaining."@ } else if i == 2 { "A roofless shrine with a black altar and fresh soot on the floor."@ } else if i == 3 { "A leaning watchtower with a bell that rings when the wind changes."@ } else if i == 4 { "A field of ash where pale grass grows around old burial stones."@ } else if i == 5 { "A low ravine choked with black roots and the smell of wet iron."@ } else if i == 6 { "A half-sunken chapel whose bell chamber disappears beneath dark water."@ } else { "A ruined road crossing where caravan tracks vanish into the cinder."@ }
}

/// Whether the `i`-th location of the starting world is dangerous.
pub open spec fn demo_dangerous(i: int) -> bool {
    i == 2 || i == 5 || i == 6
}

/// The exits of the `i`-th location of the starting world, whose locations have ids 3 to 10.
pub open spec fn demo_exits(i: int) -> Seq<EntityId> {
    if i == 0 { seq![4u64, 6u64] } else if i == 1 { seq![3u64, 5u64, 10u64] } else if i == 2 { seq![4u64, 7u64] } else if i == 3 { seq![3u64, 7u64] } else if i == 4 { seq![5u64, 6u64, 8u64] } else if i == 5 { seq![7u64, 9u64] } else if i == 6 { seq![8u64, 10u64] } else { seq![4u64, 9u64] }
}

/// The layout of a freshly made world before any history is written: one region, id 2,
/// and eight locations with ids 3 to 10.
pub open spec fn is_demo_layout(w: World) -> bool {
    &&& w.regions@.len() == 1
    &&& w.regions@[0].id == 2
    &&& w.regions@[0].name@ == "The Ashen Crown"@
    &&& w.regions@[0].description@ == "A bleak frontier where old stone roads still cut through soot and cinder."@
    &&& w.regions@[0].location_ids@ == seq![3u64, 4, 5, 6, 7, 8, 9, 10]
    &&& w.locations@.len() == 8
    &&& forall|i: int| 0 <= i < 8 ==> {
        let l = #[trigger] w.locations@[i];
        &&& l.id == 3 + i
        &&& l.name@ == demo_name(i)
        &&& l.description@ == demo_description(i)
        &&& l.region_id == 2
        &&& l.dangerous == demo_dangerous(i)
        &&& l.corpse_ids@.len() == 0
        &&& l.exits@ == demo_exits(i)
    }
}

fn demo_location(id: EntityId, name: &str, description: &str, region_id: EntityId, dangerous: bool, exits: Vec<EntityId>) -> (l: Location)
    ensures
        l.id == id,
        l.name@ == name@,
        l.description@ == description@,
        l.region_id == region_id,
        l.dangerous == dangerous,
        l.corpse_ids@.len() == 0,
        l.exits == exits,
{
    Location {
        id,
        name: text_of(name),
        description: text_of(description),
        region_id,
        dangerous,
        corpse_ids: Vec::new(),
        exits,
    }
}

impl World {
    fn seed_demo_world(&mut self)
        requires
            old(self).next_id == 2,
            old(self).regions@.len() == 0,
            old(self).locations@.len() == 0,
            old(self).history@.len() == 0,
        ensures
            is_demo_layout(*final(self)),
            final(self).next_id == 11,
            final(self).history@.len() == 0,
            final(self).id == old(self).id,
            final(self).name == old(self).name,
            final(self).mode == old(self).mode,
            final(self).day == old(self).day,
            final(self).time_points == old(self).time_points,
            final(self).event_cooldowns == old(self).event_cooldowns,
    {
        let region_id = self.allocate_id();
        self.regions.push(Region {
            id: region_id,
            name: text_of("The Ashen Crown"),
            description: text_of("A bleak frontier where old stone roads still cut through soot and cinder."),
            location_ids: Vec::new(),
        });
        let mut ids: Vec<EntityId> = Vec::new();
        let mut k: usize = 0;
        while k < 8
            invariant
                k <= 8,
                self.next_id == 3 + k,
                ids@.len() == k,
                forall|j: int| 0 <= j < k ==> ids@[j] == 3 + j,
                self.regions@.len() == 1,
                self.locations@.len() == 0,
                self.history@.len() == 0,
                self.regions@[0].id == 2,
                self.regions@[0].name@ == "The Ashen Crown"@,
                self.regions@[0].description@ == "A bleak frontier where old stone roads still cut through soot and cinder."@,
                self.regions@[0].location_ids@.len() == 0,
                self.id == old(self).id,
                self.name == old(self).name,
                self.mode == old(self).mode,
                self.day == old(self).day,
                self.time_points == old(self).time_points,
                self.event_cooldowns == old(self).event_cooldowns,
            decreases 8 - k,
        {
            let id = self.allocate_id();
            ids.push(id);
            k = k + 1;
        }
        self.locations.push(demo_location(ids[0], "Ashen Gate", "A cracked iron gate hanging between broken towers, staring over a dead road.", region_id, false, vec![ids[1], ids[3]]));
        self.locations.push(demo_location(ids[1], "Hollow Market", "Stalls without merchants, lanterns without flame, and the echo of old bargaining.", region_id, false, vec![ids[0], ids[2], ids[7]]));
        self.locations.push(demo_location(ids[2], "Old Shrine", "A roofless shrine with a black altar and fresh soot on the floor.", region_id, true, vec![ids[1], ids[4]]));
        self.locations.push(demo_location(ids[3], "Charred Watchtower", "A leaning watchtower with a bell that rings when the wind changes.", region_id, false, vec![ids[0], ids[4]]));
        self.locations.push(demo_location(ids[4], "Mourning Fields", "A field of ash where pale grass grows around old burial stones.", region_id, false, vec![ids[2], ids[3], ids[5]]));
        self.locations.push(demo_location(ids[5], "Blackroot Hollow", "A low ravine choked with black roots and the smell of wet iron.", region_id, true, vec![ids[4], ids[6]]));
        self.locations.push(demo_location(ids[6], "Drowned Chapel", "A half-sunken chapel whose bell chamber disappears beneath dark water.", region_id, true, vec![ids[5], ids[7]]));
        self.locations.push(demo_location(ids[7], "Sootbound Crossing", "A ruined road crossing where caravan tracks vanish into the cinder.", region_id, false, vec![ids[1], ids[6]]));
        self.regions[0].location_ids = ids;
        proof {
            assert(self.regions@[0].location_ids@ =~= seq![3u64, 4, 5, 6, 7, 8, 9, 10]);
            assert(self.locations@[0].exits@ =~= demo_exits(0));
            assert(self.locations@[1].exits@ =~= demo_exits(1));
            assert(self.locations@[2].exits@ =~= demo_exits(2));
            assert(self.locations@[3].exits@ =~= demo_exits(3));
            assert(self.locations@[4].exits@ =~= demo_exits(4));
            assert(self.locations@[5].exits@ =~= demo_exits(5));
            assert(self.locations@[6].exits@ =~= demo_exits(6));
            assert(self.locations@[7].exits@ =~= demo_exits(7));
        }
    }
}


/// Whether `c` is a character fresh into the world with the given identity.
pub open spec fn is_new_character(c: Character, id: EntityId, name: Seq<char>, title: Seq<char>, location_id: EntityId) -> bool {
    &&& c.id == id
    &&& c.name@ == name
    &&& c.title@ == title
    &&& c.hp == 10
    &&& c.max_hp == 10
    &&& c.location_id == location_id
    &&& c.inventory@.len() == 0
    &&& c.alive
    &&& c.turn == 0
    &&& c.notes@.len() == 1
    &&& c.notes@[0]@ == "Born into ash, with no past worth keeping."@
    &&& c.level == 1
    &&& c.attributes == Attributes { might: 1, insight: 1, endurance: 1 }
    &&& c.conditions@.len() == 0
}

/// How a character is named in text: name, " the ", title.
pub open spec fn display_name_of(name: Seq<char>, title: Seq<char>) -> Seq<char> {
    name + " the "@ + title
}

impl Character {
    /// A character fresh into the world: full health, alive, on turn 0, with one note.
    pub fn new(id: EntityId, name: String, title: String, location_id: EntityId) -> (c: Self)
        ensures
            is_new_character(c, id, name@, title@, location_id),
            c.name == name,
            c.title == title,
    {
        let mut notes: Vec<String> = Vec::new();
        notes.push(text_of("Born into ash, with no past worth keeping."));
        Character {
            id,
            name,
            title,
            hp: 10,
            max_hp: 10,
            location_id,
            inventory: Vec::new(),
            alive: true,
            turn: 0,
            notes,
            level: 1,
            attributes: Attributes { might: 1, insight: 1, endurance: 1 },
            conditions: Vec::new(),
        }
    }

    /// The name used in text: name, " the ", title.
    pub fn display_name(&self) -> (r: String)
        ensures
            r@ == display_name_of(self.name@, self.title@),
    {
        cat3(self.name.as_str(), " the ", self.title.as_str())
    }

    /// Heals by `amount`, never above `max_hp`.
    pub fn heal(&mut self, amount: i32)
        requires
            i32::MIN <= old(self).hp + amount <= i32::MAX,
        ensures
            final(self).hp == (if old(self).hp + amount < old(self).max_hp { old(self).hp + amount } else { old(self).max_hp as int }),
            final(self).id == old(self).id,
            final(self).name == old(self).name,
            final(self).title == old(self).title,
            final(self).max_hp == old(self).max_hp,
            final(self).location_id == old(self).location_id,
            final(self).inventory == old(self).inventory,
            final(self).alive == old(self).alive,
            final(self).turn == old(self).turn,
            final(self).notes == old(self).notes,
            final(self).level == old(self).level,
            final(self).attributes == old(self).attributes,
            final(self).conditions == old(self).conditions,
    {
        let raised = self.hp + amount;
        self.hp = if raised < self.max_hp { raised } else { self.max_hp };
    }
}

impl Faction {
    /// A faction with neutral standing and no memories.
    pub fn new(id: EntityId, name: String) -> (f: Self)
        ensures
            f.id == id,
            f.name == name,
            f.reputation == 0,
            f.memory@.len() == 0,
    {
        Faction { id, name, reputation: 0, memory: Vec::new() }
    }
}

impl Npc {
    /// An npc with no memories.
    pub fn new(id: EntityId, name: String, title: String, location_id: EntityId, faction_id: Option<EntityId>) -> (n: Self)
        ensures
            n.id == id,
            n.name == name,
            n.title == title,
            n.location_id == location_id,
            n.faction_id == faction_id,
            n.memory@.len() == 0,
    {
        Npc { id, name, title, location_id, faction_id, memory: Vec::new() }
    }

    /// The name used in text: name, " the ", title.
    pub fn display_name(&self) -> (r: String)
        ensures
            r@ == display_name_of(self.name@, self.title@),
    {
        cat3(self.name.as_str(), " the ", self.title.as_str())
    }
}

impl Quest {
    /// A quest not yet offered, completed or rewarded.
    pub fn new(
        id: EntityId,
        title: String,
        description: String,
        target_location_id: EntityId,
        faction_id: EntityId,
        giver_npc_id: EntityId,
        required_item_name: String,
    ) -> (q: Self)
        ensures
            q.id == id,
            q.title == title,
            q.description == description,
            q.target_location_id == target_location_id,
            q.faction_id == faction_id,
            q.giver_npc_id == giver_npc_id,
            q.required_item_name == required_item_name,
            q.completed_by is None,
            !q.offered,
            !q.completed,
            !q.reward_claimed,
    {
        Quest {
            id,
            title,
            description,
            target_location_id,
            faction_id,
            giver_npc_id,
            required_item_name,
            completed_by: None,
            offered: false,
            completed: false,
            reward_claimed: false,
        }
    }
}

impl World {
    /// A new world laid out with the starting region and its eight locations, with its
    /// first history entry.
    pub fn new(name: &str, mode: WorldMode) -> (w: Self)
        ensures
            w.id == 1,
            w.name@ == name@,
            w.mode == mode,
            w.day == 1,
            w.time_points == 3,
            w.event_cooldowns@.len() == 0,
            is_demo_layout(w),
            w.history@.len() == 1,
            w.history@[0].id == 11,
            w.history@[0].turn == 0,
            w.history@[0].text@ == "A new world stirs beneath ash and ruin."@,
            w.history@[0].event is None,
            w.next_id == 12,
            w.wf(),
    {
        let mut world = World {
            id: 1,
            name: text_of(name),
            mode,
            next_id: 2,
            regions: Vec::new(),
            locations: Vec::new(),
            history: Vec::new(),
            day: 1,
            time_points: 3,
            event_cooldowns: Vec::new(),
        };
        world.seed_demo_world();
        world.record_history(0, text_of("A new world stirs beneath ash and ruin."));
        proof {
            let ids = world_entity_ids(world);
            assert(world.regions@.map_values(|r: Region| r.id) =~= seq![2u64]);
            assert(world.locations@.map_values(|l: Location| l.id) =~= seq![3u64, 4, 5, 6, 7, 8, 9, 10]);
            assert(world.history@.map_values(|h: HistoryEntry| h.id) =~= seq![11u64]);
            assert(ids =~= seq![2u64, 3, 4, 5, 6, 7, 8, 9, 10, 11]);
            assert forall|i: int| 0 <= i < ids.len() implies ids[i] == 2 + i by {}
        }
        world
    }

    /// A new character, placed at the first location (or at id 0 where there is none),
    /// under a fresh id.
    pub fn spawn_character(&mut self, name: String, title: String) -> (c: Character)
        requires
            old(self).next_id < u64::MAX,
        ensures
            is_new_character(c, old(self).next_id, name@, title@,
                if old(self).locations@.len() > 0 { old(self).locations@[0].id } else { 0 }),
            c.name == name,
            c.title == title,
            final(self).next_id == old(self).next_id + 1,
            final(self).id == old(self).id,
            final(self).name == old(self).name,
            final(self).mode == old(self).mode,
            final(self).regions == old(self).regions,
            final(self).locations == old(self).locations,
            final(self).history == old(self).history,
            final(self).day == old(self).day,
            final(self).time_points == old(self).time_points,
            final(self).event_cooldowns == old(self).event_cooldowns,
            old(self).wf() ==> final(self).wf(),
            old(self).wf() ==> !world_entity_ids(*old(self)).contains(c.id),
    {
        let location_id = if self.locations.len() > 0 { self.locations[0].id } else { 0 };
        let character_id = self.allocate_id();
        Character::new(character_id, name, title, location_id)
    }
}


/// An item as plain values.
pub struct ItemModel {
    pub id: EntityId,
    pub name: Seq<char>,
    pub description: Seq<char>,
}

/// A corpse as plain values.
pub struct CorpseModel {
    pub id: EntityId,
    pub former_name: Seq<char>,
    pub former_title: Seq<char>,
    pub location_id: EntityId,
    pub turn_of_death: u32,
    pub inventory: Seq<ItemModel>,
    pub epitaph: Seq<char>,
    pub scavenged: bool,
}

/// A faction as plain values.
pub struct FactionModel {
    pub id: EntityId,
    pub name: Seq<char>,
    pub reputation: i32,
    pub memory: Seq<Seq<char>>,
}

/// An npc as plain values.
pub struct NpcModel {
    pub id: EntityId,
    pub name: Seq<char>,
    pub title: Seq<char>,
    pub location_id: EntityId,
    pub faction_id: Option<EntityId>,
    pub memory: Seq<Seq<char>>,
}

/// A quest as plain values.
pub struct QuestModel {
    pub id: EntityId,
    pub title: Seq<char>,
    pub description: Seq<char>,
    pub target_location_id: EntityId,
    pub faction_id: EntityId,
    pub giver_npc_id: EntityId,
    pub required_item_name: Seq<char>,
    pub completed_by: Option<Seq<char>>,
    pub offered: bool,
    pub completed: bool,
    pub reward_claimed: bool,
}

impl DeepView for Item {
    type V = ItemModel;

    open spec fn deep_view(&self) -> ItemModel {
        ItemModel { id: self.id, name: self.name@, description: self.description@ }
    }
}

impl DeepView for Corpse {
    type V = CorpseModel;

    open spec fn deep_view(&self) -> CorpseModel {
        CorpseModel {
            id: self.id,
            former_name: self.former_name@,
            former_title: self.former_title@,
            location_id: self.location_id,
            turn_of_death: self.turn_of_death,
            inventory: self.inventory.deep_view(),
            epitaph: self.epitaph@,
            scavenged: self.scavenged,
        }
    }
}

impl DeepView for Faction {
    type V = FactionModel;

    open spec fn deep_view(&self) -> FactionModel {
        FactionModel { id: self.id, name: self.name@, reputation: self.reputation, memory: self.memory.deep_view() }
    }
}

impl DeepView for Npc {
    type V = NpcModel;

    open spec fn deep_view(&self) -> NpcModel {
        NpcModel {
            id: self.id,
            name: self.name@,
            title: self.title@,
            location_id: self.location_id,
            faction_id: self.faction_id,
            memory: self.memory.deep_view(),
        }
    }
}

impl DeepView for Quest {
    type V = QuestModel;

    open spec fn deep_view(&self) -> QuestModel {
        QuestModel {
            id: self.id,
            title: self.title@,
            description: self.description@,
            target_location_id: self.target_location_id,
            faction_id: self.faction_id,
            giver_npc_id: self.giver_npc_id,
            required_item_name: self.required_item_name@,
            completed_by: self.completed_by.deep_view(),
            offered: self.offered,
            completed: self.completed,
            reward_claimed: self.reward_claimed,
        }
    }
}

/// Values that can be copied into an equal new value.
pub trait Duplicate: Sized + DeepView {
    fn duplicate(&self) -> (r: Self)
        ensures
            r.deep_view() == self.deep_view();
}

impl Duplicate for String {
    fn duplicate(&self) -> (r: Self) {
        self.clone()
    }
}

impl Duplicate for EntityId {
    fn duplicate(&self) -> (r: Self) {
        *self
    }
}

/// Copies of every value of a list.
pub fn duplicate_all<T: Duplicate>(v: &Vec<T>) -> (r: Vec<T>)
    ensures
        r.deep_view() == v.deep_view(),
{
    let mut r: Vec<T> = Vec::new();
    let mut i: usize = 0;
    while i < v.len()
        invariant
            i <= v@.len(),
            r@.len() == i,
            forall|j: int| 0 <= j < i ==> (#[trigger] r@[j]).deep_view() == v@[j].deep_view(),
        decreases v@.len() - i,
    {
        r.push(v[i].duplicate());
        i = i + 1;
    }
    assert(r.deep_view() =~= v.deep_view());
    r
}

fn duplicate_ids(v: &Vec<EntityId>) -> (r: Vec<EntityId>)
    ensures
        r@ == v@,
{
    let mut r: Vec<EntityId> = Vec::new();
    let mut i: usize = 0;
    while i < v.len()
        invariant
            i <= v@.len(),
            r@ == v@.take(i as int),
        decreases v@.len() - i,
    {
        r.push(v[i]);
        assert(r@ =~= v@.take(i + 1));
        i = i + 1;
    }
    assert(v@.take(v@.len() as int) =~= v@);
    r
}

fn duplicate_text_option(o: &Option<String>) -> (r: Option<String>)
    ensures
        r.deep_view() == o.deep_view(),
{
    match o {
        Some(t) => Some(t.clone()),
        None => None,
    }
}

impl Duplicate for Region {
    fn duplicate(&self) -> (r: Self) {
        Region { id: self.id, name: self.name.clone(), description: self.description.clone(), location_ids: duplicate_ids(&self.location_ids) }
    }
}

impl Duplicate for Location {
    fn duplicate(&self) -> (r: Self) {
        Location {
            id: self.id,
            name: self.name.clone(),
            description: self.description.clone(),
            region_id: self.region_id,
            dangerous: self.dangerous,
            corpse_ids: duplicate_ids(&self.corpse_ids),
            exits: duplicate_ids(&self.exits),
        }
    }
}

impl Duplicate for EventRecord {
    fn duplicate(&self) -> (r: Self) {
        EventRecord { event_id: self.event_id.clone(), location: self.location.clone(), outcome: self.outcome }
    }
}

impl Duplicate for HistoryEntry {
    fn duplicate(&self) -> (r: Self) {
        let event = match &self.event {
            Some(record) => Some(record.duplicate()),
            None => None,
        };
        HistoryEntry { id: self.id, turn: self.turn, text: self.text.clone(), event }
    }
}

impl Duplicate for EventCooldown {
    fn duplicate(&self) -> (r: Self) {
        EventCooldown { event_id: self.event_id.clone(), ready_at_turn: self.ready_at_turn }
    }
}

impl Duplicate for Item {
    fn duplicate(&self) -> (r: Self) {
        Item { id: self.id, name: self.name.clone(), description: self.description.clone() }
    }
}

impl Duplicate for Corpse {
    fn duplicate(&self) -> (r: Self) {
        Corpse {
            id: self.id,
            former_name: self.former_name.clone(),
            former_title: self.former_title.clone(),
            location_id: self.location_id,
            turn_of_death: self.turn_of_death,
            inventory: duplicate_all(&self.inventory),
            epitaph: self.epitaph.clone(),
            scavenged: self.scavenged,
        }
    }
}

impl Duplicate for Faction {
    fn duplicate(&self) -> (r: Self) {
        Faction { id: self.id, name: self.name.clone(), reputation: self.reputation, memory: duplicate_all(&self.memory) }
    }
}

impl Duplicate for Npc {
    fn duplicate(&self) -> (r: Self) {
        Npc {
            id: self.id,
            name: self.name.clone(),
            title: self.title.clone(),
            location_id: self.location_id,
            faction_id: self.faction_id,
            memory: duplicate_all(&self.memory),
        }
    }
}

impl Duplicate for Quest {
    fn duplicate(&self) -> (r: Self) {
        Quest {
            id: self.id,
            title: self.title.clone(),
            description: self.description.clone(),
            target_location_id: self.target_location_id,
            faction_id: self.faction_id,
            giver_npc_id: self.giver_npc_id,
            required_item_name: self.required_item_name.clone(),
            completed_by: duplicate_text_option(&self.completed_by),
            offered: self.offered,
            completed: self.completed,
            reward_claimed: self.reward_claimed,
        }
    }
}

/// Two worlds hold the same values.
pub open spec fn same_world(a: World, b: World) -> bool {
    &&& a.id == b.id
    &&& a.name@ == b.name@
    &&& a.mode == b.mode
    &&& a.next_id == b.next_id
    &&& a.regions.deep_view() == b.regions.deep_view()
    &&& a.locations.deep_view() == b.locations.deep_view()
    &&& a.history.deep_view() == b.history.deep_view()
    &&& a.day == b.day
    &&& a.time_points == b.time_points
    &&& a.event_cooldowns.deep_view() == b.event_cooldowns.deep_view()
}

/// Worlds that hold the same values hold the same ids.
pub proof fn lemma_same_world_ids(a: World, b: World)
    requires
        same_world(a, b),
    ensures
        world_entity_ids(a) == world_entity_ids(b),
{
    assert(a.regions.deep_view().len() == a.regions@.len());
    assert(b.regions.deep_view().len() == b.regions@.len());
    assert(a.locations.deep_view().len() == a.locations@.len());
    assert(b.locations.deep_view().len() == b.locations@.len());
    assert(a.history.deep_view().len() == a.history@.len());
    assert(b.history.deep_view().len() == b.history@.len());
    assert(a.regions@.map_values(|r: Region| r.id) =~= b.regions@.map_values(|r: Region| r.id)) by {
        assert forall|i: int| 0 <= i < a.regions@.len() implies a.regions@[i].id == b.regions@[i].id by {
            assert(a.regions.deep_view()[i] == b.regions.deep_view()[i]);
        }
    }
    assert(a.locations@.map_values(|l: Location| l.id) =~= b.locations@.map_values(|l: Location| l.id)) by {
        assert forall|i: int| 0 <= i < a.locations@.len() implies a.locations@[i].id == b.locations@[i].id by {
            assert(a.locations.deep_view()[i] == b.locations.deep_view()[i]);
        }
    }
    assert(a.history@.map_values(|h: HistoryEntry| h.id) =~= b.history@.map_values(|h: HistoryEntry| h.id)) by {
        assert forall|i: int| 0 <= i < a.history@.len() implies a.history@[i].id == b.history@[i].id by {
            assert(a.history.deep_view()[i] == b.history.deep_view()[i]);
        }
    }
}

impl World {
    /// A copy of the world.
    pub fn duplicate(&self) -> (r: World)
        ensures
            same_world(r, *self),
    {
        World {
            id: self.id,
            name: self.name.clone(),
            mode: self.mode,
            next_id: self.next_id,
            regions: duplicate_all(&self.regions),
            locations: duplicate_all(&self.locations),
            history: duplicate_all(&self.history),
            day: self.day,
            time_points: self.time_points,
            event_cooldowns: duplicate_all(&self.event_cooldowns),
        }
    }
}

/// Whether `state` is a new game: a fresh world of the given name and mode with its
/// starting layout, the history of the world's and the character's arrival, the new
/// character at the first location, no threat, and nothing else yet.
pub open spec fn is_new_game(state: GameState, world_name: Seq<char>, mode: WorldMode, character_name: Seq<char>, title: Seq<char>) -> bool {
    &&& state.world.id == 1
    &&& state.world.name@ == world_name
    &&& state.world.mode == mode
    &&& is_demo_layout(state.world)
    &&& state.world.next_id == 14
    &&& state.world.day == 1
    &&& state.world.time_points == 3
    &&& state.world.event_cooldowns@.len() == 0
    &&& state.world.history@.len() == 2
    &&& state.world.history@[0].deep_view() == (HistoryModel { id: 11, turn: 0, text: "A new world stirs beneath ash and ruin."@, event: None })
    &&& state.world.history@[1].deep_view() == (HistoryModel { id: 13, turn: 0,
        text: display_name_of(character_name, title) + " entered the world."@, event: None })
    &&& state.world.wf()
    &&& is_new_character(state.character, 12, character_name, title, 3)
    &&& no_threat(state.threat)
    &&& state.corpses@.len() == 0
    &&& state.factions@.len() == 0
    &&& state.npcs@.len() == 0
    &&& state.quests@.len() == 0
    &&& state.last_announced_location_id is None
}

/// A new game: a fresh world, a new character at its first location, and a history entry
/// of their arrival.
pub fn create_new_state(world_name: &str, mode: WorldMode, character_name: String, title: String) -> (state: GameState)
    ensures
        is_new_game(state, world_name@, mode, character_name@, title@),
{
    let mut world = World::new(world_name, mode);
    let character = world.spawn_character(character_name, title);
    let name = character.display_name();
    world.record_history(0, cat2(name.as_str(), " entered the world."));
    GameState {
        world,
        character,
        threat: ThreatState::default(),
        corpses: Vec::new(),
        factions: Vec::new(),
        npcs: Vec::new(),
        quests: Vec::new(),
        last_announced_location_id: None,
    }
}

/// The turn of the last history entry, or 0 for an empty history.
pub open spec fn last_turn(history: Seq<HistoryEntry>) -> u32 {
    if history.len() > 0 { history.last().turn } else { 0 }
}

/// Whether `r` is the game of a new life in the world of `state`: the world, its corpses,
/// factions, npcs and quests carry over; the world becomes inherited, a new character
/// arrives at its first location, and the history records the inheritance on the turn of
/// its last entry. The threat does not carry over.
pub open spec fn is_inherited_game(r: GameState, state: GameState, character_name: Seq<char>, title: Seq<char>) -> bool {
    &&& r.world.id == state.world.id
    &&& r.world.name@ == state.world.name@
    &&& r.world.mode == WorldMode::Inherited
    &&& r.world.regions.deep_view() == state.world.regions.deep_view()
    &&& r.world.locations.deep_view() == state.world.locations.deep_view()
    &&& r.world.history.deep_view() == state.world.history.deep_view().push(HistoryModel {
        id: (state.world.next_id + 1) as EntityId,
        turn: last_turn(state.world.history@),
        text: display_name_of(character_name, title) + " inherited the world."@,
        event: None,
    })
    &&& r.world.next_id == state.world.next_id + 2
    &&& r.world.day == state.world.day
    &&& r.world.time_points == state.world.time_points
    &&& r.world.event_cooldowns.deep_view() == state.world.event_cooldowns.deep_view()
    &&& (state.world.wf() ==> r.world.wf())
    &&& is_new_character(r.character, state.world.next_id, character_name, title,
        if state.world.locations@.len() > 0 { state.world.locations@[0].id } else { 0 })
    &&& no_threat(r.threat)
    &&& r.corpses.deep_view() == state.corpses.deep_view()
    &&& r.factions.deep_view() == state.factions.deep_view()
    &&& r.npcs.deep_view() == state.npcs.deep_view()
    &&& r.quests.deep_view() == state.quests.deep_view()
    &&& r.last_announced_location_id is None
}

/// A new life in an inherited world: the world, its corpses, factions, npcs and quests
/// carry over; the world becomes inherited, a new character arrives at its first location,
/// and the history records the inheritance on the turn of its last entry. The threat does not
/// carry over.
pub fn create_inherited_state(state: &GameState, character_name: String, title: String) -> (r: GameState)
    requires
        state.world.next_id + 2 <= u64::MAX,
    ensures
        is_inherited_game(r, *state, character_name@, title@),
{
    let mut world = state.world.duplicate();
    proof {
        lemma_same_world_ids(world, state.world);
        assert(world.locations.deep_view().len() == world.locations@.len());
        assert(state.world.locations.deep_view().len() == state.world.locations@.len());
        if state.world.locations@.len() > 0 {
            assert(world.locations.deep_view()[0] == state.world.locations.deep_view()[0]);
        }
    }
    world.mode = WorldMode::Inherited;
    let character = world.spawn_character(character_name, title);
    let turn = if world.history.len() > 0 { world.history[world.history.len() - 1].turn } else { 0 };
    proof {
        if world.history@.len() > 0 {
            assert(world.history.deep_view()[world.history@.len() - 1] == state.world.history.deep_view()[world.history@.len() - 1]);
        }
    }
    let name = character.display_name();
    world.record_history(turn, cat2(name.as_str(), " inherited the world."));
    proof {
        assert(world.history.deep_view() =~= state.world.history.deep_view().push(HistoryModel {
            id: (state.world.next_id + 1) as EntityId,
            turn: last_turn(state.world.history@),
            text: display_name_of(character_name@, title@) + " inherited the world."@,
            event: None,
        }));
    }
    GameState {
        world,
        character,
        threat: ThreatState::default(),
        corpses: duplicate_all(&state.corpses),
        factions: duplicate_all(&state.factions),
        npcs: duplicate_all(&state.npcs),
        quests: duplicate_all(&state.quests),
        last_announced_location_id: None,
    }
}

} // verus!
