//! Data-driven events: which may fire, which is picked, and what firing does.

use vstd::prelude::*;
use crate::text::{views, text_eq, texts_contain, replace_all, replace_text, decimal, append_decimal, text_of, cat4};
use crate::content::{CampaignContent, EventContent, EventConditionContent, EventEffectContent};
use crate::model::{GameState, EventCooldown, CooldownModel, HistoryModel, ConditionModel, Condition, HistoryEntry, Faction, Item,
    EventRecord, EventRecordModel, EventOutcome, display_name_of, first_match, lemma_first_match, lemma_first_match_step, lemma_first_match_none};

verus! {

/// Where and when an event is being considered.
#[derive(Debug)]
pub struct EventContext<'a> {
    pub trigger: &'a str,
    pub location_name: &'a str,
    pub dangerous: bool,
    pub night: bool,
}

impl<'a> EventContext<'a> {
    /// The context of arriving at a location.
    pub fn for_travel_arrival(location_name: &'a str, dangerous: bool, night: bool) -> (r: Self)
        ensures
            r.trigger@ == "travel_arrival"@,
            r.location_name == location_name,
            r.dangerous == dangerous,
            r.night == night,
    {
        EventContext { trigger: "travel_arrival", location_name, dangerous, night }
    }
}

/// Whether an event with `id` has fired before: the history holds its record.
pub open spec fn event_recorded(history: Seq<HistoryEntry>, id: Seq<char>) -> bool {
    exists|i: int| 0 <= i < history.len() && ((#[trigger] history[i]).event matches Some(r) && r.event_id@ == id)
}

pub open spec fn faction_called(name: Seq<char>) -> spec_fn(Faction) -> bool {
    |f: Faction| f.name@ == name
}

/// Whether the reputation condition holds: where a faction is named, the first faction of
/// that name exists and its reputation is within the bounds that are set.
pub open spec fn reputation_holds(c: EventConditionContent, factions: Seq<Faction>) -> bool {
    match c.faction_name {
        None => true,
        Some(n) => {
            let k = first_match(factions, faction_called(n@));
            &&& k < factions.len()
            &&& (c.min_reputation matches Some(lo) ==> factions[k].reputation >= lo)
            &&& (c.max_reputation matches Some(hi) ==> factions[k].reputation <= hi)
        },
    }
}

/// Whether the character holds an item called `name`.
pub open spec fn holds_item(inventory: Seq<Item>, name: Seq<char>) -> bool {
    exists|i: int| 0 <= i < inventory.len() && (#[trigger] inventory[i]).name@ == name
}

/// Whether the character has an active condition called `name`: one with turns remaining.
pub open spec fn has_active_condition(conditions: Seq<Condition>, name: Seq<char>) -> bool {
    exists|i: int| 0 <= i < conditions.len() && (#[trigger] conditions[i]).name@ == name && conditions[i].remaining > 0
}

/// Whether an event's conditions hold for the state in the given context: the night,
/// danger, day range and location; a prior event that must have fired; a faction's
/// reputation range; an item the character must hold; a condition that must be active.
pub open spec fn conditions_hold(
    conditions: Option<EventConditionContent>,
    state: GameState,
    night: bool,
    dangerous: bool,
    location_name: Seq<char>,
) -> bool {
    match conditions {
        None => true,
        Some(c) => {
            &&& (c.night matches Some(n) ==> n == night)
            &&& (c.dangerous matches Some(d) ==> d == dangerous)
            &&& (c.min_day matches Some(lo) ==> state.world.day >= lo)
            &&& (c.max_day matches Some(hi) ==> state.world.day <= hi)
            &&& (c.locations@.len() > 0 ==> views(c.locations@).contains(location_name))
            &&& (c.prior_event_id matches Some(p) ==> event_recorded(state.world.history@, p@))
            &&& reputation_holds(c, state.factions@)
            &&& (c.required_item_name matches Some(n) ==> holds_item(state.character.inventory@, n@))
            &&& (c.required_condition_name matches Some(n) ==> has_active_condition(state.character.conditions@, n@))
        },
    }
}

/// Whether the history records an event with `id`.
fn history_records_event(history: &Vec<HistoryEntry>, id: &str) -> (r: bool)
    ensures
        r == event_recorded(history@, id@),
{
    let mut i: usize = 0;
    while i < history.len()
        invariant
            i <= history@.len(),
            forall|j: int| 0 <= j < i ==> !((#[trigger] history@[j]).event matches Some(r) && r.event_id@ == id@),
        decreases history@.len() - i,
    {
        match &history[i].event {
            Some(record) => {
                if text_eq(record.event_id.as_str(), id) {
                    return true;
                }
            },
            None => {},
        }
        i = i + 1;
    }
    false
}

/// Whether the reputation condition of `c` holds among `factions`.
fn reputation_in_range(c: &EventConditionContent, factions: &Vec<Faction>) -> (r: bool)
    ensures
        r == reputation_holds(*c, factions@),
{
    let name = match &c.faction_name {
        Some(n) => n,
        None => return true,
    };
    proof { lemma_first_match(factions@, faction_called(name@)); }
    let mut i: usize = 0;
    while i < factions.len()
        invariant
            i <= factions@.len(),
            c.faction_name == Some(*name),
            forall|j: int| 0 <= j < i ==> !faction_called(name@)(#[trigger] factions@[j]),
        decreases factions@.len() - i,
    {
        proof { lemma_first_match_step(factions@, faction_called(name@), i as int); }
        if text_eq(factions[i].name.as_str(), name.as_str()) {
            assert(faction_called(name@)(factions@[i as int]));
            assert(first_match(factions@, faction_called(name@)) == i);
            let reputation = factions[i].reputation;
            if let Some(lo) = c.min_reputation {
                if reputation < lo {
                    return false;
                }
            }
            if let Some(hi) = c.max_reputation {
                if reputation > hi {
                    return false;
                }
            }
            return true;
        }
        i = i + 1;
    }
    proof { lemma_first_match_none(factions@, faction_called(name@)); }
    false
}

/// Whether `inventory` holds an item called `name`.
fn inventory_holds(inventory: &Vec<Item>, name: &str) -> (r: bool)
    ensures
        r == holds_item(inventory@, name@),
{
    let mut i: usize = 0;
    while i < inventory.len()
        invariant
            i <= inventory@.len(),
            forall|j: int| 0 <= j < i ==> (#[trigger] inventory@[j]).name@ != name@,
        decreases inventory@.len() - i,
    {
        if text_eq(inventory[i].name.as_str(), name) {
            return true;
        }
        i = i + 1;
    }
    false
}

/// Whether `conditions` hold an active condition called `name`.
fn condition_active(conditions: &Vec<Condition>, name: &str) -> (r: bool)
    ensures
        r == has_active_condition(conditions@, name@),
{
    let mut i: usize = 0;
    while i < conditions.len()
        invariant
            i <= conditions@.len(),
            forall|j: int| 0 <= j < i ==> !((#[trigger] conditions@[j]).name@ == name@ && conditions@[j].remaining > 0),
        decreases conditions@.len() - i,
    {
        if conditions[i].remaining > 0 && text_eq(conditions[i].name.as_str(), name) {
            return true;
        }
        i = i + 1;
    }
    false
}

/// Whether the conditions of an event hold for the state and context.
pub fn matches_conditions(
    conditions: Option<&EventConditionContent>,
    state: &GameState,
    context: &EventContext<'_>,
) -> (b: bool)
    ensures
        b == conditions_hold(
            match conditions { Some(c) => Some(*c), None => None },
            *state,
            context.night,
            context.dangerous,
            context.location_name@,
        ),
{
    let conditions = match conditions {
        Some(c) => c,
        None => return true,
    };
    if let Some(night) = conditions.night {
        if context.night != night {
            return false;
        }
    }
    if let Some(dangerous) = conditions.dangerous {
        if context.dangerous != dangerous {
            return false;
        }
    }
    if let Some(min_day) = conditions.min_day {
        if state.world.day < min_day {
            return false;
        }
    }
    if let Some(max_day) = conditions.max_day {
        if state.world.day > max_day {
            return false;
        }
    }
    if conditions.locations.len() > 0 && !texts_contain(conditions.locations.as_slice(), context.location_name) {
        return false;
    }
    if let Some(prior) = &conditions.prior_event_id {
        if !history_records_event(&state.world.history, prior.as_str()) {
            return false;
        }
    }
    if !reputation_in_range(conditions, &state.factions) {
        return false;
    }
    if let Some(item) = &conditions.required_item_name {
        if !inventory_holds(&state.character.inventory, item.as_str()) {
            return false;
        }
    }
    if let Some(name) = &conditions.required_condition_name {
        if !condition_active(&state.character.conditions, name.as_str()) {
            return false;
        }
    }
    true
}

pub open spec fn cooldown_for(id: Seq<char>) -> spec_fn(CooldownModel) -> bool {
    |c: CooldownModel| c.event_id == id
}

/// Whether an event is ready: the first cooldown recorded for it, if any, has come due.
pub open spec fn off_cooldown(cooldowns: Seq<CooldownModel>, turn: u32, id: Seq<char>) -> bool {
    let k = first_match(cooldowns, cooldown_for(id));
    k < cooldowns.len() ==> turn >= cooldowns[k].ready_at_turn
}

/// Whether the event with `event_id` is off cooldown on the character's current turn.
pub fn event_is_off_cooldown(state: &GameState, event_id: &str) -> (b: bool)
    ensures
        b == off_cooldown(state.world.event_cooldowns.deep_view(), state.character.turn, event_id@),
{
    let cooldowns = &state.world.event_cooldowns;
    proof { lemma_first_match(cooldowns.deep_view(), cooldown_for(event_id@)); }
    let mut i: usize = 0;
    while i < cooldowns.len()
        invariant
            cooldowns == &state.world.event_cooldowns,
            i <= cooldowns@.len(),
            forall|j: int| 0 <= j < i ==> !cooldown_for(event_id@)(#[trigger] cooldowns.deep_view()[j]),
        decreases cooldowns@.len() - i,
    {
        proof { lemma_first_match_step(cooldowns.deep_view(), cooldown_for(event_id@), i as int); }
        if text_eq(cooldowns[i].event_id.as_str(), event_id) {
            return state.character.turn >= cooldowns[i].ready_at_turn;
        }
        i = i + 1;
    }
    proof { lemma_first_match_none(cooldowns.deep_view(), cooldown_for(event_id@)); }
    true
}

/// The events behind a list of references.
pub open spec fn derefs(s: Seq<&EventContent>) -> Seq<EventContent> {
    s.map_values(|e: &EventContent| *e)
}

/// The weight an event is picked by; a zero weight counts as one.
pub open spec fn pick_weight(e: EventContent) -> nat {
    if e.weight == 0 { 1 } else { e.weight as nat }
}

/// The sum of the pick weights.
pub open spec fn total_weight(s: Seq<EventContent>) -> nat
    decreases s.len(),
{
    if s.len() == 0 { 0 } else { total_weight(s.drop_last()) + pick_weight(s.last()) }
}

/// The index an event is picked at for `cursor`: the first whose running weight passes the
/// cursor, or the last.
pub open spec fn pick_index(s: Seq<EventContent>, cursor: nat) -> int
    decreases s.len(),
{
    if s.len() <= 1 {
        0
    } else if cursor < total_weight(s.drop_last()) {
        pick_index(s.drop_last(), cursor)
    } else {
        s.len() - 1
    }
}

proof fn lemma_total_weight_take(s: Seq<EventContent>, i: int)
    requires
        0 <= i < s.len(),
    ensures
        total_weight(s.take(i + 1)) == total_weight(s.take(i)) + pick_weight(s[i]),
{
    assert(s.take(i + 1).drop_last() =~= s.take(i));
}

proof fn lemma_total_weight_monotone(s: Seq<EventContent>, a: int, b: int)
    requires
        0 <= a <= b <= s.len(),
    ensures
        total_weight(s.take(a)) <= total_weight(s.take(b)),
    decreases b - a,
{
    if a < b {
        lemma_total_weight_monotone(s, a, b - 1);
        lemma_total_weight_take(s, b - 1);
    }
}

/// The picked index is the one whose weight band holds the cursor.
pub proof fn lemma_pick_index(s: Seq<EventContent>, cursor: nat, i: int)
    requires
        0 <= i < s.len(),
        total_weight(s.take(i)) <= cursor < total_weight(s.take(i + 1)),
    ensures
        pick_index(s, cursor) == i,
    decreases s.len(),
{
    if s.len() > 1 {
        let d = s.drop_last();
        if i < s.len() - 1 {
            assert(d.take(i) =~= s.take(i));
            assert(d.take(i + 1) =~= s.take(i + 1));
            lemma_total_weight_monotone(d, i + 1, d.len() as int);
            assert(d.take(d.len() as int) =~= d);
            lemma_pick_index(d, cursor, i);
        } else {
            assert(s.take(i) =~= d);
        }
    }
}

/// A weighted pick is fair to the weights: for any cursor below the total weight, the
/// picked event is the one whose band, between the weights before it and the weights up to
/// and including it, holds the cursor; so each event is picked for exactly as many
/// cursors as its weight.
pub proof fn law_weighted_pick_bands(s: Seq<EventContent>, cursor: nat)
    requires
        cursor < total_weight(s),
    ensures
        0 <= pick_index(s, cursor) < s.len(),
        total_weight(s.take(pick_index(s, cursor))) <= cursor,
        cursor < total_weight(s.take(pick_index(s, cursor) + 1)),
    decreases s.len(),
{
    let d = s.drop_last();
    assert(s.take(s.len() as int) =~= s);
    if s.len() == 1 {
        assert(s.take(0) =~= seq![]);
        assert(d =~= seq![]);
        lemma_pick_index(s, cursor, 0);
    } else if cursor < total_weight(d) {
        law_weighted_pick_bands(d, cursor);
        let k = pick_index(d, cursor);
        assert(d.take(k) =~= s.take(k));
        assert(d.take(k + 1) =~= s.take(k + 1));
    } else {
        assert(s.take(s.len() - 1) =~= d);
    }
}

/// Picks an event by weight: `roll` reduced modulo the total weight falls in one event's band.
pub fn weighted_pick<'a>(events: &[&'a EventContent], roll: u64) -> (r: Option<&'a EventContent>)
    requires
        total_weight(derefs(events@)) <= u64::MAX,
    ensures
        events@.len() == 0 ==> r is None,
        events@.len() > 0 ==> r == Some(events@[pick_index(derefs(events@),
            (roll % (total_weight(derefs(events@)) as u64)) as nat)]),
{
    let ghost s = derefs(events@);
    let mut total: u64 = 0;
    let mut i: usize = 0;
    while i < events.len()
        invariant
            s == derefs(events@),
            total_weight(s) <= u64::MAX,
            i <= events@.len(),
            total == total_weight(s.take(i as int)),
        decreases events@.len() - i,
    {
        proof {
            lemma_total_weight_take(s, i as int);
            lemma_total_weight_monotone(s, i + 1, s.len() as int);
            assert(s.take(s.len() as int) =~= s);
        }
        let weight: u64 = if events[i].weight == 0 { 1 } else { events[i].weight as u64 };
        total = total + weight;
        i = i + 1;
    }
    proof {
        assert(s.take(s.len() as int) =~= s);
    }
    if total == 0 {
        return None;
    }
    let cursor0 = roll % total;
    let mut cursor = cursor0;
    let mut i: usize = 0;
    while i < events.len()
        invariant
            s == derefs(events@),
            total == total_weight(s),
            cursor0 == roll % total,
            cursor0 < total,
            i <= events@.len(),
            total_weight(s.take(i as int)) <= cursor0,
            cursor == cursor0 - total_weight(s.take(i as int)),
        decreases events@.len() - i,
    {
        proof {
            lemma_total_weight_take(s, i as int);
        }
        let weight: u64 = if events[i].weight == 0 { 1 } else { events[i].weight as u64 };
        if cursor < weight {
            proof {
                lemma_pick_index(s, cursor0 as nat, i as int);
            }
            return Some(events[i]);
        }
        cursor = cursor - weight;
        i = i + 1;
    }
    proof {
        assert(s.take(s.len() as int) =~= s);
    }
    match events.last() {
        Some(e) => Some(*e),
        None => None,
    }
}


/// What firing an event asks the interface to do.
#[derive(Debug)]
pub enum EventOutput {
    Line(String),
    Pause,
}

/// An output as plain values.
pub enum OutputModel {
    Line(Seq<char>),
    Pause,
}

impl DeepView for EventOutput {
    type V = OutputModel;

    open spec fn deep_view(&self) -> OutputModel {
        match self {
            EventOutput::Line(t) => OutputModel::Line(t@),
            EventOutput::Pause => OutputModel::Pause,
        }
    }
}

/// What event text is rendered with.
pub struct TextContext {
    pub name: Seq<char>,
    pub title: Seq<char>,
    pub location: Seq<char>,
    pub day: u32,
}

/// Event text with `{character}`, `{location}` and `{day}` filled in, in that order.
pub open spec fn rendered(text: Seq<char>, t: TextContext) -> Seq<char> {
    replace_all(
        replace_all(replace_all(text, "{character}"@, display_name_of(t.name, t.title)), "{location}"@, t.location),
        "{day}"@,
        decimal(t.day as nat),
    )
}

pub open spec fn text_context(state: GameState, location_name: Seq<char>) -> TextContext {
    TextContext {
        name: state.character.name@,
        title: state.character.title@,
        location: location_name,
        day: state.world.day,
    }
}

/// Renders event text for the state and context.
pub fn render_text(text: &str, state: &GameState, context: &EventContext<'_>) -> (r: String)
    ensures
        r@ == rendered(text@, text_context(*state, context.location_name@)),
{
    proof {
        reveal_strlit("{character}");
        reveal_strlit("{location}");
        reveal_strlit("{day}");
    }
    let name = state.character.display_name();
    let a = replace_text(text, "{character}", name.as_str());
    let b = replace_text(a.as_str(), "{location}", context.location_name);
    let mut day = String::new();
    append_decimal(&mut day, state.world.day as u64);
    assert(day@ =~= decimal(state.world.day as nat));
    replace_text(b.as_str(), "{day}", day.as_str())
}

/// The parts of the game state that effects change, with the outputs produced so far.
pub struct EffectModel {
    pub hp: int,
    pub alive: bool,
    pub next_id: int,
    pub history: Seq<HistoryModel>,
    pub conditions: Seq<ConditionModel>,
    pub outputs: Seq<OutputModel>,
}

pub open spec fn effect_model(state: GameState, outputs: Seq<OutputModel>) -> EffectModel {
    EffectModel {
        hp: state.character.hp as int,
        alive: state.character.alive,
        next_id: state.world.next_id as int,
        history: state.world.history.deep_view(),
        conditions: state.character.conditions.deep_view(),
        outputs,
    }
}

/// What one effect does.
pub open spec fn apply_effect_model(m: EffectModel, e: EventEffectContent, turn: u32, max_hp: i32, t: TextContext) -> EffectModel {
    match e {
        EventEffectContent::Message { text } => EffectModel { outputs: m.outputs.push(OutputModel::Line(rendered(text@, t))), ..m },
        EventEffectContent::History { text } => EffectModel {
            history: m.history.push(HistoryModel { id: m.next_id as u64, turn, text: rendered(text@, t), event: None }),
            next_id: m.next_id + 1,
            ..m
        },
        EventEffectContent::Pause => EffectModel { outputs: m.outputs.push(OutputModel::Pause), ..m },
        EventEffectContent::Heal { amount } => EffectModel {
            hp: if m.hp + amount < max_hp { m.hp + amount } else { max_hp as int },
            ..m
        },
        EventEffectContent::Damage { amount } => {
            let hp = if m.hp - amount > 0 { m.hp - amount } else { 0 };
            EffectModel { hp, alive: if hp == 0 { false } else { m.alive }, ..m }
        },
        EventEffectContent::AddCondition { name, remaining, penalty, bonus } => EffectModel {
            conditions: m.conditions.push(ConditionModel { name: name@, remaining, penalty, bonus }),
            ..m
        },
    }
}

/// Whether an effect's arithmetic stays in range.
pub open spec fn effect_fits(m: EffectModel, e: EventEffectContent) -> bool {
    match e {
        EventEffectContent::History { .. } => m.next_id < u64::MAX,
        EventEffectContent::Heal { amount } => i32::MIN <= m.hp + amount <= i32::MAX,
        EventEffectContent::Damage { amount } => i32::MIN <= m.hp - amount <= i32::MAX,
        _ => true,
    }
}

/// What a sequence of effects does, in order.
pub open spec fn apply_effects_model(m: EffectModel, effects: Seq<EventEffectContent>, turn: u32, max_hp: i32, t: TextContext) -> EffectModel
    decreases effects.len(),
{
    if effects.len() == 0 {
        m
    } else {
        apply_effect_model(apply_effects_model(m, effects.drop_last(), turn, max_hp, t), effects.last(), turn, max_hp, t)
    }
}

/// Whether every effect of a sequence stays in range, each in the state the earlier ones leave.
pub open spec fn effects_fit(m: EffectModel, effects: Seq<EventEffectContent>, turn: u32, max_hp: i32, t: TextContext) -> bool
    decreases effects.len(),
{
    if effects.len() == 0 {
        true
    } else {
        effects_fit(m, effects.drop_last(), turn, max_hp, t)
            && effect_fits(apply_effects_model(m, effects.drop_last(), turn, max_hp, t), effects.last())
    }
}

/// The text of the history entry written when the event `id` fires at `location`.
pub open spec fn event_entry_text(id: Seq<char>, location: Seq<char>) -> Seq<char> {
    id + " happened at "@ + location + "."@
}

/// What firing an event does: its effects in order, then an entry in the history that
/// records the event's id, the location and the outcome, the character's health before and
/// after and whether they still live.
pub open spec fn event_model(m0: EffectModel, e: EventContent, turn: u32, max_hp: i32, t: TextContext) -> EffectModel {
    let m = apply_effects_model(m0, e.effects@, turn, max_hp, t);
    EffectModel {
        history: m.history.push(HistoryModel {
            id: m.next_id as u64,
            turn,
            text: event_entry_text(e.id@, t.location),
            event: Some(EventRecordModel {
                event_id: e.id@,
                location: t.location,
                outcome: EventOutcome { hp_before: m0.hp as i32, hp_after: m.hp as i32, alive: m.alive },
            }),
        }),
        next_id: m.next_id + 1,
        ..m
    }
}

/// Whether firing an event stays in range: each effect does, and an id is left for the
/// event's history entry.
pub open spec fn event_fits(m0: EffectModel, e: EventContent, turn: u32, max_hp: i32, t: TextContext) -> bool {
    &&& effects_fit(m0, e.effects@, turn, max_hp, t)
    &&& apply_effects_model(m0, e.effects@, turn, max_hp, t).next_id < u64::MAX
}

/// Everything but what effects change is the same in both states.
pub open spec fn same_beyond_effects(a: GameState, b: GameState) -> bool {
    &&& a.world.id == b.world.id
    &&& a.world.name == b.world.name
    &&& a.world.mode == b.world.mode
    &&& a.world.regions == b.world.regions
    &&& a.world.locations == b.world.locations
    &&& a.world.day == b.world.day
    &&& a.world.time_points == b.world.time_points
    &&& a.character.id == b.character.id
    &&& a.character.name == b.character.name
    &&& a.character.title == b.character.title
    &&& a.character.max_hp == b.character.max_hp
    &&& a.character.location_id == b.character.location_id
    &&& a.character.inventory == b.character.inventory
    &&& a.character.turn == b.character.turn
    &&& a.character.notes == b.character.notes
    &&& a.character.level == b.character.level
    &&& a.character.attributes == b.character.attributes
    &&& a.threat == b.threat
    &&& a.corpses == b.corpses
    &&& a.factions == b.factions
    &&& a.npcs == b.npcs
    &&& a.quests == b.quests
    &&& a.last_announced_location_id == b.last_announced_location_id
}

/// Applies one effect; messages and pauses become outputs for the interface.
pub fn apply_effect(
    state: &mut GameState,
    effect: &EventEffectContent,
    context: &EventContext<'_>,
    outputs: &mut Vec<EventOutput>,
)
    requires
        effect_fits(effect_model(*old(state), old(outputs).deep_view()), *effect),
    ensures
        effect_model(*final(state), final(outputs).deep_view()) == apply_effect_model(
            effect_model(*old(state), old(outputs).deep_view()), *effect, old(state).character.turn,
            old(state).character.max_hp, text_context(*old(state), context.location_name@)),
        same_beyond_effects(*final(state), *old(state)),
        final(state).world.event_cooldowns == old(state).world.event_cooldowns,
{
    let ghost s0 = *state;
    let ghost o0 = outputs.deep_view();
    match effect {
        EventEffectContent::Message { text } => {
            let line = render_text(text.as_str(), state, context);
            outputs.push(EventOutput::Line(line));
            assert(outputs.deep_view() =~= o0.push(OutputModel::Line(rendered(text@, text_context(s0, context.location_name@)))));
        },
        EventEffectContent::History { text } => {
            let line = render_text(text.as_str(), state, context);
            let turn = state.character.turn;
            state.world.record_history(turn, line);
            assert(state.world.history.deep_view() =~= s0.world.history.deep_view().push(
                HistoryModel { id: s0.world.next_id, turn, text: rendered(text@, text_context(s0, context.location_name@)), event: None }));
        },
        EventEffectContent::Pause => {
            outputs.push(EventOutput::Pause);
            assert(outputs.deep_view() =~= o0.push(OutputModel::Pause));
        },
        EventEffectContent::Heal { amount } => {
            state.character.heal(*amount);
        },
        EventEffectContent::Damage { amount } => {
            let lowered = state.character.hp - *amount;
            state.character.hp = if lowered > 0 { lowered } else { 0 };
            if state.character.hp == 0 {
                state.character.alive = false;
            }
        },
        EventEffectContent::AddCondition { name, remaining, penalty, bonus } => {
            let mut condition = Condition::new(name.clone(), *remaining, *penalty);
            condition.bonus = *bonus;
            state.character.conditions.push(condition);
            assert(state.character.conditions.deep_view() =~= s0.character.conditions.deep_view().push(
                ConditionModel { name: name@, remaining: *remaining, penalty: *penalty, bonus: *bonus }));
        },
    }
}


/// `a + b`, or the largest value when that overflows.
pub open spec fn saturating_sum(a: u32, b: u32) -> u32 {
    if a + b > u32::MAX { u32::MAX } else { (a + b) as u32 }
}

/// The cooldowns after an event fires on `turn`: with a positive cooldown, the event's first
/// cooldown entry is set to come due that many turns after the next, or an entry is added.
pub open spec fn cooldowns_after(cooldowns: Seq<CooldownModel>, id: Seq<char>, turn: u32, cooldown_turns: Option<u32>) -> Seq<CooldownModel> {
    let cd = match cooldown_turns { Some(c) => c, None => 0 };
    if cd > 0 {
        let ready = saturating_sum(turn, saturating_sum(cd, 1));
        let k = first_match(cooldowns, cooldown_for(id));
        if k < cooldowns.len() {
            cooldowns.update(k, CooldownModel { event_id: cooldowns[k].event_id, ready_at_turn: ready })
        } else {
            cooldowns.push(CooldownModel { event_id: id, ready_at_turn: ready })
        }
    } else {
        cooldowns
    }
}

proof fn lemma_effects_fit_prefix(m: EffectModel, effects: Seq<EventEffectContent>, turn: u32, max_hp: i32, t: TextContext, j: int)
    requires
        0 <= j <= effects.len(),
        effects_fit(m, effects, turn, max_hp, t),
    ensures
        effects_fit(m, effects.take(j), turn, max_hp, t),
    decreases effects.len(),
{
    if j < effects.len() {
        assert(effects.drop_last().take(j) =~= effects.take(j));
        lemma_effects_fit_prefix(m, effects.drop_last(), turn, max_hp, t, j);
    } else {
        assert(effects.take(j) =~= effects);
    }
}

/// The position of the first cooldown of the event `id`.
fn cooldown_index(cooldowns: &Vec<EventCooldown>, id: &str) -> (r: Option<usize>)
    ensures
        ({
            let k = first_match(cooldowns.deep_view(), cooldown_for(id@));
            &&& (r is Some) == (k < cooldowns@.len())
            &&& r matches Some(i) ==> i as int == k
        }),
{
    proof { lemma_first_match(cooldowns.deep_view(), cooldown_for(id@)); }
    let mut i: usize = 0;
    while i < cooldowns.len()
        invariant
            i <= cooldowns@.len(),
            forall|j: int| 0 <= j < i ==> !cooldown_for(id@)(#[trigger] cooldowns.deep_view()[j]),
        decreases cooldowns@.len() - i,
    {
        proof { lemma_first_match_step(cooldowns.deep_view(), cooldown_for(id@), i as int); }
        if text_eq(cooldowns[i].event_id.as_str(), id) {
            return Some(i);
        }
        i = i + 1;
    }
    proof { lemma_first_match_none(cooldowns.deep_view(), cooldown_for(id@)); }
    None
}

/// Fires an event: applies its effects in order, starts its cooldown, and records it in
/// the history with the location and the outcome.
pub fn apply_event(
    state: &mut GameState,
    event: &EventContent,
    context: &EventContext<'_>,
    outputs: &mut Vec<EventOutput>,
)
    requires
        event_fits(effect_model(*old(state), old(outputs).deep_view()), *event,
            old(state).character.turn, old(state).character.max_hp, text_context(*old(state), context.location_name@)),
    ensures
        effect_model(*final(state), final(outputs).deep_view()) == event_model(
            effect_model(*old(state), old(outputs).deep_view()), *event, old(state).character.turn,
            old(state).character.max_hp, text_context(*old(state), context.location_name@)),
        final(state).world.history.deep_view() == apply_effects_model(
            effect_model(*old(state), old(outputs).deep_view()), event.effects@, old(state).character.turn,
            old(state).character.max_hp, text_context(*old(state), context.location_name@)).history.push(
            final(state).world.history.deep_view().last()),
        final(state).world.history.deep_view().last().event == Some(EventRecordModel {
            event_id: event.id@,
            location: context.location_name@,
            outcome: EventOutcome {
                hp_before: old(state).character.hp,
                hp_after: final(state).character.hp,
                alive: final(state).character.alive,
            },
        }),
        final(state).world.event_cooldowns.deep_view() == cooldowns_after(
            old(state).world.event_cooldowns.deep_view(), event.id@, old(state).character.turn, event.cooldown_turns),
        same_beyond_effects(*final(state), *old(state)),
{
    let ghost s0 = *state;
    let ghost m0 = effect_model(*state, outputs.deep_view());
    let ghost tc = text_context(*state, context.location_name@);
    let hp_before = state.character.hp;
    let effects = &event.effects;
    let mut i: usize = 0;
    while i < effects.len()
        invariant
            effects == &event.effects,
            i <= effects@.len(),
            effects_fit(m0, effects@, s0.character.turn, s0.character.max_hp, tc),
            effect_model(*state, outputs.deep_view()) == apply_effects_model(m0, effects@.take(i as int),
                s0.character.turn, s0.character.max_hp, tc),
            same_beyond_effects(*state, s0),
            state.world.event_cooldowns == s0.world.event_cooldowns,
            tc == text_context(s0, context.location_name@),
        decreases effects@.len() - i,
    {
        proof {
            lemma_effects_fit_prefix(m0, effects@, s0.character.turn, s0.character.max_hp, tc, i + 1);
            assert(effects@.take(i + 1).drop_last() =~= effects@.take(i as int));
            assert(effects@.take(i + 1).last() == effects@[i as int]);
            assert(text_context(*state, context.location_name@) == tc);
        }
        apply_effect(state, &effects[i], context, outputs);
        i = i + 1;
    }
    proof {
        assert(effects@.take(effects@.len() as int) =~= effects@);
    }
    let cooldown_turns = match event.cooldown_turns { Some(c) => c, None => 0 };
    if cooldown_turns > 0 {
        let ready_at_turn = state.character.turn.saturating_add(cooldown_turns.saturating_add(1));
        let ghost cds = state.world.event_cooldowns.deep_view();
        proof { lemma_first_match(cds, cooldown_for(event.id@)); }
        let position = cooldown_index(&state.world.event_cooldowns, event.id.as_str());
        if let Some(k) = position {
            state.world.event_cooldowns[k].ready_at_turn = ready_at_turn;
            assert(state.world.event_cooldowns.deep_view() =~= cds.update(k as int,
                CooldownModel { event_id: cds[k as int].event_id, ready_at_turn }));
        } else {
            state.world.event_cooldowns.push(EventCooldown { event_id: event.id.clone(), ready_at_turn });
            assert(state.world.event_cooldowns.deep_view() =~= cds.push(
                CooldownModel { event_id: event.id@, ready_at_turn }));
        }
    }
    let ghost h1 = state.world.history.deep_view();
    let record = EventRecord {
        event_id: event.id.clone(),
        location: text_of(context.location_name),
        outcome: EventOutcome { hp_before, hp_after: state.character.hp, alive: state.character.alive },
    };
    let text = cat4(event.id.as_str(), " happened at ", context.location_name, ".");
    let turn = state.character.turn;
    state.world.record_event(turn, text, record);
    assert(state.world.history.deep_view() =~= h1.push(state.world.history.deep_view().last()));
}


/// The chance, in percent, that an event passes its chance gate; absent means always.
pub open spec fn chance_of(e: EventContent) -> u64 {
    match e.chance_percent {
        Some(c) => c as u64,
        None => 100,
    }
}

/// Whether an event may fire: its trigger matches, its conditions hold, it is off cooldown,
/// and its chance beats the roll.
pub open spec fn is_candidate(
    e: EventContent,
    state: GameState,
    trigger: Seq<char>,
    night: bool,
    dangerous: bool,
    location: Seq<char>,
    chance_roll: u64,
) -> bool {
    &&& e.trigger@ == trigger
    &&& conditions_hold(e.conditions, state, night, dangerous, location)
    &&& off_cooldown(state.world.event_cooldowns.deep_view(), state.character.turn, e.id@)
    &&& chance_of(e) > chance_roll
}

/// The events that may fire, in content order.
pub open spec fn candidates(
    events: Seq<EventContent>,
    state: GameState,
    trigger: Seq<char>,
    night: bool,
    dangerous: bool,
    location: Seq<char>,
    chance_roll: u64,
) -> Seq<EventContent>
    decreases events.len(),
{
    if events.len() == 0 {
        seq![]
    } else {
        let prev = candidates(events.drop_last(), state, trigger, night, dangerous, location, chance_roll);
        if is_candidate(events.last(), state, trigger, night, dangerous, location, chance_roll) {
            prev.push(events.last())
        } else {
            prev
        }
    }
}

/// The candidates of an event for the context and the chance roll.
pub open spec fn context_candidates(content: CampaignContent, state: GameState, ctx: EventContext, chance_roll: u64) -> Seq<EventContent> {
    candidates(content.events@, state, ctx.trigger@, ctx.night, ctx.dangerous, ctx.location_name@, chance_roll)
}

/// The candidate picked by weight for `pick_roll`.
pub open spec fn chosen_event(cands: Seq<EventContent>, pick_roll: u64) -> EventContent {
    cands[pick_index(cands, (pick_roll % (total_weight(cands) as u64)) as nat)]
}

/// What firing an event for rolls `chance_roll` and `pick_roll` does: with no candidate,
/// nothing; else the candidate picked by weight fires.
pub open spec fn fired(
    before: GameState,
    outputs_before: Seq<OutputModel>,
    after: GameState,
    outputs_after: Seq<OutputModel>,
    result: bool,
    content: CampaignContent,
    ctx: EventContext,
    chance_roll: u64,
    pick_roll: u64,
) -> bool {
    let cands = context_candidates(content, before, ctx, chance_roll);
    if cands.len() == 0 {
        &&& !result
        &&& after == before
        &&& outputs_after == outputs_before
    } else {
        let e = chosen_event(cands, pick_roll);
        &&& result
        &&& effect_model(after, outputs_after) == event_model(effect_model(before, outputs_before), e,
            before.character.turn, before.character.max_hp, text_context(before, ctx.location_name@))
        &&& after.world.event_cooldowns.deep_view() == cooldowns_after(
            before.world.event_cooldowns.deep_view(), e.id@, before.character.turn, e.cooldown_turns)
        &&& same_beyond_effects(after, before)
    }
}

proof fn lemma_candidates(
    events: Seq<EventContent>,
    state: GameState,
    trigger: Seq<char>,
    night: bool,
    dangerous: bool,
    location: Seq<char>,
    chance_roll: u64,
)
    ensures
        ({
            let c = candidates(events, state, trigger, night, dangerous, location, chance_roll);
            &&& total_weight(c) <= total_weight(events)
            &&& forall|i: int| 0 <= i < c.len() ==> events.contains(#[trigger] c[i]) && c[i].trigger@ == trigger
        }),
    decreases events.len(),
{
    if events.len() > 0 {
        let d = events.drop_last();
        lemma_candidates(d, state, trigger, night, dangerous, location, chance_roll);
        let p = candidates(d, state, trigger, night, dangerous, location, chance_roll);
        let c = candidates(events, state, trigger, night, dangerous, location, chance_roll);
        assert forall|i: int| 0 <= i < c.len() implies events.contains(#[trigger] c[i]) && c[i].trigger@ == trigger by {
            if i < p.len() {
                assert(c[i] == p[i]);
                let k = choose|k: int| 0 <= k < d.len() && d[k] == p[i];
                assert(events[k] == d[k]);
            } else {
                assert(events[events.len() - 1] == c[i]);
            }
        }
        if c.len() > p.len() {
            assert(c.drop_last() =~= p);
        }
    }
}

proof fn lemma_total_weight_positive(s: Seq<EventContent>)
    requires
        s.len() > 0,
    ensures
        total_weight(s) > 0,
{
}

/// Fires an event for the given rolls: gathers the candidates, picks one by weight and
/// applies it.
pub fn fire_event(
    state: &mut GameState,
    context: &EventContext<'_>,
    content: &CampaignContent,
    chance_roll: u64,
    pick_roll: u64,
    outputs: &mut Vec<EventOutput>,
) -> (fired_any: bool)
    requires
        total_weight(context_candidates(*content, *old(state), *context, chance_roll)) <= u64::MAX,
        context_candidates(*content, *old(state), *context, chance_roll).len() > 0 ==> event_fits(
            effect_model(*old(state), old(outputs).deep_view()),
            chosen_event(context_candidates(*content, *old(state), *context, chance_roll), pick_roll),
            old(state).character.turn, old(state).character.max_hp, text_context(*old(state), context.location_name@)),
    ensures
        fired(*old(state), old(outputs).deep_view(), *final(state), final(outputs).deep_view(), fired_any,
            *content, *context, chance_roll, pick_roll),
{
    let ghost s0 = *state;
    let ghost all = content.events@;
    let mut cands: Vec<&EventContent> = Vec::new();
    let mut i: usize = 0;
    while i < content.events.len()
        invariant
            all == content.events@,
            s0 == *state,
            i <= all.len(),
            derefs(cands@) == candidates(all.take(i as int), s0, context.trigger@, context.night,
                context.dangerous, context.location_name@, chance_roll),
        decreases all.len() - i,
    {
        let event = &content.events[i];
        let chance: u64 = match event.chance_percent { Some(c) => c as u64, None => 100 };
        let keep = text_eq(event.trigger.as_str(), context.trigger)
            && matches_conditions(event.conditions.as_ref(), state, context)
            && event_is_off_cooldown(state, event.id.as_str())
            && chance > chance_roll;
        if keep {
            cands.push(event);
        }
        proof {
            let t = all.take(i + 1);
            assert(t.drop_last() =~= all.take(i as int));
            assert(t.last() == *event);
            assert(derefs(cands@) =~= candidates(t, s0, context.trigger@, context.night,
                context.dangerous, context.location_name@, chance_roll));
        }
        i = i + 1;
    }
    proof {
        assert(all.take(all.len() as int) =~= all);
    }
    if cands.len() == 0 {
        return false;
    }
    let ghost cs = derefs(cands@);
    proof {
        lemma_total_weight_positive(cs);
        law_weighted_pick_bands(cs, (pick_roll % (total_weight(cs) as u64)) as nat);
    }
    let chosen = match weighted_pick(cands.as_slice(), pick_roll) {
        Some(e) => e,
        None => cands[0],
    };
    assert(*chosen == chosen_event(cs, pick_roll));
    apply_event(state, chosen, context, outputs);
    true
}

/// Damage never leaves a character alive at 0 health: health falls by the damage but not
/// below 0, the character dies exactly when it reaches 0, and a character who was dead
/// stays dead.
pub proof fn law_damage_kills_at_zero(m: EffectModel, amount: i32, turn: u32, max_hp: i32, t: TextContext)
    ensures
        apply_effect_model(m, EventEffectContent::Damage { amount }, turn, max_hp, t).hp >= 0,
        apply_effect_model(m, EventEffectContent::Damage { amount }, turn, max_hp, t).hp == 0
            ==> !apply_effect_model(m, EventEffectContent::Damage { amount }, turn, max_hp, t).alive,
        apply_effect_model(m, EventEffectContent::Damage { amount }, turn, max_hp, t).hp > 0
            ==> apply_effect_model(m, EventEffectContent::Damage { amount }, turn, max_hp, t).alive == m.alive,
        apply_effect_model(m, EventEffectContent::Damage { amount }, turn, max_hp, t).alive ==> m.alive,
        amount >= 0 && m.hp >= 0 ==> apply_effect_model(m, EventEffectContent::Damage { amount }, turn, max_hp, t).hp <= m.hp,
        m.hp - amount >= 0 ==> apply_effect_model(m, EventEffectContent::Damage { amount }, turn, max_hp, t).hp == m.hp - amount,
        m.hp - amount <= 0 ==> !apply_effect_model(m, EventEffectContent::Damage { amount }, turn, max_hp, t).alive,
{
}

/// Whether an effect can raise health only by healing a non-negative amount.
pub open spec fn heals_non_negative(e: EventEffectContent) -> bool {
    e matches EventEffectContent::Heal { amount } ==> amount >= 0
}

/// Effects keep a living character's health above 0 and in range, as long as healing is
/// never negative and the most health is positive.
proof fn lemma_effects_keep_life(m: EffectModel, effects: Seq<EventEffectContent>, turn: u32, max_hp: i32, t: TextContext)
    requires
        i32::MIN <= m.hp <= i32::MAX,
        m.alive ==> m.hp > 0,
        max_hp > 0,
        forall|i: int| 0 <= i < effects.len() ==> heals_non_negative(#[trigger] effects[i]),
        effects_fit(m, effects, turn, max_hp, t),
    ensures
        ({
            let r = apply_effects_model(m, effects, turn, max_hp, t);
            &&& i32::MIN <= r.hp <= i32::MAX
            &&& r.alive ==> r.hp > 0
        }),
    decreases effects.len(),
{
    if effects.len() > 0 {
        let d = effects.drop_last();
        assert forall|i: int| 0 <= i < d.len() implies heals_non_negative(#[trigger] d[i]) by {
            assert(d[i] == effects[i]);
        }
        lemma_effects_keep_life(m, d, turn, max_hp, t);
        assert(heals_non_negative(effects[effects.len() - 1]));
    }
}

/// The record of a fired event tells its outcome truly: the health before and after and
/// whether the character lives are those of the state before and after, and a record whose
/// health after is 0 records a death, for a living character with positive health at most
/// and effects that never heal a negative amount.
pub proof fn law_event_outcome_records_death(m0: EffectModel, e: EventContent, turn: u32, max_hp: i32, t: TextContext)
    requires
        i32::MIN <= m0.hp <= i32::MAX,
        m0.alive ==> m0.hp > 0,
        max_hp > 0,
        forall|i: int| 0 <= i < e.effects@.len() ==> heals_non_negative(#[trigger] e.effects@[i]),
        event_fits(m0, e, turn, max_hp, t),
    ensures
        ({
            let r = event_model(m0, e, turn, max_hp, t);
            let record = r.history.last().event->0;
            &&& r.history.last().event is Some
            &&& record.event_id == e.id@
            &&& record.location == t.location
            &&& record.outcome.hp_before == m0.hp
            &&& record.outcome.hp_after == r.hp
            &&& record.outcome.alive == r.alive
            &&& record.outcome.hp_after == 0 ==> !record.outcome.alive
        }),
{
    lemma_effects_keep_life(m0, e.effects@, turn, max_hp, t);
}

/// An event's conditions fail whenever one condition that is set fails, whatever the rest:
/// the wrong time of day, the wrong danger, a day before the first or after the last, a
/// location not listed, a prior event that never fired, a named faction that is missing or
/// outside the reputation range, an item not held, a condition not active.
pub proof fn law_conditions_fail_on_any_unmet(
    c: EventConditionContent,
    state: GameState,
    night: bool,
    dangerous: bool,
    location: Seq<char>,
)
    ensures
        (c.night matches Some(n) && n != night) ==> !conditions_hold(Some(c), state, night, dangerous, location),
        (c.dangerous matches Some(d) && d != dangerous) ==> !conditions_hold(Some(c), state, night, dangerous, location),
        (c.min_day matches Some(lo) && state.world.day < lo) ==> !conditions_hold(Some(c), state, night, dangerous, location),
        (c.max_day matches Some(hi) && state.world.day > hi) ==> !conditions_hold(Some(c), state, night, dangerous, location),
        (c.locations@.len() > 0 && !(exists|i: int| 0 <= i < c.locations@.len() && (#[trigger] c.locations@[i])@ == location))
            ==> !conditions_hold(Some(c), state, night, dangerous, location),
        (c.prior_event_id matches Some(p) && !(exists|i: int| 0 <= i < state.world.history@.len()
            && ((#[trigger] state.world.history@[i]).event matches Some(r) && r.event_id@ == p@)))
            ==> !conditions_hold(Some(c), state, night, dangerous, location),
        (c.faction_name matches Some(f) && !(exists|i: int| 0 <= i < state.factions@.len()
            && (#[trigger] state.factions@[i]).name@ == f@))
            ==> !conditions_hold(Some(c), state, night, dangerous, location),
        (c.faction_name matches Some(f) && c.min_reputation matches Some(lo) && (forall|i: int| 0 <= i < state.factions@.len()
            && (#[trigger] state.factions@[i]).name@ == f@ ==> state.factions@[i].reputation < lo))
            ==> !conditions_hold(Some(c), state, night, dangerous, location),
        (c.faction_name matches Some(f) && c.max_reputation matches Some(hi) && (forall|i: int| 0 <= i < state.factions@.len()
            && (#[trigger] state.factions@[i]).name@ == f@ ==> state.factions@[i].reputation > hi))
            ==> !conditions_hold(Some(c), state, night, dangerous, location),
        (c.required_item_name matches Some(n) && !(exists|i: int| 0 <= i < state.character.inventory@.len()
            && (#[trigger] state.character.inventory@[i]).name@ == n@))
            ==> !conditions_hold(Some(c), state, night, dangerous, location),
        (c.required_condition_name matches Some(n) && !(exists|i: int| 0 <= i < state.character.conditions@.len()
            && (#[trigger] state.character.conditions@[i]).name@ == n@ && state.character.conditions@[i].remaining > 0))
            ==> !conditions_hold(Some(c), state, night, dangerous, location),
        conditions_hold(None, state, night, dangerous, location),
{
    if c.locations@.len() > 0 && !(exists|i: int| 0 <= i < c.locations@.len() && (#[trigger] c.locations@[i])@ == location) {
        assert(!views(c.locations@).contains(location)) by {
            if views(c.locations@).contains(location) {
                let k = choose|k: int| 0 <= k < views(c.locations@).len() && views(c.locations@)[k] == location;
                assert(c.locations@[k]@ == location);
            }
        }
    }
    if let Some(f) = c.faction_name {
        let k = first_match(state.factions@, faction_called(f@));
        lemma_first_match(state.factions@, faction_called(f@));
        if k < state.factions@.len() {
            assert(state.factions@[k].name@ == f@);
        }
    }
}

/// An event with a cooldown of `n` turns that fires on turn `t` is held back on every turn
/// up to `t + n` and ready on every turn from `t + n + 1`, whatever cooldowns were recorded
/// before: `apply_event` leaves `cooldowns_after` and `event_is_off_cooldown` reads
/// `off_cooldown`.
pub proof fn law_cooldown_window(cooldowns: Seq<CooldownModel>, id: Seq<char>, t: u32, n: u32, u: u32)
    requires
        n > 0,
        t + n + 1 <= u32::MAX,
    ensures
        off_cooldown(cooldowns_after(cooldowns, id, t, Some(n)), u, id) == (u >= t + n + 1),
{
    let pred = cooldown_for(id);
    let after = cooldowns_after(cooldowns, id, t, Some(n));
    let ready = (t + n + 1) as u32;
    lemma_first_match(cooldowns, pred);
    let k = first_match(cooldowns, pred);
    if k < cooldowns.len() {
        assert(after == cooldowns.update(k, CooldownModel { event_id: cooldowns[k].event_id, ready_at_turn: ready }));
        assert forall|j: int| 0 <= j < k implies !pred(#[trigger] after[j]) by {
            assert(after[j] == cooldowns[j]);
        }
        lemma_first_match_step(after, pred, k);
    } else {
        assert(after == cooldowns.push(CooldownModel { event_id: id, ready_at_turn: ready }));
        assert forall|j: int| 0 <= j < cooldowns.len() implies !pred(#[trigger] after[j]) by {
            assert(after[j] == cooldowns[j]);
        }
        lemma_first_match_step(after, pred, cooldowns.len() as int);
    }
}

/// The event that fires is always one of the content's own events with the context's
/// trigger: firing draws only on the content it is given, for any rolls, so content loaded
/// once serves every later call.
pub proof fn law_fired_event_comes_from_content(
    content: CampaignContent,
    state: GameState,
    ctx: EventContext,
    chance_roll: u64,
    pick_roll: u64,
)
    requires
        context_candidates(content, state, ctx, chance_roll).len() > 0,
        total_weight(content.events@) <= u64::MAX,
    ensures
        content.events@.contains(chosen_event(context_candidates(content, state, ctx, chance_roll), pick_roll)),
        chosen_event(context_candidates(content, state, ctx, chance_roll), pick_roll).trigger@ == ctx.trigger@,
{
    let cands = context_candidates(content, state, ctx, chance_roll);
    lemma_candidates(content.events@, state, ctx.trigger@, ctx.night, ctx.dangerous, ctx.location_name@, chance_roll);
    lemma_total_weight_positive(cands);
    law_weighted_pick_bands(cands, (pick_roll % (total_weight(cands) as u64)) as nat);
}

/// `std::time::SystemTime`, carried through as an opaque value.
#[verifier::external_type_specification]
#[verifier::external_body]
pub struct ExSystemTime(std::time::SystemTime);

/// `std::time::SystemTimeError`, carried through as an opaque value.
#[verifier::external_type_specification]
#[verifier::external_body]
pub struct ExSystemTimeError(std::time::SystemTimeError);

/// `SystemTime::now`: the time of the system clock. It depends on the time, so nothing is
/// claimed of it.
#[verifier::external_body]
fn clock_now() -> std::time::SystemTime {
    std::time::SystemTime::now()
}

/// `SystemTime::duration_since` from `UNIX_EPOCH`: the time elapsed since the epoch, or an
/// error for a time before it. Nothing is claimed of which.
#[verifier::external_body]
fn since_unix_epoch(time: &std::time::SystemTime) -> Result<std::time::Duration, std::time::SystemTimeError> {
    time.duration_since(std::time::UNIX_EPOCH)
}

/// `Duration::as_nanos`: the whole nanoseconds of a duration; the duration is opaque here,
/// so nothing is claimed of the number.
#[verifier::external_body]
fn duration_nanos(duration: &std::time::Duration) -> u128 {
    duration.as_nanos()
}

/// A roll from the system clock: the nanoseconds since the Unix epoch, cut to 64 bits, or 0
/// for a clock set before the epoch.
fn random_roll() -> u64 {
    let now = clock_now();
    match since_unix_epoch(&now) {
        Ok(elapsed) => duration_nanos(&elapsed) as u64,
        Err(_) => 0,
    }
}

/// Considers the events of `content` for the context: a chance roll below 100 gates them,
/// and, if any may fire, one is picked by weight with a second roll and fired. Both rolls
/// come from the clock; whatever they are, the outcome is what `fire_event` gives for them.
pub fn trigger_event(
    state: &mut GameState,
    context: &EventContext<'_>,
    content: &CampaignContent,
    outputs: &mut Vec<EventOutput>,
) -> (fired_any: bool)
    requires
        total_weight(content.events@) <= u64::MAX,
        forall|i: int| 0 <= i < content.events@.len() && (#[trigger] content.events@[i]).trigger@ == context.trigger@
            ==> event_fits(effect_model(*old(state), old(outputs).deep_view()), content.events@[i],
            old(state).character.turn, old(state).character.max_hp, text_context(*old(state), context.location_name@)),
    ensures
        exists|chance_roll: u64, pick_roll: u64| chance_roll < 100 && fired(*old(state), old(outputs).deep_view(),
            *final(state), final(outputs).deep_view(), fired_any, *content, *context, chance_roll, pick_roll),
{
    let chance_roll = random_roll() % 100;
    let pick_roll = random_roll();
    proof {
        let cands = context_candidates(*content, *state, *context, chance_roll);
        lemma_candidates(content.events@, *state, context.trigger@, context.night, context.dangerous,
            context.location_name@, chance_roll);
        if cands.len() > 0 {
            lemma_total_weight_positive(cands);
            law_weighted_pick_bands(cands, (pick_roll % (total_weight(cands) as u64)) as nat);
            let e = chosen_event(cands, pick_roll);
            assert(content.events@.contains(e));
        }
    }
    let ghost s0 = *state;
    let ghost o0 = outputs.deep_view();
    let fired_any = fire_event(state, context, content, chance_roll, pick_roll, outputs);
    assert(fired(s0, o0, *state, outputs.deep_view(), fired_any, *content, *context, chance_roll, pick_roll));
    fired_any
}

} // verus!
