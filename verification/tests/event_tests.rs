use ashen_chronicle::content::{
    CampaignContent, EventConditionContent, EventContent, EventEffectContent, RegionContent, WorldContent,
};
use ashen_chronicle::events::{
    apply_effect, apply_event, event_is_off_cooldown, fire_event, matches_conditions, render_text, trigger_event,
    weighted_pick, EventContext, EventOutput,
};
use ashen_chronicle::model::{create_new_state, Condition, EventCooldown, Faction, GameState, Item, WorldMode};
use ashen_chronicle::persistence::{upgrade_save, SAVE_FILE_VERSION};

fn test_state() -> GameState {
    create_new_state("Tester", WorldMode::New, "Ash Walker".into(), "the Test Subject".into())
}

fn event(id: &str, weight: u32, effects: Vec<EventEffectContent>) -> EventContent {
    EventContent {
        id: id.to_string(),
        trigger: "travel_arrival".to_string(),
        weight,
        chance_percent: Some(100),
        cooldown_turns: None,
        conditions: None,
        effects,
    }
}

fn campaign_with(events: Vec<EventContent>) -> CampaignContent {
    CampaignContent {
        version: 1,
        world: WorldContent {
            region: RegionContent { id: "r".to_string(), name: "R".to_string(), description: String::new() },
            locations: Vec::new(),
        },
        factions: Vec::new(),
        npcs: Vec::new(),
        quests: Vec::new(),
        encounters: Vec::new(),
        atmospheres: Vec::new(),
        item_visuals: Vec::new(),
        events,
    }
}

fn lines(outputs: &[EventOutput]) -> Vec<String> {
    outputs
        .iter()
        .filter_map(|o| match o {
            EventOutput::Line(text) => Some(text.clone()),
            EventOutput::Pause => None,
        })
        .collect()
}

#[test]
fn night_condition_matches_expected_context() {
    let state = test_state();
    let mut condition = EventConditionContent::default();
    condition.night = Some(true);
    let day = EventContext::for_travel_arrival("Ashen Gate", false, false);
    let night = EventContext::for_travel_arrival("Ashen Gate", false, true);
    assert!(!matches_conditions(Some(&condition), &state, &day));
    assert!(matches_conditions(Some(&condition), &state, &night));
}

#[test]
fn weighted_pick_respects_weight_boundaries() {
    let first = EventContent {
        id: "first".into(),
        trigger: "test".into(),
        weight: 1,
        chance_percent: Some(100),
        cooldown_turns: None,
        conditions: None,
        effects: vec![],
    };
    let second = EventContent {
        id: "second".into(),
        trigger: "test".into(),
        weight: 3,
        chance_percent: Some(100),
        cooldown_turns: None,
        conditions: None,
        effects: vec![],
    };
    let events = vec![&first, &second];
    assert_eq!(weighted_pick(&events, 0).unwrap().id, "first");
    assert_eq!(weighted_pick(&events, 1).unwrap().id, "second");
    assert_eq!(weighted_pick(&events, 3).unwrap().id, "second");
}

#[test]
fn cooldown_blocks_event_until_turn_is_reached() {
    let mut state = test_state();
    state.world.event_cooldowns.push(EventCooldown { event_id: "test.event".into(), ready_at_turn: 3 });
    state.character.turn = 2;
    assert!(!event_is_off_cooldown(&state, "test.event"));
    state.character.turn = 3;
    assert!(event_is_off_cooldown(&state, "test.event"));
}

#[test]
fn weighted_pick_wraps_rolls_and_handles_no_events() {
    let a = event("a", 2, vec![]);
    let b = event("b", 2, vec![]);
    let events = vec![&a, &b];
    assert_eq!(weighted_pick(&events, 4).unwrap().id, "a");
    assert_eq!(weighted_pick(&events, 6).unwrap().id, "b");
    let none: Vec<&EventContent> = Vec::new();
    assert!(weighted_pick(&none, 7).is_none());
}

#[test]
fn conditions_on_location_and_danger() {
    let state = test_state();
    let mut condition = EventConditionContent::default();
    condition.dangerous = Some(true);
    condition.locations = vec!["Old Shrine".to_string()];
    let shrine = EventContext::for_travel_arrival("Old Shrine", true, false);
    let gate = EventContext::for_travel_arrival("Ashen Gate", true, false);
    let safe_shrine = EventContext::for_travel_arrival("Old Shrine", false, false);
    assert!(matches_conditions(Some(&condition), &state, &shrine));
    assert!(!matches_conditions(Some(&condition), &state, &gate));
    assert!(!matches_conditions(Some(&condition), &state, &safe_shrine));
    assert!(matches_conditions(None, &state, &gate));
}

#[test]
fn render_text_fills_in_names() {
    let state = test_state();
    let context = EventContext::for_travel_arrival("Ashen Gate", false, false);
    let text = render_text("{character} reaches {location}.", &state, &context);
    assert_eq!(text, "Ash Walker the the Test Subject reaches Ashen Gate.");
}

#[test]
fn effects_change_health_and_record_history() {
    let mut state = test_state();
    let context = EventContext::for_travel_arrival("Ashen Gate", false, false);
    let mut outputs = Vec::new();
    apply_effect(&mut state, &EventEffectContent::Damage { amount: 4 }, &context, &mut outputs);
    assert_eq!(state.character.hp, 6);
    apply_effect(&mut state, &EventEffectContent::Heal { amount: 10 }, &context, &mut outputs);
    assert_eq!(state.character.hp, 10);
    let before = state.world.history.len();
    apply_effect(&mut state, &EventEffectContent::History { text: "{character} passed.".into() }, &context, &mut outputs);
    assert_eq!(state.world.history.len(), before + 1);
    assert_eq!(state.world.history[before].text, "Ash Walker the the Test Subject passed.");
}

#[test]
fn applying_an_event_starts_its_cooldown() {
    let mut state = test_state();
    state.character.turn = 5;
    let mut e = event("cool.event", 1, vec![EventEffectContent::Message { text: "At {location}.".into() }]);
    e.cooldown_turns = Some(4);
    let context = EventContext::for_travel_arrival("Ashen Gate", false, false);
    let mut outputs = Vec::new();
    apply_event(&mut state, &e, &context, &mut outputs);
    assert_eq!(lines(&outputs), vec!["At Ashen Gate.".to_string()]);
    assert_eq!(state.world.event_cooldowns.len(), 1);
    assert_eq!(state.world.event_cooldowns[0].event_id, "cool.event");
    assert_eq!(state.world.event_cooldowns[0].ready_at_turn, 10);
    assert!(!event_is_off_cooldown(&state, "cool.event"));
}

#[test]
fn fire_event_uses_the_given_rolls() {
    let content = campaign_with(vec![
        event("one", 1, vec![EventEffectContent::Message { text: "one".into() }]),
        event("two", 1, vec![EventEffectContent::Message { text: "two".into() }]),
    ]);
    let context = EventContext::for_travel_arrival("Ashen Gate", false, false);
    let mut state = test_state();
    let mut outputs = Vec::new();
    assert!(fire_event(&mut state, &context, &content, 10, 1, &mut outputs));
    assert_eq!(lines(&outputs), vec!["two".to_string()]);
}

#[test]
fn chance_gate_can_stop_every_event() {
    let mut gated = event("gated", 1, vec![EventEffectContent::Pause]);
    gated.chance_percent = Some(10);
    let content = campaign_with(vec![gated]);
    let context = EventContext::for_travel_arrival("Ashen Gate", false, false);
    let mut state = test_state();
    let mut outputs = Vec::new();
    assert!(!fire_event(&mut state, &context, &content, 50, 0, &mut outputs));
    assert!(outputs.is_empty());
}

#[test]
fn a_certain_event_always_fires_from_the_clock() {
    let content = campaign_with(vec![event("sure", 1, vec![EventEffectContent::Message { text: "Ash falls on {location}.".into() }])]);
    let context = EventContext::for_travel_arrival("Old Shrine", true, true);
    let mut state = test_state();
    let mut outputs = Vec::new();
    assert!(trigger_event(&mut state, &context, &content, &mut outputs));
    assert_eq!(lines(&outputs), vec!["Ash falls on Old Shrine.".to_string()]);
}

#[test]
fn current_saves_load_unchanged_and_unknown_versions_are_refused() {
    let state = test_state();
    let loaded = upgrade_save(SAVE_FILE_VERSION, state).expect("current version");
    assert_eq!(loaded.character.name, "Ash Walker");
    let refused = upgrade_save(9, test_state());
    assert_eq!(refused.err().unwrap(), "Save file version 9 is not supported by this build");
    assert!(upgrade_save(0, test_state()).is_err());
}

#[test]
fn version_one_saves_gain_the_new_systems() {
    let mut state = test_state();
    state.world.day = 0;
    state.world.time_points = 0;
    state.character.level = 0;
    state.character.attributes.might = 0;
    state.character.attributes.insight = 0;
    state.character.attributes.endurance = 0;
    let upgraded = upgrade_save(1, state).expect("version 1 is supported");
    assert_eq!(upgraded.world.day, 1);
    assert_eq!(upgraded.world.time_points, 3);
    assert_eq!(upgraded.character.level, 1);
    assert_eq!(upgraded.character.attributes.might, 1);
}

#[test]
fn an_item_condition_needs_the_item() {
    let mut state = test_state();
    let mut condition = EventConditionContent::default();
    condition.required_item_name = Some("Rusty Key".to_string());
    let context = EventContext::for_travel_arrival("Ashen Gate", false, false);
    assert!(!matches_conditions(Some(&condition), &state, &context));
    state.character.inventory.push(Item { id: 50, name: "Rusty Key".to_string(), description: String::new() });
    assert!(matches_conditions(Some(&condition), &state, &context));
}

#[test]
fn a_condition_on_the_character_needs_it_active() {
    let mut state = test_state();
    let mut condition = EventConditionContent::default();
    condition.required_condition_name = Some("Burned".to_string());
    let context = EventContext::for_travel_arrival("Ashen Gate", false, false);
    assert!(!matches_conditions(Some(&condition), &state, &context));
    state.character.conditions.push(Condition::new("Burned".to_string(), 0, 1));
    assert!(!matches_conditions(Some(&condition), &state, &context));
    state.character.conditions.push(Condition::new("Burned".to_string(), 2, 1));
    assert!(matches_conditions(Some(&condition), &state, &context));
}

#[test]
fn a_reputation_condition_needs_the_faction_in_range() {
    let mut state = test_state();
    let mut condition = EventConditionContent::default();
    condition.faction_name = Some("Cinder Wardens".to_string());
    condition.min_reputation = Some(1);
    condition.max_reputation = Some(5);
    let context = EventContext::for_travel_arrival("Ashen Gate", false, false);
    assert!(!matches_conditions(Some(&condition), &state, &context));
    let mut wardens = Faction::new(60, "Cinder Wardens".to_string());
    state.factions.push(wardens);
    assert!(!matches_conditions(Some(&condition), &state, &context));
    wardens = Faction::new(60, "Cinder Wardens".to_string());
    wardens.reputation = 3;
    state.factions[0] = wardens;
    assert!(matches_conditions(Some(&condition), &state, &context));
    state.factions[0].reputation = 6;
    assert!(!matches_conditions(Some(&condition), &state, &context));
}

#[test]
fn a_prior_event_condition_needs_the_event_to_have_fired() {
    let mut state = test_state();
    let mut condition = EventConditionContent::default();
    condition.prior_event_id = Some("first.event".to_string());
    let context = EventContext::for_travel_arrival("Ashen Gate", false, false);
    assert!(!matches_conditions(Some(&condition), &state, &context));
    let mut outputs = Vec::new();
    apply_event(&mut state, &event("first.event", 1, vec![EventEffectContent::Pause]), &context, &mut outputs);
    assert!(matches_conditions(Some(&condition), &state, &context));
}

#[test]
fn a_fired_event_is_recorded_with_place_and_outcome() {
    let mut state = test_state();
    let before = state.world.history.len();
    let context = EventContext::for_travel_arrival("Old Shrine", true, false);
    let mut outputs = Vec::new();
    apply_event(&mut state, &event("shrine.bite", 1, vec![EventEffectContent::Damage { amount: 3 }]), &context, &mut outputs);
    assert_eq!(state.world.history.len(), before + 1);
    let entry = state.world.history.last().unwrap();
    assert_eq!(entry.text, "shrine.bite happened at Old Shrine.");
    let record = entry.event.as_ref().expect("structured record");
    assert_eq!(record.event_id, "shrine.bite");
    assert_eq!(record.location, "Old Shrine");
    assert_eq!(record.outcome.hp_before, 10);
    assert_eq!(record.outcome.hp_after, 7);
    assert!(record.outcome.alive);
}

#[test]
fn a_cooldown_holds_for_its_turns_then_lifts() {
    let mut state = test_state();
    state.character.turn = 4;
    let mut e = event("slow.event", 1, vec![EventEffectContent::Pause]);
    e.cooldown_turns = Some(2);
    let context = EventContext::for_travel_arrival("Ashen Gate", false, false);
    let mut outputs = Vec::new();
    apply_event(&mut state, &e, &context, &mut outputs);
    for turn in 4..=6 {
        state.character.turn = turn;
        assert!(!event_is_off_cooldown(&state, "slow.event"));
    }
    for turn in 7..=9 {
        state.character.turn = turn;
        assert!(event_is_off_cooldown(&state, "slow.event"));
    }
}
