use ashen_chronicle::model::{
    create_inherited_state, create_new_state, Character, EventCooldown, Faction, Npc, Quest, ThreatState, World,
    WorldMode,
};

#[test]
fn a_new_world_has_its_starting_layout() {
    let world = World::new("Greyhold", WorldMode::New);
    assert_eq!(world.name, "Greyhold");
    assert_eq!(world.regions.len(), 1);
    assert_eq!(world.locations.len(), 8);
    assert_eq!(world.locations[0].name, "Ashen Gate");
    assert_eq!(world.location_by_id(5).unwrap().name, "Old Shrine");
    assert!(world.location_is_dangerous(5));
    assert!(!world.location_is_dangerous(3));
    assert!(!world.location_is_dangerous(999));
    assert!(world.location_by_id(999).is_none());
    assert_eq!(world.region_by_id(2).unwrap().location_ids.len(), 8);
    assert!(world.region_by_id(3).is_none());
    assert_eq!(world.history.len(), 1);
}

#[test]
fn ids_are_handed_out_in_order() {
    let mut world = World::new("Greyhold", WorldMode::New);
    let first = world.allocate_id();
    let second = world.allocate_id();
    assert_eq!(second, first + 1);
    world.record_history(4, "A bell rang.".to_string());
    assert_eq!(world.history.last().unwrap().id, second + 1);
    assert_eq!(world.history.last().unwrap().turn, 4);
}

#[test]
fn locations_can_be_changed_in_place() {
    let mut world = World::new("Greyhold", WorldMode::New);
    world.location_by_id_mut(4).unwrap().dangerous = true;
    assert!(world.location_is_dangerous(4));
    assert!(world.location_by_id_mut(1000).is_none());
}

#[test]
fn characters_heal_up_to_their_maximum() {
    let mut c = Character::new(1, "Mara".to_string(), "Ash Walker".to_string(), 3);
    assert_eq!(c.display_name(), "Mara the Ash Walker");
    c.hp = 4;
    c.heal(3);
    assert_eq!(c.hp, 7);
    c.heal(100);
    assert_eq!(c.hp, 10);
}

#[test]
fn people_and_tasks_start_fresh() {
    let npc = Npc::new(5, "Edda".to_string(), "Keeper".to_string(), 3, None);
    assert_eq!(npc.display_name(), "Edda the Keeper");
    let faction = Faction::new(6, "Cinder Wardens".to_string());
    assert_eq!(faction.reputation, 0);
    let quest = Quest::new(7, "Lost Bell".to_string(), "Find it.".to_string(), 4, 6, 5, "Bell".to_string());
    assert!(!quest.offered && !quest.completed && !quest.reward_claimed);
    assert!(quest.completed_by.is_none());
}

#[test]
fn threats_rise_and_clear() {
    let mut threat = ThreatState::default();
    assert!(!threat.active);
    threat.activate(5, "Shade".to_string(), "A shade walks.".to_string());
    assert!(threat.active);
    assert_eq!(threat.source_location_id, Some(5));
    threat.clear();
    assert!(!threat.active);
    assert!(threat.source_location_id.is_none());
    assert!(threat.label.is_empty());
}

#[test]
fn a_new_game_starts_at_the_gate() {
    let state = create_new_state("Greyhold", WorldMode::New, "Mara".to_string(), "Ash Walker".to_string());
    assert_eq!(state.character.location_id, 3);
    assert_eq!(state.world.history[1].text, "Mara the Ash Walker entered the world.");
    let spawned = World::new("Other", WorldMode::New).spawn_character("Ilse".to_string(), "Scout".to_string());
    assert_eq!(spawned.location_id, 3);
}

#[test]
fn cooldowns_and_corpses_carry_over_to_an_heir() {
    let mut state = create_new_state("Greyhold", WorldMode::New, "Mara".to_string(), "Ash Walker".to_string());
    state.world.event_cooldowns.push(EventCooldown { event_id: "travel.ruined-road".to_string(), ready_at_turn: 11 });
    state.threat.activate(4, "Shade".to_string(), String::new());
    let heir = create_inherited_state(&state, "Ilse".to_string(), "Scout".to_string());
    assert_eq!(heir.world.event_cooldowns.len(), 1);
    assert_eq!(heir.world.event_cooldowns[0].event_id, "travel.ruined-road");
    assert_eq!(heir.world.event_cooldowns[0].ready_at_turn, 11);
    assert!(!heir.threat.active);
    assert_eq!(heir.world.mode, WorldMode::Inherited);
    assert_eq!(heir.character.name, "Ilse");
}
