use ashen_chronicle::model::{create_new_state, Corpse, Faction, Item, WorldMode};
use ashen_chronicle::screens::{
    create_from_prompts, create_inherited_from_world, death_choice, death_legacy_lines, death_menu_options,
    load_warning_text, pick_variant, quit_choice, start_choice, start_menu_options, DeathChoice, StartChoice,
};

#[test]
fn load_is_offered_only_with_saves() {
    assert_eq!(start_menu_options(true), vec!["New Game", "Load Game", "Quit"]);
    assert_eq!(start_menu_options(false), vec!["New Game", "Quit"]);
    assert_eq!(start_choice(true, 1), Some(StartChoice::LoadGame));
    assert_eq!(start_choice(false, 1), Some(StartChoice::Quit));
    assert_eq!(start_choice(false, 2), None);
    assert_eq!(start_choice(true, 0), Some(StartChoice::NewGame));
}

#[test]
fn empty_answers_take_the_defaults() {
    let state = create_from_prompts(WorldMode::New, String::new(), String::new(), String::new());
    assert_eq!(state.world.name, "The Ashen Crown");
    assert_eq!(state.character.name, "Wanderer");
    assert_eq!(state.character.title, "Ash Walker");
    let named = create_from_prompts(WorldMode::New, "Greyhold".into(), "Mara".into(), "Ember Knight".into());
    assert_eq!(named.world.name, "Greyhold");
    assert_eq!(named.character.name, "Mara");
    assert_eq!(named.character.title, "Ember Knight");
    let inherited_mode = create_from_prompts(WorldMode::Inherited, "Ignored".into(), "Mara".into(), String::new());
    assert_eq!(inherited_mode.world.name, "The Ashen Crown");
}

#[test]
fn an_heir_inherits_the_world() {
    let first = create_from_prompts(WorldMode::New, "Greyhold".into(), "Mara".into(), String::new());
    let heir = create_inherited_from_world(&first, String::new(), String::new());
    assert_eq!(heir.world.name, "Greyhold");
    assert_eq!(heir.world.mode, WorldMode::Inherited);
    assert_eq!(heir.character.name, "Heir");
    assert_eq!(heir.character.title, "Ash Walker");
    assert_eq!(heir.world.history.len(), first.world.history.len() + 1);
    assert_eq!(heir.world.history.last().unwrap().text, "Heir the Ash Walker inherited the world.");
}

#[test]
fn leaving_and_death_menus() {
    assert!(quit_choice(Some(0)));
    assert!(!quit_choice(Some(1)));
    assert!(!quit_choice(None));
    assert_eq!(death_menu_options(), vec!["Create a new world", "Inherit this world with a new character", "Quit"]);
    assert_eq!(death_choice(Some(0)), DeathChoice::NewWorld);
    assert_eq!(death_choice(Some(1)), DeathChoice::InheritWorld);
    assert_eq!(death_choice(Some(2)), DeathChoice::Quit);
    assert_eq!(death_choice(None), DeathChoice::Nothing);
}

#[test]
fn variants_and_warnings() {
    assert_eq!(pick_variant(17, 4), 1);
    assert_eq!(pick_variant(0, 9), 0);
    assert_eq!(
        load_warning_text(2),
        "Save loaded with 2 warning(s). The game will continue, but the save should be reviewed."
    );
}

#[test]
fn a_death_with_nothing_recorded() {
    let state = create_new_state("Greyhold", WorldMode::New, "Mara".into(), "Ash Walker".into());
    let lines = death_legacy_lines(&state, "ART", "The road remembers.");
    assert_eq!(
        lines,
        vec![
            "\nART",
            "The road remembers.",
            "\nMara the Ash Walker died at Ashen Gate on turn 0.",
            "\nDeeds remembered:",
            "  None recorded.",
            "\nFaction standing at death:",
            "  None recorded.",
            "\nWhat remains on the body:",
            "  Nothing worth carrying.",
            "\nThe next life will know none of this as memory. It can only be discovered.",
        ]
    );
}

#[test]
fn a_death_with_deeds_factions_and_belongings() {
    let mut state = create_new_state("Greyhold", WorldMode::New, "Mara".into(), "Ash Walker".into());
    state.character.turn = 12;
    state.character.location_id = 999;
    for i in 0..7 {
        state.world.record_history(i, format!("Mara the Ash Walker completed task {i}."));
    }
    state.world.record_history(8, "Someone else completed a task.".to_string());
    let mut wardens = Faction::new(20, "Cinder Wardens".to_string());
    wardens.reputation = 3;
    let mut ravens = Faction::new(21, "Ash Ravens".to_string());
    ravens.reputation = -2;
    state.factions = vec![wardens, ravens];
    state.corpses.push(Corpse {
        id: 30,
        former_name: "Mara".to_string(),
        former_title: "Ash Walker".to_string(),
        location_id: 3,
        turn_of_death: 12,
        inventory: vec![
            Item { id: 31, name: "Rusty Key".to_string(), description: String::new() },
            Item { id: 32, name: "Ash Charm".to_string(), description: String::new() },
        ],
        epitaph: String::new(),
        scavenged: false,
    });
    let lines = death_legacy_lines(&state, "ART", "Gone.");
    assert_eq!(lines[2], "\nMara the Ash Walker died at an unknown place on turn 12.");
    assert_eq!(lines[4], "  - Mara the Ash Walker completed task 0.");
    assert_eq!(lines[8], "  - Mara the Ash Walker completed task 4.");
    assert_eq!(lines[9], "\nFaction standing at death:");
    assert_eq!(lines[10], "  - Cinder Wardens +3");
    assert_eq!(lines[11], "  - Ash Ravens -2");
    assert_eq!(lines[13], "  Rusty Key, Ash Charm");
    assert_eq!(lines.len(), 15);
}
