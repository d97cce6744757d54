use ashen_chronicle::content::validation::{filter_valid_events, validate_event_content, validate_unique_ids};
use ashen_chronicle::content::merging::merge_campaign_content;
use ashen_chronicle::content::loading::{mod_load_order, mod_load_plan, ModStep};
use ashen_chronicle::content::{
    CampaignContent, ContentLoadReport, EventConditionContent, EventContent, EventEffectContent, FactionContent,
    LocationAtmosphere, LocationContent, ModManifest, RegionContent, WorldContent, default_mod_content_file,
    default_true,
};
use ashen_chronicle::model::{World, WorldMode};

fn valid_event(id: &str) -> EventContent {
    EventContent {
        id: id.to_string(),
        trigger: "travel_arrival".to_string(),
        weight: 1,
        chance_percent: Some(100),
        cooldown_turns: None,
        conditions: None,
        effects: vec![EventEffectContent::Pause],
    }
}

fn names(items: &[&str]) -> Vec<String> {
    items.iter().map(|s| s.to_string()).collect()
}

fn location(id: &str, name: &str, exits: &[&str]) -> LocationContent {
    LocationContent {
        id: id.to_string(),
        name: name.to_string(),
        description: format!("{name} lies quiet."),
        dangerous: false,
        exits: names(exits),
        scene_art: None,
    }
}

fn small_campaign() -> CampaignContent {
    CampaignContent {
        version: 1,
        world: WorldContent {
            region: RegionContent {
                id: "region.ash".to_string(),
                name: "Ashlands".to_string(),
                description: "Grey and still.".to_string(),
            },
            locations: vec![
                location("loc.gate", "Ashen Gate", &["loc.market"]),
                location("loc.market", "Hollow Market", &["loc.gate"]),
            ],
        },
        factions: vec![FactionContent { id: "faction.wardens".to_string(), name: "Cinder Wardens".to_string() }],
        npcs: Vec::new(),
        quests: Vec::new(),
        encounters: Vec::new(),
        atmospheres: vec![LocationAtmosphere { location_name: "Ashen Gate".to_string(), text: "Wind.".to_string() }],
        item_visuals: Vec::new(),
        events: vec![valid_event("travel.event")],
    }
}

fn manifest(id: &str, priority: i32, enabled: bool) -> ModManifest {
    ModManifest {
        id: id.to_string(),
        name: format!("Mod {id}"),
        version: "0.1.0".to_string(),
        priority,
        enabled,
        content_file: "content.json".to_string(),
    }
}

#[test]
fn invalid_events_are_rejected_and_reported() {
    let mut warnings = Vec::new();
    let locations = names(&["Ashen Gate"]);
    let mut invalid = valid_event("bad.event");
    invalid.weight = 0;
    let mut conditions = EventConditionContent::default();
    conditions.locations = vec!["Unknown Place".to_string()];
    invalid.conditions = Some(conditions);

    let known_ids = names(&["good.event", "bad.event"]);
    let factions = names(&["Cinder Wardens"]);
    let accepted = filter_valid_events(
        vec![valid_event("good.event"), invalid],
        &locations,
        &factions,
        &known_ids,
        &[],
        "test content",
        &mut warnings,
    );

    assert_eq!(accepted.len(), 1);
    assert_eq!(accepted[0].id, "good.event");
    assert_eq!(warnings.len(), 1);
    assert!(warnings[0].contains("bad.event"));
    assert!(warnings[0].contains("zero weight"));
    assert!(warnings[0].contains("unknown location"));
}

#[test]
fn invalid_prior_event_reference_rejects_dependent_content() {
    let mut warnings = Vec::new();
    let locations = names(&["Ashen Gate"]);
    let mut invalid = valid_event("bad.event");
    invalid.weight = 0;
    let mut dependent = valid_event("followup.event");
    let mut conditions = EventConditionContent::default();
    conditions.prior_event_id = Some("bad.event".to_string());
    dependent.conditions = Some(conditions);
    let known_ids = names(&["bad.event", "followup.event"]);
    let factions = names(&["Cinder Wardens"]);
    let accepted = filter_valid_events(
        vec![invalid, dependent],
        &locations,
        &factions,
        &known_ids,
        &[],
        "test content",
        &mut warnings,
    );
    assert!(accepted.is_empty());
    assert!(warnings.iter().any(|warning| warning.contains("bad.event") && warning.contains("zero weight")));
    assert!(warnings
        .iter()
        .any(|warning| warning.contains("followup.event") && warning.contains("was rejected or unavailable")));
}

#[test]
fn prior_event_reference_can_target_existing_content() {
    let mut warnings = Vec::new();
    let locations = names(&["Ashen Gate"]);
    let factions = names(&["Cinder Wardens"]);
    let known_ids = names(&["base.event", "followup.event"]);
    let existing = names(&["base.event"]);
    let mut followup = valid_event("followup.event");
    let mut conditions = EventConditionContent::default();
    conditions.prior_event_id = Some("base.event".into());
    followup.conditions = Some(conditions);
    let accepted = filter_valid_events(
        vec![followup],
        &locations,
        &factions,
        &known_ids,
        &existing,
        "mod content",
        &mut warnings,
    );
    assert_eq!(accepted.len(), 1);
    assert!(warnings.is_empty());
}

#[test]
fn invalid_reputation_condition_is_rejected() {
    let mut warnings = Vec::new();
    let locations = names(&["Ashen Gate"]);
    let factions = names(&["Cinder Wardens"]);
    let known_ids = names(&["rep.event"]);
    let mut invalid = valid_event("rep.event");
    let mut conditions = EventConditionContent::default();
    conditions.min_reputation = Some(10);
    conditions.max_reputation = Some(5);
    invalid.conditions = Some(conditions);
    let accepted = filter_valid_events(
        vec![invalid],
        &locations,
        &factions,
        &known_ids,
        &[],
        "test content",
        &mut warnings,
    );
    assert!(accepted.is_empty());
    assert!(warnings[0].contains("reputation condition requires faction_name"));
}

#[test]
fn unknown_reputation_faction_is_rejected() {
    let mut warnings = Vec::new();
    let locations = names(&["Ashen Gate"]);
    let factions = names(&["Cinder Wardens"]);
    let known_ids = names(&["rep.event"]);
    let mut invalid = valid_event("rep.event");
    let mut conditions = EventConditionContent::default();
    conditions.faction_name = Some("Unknown Faction".into());
    conditions.min_reputation = Some(1);
    invalid.conditions = Some(conditions);
    let accepted = filter_valid_events(
        vec![invalid],
        &locations,
        &factions,
        &known_ids,
        &[],
        "test content",
        &mut warnings,
    );
    assert!(accepted.is_empty());
    assert!(warnings[0].contains("unknown faction"));
}

#[test]
fn duplicate_event_ids_are_rejected_without_overwriting_existing_content() {
    let mut warnings = Vec::new();
    let locations = names(&["Ashen Gate"]);
    let existing = names(&["travel.event"]);

    let known_ids = names(&["travel.event", "new.event"]);
    let factions = names(&["Cinder Wardens"]);
    let accepted = filter_valid_events(
        vec![valid_event("travel.event"), valid_event("new.event")],
        &locations,
        &factions,
        &known_ids,
        &existing,
        "mod content",
        &mut warnings,
    );

    assert_eq!(accepted.len(), 1);
    assert_eq!(accepted[0].id, "new.event");
    assert_eq!(warnings.len(), 1);
    assert!(warnings[0].contains("duplicate event id travel.event"));
}

#[test]
fn event_validation_lists_every_issue() {
    let mut event = valid_event(" ");
    event.trigger = String::new();
    event.weight = 0;
    event.chance_percent = Some(150);
    let issues = validate_event_content(&event, &names(&["Ashen Gate"]), &names(&[]), &names(&[]));
    assert!(issues.iter().any(|issue| issue == "empty id"));
    assert!(issues.iter().any(|issue| issue == "empty trigger"));
    assert!(issues.iter().any(|issue| issue == "zero weight"));
    assert!(issues.iter().any(|issue| issue == "invalid chance 150"));
}

#[test]
fn a_valid_event_has_no_issues() {
    let issues = validate_event_content(&valid_event("ok.event"), &names(&["Ashen Gate"]), &names(&[]), &names(&["ok.event"]));
    assert!(issues.is_empty());
}

#[test]
fn duplicate_ids_are_reported_once_per_repeat() {
    let mut issues = vec!["earlier".to_string()];
    validate_unique_ids("location", &names(&["a", "b", "a", "a"]), &mut issues);
    assert_eq!(issues, vec!["earlier", "duplicate location id a", "duplicate location id a"]);
}

#[test]
fn campaign_with_sound_references_validates_cleanly() {
    let content = small_campaign();
    assert!(content.validate().is_empty());
}

#[test]
fn campaign_validation_reports_broken_exits_and_duplicates() {
    let mut content = small_campaign();
    content.world.locations.push(location("loc.gate", "Old Shrine", &["loc.nowhere"]));
    let issues = content.validate();
    assert!(issues.iter().any(|issue| issue.contains("duplicate location id loc.gate")));
    assert!(issues.iter().any(|issue| issue.contains("loc.nowhere")));
}

#[test]
fn lookups_find_content_by_location_name() {
    let content = small_campaign();
    assert_eq!(content.atmosphere_for("Ashen Gate"), Some("Wind."));
    assert_eq!(content.atmosphere_for("Hollow Market"), None);
    assert!(content.encounter_for("Ashen Gate").is_none());
    assert_eq!(content.location_art_for("Ashen Gate"), None);
}

#[test]
fn seeding_a_seeded_world_adds_no_locations() {
    let content = small_campaign();
    let mut world = World::new("Seeded", WorldMode::New);
    let before = world.locations.len();
    content.seed_world(&mut world);
    let after_first = world.locations.len();
    // "Ashen Gate" and "Hollow Market" are already part of the starting world.
    assert_eq!(after_first, before);
    let exits_first: Vec<Vec<u64>> = world.locations.iter().map(|l| l.exits.clone()).collect();
    let region_first = world.regions[0].location_ids.clone();
    let next_first = world.next_id;
    content.seed_world(&mut world);
    assert_eq!(world.locations.len(), after_first);
    let exits_second: Vec<Vec<u64>> = world.locations.iter().map(|l| l.exits.clone()).collect();
    assert_eq!(exits_second, exits_first);
    assert_eq!(world.regions[0].location_ids, region_first);
    assert_eq!(world.next_id, next_first);
}

#[test]
fn seeding_adds_missing_locations_and_resolves_exits() {
    let mut content = small_campaign();
    content.world.locations.push(location("loc.pit", "Ember Pit", &["loc.gate"]));
    let mut world = World::new("Seeded", WorldMode::New);
    let before = world.locations.len();
    content.seed_world(&mut world);
    assert_eq!(world.locations.len(), before + 1);
    let pit = world.location_by_name("Ember Pit").expect("seeded location");
    let gate = world.location_by_name("Ashen Gate").expect("starting location");
    assert_eq!(pit.exits, vec![gate.id]);
    assert!(world.regions[0].location_ids.contains(&pit.id));
}

#[test]
fn merging_replaces_by_key_and_keeps_existing_events() {
    let mut base = small_campaign();
    let mut incoming = small_campaign();
    incoming.world.locations = vec![location("loc.gate", "Ashen Gate", &["loc.pit"]), location("loc.pit", "Ember Pit", &[])];
    incoming.events = vec![valid_event("travel.event"), valid_event("mod.event")];
    let mut warnings = Vec::new();
    merge_campaign_content(&mut base, incoming, &mut warnings);
    let ids: Vec<&str> = base.world.locations.iter().map(|l| l.id.as_str()).collect();
    assert_eq!(ids, vec!["loc.gate", "loc.market", "loc.pit"]);
    assert_eq!(base.world.locations[0].exits, vec!["loc.pit".to_string()]);
    let event_ids: Vec<&str> = base.events.iter().map(|e| e.id.as_str()).collect();
    assert_eq!(event_ids, vec!["travel.event", "mod.event"]);
    assert!(warnings.iter().any(|w| w.contains("duplicate event id travel.event")));
}

#[test]
fn mods_load_by_priority_then_id() {
    let manifests = vec![manifest("b.mod", 1, true), manifest("a.mod", 1, true), manifest("z.mod", 0, true)];
    assert_eq!(mod_load_order(&manifests), vec![2, 1, 0]);
}

#[test]
fn mod_plan_skips_disabled_and_duplicate_mods() {
    let manifests = vec![
        manifest("a.mod", 0, true),
        manifest("off.mod", 0, false),
        manifest("a.mod", 1, true),
        manifest("b.mod", 2, true),
    ];
    let plan = mod_load_plan(&manifests);
    assert_eq!(plan, vec![ModStep::Load(0), ModStep::SkipDuplicate(2), ModStep::Load(3)]);
}

#[test]
fn load_report_records_mods_and_warnings() {
    let mut report = ContentLoadReport::from_base(small_campaign());
    assert!(report.warnings.is_empty());
    report.skip_duplicate_mod("a.mod");
    report.record_mod_failure("b.mod", "Bells", "mods/bells", "no such file");
    assert_eq!(report.warnings[0], "skipping duplicate mod id a.mod");
    assert_eq!(report.warnings[1], "could not load mod b.mod (Bells) from mods/bells: no such file");
    report.add_mod(manifest("c.mod", 0, true), small_campaign());
    assert_eq!(report.loaded_mods.len(), 1);
    report.finish();
    assert_eq!(report.content.events.len(), 1);
}

#[test]
fn with_content_starts_an_empty_report() {
    let report = ContentLoadReport::with_content(small_campaign());
    assert!(report.loaded_mods.is_empty());
    assert!(report.warnings.is_empty());
    assert_eq!(report.content.world.locations.len(), 2);
}

#[test]
fn manifest_defaults() {
    assert!(default_true());
    assert_eq!(default_mod_content_file(), "content.json");
}
