use classicube_pet_plugin::command::{
    copy_target, find_entity_by_name, model_renders_nothing, parse_pet_command, pick_match,
    stripped_names_match, EntityInfo, PetCommand, BLOCK_AIR, ENTITY_SELF_ID,
};

// -- pick_match ---------------------------------------------------------------

#[test]
fn pick_match_empty() {
    assert_eq!(pick_match(&[]), None);
}

#[test]
fn pick_match_single_renderable() {
    assert_eq!(pick_match(&[(7, false)]), Some(7));
}

#[test]
fn pick_match_single_invisible() {
    assert_eq!(pick_match(&[(3, true)]), Some(3));
}

#[test]
fn pick_match_prefers_renderable_when_first() {
    assert_eq!(pick_match(&[(1, false), (2, true)]), Some(1));
}

#[test]
fn pick_match_prefers_renderable_when_second() {
    assert_eq!(pick_match(&[(1, true), (2, false)]), Some(2));
}

#[test]
fn pick_match_all_invisible_returns_first() {
    assert_eq!(pick_match(&[(5, true), (9, true)]), Some(5));
}

// -- name matching (colour codes already stripped) ------------------------------

#[test]
fn name_matches_case_insensitive_substring() {
    assert!(stripped_names_match("BotAlice", "alice"));
    assert!(stripped_names_match("BotAlice", "ALICE"));
    assert!(stripped_names_match("BotAlice", "Bot"));
}

#[test]
fn name_matches_non_match() {
    assert!(!stripped_names_match("Bob", "alice"));
    assert!(!stripped_names_match("Al", "Alice"));
}

#[test]
fn name_matches_empty_query_matches_all() {
    assert!(stripped_names_match("Anyone", ""));
}

fn entity(id: u8, name: &str, renders_nothing: bool) -> EntityInfo {
    EntityInfo { id, name: name.to_string(), renders_nothing }
}

#[test]
fn find_entity_by_name_prefers_a_renderable_match() {
    let entities = vec![
        entity(0, "Bob", false),
        entity(3, "BotAlice", true),
        entity(7, "Alice", false),
        entity(9, "alice2", false),
    ];
    assert_eq!(find_entity_by_name(&entities, "alice"), Some(7));
    assert_eq!(find_entity_by_name(&entities, "botalice"), Some(3));
    assert_eq!(find_entity_by_name(&entities, "carol"), None);
}

// -- arguments --------------------------------------------------------------------

fn args(a: &[&str]) -> Vec<String> {
    a.iter().map(|s| s.to_string()).collect()
}

#[test]
fn parse_pet_command_subcommands() {
    assert!(matches!(parse_pet_command(&args(&["here"])), PetCommand::Here));
    assert!(matches!(parse_pet_command(&args(&["go"])), PetCommand::Go));
    assert!(matches!(parse_pet_command(&args(&[])), PetCommand::Usage));
    assert!(matches!(parse_pet_command(&args(&["fly"])), PetCommand::Usage));
    assert!(matches!(parse_pet_command(&args(&["Here"])), PetCommand::Usage));
}

#[test]
fn parse_pet_command_copy_joins_and_trims_the_name() {
    match parse_pet_command(&args(&["copy", "Big", "Bob "])) {
        PetCommand::Copy { query: Some(q) } => assert_eq!(q, "Big Bob"),
        _ => panic!("expected a copy with a name"),
    }
    match parse_pet_command(&args(&["copy", " ", ""])) {
        PetCommand::Copy { query: None } => {}
        _ => panic!("expected a copy of the player's own model"),
    }
    match parse_pet_command(&args(&["copy"])) {
        PetCommand::Copy { query: None } => {}
        _ => panic!("expected a copy of the player's own model"),
    }
}

#[test]
fn copy_target_without_a_name_is_the_player() {
    let entities = vec![entity(4, "Dog", false)];
    assert_eq!(copy_target(&None, &entities), Some(ENTITY_SELF_ID));
    assert_eq!(copy_target(&Some("dog".to_string()), &entities), Some(4));
    assert_eq!(copy_target(&Some("cat".to_string()), &entities), None);
}

#[test]
fn only_the_block_model_showing_air_renders_nothing() {
    assert!(model_renders_nothing("block", BLOCK_AIR));
    assert!(!model_renders_nothing("block", 1));
    assert!(!model_renders_nothing("humanoid", BLOCK_AIR));
    assert!(!model_renders_nothing("Block", BLOCK_AIR));
}
