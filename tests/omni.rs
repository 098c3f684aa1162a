use omnibot::character::CharacterKind;
use omnibot::dispatch::{add_character, parse_verb, handle_command, CommandError, ReplyKind, Verb};
use omnibot::omni::{Omnidata, OMNI_VERSION};

#[test]
fn new_omnidata() {
    let omnidata = Omnidata::new();
    assert_eq!(omnidata.version, OMNI_VERSION);
}

#[test]
fn dirty_omnidata() {
    let mut omnidata = Omnidata::new();
    assert_eq!(omnidata.is_dirty, false);
    omnidata.dirty();
    assert_eq!(omnidata.is_dirty, true);
}

#[test]
fn add_player_scenario() {
    let mut doc = Omnidata::new();
    let out = handle_command(&mut doc, "add", "player Plunk HP:35/35", 42);
    assert_eq!(out.reply.kind, ReplyKind::Success);
    assert_eq!(out.reply.text, "Added new character named Plunk");
    assert!(out.persist);
    assert_eq!(doc.characters.len(), 1);
    let c = &doc.characters[0];
    assert_eq!(c.kind, CharacterKind::Player);
    assert_eq!(c.name, "Plunk");
    assert_eq!(c.owner, 42);
    assert_eq!(c.stats.len(), 1);
    assert_eq!(c.stats[0].name(), "hp");
    assert_eq!(c.stats[0].value, "35");
    assert_eq!(c.stats[0].maximum_value, Some(String::from("35")));
    assert!(!c.stats[0].is_dynamic());
}

#[test]
fn roll_scenario_changes_nothing() {
    let mut doc = Omnidata::new();
    let out = handle_command(&mut doc, "roll", "3d6+5", 42);
    assert_eq!(out.reply.kind, ReplyKind::Success);
    assert!(!out.persist);
    assert!(doc.characters.is_empty());
    let text = out.reply.text;
    assert!(text.starts_with("```\n3d6+5 = "));
    let total = text.trim_end_matches("```").rsplit(" = ").next().unwrap().to_string();
    let n: i64 = total.parse().unwrap();
    assert!(n >= 8 && n <= 23);
}

#[test]
fn roll_outside_plain_notation_is_refused() {
    let mut doc = Omnidata::new();
    let out = handle_command(&mut doc, "roll", "1d0", 1);
    assert_eq!(out.reply.kind, ReplyKind::UserError);
    assert!(!out.persist);
}

#[test]
fn failed_commands_write_nothing() {
    let mut doc = Omnidata::new();
    let out = handle_command(&mut doc, "add", "dragon Smaug", 1);
    assert_eq!(out.reply.kind, ReplyKind::UserError);
    assert_eq!(out.reply.text, "Sorry, I don't know how to add a 'dragon'. For more help, consult `!help add`.");
    assert!(!out.persist);
    let out = handle_command(&mut doc, "dance", "", 1);
    assert_eq!(out.reply.kind, ReplyKind::UserError);
    assert!(!out.persist);
    let out = handle_command(&mut doc, "add", "", 1);
    assert_eq!(out.reply.kind, ReplyKind::UserError);
    assert_eq!(
        out.reply.text,
        "Failed to parse command. Remember the add command should follow the verb-noun-target syntax. For more help, consult `!help add`."
    );
    let out = handle_command(&mut doc, "add", "goblin Bob", 1);
    assert_eq!(out.reply.text, "Sorry, I don't know how to add a 'goblin'. For more help, consult `!help add`.");
    assert!(doc.characters.is_empty());
}

#[test]
fn second_command_sees_first() {
    let mut doc = Omnidata::new();
    handle_command(&mut doc, "add", "enemy Boss", 1);
    doc.mark_saved();
    let out = handle_command(&mut doc, "add", "stat Boss !HP:9000", 1);
    assert_eq!(out.reply.kind, ReplyKind::Success);
    assert!(out.persist);
    assert_eq!(doc.characters[0].kind, CharacterKind::Npc);
    assert_eq!(doc.characters[0].stats[0].value, "9000");
    let out = handle_command(&mut doc, "add", "stat Nobody HP:1", 1);
    assert_eq!(out.reply.kind, ReplyKind::UserError);
    assert_eq!(out.reply.text, "Could not find a character named 'Nobody'.");
}

#[test]
fn add_character_errors() {
    let mut doc = Omnidata::new();
    assert!(matches!(add_character(&mut doc, "player", 1), Err(CommandError::Parse(_))));
    match add_character(&mut doc, "stat Plunk", 1) {
        Err(CommandError::UnknownNoun(n)) => assert_eq!(n, "stat"),
        _ => panic!("expected an unknown noun"),
    }
    assert!(doc.characters.is_empty());
    assert!(!doc.is_dirty);
}

#[test]
fn duplicate_names_find_the_first() {
    let mut doc = Omnidata::new();
    doc.add_character(CharacterKind::Player, String::from("Twin"), 1);
    doc.add_character(CharacterKind::Npc, String::from("Twin"), 2);
    assert_eq!(doc.find_character("Twin").unwrap().owner, 1);
    assert_eq!(doc.find_character_index("Twin"), Some(0));
    assert!(doc.find_character("twin").is_none());
}

#[test]
fn loaded_documents_are_clean() {
    let mut doc = Omnidata::new();
    doc.add_character(CharacterKind::Player, String::from("Plunk"), 1);
    let loaded = Omnidata::loaded(doc.version, doc.characters);
    assert!(!loaded.is_dirty);
    assert_eq!(loaded.characters[0].name, "Plunk");
}

#[test]
fn verbs() {
    assert_eq!(parse_verb("add"), Some(Verb::Add));
    assert_eq!(parse_verb("roll"), Some(Verb::Roll));
    assert_eq!(parse_verb("set"), Some(Verb::SetStat));
    assert_eq!(parse_verb("remove"), Some(Verb::Remove));
    assert_eq!(parse_verb("Add"), None);
}

#[test]
fn set_stat_clamps_and_keeps_maximum() {
    let mut doc = Omnidata::new();
    handle_command(&mut doc, "add", "player Plunk HP:35/35 Level:1", 1);
    doc.mark_saved();
    let out = handle_command(&mut doc, "set", "stat Plunk HP:20", 1);
    assert_eq!(out.reply.kind, ReplyKind::Success);
    assert!(out.persist);
    let hp = &doc.characters[0].stats[0];
    assert_eq!(hp.value, "20");
    assert_eq!(hp.maximum_value, Some(String::from("35")));
    handle_command(&mut doc, "set", "stat Plunk HP:50", 1);
    assert_eq!(doc.characters[0].stats[0].value, "35");
    handle_command(&mut doc, "set", "stat Plunk HP:-4", 1);
    assert_eq!(doc.characters[0].stats[0].value, "0");
    handle_command(&mut doc, "set", "stat Plunk HP:30/40 Level:5", 1);
    assert_eq!(doc.characters[0].stats[0].value, "30");
    assert_eq!(doc.characters[0].stats[0].maximum_value, Some(String::from("40")));
    assert_eq!(doc.characters[0].stats[1].value, "5");
    assert_eq!(doc.characters[0].stats[1].maximum_value, None);
}

#[test]
fn set_of_a_missing_stat_changes_nothing() {
    let mut doc = Omnidata::new();
    handle_command(&mut doc, "add", "player Plunk HP:35/35", 1);
    doc.mark_saved();
    let out = handle_command(&mut doc, "set", "stat Plunk HP:10 MP:3", 1);
    assert_eq!(out.reply.kind, ReplyKind::UserError);
    assert!(!out.persist);
    assert_eq!(doc.characters[0].stats[0].value, "35");
    let out = handle_command(&mut doc, "set", "player Plunk HP:10", 1);
    assert_eq!(out.reply.kind, ReplyKind::UserError);
    let out = handle_command(&mut doc, "set", "stat Nobody HP:10", 1);
    assert_eq!(out.reply.kind, ReplyKind::UserError);
}

#[test]
fn remove_takes_the_first_of_that_name() {
    let mut doc = Omnidata::new();
    handle_command(&mut doc, "add", "enemy Goblin", 1);
    handle_command(&mut doc, "add", "enemy Goblin HP:7", 2);
    doc.mark_saved();
    let out = handle_command(&mut doc, "remove", "enemy Goblin", 1);
    assert_eq!(out.reply.kind, ReplyKind::Success);
    assert_eq!(out.reply.text, "Removed the character named Goblin.");
    assert!(out.persist);
    assert_eq!(doc.characters.len(), 1);
    assert_eq!(doc.characters[0].owner, 2);
    let out = handle_command(&mut doc, "remove", "enemy Orc", 1);
    assert_eq!(out.reply.kind, ReplyKind::UserError);
    let out = handle_command(&mut doc, "remove", "stat Goblin", 1);
    assert_eq!(out.reply.kind, ReplyKind::UserError);
    assert_eq!(doc.characters.len(), 1);
}

#[test]
fn set_clamps_to_a_formula_maximum() {
    let mut doc = Omnidata::new();
    handle_command(&mut doc, "add", "player Plunk Con:5 HP:10/=Con*2", 1);
    doc.mark_saved();
    let out = handle_command(&mut doc, "set", "stat Plunk HP:50", 1);
    assert_eq!(out.reply.kind, ReplyKind::Success);
    assert_eq!(doc.characters[0].stats[1].value, "10");
    assert_eq!(doc.characters[0].stats[1].maximum_value, Some(String::from("=Con*2")));
    handle_command(&mut doc, "set", "stat Plunk HP:7", 1);
    assert_eq!(doc.characters[0].stats[1].value, "7");
}
