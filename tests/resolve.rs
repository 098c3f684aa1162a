use omnibot::character::{Character, CharacterKind};
use omnibot::dispatch::{handle_command, ReplyKind};
use omnibot::omni::Omnidata;
use omnibot::resolve::{parse_integer, resolve_stat, stat_keys, substitute, ResolutionError, ResolvedValue};

fn character_with(arguments: &str) -> Character {
    let mut c = Character::new(CharacterKind::Player, String::from("Frank"), 1);
    c.add_stat(arguments).unwrap();
    c
}

#[test]
fn static_stat_resolves_to_its_number() {
    let c = character_with("stat Frank HP:35");
    assert!(matches!(resolve_stat(&c, "hp"), Ok(ResolvedValue::Number(35))));
    assert!(matches!(resolve_stat(&c, "HP"), Ok(ResolvedValue::Number(35))));
}

#[test]
fn static_text_stays_text() {
    let c = character_with("stat Frank Class:Wizard");
    match resolve_stat(&c, "class") {
        Ok(ResolvedValue::Text(t)) => assert_eq!(t, "Wizard"),
        _ => panic!("expected text"),
    }
}

#[test]
fn dynamic_stat_substitutes_references() {
    let c = character_with("stat Frank Reflex:=1d20+DEX DEX:16");
    match resolve_stat(&c, "reflex") {
        Ok(ResolvedValue::Number(n)) => assert!(n >= 17 && n <= 36),
        _ => panic!("expected a number"),
    }
    let keys = stat_keys(&c.stats);
    let values = vec![None, Some(String::from("16"))];
    assert_eq!(substitute("=1d20+DEX", &keys, &values), "1d20+16");
    assert_eq!(substitute("=1d20+dexterity", &keys, &values), "1d20+dexterity");
}

#[test]
fn nested_dynamic_stats_resolve() {
    let c = character_with("stat Frank Attack:=Bonus+1 Bonus:=1d4 Str:3");
    match resolve_stat(&c, "attack") {
        Ok(ResolvedValue::Number(n)) => assert!(n >= 2 && n <= 5),
        _ => panic!("expected a number"),
    }
}

#[test]
fn cyclic_stats_fail() {
    let c = character_with("stat Frank A:=B B:=A");
    assert!(matches!(resolve_stat(&c, "a"), Err(ResolutionError::CyclicReference)));
    assert!(matches!(resolve_stat(&c, "b"), Err(ResolutionError::CyclicReference)));
    let c = character_with("stat Frank Self:=1+self");
    assert!(matches!(resolve_stat(&c, "self"), Err(ResolutionError::CyclicReference)));
}

#[test]
fn resolution_errors() {
    let c = character_with("stat Frank HP:35 Odd:=1d20+Class Class:Wizard");
    assert!(matches!(resolve_stat(&c, "mp"), Err(ResolutionError::UnknownStat)));
    match resolve_stat(&c, "odd") {
        Err(ResolutionError::Unrollable(e)) => assert_eq!(e, "1d20+Wizard"),
        _ => panic!("expected an unrollable formula"),
    }
    let c = character_with("stat Frank Bad:=1d6+");
    assert!(matches!(resolve_stat(&c, "bad"), Err(ResolutionError::Evaluator(_))));
}

#[test]
fn integers_read_back() {
    assert_eq!(parse_integer("35"), Some(35));
    assert_eq!(parse_integer("-12"), Some(-12));
    assert_eq!(parse_integer("9223372036854775807"), Some(i64::MAX));
    assert_eq!(parse_integer("9223372036854775808"), None);
    assert_eq!(parse_integer("-"), None);
    assert_eq!(parse_integer(""), None);
    assert_eq!(parse_integer("3a"), None);
}

#[test]
fn roll_of_a_stat_names_its_value() {
    let mut doc = Omnidata::new();
    handle_command(&mut doc, "add", "player Plunk HP:35/35", 1);
    doc.mark_saved();
    let out = handle_command(&mut doc, "roll", "stat Plunk hp", 1);
    assert_eq!(out.reply.kind, ReplyKind::Success);
    assert_eq!(out.reply.text, "Plunk's hp: 35");
    assert!(!out.persist);
    let out = handle_command(&mut doc, "roll", "stat Nobody hp", 1);
    assert_eq!(out.reply.kind, ReplyKind::UserError);
}

#[test]
fn cyclic_roll_reply_names_the_stat() {
    let mut doc = Omnidata::new();
    handle_command(&mut doc, "add", "player Frank A:=B B:=A", 1);
    doc.mark_saved();
    let out = handle_command(&mut doc, "roll", "stat Frank a", 1);
    assert_eq!(out.reply.kind, ReplyKind::UserError);
    assert_eq!(out.reply.text, "The stat 'a' refers back to itself through its formula.");
    assert!(!out.persist);
    let out = handle_command(&mut doc, "roll", "stat Frank mp", 1);
    assert_eq!(out.reply.text, "That character has no stat named 'mp'.");
}

#[test]
fn dynamic_roll_reply_is_a_number() {
    let mut doc = Omnidata::new();
    handle_command(&mut doc, "add", "player Frank Reflex:=1d20+DEX DEX:16", 1);
    let out = handle_command(&mut doc, "roll", "stat Frank reflex", 1);
    assert_eq!(out.reply.kind, ReplyKind::Success);
    let n: i64 = out.reply.text.strip_prefix("Frank's reflex: ").unwrap().parse().unwrap();
    assert!(n >= 17 && n <= 36);
}
