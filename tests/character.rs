use omnibot::character::{Character, CharacterKind};
use omnibot::command::{get_noun, parse_noun_target_stats_command, parse_stat_assignment, split_words, ParseError};

#[test]
fn test_parse_nts_commands() {
    let mut parsed = parse_noun_target_stats_command("Player Plunk HP:40").unwrap();
    assert_eq!(parsed.noun, "Player");
    assert_eq!(parsed.target, "Plunk");
    assert_eq!(parsed.stats.len(), 1);
    assert_eq!(parsed.stats[0].display_on_tracker, false);
    assert_eq!(parsed.stats[0].name(), "hp");
    assert_eq!(parsed.stats[0].display_name, "HP");
    assert_eq!(parsed.stats[0].value, "40");

    parsed = parse_noun_target_stats_command("enemy Boss !HP:9000").unwrap();
    assert_eq!(parsed.noun, "enemy");
    assert_eq!(parsed.target, "Boss");
    assert_eq!(parsed.stats.len(), 1);
    assert_eq!(parsed.stats[0].display_on_tracker, true);
    assert_eq!(parsed.stats[0].name(), "hp");
    assert_eq!(parsed.stats[0].display_name, "HP");
    assert_eq!(parsed.stats[0].value, "9000");

    parsed = parse_noun_target_stats_command("stat Plunk !FP:2/3").unwrap();
    assert_eq!(parsed.noun, "stat");
    assert_eq!(parsed.target, "Plunk");
    assert_eq!(parsed.stats.len(), 1);
    assert_eq!(parsed.stats[0].display_on_tracker, true);
    assert_eq!(parsed.stats[0].name(), "fp");
    assert_eq!(parsed.stats[0].display_name, "FP");
    assert_eq!(parsed.stats[0].value, "2");
    assert_eq!(parsed.stats[0].maximum_value, Some(String::from("3")));
}

#[test]
fn noun_parser() {
    assert_eq!(get_noun("player Plunk HP:30").unwrap(), "player");
    assert_eq!(get_noun("enemy \"War Boss\"").unwrap(), "enemy");
}

#[test]
fn noun_is_the_first_word() {
    assert_eq!(get_noun("player Plunk HP:30").unwrap(), "player");
    assert_eq!(get_noun("  \"War Boss\" enemy").unwrap(), "War Boss");
    assert_eq!(get_noun("   "), Err(ParseError::NoNoun));
}

#[test]
fn quoted_words_keep_their_spaces() {
    assert_eq!(split_words("enemy \"War Boss\"  HP:5"), vec!["enemy", "War Boss", "HP:5"]);
    assert_eq!(split_words("a \"open"), vec!["a", "open"]);
    assert!(split_words("").is_empty());
}

#[test]
fn stat_assignment_shapes() {
    let s = parse_stat_assignment("Reflex:=1d20+DEX").unwrap();
    assert_eq!(s.display_name, "Reflex");
    assert_eq!(s.value, "=1d20+DEX");
    assert!(s.is_dynamic());
    assert_eq!(s.maximum_value, None);
    let s = parse_stat_assignment("HP:35/35").unwrap();
    assert!(!s.is_dynamic());
    assert_eq!(s.maximum_value, Some(String::from("35")));
    assert_eq!(s.name(), "hp");
}

#[test]
fn parse_errors() {
    assert!(matches!(parse_stat_assignment("HP35"), Err(ParseError::MissingColon)));
    assert!(matches!(parse_stat_assignment("!:5"), Err(ParseError::EmptyStatName)));
    assert!(matches!(parse_noun_target_stats_command(""), Err(ParseError::NoNoun)));
    assert!(matches!(parse_noun_target_stats_command("player"), Err(ParseError::NoTarget)));
    assert!(matches!(parse_noun_target_stats_command("player Plunk HP"), Err(ParseError::MissingColon)));
    assert!(ParseError::NoTarget.message().starts_with("Failed to parse command."));
    assert!(ParseError::MissingColon.message().ends_with("For more help, consult `!help add`."));
}

#[test]
fn add_stat_appends_and_keeps_on_error() {
    let mut c = Character::new(CharacterKind::Player, String::from("Plunk"), 7);
    assert!(c.add_stat("stat Plunk HP:35/35 Level:5").is_ok());
    assert_eq!(c.stats.len(), 2);
    assert_eq!(c.stats[1].display_name, "Level");
    assert!(c.add_stat("stat Plunk Broken").is_err());
    assert_eq!(c.stats.len(), 2);
}
