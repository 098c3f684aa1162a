use omnibot::command_words::{all_words, generate_generic_help_message, handle_help_command, HelpReply};

#[test]
fn embed_header_sizes() {
    // Discord prohibits embed titles from being larger than 256 chars
    for words_array in all_words().iter() {
        for word in words_array.iter() {
            assert!(word.embed_title().chars().count() < 256)
        }
    }
}

#[test]
fn embed_description_sizes() {
    // Discord prohibits embed descriptions from being larger than 2048 chars
    for words_array in all_words().iter() {
        for word in words_array.iter() {
            assert!(word.long_help.chars().count() < 2048)
        }
    }
}

#[test]
fn generic_help_message_length() {
    // Discord prohibits messages from being larger than 2000 chars
    assert!(generate_generic_help_message().chars().count() < 2000)
}

#[test]
fn embed_title_names_the_term() {
    let verbs = &all_words()[0];
    assert_eq!(verbs[0].embed_title(), "Help for add");
}

#[test]
fn generic_help_lists_every_word() {
    let msg = generate_generic_help_message();
    assert!(msg.ends_with("**Verbs:** add, help, lookup, roll\n**Nouns:** enemy, stat\n**Targets:** \n"));
}

#[test]
fn help_reply_cases() {
    assert!(matches!(handle_help_command(""), HelpReply::Generic(_)));
    match handle_help_command("roll") {
        HelpReply::Word(w) => assert_eq!(w.term, "roll"),
        _ => panic!("expected the help of a verb"),
    }
    match handle_help_command("stat") {
        HelpReply::Word(w) => assert_eq!(w.term, "stat"),
        _ => panic!("expected the help of a word"),
    }
    match handle_help_command("dragon") {
        HelpReply::NotFound(m) => assert_eq!(m, "Could not find help for 'dragon'. Check your spelling."),
        _ => panic!("expected no help"),
    }
}
