use movefmt::tok_type::{
    is_to_or_except, need_newline_when_trim_blank_line, need_space, process_link_access, tok_type,
    MoveTok, TokType, TokenTreeInfo,
};

fn texts(v: &[Option<&str>]) -> Vec<Option<String>> {
    v.iter().map(|t| t.map(|s| s.to_string())).collect()
}

#[test]
fn link_access_counts_dotted_tokens() {
    // a.b .c .d x: tokens at 2, 4 hold dots, 6 does not
    let elements = texts(&[Some("a"), Some("b"), Some(".c"), Some("("), Some(".d"), Some(")"), Some("x"), Some(";")]);
    assert_eq!(process_link_access(&elements, 2), (2, 4));
    assert_eq!(process_link_access(&elements, 7), (0, 0));
    assert_eq!(process_link_access(&elements, 6), (0, 4));
}

#[test]
fn link_access_skips_non_simple_tokens() {
    let elements = texts(&[Some("x"), Some("y"), None, Some("z")]);
    assert_eq!(process_link_access(&elements, 2), (0, 0));
}

#[test]
fn to_or_except_words() {
    assert!(is_to_or_except(Some("to")));
    assert!(is_to_or_except(Some("except")));
    assert!(!is_to_or_except(Some("toe")));
    assert!(!is_to_or_except(None));
}

fn simple(tok: MoveTok, text: &str) -> TokenTreeInfo {
    TokenTreeInfo {
        start_tok: tok,
        end_tok: tok,
        binary_op: false,
        apply_name: false,
        nested: None,
        content: text.to_string(),
    }
}

fn binary(tok: MoveTok, text: &str) -> TokenTreeInfo {
    TokenTreeInfo { binary_op: true, ..simple(tok, text) }
}

fn nested(open: MoveTok, close: MoveTok, braces: bool) -> TokenTreeInfo {
    TokenTreeInfo {
        start_tok: open,
        end_tok: close,
        binary_op: false,
        apply_name: false,
        nested: Some(braces),
        content: String::new(),
    }
}

#[test]
fn token_classes() {
    assert_eq!(tok_type(MoveTok::Identifier), TokType::Alphabet);
    assert_eq!(tok_type(MoveTok::Let), TokType::Alphabet);
    assert_eq!(tok_type(MoveTok::Other), TokType::Alphabet);
    assert_eq!(tok_type(MoveTok::NumTypedValue), TokType::Number);
    assert_eq!(tok_type(MoveTok::ByteStringValue), TokType::String);
    assert_eq!(tok_type(MoveTok::AmpMut), TokType::Amp);
    assert_eq!(tok_type(MoveTok::Star), TokType::Star);
    assert_eq!(tok_type(MoveTok::ColonColon), TokType::NoNeedSpace);
    assert_eq!(tok_type(MoveTok::Less), TokType::Less);
    assert_eq!(tok_type(MoveTok::Greater), TokType::MathSign);
    assert_eq!(tok_type(MoveTok::Slash), TokType::Sign);
    assert_eq!(TokType::from(MoveTok::AtSign), TokType::AtSign);
}

#[test]
fn spaces_between_words_and_signs() {
    let x = simple(MoveTok::Identifier, "x");
    let y = simple(MoveTok::Identifier, "y");
    // two words
    assert!(need_space(&x, Some(&y)));
    // nothing after
    assert!(!need_space(&x, None));
    // word then `::`
    assert!(!need_space(&x, Some(&simple(MoveTok::ColonColon, "::"))));
    // `=` then a word
    assert!(need_space(&simple(MoveTok::Equal, "="), Some(&y)));
    // a word then `+`
    assert!(need_space(&x, Some(&binary(MoveTok::Plus, "+"))));
    // `:` then anything
    assert!(need_space(&simple(MoveTok::Colon, ":"), Some(&y)));
    // `<` of a generic type takes no space, a comparison does
    assert!(!need_space(&x, Some(&simple(MoveTok::Less, "<"))));
    assert!(need_space(&x, Some(&binary(MoveTok::Less, "<"))));
    // `>` closing a generic, then a word
    assert!(need_space(&simple(MoveTok::Greater, ">"), Some(&y)));
    // a word then `(...)`
    assert!(!need_space(&x, Some(&nested(MoveTok::LParen, MoveTok::RParen, false))));
    // `if` then `(...)`
    assert!(need_space(
        &simple(MoveTok::If, "if"),
        Some(&nested(MoveTok::LParen, MoveTok::RParen, false))
    ));
    // a word then `{...}`
    assert!(need_space(&x, Some(&nested(MoveTok::LBrace, MoveTok::RBrace, true))));
    // `!` then a word
    assert!(!need_space(&simple(MoveTok::Exclaim, "!"), Some(&y)));
    // `assert` then `!`, `ensures` then `!`
    assert!(!need_space(&simple(MoveTok::Identifier, "assert"), Some(&simple(MoveTok::Exclaim, "!"))));
    assert!(need_space(&simple(MoveTok::Identifier, "ensures"), Some(&simple(MoveTok::Exclaim, "!"))));
    assert!(need_space(&simple(MoveTok::Identifier, "ok"), Some(&simple(MoveTok::Exclaim, "!"))));
}

#[test]
fn spaces_around_stars_and_amps() {
    let x = simple(MoveTok::Identifier, "x");
    // `&` before a word, `&` after a word
    assert!(!need_space(&simple(MoveTok::Amp, "&"), Some(&x)));
    assert!(need_space(&x, Some(&simple(MoveTok::Amp, "&"))));
    assert!(!need_space(&simple(MoveTok::Star, "*"), Some(&simple(MoveTok::Amp, "&"))));
    // a multiplication
    assert!(need_space(&x, Some(&binary(MoveTok::Star, "*"))));
    assert!(need_space(&binary(MoveTok::Star, "*"), Some(&x)));
    // a dereference after `=` (a math sign) and before a word
    assert!(need_space(&simple(MoveTok::Equal, "="), Some(&simple(MoveTok::Star, "*"))));
    assert!(!need_space(&simple(MoveTok::Star, "*"), Some(&x)));
    // `*` before a number
    assert!(need_space(&simple(MoveTok::Star, "*"), Some(&simple(MoveTok::NumValue, "1"))));
    // `@` after a comma, a word after `@`
    assert!(need_space(&simple(MoveTok::Comma, ","), Some(&simple(MoveTok::AtSign, "@"))));
    assert!(!need_space(&simple(MoveTok::AtSign, "@"), Some(&x)));
    // `to` / `except` around a named `*`
    let star_name = TokenTreeInfo { apply_name: true, ..simple(MoveTok::Star, "*") };
    assert!(need_space(&simple(MoveTok::Identifier, "to"), Some(&star_name)));
    assert!(!need_space(&simple(MoveTok::LParen, "("), Some(&star_name)));
}

#[test]
fn line_breaks_kept_when_trimming() {
    assert!(!need_newline_when_trim_blank_line(&MoveTok::Fun, &MoveTok::Identifier));
    assert!(!need_newline_when_trim_blank_line(&MoveTok::Identifier, &MoveTok::Identifier));
    assert!(!need_newline_when_trim_blank_line(&MoveTok::RBrace, &MoveTok::RBrace));
    assert!(!need_newline_when_trim_blank_line(&MoveTok::LBrace, &MoveTok::Module));
    assert!(need_newline_when_trim_blank_line(&MoveTok::Semicolon, &MoveTok::Identifier));
    assert!(need_newline_when_trim_blank_line(&MoveTok::RBrace, &MoveTok::Identifier));
    assert!(need_newline_when_trim_blank_line(&MoveTok::Identifier, &MoveTok::Semicolon));
}
