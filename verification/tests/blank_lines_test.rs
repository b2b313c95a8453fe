use movefmt::blank_lines::{blank_lines_before_simple_token, TokenTreeType};
use movefmt::tok_type::MoveTok;

#[test]
fn blank_lines_near_the_start_are_ignored() {
    let r = blank_lines_before_simple_token(
        3, 9, 2, MoveTok::Semicolon, MoveTok::Let, TokenTreeType::Simple, true, false, false, "", "",
    );
    assert_eq!(r, 0);
}

#[test]
fn blank_lines_kept_as_one_break() {
    let r = blank_lines_before_simple_token(
        20, 7, 4, MoveTok::Semicolon, MoveTok::Let, TokenTreeType::Simple, true, false, false, "x;", "\n\n\n",
    );
    assert_eq!(r, 1);
    // not after a token that never breaks
    let r = blank_lines_before_simple_token(
        20, 7, 4, MoveTok::Comma, MoveTok::Let, TokenTreeType::Simple, true, false, false, "x,", "\n\n\n",
    );
    assert_eq!(r, 0);
    // a keyword after a block, with the output not on a new line: two breaks
    let r = blank_lines_before_simple_token(
        20, 7, 4, MoveTok::RBrace, MoveTok::Fun, TokenTreeType::NormalBrace, false, false, false, "}", "\n\n\n",
    );
    assert_eq!(r, 2);
    let r = blank_lines_before_simple_token(
        20, 7, 4, MoveTok::RBrace, MoveTok::Fun, TokenTreeType::NormalBrace, false, false, false, "}\n  ", "\n\n\n",
    );
    assert_eq!(r, 1);
}

#[test]
fn keyword_after_block_or_semicolon() {
    // same line after a special block: a break only when something stands between
    let r = blank_lines_before_simple_token(
        20, 4, 4, MoveTok::RBrace, MoveTok::Fun, TokenTreeType::SpecialBlkBrace, false, false, false, "}", " ",
    );
    assert_eq!(r, 0);
    let r = blank_lines_before_simple_token(
        20, 4, 4, MoveTok::RBrace, MoveTok::Fun, TokenTreeType::SpecialBlkBrace, false, false, false, "}", " /* c */ ",
    );
    assert_eq!(r, 1);
    // next line after a block, no comments: a break and a blank line
    let r = blank_lines_before_simple_token(
        20, 5, 4, MoveTok::RBrace, MoveTok::Fun, TokenTreeType::SpecialBlkBrace, false, false, false, "}", "\n",
    );
    assert_eq!(r, 2);
    let r = blank_lines_before_simple_token(
        20, 5, 4, MoveTok::RBrace, MoveTok::Fun, TokenTreeType::NormalBrace, false, true, true, "}\n", "\n",
    );
    assert_eq!(r, 0);
    // after `{`
    let r = blank_lines_before_simple_token(
        20, 5, 4, MoveTok::LBrace, MoveTok::Fun, TokenTreeType::Simple, false, false, false, "{", "\n",
    );
    assert_eq!(r, 1);
    let r = blank_lines_before_simple_token(
        20, 5, 4, MoveTok::LBrace, MoveTok::Fun, TokenTreeType::Simple, false, false, false, "{\n    ", "\n",
    );
    assert_eq!(r, 0);
    // after `;`
    let r = blank_lines_before_simple_token(
        20, 4, 4, MoveTok::Semicolon, MoveTok::Fun, TokenTreeType::Simple, false, false, false, "x;", " // c\n",
    );
    assert_eq!(r, 1);
    let r = blank_lines_before_simple_token(
        20, 4, 4, MoveTok::Semicolon, MoveTok::Fun, TokenTreeType::Simple, false, false, false, "x;", " ",
    );
    assert_eq!(r, 0);
    let r = blank_lines_before_simple_token(
        20, 5, 4, MoveTok::Semicolon, MoveTok::Fun, TokenTreeType::Simple, false, false, false, "x;", "\n",
    );
    assert_eq!(r, 1);
    let r = blank_lines_before_simple_token(
        20, 5, 4, MoveTok::Semicolon, MoveTok::Fun, TokenTreeType::Simple, false, false, false, "x;\n", "\n",
    );
    assert_eq!(r, 1);
    let r = blank_lines_before_simple_token(
        20, 5, 4, MoveTok::Semicolon, MoveTok::Fun, TokenTreeType::Simple, false, false, false, "x;\n", " // c\n",
    );
    assert_eq!(r, 0);
}
