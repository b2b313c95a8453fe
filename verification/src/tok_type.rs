use vstd::prelude::*;

verus! {

/// The classes of tokens that decide the spacing between two tokens.
#[derive(Clone, Copy, Debug, PartialEq, Eq, Structural)]
pub enum TokType {
    /// abc like token, e.g., 'if', 'let', 'my_var'
    Alphabet,
    /// + - * / % ! == >= <= ...
    MathSign,
    /// other signs
    Sign,
    /// specials no need space at all.
    NoNeedSpace,
    /// numbers 0x1 ...
    Number,
    /// b"hello world"
    String,
    /// &
    Amp,
    /// *
    Star,
    /// ;
    Semicolon,
    /// :
    Colon,
    /// @
    AtSign,
    /// <
    Less,
}

} // verus!

verus! {

/// Whether a text holds a dot.
pub open spec fn seq_has_dot(s: Seq<char>) -> bool {
    exists|i: int| 0 <= i < s.len() && s[i] == '.'
}

/// Whether a token's text holds a dot (a token without text holds none).
pub open spec fn has_dot(t: Option<Seq<char>>) -> bool {
    match t {
        Some(s) => seq_has_dot(s),
        None => false,
    }
}

/// The texts of tokens, `None` for a token that is not a simple token.
pub open spec fn texts_view(elements: Seq<Option<String>>) -> Seq<Option<Seq<char>>> {
    Seq::new(
        elements.len(),
        |i: int|
            match elements[i] {
                Some(s) => Some(s@),
                None => None,
            },
    )
}

/// The number of tokens with a dot at `idx`, `idx + 2`, ... (up to the last but one token),
/// counted from `count` with the scan at `index`.
pub open spec fn link_scan(ts: Seq<Option<Seq<char>>>, index: int, count: nat) -> (nat, int)
    decreases ts.len() - index,
{
    if index > ts.len() - 2 || index < 0 || !has_dot(ts[index]) {
        (count, index)
    } else {
        link_scan(ts, index + 2, count + 1)
    }
}

/// What `process_link_access` returns: from the token at `idx`, the number of tokens with a dot
/// every other token, and the position of the last of them.
pub open spec fn spec_process_link_access(ts: Seq<Option<Seq<char>>>, idx: int) -> (nat, int) {
    if idx >= ts.len() - 1 {
        (0, 0)
    } else {
        let (c, i) = link_scan(ts, idx, 0);
        (c, i - 2)
    }
}

/// The inputs on which `process_link_access` does not panic: there is a token, and the scan
/// does not stop before the third one.
pub open spec fn process_link_access_ok(ts: Seq<Option<Seq<char>>>, idx: int) -> bool {
    &&& ts.len() > 0
    &&& (idx >= ts.len() - 1 || link_scan(ts, idx, 0).1 >= 2)
}

fn str_has_dot(s: &str) -> (b: bool)
    ensures
        b == seq_has_dot(s@),
{
    let v = crate::text::chars_of(s);
    let mut i: usize = 0;
    while i < v.len()
        invariant
            v@ == s@,
            i <= v@.len(),
            forall|j: int| 0 <= j < i ==> v@[j] != '.',
        decreases v.len() - i,
    {
        if v[i] == '.' {
            assert(s@[i as int] == '.');
            return true;
        }
        i = i + 1;
    }
    false
}

/// Counts the dotted accesses of a link such as `a.b.c` from the token at `idx`: the tokens
/// at `idx`, `idx + 2`, ... that hold a dot, and the position of the last one. The tokens are
/// given by their texts (`None` for a token that is not a simple token).
pub fn process_link_access(elements: &[Option<String>], idx: usize) -> (r: (usize, usize))
    requires
        process_link_access_ok(texts_view(elements@), idx as int),
    ensures
        r.0 == spec_process_link_access(texts_view(elements@), idx as int).0,
        r.1 == spec_process_link_access(texts_view(elements@), idx as int).1,
{
    let ghost ts = texts_view(elements@);
    if idx >= elements.len() - 1 {
        return (0, 0);
    }
    let mut continue_dot_cnt: usize = 0;
    let mut index = idx;
    while index <= elements.len() - 2
        invariant
            ts == texts_view(elements@),
            elements@.len() >= 2,
            idx <= index,
            continue_dot_cnt <= index,
            index <= elements@.len(),
            link_scan(ts, index as int, continue_dot_cnt as nat) == link_scan(ts, idx as int, 0),
        ensures
            link_scan(ts, idx as int, 0) == (continue_dot_cnt as nat, index as int),
        decreases elements.len() - index,
    {
        let dotted = match &elements[index] {
            Some(t) => str_has_dot(t.as_str()),
            None => false,
        };
        if !dotted {
            assert(ts[index as int] == match elements@[index as int] {
                Some(s) => Some(s@),
                None => None,
            });
            break;
        }
        assert(ts[index as int] == match elements@[index as int] {
            Some(s) => Some(s@),
            None => None,
        });
        continue_dot_cnt = continue_dot_cnt + 1;
        index = index + 2;
    }
    (continue_dot_cnt, index - 2)
}

/// Whether a token is the word `to` or `except` (a token without text is neither).
pub fn is_to_or_except(token: Option<&str>) -> (b: bool)
    ensures
        b == match token {
            Some(s) => s@ == "to"@ || s@ == "except"@,
            None => false,
        },
{
    match token {
        None => false,
        Some(con) => crate::style::str_eq(con, "to") || crate::style::str_eq(con, "except"),
    }
}

} // verus!

verus! {

/// A token of Move source as the lexer gives it, as far as the spacing and line-breaking rules
/// read it: the tokens those rules name, and `Other` for every other keyword or sign.
#[derive(Clone, Copy, Debug, PartialEq, Eq, Structural)]
pub enum MoveTok {
    NumValue,
    NumTypedValue,
    ByteStringValue,
    Identifier,
    Exclaim,
    ExclaimEqual,
    Percent,
    Amp,
    AmpAmp,
    AmpMut,
    LParen,
    RParen,
    LBracket,
    RBracket,
    Star,
    Plus,
    Comma,
    Minus,
    Period,
    PeriodPeriod,
    Slash,
    Colon,
    ColonColon,
    Semicolon,
    Less,
    LessEqual,
    LessLess,
    Equal,
    EqualEqual,
    EqualEqualGreater,
    LessEqualEqualGreater,
    EqualGreater,
    Greater,
    GreaterEqual,
    GreaterGreater,
    Caret,
    LBrace,
    Pipe,
    PipePipe,
    RBrace,
    NumSign,
    AtSign,
    Acquires,
    As,
    Const,
    Else,
    Friend,
    Fun,
    If,
    Inline,
    Invariant,
    Let,
    Module,
    Native,
    Public,
    Return,
    Script,
    Spec,
    Struct,
    Use,
    While,
    Other,
}

/// The class of a token.
pub open spec fn spec_tok_type(t: MoveTok) -> TokType {
    match t {
        MoveTok::NumValue | MoveTok::NumTypedValue => TokType::Number,
        MoveTok::ByteStringValue => TokType::String,
        MoveTok::Exclaim => TokType::Sign,
        MoveTok::ExclaimEqual | MoveTok::Percent | MoveTok::AmpAmp => TokType::MathSign,
        MoveTok::Amp | MoveTok::AmpMut => TokType::Amp,
        MoveTok::LParen | MoveTok::RParen | MoveTok::LBracket | MoveTok::RBracket => TokType::Sign,
        MoveTok::Star => TokType::Star,
        MoveTok::Plus => TokType::MathSign,
        MoveTok::Comma => TokType::Sign,
        MoveTok::Minus => TokType::MathSign,
        MoveTok::Period | MoveTok::PeriodPeriod => TokType::NoNeedSpace,
        MoveTok::Slash => TokType::Sign,
        MoveTok::Colon => TokType::Colon,
        MoveTok::ColonColon => TokType::NoNeedSpace,
        MoveTok::Semicolon => TokType::Semicolon,
        MoveTok::Less => TokType::Less,
        MoveTok::LessEqual | MoveTok::LessLess | MoveTok::Equal | MoveTok::EqualEqual
        | MoveTok::EqualEqualGreater | MoveTok::LessEqualEqualGreater | MoveTok::Greater
        | MoveTok::GreaterEqual | MoveTok::GreaterGreater => TokType::MathSign,
        MoveTok::LBrace | MoveTok::Pipe => TokType::Sign,
        MoveTok::PipePipe => TokType::MathSign,
        MoveTok::RBrace | MoveTok::NumSign => TokType::Sign,
        MoveTok::AtSign => TokType::AtSign,
        _ => TokType::Alphabet,
    }
}

impl From<MoveTok> for TokType {
    fn from(value: MoveTok) -> (r: TokType) {
        match value {
            MoveTok::NumValue | MoveTok::NumTypedValue => TokType::Number,
            MoveTok::ByteStringValue => TokType::String,
            MoveTok::Exclaim => TokType::Sign,
            MoveTok::ExclaimEqual | MoveTok::Percent | MoveTok::AmpAmp => TokType::MathSign,
            MoveTok::Amp | MoveTok::AmpMut => TokType::Amp,
            MoveTok::LParen | MoveTok::RParen | MoveTok::LBracket | MoveTok::RBracket => TokType::Sign,
            MoveTok::Star => TokType::Star,
            MoveTok::Plus => TokType::MathSign,
            MoveTok::Comma => TokType::Sign,
            MoveTok::Minus => TokType::MathSign,
            MoveTok::Period | MoveTok::PeriodPeriod => TokType::NoNeedSpace,
            MoveTok::Slash => TokType::Sign,
            MoveTok::Colon => TokType::Colon,
            MoveTok::ColonColon => TokType::NoNeedSpace,
            MoveTok::Semicolon => TokType::Semicolon,
            MoveTok::Less => TokType::Less,
            MoveTok::LessEqual | MoveTok::LessLess | MoveTok::Equal | MoveTok::EqualEqual
            | MoveTok::EqualEqualGreater | MoveTok::LessEqualEqualGreater | MoveTok::Greater
            | MoveTok::GreaterEqual | MoveTok::GreaterGreater => TokType::MathSign,
            MoveTok::LBrace | MoveTok::Pipe => TokType::Sign,
            MoveTok::PipePipe => TokType::MathSign,
            MoveTok::RBrace | MoveTok::NumSign => TokType::Sign,
            MoveTok::AtSign => TokType::AtSign,
            _ => TokType::Alphabet,
        }
    }
}

impl vstd::std_specs::convert::FromSpecImpl<MoveTok> for TokType {
    open spec fn obeys_from_spec() -> bool {
        true
    }

    open spec fn from_spec(v: MoveTok) -> TokType {
        spec_tok_type(v)
    }
}

/// The class of a token.
pub fn tok_type(t: MoveTok) -> (r: TokType)
    ensures
        r == spec_tok_type(t),
{
    TokType::from(t)
}

/// The tokens after which a line is never broken when blank lines are trimmed.
pub open spec fn is_no_break_token(t: MoveTok) -> bool {
    matches!(
        t,
        MoveTok::Script | MoveTok::Module | MoveTok::Struct | MoveTok::Fun | MoveTok::Spec
            | MoveTok::Const | MoveTok::Friend | MoveTok::If | MoveTok::Inline | MoveTok::Public
            | MoveTok::Use | MoveTok::While | MoveTok::Native | MoveTok::NumSign | MoveTok::Exclaim
            | MoveTok::ExclaimEqual | MoveTok::Percent | MoveTok::Star | MoveTok::Plus | MoveTok::Minus
            | MoveTok::Period | MoveTok::PeriodPeriod | MoveTok::Slash | MoveTok::Comma | MoveTok::Colon
            | MoveTok::ColonColon | MoveTok::Less | MoveTok::LessEqual | MoveTok::LessLess
            | MoveTok::Equal | MoveTok::Greater | MoveTok::GreaterEqual | MoveTok::GreaterGreater
            | MoveTok::Acquires | MoveTok::As | MoveTok::Invariant | MoveTok::EqualEqual
    )
}

/// The pairs of neighbouring tokens between which a line is never broken when blank lines
/// are trimmed.
pub open spec fn is_no_break_pair(a: MoveTok, b: MoveTok) -> bool {
    ||| a == MoveTok::Amp && (b == MoveTok::Identifier || b == MoveTok::LParen || b == MoveTok::NumValue)
    ||| a == MoveTok::AtSign && (b == MoveTok::Identifier || b == MoveTok::LParen || b == MoveTok::NumValue)
    ||| a == MoveTok::Identifier && b == MoveTok::Identifier
    ||| a == MoveTok::LBrace && (b == MoveTok::Identifier || b == MoveTok::Module || b == MoveTok::NumTypedValue
        || b == MoveTok::NumValue)
    ||| a == MoveTok::LParen && (b == MoveTok::Identifier || b == MoveTok::NumTypedValue || b == MoveTok::NumValue)
    ||| a == MoveTok::RBrace && b == MoveTok::RBrace
}

/// Whether the line after `current` keeps its line break when blank lines are trimmed: not
/// after a token that never breaks, nor between a pair that never breaks.
pub fn need_newline_when_trim_blank_line(current: &MoveTok, next: &MoveTok) -> (b: bool)
    ensures
        b == !(is_no_break_token(*current) || is_no_break_pair(*current, *next)),
{
    let no_break_token = matches!(
        *current,
        MoveTok::Script | MoveTok::Module | MoveTok::Struct | MoveTok::Fun | MoveTok::Spec
            | MoveTok::Const | MoveTok::Friend | MoveTok::If | MoveTok::Inline | MoveTok::Public
            | MoveTok::Use | MoveTok::While | MoveTok::Native | MoveTok::NumSign | MoveTok::Exclaim
            | MoveTok::ExclaimEqual | MoveTok::Percent | MoveTok::Star | MoveTok::Plus | MoveTok::Minus
            | MoveTok::Period | MoveTok::PeriodPeriod | MoveTok::Slash | MoveTok::Comma | MoveTok::Colon
            | MoveTok::ColonColon | MoveTok::Less | MoveTok::LessEqual | MoveTok::LessLess
            | MoveTok::Equal | MoveTok::Greater | MoveTok::GreaterEqual | MoveTok::GreaterGreater
            | MoveTok::Acquires | MoveTok::As | MoveTok::Invariant | MoveTok::EqualEqual
    );
    let c = *current;
    let n = *next;
    let no_break_pair = (c == MoveTok::Amp && (n == MoveTok::Identifier || n == MoveTok::LParen || n
        == MoveTok::NumValue)) || (c == MoveTok::AtSign && (n == MoveTok::Identifier || n == MoveTok::LParen
        || n == MoveTok::NumValue)) || (c == MoveTok::Identifier && n == MoveTok::Identifier) || (c
        == MoveTok::LBrace && (n == MoveTok::Identifier || n == MoveTok::Module || n == MoveTok::NumTypedValue
        || n == MoveTok::NumValue)) || (c == MoveTok::LParen && (n == MoveTok::Identifier || n
        == MoveTok::NumTypedValue || n == MoveTok::NumValue)) || (c == MoveTok::RBrace && n == MoveTok::RBrace);
    !(no_break_token || no_break_pair)
}

} // verus!

verus! {

/// What the spacing rules read of a token tree: its first and last tokens, whether its note
/// marks a binary operator or the name of a call, whether it is nested (and then whether in
/// braces), and, for a simple token, its text.
pub struct TokenTreeInfo {
    pub start_tok: MoveTok,
    pub end_tok: MoveTok,
    pub binary_op: bool,
    pub apply_name: bool,
    /// `Some(in_braces)` for a nested tree, `None` for a simple token.
    pub nested: Option<bool>,
    /// The text of a simple token; empty for a nested tree.
    pub content: String,
}

/// Whether a token tree is the simple token `to` or `except`.
pub open spec fn is_to_or_except_tree(t: TokenTreeInfo) -> bool {
    t.nested is None && (t.content@ == "to"@ || t.content@ == "except"@)
}

/// Whether a text holds `c`.
pub open spec fn text_has(s: Seq<char>, c: char) -> bool {
    exists|i: int| 0 <= i < s.len() && s[i] == c
}

/// The specification keywords that take a space before any sign after them.
pub open spec fn is_spec_clause_word(s: Seq<char>) -> bool {
    ||| s == "aborts_if"@
    ||| s == "ensures"@
    ||| s == "include"@
    ||| s == "pragma"@
    ||| s == "invariant"@
    ||| s == "succeeds_if"@
    ||| s == "aborts_with"@
    ||| s == "modifies"@
    ||| s == "emits"@
    ||| s == "requires"@
    ||| s == "global"@
}

/// Spacing before a `*` (the next tree starts with one).
pub open spec fn space_before_star(cur: TokenTreeInfo, next: TokenTreeInfo, to_except: bool) -> bool {
    if next.binary_op {
        true
    } else if next.apply_name {
        to_except
    } else {
        matches!(
            cur.start_tok,
            MoveTok::NumValue | MoveTok::NumTypedValue | MoveTok::Acquires | MoveTok::Identifier | MoveTok::Star
        ) || matches!(
            cur.end_tok,
            MoveTok::RParen | MoveTok::Comma | MoveTok::Slash | MoveTok::Pipe | MoveTok::PipePipe
                | MoveTok::Return | MoveTok::If | MoveTok::Else | MoveTok::EqualGreater
        )
    }
}

/// Spacing after a `*` (the current tree starts with one).
pub open spec fn space_after_star(cur: TokenTreeInfo, next: TokenTreeInfo, to_except: bool) -> bool {
    if cur.binary_op || next.binary_op {
        true
    } else if cur.apply_name {
        to_except
    } else if next.nested == Some(true) {
        true
    } else if next.nested is None && matches!(
        next.start_tok,
        MoveTok::NumValue | MoveTok::NumTypedValue | MoveTok::LParen
    ) {
        true
    } else {
        false
    }
}

/// Spacing before a sign after a word, a number or a sign.
pub open spec fn space_before_sign(cur: TokenTreeInfo, next: TokenTreeInfo) -> bool {
    if next.nested is Some && next.start_tok == MoveTok::LBrace {
        true
    } else if next.nested is None && next.start_tok == MoveTok::Slash {
        true
    } else if matches!(
        cur.start_tok,
        MoveTok::Let | MoveTok::Slash | MoveTok::If | MoveTok::Else | MoveTok::While | MoveTok::Comma
            | MoveTok::Return
    ) {
        true
    } else if matches!(cur.start_tok, MoveTok::Pipe | MoveTok::Caret) && matches!(
        next.start_tok,
        MoveTok::LParen | MoveTok::LBrace
    ) {
        true
    } else if matches!(
        cur.end_tok,
        MoveTok::RParen | MoveTok::EqualGreater | MoveTok::EqualEqualGreater | MoveTok::LessEqualEqualGreater
    ) && next.start_tok == MoveTok::LParen {
        true
    } else if next.start_tok == MoveTok::Pipe {
        true
    } else {
        let result = next.start_tok == MoveTok::Exclaim && (spec_tok_type(cur.start_tok) == TokType::Alphabet
            || cur.end_tok == MoveTok::RParen);
        if cur.nested is None {
            let c = cur.content@;
            if is_spec_clause_word(c) {
                true
            } else if (c == "for"@ || c == "in"@) && next.start_tok == MoveTok::LParen {
                true
            } else if c == "assert"@ && next.start_tok == MoveTok::Exclaim {
                false
            } else {
                result
            }
        } else {
            result
        }
    }
}

/// Whether a space goes between the token trees `cur` and `next`.
pub open spec fn spec_need_space(cur: TokenTreeInfo, next: Option<TokenTreeInfo>) -> bool {
    match next {
        None => false,
        Some(n) => {
            let to_except = is_to_or_except_tree(cur) || is_to_or_except_tree(n);
            let next_content = if n.nested is None {
                n.content@
            } else {
                Seq::empty()
            };
            if cur.end_tok == MoveTok::Greater && (spec_tok_type(n.start_tok) == TokType::Alphabet
                || n.start_tok == MoveTok::LBrace) {
                true
            } else {
                match (spec_tok_type(cur.start_tok), spec_tok_type(n.start_tok)) {
                    (TokType::Alphabet, TokType::Alphabet)
                    | (TokType::Alphabet, TokType::String)
                    | (TokType::Alphabet, TokType::Number)
                    | (TokType::Alphabet, TokType::AtSign) => true,
                    (_, TokType::Amp) => cur.start_tok != MoveTok::Star,
                    (TokType::MathSign, _) => true,
                    (TokType::Sign, TokType::Alphabet) => cur.end_tok != MoveTok::Exclaim,
                    (TokType::Sign, TokType::Number) => true,
                    (TokType::Sign, TokType::String) | (TokType::Sign, TokType::AtSign) => (n.nested is None
                        && n.start_tok == MoveTok::ByteStringValue) || (cur.start_tok == MoveTok::Comma
                        && n.start_tok == MoveTok::AtSign),
                    (TokType::Number, TokType::Alphabet) | (TokType::Number, TokType::Star) => true,
                    (TokType::Colon, _) => true,
                    (_, TokType::Less) => n.binary_op,
                    (TokType::Alphabet, TokType::MathSign) => if text_has(next_content, '>') {
                        n.binary_op
                    } else {
                        true
                    },
                    (_, TokType::MathSign) => true,
                    (TokType::Less, _) => cur.binary_op,
                    (TokType::Amp, _) => cur.binary_op,
                    (_, TokType::Star) => space_before_star(cur, n, to_except),
                    (TokType::Star, _) => space_after_star(cur, n, to_except),
                    (TokType::AtSign, TokType::Alphabet) => false,
                    (TokType::Alphabet, TokType::Sign)
                    | (TokType::Number, TokType::Sign)
                    | (TokType::Sign, TokType::Sign) => space_before_sign(cur, n),
                    _ => false,
                }
            }
        },
    }
}

fn tree_is_to_or_except(t: &TokenTreeInfo) -> (b: bool)
    ensures
        b == is_to_or_except_tree(*t),
{
    t.nested.is_none() && is_to_or_except(Some(t.content.as_str()))
}

fn str_has_char(s: &str, c: char) -> (b: bool)
    ensures
        b == text_has(s@, c),
{
    let v = crate::text::chars_of(s);
    let mut i: usize = 0;
    while i < v.len()
        invariant
            v@ == s@,
            i <= v@.len(),
            forall|j: int| 0 <= j < i ==> v@[j] != c,
        decreases v.len() - i,
    {
        if v[i] == c {
            assert(s@[i as int] == c);
            return true;
        }
        i = i + 1;
    }
    false
}

fn is_spec_clause_word_str(s: &str) -> (b: bool)
    ensures
        b == is_spec_clause_word(s@),
{
    use_eq(s, "aborts_if") || use_eq(s, "ensures") || use_eq(s, "include") || use_eq(s, "pragma")
        || use_eq(s, "invariant") || use_eq(s, "succeeds_if") || use_eq(s, "aborts_with") || use_eq(
        s,
        "modifies",
    ) || use_eq(s, "emits") || use_eq(s, "requires") || use_eq(s, "global")
}

fn use_eq(a: &str, b: &str) -> (r: bool)
    ensures
        r == (a@ == b@),
{
    crate::style::str_eq(a, b)
}

fn space_before_star_exec(cur: &TokenTreeInfo, next: &TokenTreeInfo, to_except: bool) -> (b: bool)
    ensures
        b == space_before_star(*cur, *next, to_except),
{
    if next.binary_op {
        return true;
    }
    if next.apply_name {
        return to_except;
    }
    matches!(
        cur.start_tok,
        MoveTok::NumValue | MoveTok::NumTypedValue | MoveTok::Acquires | MoveTok::Identifier | MoveTok::Star
    ) || matches!(
        cur.end_tok,
        MoveTok::RParen | MoveTok::Comma | MoveTok::Slash | MoveTok::Pipe | MoveTok::PipePipe
            | MoveTok::Return | MoveTok::If | MoveTok::Else | MoveTok::EqualGreater
    )
}

fn space_after_star_exec(cur: &TokenTreeInfo, next: &TokenTreeInfo, to_except: bool) -> (b: bool)
    ensures
        b == space_after_star(*cur, *next, to_except),
{
    if cur.binary_op || next.binary_op {
        return true;
    }
    if cur.apply_name {
        return to_except;
    }
    if next.nested == Some(true) {
        return true;
    }
    if next.nested.is_none() {
        if matches!(next.start_tok, MoveTok::NumValue | MoveTok::NumTypedValue | MoveTok::LParen) {
            return true;
        }
        if use_eq(next.content.as_str(), "vector") {
            return false;
        }
    }
    false
}

fn space_before_sign_exec(cur: &TokenTreeInfo, next: &TokenTreeInfo) -> (b: bool)
    ensures
        b == space_before_sign(*cur, *next),
{
    let mut result = false;
    if next.nested.is_some() && next.start_tok == MoveTok::LBrace {
        return true;
    }
    if next.nested.is_none() && next.start_tok == MoveTok::Slash {
        return true;
    }
    if matches!(
        cur.start_tok,
        MoveTok::Let | MoveTok::Slash | MoveTok::If | MoveTok::Else | MoveTok::While | MoveTok::Comma
            | MoveTok::Return
    ) {
        return true;
    }
    if matches!(cur.start_tok, MoveTok::Pipe | MoveTok::Caret) && matches!(
        next.start_tok,
        MoveTok::LParen | MoveTok::LBrace
    ) {
        return true;
    }
    if matches!(
        cur.end_tok,
        MoveTok::RParen | MoveTok::EqualGreater | MoveTok::EqualEqualGreater | MoveTok::LessEqualEqualGreater
    ) && next.start_tok == MoveTok::LParen {
        return true;
    }
    if next.start_tok == MoveTok::Pipe {
        return true;
    }
    if next.start_tok == MoveTok::Exclaim {
        result = tok_type(cur.start_tok) == TokType::Alphabet || cur.end_tok == MoveTok::RParen;
    }
    if cur.nested.is_none() {
        let content = cur.content.as_str();
        if is_spec_clause_word_str(content) {
            return true;
        }
        if use_eq(content, "assert") && next.start_tok == MoveTok::Exclaim {
            result = false;
        }
        if (use_eq(content, "for") || use_eq(content, "in")) && next.start_tok == MoveTok::LParen {
            return true;
        }
    }
    proof {
        reveal_strlit("assert");
        reveal_strlit("for");
        reveal_strlit("in");
    }
    result
}

/// Whether a space goes between the token trees `current` and `next` (none when there is no
/// next tree).
pub fn need_space(current: &TokenTreeInfo, next: Option<&TokenTreeInfo>) -> (b: bool)
    ensures
        b == spec_need_space(
            *current,
            match next {
                Some(n) => Some(*n),
                None => None,
            },
        ),
{
    let next_token_tree = match next {
        None => {
            return false;
        },
        Some(n) => n,
    };
    let is_bin_current = current.binary_op;
    let is_bin_next = next_token_tree.binary_op;
    let is_to_execpt = tree_is_to_or_except(current) || tree_is_to_or_except(next_token_tree);
    let curr_start_tok = current.start_tok;
    let curr_end_tok = current.end_tok;
    let next_start_tok = next_token_tree.start_tok;
    if curr_end_tok == MoveTok::Greater {
        if tok_type(next_start_tok) == TokType::Alphabet {
            return true;
        }
        if next_start_tok == MoveTok::LBrace {
            return true;
        }
    }
    let is_next_tok_nested = next_token_tree.nested.is_some();
    match (tok_type(curr_start_tok), tok_type(next_start_tok)) {
        (TokType::Alphabet, TokType::Alphabet)
        | (TokType::Alphabet, TokType::String)
        | (TokType::Alphabet, TokType::Number)
        | (TokType::Alphabet, TokType::AtSign) => true,
        (_, TokType::Amp) => curr_start_tok != MoveTok::Star,
        (TokType::MathSign, _) => true,
        (TokType::Sign, TokType::Alphabet) => curr_end_tok != MoveTok::Exclaim,
        (TokType::Sign, TokType::Number) => true,
        (TokType::Sign, TokType::String) | (TokType::Sign, TokType::AtSign) => {
            if !is_next_tok_nested && next_start_tok == MoveTok::ByteStringValue {
                return true;
            }
            if curr_start_tok == MoveTok::Comma && next_start_tok == MoveTok::AtSign {
                return true;
            }
            false
        },
        (TokType::Number, TokType::Alphabet) | (TokType::Number, TokType::Star) => true,
        (TokType::Colon, _) => true,
        (_, TokType::Less) => is_bin_next,
        (TokType::Alphabet, TokType::MathSign) => {
            if !is_next_tok_nested && str_has_char(next_token_tree.content.as_str(), '>') {
                return is_bin_next;
            }
            proof {
                if is_next_tok_nested {
                    assert(!text_has(Seq::<char>::empty(), '>'));
                }
            }
            true
        },
        (_, TokType::MathSign) => true,
        (TokType::Less, _) => is_bin_current,
        (TokType::Amp, _) => is_bin_current,
        (_, TokType::Star) => space_before_star_exec(current, next_token_tree, is_to_execpt),
        (TokType::Star, _) => space_after_star_exec(current, next_token_tree, is_to_execpt),
        (TokType::AtSign, TokType::Alphabet) => false,
        (TokType::Alphabet, TokType::Sign)
        | (TokType::Number, TokType::Sign)
        | (TokType::Sign, TokType::Sign) => space_before_sign_exec(current, next_token_tree),
        _ => false,
    }
}

/// The spaces that always go between neighbouring token trees, whatever else they are: a word
/// and the word, string, number or address after it; a number and the word after it (`10 as`);
/// after a math sign (`+`, `==`, ..) and after a colon. Nothing goes after the last tree.
pub proof fn law_need_space_always(cur: TokenTreeInfo, n: TokenTreeInfo)
    ensures
        spec_tok_type(cur.start_tok) == TokType::Number && spec_tok_type(n.start_tok) == TokType::Alphabet
            ==> spec_need_space(cur, Some(n)),
        spec_tok_type(cur.start_tok) == TokType::Alphabet && (spec_tok_type(n.start_tok) == TokType::Alphabet
            || spec_tok_type(n.start_tok) == TokType::String || spec_tok_type(n.start_tok) == TokType::Number
            || spec_tok_type(n.start_tok) == TokType::AtSign) ==> spec_need_space(cur, Some(n)),
        spec_tok_type(cur.start_tok) == TokType::MathSign ==> spec_need_space(cur, Some(n)),
        spec_tok_type(cur.start_tok) == TokType::Colon ==> spec_need_space(cur, Some(n)),
        !spec_need_space(cur, None),
{
}

/// Spacing around signs and `@`: a sign and the number after it are spaced (`, 1`); a `!` and
/// the word after it are not (`!done`), nor `@` and the word after it (`@std`); after a tree that
/// is not a word, a math sign, a sign or a colon (and does not end in `>`), a `<` is spaced
/// exactly when it is a binary operator.
pub proof fn law_need_space_signs(cur: TokenTreeInfo, n: TokenTreeInfo)
    ensures
        spec_tok_type(cur.start_tok) == TokType::Sign && spec_tok_type(n.start_tok) == TokType::Number
            ==> spec_need_space(cur, Some(n)),
        spec_tok_type(cur.start_tok) == TokType::Sign && cur.end_tok == MoveTok::Exclaim && spec_tok_type(
            n.start_tok,
        ) == TokType::Alphabet ==> !spec_need_space(cur, Some(n)),
        spec_tok_type(cur.start_tok) == TokType::AtSign && cur.end_tok != MoveTok::Greater && spec_tok_type(
            n.start_tok,
        ) == TokType::Alphabet ==> !spec_need_space(cur, Some(n)),
        spec_tok_type(n.start_tok) == TokType::Less && cur.end_tok != MoveTok::Greater && spec_tok_type(
            cur.start_tok,
        ) != TokType::Alphabet && spec_tok_type(cur.start_tok) != TokType::MathSign && spec_tok_type(
            cur.start_tok,
        ) != TokType::Sign && spec_tok_type(cur.start_tok) != TokType::Colon ==> (spec_need_space(cur, Some(n))
            == n.binary_op),
{
}

} // verus!
