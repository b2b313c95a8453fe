use vstd::prelude::*;

use crate::text::{char_is_whitespace, chars_of, is_whitespace};
use crate::tok_type::{is_no_break_pair, is_no_break_token, need_newline_when_trim_blank_line, MoveTok};

verus! {

/// Where the previous token ends must be at least this far into the text for blank lines before
/// a token to be looked at.
pub const MIN_NESTED_LENGTH: u32 = 16;

/// The kind of the token tree before a token, as far as the blank lines before the token are
/// concerned.
#[derive(Clone, Copy, Debug, PartialEq, Eq, Structural)]
pub enum TokenTreeType {
    /// A single token.
    Simple,
    /// A block in braces.
    NormalBrace,
    /// The brace block of a function, a struct, a spec or the like.
    SpecialBlkBrace,
    /// Any other token tree.
    Other,
}

/// `s` without its trailing spaces.
pub open spec fn trim_end_spaces(s: Seq<char>) -> Seq<char>
    decreases s.len(),
{
    if s.len() > 0 && s.last() == ' ' {
        trim_end_spaces(s.drop_last())
    } else {
        s
    }
}

/// Whether `s`, without its trailing spaces, ends with a line feed.
pub open spec fn ends_with_line_feed(s: Seq<char>) -> bool {
    let t = trim_end_spaces(s);
    t.len() > 0 && t.last() == '\n'
}

/// Whether a line break was just emitted: the last 36 characters of the output, without their
/// trailing spaces, end with a line feed.
pub open spec fn new_line_just_added(out: Seq<char>) -> bool {
    ends_with_line_feed(out.skip(if out.len() > 36 {
        out.len() - 36
    } else {
        0
    }))
}

/// Whether the text `s` is blank: whitespace only, as `str::trim` leaves nothing of it.
pub open spec fn is_blank(s: Seq<char>) -> bool {
    forall|i: int| 0 <= i < s.len() ==> char_is_whitespace(#[trigger] s[i])
}

fn ends_with_line_feed_from(v: &Vec<char>, from: usize) -> (b: bool)
    requires
        from <= v@.len(),
    ensures
        b == ends_with_line_feed(v@.skip(from as int)),
{
    let mut k = v.len();
    proof {
        assert(v@.skip(from as int) =~= v@.subrange(from as int, k as int));
    }
    while k > from && v[k - 1] == ' '
        invariant
            from <= k <= v@.len(),
            trim_end_spaces(v@.subrange(from as int, k as int)) == trim_end_spaces(v@.skip(from as int)),
        decreases k,
    {
        proof {
            assert(v@.subrange(from as int, k as int).drop_last() =~= v@.subrange(from as int, k - 1));
        }
        k = k - 1;
    }
    k > from && v[k - 1] == '\n'
}

fn is_blank_exec(s: &str) -> (b: bool)
    ensures
        b == is_blank(s@),
{
    let v = chars_of(s);
    let mut i: usize = 0;
    while i < v.len()
        invariant
            v@ == s@,
            i <= v@.len(),
            forall|j: int| 0 <= j < i ==> char_is_whitespace(#[trigger] v@[j]),
        decreases v.len() - i,
    {
        if !is_whitespace(v[i]) {
            return false;
        }
        i = i + 1;
    }
    true
}

/// How many line breaks go before the token `tok`, given where the token before it ends
/// (`pre_end`), how many lines it lies below the line being written (`line_diff`), the last token
/// before it (`pre_tok`) and the kind of token tree that ended there (`pre_ty`), whether it is an
/// ordinary token (one that opens no block), whether a line break went before and after the
/// comments just written before it, the output so far (`out`) and the source text between the
/// two tokens (`gap`).
/// Runs of blank lines in the source are kept as one line break where a break may stand there;
/// a keyword after a block starts a new line, and a blank line is kept between blocks; after a
/// `{` or a `;`, a keyword starts a new line.
pub open spec fn spec_blank_lines_before(
    pre_end: u32,
    line_diff: int,
    pre_tok: MoveTok,
    tok: MoveTok,
    pre_ty: TokenTreeType,
    is_normal_token: bool,
    new_line_before_cmt: bool,
    new_line_after_cmt: bool,
    out: Seq<char>,
    gap: Seq<char>,
) -> nat {
    if pre_end < MIN_NESTED_LENGTH {
        0
    } else if line_diff > 1 && !(is_no_break_token(pre_tok) || is_no_break_pair(pre_tok, tok)) && (
    is_normal_token || tok == MoveTok::Spec || pre_ty == TokenTreeType::NormalBrace) {
        if !is_normal_token && pre_ty == TokenTreeType::NormalBrace && !ends_with_line_feed(out) {
            2
        } else {
            1
        }
    } else if is_normal_token {
        0
    } else {
        let added = new_line_just_added(out);
        if pre_ty == TokenTreeType::SpecialBlkBrace || pre_ty == TokenTreeType::NormalBrace {
            if line_diff == 0 && pre_ty == TokenTreeType::SpecialBlkBrace {
                if !is_blank(gap) {
                    1
                } else {
                    0
                }
            } else if line_diff == 0 {
                1
            } else if new_line_after_cmt {
                if !new_line_before_cmt {
                    1
                } else {
                    0
                }
            } else {
                (if !new_line_before_cmt {
                    1nat
                } else {
                    0nat
                }) + (if !added {
                    1nat
                } else {
                    0nat
                })
            }
        } else if pre_ty == TokenTreeType::Simple {
            if pre_tok == MoveTok::LBrace {
                if added {
                    0
                } else {
                    1
                }
            } else if pre_tok == MoveTok::Semicolon {
                let has_comment = !is_blank(gap);
                if added {
                    if !has_comment {
                        1
                    } else {
                        0
                    }
                } else if line_diff == 0 {
                    if has_comment {
                        1
                    } else {
                        0
                    }
                } else {
                    1
                }
            } else {
                0
            }
        } else {
            0
        }
    }
}

/// How many line breaks go before a token (see `spec_blank_lines_before`); the token lies on
/// line `line`, and the output has reached line `cur_line`.
pub fn blank_lines_before_simple_token(
    pre_end: u32,
    line: u32,
    cur_line: u32,
    pre_tok: MoveTok,
    tok: MoveTok,
    pre_ty: TokenTreeType,
    is_normal_token: bool,
    new_line_before_cmt: bool,
    new_line_after_cmt: bool,
    out: &str,
    gap: &str,
) -> (r: u32)
    requires
        pre_end >= MIN_NESTED_LENGTH ==> cur_line <= line,
    ensures
        r == spec_blank_lines_before(
            pre_end,
            line - cur_line,
            pre_tok,
            tok,
            pre_ty,
            is_normal_token,
            new_line_before_cmt,
            new_line_after_cmt,
            out@,
            gap@,
        ),
{
    if pre_end < MIN_NESTED_LENGTH {
        return 0;
    }
    let line_diff = line - cur_line;
    let ov = chars_of(out);
    if line_diff > 1 && need_newline_when_trim_blank_line(&pre_tok, &tok) && (is_normal_token || tok
        == MoveTok::Spec || pre_ty == TokenTreeType::NormalBrace) {
        if !is_normal_token && pre_ty == TokenTreeType::NormalBrace && !ends_with_line_feed_from(&ov, 0) {
            proof {
                assert(ov@.skip(0) =~= ov@);
            }
            return 2;
        }
        proof {
            assert(ov@.skip(0) =~= ov@);
        }
        return 1;
    }
    if is_normal_token {
        return 0;
    }
    let from = if ov.len() > 36 {
        ov.len() - 36
    } else {
        0
    };
    let added = ends_with_line_feed_from(&ov, from);
    if pre_ty == TokenTreeType::SpecialBlkBrace || pre_ty == TokenTreeType::NormalBrace {
        if line_diff == 0 && pre_ty == TokenTreeType::SpecialBlkBrace {
            return if !is_blank_exec(gap) {
                1
            } else {
                0
            };
        }
        if line_diff == 0 {
            return 1;
        }
        if new_line_after_cmt {
            return if !new_line_before_cmt {
                1
            } else {
                0
            };
        }
        let a: u32 = if !new_line_before_cmt {
            1
        } else {
            0
        };
        let b: u32 = if !added {
            1
        } else {
            0
        };
        return a + b;
    }
    if pre_ty == TokenTreeType::Simple {
        if pre_tok == MoveTok::LBrace {
            return if added {
                0
            } else {
                1
            };
        }
        if pre_tok == MoveTok::Semicolon {
            let has_comment = !is_blank_exec(gap);
            if added {
                return if !has_comment {
                    1
                } else {
                    0
                };
            }
            if line_diff == 0 {
                return if has_comment {
                    1
                } else {
                    0
                };
            }
            return 1;
        }
    }
    0
}

/// After a block (in braces) that ends on an earlier line than the keyword after it:
/// - when a comment followed on the block's line (no line break before it) and a line break was
///   put after it, exactly one line break goes before the keyword, so that it starts a line of
///   its own, and with the keyword on the next line, exactly one;
/// - when line breaks went both before and after the comment, none is added on the next line;
/// - with no comment in between and the keyword on the next line, the keyword starts a new line
///   and a blank line separates it from the block: two line breaks, or one when one was just
///   written.
/// Before an ordinary token (one that opens no block) nothing is added unless the source has
/// blank lines before it.
pub proof fn law_blank_lines_after_block(
    pre_end: u32,
    line_diff: int,
    pre_tok: MoveTok,
    tok: MoveTok,
    pre_ty: TokenTreeType,
    is_normal_token: bool,
    new_line_before_cmt: bool,
    new_line_after_cmt: bool,
    out: Seq<char>,
    gap: Seq<char>,
)
    requires
        pre_end >= MIN_NESTED_LENGTH,
        line_diff >= 1,
    ensures
        ({
            let r = spec_blank_lines_before(
                pre_end,
                line_diff,
                pre_tok,
                tok,
                pre_ty,
                is_normal_token,
                new_line_before_cmt,
                new_line_after_cmt,
                out,
                gap,
            );
            &&& (pre_ty == TokenTreeType::SpecialBlkBrace || pre_ty == TokenTreeType::NormalBrace) && !is_normal_token
                && new_line_after_cmt && !new_line_before_cmt ==> r >= 1 && (line_diff == 1 ==> r == 1)
            &&& (pre_ty == TokenTreeType::SpecialBlkBrace || pre_ty == TokenTreeType::NormalBrace) && !is_normal_token
                && new_line_after_cmt && new_line_before_cmt && line_diff == 1 ==> r == 0
            &&& (pre_ty == TokenTreeType::SpecialBlkBrace || pre_ty == TokenTreeType::NormalBrace) && !is_normal_token
                && !new_line_after_cmt && !new_line_before_cmt && line_diff == 1 ==> r == (if new_line_just_added(
                out,
            ) {
                1nat
            } else {
                2nat
            })
            &&& is_normal_token && line_diff == 1 ==> r == 0
        }),
{
}

/// Near the start of the text (the previous token ends before `MIN_NESTED_LENGTH`) no line
/// break is added; elsewhere at most two are.
pub proof fn law_blank_lines_bounds(
    pre_end: u32,
    line_diff: int,
    pre_tok: MoveTok,
    tok: MoveTok,
    pre_ty: TokenTreeType,
    is_normal_token: bool,
    new_line_before_cmt: bool,
    new_line_after_cmt: bool,
    out: Seq<char>,
    gap: Seq<char>,
)
    ensures
        ({
            let r = spec_blank_lines_before(
                pre_end,
                line_diff,
                pre_tok,
                tok,
                pre_ty,
                is_normal_token,
                new_line_before_cmt,
                new_line_after_cmt,
                out,
                gap,
            );
            &&& pre_end < MIN_NESTED_LENGTH ==> r == 0
            &&& r <= 2
        }),
{
}

/// A keyword (a token that opens a block) on the line after a `{` starts a new line unless a
/// line break was just written; on the line after a `;` it starts a new line, unless a line
/// break was just written and a comment stands between the two. On the same line as a block:
/// after a block in braces the keyword goes to a new line; after the brace block of a
/// function, struct or spec only when something other than whitespace stands in between.
pub proof fn law_blank_lines_keyword_after_token(
    pre_end: u32,
    line_diff: int,
    pre_tok: MoveTok,
    tok: MoveTok,
    pre_ty: TokenTreeType,
    new_line_before_cmt: bool,
    new_line_after_cmt: bool,
    out: Seq<char>,
    gap: Seq<char>,
)
    requires
        pre_end >= MIN_NESTED_LENGTH,
    ensures
        ({
            let r = spec_blank_lines_before(
                pre_end,
                line_diff,
                pre_tok,
                tok,
                pre_ty,
                false,
                new_line_before_cmt,
                new_line_after_cmt,
                out,
                gap,
            );
            &&& pre_ty == TokenTreeType::Simple && pre_tok == MoveTok::LBrace && line_diff == 1 ==> r == (
            if new_line_just_added(out) {
                0nat
            } else {
                1nat
            })
            &&& pre_ty == TokenTreeType::Simple && pre_tok == MoveTok::Semicolon && line_diff == 1 ==> r == (
            if new_line_just_added(out) && !is_blank(gap) {
                0nat
            } else {
                1nat
            })
            &&& pre_ty == TokenTreeType::NormalBrace && line_diff == 0 ==> r == 1
            &&& pre_ty == TokenTreeType::SpecialBlkBrace && line_diff == 0 ==> r == (if is_blank(gap) {
                0nat
            } else {
                1nat
            })
            &&& pre_ty == TokenTreeType::Other && line_diff <= 1 ==> r == 0
        }),
{
}

} // verus!
