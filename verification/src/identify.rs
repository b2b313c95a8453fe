use vstd::prelude::*;

use crate::comment_rewrite::{rewrite_comment_inner, spec_rewrite_comment_inner};
use crate::config::Config;
use crate::layout::{spec_trim_left_preserve_layout, trim_left_preserve_layout};
use crate::rewrite::{light_rewrite_comment, spec_light_rewrite_comment};
use crate::shape::Shape;
use crate::style::{comment_style, same_style, style_of, CommentStyle, StyleView};
use crate::text;
use crate::text::{chars_of, starts_with_at, string_of};

verus! {

/// Start of the line after the one that starts at `a`.
pub open spec fn next_line_start(s: Seq<char>, a: nat) -> nat {
    let e = text::first_newline(s, a);
    if e < s.len() {
        e + 1
    } else {
        s.len() as nat
    }
}

pub proof fn lemma_next_line_start(s: Seq<char>, a: nat)
    requires
        a < s.len(),
    ensures
        a < next_line_start(s, a) <= s.len(),
{
    text::lemma_first_newline_bounds(s, a);
}

/// Where the line starting at `a` ends and the next one starts, in `v`.
fn next_line(v: &Vec<char>, a: usize) -> (r: usize)
    requires
        a < v@.len(),
    ensures
        r == next_line_start(v@, a as nat),
        a < r <= v@.len(),
{
    let e = text::newline_from(v, a);
    proof {
        lemma_next_line_start(v@, a as nat);
    }
    if e < v.len() {
        e + 1
    } else {
        v.len()
    }
}

/// Where the line starting at `a` ends and the next one starts, in `v`.
pub fn next_line_pub(v: &Vec<char>, a: usize) -> (r: usize)
    requires
        a < v@.len(),
    ensures
        r == next_line_start(v@, a as nat),
        a < r <= v@.len(),
{
    next_line(v, a)
}

/// Scans the group of line comments of style `style` from the line that starts at `a`: whether
/// the scan stopped at a blank line, and where the group ends.
pub open spec fn same_line_scan(style: StyleView, s: Seq<char>, a: nat) -> (bool, nat)
    decreases s.len() - a,
{
    if a >= s.len() {
        (false, a)
    } else {
        let t = text::trim_start(text::std_line(s, a));
        if t.len() == 0 {
            (true, a)
        } else if text::has_prefix(t, style.group_line_start()) || style_of(t, false) == style {
            proof {
                lemma_next_line_start(s, a);
            }
            same_line_scan(style, s, next_line_start(s, a))
        } else {
            (false, a)
        }
    }
}

pub proof fn lemma_same_line_scan_bounds(style: StyleView, s: Seq<char>, a: nat)
    requires
        a <= s.len(),
    ensures
        a <= same_line_scan(style, s, a).1 <= s.len(),
    decreases s.len() - a,
{
    if a < s.len() {
        lemma_next_line_start(s, a);
        lemma_same_line_scan_bounds(style, s, next_line_start(s, a));
    }
}

/// Whether a closing `*/` starts at `i`.
pub open spec fn closer_at(s: Seq<char>, i: nat) -> bool {
    i + 1 < s.len() && s[i as int] == '*' && s[i + 1 as int] == '/'
}

/// The number of `*/` in `s[i..]`. Two of them cannot overlap, so this is also the number
/// that a left-to-right search finds.
pub open spec fn closers_from(s: Seq<char>, i: nat) -> nat
    decreases s.len() - i,
{
    if i >= s.len() {
        0
    } else {
        (if closer_at(s, i) {
            1nat
        } else {
            0nat
        }) + closers_from(s, i + 1)
    }
}

pub proof fn lemma_closers_mono(s: Seq<char>, i: nat, j: nat)
    requires
        i <= j,
    ensures
        closers_from(s, i) >= closers_from(s, j),
    decreases j - i,
{
    if i < j {
        lemma_closers_mono(s, i + 1, j);
    }
}

/// Scans the lines of a block comment of style `style` from the line that starts at `a`, until
/// the line that ends with the last of its `count` closers: whether a line does not look like
/// a comment line, and where the scan ends.
pub open spec fn block_scan(style: StyleView, s: Seq<char>, a: nat, count: int, first: bool, hbl: bool) -> (bool, nat)
    decreases s.len() - a,
{
    if a >= s.len() {
        (hbl, a)
    } else {
        let next = next_line_start(s, a);
        let t0 = text::trim_start(text::std_line(s, a));
        let hbl2 = hbl || !(text::has_prefix(t0, "*"@) || text::has_prefix(t0, "//"@)
            || text::has_prefix(t0, "/*"@));
        let t = if first {
            t0.skip(style.block_opener().len() as int)
        } else {
            t0
        };
        proof {
            lemma_next_line_start(s, a);
        }
        if text::has_suffix(t, "*/"@) {
            if count - 1 == 0 {
                (hbl2, next)
            } else {
                block_scan(style, s, next, count - 1, false, hbl2)
            }
        } else {
            block_scan(style, s, next, count, false, hbl2)
        }
    }
}

pub proof fn lemma_block_scan_bounds(style: StyleView, s: Seq<char>, a: nat, count: int, first: bool, hbl: bool)
    requires
        a <= s.len(),
    ensures
        a <= block_scan(style, s, a, count, first, hbl).1 <= s.len(),
        a < s.len() ==> a < block_scan(style, s, a, count, first, hbl).1,
    decreases s.len() - a,
{
    if a < s.len() {
        lemma_next_line_start(s, a);
        let next = next_line_start(s, a);
        lemma_block_scan_bounds(style, s, next, count - 1, false, true);
        lemma_block_scan_bounds(style, s, next, count - 1, false, false);
        lemma_block_scan_bounds(style, s, next, count, false, true);
        lemma_block_scan_bounds(style, s, next, count, false, false);
    }
}

/// The first group of a comment of style `style`: whether it holds a blank (or non-comment)
/// line, and where it ends.
pub open spec fn first_group(style: StyleView, s: Seq<char>) -> (bool, nat) {
    if style.is_block() {
        block_scan(style, s, 0, closers_from(s, 0) as int, true, false)
    } else {
        same_line_scan(style, s, 0)
    }
}

/// The number of `*/` in `v`.
fn count_closers(v: &Vec<char>) -> (c: usize)
    ensures
        c == closers_from(v@, 0),
{
    let mut i = v.len();
    let mut c: usize = 0;
    while i > 0
        invariant
            i <= v@.len(),
            c == closers_from(v@, i as nat),
            c <= v@.len() - i,
        decreases i,
    {
        i = i - 1;
        if i + 1 < v.len() && v[i] == '*' && v[i + 1] == '/' {
            c = c + 1;
        }
    }
    c
}

/// Finds the first group of line comments of style `style` in `v`: whether it is followed by a
/// blank line, and where it ends.
fn consume_same_line_comments(style: &CommentStyle, v: &Vec<char>, line_start: &str) -> (r: (bool, usize))
    requires
        line_start@ == style@.group_line_start(),
    ensures
        r.0 == same_line_scan(style@, v@, 0).0,
        r.1 == same_line_scan(style@, v@, 0).1,
{
    let n = v.len();
    let mut a: usize = 0;
    loop
        invariant
            n == v@.len(),
            a <= n,
            line_start@ == style@.group_line_start(),
            same_line_scan(style@, v@, a as nat) == same_line_scan(style@, v@, 0),
        decreases n - a,
    {
        if a >= n {
            return (false, a);
        }
        let stop = text::std_line_stop(v, a);
        let start = text::trim_start_from(v, a, stop);
        if start == stop {
            return (true, a);
        }
        let line = string_of(v, start, stop);
        let lv = chars_of(line.as_str());
        let line_style = comment_style(line.as_str(), false);
        proof {
            crate::style::lemma_style_of(line_style, line@, false);
        }
        if starts_with_at(&lv, 0, line_start) || same_style(&line_style, style) {
            a = next_line(v, a);
        } else {
            return (false, a);
        }
    }
}

pub proof fn lemma_first_line_holds_prefix(v: Seq<char>, p: Seq<char>)
    requires
        text::has_prefix(v, p),
        forall|j: int| 0 <= j < p.len() ==> p[j] != '\n' && p[j] != '\r',
    ensures
        text::std_line(v, 0).len() >= p.len(),
{
    text::lemma_first_newline_bounds(v, 0);
    let e = text::first_newline(v, 0);
    if e < p.len() {
        assert(v[e as int] == p[e as int]);
    }
    if e > 0 && e - 1 < p.len() {
        assert(v[e - 1] == p[e - 1]);
    }
}

/// Finds the end of the first block comment of style `style` in `v` (that of the last of the
/// `*/` it holds, at a line end), and whether one of its lines does not look like a comment
/// line.
fn consume_block_comment(style: &CommentStyle, v: &Vec<char>) -> (r: (bool, usize))
    requires
        style@.is_block(),
        text::has_prefix(v@, style@.block_opener()),
    ensures
        r.0 == block_scan(style@, v@, 0, closers_from(v@, 0) as int, true, false).0,
        r.1 == block_scan(style@, v@, 0, closers_from(v@, 0) as int, true, false).1,
{
    let n = v.len();
    let oplen: usize = match style {
        CommentStyle::DoubleBullet => 3,
        CommentStyle::Exclamation => 3,
        _ => 2,
    };
    proof {
        reveal_strlit("/**");
        reveal_strlit("/*!");
        reveal_strlit("/*");
        reveal_strlit("*");
        reveal_strlit("//");
        reveal_strlit("*/");
        lemma_first_line_holds_prefix(v@, style@.block_opener());
    }
    let slash_is_whitespace = text::is_whitespace('/');
    let ghost target = block_scan(style@, v@, 0, closers_from(v@, 0) as int, true, false);
    let mut count = count_closers(v);
    let mut a: usize = 0;
    let mut hbl = false;
    let mut first = true;
    loop
        invariant
            n == v@.len(),
            a <= n,
            oplen == style@.block_opener().len(),
            !text::char_is_whitespace('/'),
            first ==> a == 0,
            text::has_prefix(v@, style@.block_opener()),
            text::std_line(v@, 0).len() >= oplen,
            count >= closers_from(v@, a as nat),
            block_scan(style@, v@, a as nat, count as int, first, hbl) == target,
            target == block_scan(style@, v@, 0, closers_from(v@, 0) as int, true, false),
        decreases n - a,
    {
        if a >= n {
            return (hbl, a);
        }
        let next = next_line(v, a);
        let stop = text::std_line_stop(v, a);
        let start = text::trim_start_from(v, a, stop);
        let ghost t0 = v@.subrange(start as int, stop as int);
        proof {
            reveal_strlit("/**");
            reveal_strlit("/*!");
            reveal_strlit("/*");
            reveal_strlit("*");
            reveal_strlit("//");
            reveal_strlit("*/");
            text::lemma_first_newline_bounds(v@, a as nat);
            assert(stop <= next);
            assert(text::has_prefix(t0, "*"@) == (text::has_prefix_at(v@, start as int, "*"@) && start + 1 <= stop)) by {
                if start + 1 <= stop {
                    assert(t0.subrange(0, 1) =~= v@.subrange(start as int, start + 1));
                }
            }
            assert(text::has_prefix(t0, "//"@) == (text::has_prefix_at(v@, start as int, "//"@) && start + 2 <= stop)) by {
                if start + 2 <= stop {
                    assert(t0.subrange(0, 2) =~= v@.subrange(start as int, start + 2));
                }
            }
            assert(text::has_prefix(t0, "/*"@) == (text::has_prefix_at(v@, start as int, "/*"@) && start + 2 <= stop)) by {
                if start + 2 <= stop {
                    assert(t0.subrange(0, 2) =~= v@.subrange(start as int, start + 2));
                }
            }
        }
        if !(starts_with_at(v, start, "*") && start + 1 <= stop) && !(starts_with_at(v, start, "//")
            && start + 2 <= stop) && !(starts_with_at(v, start, "/*") && start + 2 <= stop) {
            hbl = true;
        }
        let ts = if first {
            proof {
                // the first line starts with the opener, whose first character is no whitespace
                assert(v@[0] == style@.block_opener()[0]);
                let l = v@.subrange(0, stop as int);
                text::lemma_trim_start_suffix(l);
                assert(l[0] == v@[0]);
                assert(start == 0);
                assert(t0.skip(oplen as int) =~= v@.subrange(oplen as int, stop as int));
            }
            start + oplen
        } else {
            start
        };
        let ghost t = v@.subrange(ts as int, stop as int);
        let ends_closer = stop - ts >= 2 && v[stop - 2] == '*' && v[stop - 1] == '/';
        proof {
            if ends_closer {
                assert(t.subrange(t.len() - 2, t.len() as int) =~= "*/"@);
            }
            if text::has_suffix(t, "*/"@) {
                assert(t[t.len() - 2] == "*/"@[0]);
                assert(t[t.len() - 1] == "*/"@[1]);
            }
        }
        proof {
            assert(t0 == text::trim_start(text::std_line(v@, a as nat)));
            assert(t == (if first { t0.skip(style@.block_opener().len() as int) } else { t0 }));
            lemma_closers_mono(v@, a as nat, next as nat);
        }
        let ghost old_first = first;
        first = false;
        if ends_closer {
            proof {
                assert(closer_at(v@, (stop - 2) as nat));
                lemma_closers_mono(v@, a as nat, (stop - 2) as nat);
                lemma_closers_mono(v@, (stop - 1) as nat, next as nat);
            }
            count = count - 1;
            if count == 0 {
                return (hbl, next);
            }
        }
        a = next;
    }
}

/// A prefix free of line breaks starts `s` exactly when it starts the first line of `s`.
pub proof fn lemma_prefix_in_first_line(s: Seq<char>, l: Seq<char>, p: Seq<char>)
    requires
        l.len() <= s.len(),
        l == s.take(l.len() as int),
        l.len() < s.len() ==> (s[l.len() as int] == '\n' || s[l.len() as int] == '\r'),
        forall|j: int| 0 <= j < p.len() ==> p[j] != '\n' && p[j] != '\r',
    ensures
        text::has_prefix(s, p) == text::has_prefix(l, p),
{
    if text::has_prefix(s, p) && p.len() > l.len() {
        assert(s.subrange(0, p.len() as int)[l.len() as int] == p[l.len() as int]);
    }
    if text::has_prefix(l, p) {
        assert(s.subrange(0, p.len() as int) =~= l.subrange(0, p.len() as int));
    }
    if text::has_prefix(s, p) && p.len() <= l.len() {
        assert(s.subrange(0, p.len() as int) =~= l.subrange(0, p.len() as int));
    }
}

/// The first line of `s` is a prefix of it, followed by a line break when it is not all of it.
pub proof fn lemma_first_line_prefix(s: Seq<char>)
    ensures
        text::std_line(s, 0).len() <= s.len(),
        text::std_line(s, 0) == s.take(text::std_line(s, 0).len() as int),
        text::std_line(s, 0).len() < s.len() ==> (s[text::std_line(s, 0).len() as int] == '\n'
            || s[text::std_line(s, 0).len() as int] == '\r'),
        forall|j: int| 0 <= j < text::std_line(s, 0).len() ==> s[j] != '\n',
        text::std_line(text::std_line(s, 0), 0) == text::std_line(s, 0),
{
    text::lemma_first_newline_bounds(s, 0);
    let l = text::std_line(s, 0);
    let e = text::first_newline(s, 0);
    assert(l =~= s.take(l.len() as int));
    text::lemma_first_newline_bounds(l, 0);
    assert(text::first_newline(l, 0) == l.len()) by {
        let f = text::first_newline(l, 0);
        if f < l.len() {
            assert(l[f as int] == s[f as int]);
        }
    }
    assert(l.subrange(0, l.len() as int) =~= l);
}

/// The first line of a comment has the style of the whole comment.
pub proof fn lemma_first_line_style(s: Seq<char>)
    requires
        text::char_is_whitespace('\n'),
        text::char_is_whitespace('\r'),
    ensures
        style_of(text::std_line(s, 0), false) == style_of(s, false),
{
    reveal_strlit("/**");
    reveal_strlit("/**/");
    reveal_strlit("/*!");
    reveal_strlit("/*");
    reveal_strlit("///");
    reveal_strlit("//!");
    lemma_first_line_prefix(s);
    let l = text::std_line(s, 0);
    lemma_prefix_in_first_line(s, l, "/**"@);
    lemma_prefix_in_first_line(s, l, "/**/"@);
    lemma_prefix_in_first_line(s, l, "/*!"@);
    lemma_prefix_in_first_line(s, l, "/*"@);
    lemma_prefix_in_first_line(s, l, "///"@);
    lemma_prefix_in_first_line(s, l, "//!"@);
    lemma_prefix_in_first_line(s, l, seq!['/', '/']);
    if l.len() > 3 {
        assert(l[3] == s[3]);
    }
    if l.len() > 2 {
        assert(l[2] == s[2]);
    }
    assert(crate::style::starts_triple_slash(l) == crate::style::starts_triple_slash(s));
    assert(crate::style::spec_is_custom_comment(l) == crate::style::spec_is_custom_comment(s));
    assert(crate::style::spec_custom_opener(l) == crate::style::spec_custom_opener(s));
}

/// A comment that starts with something else than whitespace has a first group that is not
/// empty.
pub proof fn lemma_first_group_progress(s: Seq<char>)
    requires
        s.len() > 0,
        !text::char_is_whitespace(s[0]),
        text::char_is_whitespace('\n'),
        text::char_is_whitespace('\r'),
    ensures
        first_group(style_of(s, false), s).1 > 0,
{
    let style = style_of(s, false);
    if style.is_block() {
        lemma_block_scan_bounds(style, s, 0, closers_from(s, 0) as int, true, false);
    } else {
        lemma_first_line_prefix(s);
        lemma_first_line_style(s);
        let l = text::std_line(s, 0);
        assert(s[0] != '\n');
        assert(l.len() > 0) by {
            text::lemma_first_newline_bounds(s, 0);
            if l.len() == 0 {
                assert(s[0] == '\n' || s[0] == '\r');
            }
        }
        assert(l[0] == s[0]);
        assert(text::trim_start(l) == l);
        lemma_next_line_start(s, 0);
        lemma_same_line_scan_bounds(style, s, next_line_start(s, 0));
    }
}

/// How one group of comments is rewritten: a block comment with bare lines keeps its layout,
/// a doc comment is rewritten line by line, others are trimmed.
pub open spec fn spec_rewrite_group(first: Seq<char>, hbl: bool, style: StyleView, block_style: bool, shape: Shape, config: Config, is_doc_comment: bool) -> Option<Seq<char>> {
    if hbl && style.is_block() {
        spec_trim_left_preserve_layout(first, shape.indent, config)
    } else if !is_doc_comment {
        Some(spec_light_rewrite_comment(first, shape.indent, config, false))
    } else {
        Some(spec_rewrite_comment_inner(first, block_style, style, shape, config, true).0)
    }
}

/// What `rewrite_comment` returns for `s`: its groups of comments one after the other, each
/// rewritten on its own. A block comment with a line that does not look like a comment line
/// keeps its layout; the others are trimmed line by line. The groups are joined by a line
/// feed and the indentation, with a blank line kept after a group of line comments that ended
/// at one. (The recursion goes on comments that are shorter each time; the last condition
/// always holds, since line feeds and carriage returns are whitespace.)
pub open spec fn spec_identify_comment(s: Seq<char>, block_style: bool, shape: Shape, config: Config, is_doc_comment: bool) -> Option<Seq<char>>
    decreases s.len(),
{
    let style = style_of(s, false);
    let (hbl, end) = first_group(style, s);
    let first = s.take(end as int);
    let rest = s.skip(end as int);
    let rewritten = spec_rewrite_group(first, hbl, style, block_style, shape, config, is_doc_comment);
    match rewritten {
        None => None,
        Some(fr) => if end >= s.len() {
            Some(fr)
        } else {
            let rest_t = text::trim_start(rest);
            if rest_t.len() < s.len() {
                match spec_identify_comment(rest_t, block_style, shape, config, is_doc_comment) {
                    None => None,
                    Some(rr) => Some(
                        fr + seq!['\n'] + (if hbl && style.is_line() {
                            seq!['\n']
                        } else {
                            Seq::empty()
                        }) + shape.indent.spec_to_string(config) + rr,
                    ),
                }
            } else {
                None
            }
        },
    }
}

/// Whether rewriting `s` goes without a panic: each group of a doc comment that is rewritten line
/// by line must be (see `spec_rewrite_comment_inner`).
pub open spec fn spec_identify_ok(s: Seq<char>, block_style: bool, shape: Shape, config: Config, is_doc_comment: bool) -> bool
    decreases s.len(),
{
    let style = style_of(s, false);
    let (hbl, end) = first_group(style, s);
    let first = s.take(end as int);
    let rest = s.skip(end as int);
    let ok_here = (hbl && style.is_block()) || !is_doc_comment || spec_rewrite_comment_inner(
        first,
        block_style,
        style,
        shape,
        config,
        true,
    ).1;
    let rest_t = text::trim_start(rest);
    ok_here && (end < s.len() && rest_t.len() < s.len() ==> spec_identify_ok(
        rest_t,
        block_style,
        shape,
        config,
        is_doc_comment,
    ))
}

/// Outside doc comments, rewriting never panics.
pub proof fn lemma_identify_ok_plain(s: Seq<char>, block_style: bool, shape: Shape, config: Config)
    ensures
        spec_identify_ok(s, block_style, shape, config, false),
    decreases s.len(),
{
    let style = style_of(s, false);
    let (hbl, end) = first_group(style, s);
    let rest_t = text::trim_start(s.skip(end as int));
    if end < s.len() && rest_t.len() < s.len() {
        lemma_identify_ok_plain(rest_t, block_style, shape, config);
    }
}

pub proof fn lemma_len_times_mono(k: nat, n: nat, t: nat)
    requires
        k <= n,
    ensures
        k * (t + 1) <= n * (t + 1),
{
    assert(k * (t + 1) <= n * (t + 1)) by (nonlinear_arith)
        requires
            k <= n,
    ;
}

/// What is left of a comment after its first group, without its leading whitespace, is
/// shorter than the comment.
pub proof fn lemma_rest_shorter(v: Seq<char>, end: nat, rest_start: nat)
    requires
        end == first_group(style_of(v, false), v).1,
        end < v.len(),
        end <= rest_start <= v.len(),
        v.subrange(rest_start as int, v.len() as int) == text::trim_start(v.subrange(end as int, v.len() as int)),
        text::char_is_whitespace('\n'),
        text::char_is_whitespace('\r'),
    ensures
        rest_start > 0,
{
    if rest_start == 0 {
        assert(end == 0);
        let t = v.subrange(0, v.len() as int);
        text::lemma_trim_start_suffix(t);
        assert(t =~= v);
        if t.len() > 0 && text::char_is_whitespace(t[0]) {
            assert(text::trim_start(t) == text::trim_start(t.drop_first()));
            text::lemma_trim_start_suffix(t.drop_first());
        }
        lemma_first_group_progress(v);
    }
}

/// Finds the first group of comments of `v`, by its style.
fn find_first_group(style: &CommentStyle, v: &Vec<char>) -> (r: (bool, usize))
    requires
        style@ == style_of(v@, false),
    ensures
        r.0 == first_group(style@, v@).0,
        r.1 == first_group(style@, v@).1,
{
    proof {
        reveal_strlit("// ");
        reveal_strlit("/// ");
        reveal_strlit("//! ");
        reveal_strlit("/**");
        reveal_strlit("/*!");
        reveal_strlit("/*");
    }
    match style {
        CommentStyle::DoubleSlash | CommentStyle::TripleSlash | CommentStyle::Doc => {
            let line_start = style.line_start();
            consume_same_line_comments(style, v, line_start)
        },
        CommentStyle::Custom(opener) => {
            let ov = chars_of(opener);
            let trimmed_opener = crate::layout::trim_end_chars(&ov);
            consume_same_line_comments(style, v, trimmed_opener.as_str())
        },
        CommentStyle::DoubleBullet | CommentStyle::SingleBullet | CommentStyle::Exclamation => {
            consume_block_comment(style, v)
        },
    }
}

/// Rewrites one group of comments.
fn rewrite_group(
    first: &str,
    hbl: bool,
    style: CommentStyle,
    block_style: bool,
    shape: Shape,
    config: &Config,
    is_doc_comment: bool,
) -> (r: Option<String>)
    requires
        shape.indent.spec_width() + first@.len() * (config.tab_spaces + 1) <= usize::MAX,
        config.hard_tabs ==> config.tab_spaces > 0,
        (hbl && style@.is_block()) || !is_doc_comment || spec_rewrite_comment_inner(
            first@,
            block_style,
            style@,
            shape,
            *config,
            true,
        ).1,
    ensures
        r matches Some(x) ==> spec_rewrite_group(first@, hbl, style@, block_style, shape, *config, is_doc_comment) == Some(x@),
        r is None <==> spec_rewrite_group(first@, hbl, style@, block_style, shape, *config, is_doc_comment) is None,
{
    if hbl && style.is_block_comment() {
        trim_left_preserve_layout(first, shape.indent, config)
    } else if !is_doc_comment {
        Some(light_rewrite_comment(first, shape.indent, config, is_doc_comment))
    } else {
        proof {
            let n = first@.len();
            assert(shape.indent.spec_width() <= usize::MAX) by (nonlinear_arith)
                requires
                    shape.indent.spec_width() + n * (config.tab_spaces + 1) <= usize::MAX,
            ;
        }
        rewrite_comment_inner(first, block_style, style, shape, config, is_doc_comment || style.is_doc_comment())
    }
}

#[verifier::rlimit(80)]
#[verifier::spinoff_prover]
fn identify_comment(orig: &str, block_style: bool, shape: Shape, config: &Config, is_doc_comment: bool) -> (r: Option<String>)
    requires
        shape.indent.spec_width() + orig@.len() * (config.tab_spaces + 1) <= usize::MAX,
        config.hard_tabs ==> config.tab_spaces > 0,
        spec_identify_ok(orig@, block_style, shape, *config, is_doc_comment),
    ensures
        r matches Some(x) ==> spec_identify_comment(orig@, block_style, shape, *config, is_doc_comment) == Some(x@),
        r is None <==> spec_identify_comment(orig@, block_style, shape, *config, is_doc_comment) is None,
    decreases orig@.len(),
{
    let v = chars_of(orig);
    let n = v.len();
    let style = comment_style(orig, false);
    proof {
        crate::style::lemma_style_of(style, orig@, false);
    }
    let (has_bare_lines, end) = find_first_group(&style, &v);
    proof {
        lemma_same_line_scan_bounds(style@, v@, 0);
        lemma_block_scan_bounds(style@, v@, 0, closers_from(v@, 0) as int, true, false);
        assert(v@.take(end as int) =~= v@.subrange(0, end as int));
        lemma_len_times_mono(end as nat, n as nat, config.tab_spaces as nat);
    }
    let first_group = crate::text::string_of(&v, 0, end);
    let rewritten_first_group = match rewrite_group(
        first_group.as_str(),
        has_bare_lines,
        style,
        block_style,
        shape,
        config,
        is_doc_comment,
    ) {
        Some(x) => x,
        None => {
            return None;
        },
    };
    if end == n {
        return Some(rewritten_first_group);
    }
    let rest_start = text::trim_start_from(&v, end, n);
    let rest = crate::text::string_of(&v, rest_start, n);
    let newline_is_whitespace = text::is_whitespace('\n');
    let return_is_whitespace = text::is_whitespace('\r');
    proof {
        assert(v@.skip(end as int) =~= v@.subrange(end as int, n as int));
        lemma_rest_shorter(v@, end as nat, rest_start as nat);
        lemma_len_times_mono(rest@.len(), n as nat, config.tab_spaces as nat);
    }
    match identify_comment(rest.as_str(), block_style, shape, config, is_doc_comment) {
        None => None,
        Some(rest_str) => {
            let mut r = rewritten_first_group;
            text::string_push(&mut r, '\n');
            if has_bare_lines && style.is_line_comment() {
                text::string_push(&mut r, '\n');
            }
            let indent_str = shape.indent.to_string(config);
            r.append(indent_str.as_str());
            r.append(rest_str.as_str());
            Some(r)
        },
    }
}

/// Rewrites the comment `orig` with the indentation of `shape`: each group of comments in it
/// is trimmed line by line, or, for a block comment with lines that do not look like comment
/// lines, re-indented with its layout kept. `None` when such a block comment has no line
/// after its first that can be re-indented.
pub fn rewrite_comment(orig: &str, block_style: bool, shape: Shape, config: &Config) -> (r: Option<String>)
    requires
        shape.indent.spec_width() + orig@.len() * (config.tab_spaces + 1) <= usize::MAX,
        config.hard_tabs ==> config.tab_spaces > 0,
    ensures
        r matches Some(x) ==> spec_identify_comment(orig@, block_style, shape, *config, false) == Some(x@),
        r is None <==> spec_identify_comment(orig@, block_style, shape, *config, false) is None,
{
    proof {
        lemma_identify_ok_plain(orig@, block_style, shape, *config);
    }
    identify_comment(orig, block_style, shape, config, false)
}

} // verus!
