use vstd::prelude::*;

use crate::cli::{comma_pieces, first_of};
use crate::rewrite::join;
use crate::string_fmt::{contains_seq, contains_str, spec_has_url_scheme};
use crate::text;
use crate::config::Config;
use crate::shape::{Indent, Shape};
use crate::string_fmt::{rewrite_string, StringFormat};
use crate::style::{comment_style, str_eq, style_of, CommentStyle, StyleView};
use crate::text::{chars_of, starts_with_at, string_of};
use regex::Regex;
use vstd::string::StrSliceExecFns;

verus! {

/// The number of line feeds in `s`.
pub open spec fn count_newlines(s: Seq<char>) -> nat
    decreases s.len(),
{
    if s.len() == 0 {
        0
    } else {
        count_newlines(s.drop_last()) + if s.last() == '\n' {
            1nat
        } else {
            0nat
        }
    }
}

/// The number of line feeds in `v`.
fn count_newlines_exec(v: &Vec<char>) -> (n: usize)
    ensures
        n == count_newlines(v@),
        n <= v@.len(),
{
    let mut n: usize = 0;
    let mut i: usize = 0;
    while i < v.len()
        invariant
            i <= v@.len(),
            n == count_newlines(v@.take(i as int)),
            n <= i,
        decreases v.len() - i,
    {
        proof {
            assert(v@.take(i + 1).drop_last() =~= v@.take(i as int));
        }
        if v[i] == '\n' {
            n = n + 1;
        }
        i = i + 1;
    }
    proof {
        assert(v@.take(i as int) =~= v@);
    }
    n
}

/// Whether `s` starts like a reference link definition of Markdown: a `[`, at least one
/// character other than a line feed, a `]`, an optional whitespace character, then a `:`.
pub open spec fn spec_reference_link(s: Seq<char>) -> bool {
    &&& s.len() > 0
    &&& s[0] == '['
    &&& exists|j: int|
        2 <= j < s.len() && #[trigger] s[j] == ']' && (forall|k: int| 1 <= k < j ==> s[k] != '\n')
            && ((j + 1 < s.len() && s[j + 1] == ':') || (j + 2 < s.len()
            && text::char_is_whitespace(s[j + 1]) && s[j + 2] == ':'))
}

/// `Regex::is_match` for the pattern `^\[.+\]\s?:`: `.` is any character but a line feed and
/// `\s` a character with the Unicode `White_Space` property, so it matches where
/// `spec_reference_link` holds.
#[verifier::external_body]
fn is_reference_link(s: &str) -> (b: bool)
    ensures
        b == spec_reference_link(s@),
{
    Regex::new(r"^\[.+\]\s?:").unwrap().is_match(s)
}

/// Whether a comment line may hold a URL or a reference link.
pub open spec fn spec_has_url(s: Seq<char>) -> bool {
    spec_has_url_scheme(s) || spec_reference_link(s)
}

/// Returns `true` if the given string MAY include URLs or alike.
pub fn has_url(s: &str) -> (b: bool)
    ensures
        b == spec_has_url(s@),
{
    let v = chars_of(s);
    contains_str(&v, "https://") || contains_str(&v, "http://") || contains_str(&v, "ftp://")
        || contains_str(&v, "file://") || is_reference_link(s)
}

/// Whether a line may be part of a Markdown table: once its leading whitespace is trimmed, it
/// starts with `|` and holds another `|`.
pub open spec fn spec_is_table_item(s: Seq<char>) -> bool {
    let t = text::trim_start(s);
    t.len() > 0 && t[0] == '|' && exists|k: int| 1 <= k < t.len() && #[trigger] t[k] == '|'
}

/// Returns true if the given string may be part of a Markdown table.
pub fn is_table_item(s: &str) -> (b: bool)
    ensures
        b == spec_is_table_item(s@),
{
    let v = chars_of(s);
    let n = v.len();
    let start = text::trim_start_from(&v, 0, n);
    proof {
        assert(v@.subrange(0, n as int) =~= v@);
    }
    if start >= n || v[start] != '|' {
        return false;
    }
    let mut k = n;
    while k > start + 1
        invariant
            start + 1 <= k <= n,
            n == v@.len(),
            v@ == s@,
            start < n,
            v@[start as int] == '|',
            v@.subrange(start as int, n as int) == text::trim_start(s@),
            forall|j: int| k <= j < n ==> v@[j] != '|',
        decreases k,
    {
        if v[k - 1] == '|' {
            proof {
                let t = v@.subrange(start as int, n as int);
                assert(t[k - 1 - start] == '|');
                assert(text::trim_start(s@)[k - 1 - start] == '|');
            }
            return true;
        }
        k = k - 1;
    }
    proof {
        let t = v@.subrange(start as int, n as int);
        assert forall|j: int| 1 <= j < t.len() implies text::trim_start(s@)[j] != '|' by {
            assert(t[j] == v@[start + j]);
        }
    }
    false
}

/// The prefix that hides a line of a code block starting with `#`.
pub open spec fn custom_comment_prefix() -> Seq<char> {
    seq!['/', '/', '#', '#', '#', '#', ' ']
}

/// `s` without its leading and trailing whitespace.
pub open spec fn trim_both(s: Seq<char>) -> Seq<char> {
    text::trim_start(text::trim_end(s))
}

/// A code block line that starts with `# ` (or is `#`) gets the hiding prefix.
pub open spec fn spec_hide_sharp(s: Seq<char>) -> Seq<char> {
    let t = trim_both(s);
    if text::has_prefix(t, seq!['#', ' ']) || t == seq!['#'] {
        custom_comment_prefix() + s
    } else {
        s
    }
}

fn trimmed_range(v: &Vec<char>) -> (r: (usize, usize))
    ensures
        r.0 <= r.1 <= v@.len(),
        v@.subrange(r.0 as int, r.1 as int) == trim_both(v@),
{
    let stop = text::trim_end_stop(v, 0, v.len());
    let start = text::trim_start_from(v, 0, stop);
    proof {
        assert(v@.subrange(0, v@.len() as int) =~= v@);
    }
    (start, stop)
}

pub fn hide_sharp_behind_comment(s: &str) -> (r: String)
    ensures
        r@ == spec_hide_sharp(s@),
{
    let v = chars_of(s);
    let (a, b) = trimmed_range(&v);
    proof {
        reveal_strlit("# ");
        reveal_strlit("//#### ");
        assert("# "@ =~= seq!['#', ' ']);
        assert("//#### "@ =~= custom_comment_prefix());
    }
    let ghost t = v@.subrange(a as int, b as int);
    let starts = b - a >= 2 && starts_with_at(&v, a, "# ");
    let only = b - a == 1 && v[a] == '#';
    proof {
        if b - a >= 2 {
            assert(t.subrange(0, 2) =~= v@.subrange(a as int, a + 2));
        }
        if only {
            assert(t.len() == 1);
            assert(t[0] == v@[a as int]);
            assert(t =~= seq!['#']);
            assert(trim_both(s@) == seq!['#']);
        }
        assert(t == trim_both(s@));
        if t == seq!['#'] {
            assert(t.len() == 1);
            assert(b - a == 1);
            assert(v@[a as int] == t[0]);
            assert(t[0] == '#');
        }
        assert(starts == text::has_prefix(trim_both(s@), seq!['#', ' ']));
        assert(only == (trim_both(s@) == seq!['#']));
    }
    if starts || only {
        let mut r = String::new();
        r.append("//#### ");
        r.append(s);
        assert(r@ =~= custom_comment_prefix() + s@);
        r
    } else {
        let mut r = String::new();
        r.append(s);
        assert(r@ =~= s@);
        r
    }
}

/// `s` with the hiding prefix taken off its start as many times as it is there.
pub open spec fn trim_start_prefix(s: Seq<char>) -> Seq<char>
    decreases s.len(),
{
    if text::has_prefix(s, custom_comment_prefix()) {
        trim_start_prefix(s.skip(7))
    } else {
        s
    }
}

/// A line of a code block with the hiding prefix taken off.
pub open spec fn unhide_line(line: Seq<char>) -> Seq<char> {
    let lt = text::trim_start(line);
    if text::has_prefix(lt, custom_comment_prefix()) {
        trim_start_prefix(lt)
    } else {
        line
    }
}

pub open spec fn unhide_lines(ls: Seq<Seq<char>>) -> Seq<Seq<char>> {
    Seq::new(ls.len(), |i: int| unhide_line(ls[i]))
}

/// What `trim_custom_comment_prefix` returns.
pub open spec fn spec_trim_custom_comment_prefix(s: Seq<char>) -> Seq<char> {
    join(unhide_lines(text::std_lines(s)), seq!['\n'])
}

/// The line `v[a..b]` with the hiding prefix taken off.
fn unhide_line_exec(v: &Vec<char>, a: usize, b: usize) -> (r: String)
    requires
        a <= b <= v@.len(),
    ensures
        r@ == unhide_line(v@.subrange(a as int, b as int)),
{
    let start = text::trim_start_from(v, a, b);
    proof {
        reveal_strlit("//#### ");
        assert("//#### "@ =~= custom_comment_prefix());
    }
    let ghost lt = v@.subrange(start as int, b as int);
    if b - start >= 7 && starts_with_at(v, start, "//#### ") {
        proof {
            assert(lt.subrange(0, 7) =~= v@.subrange(start as int, start + 7));
        }
        let mut p = start;
        while b - p >= 7 && starts_with_at(v, p, "//#### ")
            invariant
                start <= p <= b <= v@.len(),
                "//#### "@ == custom_comment_prefix(),
                lt == v@.subrange(start as int, b as int),
                trim_start_prefix(v@.subrange(p as int, b as int)) == trim_start_prefix(lt),
            decreases b - p,
        {
            proof {
                let w = v@.subrange(p as int, b as int);
                assert(w.subrange(0, 7) =~= v@.subrange(p as int, p + 7));
                assert(w.skip(7) =~= v@.subrange(p + 7, b as int));
            }
            p = p + 7;
        }
        proof {
            let w = v@.subrange(p as int, b as int);
            if text::has_prefix(w, custom_comment_prefix()) {
                assert(w.subrange(0, 7) =~= v@.subrange(p as int, p + 7));
            }
        }
        string_of(v, p, b)
    } else {
        proof {
            if text::has_prefix(lt, custom_comment_prefix()) {
                assert(lt.subrange(0, 7) =~= v@.subrange(start as int, start + 7));
            }
        }
        string_of(v, a, b)
    }
}

pub proof fn lemma_unhide_lines_push(ls: Seq<Seq<char>>, l: Seq<char>)
    ensures
        unhide_lines(ls.push(l)) == unhide_lines(ls).push(unhide_line(l)),
{
    assert(unhide_lines(ls.push(l)) =~= unhide_lines(ls).push(unhide_line(l)));
}

/// Takes the hiding prefix off the lines of a code block, and joins them with line feeds.
pub fn trim_custom_comment_prefix(s: &str) -> (r: String)
    ensures
        r@ == spec_trim_custom_comment_prefix(s@),
{
    let v = chars_of(s);
    let n = v.len();
    let ghost all = text::std_lines(s@);
    let mut r = String::new();
    let mut a: usize = 0;
    let mut k: usize = 0;
    proof {
        assert(unhide_lines(all.take(0)) =~= Seq::<Seq<char>>::empty());
        assert(all.skip(0) =~= all);
    }
    while a < n
        invariant
            v@ == s@,
            n == v@.len(),
            a <= n,
            all == text::std_lines(s@),
            k <= all.len(),
            k <= a,
            all.skip(k as int) == text::std_lines_from(v@, a as nat),
            r@ == join(unhide_lines(all.take(k as int)), seq!['\n']),
        decreases n - a,
    {
        let e = text::newline_from(&v, a);
        let stop = text::std_line_stop(&v, a);
        proof {
            crate::rewrite::lemma_std_lines_step(v@, a as nat);
            text::lemma_first_newline_bounds(v@, a as nat);
            assert(all.skip(k as int).len() >= 1);
            assert(all.skip(k as int)[0] == all[k as int]);
        }
        let piece = unhide_line_exec(&v, a, stop);
        proof {
            let l = all[k as int];
            assert(l == v@.subrange(a as int, stop as int));
            assert(all.take(k + 1) =~= all.take(k as int).push(l));
            lemma_unhide_lines_push(all.take(k as int), l);
            crate::rewrite::lemma_join_push(unhide_lines(all.take(k as int)), seq!['\n'], piece@);
            assert(all.skip(k + 1) =~= all.skip(k as int).drop_first());
        }
        if k > 0 {
            text::string_push(&mut r, '\n');
        }
        r.append(piece.as_str());
        k = k + 1;
        a = if e < n {
            e + 1
        } else {
            n
        };
    }
    proof {
        assert(text::std_lines_from(v@, a as nat) =~= Seq::<Seq<char>>::empty());
        assert(all.take(k as int) =~= all);
    }
    r
}

/// Whether a code block holds Move code, by its attributes.
#[derive(Clone, Copy, Debug, PartialEq, Eq, Structural)]
pub enum CodeBlockAttribute {
    Move,
    NotMove,
}

/// A code block holds Move code when each of its comma-separated attributes is empty or `run`.
pub open spec fn spec_code_block_attribute(attributes: Seq<char>) -> CodeBlockAttribute {
    let ps = comma_pieces(attributes, 0);
    if forall|i: int| 0 <= i < ps.len() ==> trim_both(#[trigger] ps[i]) == Seq::<char>::empty()
        || trim_both(ps[i]) == seq!['r', 'u', 'n'] {
        CodeBlockAttribute::Move
    } else {
        CodeBlockAttribute::NotMove
    }
}

impl CodeBlockAttribute {
    /// Parses a comma separated attributes list. Returns `Move` only if all attributes are valid
    /// Move attributes.
    pub fn new(attributes: &str) -> (r: CodeBlockAttribute)
        ensures
            r == spec_code_block_attribute(attributes@),
    {
        let v = chars_of(attributes);
        let n = v.len();
        let ghost s = attributes@;
        let mut a: usize = 0;
        let ghost mut k: nat = 0;
        loop
            invariant
                v@ == s,
                s == attributes@,
                n == s.len(),
                a <= n,
                k < comma_pieces(s, 0).len(),
                comma_pieces(s, 0).skip(k as int) == comma_pieces(s, a as nat),
                forall|i: int|
                    0 <= i < k ==> trim_both(#[trigger] comma_pieces(s, 0)[i]) == Seq::<char>::empty()
                        || trim_both(comma_pieces(s, 0)[i]) == seq!['r', 'u', 'n'],
            decreases n + 1 - a,
        {
            let e = crate::cli::find_char(&v, ',', a, n);
            proof {
                crate::cli::lemma_first_of_find(s, ',', a as nat, e as nat);
                assert(comma_pieces(s, 0)[k as int] == comma_pieces(s, a as nat)[0]);
            }
            let piece = string_of(&v, a, e);
            let pv = chars_of(piece.as_str());
            let (x, y) = trimmed_range(&pv);
            let ok = x == y || (y - x == 3 && pv[x] == 'r' && pv[x + 1] == 'u' && pv[x + 2] == 'n');
            proof {
                let t = pv@.subrange(x as int, y as int);
                if y - x == 3 && pv@[x as int] == 'r' && pv@[x + 1] == 'u' && pv@[x + 2] == 'n' {
                    assert(t =~= seq!['r', 'u', 'n']);
                }
                if x == y {
                    assert(t =~= Seq::<char>::empty());
                }
                if t == seq!['r', 'u', 'n'] {
                    assert(t[0] == 'r' && t[1] == 'u' && t[2] == 'n');
                }
            }
            proof {
                assert(comma_pieces(s, a as nat)[0] == s.subrange(a as int, e as int));
                assert(pv@ == comma_pieces(s, 0)[k as int]);
            }
            if !ok {
                proof {
                    let t = pv@.subrange(x as int, y as int);
                    assert(t != Seq::<char>::empty()) by {
                        if t == Seq::<char>::empty() {
                            assert(t.len() == 0);
                        }
                    }
                    assert(t != seq!['r', 'u', 'n']) by {
                        if t == seq!['r', 'u', 'n'] {
                            assert(t.len() == 3);
                            assert(t[0] == 'r' && t[1] == 'u' && t[2] == 'n');
                            assert(pv@[x as int] == t[0]);
                            assert(pv@[x + 1] == t[1]);
                            assert(pv@[x + 2] == t[2]);
                        }
                    }
                    assert(!(trim_both(comma_pieces(s, 0)[k as int]) == Seq::<char>::empty()
                        || trim_both(comma_pieces(s, 0)[k as int]) == seq!['r', 'u', 'n']));
                }
                return CodeBlockAttribute::NotMove;
            }
            if e >= n {
                proof {
                    assert(comma_pieces(s, 0).len() == k + 1) by {
                        assert(comma_pieces(s, 0).skip(k as int).len() == 1);
                    }
                }
                return CodeBlockAttribute::Move;
            }
            proof {
                assert(comma_pieces(s, 0).skip(k + 1 as int) =~= comma_pieces(s, 0).skip(k as int).drop_first());
                assert(comma_pieces(s, a as nat).drop_first() =~= comma_pieces(s, (e + 1) as nat));
                k = k + 1;
            }
            a = e + 1;
        }
    }
}

/// The lines `ls[i..]` joined as `join_block` does: a line followed by one that is empty gets
/// the separator without its trailing whitespace.
pub open spec fn join_block_from(ls: Seq<Seq<char>>, i: nat, sep: Seq<char>) -> Seq<char>
    decreases ls.len() - i,
{
    if i >= ls.len() {
        Seq::empty()
    } else {
        ls[i as int] + (if i + 1 < ls.len() {
            if ls[i + 1 as int].len() == 0 {
                text::trim_end(sep)
            } else {
                sep
            }
        } else {
            Seq::empty()
        }) + join_block_from(ls, i + 1, sep)
    }
}

/// Joins the lines of `s` with `sep`, where a line followed by an empty one gets `sep` without
/// its trailing whitespace.
fn join_block(s: &str, sep: &str) -> (r: String)
    ensures
        r@ == join_block_from(text::std_lines(s@), 0, sep@),
{
    let v = chars_of(s);
    let n = v.len();
    let sv = chars_of(sep);
    let sep_trimmed = crate::layout::trim_end_chars(&sv);
    let ghost all = text::std_lines(s@);
    let mut r = String::new();
    let mut a: usize = 0;
    let mut k: usize = 0;
    proof {
        assert(all.skip(0) =~= all);
    }
    while a < n
        invariant
            v@ == s@,
            n == v@.len(),
            sv@ == sep@,
            sep_trimmed@ == text::trim_end(sep@),
            a <= n,
            all == text::std_lines(s@),
            k <= all.len(),
            k <= a,
            all.skip(k as int) == text::std_lines_from(v@, a as nat),
            r@ + join_block_from(all, k as nat, sep@) == join_block_from(all, 0, sep@),
        decreases n - a,
    {
        let stop = text::std_line_stop(&v, a);
        let next = crate::identify::next_line_pub(&v, a);
        proof {
            crate::rewrite::lemma_std_lines_step(v@, a as nat);
            text::lemma_first_newline_bounds(v@, a as nat);
            assert(all.skip(k as int).len() >= 1);
            assert(all.skip(k as int)[0] == all[k as int]);
            assert(all.skip(k + 1) =~= all.skip(k as int).drop_first());
            assert(all[k as int] == v@.subrange(a as int, stop as int));
        }
        let line = string_of(&v, a, stop);
        r.append(line.as_str());
        if next < n {
            let nstop = text::std_line_stop(&v, next);
            proof {
                crate::rewrite::lemma_std_lines_step(v@, next as nat);
                assert(all.skip(k + 1)[0] == all[k + 1]);
                assert(all[k + 1] == v@.subrange(next as int, nstop as int));
            }
            if nstop == next {
                r.append(sep_trimmed.as_str());
            } else {
                r.append(sep);
            }
        } else {
            proof {
                assert(all.skip(k + 1).len() == 0);
            }
        }
        proof {
            let piece = all[k as int] + (if k + 1 < all.len() {
                if all[k + 1].len() == 0 {
                    text::trim_end(sep@)
                } else {
                    sep@
                }
            } else {
                Seq::empty()
            });
            assert(join_block_from(all, k as nat, sep@) == piece + join_block_from(all, (k + 1) as nat, sep@));
        }
        k = k + 1;
        a = next;
    }
    proof {
        assert(text::std_lines_from(v@, a as nat) =~= Seq::<Seq<char>>::empty());
        assert(join_block_from(all, k as nat, sep@) =~= Seq::<char>::empty());
    }
    r
}

} // verus!

verus! {

/// The opener, closer and line start of a style, as `CommentStyle::to_str_tuplet` gives them.
pub open spec fn style_parts(style: StyleView) -> (Seq<char>, Seq<char>, Seq<char>) {
    match style {
        StyleView::DoubleSlash => ("// "@, ""@, "// "@),
        StyleView::TripleSlash => ("/// "@, ""@, "/// "@),
        StyleView::Doc => ("//! "@, ""@, "//! "@),
        StyleView::SingleBullet => ("/* "@, " */"@, " * "@),
        StyleView::DoubleBullet => ("/** "@, " */"@, " * "@),
        StyleView::Exclamation => ("/*! "@, " */"@, " * "@),
        StyleView::Custom(o) => (o, ""@, o),
    }
}

/// What stays the same while a comment is rewritten line by line.
pub struct RwConsts {
    pub opener: Seq<char>,
    pub closer: Seq<char>,
    pub line_start: Seq<char>,
    pub separator: Seq<char>,
    pub indent_str: Seq<char>,
    pub max_width: usize,
    pub fmt_indent: Indent,
    pub config: Config,
    pub num_newlines: nat,
    pub is_doc_comment: bool,
}

/// The state of the rewriting of a comment between two lines.
pub struct RwState {
    pub result: Seq<char>,
    pub code_block_buffer: Seq<char>,
    pub is_prev_line_multi_line: bool,
    pub in_code_block: bool,
    pub shape: Shape,
}

/// The constants of the rewriting of `orig` with `shape`: the opener, closer and line start of
/// its style (of `/* */` when `block_style`), and the width left to the text of a line.
pub open spec fn rw_consts(orig: Seq<char>, block_style: bool, shape: Shape, config: Config, is_doc_comment: bool) -> RwConsts {
    let (opener, closer, line_start) = if block_style {
        style_parts(StyleView::SingleBullet)
    } else {
        style_parts(style_of(orig, false))
    };
    let used = text::byte_len(closer) + text::byte_len(opener);
    let indent_str = seq!['\n'] + shape.indent.spec_to_string(config);
    RwConsts {
        opener,
        closer,
        line_start,
        separator: indent_str + line_start,
        indent_str,
        max_width: if shape.width >= used {
            (shape.width - used) as usize
        } else {
            1
        },
        fmt_indent: shape.indent,
        config,
        num_newlines: count_newlines(orig),
        is_doc_comment,
    }
}

pub open spec fn rw_initial(c: RwConsts) -> RwState {
    RwState {
        result: c.opener,
        code_block_buffer: Seq::empty(),
        is_prev_line_multi_line: false,
        in_code_block: false,
        shape: Shape { width: c.max_width, indent: c.fmt_indent, offset: c.fmt_indent.alignment },
    }
}

/// Whether `s` ends with `c`.
pub open spec fn ends_with_char(s: Seq<char>, c: char) -> bool {
    s.len() > 0 && s.last() == c
}

/// `s` without its last character, if it has one.
pub open spec fn pop(s: Seq<char>) -> Seq<char> {
    if s.len() > 0 {
        s.drop_last()
    } else {
        s
    }
}

/// A line rewritten to fit `shape`, as the comment rewriter asks it of `rewrite_string`.
pub open spec fn rw_rewrite(line: Seq<char>, c: RwConsts, shape: Shape) -> Option<Seq<char>> {
    crate::string_fmt::spec_rewrite_text(
        line,
        Seq::empty(),
        Seq::empty(),
        c.line_start,
        Seq::empty(),
        shape,
        true,
        c.config,
        c.max_width as nat,
    )
}

/// Whether `s` holds a line feed.
pub open spec fn has_newline(s: Seq<char>) -> bool {
    exists|i: int| 0 <= i < s.len() && s[i] == '\n'
}

/// The text written before a line's own text, and whether the line ends the rewriting there
/// (`Some(stop)`), or goes on.
pub open spec fn rw_lead(st: RwState, c: RwConsts, i: nat, line: Seq<char>, hlw: bool) -> (Seq<char>, Option<bool>) {
    let is_last = i == c.num_newlines;
    if st.result == c.opener {
        let force = c.opener == "/* "@ && c.num_newlines == 0;
        let r1 = if !hlw && !force && ends_with_char(st.result, ' ') {
            st.result.drop_last()
        } else {
            st.result
        };
        if line.len() == 0 {
            (r1, Some(false))
        } else {
            (r1, None)
        }
    } else if st.is_prev_line_multi_line && line.len() > 0 {
        (st.result.push(' '), None)
    } else if is_last && line.len() == 0 {
        (if c.closer.len() > 0 {
            st.result + c.indent_str
        } else {
            st.result
        }, Some(true))
    } else {
        let r0 = st.result + c.separator;
        (if !hlw && ends_with_char(r0, ' ') {
            r0.drop_last()
        } else {
            r0
        }, None)
    }
}

/// The result, the previous-line-wrapped flag and the shape base after a line that is wrapped.
pub open spec fn rw_wrapped(st: RwState, c: RwConsts, r1: Seq<char>, line: Seq<char>) -> (Seq<char>, bool, Shape) {
    match rw_rewrite(line, c, st.shape) {
        Some(s) => (r1 + s, has_newline(s), st.shape),
        None => if st.is_prev_line_multi_line {
            let r_sep = pop(r1) + c.separator;
            let legacy = Shape { width: c.max_width, indent: c.fmt_indent, offset: c.fmt_indent.alignment };
            match rw_rewrite(line, c, legacy) {
                Some(s) => (r_sep + s, has_newline(s), legacy),
                None => (r_sep + line, false, legacy),
            }
        } else {
            (r1 + line, false, st.shape)
        },
    }
}

/// The shape for the next line after a wrapped one, or `None` where its `usize` arithmetic
/// would overflow.
pub open spec fn rw_next_shape(c: RwConsts, result: Seq<char>, prev: bool, base: Shape) -> Option<Shape> {
    if prev {
        let w = crate::string_fmt::spec_last_line_width(result);
        let ls = text::byte_len(c.line_start);
        if 1 + w > usize::MAX || 1 + w < ls || base.offset + (1 + w - ls) > usize::MAX {
            None
        } else {
            let offset = (1 + w - ls) as nat;
            Some(Shape {
                width: if c.max_width >= offset {
                    (c.max_width - offset) as usize
                } else {
                    0
                },
                indent: c.fmt_indent,
                offset: (base.offset + offset) as usize,
            })
        }
    } else {
        Some(Shape { width: c.max_width, indent: c.fmt_indent, offset: c.fmt_indent.alignment })
    }
}

/// One line handled by the comment rewriter: the new state, whether the rewriting stops there,
/// and whether the line is handled without an arithmetic overflow.
pub open spec fn rw_handle(st: RwState, c: RwConsts, i: nat, line: Seq<char>, hlw: bool) -> (RwState, bool, bool) {
    if st.in_code_block {
        (
            RwState {
                code_block_buffer: st.code_block_buffer + spec_hide_sharp(line) + seq!['\n'],
                ..st
            },
            false,
            true,
        )
    } else {
        let in_code = text::has_prefix(line, "```"@);
        let (r1, early) = rw_lead(st, c, i, line, hlw);
        match early {
            Some(stop) => (RwState { result: r1, in_code_block: in_code, ..st }, stop, true),
            None => {
                let is_last = i == c.num_newlines;
                let is_md_header = c.is_doc_comment && text::has_prefix(line, "#"@);
                let should_wrap = !is_md_header && crate::string_fmt::str_width(line)
                    > st.shape.width && !spec_has_url(line) && !spec_is_table_item(line);
                if should_wrap {
                    let (r2, prev, base) = rw_wrapped(st, c, r1, line);
                    match rw_next_shape(c, r2, prev, base) {
                        Some(sh) => (
                            RwState {
                                result: r2,
                                code_block_buffer: st.code_block_buffer,
                                is_prev_line_multi_line: prev,
                                in_code_block: in_code,
                                shape: sh,
                            },
                            false,
                            true,
                        ),
                        None => (st, false, false),
                    }
                } else {
                    let r2 = if line.len() == 0 && ends_with_char(r1, ' ') && !is_last {
                        r1.drop_last()
                    } else {
                        r1
                    };
                    (
                        RwState {
                            result: r2 + line,
                            code_block_buffer: st.code_block_buffer,
                            is_prev_line_multi_line: false,
                            in_code_block: in_code,
                            shape: Shape {
                                width: c.max_width,
                                indent: c.fmt_indent,
                                offset: c.fmt_indent.alignment,
                            },
                        },
                        false,
                        true,
                    )
                }
            },
        }
    }
}

/// What `finish` returns from a state.
pub open spec fn rw_finish(st: RwState, c: RwConsts) -> Seq<char> {
    let r0 = if st.code_block_buffer.len() > 0 {
        st.result + c.separator + join_block_from(
            text::std_lines(spec_trim_custom_comment_prefix(st.code_block_buffer)),
            0,
            c.separator,
        )
    } else {
        st.result
    };
    let r1 = r0 + c.closer;
    if text::has_suffix(r1, c.opener) && text::has_suffix(c.opener, " "@) {
        pop(r1)
    } else {
        r1
    }
}

} // verus!

verus! {

/// Rewrites a comment line by line, re-wrapping the lines that are too long.
struct CommentRewrite<'a> {
    result: String,
    code_block_buffer: String,
    is_prev_line_multi_line: bool,
    code_block_attr: Option<CodeBlockAttribute>,
    comment_line_separator: String,
    indent_str: String,
    max_width: usize,
    fmt_indent: Indent,
    fmt: StringFormat<'a>,
    opener: String,
    closer: String,
    line_start: String,
}

impl<'a> CommentRewrite<'a> {
    spec fn state(&self) -> RwState {
        RwState {
            result: self.result@,
            code_block_buffer: self.code_block_buffer@,
            is_prev_line_multi_line: self.is_prev_line_multi_line,
            in_code_block: self.code_block_attr is Some,
            shape: self.fmt.shape,
        }
    }

    /// The rewriter holds the constants `c`.
    spec fn holds(&self, c: RwConsts) -> bool {
        &&& self.comment_line_separator@ == c.separator
        &&& self.indent_str@ == c.indent_str
        &&& self.max_width == c.max_width
        &&& self.fmt_indent == c.fmt_indent
        &&& self.opener@ == c.opener
        &&& self.closer@ == c.closer
        &&& self.line_start@ == c.line_start
        &&& self.fmt.line_start@ == c.line_start
        &&& self.fmt.opener@ == Seq::<char>::empty()
        &&& self.fmt.closer@ == Seq::<char>::empty()
        &&& self.fmt.line_end@ == Seq::<char>::empty()
        &&& self.fmt.trim_end
        &&& *self.fmt.config == c.config
        &&& self.fmt.shape.indent == c.fmt_indent
        &&& c.fmt_indent.spec_width() <= usize::MAX
        &&& (c.config.hard_tabs ==> c.config.tab_spaces > 0)
    }

    fn new(orig: &'a str, block_style: bool, shape: Shape, config: &'a Config, is_doc_comment: bool) -> (cr: CommentRewrite<'a>)
        requires
            shape.indent.spec_width() <= usize::MAX,
            config.hard_tabs ==> config.tab_spaces > 0,
            text::byte_len(rw_consts(orig@, block_style, shape, *config, is_doc_comment).opener) + 3 <= usize::MAX,
        ensures
            cr.holds(rw_consts(orig@, block_style, shape, *config, is_doc_comment)),
            cr.state() == rw_initial(rw_consts(orig@, block_style, shape, *config, is_doc_comment)),
    {
        let ghost c = rw_consts(orig@, block_style, shape, *config, is_doc_comment);
        let (opener, closer, line_start) = if block_style {
            CommentStyle::SingleBullet.to_str_tuplet()
        } else {
            let style = comment_style(orig, false);
            proof {
                crate::style::lemma_style_of(style, orig@, false);
            }
            style.to_str_tuplet()
        };
        proof {
            reveal_strlit("/* ");
            reveal_strlit(" */");
            reveal_strlit(" * ");
            assert((opener@, closer@, line_start@) == (c.opener, c.closer, c.line_start));
            reveal_strlit("");
            reveal_strlit("// ");
            reveal_strlit("/// ");
            reveal_strlit("//! ");
            reveal_strlit("/** ");
            reveal_strlit("/*! ");
            assert(text::byte_len(closer@) <= 3) by {
                reveal_with_fuel(text::byte_len, 4);
                if closer@.len() > 0 {
                    assert(closer@ =~= seq![' ', '*', '/']);
                    assert(closer@.drop_last() =~= seq![' ', '*']);
                    assert(closer@.drop_last().drop_last() =~= seq![' ']);
                    assert(closer@.drop_last().drop_last().drop_last() =~= Seq::<char>::empty());
                }
            }
        }
        let used = crate::text::str_byte_len(closer) + crate::text::str_byte_len(opener);
        let max_width = if shape.width >= used {
            shape.width - used
        } else {
            1
        };
        let indent_str = shape.indent.to_string_with_newline(config);
        let mut comment_line_separator = String::new();
        comment_line_separator.append(indent_str.as_str());
        comment_line_separator.append(line_start);
        let mut result = String::new();
        result.append(opener);
        let mut o = String::new();
        o.append(opener);
        let mut cl = String::new();
        cl.append(closer);
        let mut ls = String::new();
        ls.append(line_start);
        proof {
            assert(result@ =~= opener@);
            assert(o@ =~= opener@);
            assert(cl@ =~= closer@);
            assert(ls@ =~= line_start@);
        }
        let cr = CommentRewrite {
            result,
            code_block_buffer: String::new(),
            is_prev_line_multi_line: false,
            code_block_attr: None,
            comment_line_separator,
            indent_str,
            max_width,
            fmt_indent: shape.indent,
            fmt: StringFormat {
                opener: "",
                closer: "",
                line_start,
                line_end: "",
                shape: Shape::legacy(max_width, shape.indent),
                trim_end: true,
                config,
            },
            opener: o,
            closer: cl,
            line_start: ls,
        };
        proof {
            assert(cr.comment_line_separator@ == c.separator);
            assert(cr.indent_str@ == c.indent_str);
            assert(cr.max_width == c.max_width);
            assert(cr.opener@ == c.opener);
            assert(cr.fmt.opener@ == Seq::<char>::empty());
            assert(*cr.fmt.config == c.config);
        }
        cr
    }
}


/// `s` without its last character, if it has one.
fn pop_string(s: &mut String)
    ensures
        final(s)@ == pop(old(s)@),
{
    let v = chars_of(s.as_str());
    if v.len() > 0 {
        *s = string_of(&v, 0, v.len() - 1);
        proof {
            assert(v@.subrange(0, v@.len() - 1) =~= v@.drop_last());
        }
    }
}

fn ends_with_space(s: &String) -> (b: bool)
    ensures
        b == ends_with_char(s@, ' '),
{
    let v = chars_of(s.as_str());
    v.len() > 0 && v[v.len() - 1] == ' '
}

fn contains_newline(s: &String) -> (b: bool)
    ensures
        b == has_newline(s@),
{
    let v = chars_of(s.as_str());
    let mut i: usize = 0;
    while i < v.len()
        invariant
            v@ == s@,
            i <= v@.len(),
            forall|j: int| 0 <= j < i ==> v@[j] != '\n',
        decreases v.len() - i,
    {
        if v[i] == '\n' {
            return true;
        }
        i = i + 1;
    }
    false
}

impl<'a> CommentRewrite<'a> {
    /// Writes what comes before the text of a line; `Some(stop)` when the line ends there.
    fn handle_lead(&mut self, is_last: bool, num_newlines: usize, line_len: usize, has_leading_whitespace: bool, Ghost(c): Ghost<RwConsts>, Ghost(i): Ghost<nat>, Ghost(line): Ghost<Seq<char>>) -> (early: Option<bool>)
        requires
            old(self).holds(c),
            num_newlines == c.num_newlines,
            is_last == (i == c.num_newlines),
            line_len == line.len(),
        ensures
            final(self).holds(c),
            final(self).result@ == rw_lead(old(self).state(), c, i, line, has_leading_whitespace).0,
            early == rw_lead(old(self).state(), c, i, line, has_leading_whitespace).1,
            final(self).code_block_buffer@ == old(self).code_block_buffer@,
            final(self).is_prev_line_multi_line == old(self).is_prev_line_multi_line,
            final(self).code_block_attr == old(self).code_block_attr,
            final(self).fmt.shape == old(self).fmt.shape,
    {
        proof {
            reveal_strlit("/* ");
        }
        if str_eq(self.result.as_str(), self.opener.as_str()) {
            let force = str_eq(self.opener.as_str(), "/* ") && num_newlines == 0;
            if !has_leading_whitespace && !force && ends_with_space(&self.result) {
                pop_string(&mut self.result);
            }
            if line_len == 0 {
                return Some(false);
            }
            None
        } else if self.is_prev_line_multi_line && line_len > 0 {
            text::string_push(&mut self.result, ' ');
            None
        } else if is_last && line_len == 0 {
            let cv = chars_of(self.closer.as_str());
            if cv.len() > 0 {
                self.result.append(self.indent_str.as_str());
            }
            Some(true)
        } else {
            self.result.append(self.comment_line_separator.as_str());
            if !has_leading_whitespace && ends_with_space(&self.result) {
                pop_string(&mut self.result);
            }
            None
        }
    }

    /// Writes a line that is too wide: re-wrapped when it can be, and sets the shape of the next
    /// line.
    #[verifier::rlimit(40)]
    fn handle_wrap(&mut self, line: &str, Ghost(c): Ghost<RwConsts>, Ghost(st): Ghost<RwState>)
        requires
            old(self).holds(c),
            old(self).fmt.shape == st.shape,
            old(self).is_prev_line_multi_line == st.is_prev_line_multi_line,
            rw_next_shape(
                c,
                rw_wrapped(st, c, old(self).result@, line@).0,
                rw_wrapped(st, c, old(self).result@, line@).1,
                rw_wrapped(st, c, old(self).result@, line@).2,
            ) is Some,
        ensures
            final(self).holds(c),
            final(self).result@ == rw_wrapped(st, c, old(self).result@, line@).0,
            final(self).is_prev_line_multi_line == rw_wrapped(st, c, old(self).result@, line@).1,
            Some(final(self).fmt.shape) == rw_next_shape(
                c,
                rw_wrapped(st, c, old(self).result@, line@).0,
                rw_wrapped(st, c, old(self).result@, line@).1,
                rw_wrapped(st, c, old(self).result@, line@).2,
            ),
            final(self).code_block_buffer@ == old(self).code_block_buffer@,
            final(self).code_block_attr == old(self).code_block_attr,
    {
        let ghost r1 = self.result@;
        let prev = match rewrite_string(line, &self.fmt, self.max_width) {
            Some(s) => {
                let p = contains_newline(&s);
                self.result.append(s.as_str());
                p
            },
            None => {
                if self.is_prev_line_multi_line {
                    pop_string(&mut self.result);
                    self.result.append(self.comment_line_separator.as_str());
                    self.fmt.shape = Shape::legacy(self.max_width, self.fmt_indent);
                    match rewrite_string(line, &self.fmt, self.max_width) {
                        Some(s) => {
                            let p = contains_newline(&s);
                            self.result.append(s.as_str());
                            p
                        },
                        None => {
                            self.result.append(line);
                            false
                        },
                    }
                } else {
                    self.result.append(line);
                    false
                }
            },
        };
        self.is_prev_line_multi_line = prev;
        if prev {
            let rv = chars_of(self.result.as_str());
            let w = crate::string_fmt::last_line_width(&rv);
            let ls = crate::text::str_byte_len(self.line_start.as_str());
            let offset = 1 + w - ls;
            let width = if self.max_width >= offset {
                self.max_width - offset
            } else {
                0
            };
            self.fmt.shape = Shape { width, indent: self.fmt_indent, offset: self.fmt.shape.offset + offset };
        } else {
            self.fmt.shape = Shape::legacy(self.max_width, self.fmt_indent);
        }
    }

    /// Handles the line `line` (the `i`-th) of the comment `orig`; returns whether the rewriting
    /// stops there.
    fn handle_line(
        &mut self,
        orig: &str,
        i: usize,
        line: &str,
        has_leading_whitespace: bool,
        is_doc_comment: bool,
        Ghost(c): Ghost<RwConsts>,
    ) -> (stop: bool)
        requires
            old(self).holds(c),
            c.num_newlines == count_newlines(orig@),
            c.is_doc_comment == is_doc_comment,
            rw_handle(old(self).state(), c, i as nat, line@, has_leading_whitespace).2,
        ensures
            final(self).holds(c),
            final(self).state() == rw_handle(old(self).state(), c, i as nat, line@, has_leading_whitespace).0,
            stop == rw_handle(old(self).state(), c, i as nat, line@, has_leading_whitespace).1,
    {
        let ghost st = self.state();
        let ov = chars_of(orig);
        let num_newlines = count_newlines_exec(&ov);
        let is_last = i == num_newlines;
        if self.code_block_attr.is_some() {
            let h = hide_sharp_behind_comment(line);
            self.code_block_buffer.append(h.as_str());
            text::string_push(&mut self.code_block_buffer, '\n');
            proof {
                assert(self.code_block_buffer@ =~= st.code_block_buffer + spec_hide_sharp(line@) + seq!['\n']);
            }
            return false;
        }
        self.code_block_attr = None;
        let lv = chars_of(line);
        proof {
            reveal_strlit("```");
            reveal_strlit("#");
        }
        if lv.len() >= 3 && starts_with_at(&lv, 0, "```") {
            let stripped = line.substring_char(3, lv.len());
            self.code_block_attr = Some(CodeBlockAttribute::new(stripped));
        }
        proof {
            if text::has_prefix(line@, "```"@) {
                assert(lv@.len() >= 3);
            }
        }
        let ghost in_code = text::has_prefix(line@, "```"@);
        assert((self.code_block_attr is Some) == in_code);
        let early = self.handle_lead(is_last, num_newlines, lv.len(), has_leading_whitespace, Ghost(c), Ghost(i as nat), Ghost(line@));
        if let Some(stop) = early {
            return stop;
        }
        let is_markdown_header_doc_comment = is_doc_comment && lv.len() >= 1 && lv[0] == '#';
        proof {
            if text::has_prefix(line@, "#"@) {
                assert(line@[0] == "#"@[0]);
            }
            if lv@.len() >= 1 && lv@[0] == '#' {
                assert(line@.subrange(0, 1) =~= "#"@);
            }
        }
        let should_wrap = !is_markdown_header_doc_comment && crate::string_fmt::unicode_str_width(line)
            > self.fmt.shape.width && !has_url(line) && !is_table_item(line);
        if should_wrap {
            self.handle_wrap(line, Ghost(c), Ghost(st));
        } else {
            if lv.len() == 0 && ends_with_space(&self.result) && !is_last {
                pop_string(&mut self.result);
            }
            self.result.append(line);
            self.fmt.shape = Shape::legacy(self.max_width, self.fmt_indent);
            self.is_prev_line_multi_line = false;
        }
        false
    }
}


/// The line `line` (the `i`-th) as `rewrite_comment_inner` prepares it before it trims the
/// comment characters: trimmed (trailing double spaces of doc comments kept), and without the
/// closing `*/` when it is the last line.
pub open spec fn inner_line(line: Seq<char>, i: nat, line_breaks: nat, is_doc_comment: bool) -> Seq<char> {
    let l0 = crate::rewrite::spec_trim_end_unless_two_whitespaces(text::trim_start(line), is_doc_comment);
    if i == line_breaks && text::has_suffix(l0, "*/"@) && !text::has_prefix(l0, "//"@) {
        text::trim_end(l0.take(l0.len() - 2))
    } else {
        l0
    }
}

/// The rewriting of the lines `lines[k..]` from the state `st`: the state it ends in, and
/// whether each line is handled without a panic (a slice at no character boundary, or an
/// arithmetic overflow).
pub open spec fn inner_fold(
    one_line_block: bool,
    lines: Seq<Seq<char>>,
    k: nat,
    st: RwState,
    c: RwConsts,
    style: StyleView,
    line_breaks: nat,
) -> (RwState, bool)
    decreases lines.len() - k,
{
    if k >= lines.len() {
        (st, true)
    } else {
        let l1 = inner_line(lines[k as int], k, line_breaks, c.is_doc_comment);
        if !crate::style::left_trim_ok(l1, style) {
            (st, false)
        } else {
            let (l2, hlw) = crate::style::spec_left_trim_comment_line(l1, style);
            let l3 = if one_line_block {
                text::trim_start(l2)
            } else {
                l2
            };
            let (st2, stop, ok) = rw_handle(st, c, k, l3, hlw);
            if !ok {
                (st2, false)
            } else if stop {
                (st2, true)
            } else {
                inner_fold(one_line_block, lines, k + 1, st2, c, style, line_breaks)
            }
        }
    }
}

/// What `rewrite_comment_inner` returns, and whether it returns without panicking.
#[verifier::opaque]
pub open spec fn spec_rewrite_comment_inner(
    orig: Seq<char>,
    block_style: bool,
    style: StyleView,
    shape: Shape,
    config: Config,
    is_doc_comment: bool,
) -> (Seq<char>, bool) {
    let c = rw_consts(orig, block_style, shape, config, is_doc_comment);
    let line_breaks = count_newlines(text::trim_end(orig));
    let one_line_block = text::has_prefix(orig, "/*"@) && line_breaks == 0;
    let (st, ok) = inner_fold(one_line_block, text::std_lines(orig), 0, rw_initial(c), c, style, line_breaks);
    (rw_finish(st, c), ok && text::byte_len(c.opener) + 3 <= usize::MAX)
}

fn ends_with_str(s: &String, p: &String) -> (b: bool)
    ensures
        b == text::has_suffix(s@, p@),
{
    let v = chars_of(s.as_str());
    let pv = chars_of(p.as_str());
    if pv.len() > v.len() {
        return false;
    }
    let r = starts_with_at(&v, v.len() - pv.len(), p.as_str());
    proof {
        assert(v@.subrange(v@.len() - pv@.len(), v@.len() - pv@.len() + p@.len()) =~= v@.subrange(
            v@.len() - p@.len(),
            v@.len() as int,
        ));
    }
    r
}

impl<'a> CommentRewrite<'a> {
    /// Writes the code block left open, the closer, and drops a trailing space after a lone
    /// opener.
    fn finish(self, Ghost(c): Ghost<RwConsts>) -> (r: String)
        requires
            self.holds(c),
        ensures
            r@ == rw_finish(self.state(), c),
    {
        let ghost st = self.state();
        let mut result = self.result;
        let bv = chars_of(self.code_block_buffer.as_str());
        if bv.len() > 0 {
            // There is a code block that is not properly enclosed by backticks.
            // We will leave them untouched.
            result.append(self.comment_line_separator.as_str());
            let t = trim_custom_comment_prefix(self.code_block_buffer.as_str());
            let j = join_block(t.as_str(), self.comment_line_separator.as_str());
            result.append(j.as_str());
        }
        result.append(self.closer.as_str());
        proof {
            reveal_strlit(" ");
        }
        if ends_with_str(&result, &self.opener) && ends_with_space(&self.opener) {
            // Trailing space.
            pop_string(&mut result);
        }
        proof {
            let o = self.opener@;
            if o.len() > 0 && o.last() == ' ' {
                assert(o.subrange(o.len() - 1, o.len() as int) =~= " "@);
            }
            if text::has_suffix(o, " "@) {
                assert(o[o.len() - 1] == o.subrange(o.len() - 1, o.len() as int)[0]);
            }
        }
        result
    }
}

/// The line `v[a..stop]` (the `k`-th) prepared as `inner_line` says.
fn prepare_line(v: &Vec<char>, a: usize, stop: usize, k: usize, line_breaks: usize, is_doc_comment: bool) -> (l1: String)
    requires
        a <= stop <= v@.len(),
    ensures
        l1@ == inner_line(v@.subrange(a as int, stop as int), k as nat, line_breaks as nat, is_doc_comment),
{
    proof {
        reveal_strlit("*/");
        reveal_strlit("//");
    }
    let start = text::trim_start_from(v, a, stop);
    let end = crate::rewrite::trim_end_unless_two_whitespaces(v, start, stop, is_doc_comment);
    let ghost l0 = v@.subrange(start as int, end as int);
    let closes = end - start >= 2 && v[end - 2] == '*' && v[end - 1] == '/';
    let opens_line = end - start >= 2 && v[start] == '/' && v[start + 1] == '/';
    proof {
        if l0.len() >= 2 {
            assert(l0.subrange(l0.len() - 2, l0.len() as int) =~= v@.subrange(end - 2, end as int));
            assert(l0.subrange(0, 2) =~= v@.subrange(start as int, start + 2));
        }
        if closes {
            assert(v@.subrange(end - 2, end as int) =~= "*/"@);
        }
        if text::has_suffix(l0, "*/"@) {
            assert(l0[l0.len() - 2] == "*/"@[0]);
            assert(l0[l0.len() - 1] == "*/"@[1]);
        }
        if opens_line {
            assert(v@.subrange(start as int, start + 2) =~= "//"@);
        }
        if text::has_prefix(l0, "//"@) {
            assert(l0[0] == "//"@[0]);
            assert(l0[1] == "//"@[1]);
        }
    }
    let end2 = if k == line_breaks && closes && !opens_line {
        let e2 = text::trim_end_stop(v, start, end - 2);
        proof {
            assert(l0.take(l0.len() - 2) =~= v@.subrange(start as int, end - 2));
        }
        e2
    } else {
        end
    };
    string_of(v, start, end2)
}

/// The prepared line with its comment characters trimmed (and its leading whitespace too for
/// a one-line block comment), and whether a space was trimmed after them.
fn trim_comment_chars(l1: &String, style: &CommentStyle, one_line_block: bool) -> (r: (String, bool))
    requires
        crate::style::left_trim_ok(l1@, style@),
    ensures
        r.1 == crate::style::spec_left_trim_comment_line(l1@, style@).1,
        r.0@ == if one_line_block {
            text::trim_start(crate::style::spec_left_trim_comment_line(l1@, style@).0)
        } else {
            crate::style::spec_left_trim_comment_line(l1@, style@).0
        },
{
    let (l2, has_leading_whitespace) = crate::style::left_trim_comment_line(l1.as_str(), style);
    let l2v = chars_of(l2);
    proof {
        assert(l2v@.subrange(0, l2v@.len() as int) =~= l2v@);
    }
    let l3 = if one_line_block {
        let s3 = text::trim_start_from(&l2v, 0, l2v.len());
        string_of(&l2v, s3, l2v.len())
    } else {
        string_of(&l2v, 0, l2v.len())
    };
    (l3, has_leading_whitespace)
}

/// Rewrites the lines of a comment one by one, re-wrapping those that are too wide.
#[verifier::rlimit(40)]
pub fn rewrite_comment_inner(
    orig: &str,
    block_style: bool,
    style: CommentStyle<'_>,
    shape: Shape,
    config: &Config,
    is_doc_comment: bool,
) -> (r: Option<String>)
    requires
        shape.indent.spec_width() <= usize::MAX,
        config.hard_tabs ==> config.tab_spaces > 0,
        spec_rewrite_comment_inner(orig@, block_style, style@, shape, *config, is_doc_comment).1,
    ensures
        r matches Some(x) && x@ == spec_rewrite_comment_inner(orig@, block_style, style@, shape, *config, is_doc_comment).0,
{
    proof {
        reveal(spec_rewrite_comment_inner);
    }
    let ghost c = rw_consts(orig@, block_style, shape, *config, is_doc_comment);
    let mut rewriter = CommentRewrite::new(orig, block_style, shape, config, is_doc_comment);
    let v = chars_of(orig);
    let n = v.len();
    let te = text::trim_end_stop(&v, 0, n);
    let tv = crate::text::chars_of(string_of(&v, 0, te).as_str());
    let line_breaks = count_newlines_exec(&tv);
    proof {
        assert(v@.subrange(0, n as int) =~= v@);
        reveal_strlit("/*");
    }
    let one_line_block = starts_with_at(&v, 0, "/*") && line_breaks == 0;
    let ghost all = text::std_lines(orig@);
    let ghost target = inner_fold(one_line_block, all, 0, rw_initial(c), c, style@, line_breaks as nat);
    let mut a: usize = 0;
    let mut k: usize = 0;
    proof {
        assert(all.skip(0) =~= all);
    }
    while a < n
        invariant_except_break
            a <= n,
            k <= a,
            k <= all.len(),
            all.skip(k as int) == text::std_lines_from(v@, a as nat),
            inner_fold(one_line_block, all, k as nat, rewriter.state(), c, style@, line_breaks as nat) == target,
        invariant
            v@ == orig@,
            n == v@.len(),
            all == text::std_lines(orig@),
            rewriter.holds(c),
            c == rw_consts(orig@, block_style, shape, *config, is_doc_comment),
            c.num_newlines == count_newlines(orig@),
            c.is_doc_comment == is_doc_comment,
            target.1,
        ensures
            rewriter.state() == target.0,
        decreases n - a,
    {
        let stop = text::std_line_stop(&v, a);
        let next = crate::identify::next_line_pub(&v, a);
        proof {
            crate::rewrite::lemma_std_lines_step(v@, a as nat);
            text::lemma_first_newline_bounds(v@, a as nat);
            assert(all.skip(k as int).len() >= 1);
            assert(all.skip(k as int)[0] == all[k as int]);
            assert(all[k as int] == v@.subrange(a as int, stop as int));
        }
        let l1 = prepare_line(&v, a, stop, k, line_breaks, is_doc_comment);
        let (l3, has_leading_whitespace) = trim_comment_chars(&l1, &style, one_line_block);
        let stop_here = rewriter.handle_line(orig, k, l3.as_str(), has_leading_whitespace, is_doc_comment, Ghost(c));
        proof {
            assert(all.skip(k + 1) =~= all.skip(k as int).drop_first());
        }
        if stop_here {
            break;
        }
        k = k + 1;
        a = next;
    }
    proof {
        if a >= n {
            assert(text::std_lines_from(v@, a as nat) =~= Seq::<Seq<char>>::empty());
        }
    }
    Some(rewriter.finish(Ghost(c)))
}

} // verus!
