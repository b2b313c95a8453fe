use vstd::prelude::*;

use crate::style::str_eq;
use crate::line_mapping::starts_upto;
use vstd::string::StringSliceAdditionalSpecFns;
use crate::text::{chars_of, is_byte_position, string_of, trim_end, trim_end_stop, trim_start, trim_start_from};

verus! {

/// Where a token of a function header stands: from `start` to `end`, counted in characters of
/// the header.
#[derive(Clone, Copy, Debug, PartialEq, Eq, Structural)]
pub struct TokenSpan {
    pub start: usize,
    pub end: usize,
}

/// Tokens that lie in a header of `n` characters, in order and apart.
pub open spec fn spans_ok(n: nat, t: Seq<TokenSpan>) -> bool {
    &&& forall|i: int| 0 <= i < t.len() ==> #[trigger] t[i].start <= t[i].end <= n
    &&& forall|i: int, j: int| 0 <= i < j < t.len() ==> #[trigger] t[i].end <= #[trigger] t[j].start
}

/// Whether a word is a function specifier keyword, negated or not.
pub open spec fn is_specifier(w: Seq<char>) -> bool {
    ||| w == "acquires"@
    ||| w == "reads"@
    ||| w == "writes"@
    ||| w == "pure"@
    ||| w == "!acquires"@
    ||| w == "!reads"@
    ||| w == "!writes"@
}

/// Whether `specifier` is a function specifier keyword: `acquires`, `reads`, `writes` or
/// `pure`, or one of the first three after `!`.
pub fn is_fun_specifiers(specifier: &str) -> (b: bool)
    ensures
        b == is_specifier(specifier@),
{
    str_eq(specifier, "acquires") || str_eq(specifier, "reads") || str_eq(specifier, "writes")
        || str_eq(specifier, "pure") || str_eq(specifier, "!acquires") || str_eq(specifier, "!reads")
        || str_eq(specifier, "!writes")
}

/// A piece of a function header: a token, or a `!` joined with the specifier keyword after it;
/// `is_spec` tells whether its text is a specifier keyword.
#[derive(Clone, Copy, Debug, PartialEq, Eq, Structural)]
pub struct SpecTok {
    pub start: usize,
    pub end: usize,
    pub is_spec: bool,
}

/// The text of `s` from `a` to `b`.
pub open spec fn span_text(s: Seq<char>, a: usize, b: usize) -> Seq<char> {
    s.subrange(a as int, b as int)
}

/// The pieces of the header `s` from its token `i` on: a `!` with a specifier keyword as the
/// next token is joined with it (with what stands between them); a `!` before any other token
/// swallows that token; any other token is a piece of its own.
pub open spec fn spec_pieces(s: Seq<char>, t: Seq<TokenSpan>, i: nat) -> Seq<SpecTok>
    decreases t.len() + 2 - i,
{
    if i >= t.len() {
        Seq::empty()
    } else {
        let text = span_text(s, t[i as int].start, t[i as int].end);
        let bang = text == "!"@;
        if bang && i + 1 < t.len() && is_specifier(span_text(s, t[i + 1 as int].start, t[i + 1 as int].end)) {
            let joined = span_text(s, t[i as int].start, t[i + 1 as int].end);
            seq![SpecTok { start: t[i as int].start, end: t[i + 1 as int].end, is_spec: is_specifier(joined) }]
                + spec_pieces(s, t, i + 2)
        } else {
            seq![SpecTok { start: t[i as int].start, end: t[i as int].end, is_spec: is_specifier(text) }]
                + spec_pieces(s, t, if bang {
                i + 2
            } else {
                i + 1
            })
        }
    }
}

/// How many of the pieces `p` are specifier keywords.
pub open spec fn count_specs(p: Seq<SpecTok>) -> nat
    decreases p.len(),
{
    if p.len() == 0 {
        0
    } else {
        count_specs(p.drop_last()) + if p.last().is_spec {
            1nat
        } else {
            0nat
        }
    }
}

/// `s` without the whitespace at its two ends.
pub open spec fn trim(s: Seq<char>) -> Seq<char> {
    trim_end(trim_start(s))
}

/// Where the first specifier among the pieces `p[j..]` starts, or `n` when there is none.
pub open spec fn next_spec_start(p: Seq<SpecTok>, j: nat, n: nat) -> nat
    decreases p.len() - j,
{
    if j >= p.len() {
        n
    } else if p[j as int].is_spec {
        p[j as int].start as nat
    } else {
        next_spec_start(p, j + 1, n)
    }
}

/// The arguments of the specifier `p[i]` in the header `s`: the text between it and the next
/// specifier (or the end), trimmed.
pub open spec fn spec_args(s: Seq<char>, p: Seq<SpecTok>, i: nat) -> Seq<char> {
    let end = p[i as int].end as nat;
    let next = next_spec_start(p, i + 1, s.len());
    if end < next {
        trim(s.subrange(end as int, next as int))
    } else {
        Seq::empty()
    }
}

/// The lines that the specifiers among `p[i..]` become: each on a new line after `indent`,
/// with its arguments after a space (none for `pure`).
pub open spec fn spec_spec_lines(s: Seq<char>, p: Seq<SpecTok>, indent: Seq<char>, i: nat) -> Seq<char>
    decreases p.len() - i,
{
    if i >= p.len() {
        Seq::empty()
    } else {
        let rest = spec_spec_lines(s, p, indent, i + 1);
        if p[i as int].is_spec {
            let text = span_text(s, p[i as int].start, p[i as int].end);
            let args = if text == "pure"@ {
                Seq::empty()
            } else {
                spec_args(s, p, i)
            };
            let tail = if args.len() > 0 {
                seq![' '] + args
            } else {
                Seq::empty()
            };
            seq!['\n'] + indent + text + tail + rest
        } else {
            rest
        }
    }
}

/// The header `s` with its specifiers laid out one per line: what stands before the first
/// specifier, then the specifier lines and a space; `s` itself when it has no specifier.
pub open spec fn spec_format_specifiers(s: Seq<char>, p: Seq<SpecTok>, indent: Seq<char>) -> Seq<char> {
    if count_specs(p) > 0 {
        s.take(next_spec_start(p, 0, 0) as int) + spec_spec_lines(s, p, indent, 0) + seq![' ']
    } else {
        s
    }
}

/// What `fun_header_specifier_fmt` gives for the header `s` with tokens `t`: `s` itself when
/// it is blank or holds at most one specifier, else its specifiers laid out one per line.
pub open spec fn spec_fun_header_fmt(s: Seq<char>, t: Seq<TokenSpan>, indent: Seq<char>) -> Seq<char> {
    let p = spec_pieces(s, t, 0);
    if trim(s).len() == 0 || count_specs(p) <= 1 {
        s
    } else {
        spec_format_specifiers(s, p, indent)
    }
}

/// Pieces that lie in a header of `n` characters.
pub open spec fn pieces_ok(n: nat, p: Seq<SpecTok>) -> bool {
    forall|i: int| 0 <= i < p.len() ==> #[trigger] p[i].start <= p[i].end <= n
}

/// Whether `v[a..b]` is the word `w`.
fn span_is(v: &Vec<char>, a: usize, b: usize, w: &str) -> (r: bool)
    requires
        a <= b <= v@.len(),
    ensures
        r == (span_text(v@, a, b) == w@),
{
    let s = string_of(v, a, b);
    str_eq(s.as_str(), w)
}

/// Whether `v[a..b]` is a specifier keyword.
fn span_is_specifier(v: &Vec<char>, a: usize, b: usize) -> (r: bool)
    requires
        a <= b <= v@.len(),
    ensures
        r == is_specifier(span_text(v@, a, b)),
{
    let s = string_of(v, a, b);
    is_fun_specifiers(s.as_str())
}

proof fn lemma_count_push(p: Seq<SpecTok>, x: SpecTok)
    ensures
        count_specs(p.push(x)) == count_specs(p) + if x.is_spec {
            1nat
        } else {
            0nat
        },
{
    assert(p.push(x).drop_last() =~= p);
}

/// The pieces of the header `v` with tokens `toks`, and how many of them are specifiers.
fn collect_tokens_and_count_specifiers(v: &Vec<char>, toks: &Vec<TokenSpan>) -> (r: (Vec<SpecTok>, usize))
    requires
        spans_ok(v@.len(), toks@),
    ensures
        r.0@ == spec_pieces(v@, toks@, 0),
        r.1 == count_specs(r.0@),
        pieces_ok(v@.len(), r.0@),
{
    let mut out: Vec<SpecTok> = Vec::new();
    let mut count: usize = 0;
    let mut i: usize = 0;
    while i < toks.len()
        invariant
            spans_ok(v@.len(), toks@),
            i <= toks.len(),
            out@ + spec_pieces(v@, toks@, i as nat) == spec_pieces(v@, toks@, 0),
            count == count_specs(out@),
            count <= out@.len() <= i,
            pieces_ok(v@.len(), out@),
        decreases toks.len() - i,
    {
        let t = toks[i];
        let bang = span_is(v, t.start, t.end, "!");
        let piece: SpecTok;
        let next: usize;
        if bang && i + 1 < toks.len() && span_is_specifier(v, toks[i + 1].start, toks[i + 1].end) {
            let e = toks[i + 1].end;
            assert(t.end <= toks@[i + 1].start);
            piece = SpecTok { start: t.start, end: e, is_spec: span_is_specifier(v, t.start, e) };
            next = i + 2;
        } else {
            piece = SpecTok { start: t.start, end: t.end, is_spec: span_is_specifier(v, t.start, t.end) };
            next = if bang && i + 1 < toks.len() {
                i + 2
            } else {
                i + 1
            };
        }
        proof {
            let ghost j: nat = if bang {
                (i + 2) as nat
            } else {
                (i + 1) as nat
            };
            if bang && i + 1 >= toks.len() {
                assert(spec_pieces(v@, toks@, j) == spec_pieces(v@, toks@, next as nat));
            }
            assert(spec_pieces(v@, toks@, i as nat) == seq![piece] + spec_pieces(v@, toks@, next as nat));
            assert(out@.push(piece) + spec_pieces(v@, toks@, next as nat) =~= out@ + spec_pieces(
                v@,
                toks@,
                i as nat,
            ));
            lemma_count_push(out@, piece);
        }
        out.push(piece);
        if piece.is_spec {
            count = count + 1;
        }
        i = next;
    }
    proof {
        assert(out@ + Seq::<SpecTok>::empty() =~= out@);
    }
    (out, count)
}

/// Where the first specifier among `p[j..]` starts, or `n` when there is none.
fn find_next_spec(p: &Vec<SpecTok>, j: usize, n: usize) -> (r: usize)
    ensures
        r == next_spec_start(p@, j as nat, n as nat),
{
    let mut k = j;
    while k < p.len()
        invariant
            j <= k,
            next_spec_start(p@, j as nat, n as nat) == next_spec_start(p@, k as nat, n as nat),
        decreases p.len() - k,
    {
        if p[k].is_spec {
            return p[k].start;
        }
        k = k + 1;
    }
    n
}

/// The arguments of the specifier `p[i]` in the header `v`: the text between it and the next
/// specifier (or the end), trimmed.
fn collect_args_from_tokens(v: &Vec<char>, p: &Vec<SpecTok>, i: usize) -> (r: String)
    requires
        pieces_ok(v@.len(), p@),
        i < p@.len(),
    ensures
        r@ == spec_args(v@, p@, i as nat),
{
    let spec_end = p[i].end;
    let plen = p.len();
    assert(i < plen);
    let next = find_next_spec(p, i + 1, v.len());
    proof {
        lemma_next_spec_start_bound(p@, (i + 1) as nat, v@.len());
    }
    if spec_end < next {
        let a = trim_start_from(v, spec_end, next);
        let b = trim_end_stop(v, a, next);
        string_of(v, a, b)
    } else {
        String::new()
    }
}

proof fn lemma_next_spec_start_bound(p: Seq<SpecTok>, j: nat, n: nat)
    requires
        pieces_ok(n, p),
    ensures
        next_spec_start(p, j, n) <= n,
    decreases p.len() - j,
{
    if j < p.len() && !p[j as int].is_spec {
        lemma_next_spec_start_bound(p, j + 1, n);
    }
}

/// The header `v` with its specifier pieces `p` laid out one per line after `indent_str`.
fn format_specifiers(v: &Vec<char>, p: &Vec<SpecTok>, indent_str: &str) -> (r: String)
    requires
        pieces_ok(v@.len(), p@),
    ensures
        r@ == spec_format_specifiers(v@, p@, indent_str@),
{
    let mut result = String::new();
    let mut found = false;
    let mut first: usize = 0;
    let mut i: usize = 0;
    while i < p.len()
        invariant
            pieces_ok(v@.len(), p@),
            i <= p@.len(),
            result@ + spec_spec_lines(v@, p@, indent_str@, i as nat) == spec_spec_lines(
                v@,
                p@,
                indent_str@,
                0,
            ),
            found == (count_specs(p@.take(i as int)) > 0),
            found ==> first == next_spec_start(p@, 0, 0),
            !found ==> next_spec_start(p@, 0, 0) == next_spec_start(p@, i as nat, 0),
        decreases p.len() - i,
    {
        let tok = p[i];
        proof {
            assert(p@.take(i + 1).drop_last() =~= p@.take(i as int));
            assert(p@.take(i + 1).last() == tok);
        }
        if tok.is_spec {
            if !found {
                first = tok.start;
                found = true;
            }
            let text = string_of(v, tok.start, tok.end);
            let is_pure = str_eq(text.as_str(), "pure");
            let ghost before = result@;
            result.append("\n");
            result.append(indent_str);
            result.append(text.as_str());
            let mut tail = String::new();
            if !is_pure {
                let args = collect_args_from_tokens(v, p, i);
                if args.as_str().unicode_len() > 0 {
                    tail.append(" ");
                    tail.append(args.as_str());
                }
            }
            result.append(tail.as_str());
            proof {
                reveal_strlit("\n");
                reveal_strlit(" ");
                assert(result@ + spec_spec_lines(v@, p@, indent_str@, (i + 1) as nat) =~= before
                    + spec_spec_lines(v@, p@, indent_str@, i as nat));
            }
        }
        i = i + 1;
    }
    proof {
        assert(p@.take(p@.len() as int) =~= p@);
        assert(result@ + Seq::<char>::empty() =~= result@);
    }
    if found {
        proof {
            lemma_first_spec_bound(p@, 0, v@.len());
        }
        let mut out = string_of(v, 0, first);
        out.append(result.as_str());
        out.append(" ");
        proof {
            reveal_strlit(" ");
            assert(v@.subrange(0, first as int) =~= v@.take(first as int));
        }
        out
    } else {
        proof {
            assert(v@.subrange(0, v@.len() as int) =~= v@);
        }
        string_of(v, 0, v.len())
    }
}

proof fn lemma_first_spec_bound(p: Seq<SpecTok>, j: nat, n: nat)
    requires
        pieces_ok(n, p),
        count_specs(p) > 0,
    ensures
        next_spec_start(p, j, 0) <= n,
    decreases p.len() - j,
{
    if j < p.len() && !p[j as int].is_spec {
        lemma_first_spec_bound(p, j + 1, n);
    }
}

/// Lays out the specifiers of a function header (`acquires Foo, Bar reads Baz`) one per line
/// after `indent_str`, each with its arguments, comments kept; a header that is blank or has
/// at most one specifier is given back as it is. `tokens` are the tokens of the header as the
/// Move lexer gives them, comments and whitespace left out.
pub fn fun_header_specifier_fmt(specifier: &str, tokens: &Vec<TokenSpan>, indent_str: &str) -> (r: String)
    requires
        spans_ok(specifier@.len(), tokens@),
    ensures
        r@ == spec_fun_header_fmt(specifier@, tokens@, indent_str@),
{
    let v = chars_of(specifier);
    let a = trim_start_from(&v, 0, v.len());
    let b = trim_end_stop(&v, a, v.len());
    proof {
        assert(v@.subrange(0, v@.len() as int) =~= v@);
    }
    if a == b {
        return string_of(&v, 0, v.len());
    }
    let (pieces, count) = collect_tokens_and_count_specifiers(&v, tokens);
    if count <= 1 {
        return string_of(&v, 0, v.len());
    }
    format_specifiers(&v, &pieces, indent_str)
}

/// The values of a table of offsets, as numbers.
pub open spec fn offsets_view(v: Seq<usize>) -> Seq<int> {
    Seq::new(v.len(), |j: int| v[j] as int)
}

/// The byte offsets at which the lines of `text` start: 0, and the offset after each line feed.
pub fn build_line_starts(text: &str) -> (r: Vec<usize>)
    ensures
        offsets_view(r@) == starts_upto(text.spec_bytes(), text.spec_bytes().len()),
{
    let bytes = text.as_bytes();
    let n = bytes.len();
    let ghost b = text.spec_bytes();
    let mut v: Vec<usize> = Vec::new();
    v.push(0);
    let mut index: usize = 0;
    proof {
        assert(offsets_view(v@) =~= starts_upto(b, 0));
    }
    while index < n
        invariant
            bytes@ == b,
            n == b.len(),
            index <= n,
            offsets_view(v@) == starts_upto(b, index as nat),
        decreases n - index,
    {
        if bytes[index] == 10u8 {
            v.push(index + 1);
            proof {
                assert(offsets_view(v@) =~= starts_upto(b, index as nat).push(index + 1));
            }
        }
        index = index + 1;
    }
    v
}

/// How many spaces stand in the bytes `b` from `a` on.
pub open spec fn leading_spaces(b: Seq<u8>, a: nat) -> nat
    decreases b.len() - a,
{
    if a < b.len() && b[a as int] == 32u8 {
        1 + leading_spaces(b, a + 1)
    } else {
        0
    }
}

/// How many spaces each line of `text` starts with, for the lines that start at
/// `line_starts` (the last start, which marks the end, left out).
pub fn build_line_indent(text: &str, line_starts: &[usize]) -> (r: Vec<usize>)
    requires
        line_starts@.len() > 0,
        forall|i: int|
            0 <= i < line_starts@.len() - 1 ==> exists|k: nat| is_byte_position(text@, #[trigger] line_starts@[i] as nat, k),
    ensures
        r@.len() == line_starts@.len() - 1,
        forall|i: int|
            0 <= i < r@.len() ==> #[trigger] r@[i] == leading_spaces(text.spec_bytes(), line_starts@[i] as nat),
{
    let bytes = text.as_bytes();
    let ghost b = text.spec_bytes();
    let mut indent: Vec<usize> = Vec::new();
    let last = line_starts.len() - 1;
    let mut i: usize = 0;
    while i < last
        invariant
            bytes@ == b,
            last == line_starts@.len() - 1,
            i <= last,
            indent@.len() == i,
            forall|j: int| 0 <= j < i ==> #[trigger] indent@[j] == leading_spaces(b, line_starts@[j] as nat),
        decreases last - i,
    {
        let start = line_starts[i];
        let mut k = start;
        while k < bytes.len() && bytes[k] == 32u8
            invariant
                bytes@ == b,
                start <= k,
                k <= b.len() || k == start,
                leading_spaces(b, start as nat) == (k - start) + leading_spaces(b, k as nat),
            decreases b.len() - k,
        {
            k = k + 1;
        }
        indent.push(k - start);
        i = i + 1;
    }
    indent
}

/// How many of the offsets `s` are at most `x`.
pub open spec fn count_at_most(s: Seq<int>, x: int) -> nat
    decreases s.len(),
{
    if s.len() == 0 {
        0
    } else {
        count_at_most(s.drop_last(), x) + if s.last() <= x {
            1nat
        } else {
            0nat
        }
    }
}

/// Offsets in strictly increasing order.
pub open spec fn strictly_increasing(s: Seq<int>) -> bool {
    forall|i: int, j: int| 0 <= i < j < s.len() ==> s[i] < s[j]
}

pub(crate) proof fn lemma_count_at_most_split(s: Seq<int>, x: int, k: int)
    requires
        0 <= k <= s.len(),
        forall|i: int| 0 <= i < k ==> s[i] <= x,
        forall|i: int| k <= i < s.len() ==> s[i] > x,
    ensures
        count_at_most(s, x) == k,
    decreases s.len(),
{
    if s.len() > 0 {
        if k == s.len() {
            lemma_count_at_most_split(s.drop_last(), x, k - 1);
        } else {
            lemma_count_at_most_split(s.drop_last(), x, k);
        }
    }
}

/// The line that the byte offset `offset` falls on, for lines that start at `line_starts`: the
/// last line that starts at or before it, or the first line when none does.
pub fn byte_offset_to_line(offset: usize, line_starts: &[usize]) -> (r: usize)
    requires
        strictly_increasing(offsets_view(line_starts@)),
    ensures
        r == if count_at_most(offsets_view(line_starts@), offset as int) == 0 {
            0
        } else {
            count_at_most(offsets_view(line_starts@), offset as int) - 1
        },
{
    let ghost t = offsets_view(line_starts@);
    let mut lo: usize = 0;
    let mut hi: usize = line_starts.len();
    while lo < hi
        invariant
            t == offsets_view(line_starts@),
            strictly_increasing(t),
            0 <= lo <= hi <= line_starts@.len(),
            forall|j: int| 0 <= j < lo ==> t[j] <= offset,
            forall|j: int| hi <= j < t.len() ==> t[j] > offset,
        decreases hi - lo,
    {
        let mid = lo + (hi - lo) / 2;
        if line_starts[mid] <= offset {
            proof {
                assert forall|j: int| 0 <= j < mid + 1 implies t[j] <= offset by {
                    if j < mid {
                        assert(t[j] < t[mid as int]);
                    }
                }
            }
            lo = mid + 1;
        } else {
            proof {
                assert forall|j: int| mid <= j < t.len() implies t[j] > offset by {
                    if j > mid {
                        assert(t[mid as int] < t[j]);
                    }
                }
            }
            hi = mid;
        }
    }
    proof {
        lemma_count_at_most_split(t, offset as int, lo as int);
    }
    if lo == 0 {
        0
    } else {
        lo - 1
    }
}

/// The byte range of the line `line_idx`: from its start to the start of the next line, or to
/// `text_len` for the last one.
pub fn line_range(line_idx: usize, line_starts: &[usize], text_len: usize) -> (r: std::ops::Range<usize>)
    requires
        line_idx < line_starts@.len(),
    ensures
        r.start == line_starts@[line_idx as int],
        r.end == if line_idx + 1 < line_starts@.len() {
            line_starts@[line_idx + 1]
        } else {
            text_len
        },
{
    let start = line_starts[line_idx];
    let end = if line_idx + 1 < line_starts.len() {
        line_starts[line_idx + 1]
    } else {
        text_len
    };
    start..end
}

} // verus!
