use vstd::prelude::*;

use crate::fun_header::{
    build_line_starts, byte_offset_to_line, count_at_most, lemma_count_at_most_split, offsets_view, strictly_increasing,
};
use crate::line_mapping::{lemma_starts_upto, starts_upto};
use crate::text::{char_pos_of_byte, chars_of, is_byte_position, lemma_byte_position_unique, string_of};

verus! {

/// The byte range of line `n` of `s`, for lines that start at `lines`: from its start to the
/// line feed that ends it, or to the end of `s` for the last line; `None` past the last line.
pub fn nth_line_range(s: &[u8], n: usize, lines: &[usize]) -> (r: Option<(usize, usize)>)
    requires
        n + 1 < lines@.len() ==> lines@[n + 1] >= 1,
    ensures
        r == if n < lines@.len() {
            Some(
                (
                    lines@[n as int],
                    if n + 1 < lines@.len() {
                        (lines@[n + 1] - 1) as usize
                    } else {
                        s@.len() as usize
                    },
                ),
            )
        } else {
            None::<(usize, usize)>
        },
{
    if n >= lines.len() {
        return None;
    }
    let start = lines[n];
    let end = if n + 1 < lines.len() {
        lines[n + 1] - 1
    } else {
        s.len()
    };
    Some((start, end))
}

/// The line that the byte offset `x` falls on, for lines that start at `t`: the last line
/// that starts at or before it, or the first one.
pub open spec fn line_at(t: Seq<int>, x: int) -> int {
    if count_at_most(t, x) == 0 {
        0
    } else {
        count_at_most(t, x) - 1
    }
}

/// Whether the bytes `b[st..en]` hold something other than spaces, tabs and line feeds.
pub open spec fn has_content(b: Seq<u8>, st: int, en: int) -> bool {
    exists|i: int| st <= i < en && #[trigger] b[i] != 32u8 && b[i] != 9u8 && b[i] != 10u8
}

/// Whether a blank line goes between the blocks `x` and `y` of the text `b` with line starts
/// `t`: when the second starts on the line of the end of the first or the line after it, or
/// when the line after the end of the first is longer than one byte and not blank.
pub open spec fn needs_blank_row(b: Seq<u8>, t: Seq<int>, x: (u32, u32), y: (u32, u32)) -> bool {
    let line1 = line_at(t, x.1 as int);
    let line2 = line_at(t, y.0 as int);
    if line2 <= line1 + 1 {
        true
    } else {
        let mid = line1 + 1;
        if mid < t.len() {
            let st = t[mid];
            let en = if mid + 1 < t.len() {
                t[mid + 1] - 1
            } else {
                b.len() as int
            };
            en - st > 1 && has_content(b, st, en)
        } else {
            false
        }
    }
}

/// Where a blank line goes after the block `x`: at the start of the line after the one its
/// end is on, or at the end of the text.
pub open spec fn blank_row_at(b: Seq<u8>, t: Seq<int>, x: (u32, u32)) -> int {
    let line1 = line_at(t, x.1 as int);
    if line1 + 1 < t.len() {
        t[line1 + 1]
    } else {
        b.len() as int
    }
}

/// The places where a blank line goes, between the first `k` pairs of neighbouring blocks.
pub open spec fn blank_rows(b: Seq<u8>, t: Seq<int>, blocks: Seq<(u32, u32)>, k: nat) -> Seq<int>
    decreases k,
{
    if k == 0 {
        Seq::empty()
    } else {
        let rest = blank_rows(b, t, blocks, (k - 1) as nat);
        if needs_blank_row(b, t, blocks[k - 1], blocks[k as int]) {
            rest.push(blank_row_at(b, t, blocks[k - 1]))
        } else {
            rest
        }
    }
}

/// The places where a blank line goes in the text of bytes `b`, between its neighbouring
/// blocks `blocks`.
pub open spec fn spec_blank_rows(b: Seq<u8>, blocks: Seq<(u32, u32)>) -> Seq<int> {
    if blocks.len() < 2 {
        Seq::empty()
    } else {
        blank_rows(b, starts_upto(b, b.len()), blocks, (blocks.len() - 1) as nat)
    }
}

/// The text `buf` with a line feed put at the byte offset `p`; `None` when `p` does not fall
/// between characters.
pub open spec fn insert_newline(buf: Seq<char>, p: int) -> Option<Seq<char>> {
    if p >= 0 && exists|k: nat| #[trigger] is_byte_position(buf, p as nat, k) {
        let k = choose|k: nat| #[trigger] is_byte_position(buf, p as nat, k);
        Some(buf.take(k as int) + seq!['\n'] + buf.skip(k as int))
    } else {
        None
    }
}

/// The text `buf` with line feeds put at the offsets `ps`, the last first.
pub open spec fn insert_newlines(buf: Seq<char>, ps: Seq<int>) -> Option<Seq<char>>
    decreases ps.len(),
{
    if ps.len() == 0 {
        Some(buf)
    } else {
        match insert_newline(buf, ps.last()) {
            Some(b2) => insert_newlines(b2, ps.drop_last()),
            None => None,
        }
    }
}

/// What putting blank lines between the blocks of `s` gives; `bytes` is the encoding of `s`.
pub open spec fn spec_add_blank_rows(s: Seq<char>, bytes: Seq<u8>, blocks: Seq<(u32, u32)>) -> Option<Seq<char>> {
    insert_newlines(s, spec_blank_rows(bytes, blocks))
}

proof fn lemma_count_at_most_len(s: Seq<int>, x: int)
    ensures
        count_at_most(s, x) <= s.len(),
    decreases s.len(),
{
    if s.len() > 0 {
        lemma_count_at_most_len(s.drop_last(), x);
    }
}

/// Puts a line feed into `buf` at the byte offset `p`.
fn insert_newline_at(buf: &mut String, p: usize)
    requires
        insert_newline(old(buf)@, p as int) is Some,
    ensures
        Some(final(buf)@) == insert_newline(old(buf)@, p as int),
{
    let v = chars_of(buf.as_str());
    match char_pos_of_byte(&v, p) {
        Some(k) => {
            proof {
                let c = choose|j: nat| is_byte_position(v@, p as nat, j);
                lemma_byte_position_unique(v@, p as nat, c, k as nat);
            }
            let mut out = string_of(&v, 0, k);
            out.append("\n");
            let tail = string_of(&v, k, v.len());
            out.append(tail.as_str());
            proof {
                reveal_strlit("\n");
                assert(v@.subrange(0, k as int) =~= v@.take(k as int));
                assert(v@.subrange(k as int, v@.len() as int) =~= v@.skip(k as int));
            }
            *buf = out;
        },
        None => {
            proof {
                assert(false);
            }
        },
    }
}

/// Whether `b[st..en]` holds something other than spaces, tabs and line feeds.
fn line_has_content(b: &[u8], st: usize, en: usize) -> (r: bool)
    requires
        st <= en <= b@.len(),
    ensures
        r == has_content(b@, st as int, en as int),
{
    let mut i = st;
    while i < en
        invariant
            st <= i <= en <= b@.len(),
            forall|j: int| st <= j < i ==> !(b@[j] != 32u8 && b@[j] != 9u8 && b@[j] != 10u8),
        decreases en - i,
    {
        if b[i] != 32u8 && b[i] != 9u8 && b[i] != 10u8 {
            return true;
        }
        i = i + 1;
    }
    false
}

/// Whether a blank line goes between the blocks `x` and `y` of the text of bytes `bytes`, whose
/// lines start at `nls`, and where.
fn blank_row_between(bytes: &[u8], nls: &Vec<usize>, x: (u32, u32), y: (u32, u32)) -> (r: (bool, usize))
    requires
        offsets_view(nls@) == starts_upto(bytes@, bytes@.len()),
    ensures
        r.0 == needs_blank_row(bytes@, offsets_view(nls@), x, y),
        r.0 ==> r.1 == blank_row_at(bytes@, offsets_view(nls@), x),
{
    let ghost t = offsets_view(nls@);
    proof {
        lemma_starts_upto(bytes@, bytes@.len());
        lemma_count_at_most_len(t, x.1 as int);
        lemma_count_at_most_len(t, y.0 as int);
    }
    let n_lines = nls.len();
    assert(n_lines == t.len());
    let line1 = byte_offset_to_line(x.1 as usize, nls.as_slice());
    let line2 = byte_offset_to_line(y.0 as usize, nls.as_slice());
    assert(line1 as int == line_at(t, x.1 as int));
    assert(line2 as int == line_at(t, y.0 as int));
    let ins_pos = if line1 + 1 < n_lines {
        nls[line1 + 1]
    } else {
        bytes.len()
    };
    if line2 <= line1 + 1 {
        return (true, ins_pos);
    }
    let mid_line = line1 + 1;
    proof {
        if mid_line < t.len() {
            assert(t[mid_line as int] <= bytes@.len());
            if mid_line + 1 < t.len() {
                assert(t[mid_line as int] < t[mid_line + 1]);
            }
        }
    }
    let need = match nth_line_range(bytes, mid_line, nls.as_slice()) {
        Some((st, en)) => en - st > 1 && line_has_content(bytes, st, en),
        None => false,
    };
    (need, ins_pos)
}

/// Puts a blank line between neighbouring blocks of `s` (`blocks` holds where each starts and
/// ends, in bytes) where they stand on neighbouring lines or where the line after the first
/// holds something; the line feeds go in from the last place to the first.
pub fn add_blank_row_in_two_blocks(s: &mut String, blocks: &[(u32, u32)])
    requires
        spec_add_blank_rows(old(s)@, vstd::utf8::encode_utf8(old(s)@), blocks@) is Some,
    ensures
        Some(final(s)@) == spec_add_blank_rows(old(s)@, vstd::utf8::encode_utf8(old(s)@), blocks@),
{
    if blocks.len() < 2 {
        return;
    }
    let nls = build_line_starts(s.as_str());
    let ghost b = vstd::utf8::encode_utf8(s@);
    let ghost t = starts_upto(b, b.len());
    proof {
        lemma_starts_upto(b, b.len());
        assert(offsets_view(nls@) == t);
        assert(strictly_increasing(t));
    }
    let mut inserts: Vec<usize> = Vec::new();
    let mut idx: usize = 0;
    let last = blocks.len() - 1;
    while idx < last
        invariant
            last == blocks@.len() - 1,
            idx <= last,
            offsets_view(nls@) == t,
            t == starts_upto(b, b.len()),
            vstd::utf8::encode_utf8(s@) == b,
            offsets_view(inserts@) == blank_rows(b, t, blocks@, idx as nat),
        decreases last - idx,
    {
        let bytes = s.as_str().as_bytes();
        assert(bytes@ == b);
        let (need, ins_pos) = blank_row_between(bytes, &nls, blocks[idx], blocks[idx + 1]);
        if need {
            inserts.push(ins_pos);
            proof {
                assert(offsets_view(inserts@) =~= blank_rows(b, t, blocks@, idx as nat).push(
                    blank_row_at(b, t, blocks@[idx as int]),
                ));
            }
        }
        idx = idx + 1;
    }
    let ghost ps = offsets_view(inserts@);
    let ghost start = s@;
    let mut i = inserts.len();
    proof {
        assert(ps.take(i as int) =~= ps);
    }
    while i > 0
        invariant
            i <= inserts@.len(),
            ps == offsets_view(inserts@),
            insert_newlines(s@, ps.take(i as int)) == insert_newlines(start, ps),
            insert_newlines(start, ps) is Some,
        decreases i,
    {
        proof {
            assert(ps.take(i as int).drop_last() =~= ps.take(i - 1));
            assert(ps.take(i as int).last() == inserts@[i - 1] as int);
        }
        insert_newline_at(s, inserts[i - 1]);
        i = i - 1;
    }
    proof {
        assert(ps.take(0) =~= Seq::<int>::empty());
    }
}

/// The characters of a text other than line feeds.
pub open spec fn without_line_feeds(s: Seq<char>) -> Seq<char> {
    s.filter(|c: char| c != '\n')
}

/// Putting line feeds into a text adds one character for each place and changes nothing but
/// line feeds.
pub proof fn law_insert_newlines_adds_only_line_feeds(buf: Seq<char>, ps: Seq<int>)
    requires
        insert_newlines(buf, ps) is Some,
    ensures
        insert_newlines(buf, ps).unwrap().len() == buf.len() + ps.len(),
        without_line_feeds(insert_newlines(buf, ps).unwrap()) == without_line_feeds(buf),
    decreases ps.len(),
{
    if ps.len() > 0 {
        let k = choose|k: nat| #[trigger] is_byte_position(buf, ps.last() as nat, k);
        let b2 = buf.take(k as int) + seq!['\n'] + buf.skip(k as int);
        law_insert_newlines_adds_only_line_feeds(b2, ps.drop_last());
        let f = |c: char| c != '\n';
        assert(buf =~= buf.take(k as int) + buf.skip(k as int));
        Seq::filter_distributes_over_add(buf.take(k as int), buf.skip(k as int), f);
        Seq::filter_distributes_over_add(buf.take(k as int) + seq!['\n'], buf.skip(k as int), f);
        Seq::filter_distributes_over_add(buf.take(k as int), seq!['\n'], f);
        assert(seq!['\n'].filter(f) =~= Seq::<char>::empty()) by {
            reveal_with_fuel(Seq::filter, 2);
        }
        assert(buf.take(k as int).filter(f) + Seq::<char>::empty() =~= buf.take(k as int).filter(f));
    }
}

proof fn lemma_count_at_least(s: Seq<int>, x: int, j: int)
    requires
        strictly_increasing(s),
        0 <= j < s.len(),
        s[j] <= x,
    ensures
        count_at_most(s, x) >= j + 1,
    decreases s.len(),
{
    if j == s.len() - 1 {
        let d = s.drop_last();
        assert forall|i: int| 0 <= i < d.len() implies d[i] <= x by {
            assert(s[i] < s[j]);
        }
        lemma_count_at_most_split(d, x, d.len() as int);
    } else {
        lemma_count_at_least(s.drop_last(), x, j);
    }
}

/// Between two blocks where the second starts two or more lines below the line that the first
/// ends on (the first ends on line `k - 1`, so `t[k - 1] <= x.1 < t[k]`, and the second starts at
/// or after the start of line `k + 1`), a blank line goes in exactly when the line right after
/// the end of the first block (line `k`: its bytes from `t[k]` to the line feed before `t[k + 1]`)
/// is longer than one byte and holds something other than spaces, tabs and line feeds. A blank
/// line already there means none goes in, whatever the lines further down hold. Where one goes
/// in, it goes at the start of line `k`.
pub proof fn law_blank_row_after_first_block(b: Seq<u8>, x: (u32, u32), y: (u32, u32), k: int)
    requires
        1 <= k,
        k + 1 < starts_upto(b, b.len()).len(),
        starts_upto(b, b.len())[k - 1] <= x.1 < starts_upto(b, b.len())[k],
        starts_upto(b, b.len())[k + 1] <= y.0,
    ensures
        ({
            let t = starts_upto(b, b.len());
            &&& needs_blank_row(b, t, x, y) <==> (t[k + 1] - 1 - t[k] > 1 && has_content(b, t[k], t[k + 1] - 1))
            &&& blank_row_at(b, t, x) == t[k]
        }),
{
    let t = starts_upto(b, b.len());
    lemma_starts_upto(b, b.len());
    assert(strictly_increasing(t));
    assert forall|i: int| 0 <= i < k implies t[i] <= x.1 by {
        if i < k - 1 {
            assert(t[i] < t[k - 1]);
        }
    }
    assert forall|i: int| k <= i < t.len() implies t[i] > x.1 by {
        if i > k {
            assert(t[k] < t[i]);
        }
    }
    lemma_count_at_most_split(t, x.1 as int, k);
    lemma_count_at_least(t, y.0 as int, k + 1);
    assert(line_at(t, x.1 as int) == k - 1);
    assert(line_at(t, y.0 as int) >= k + 1);
}

/// When the second block starts on the line that the first ends on or on the next one, a blank
/// line always goes in, right after the line that the first ends on.
pub proof fn law_blank_row_between_near_blocks(b: Seq<u8>, x: (u32, u32), y: (u32, u32))
    requires
        x.1 <= y.0,
        line_at(starts_upto(b, b.len()), y.0 as int) <= line_at(starts_upto(b, b.len()), x.1 as int) + 1,
    ensures
        needs_blank_row(b, starts_upto(b, b.len()), x, y),
{
}

} // verus!
