use vstd::prelude::*;

use crate::text::{
    byte_len, char_pos_of_byte, chars_of, is_byte_position, lemma_byte_position_unique,
    lemma_first_newline_bounds, newline_from, std_line_stop, std_lines, std_lines_from, str_byte_len,
    string_of,
};

verus! {

/// The line `n` of `s` (counted from 0), as `str::lines` cuts `s`; `None` when `s` has fewer
/// lines.
pub fn get_nth_line<'a>(s: &'a str, n: usize) -> (r: Option<&'a str>)
    ensures
        r matches Some(l) ==> n < std_lines(s@).len() && l@ == std_lines(s@)[n as int],
        r is None <==> n >= std_lines(s@).len(),
{
    let v = chars_of(s);
    let mut a: usize = 0;
    let mut k: usize = 0;
    let ghost mut before: Seq<Seq<char>> = Seq::empty();
    while a < v.len()
        invariant
            v@ == s@,
            a <= v@.len(),
            before.len() == k,
            k <= n,
            before + std_lines_from(s@, a as nat) == std_lines(s@),
        decreases v@.len() - a,
    {
        let stop = std_line_stop(&v, a);
        if k == n {
            proof {
                assert(std_lines_from(s@, a as nat)[0] == crate::text::std_line(s@, a as nat));
                assert(std_lines(s@)[n as int] == std_lines_from(s@, a as nat)[0]);
            }
            return Some(s.substring_char(a, stop));
        }
        let e = newline_from(&v, a);
        proof {
            lemma_first_newline_bounds(s@, a as nat);
        }
        if e >= v.len() {
            proof {
                assert(std_lines_from(s@, a as nat).len() == 1);
            }
            return None;
        }
        proof {
            let line = crate::text::std_line(s@, a as nat);
            assert(std_lines_from(s@, a as nat) == seq![line] + std_lines_from(s@, (e + 1) as nat));
            assert(before.push(line) + std_lines_from(s@, (e + 1) as nat) =~= before + std_lines_from(
                s@,
                a as nat,
            ));
            before = before.push(line);
        }
        a = e + 1;
        k = k + 1;
    }
    proof {
        assert(std_lines_from(s@, a as nat) =~= Seq::<Seq<char>>::empty());
        assert(before =~= std_lines(s@));
    }
    None
}

/// An edit of a text: the bytes from `start` to `end` replaced by `text`.
#[derive(Debug, Clone)]
pub struct TextEdit {
    pub start: usize,
    pub end: usize,
    pub text: String,
}

/// An edit as values: start, end and the new text.
pub open spec fn edit_view(e: TextEdit) -> (usize, usize, Seq<char>) {
    (e.start, e.end, e.text@)
}

/// Edits as values.
pub open spec fn edits_view(v: Seq<TextEdit>) -> Seq<(usize, usize, Seq<char>)> {
    Seq::new(v.len(), |i: int| edit_view(v[i]))
}

/// `s`, ordered by start, with `x` put after every edit that starts at or before it.
pub open spec fn insert_by_start(s: Seq<(usize, usize, Seq<char>)>, x: (usize, usize, Seq<char>)) -> Seq<
    (usize, usize, Seq<char>),
>
    decreases s.len(),
{
    if s.len() == 0 {
        seq![x]
    } else if s.last().0 <= x.0 {
        s.push(x)
    } else {
        insert_by_start(s.drop_last(), x).push(s.last())
    }
}

/// The edits `s` ordered by start, edits with the same start kept in their order (the stable
/// sort by start).
pub open spec fn sort_by_start(s: Seq<(usize, usize, Seq<char>)>) -> Seq<(usize, usize, Seq<char>)>
    decreases s.len(),
{
    if s.len() == 0 {
        s
    } else {
        insert_by_start(sort_by_start(s.drop_last()), s.last())
    }
}

/// Edits ordered by start.
pub open spec fn sorted_by_start(s: Seq<(usize, usize, Seq<char>)>) -> bool {
    forall|i: int, j: int| 0 <= i < j < s.len() ==> s[i].0 <= s[j].0
}

/// The edits of `s` (ordered by start) that start at or after the end of the edit kept before
/// them, the first compared with `last_end`.
pub open spec fn keep_apart(s: Seq<(usize, usize, Seq<char>)>, last_end: usize) -> Seq<(usize, usize, Seq<char>)>
    decreases s.len(),
{
    if s.len() == 0 {
        s
    } else if s[0].0 < last_end {
        keep_apart(s.drop_first(), last_end)
    } else {
        seq![s[0]] + keep_apart(s.drop_first(), s[0].1)
    }
}

/// The text `buf` with the bytes from `e.0` to `e.1` (each cut to the length of `buf`)
/// replaced by `e.2`; `None` when the range is reversed or does not fall between characters.
pub open spec fn apply_one(buf: Seq<char>, e: (usize, usize, Seq<char>)) -> Option<Seq<char>> {
    let n = byte_len(buf);
    let a: nat = if e.0 < n {
        e.0 as nat
    } else {
        n
    };
    let b: nat = if e.1 < n {
        e.1 as nat
    } else {
        n
    };
    if a <= b && (exists|k: nat| is_byte_position(buf, a, k)) && (exists|k: nat| is_byte_position(buf, b, k)) {
        let ka = choose|k: nat| is_byte_position(buf, a, k);
        let kb = choose|k: nat| is_byte_position(buf, b, k);
        Some(buf.take(ka as int) + e.2 + buf.skip(kb as int))
    } else {
        None
    }
}

/// The text `buf` with the edits `s` applied from the last to the first; `None` when one of
/// them cannot be applied.
pub open spec fn apply_from_back(buf: Seq<char>, s: Seq<(usize, usize, Seq<char>)>) -> Option<Seq<char>>
    decreases s.len(),
{
    if s.len() == 0 {
        Some(buf)
    } else {
        match apply_one(buf, s.last()) {
            Some(b2) => apply_from_back(b2, s.drop_last()),
            None => None,
        }
    }
}

/// What applying the edits `s` to `buf` gives: ordered by start, those that overlap an edit
/// kept before them dropped, the rest applied from the last to the first.
pub open spec fn spec_apply_edits(buf: Seq<char>, s: Seq<(usize, usize, Seq<char>)>) -> Option<Seq<char>> {
    apply_from_back(buf, keep_apart(sort_by_start(s), 0))
}

proof fn lemma_insert_by_start(s: Seq<(usize, usize, Seq<char>)>, x: (usize, usize, Seq<char>), j: int)
    requires
        0 <= j <= s.len(),
        forall|i: int| 0 <= i < j ==> s[i].0 <= x.0,
        forall|i: int| j <= i < s.len() ==> s[i].0 > x.0,
    ensures
        insert_by_start(s, x) == s.insert(j, x),
    decreases s.len(),
{
    if s.len() > 0 {
        if j == s.len() {
            assert(s.insert(j, x) =~= s.push(x));
        } else {
            lemma_insert_by_start(s.drop_last(), x, j);
            assert(s.drop_last().insert(j, x).push(s.last()) =~= s.insert(j, x));
        }
    } else {
        assert(s.insert(0, x) =~= seq![x]);
    }
}

fn copy_edit(e: &TextEdit) -> (r: TextEdit)
    ensures
        edit_view(r) == edit_view(*e),
{
    TextEdit { start: e.start, end: e.end, text: e.text.clone() }
}

/// The edits `v` ordered by start, edits with the same start kept in their order.
fn sort_edits_by_start(v: &Vec<TextEdit>) -> (r: Vec<TextEdit>)
    ensures
        edits_view(r@) == sort_by_start(edits_view(v@)),
{
    let mut r: Vec<TextEdit> = Vec::new();
    let mut i: usize = 0;
    while i < v.len()
        invariant
            i <= v@.len(),
            edits_view(r@) == sort_by_start(edits_view(v@.take(i as int))),
            sorted_by_start(edits_view(r@)),
        decreases v@.len() - i,
    {
        let x = copy_edit(&v[i]);
        let mut j = r.len();
        while j > 0 && r[j - 1].start > x.start
            invariant
                j <= r@.len(),
                forall|k: int| j <= k < r@.len() ==> r@[k].start > x.start,
            decreases j,
        {
            j = j - 1;
        }
        let ghost s = edits_view(r@);
        proof {
            assert forall|k: int| 0 <= k < j implies s[k].0 <= x.start by {
                if j > 0 {
                    assert(s[k].0 <= s[j - 1].0);
                }
            }
            lemma_insert_by_start(s, edit_view(x), j as int);
            assert(edits_view(v@.take(i + 1)).drop_last() =~= edits_view(v@.take(i as int)));
            assert(edits_view(v@.take(i + 1)).last() == edit_view(x));
        }
        r.insert(j, x);
        proof {
            assert(edits_view(r@) =~= s.insert(j as int, edit_view(x)));
        }
        i = i + 1;
    }
    proof {
        assert(v@.take(v@.len() as int) =~= v@);
    }
    r
}

/// The edits of `v` (ordered by start) that do not overlap an edit kept before them.
fn keep_non_overlapping(v: &Vec<TextEdit>) -> (r: Vec<TextEdit>)
    ensures
        edits_view(r@) == keep_apart(edits_view(v@), 0),
{
    let mut r: Vec<TextEdit> = Vec::new();
    let mut last_end: usize = 0;
    let mut i: usize = 0;
    proof {
        assert(edits_view(v@).skip(0) =~= edits_view(v@));
        assert(edits_view(r@) =~= Seq::<(usize, usize, Seq<char>)>::empty());
        assert(edits_view(r@) + keep_apart(edits_view(v@), 0) =~= keep_apart(edits_view(v@), 0));
    }
    while i < v.len()
        invariant
            i <= v@.len(),
            edits_view(r@) + keep_apart(edits_view(v@).skip(i as int), last_end) == keep_apart(
                edits_view(v@),
                0,
            ),
        decreases v@.len() - i,
    {
        let ghost rest = edits_view(v@).skip(i as int);
        proof {
            assert(rest.drop_first() =~= edits_view(v@).skip(i + 1));
            assert(rest[0] == edit_view(v@[i as int]));
        }
        if v[i].start < last_end {
        } else {
            let e = copy_edit(&v[i]);
            proof {
                assert(edits_view(r@.push(e)) =~= edits_view(r@).push(edit_view(e)));
                assert(edits_view(r@).push(edit_view(e)) + keep_apart(rest.drop_first(), e.end) =~= edits_view(r@)
                    + (seq![rest[0]] + keep_apart(rest.drop_first(), rest[0].1)));
            }
            last_end = e.end;
            r.push(e);
        }
        i = i + 1;
    }
    proof {
        assert(edits_view(v@).skip(v@.len() as int) =~= Seq::<(usize, usize, Seq<char>)>::empty());
        assert(edits_view(r@) + Seq::<(usize, usize, Seq<char>)>::empty() =~= edits_view(r@));
    }
    r
}

/// Replaces the bytes of `buf` from `start` to `end` (each cut to the length of `buf`) by
/// `text`.
fn replace_bytes(buf: &mut String, e: &TextEdit)
    requires
        apply_one(old(buf)@, edit_view(*e)) is Some,
    ensures
        Some(final(buf)@) == apply_one(old(buf)@, edit_view(*e)),
{
    let v = chars_of(buf.as_str());
    let n = str_byte_len(buf.as_str());
    let a = if e.start < n {
        e.start
    } else {
        n
    };
    let b = if e.end < n {
        e.end
    } else {
        n
    };
    let ka = char_pos_of_byte(&v, a);
    let kb = char_pos_of_byte(&v, b);
    match (ka, kb) {
        (Some(ka), Some(kb)) => {
            proof {
                let ca = choose|k: nat| is_byte_position(v@, a as nat, k);
                let cb = choose|k: nat| is_byte_position(v@, b as nat, k);
                lemma_byte_position_unique(v@, a as nat, ca, ka as nat);
                lemma_byte_position_unique(v@, b as nat, cb, kb as nat);
            }
            let mut out = string_of(&v, 0, ka);
            out.append(e.text.as_str());
            let tail = string_of(&v, kb, v.len());
            out.append(tail.as_str());
            proof {
                assert(v@.subrange(0, ka as int) =~= v@.take(ka as int));
                assert(v@.subrange(kb as int, v@.len() as int) =~= v@.skip(kb as int));
            }
            *buf = out;
        },
        _ => {
            proof {
                assert(false);
            }
        },
    }
}

/// Applies a batch of edits, each relative to the unedited text, to `fmt_buffer`: ordered by
/// start, an edit that starts before the end of the edit kept before it is skipped, and the
/// rest are applied from the last to the first, so that earlier offsets stay valid; offsets
/// past the end of the text are cut to it.
pub fn apply_edits_in_place(fmt_buffer: &mut String, edits: Vec<TextEdit>)
    requires
        spec_apply_edits(old(fmt_buffer)@, edits_view(edits@)) is Some,
    ensures
        Some(final(fmt_buffer)@) == spec_apply_edits(old(fmt_buffer)@, edits_view(edits@)),
{
    if edits.len() == 0 {
        proof {
            assert(edits_view(edits@) =~= Seq::<(usize, usize, Seq<char>)>::empty());
        }
        return;
    }
    let sorted = sort_edits_by_start(&edits);
    let kept = keep_non_overlapping(&sorted);
    let ghost start = fmt_buffer@;
    let mut i = kept.len();
    proof {
        assert(edits_view(kept@).take(i as int) =~= edits_view(kept@));
    }
    while i > 0
        invariant
            i <= kept@.len(),
            apply_from_back(fmt_buffer@, edits_view(kept@).take(i as int)) == apply_from_back(
                start,
                edits_view(kept@),
            ),
            apply_from_back(start, edits_view(kept@)) is Some,
        decreases i,
    {
        let ghost t = edits_view(kept@).take(i as int);
        proof {
            assert(t.last() == edit_view(kept@[i - 1]));
            assert(t.drop_last() =~= edits_view(kept@).take(i - 1));
        }
        replace_bytes(fmt_buffer, &kept[i - 1]);
        i = i - 1;
    }
    proof {
        assert(edits_view(kept@).take(0) =~= Seq::<(usize, usize, Seq<char>)>::empty());
    }
}

proof fn lemma_insert_by_start_sorted(s: Seq<(usize, usize, Seq<char>)>, x: (usize, usize, Seq<char>))
    requires
        sorted_by_start(s),
    ensures
        sorted_by_start(insert_by_start(s, x)),
        insert_by_start(s, x).to_multiset() == s.to_multiset().insert(x),
        forall|i: int| 0 <= i < insert_by_start(s, x).len() ==> #[trigger] insert_by_start(s, x)[i] == x
            || s.contains(insert_by_start(s, x)[i]),
    decreases s.len(),
{
    broadcast use vstd::seq_lib::group_to_multiset_ensures;

    if s.len() == 0 {
        assert(seq![x] =~= Seq::<(usize, usize, Seq<char>)>::empty().push(x));
    } else if s.last().0 <= x.0 {
        assert forall|i: int| 0 <= i < s.push(x).len() implies #[trigger] s.push(x)[i] == x || s.contains(
            s.push(x)[i],
        ) by {
            if i < s.len() {
                assert(s.push(x)[i] == s[i]);
            }
        }
    } else {
        let t = s.drop_last();
        lemma_insert_by_start_sorted(t, x);
        let u = insert_by_start(t, x);
        assert forall|i: int| 0 <= i < u.len() implies u[i].0 <= s.last().0 by {
            if u[i] != x {
                let j = choose|j: int| 0 <= j < t.len() && t[j] == u[i];
                assert(s[j] == t[j]);
            }
        }
        assert forall|i: int| 0 <= i < u.push(s.last()).len() implies #[trigger] u.push(s.last())[i] == x
            || s.contains(u.push(s.last())[i]) by {
            if i < u.len() {
                if u[i] != x {
                    let j = choose|j: int| 0 <= j < t.len() && t[j] == u[i];
                    assert(s[j] == t[j]);
                }
            } else {
                assert(s[s.len() - 1] == s.last());
            }
        }
        assert(t.push(s.last()) =~= s);
        assert(u.push(s.last()).to_multiset() =~= t.to_multiset().insert(x).insert(s.last()));
        assert(s.to_multiset() =~= t.to_multiset().insert(s.last()));
    }
}

/// Ordering edits by start gives them in order, with the same edits.
pub proof fn law_sort_by_start(s: Seq<(usize, usize, Seq<char>)>)
    ensures
        sorted_by_start(sort_by_start(s)),
        sort_by_start(s).to_multiset() == s.to_multiset(),
    decreases s.len(),
{
    broadcast use vstd::seq_lib::group_to_multiset_ensures;

    if s.len() > 0 {
        law_sort_by_start(s.drop_last());
        lemma_insert_by_start_sorted(sort_by_start(s.drop_last()), s.last());
        assert(s.drop_last().push(s.last()) =~= s);
    }
}

/// The edits that are applied do not overlap: each starts at or after the end of the one
/// before it, and the first at or after `last_end`.
pub proof fn law_kept_edits_apart(s: Seq<(usize, usize, Seq<char>)>, last_end: usize)
    ensures
        forall|i: int| 0 <= i < keep_apart(s, last_end).len() - 1 ==> #[trigger] keep_apart(s, last_end)[i].1
            <= keep_apart(s, last_end)[i + 1].0,
        keep_apart(s, last_end).len() > 0 ==> keep_apart(s, last_end)[0].0 >= last_end,
    decreases s.len(),
{
    if s.len() > 0 {
        law_kept_edits_apart(s.drop_first(), last_end);
        law_kept_edits_apart(s.drop_first(), s[0].1);
        if s[0].0 >= last_end {
            let r = keep_apart(s, last_end);
            let q = keep_apart(s.drop_first(), s[0].1);
            assert forall|i: int| 0 <= i < r.len() - 1 implies #[trigger] r[i].1 <= r[i + 1].0 by {
                if i > 0 {
                    assert(r[i] == q[i - 1]);
                    assert(r[i + 1] == q[i]);
                }
            }
        }
    }
}

} // verus!
