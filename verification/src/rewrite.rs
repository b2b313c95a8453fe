use vstd::prelude::*;

use crate::config::Config;
use crate::shape::{Indent, Shape};
use crate::text;
use crate::text::{chars_of, starts_with_at, string_of};

verus! {

/// The pieces of `list` joined with `sep` between them.
pub open spec fn join(list: Seq<Seq<char>>, sep: Seq<char>) -> Seq<char>
    decreases list.len(),
{
    if list.len() == 0 {
        Seq::empty()
    } else if list.len() == 1 {
        list[0]
    } else {
        join(list.drop_last(), sep) + sep + list.last()
    }
}

pub proof fn lemma_join_push(list: Seq<Seq<char>>, sep: Seq<char>, x: Seq<char>)
    ensures
        join(list.push(x), sep) == if list.len() == 0 {
            x
        } else {
            join(list, sep) + sep + x
        },
{
    assert(list.push(x).drop_last() =~= list);
}

/// Trim trailing whitespaces unless they consist of two or more whitespaces (in a doc comment).
pub open spec fn spec_trim_end_unless_two_whitespaces(s: Seq<char>, is_doc_comment: bool) -> Seq<char> {
    if is_doc_comment && text::has_suffix(s, "  "@) {
        s
    } else {
        text::trim_end(s)
    }
}

/// A line of a comment as the light rewrite keeps it: without leading whitespace, and without
/// trailing whitespace unless it ends a doc comment line with two spaces.
pub open spec fn light_line(l: Seq<char>, is_doc_comment: bool) -> Seq<char> {
    spec_trim_end_unless_two_whitespaces(text::trim_start(l), is_doc_comment)
}

pub open spec fn light_lines(ls: Seq<Seq<char>>, is_doc_comment: bool) -> Seq<Seq<char>>
    decreases ls.len(),
{
    if ls.len() == 0 {
        Seq::empty()
    } else {
        light_lines(ls.drop_last(), is_doc_comment).push(light_line(ls.last(), is_doc_comment))
    }
}

/// What `light_rewrite_comment` returns.
pub open spec fn spec_light_rewrite_comment(orig: Seq<char>, offset: Indent, config: Config, is_doc_comment: bool) -> Seq<char> {
    join(
        light_lines(text::std_lines(orig), is_doc_comment),
        seq!['\n'] + offset.spec_to_string(config),
    )
}

/// `v[from..to]` with its trailing whitespace dropped, unless `is_doc_comment` and it ends with
/// two spaces.
pub(crate) fn trim_end_unless_two_whitespaces(v: &Vec<char>, from: usize, to: usize, is_doc_comment: bool) -> (stop: usize)
    requires
        from <= to <= v@.len(),
    ensures
        from <= stop <= to,
        v@.subrange(from as int, stop as int) == spec_trim_end_unless_two_whitespaces(
            v@.subrange(from as int, to as int),
            is_doc_comment,
        ),
{
    proof {
        reveal_strlit("  ");
    }
    if is_doc_comment && to - from >= 2 && v[to - 1] == ' ' && v[to - 2] == ' ' {
        proof {
            assert(v@.subrange(from as int, to as int).subrange(to - from - 2, to - from) =~= "  "@);
        }
        to
    } else {
        proof {
            let s = v@.subrange(from as int, to as int);
            if is_doc_comment && text::has_suffix(s, "  "@) {
                assert(s[s.len() - 1] == "  "@[1]);
                assert(s[s.len() - 2] == "  "@[0]);
            }
        }
        crate::text::trim_end_stop(v, from, to)
    }
}

/// The number of lines of `v[a..]` as `str::lines` cuts them, bounded for loops.
pub proof fn lemma_std_lines_step(v: Seq<char>, a: nat)
    requires
        a < v.len(),
    ensures
        text::std_lines_from(v, a).len() >= 1,
        text::std_lines_from(v, a)[0] == text::std_line(v, a),
        text::first_newline(v, a) < v.len() ==> text::std_lines_from(v, a).drop_first()
            == text::std_lines_from(v, (text::first_newline(v, a) + 1) as nat),
        text::first_newline(v, a) >= v.len() ==> text::std_lines_from(v, a).drop_first()
            == Seq::<Seq<char>>::empty(),
{
    text::lemma_first_newline_bounds(v, a);
    let e = text::first_newline(v, a);
    if e < v.len() {
        assert(text::std_lines_from(v, a).drop_first() =~= text::std_lines_from(v, (e + 1) as nat));
    } else {
        assert(text::std_lines_from(v, a).drop_first() =~= Seq::<Seq<char>>::empty());
    }
}

/// Trims whitespace and aligns to indent, but otherwise does not change comments.
pub fn light_rewrite_comment(orig: &str, offset: Indent, config: &Config, is_doc_comment: bool) -> (r: String)
    requires
        offset.spec_width() <= usize::MAX,
        config.hard_tabs ==> config.tab_spaces > 0,
    ensures
        r@ == spec_light_rewrite_comment(orig@, offset, *config, is_doc_comment),
{
    let v = chars_of(orig);
    let n = v.len();
    let sep = offset.to_string_with_newline(config);
    let ghost sepv = seq!['\n'] + offset.spec_to_string(*config);
    let ghost all = text::std_lines(orig@);
    let mut r = String::new();
    let mut a: usize = 0;
    let mut k: usize = 0;
    proof {
        assert(light_lines(all.take(0), is_doc_comment) =~= Seq::<Seq<char>>::empty());
    }
    while a < n
        invariant
            v@ == orig@,
            n == v@.len(),
            a <= n,
            k <= a,
            sep@ == sepv,
            all == text::std_lines(orig@),
            k <= all.len(),
            all.skip(k as int) == text::std_lines_from(v@, a as nat),
            r@ == join(light_lines(all.take(k as int), is_doc_comment), sepv),
        decreases n - a,
    {
        let e = crate::text::newline_from(&v, a);
        let stop = crate::text::std_line_stop(&v, a);
        proof {
            lemma_std_lines_step(v@, a as nat);
            text::lemma_first_newline_bounds(v@, a as nat);
            assert(all.skip(k as int).len() >= 1);
            assert(all.skip(k as int)[0] == all[k as int]);
        }
        let start = crate::text::trim_start_from(&v, a, stop);
        let end = trim_end_unless_two_whitespaces(&v, start, stop, is_doc_comment);
        let piece = string_of(&v, start, end);
        proof {
            let l = all[k as int];
            assert(l == v@.subrange(a as int, stop as int));
            assert(piece@ == light_line(l, is_doc_comment));
            assert(all.take(k + 1) =~= all.take(k as int).push(l));
            assert(all.take(k + 1).drop_last() =~= all.take(k as int));
            lemma_join_push(light_lines(all.take(k as int), is_doc_comment), sepv, piece@);
            assert(light_lines(all.take(k as int), is_doc_comment).len() == k) by {
                lemma_light_lines_len(all.take(k as int), is_doc_comment);
            }
            assert(all.skip(k + 1) =~= all.skip(k as int).drop_first());
        }
        if k > 0 {
            r.append(sep.as_str());
        }
        r.append(piece.as_str());
        k = k + 1;
        a = if e < n {
            e + 1
        } else {
            n
        };
    }
    proof {
        assert(text::std_lines_from(v@, a as nat) =~= Seq::<Seq<char>>::empty());
        assert(all.take(k as int) =~= all);
    }
    r
}

pub proof fn lemma_light_lines_len(ls: Seq<Seq<char>>, is_doc_comment: bool)
    ensures
        light_lines(ls, is_doc_comment).len() == ls.len(),
    decreases ls.len(),
{
    if ls.len() > 0 {
        lemma_light_lines_len(ls.drop_last(), is_doc_comment);
    }
}

} // verus!
