use vstd::prelude::*;

use crate::comment::{line_end, line_kind, line_text, FullCodeCharKind, LineClasses};
use crate::config::Config;
use crate::rewrite::join;
use crate::shape::Indent;
use crate::text;
use crate::text::chars_of;

verus! {

/// Start of the line after the one that starts at `a`, as `LineClasses` goes.
pub open spec fn line_next(s: Seq<char>, a: nat) -> nat {
    if line_end(s, a) < s.len() {
        line_end(s, a) + 1
    } else {
        s.len() as nat
    }
}

pub proof fn lemma_line_next(s: Seq<char>, a: nat)
    requires
        a < s.len(),
    ensures
        a < line_next(s, a) <= s.len(),
{
    crate::comment::lemma_line_end_bounds(s, a);
}

/// Whether `l` is empty or made of whitespace only.
pub open spec fn is_empty_line(l: Seq<char>) -> bool {
    forall|i: int| 0 <= i < l.len() ==> text::char_is_whitespace(l[i])
}

/// The width of the spaces and tabs that start `l`, a tab counting `tab_spaces`.
pub open spec fn prefix_space_width(tab_spaces: nat, l: Seq<char>) -> nat
    decreases l.len(),
{
    if l.len() == 0 {
        0
    } else if l[0] == ' ' {
        1 + prefix_space_width(tab_spaces, l.drop_first())
    } else if l[0] == '\t' {
        tab_spaces + prefix_space_width(tab_spaces, l.drop_first())
    } else {
        0
    }
}

pub proof fn lemma_prefix_space_width_bound(tab_spaces: nat, l: Seq<char>)
    ensures
        prefix_space_width(tab_spaces, l) <= l.len() * (tab_spaces + 1),
    decreases l.len(),
{
    if l.len() > 0 {
        lemma_prefix_space_width_bound(tab_spaces, l.drop_first());
        let n = l.len() - 1;
        assert(n * (tab_spaces + 1) + tab_spaces + 1 == (n + 1) * (tab_spaces + 1)) by (nonlinear_arith);
    }
}

/// The number of times `c` occurs in `s`.
pub open spec fn count_char(s: Seq<char>, c: char) -> nat
    decreases s.len(),
{
    if s.len() == 0 {
        0
    } else {
        (if s[0] == c {
            1nat
        } else {
            0nat
        }) + count_char(s.drop_first(), c)
    }
}

/// Whether `s` is made of spaces and tabs only.
pub open spec fn spaces_and_tabs(s: Seq<char>) -> bool {
    forall|i: int| 0 <= i < s.len() ==> s[i] == ' ' || s[i] == '\t'
}

/// The indentation width of a line counts each leading tab as `tab_spaces` columns and each
/// leading space as one; nothing after the first other character counts. So with
/// `tab_spaces == 4`, `"\t\ty"` is indented 8 columns and `"\t  y"` 6.
pub proof fn law_prefix_width_counts_tabs(tab_spaces: nat, w: Seq<char>, rest: Seq<char>)
    requires
        spaces_and_tabs(w),
        rest.len() == 0 || (rest[0] != ' ' && rest[0] != '\t'),
    ensures
        prefix_space_width(tab_spaces, w + rest) == tab_spaces * count_char(w, '\t') + count_char(w, ' '),
    decreases w.len(),
{
    if w.len() == 0 {
        assert(w + rest =~= rest);
        assert(prefix_space_width(tab_spaces, rest) == 0);
        assert(tab_spaces * 0 == 0) by (nonlinear_arith);
    } else {
        assert((w + rest).drop_first() =~= w.drop_first() + rest);
        assert((w + rest)[0] == w[0]);
        assert(spaces_and_tabs(w.drop_first())) by {
            assert forall|i: int| 0 <= i < w.drop_first().len() implies w.drop_first()[i] == ' '
                || w.drop_first()[i] == '\t' by {
                assert(w.drop_first()[i] == w[i + 1]);
            }
        }
        law_prefix_width_counts_tabs(tab_spaces, w.drop_first(), rest);
        let n = count_char(w.drop_first(), '\t');
        let m = count_char(w.drop_first(), ' ');
        let p = prefix_space_width(tab_spaces, w.drop_first() + rest);
        assert(p == tab_spaces * n + m);
        if w[0] == ' ' {
            assert(count_char(w, ' ') == m + 1);
            assert(count_char(w, '\t') == n);
            assert(prefix_space_width(tab_spaces, w + rest) == 1 + p);
        } else {
            assert(w[0] == '\t');
            assert(count_char(w, ' ') == m);
            assert(count_char(w, '\t') == n + 1);
            assert(prefix_space_width(tab_spaces, w + rest) == tab_spaces + p);
            assert(tab_spaces * (n + 1) == tab_spaces * n + tab_spaces) by (nonlinear_arith);
        }
    }
}

proof fn lemma_count_char_concat(a: Seq<char>, b: Seq<char>, c: char)
    ensures
        count_char(a + b, c) == count_char(a, c) + count_char(b, c),
    decreases a.len(),
{
    if a.len() == 0 {
        assert(a + b =~= b);
    } else {
        assert((a + b).drop_first() =~= a.drop_first() + b);
        lemma_count_char_concat(a.drop_first(), b, c);
    }
}

proof fn lemma_count_char_repeat(x: char, n: nat, c: char)
    ensures
        count_char(crate::shape::repeat_char(x, n), c) == if x == c {
            n
        } else {
            0
        },
    decreases n,
{
    if n > 0 {
        assert(crate::shape::repeat_char(x, n).drop_first() =~= crate::shape::repeat_char(x, (n - 1) as nat));
        lemma_count_char_repeat(x, (n - 1) as nat, c);
    }
}

/// A line after the first, as the layout-preserving trim keeps it: whether it was trimmed, its
/// text, and the width of its indentation (none for a blank line).
pub struct LayoutLine {
    pub trimmed: bool,
    pub line: Seq<char>,
    pub width: Option<nat>,
}

/// `l` without its leading and trailing whitespace.
pub open spec fn trim(l: Seq<char>) -> Seq<char> {
    text::trim_start(text::trim_end(l))
}

/// The indentation width of a line that is not blank.
pub open spec fn line_width(tab_spaces: nat, l: Seq<char>) -> Option<nat> {
    if is_empty_line(l) {
        None
    } else {
        Some(prefix_space_width(tab_spaces, l))
    }
}

/// The lines from the one that starts at `a` on, each kept as is where it lies in a string
/// (`veto`: the line before ends in one), trimmed otherwise.
pub open spec fn layout_items(s: Seq<char>, tab_spaces: nat, a: nat, veto: bool) -> Seq<LayoutLine>
    decreases s.len() - a,
{
    if a >= s.len() {
        Seq::empty()
    } else {
        let l = line_text(s, a);
        let width = line_width(tab_spaces, l);
        let nv = line_kind(s, a) == FullCodeCharKind::InString && !text::has_suffix(l, seq!['\\']);
        proof {
            lemma_line_next(s, a);
        }
        if veto || nv {
            seq![LayoutLine { trimmed: false, line: l, width }] + layout_items(
                s,
                tab_spaces,
                line_next(s, a),
                nv,
            )
        } else {
            seq![LayoutLine { trimmed: true, line: trim(l), width }] + layout_items(
                s,
                tab_spaces,
                line_next(s, a),
                false,
            )
        }
    }
}

/// The smaller of two optional widths, a missing one left out.
pub open spec fn opt_min(a: Option<nat>, b: Option<nat>) -> Option<nat> {
    match (a, b) {
        (Some(x), Some(y)) => Some(if x <= y { x } else { y }),
        (Some(x), None) => Some(x),
        (None, _) => b,
    }
}

/// The smallest indentation width of the lines from the one that starts at `a` on, lines in
/// a string left out.
pub open spec fn layout_min(s: Seq<char>, tab_spaces: nat, a: nat) -> Option<nat>
    decreases s.len() - a,
{
    if a >= s.len() {
        None
    } else {
        let k = line_kind(s, a);
        let c = if k == FullCodeCharKind::InString || k == FullCodeCharKind::EndString {
            None
        } else {
            line_width(tab_spaces, line_text(s, a))
        };
        proof {
            lemma_line_next(s, a);
        }
        opt_min(c, layout_min(s, tab_spaces, line_next(s, a)))
    }
}

/// The smallest indentation of the lines from the one at `a` on: no larger than the
/// indentation of the line at `a` (when it is neither blank nor in a string) nor than the
/// smallest one of the lines after it, and equal to one of them.
pub proof fn law_layout_min_is_smallest(s: Seq<char>, tab_spaces: nat, a: nat)
    requires
        a < s.len(),
    ensures
        ({
            let k = line_kind(s, a);
            let c = if k == FullCodeCharKind::InString || k == FullCodeCharKind::EndString {
                None
            } else {
                line_width(tab_spaces, line_text(s, a))
            };
            let rest = layout_min(s, tab_spaces, line_next(s, a));
            &&& c matches Some(x) ==> layout_min(s, tab_spaces, a) matches Some(m) && m <= x
            &&& rest matches Some(y) ==> layout_min(s, tab_spaces, a) matches Some(m) && m <= y
            &&& layout_min(s, tab_spaces, a) matches Some(m) ==> c == Some(m) || rest == Some(m)
            &&& c is None && rest is None ==> layout_min(s, tab_spaces, a) is None
        }),
{
}

/// The text of a line once re-indented: its indentation width above the smallest one is kept,
/// on top of `indent`.
pub open spec fn layout_text(it: LayoutLine, min: nat, indent: Indent, config: Config) -> Seq<char> {
    if !it.trimmed {
        it.line
    } else {
        match it.width {
            Some(w) => Indent::spec_from_width(
                config,
                (indent.spec_width() + (if w >= min {
                    w - min
                } else {
                    0
                })) as nat,
            ).spec_to_string(config) + it.line,
            None => Seq::empty(),
        }
    }
}

pub open spec fn layout_texts(items: Seq<LayoutLine>, min: nat, indent: Indent, config: Config) -> Seq<Seq<char>> {
    Seq::new(items.len(), |j: int| layout_text(items[j], min, indent, config))
}

/// A re-indented line keeps how far it was indented beyond the smallest indentation `min`: its
/// text starts with an indentation of the width of `indent` plus that, tabs counting
/// `tab_spaces` columns where tabs are used. So the lines keep their layout relative to each
/// other, whether they were indented with tabs or spaces.
pub proof fn law_layout_keeps_relative_width(it: LayoutLine, min: nat, indent: Indent, config: Config)
    requires
        it.trimmed,
        it.width matches Some(w) && w >= min,
        it.line.len() == 0 || (it.line[0] != ' ' && it.line[0] != '\t'),
        config.hard_tabs ==> config.tab_spaces > 0,
        0 <= indent.spec_width(),
        indent.spec_width() + it.width->0 - min <= usize::MAX,
    ensures
        prefix_space_width(config.tab_spaces as nat, layout_text(it, min, indent, config)) == indent.spec_width()
            + (it.width->0 - min),
{
    let ts = config.tab_spaces as nat;
    let wd = (indent.spec_width() + (it.width->0 - min)) as nat;
    let ind = Indent::spec_from_width(config, wd);
    let (t, sp) = ind.tabs_and_spaces(config);
    let pre = crate::shape::repeat_char('\t', t) + crate::shape::repeat_char(' ', sp);
    assert(layout_text(it, min, indent, config) == pre + it.line);
    assert(spaces_and_tabs(pre));
    law_prefix_width_counts_tabs(ts, pre, it.line);
    lemma_count_char_concat(crate::shape::repeat_char('\t', t), crate::shape::repeat_char(' ', sp), '\t');
    lemma_count_char_concat(crate::shape::repeat_char('\t', t), crate::shape::repeat_char(' ', sp), ' ');
    lemma_count_char_repeat('\t', t, '\t');
    lemma_count_char_repeat('\t', t, ' ');
    lemma_count_char_repeat(' ', sp, '\t');
    lemma_count_char_repeat(' ', sp, ' ');
    if config.hard_tabs {
        let q = wd / ts;
        let r = wd % ts;
        assert(wd == ts * q + r && r < ts) by (nonlinear_arith)
            requires
                ts > 0,
                q == wd / ts,
                r == wd % ts,
        ;
        assert((ts * q) / ts == q) by (nonlinear_arith)
            requires
                ts > 0,
        ;
        assert(ts * q <= wd);
        assert(ind.block_indent == ts * q);
        assert(ind.alignment == r);
        assert(t == q);
        assert(sp == r);
    } else {
        assert(t == 0);
        assert(sp == wd);
    }
}

/// What `trim_left_preserve_layout` returns.
pub open spec fn spec_trim_left_preserve_layout(s: Seq<char>, indent: Indent, config: Config) -> Option<Seq<char>> {
    if s.len() == 0 {
        None
    } else {
        let ts = config.tab_spaces as nat;
        let a1 = line_next(s, 0);
        match layout_min(s, ts, a1) {
            None => None,
            Some(m) => Some(
                text::trim_end(line_text(s, 0)) + seq!['\n'] + join(
                    layout_texts(layout_items(s, ts, a1, false), m, indent, config),
                    seq!['\n'],
                ),
            ),
        }
    }
}

/// The width of the spaces and tabs that start `v`.
fn get_prefix_space_width(config: &Config, v: &Vec<char>) -> (w: usize)
    requires
        v@.len() * (config.tab_spaces + 1) <= usize::MAX,
    ensures
        w == prefix_space_width(config.tab_spaces as nat, v@),
{
    let ghost ts = config.tab_spaces as nat;
    proof {
        lemma_prefix_space_width_bound(ts, v@);
    }
    let mut width: usize = 0;
    let mut i: usize = 0;
    assert(v@.skip(0) =~= v@);
    while i < v.len()
        invariant
            i <= v@.len(),
            ts == config.tab_spaces,
            width + prefix_space_width(ts, v@.skip(i as int)) == prefix_space_width(ts, v@),
            prefix_space_width(ts, v@) <= usize::MAX,
        decreases v.len() - i,
    {
        proof {
            assert(v@.skip(i as int).drop_first() =~= v@.skip(i + 1));
        }
        if v[i] == ' ' {
            width = width + 1;
        } else if v[i] == '\t' {
            width = width + config.tab_spaces;
        } else {
            return width;
        }
        i = i + 1;
    }
    proof {
        assert(v@.skip(i as int).len() == 0);
    }
    width
}

/// Whether `v` is empty or made of whitespace only.
fn is_empty_line_exec(v: &Vec<char>) -> (b: bool)
    ensures
        b == is_empty_line(v@),
{
    let mut i: usize = 0;
    while i < v.len()
        invariant
            i <= v@.len(),
            forall|j: int| 0 <= j < i ==> text::char_is_whitespace(v@[j]),
        decreases v.len() - i,
    {
        if !text::is_whitespace(v[i]) {
            return false;
        }
        i = i + 1;
    }
    true
}

/// Whether an optional width is at most `bound`.
pub open spec fn width_within(o: Option<usize>, bound: int) -> bool {
    match o {
        Some(w) => w <= bound,
        None => true,
    }
}

/// An optional `usize` width as a number.
pub open spec fn opt_nat(o: Option<usize>) -> Option<nat> {
    match o {
        Some(w) => Some(w as nat),
        None => None,
    }
}

fn opt_min_exec(a: Option<usize>, b: Option<usize>) -> (r: Option<usize>)
    ensures
        opt_nat(r) == opt_min(opt_nat(a), opt_nat(b)),
        r matches Some(x) ==> (a matches Some(y) && x == y) || (b matches Some(y) && x == y),
{
    match (a, b) {
        (Some(x), Some(y)) => Some(
            if x <= y {
                x
            } else {
                y
            },
        ),
        (Some(x), None) => Some(x),
        (None, _) => b,
    }
}

/// `v` without its leading and trailing whitespace.
fn trim_chars(v: &Vec<char>) -> (r: String)
    ensures
        r@ == trim(v@),
{
    let stop = text::trim_end_stop(v, 0, v.len());
    let start = text::trim_start_from(v, 0, stop);
    proof {
        assert(v@.subrange(0, v@.len() as int) =~= v@);
    }
    crate::text::string_of(v, start, stop)
}

/// `v` without its trailing whitespace.
pub(crate) fn trim_end_chars(v: &Vec<char>) -> (r: String)
    ensures
        r@ == text::trim_end(v@),
{
    let stop = text::trim_end_stop(v, 0, v.len());
    proof {
        assert(v@.subrange(0, v@.len() as int) =~= v@);
    }
    crate::text::string_of(v, 0, stop)
}

/// The text of a kept line once re-indented.
fn layout_text_exec(trimmed: bool, line: &String, width: Option<usize>, min: usize, indent: Indent, config: &Config) -> (r: String)
    requires
        config.hard_tabs ==> config.tab_spaces > 0,
        width matches Some(w) ==> indent.spec_width() + w <= usize::MAX,
    ensures
        r@ == layout_text(LayoutLine { trimmed, line: line@, width: opt_nat(width) }, min as nat, indent, *config),
{
    if !trimmed {
        let mut r = String::new();
        r.append(line.as_str());
        assert(r@ =~= line@);
        return r;
    }
    match width {
        Some(w) => {
            let extra = if w >= min {
                w - min
            } else {
                0
            };
            let new_indent = Indent::from_width(config, indent.width() + extra);
            let mut r = new_indent.to_string(config);
            r.append(line.as_str());
            r
        },
        None => String::new(),
    }
}

/// Trims the lines after the first one and re-indents them on `indent`, keeping how far each is
/// indented beyond the least indented one; lines in a string are left as they are. `None` when
/// there is no line after the first, or when each of them is blank or in a string.
#[verifier::spinoff_prover]
#[verifier::rlimit(40)]
pub fn trim_left_preserve_layout(orig: &str, indent: Indent, config: &Config) -> (r: Option<String>)
    requires
        indent.spec_width() + orig@.len() * (config.tab_spaces + 1) <= usize::MAX,
        config.hard_tabs ==> config.tab_spaces > 0,
    ensures
        r matches Some(x) ==> spec_trim_left_preserve_layout(orig@, indent, *config) == Some(x@),
        r is None <==> spec_trim_left_preserve_layout(orig@, indent, *config) is None,
{
    let ghost s = orig@;
    let ghost ts = config.tab_spaces as nat;
    let mut lines = LineClasses::new(orig);
    let first_line = match lines.next() {
        Some((_, l)) => {
            let lv = chars_of(l.as_str());
            trim_end_chars(&lv)
        },
        None => {
            return None;
        },
    };
    let ghost a1 = lines.position();
    proof {
        lemma_line_next(s, 0);
    }
    let mut items: Vec<(bool, String, Option<usize>)> = Vec::new();
    let ghost mut iv: Seq<LayoutLine> = Seq::empty();
    let mut veto = false;
    let mut min: Option<usize> = None;
    let ghost bound = s.len() * (ts + 1);
    loop
        invariant
            lines.wf(),
            lines.text() == s,
            s == orig@,
            ts == config.tab_spaces,
            bound == s.len() * (ts + 1),
            indent.spec_width() + bound <= usize::MAX,
            a1 <= lines.position() <= s.len(),
            layout_items(s, ts, a1, false) == iv + layout_items(s, ts, lines.position(), veto),
            layout_min(s, ts, a1) == opt_min(opt_nat(min), layout_min(s, ts, lines.position())),
            items@.len() == iv.len(),
            forall|j: int|
                0 <= j < iv.len() ==> items@[j].0 == iv[j].trimmed && items@[j].1@ == iv[j].line
                    && opt_nat(items@[j].2) == iv[j].width,
            forall|j: int| 0 <= j < iv.len() ==> width_within((#[trigger] items@[j]).2, bound as int),
            min matches Some(m) ==> m <= bound,
        ensures
            lines.position() >= s.len(),
        decreases s.len() - lines.position(),
    {
        let ghost a = lines.position();
        match lines.next() {
            None => {
                break;
            },
            Some((kind, line)) => {
                let lv = chars_of(line.as_str());
                proof {
                    crate::comment::lemma_line_end_bounds(s, a);
                    lemma_line_next(s, a);
                    let n = lv@.len();
                    assert(n <= s.len());
                    assert(n * (ts + 1) <= s.len() * (ts + 1)) by (nonlinear_arith)
                        requires
                            n <= s.len(),
                    ;
                    lemma_prefix_space_width_bound(ts, lv@);
                }
                let width = if is_empty_line_exec(&lv) {
                    None
                } else {
                    Some(get_prefix_space_width(config, &lv))
                };
                let new_veto = kind == FullCodeCharKind::InString && !(lv.len() > 0 && lv[lv.len()
                    - 1] == '\\');
                proof {
                    let l = lv@;
                    if l.len() > 0 && l[l.len() - 1] == '\\' {
                        assert(l.subrange(l.len() - 1, l.len() as int) =~= seq!['\\']);
                    }
                    if text::has_suffix(l, seq!['\\']) {
                        assert(l[l.len() - 1] == l.subrange(l.len() - 1, l.len() as int)[0]);
                    }
                }
                let trimmed = !(veto || new_veto);
                let kept = if veto || new_veto {
                    veto = new_veto;
                    line
                } else {
                    trim_chars(&lv)
                };
                let counted = if kind == FullCodeCharKind::InString || kind
                    == FullCodeCharKind::EndString {
                    None
                } else {
                    width
                };
                min = opt_min_exec(min, counted);
                proof {
                    iv = iv.push(LayoutLine { trimmed, line: kept@, width: opt_nat(width) });
                }
                items.push((trimmed, kept, width));
            },
        }
    }
    proof {
        assert(layout_items(s, ts, lines.position(), veto) =~= Seq::<LayoutLine>::empty());
        assert(iv =~= layout_items(s, ts, a1, false));
    }
    let m = match min {
        None => {
            return None;
        },
        Some(m) => m,
    };
    let ghost texts = layout_texts(iv, m as nat, indent, *config);
    let mut body = String::new();
    let mut j: usize = 0;
    while j < items.len()
        invariant
            j <= items@.len(),
            items@.len() == iv.len(),
            texts == layout_texts(iv, m as nat, indent, *config),
            config.hard_tabs ==> config.tab_spaces > 0,
            forall|i: int|
                0 <= i < iv.len() ==> items@[i].0 == iv[i].trimmed && items@[i].1@ == iv[i].line
                    && opt_nat(items@[i].2) == iv[i].width,
            forall|i: int| 0 <= i < iv.len() ==> width_within((#[trigger] items@[i]).2, usize::MAX - indent.spec_width()),
            body@ == join(texts.take(j as int), seq!['\n']),
        decreases items.len() - j,
    {
        let t = layout_text_exec(items[j].0, &items[j].1, items[j].2, m, indent, config);
        proof {
            assert(t@ == texts[j as int]);
            crate::rewrite::lemma_join_push(texts.take(j as int), seq!['\n'], t@);
            assert(texts.take(j + 1) =~= texts.take(j as int).push(t@));
        }
        if j > 0 {
            text::string_push(&mut body, '\n');
        }
        body.append(t.as_str());
        j = j + 1;
    }
    proof {
        assert(texts.take(j as int) =~= texts);
    }
    let mut r = first_line;
    text::string_push(&mut r, '\n');
    r.append(body.as_str());
    Some(r)
}

} // verus!
