use vstd::prelude::*;

use crate::comment::{
    class_step, filtered_lines, first_uncommented, is_code_kind, kind_at, line_end, line_kind,
    line_text, spec_filter_normal_code, spec_find_uncommented, spec_is_comment, status_at,
    uncommented_scan, FullCodeCharKind,
};
use crate::dot_chain::{chain_loop, no_raw, postfix, spec_parse_dot_chain, ChainMemberView, ParseOutcome, Tok};
use crate::style::{spec_comment_style, style_of};
use crate::text;
use crate::comment_rewrite::{custom_comment_prefix, spec_hide_sharp, spec_trim_custom_comment_prefix, trim_start_prefix, unhide_line};

verus! {

/// What `find_uncommented` reports is a place where the needle occurs, and every character of
/// that occurrence is code (or string), not comment: the byte offset is that of the character
/// where the occurrence starts.
pub proof fn law_find_uncommented_sound(s: Seq<char>, pat: Seq<char>)
    ensures
        first_uncommented(s, pat) matches Some(p) ==> {
            &&& p + pat.len() <= s.len()
            &&& s.subrange(p as int, p + pat.len() as int) == pat
            &&& forall|j: int| p <= j < p + pat.len() ==> is_code_kind(#[trigger] kind_at(s, j))
            &&& spec_find_uncommented(s, pat) == Some(text::byte_len(s.take(p as int)) as int)
        },
        first_uncommented(s, pat) is None <==> spec_find_uncommented(s, pat) is None,
{
    assert(s.subrange(0, 0) =~= pat.take(0));
    crate::comment::lemma_uncommented_scan_sound(s, pat, 0, 0);
    crate::comment::lemma_scan_bounds(s, pat, 0, 0);
}

/// A needle that does not occur in the text is never found.
pub proof fn law_find_uncommented_absent(s: Seq<char>, pat: Seq<char>)
    requires
        forall|p: int| 0 <= p && p + pat.len() <= s.len() ==> !text::has_prefix_at(s, p, pat),
    ensures
        spec_find_uncommented(s, pat) is None,
{
    law_find_uncommented_sound(s, pat);
    if let Some(p) = first_uncommented(s, pat) {
        assert(text::has_prefix_at(s, p as int, pat));
    }
}

/// The scanner gives each character one of six kinds: the kinds of multi-line strings are only
/// given to whole lines.
pub proof fn lemma_char_kinds(s: Seq<char>, i: int)
    ensures
        ({
            let k = kind_at(s, i);
            k == FullCodeCharKind::Normal || k == FullCodeCharKind::InString
                || k == FullCodeCharKind::StartComment || k == FullCodeCharKind::InComment
                || k == FullCodeCharKind::EndComment || k == FullCodeCharKind::InStringCommented
        }),
{
    let st = status_at(s, i as nat);
    let r = class_step(s, i, st);
}

/// A character that is not part of a comment is code or string.
pub proof fn lemma_not_comment_is_code(s: Seq<char>, i: int)
    requires
        !spec_is_comment(kind_at(s, i)),
    ensures
        is_code_kind(kind_at(s, i)),
{
    lemma_char_kinds(s, i);
}

#[verifier::spinoff_prover]
#[verifier::rlimit(60)]
proof fn lemma_filtered_lines_comment_free(s: Seq<char>, a: nat)
    requires
        a < s.len(),
        forall|i: int| 0 <= i < s.len() ==> !spec_is_comment(#[trigger] kind_at(s, i)),
        forall|i: int| 0 <= i < s.len() ==> s[i] != '\r',
    ensures
        filtered_lines(s, a) == s.subrange(a as int, s.len() as int) + (if s.last() == '\n' {
            Seq::<char>::empty()
        } else {
            seq!['\n']
        }),
    decreases s.len() - a,
{
    crate::comment::lemma_line_end_bounds(s, a);
    let e = line_end(s, a);
    lemma_not_comment_is_code(s, a as int);
    lemma_not_comment_is_code(s, s.len() - 1);
    if e < s.len() {
        lemma_not_comment_is_code(s, e as int);
    }
    assert(crate::comment::is_code_line_kind(line_kind(s, a)));
    let t = s.subrange(a as int, e as int);
    if t.len() > 0 {
        assert(t.last() == s[e - 1]);
    }
    assert(line_text(s, a) == t);
    if e < s.len() {
        if e + 1 < s.len() {
            lemma_filtered_lines_comment_free(s, e + 1);
            assert(t.push('\n') + s.subrange(e + 1 as int, s.len() as int) =~= s.subrange(
                a as int,
                s.len() as int,
            ));
        } else {
            assert(filtered_lines(s, e + 1) =~= Seq::<char>::empty());
            assert(t.push('\n') =~= s.subrange(a as int, s.len() as int));
        }
    } else {
        assert(s.last() != '\n');
        assert(t =~= s.subrange(a as int, s.len() as int));
    }
}

/// A text with no comment (and no carriage return) comes back unchanged from
/// `filter_normal_code`.
pub proof fn law_filter_normal_code_comment_free(s: Seq<char>)
    requires
        forall|i: int| 0 <= i < s.len() ==> !spec_is_comment(#[trigger] kind_at(s, i)),
        forall|i: int| 0 <= i < s.len() ==> s[i] != '\r',
    ensures
        spec_filter_normal_code(s) == s,
{
    if s.len() == 0 {
        assert(filtered_lines(s, 0) =~= Seq::<char>::empty());
    } else {
        lemma_filtered_lines_comment_free(s, 0);
        assert(s.subrange(0, s.len() as int) =~= s);
        if s.last() != '\n' {
            assert((s + seq!['\n']).drop_last() =~= s);
        } else {
            assert(s + Seq::<char>::empty() =~= s);
        }
    }
}

/// With comment normalization, every comment gets a line-comment style: block comments are
/// turned into line comments.
pub proof fn law_normalized_style_is_line(s: Seq<char>)
    ensures
        style_of(s, true).is_line(),
        spec_comment_style(s, true) matches Some(st) ==> st.spec_is_line_comment(),
{
}

/// A rewritten string always fits the shape it was rewritten for: each of its lines is within
/// the width that the shape and the configuration allow.
pub proof fn law_rewrite_string_fits(orig: Seq<char>, fmt: crate::string_fmt::StringFormat, newline_max_chars: nat)
    ensures
        crate::string_fmt::spec_rewrite_string(orig, fmt, newline_max_chars) matches Some(r)
            ==> crate::string_fmt::spec_filtered_str_fits(r, fmt.config.max_width as nat, fmt.shape),
{
}

proof fn lemma_chain_loop_members(t: Seq<Tok>, pos: nat, acc: Seq<ChainMemberView>)
    requires
        no_raw(acc),
    ensures
        chain_loop(t, pos, acc) matches ParseOutcome::Parsed((v, _)) ==> {
            &&& no_raw(v)
            &&& v.len() >= acc.len()
            &&& v.take(acc.len() as int) == acc
        },
    decreases t.len() - pos,
{
    if pos < t.len() && t[pos as int] is Dot {
        match postfix(t, pos + 1) {
            ParseOutcome::Parsed((m, q)) => {
                if pos < q <= t.len() {
                    assert(!(m is Raw));
                    assert(no_raw(acc.push(m)));
                    lemma_chain_loop_members(t, q, acc.push(m));
                    if let ParseOutcome::Parsed((v, _)) = chain_loop(t, q, acc.push(m)) {
                        assert(v.take(acc.len() as int) =~= acc.push(m).take(acc.len() as int));
                        assert(acc.push(m).take(acc.len() as int) =~= acc);
                    }
                }
            },
            _ => {},
        }
    } else {
        assert(acc.take(acc.len() as int) =~= acc);
    }
}

/// A parsed dot chain starts with its first identifier as a field, and holds no raw text, so
/// that it can always be printed.
pub proof fn law_parsed_chain_printable(tokens: Seq<Tok>)
    ensures
        spec_parse_dot_chain(tokens) matches ParseOutcome::Parsed(v) ==> {
            &&& v.len() >= 1
            &&& tokens.len() > 0 && tokens[0] is Ident
            &&& v[0] == ChainMemberView::Field(tokens[0]->Ident_0@)
            &&& no_raw(v)
        },
{
    let t = tokens.push(Tok::EOF);
    if t[0] is Ident {
        let first = seq![ChainMemberView::Field(t[0]->Ident_0@)];
        lemma_chain_loop_members(t, 1, first);
        if let ParseOutcome::Parsed((v, _)) = chain_loop(t, 1, first) {
            assert(v[0] == v.take(1)[0]);
            if tokens.len() == 0 {
                assert(t[0] is EOF);
            }
        }
    }
}

/// What a one-line comment without surrounding whitespace looks like to the line scans.
pub open spec fn one_line_no_margins(s: Seq<char>) -> bool {
    &&& s.len() > 0
    &&& forall|i: int| 0 <= i < s.len() ==> s[i] != '\n'
    &&& !text::char_is_whitespace(s[0])
    &&& !text::char_is_whitespace(s.last())
}

proof fn lemma_one_line_basics(s: Seq<char>)
    requires
        one_line_no_margins(s),
    ensures
        text::std_line(s, 0) == s,
        text::trim_start(s) == s,
        text::trim_end(s) == s,
        crate::identify::next_line_start(s, 0) == s.len(),
        text::std_lines(s) == seq![s],
{
    text::lemma_first_newline_bounds(s, 0);
    assert(text::first_newline(s, 0) == s.len());
    assert(s.subrange(0, s.len() as int) =~= s);
    assert(text::std_lines(s) =~= seq![s]);
}

proof fn lemma_one_line_group(s: Seq<char>)
    requires
        one_line_no_margins(s),
    ensures
        crate::identify::first_group(style_of(s, false), s) == (false, s.len() as nat),
{
    reveal_strlit("/*");
    reveal_strlit("/**");
    reveal_strlit("/*!");
    reveal_strlit("*");
    reveal_strlit("//");
    lemma_one_line_basics(s);
    let style = style_of(s, false);
    if style.is_block() {
        assert(text::has_prefix(s, "/*"@)) by {
            if text::has_prefix(s, "/**"@) {
                assert(s.subrange(0, 3)[0] == '/' && s.subrange(0, 3)[1] == '*');
                assert(s.subrange(0, 2) =~= "/*"@);
            }
            if text::has_prefix(s, "/*!"@) {
                assert(s.subrange(0, 3)[0] == '/' && s.subrange(0, 3)[1] == '*');
                assert(s.subrange(0, 2) =~= "/*"@);
            }
        }
        let c = crate::identify::closers_from(s, 0) as int;
        assert(crate::identify::block_scan(style, s, s.len() as nat, c - 1, false, false) == (false, s.len() as nat));
        assert(crate::identify::block_scan(style, s, s.len() as nat, c, false, false) == (false, s.len() as nat));
    } else {
        assert(crate::identify::same_line_scan(style, s, s.len() as nat) == (false, s.len() as nat));
    }
}

proof fn lemma_one_line_light(s: Seq<char>, indent: crate::shape::Indent, config: crate::config::Config)
    requires
        one_line_no_margins(s),
    ensures
        crate::rewrite::spec_light_rewrite_comment(s, indent, config, false) == s,
{
    lemma_one_line_basics(s);
    assert(seq![s].drop_last() =~= Seq::<Seq<char>>::empty());
    assert(seq![s].last() == s);
    assert(crate::rewrite::light_lines(Seq::<Seq<char>>::empty(), false) =~= Seq::<Seq<char>>::empty());
    assert(crate::rewrite::light_lines(seq![s], false) == seq![crate::rewrite::light_line(s, false)]);
    assert(crate::rewrite::light_line(s, false) == s);
}

/// A comment on one line, with no whitespace before or after it, comes back from
/// `rewrite_comment` as it is, whatever its style.
pub proof fn law_one_line_comment_unchanged(s: Seq<char>, block_style: bool, shape: crate::shape::Shape, config: crate::config::Config)
    requires
        s.len() > 0,
        forall|i: int| 0 <= i < s.len() ==> s[i] != '\n',
        !text::char_is_whitespace(s[0]),
        !text::char_is_whitespace(s.last()),
    ensures
        crate::identify::spec_identify_comment(s, block_style, shape, config, false) == Some(s),
{
    lemma_one_line_group(s);
    lemma_one_line_light(s, shape.indent, config);
    assert(s.take(s.len() as int) =~= s);
}

/// Tokens that spell a chain of fields: identifiers at the even positions, dots at the odd
/// ones, starting and ending with an identifier.
pub open spec fn is_field_chain(t: Seq<Tok>) -> bool {
    &&& t.len() % 2 == 1
    &&& forall|i: int| 0 <= i < t.len() ==> (if i % 2 == 0 {
        #[trigger] t[i] is Ident
    } else {
        t[i] is Dot
    })
}

/// The names of a chain of fields.
pub open spec fn field_names(t: Seq<Tok>) -> Seq<Seq<char>> {
    Seq::new((t.len() + 1) / 2, |k: int| t[2 * k]->Ident_0@)
}

/// The fields of a chain of fields.
pub open spec fn field_members(t: Seq<Tok>) -> Seq<ChainMemberView> {
    Seq::new((t.len() + 1) / 2, |k: int| ChainMemberView::Field(t[2 * k]->Ident_0@))
}

proof fn lemma_field_chain_loop(t: Seq<Tok>, k: nat)
    requires
        t.len() >= 2,
        t.last() is EOF,
        is_field_chain(t.drop_last()),
        2 * k + 1 <= t.len() - 1,
    ensures
        chain_loop(t, 2 * k + 1, field_members(t.drop_last()).take((k + 1) as int)) == ParseOutcome::Parsed(
            (field_members(t.drop_last()), (t.len() - 1) as nat),
        ),
    decreases t.len() - (2 * k + 1),
{
    let u = t.drop_last();
    let pos = 2 * k + 1;
    let acc = field_members(u).take((k + 1) as int);
    if pos < u.len() {
        assert(u[pos as int] is Dot);
        assert(t[pos as int] is Dot);
        let name_pos = pos + 1;
        assert(name_pos % 2 == 0);
        assert(u[name_pos as int] is Ident);
        assert(t[name_pos as int] == u[name_pos as int]);
        let after = name_pos + 1;
        assert(after < t.len());
        if after < u.len() {
            assert((after as int) % 2 == 1);
            assert(u[after as int] is Dot);
        }
        assert(!(t[after as int] is Less) && !(t[after as int] is LParen));
        assert(crate::dot_chain::call_args(t, after as nat) == ParseOutcome::<(Seq<Seq<ChainMemberView>>, nat)>::Parsed((Seq::empty(), after as nat)));
        assert(postfix(t, pos + 1) == ParseOutcome::Parsed(
            (ChainMemberView::Field(t[name_pos as int]->Ident_0@), after as nat),
        ));
        assert(field_members(u)[(k + 1) as int] == ChainMemberView::Field(u[2 * (k + 1) as int]->Ident_0@));
        assert(acc.push(ChainMemberView::Field(t[name_pos as int]->Ident_0@)) =~= field_members(u).take((k + 2) as int));
        lemma_field_chain_loop(t, k + 1);
    } else {
        assert(pos == u.len());
        assert(t[pos as int] is EOF);
        assert(field_members(u).len() == k + 1);
        assert(acc =~= field_members(u));
    }
}

proof fn lemma_chain_text_fields(ms: Seq<ChainMemberView>, names: Seq<Seq<char>>)
    requires
        ms.len() == names.len(),
        forall|i: int| 0 <= i < ms.len() ==> #[trigger] ms[i] == ChainMemberView::Field(names[i]),
    ensures
        crate::dot_chain::chain_text(ms) == crate::rewrite::join(names, seq!['.']),
    decreases ms.len(),
{
    if ms.len() > 1 {
        let m2 = ms.subrange(0, ms.len() - 1);
        assert(m2.len() == names.drop_last().len());
        assert forall|i: int| 0 <= i < m2.len() implies #[trigger] m2[i] == ChainMemberView::Field(names.drop_last()[i]) by {
            assert(m2[i] == ms[i]);
        }
        lemma_chain_text_fields(m2, names.drop_last());
        assert(ms[ms.len() - 1] == ChainMemberView::Field(names.last()));
    } else if ms.len() == 1 {
        assert(ms[0] == ChainMemberView::Field(names[0]));
    }
}

/// Parsing the tokens of a chain of fields `a.b.c` gives its fields, and printing them gives
/// the names joined by dots.
pub proof fn law_field_chain_roundtrip(tokens: Seq<Tok>)
    requires
        is_field_chain(tokens),
    ensures
        spec_parse_dot_chain(tokens) == ParseOutcome::Parsed(field_members(tokens)),
        crate::dot_chain::chain_text(field_members(tokens)) == crate::rewrite::join(
            field_names(tokens),
            seq!['.'],
        ),
{
    let t = tokens.push(Tok::EOF);
    assert(t.drop_last() =~= tokens);
    assert(tokens[0] is Ident);
    assert(t[0] == tokens[0]);
    assert(field_members(tokens).take(1) =~= seq![ChainMemberView::Field(t[0]->Ident_0@)]);
    lemma_field_chain_loop(t, 0);
    lemma_chain_text_fields(field_members(tokens), field_names(tokens));
}

/// A non-empty text without line feeds is one line of itself.
proof fn lemma_one_line(h: Seq<char>)
    requires
        h.len() > 0,
        forall|i: int| 0 <= i < h.len() ==> h[i] != '\n',
    ensures
        text::std_lines(h) == seq![h],
{
    text::lemma_first_newline_bounds(h, 0);
    assert(h.subrange(0, h.len() as int) =~= h);
}

/// A text that starts with a character that is not whitespace has no leading whitespace.
proof fn lemma_trim_start_keeps(h: Seq<char>)
    requires
        h.len() > 0,
        !text::char_is_whitespace(h[0]),
    ensures
        text::trim_start(h) == h,
{
}

/// A `#` line of a code block, without line breaks, that is hidden behind the comment prefix
/// comes back unchanged when the prefix is taken off again; any other line without line
/// breaks and not already hidden passes through both unchanged.
pub proof fn law_hide_sharp_round_trip(s: Seq<char>)
    requires
        forall|i: int| 0 <= i < s.len() ==> s[i] != '\n' && s[i] != '\r',
        !text::has_prefix(text::trim_start(s), custom_comment_prefix()),
    ensures
        spec_trim_custom_comment_prefix(spec_hide_sharp(s)) == s,
{
    let p = custom_comment_prefix();
    let h = spec_hide_sharp(s);
    if h == p + s {
        assert forall|i: int| 0 <= i < h.len() implies h[i] != '\n' by {
            if i >= 7 {
                assert(h[i] == s[i - 7]);
            }
        }
        lemma_one_line(h);
        lemma_trim_start_keeps(h);
        assert(h.subrange(0, 7) =~= p);
        assert(h.skip(7) =~= s);
        assert(text::has_prefix(h, p));
        assert(trim_start_prefix(h) == trim_start_prefix(s));
        // `s` does not start with the prefix: its trimmed text starts with `#`
        let t = crate::comment_rewrite::trim_both(s);
        assert(t.len() > 0 && t[0] == '#');
        if text::has_prefix(s, p) {
            assert(s[0] == p[0]);
            text::lemma_trim_end_prefix(s);
            let e = text::trim_end(s);
            assert(e.len() > 0) by {
                if e.len() == 0 {
                    assert(text::trim_start(e) =~= e);
                }
            }
            assert(e[0] == s[0]);
            lemma_trim_start_keeps(e);
            assert(false);
        }
        assert(unhide_line(h) == s);
        assert(seq![h].len() == 1);
        assert(crate::comment_rewrite::unhide_lines(seq![h]) =~= seq![s]);
    } else {
        assert(h == s);
        if s.len() == 0 {
            assert(text::std_lines(s) =~= Seq::<Seq<char>>::empty());
            assert(crate::comment_rewrite::unhide_lines(Seq::<Seq<char>>::empty()) =~= Seq::<Seq<char>>::empty());
        } else {
            lemma_one_line(s);
            assert(unhide_line(s) == s);
            assert(crate::comment_rewrite::unhide_lines(seq![s]) =~= seq![s]);
        }
    }
}

} // verus!
