use vstd::prelude::*;

use crate::text;
use crate::text::{chars_of, is_whitespace, starts_with_at};
use regex::Regex;
use unicode_properties::{GeneralCategory, UnicodeGeneralCategory};
use unicode_segmentation::UnicodeSegmentation;
use unicode_width::UnicodeWidthStr;

verus! {

/// The grapheme clusters of a text (legacy clusters), in order.
pub uninterp spec fn grapheme_clusters(s: Seq<char>) -> Seq<Seq<char>>;

/// The display width of a text in columns.
pub uninterp spec fn str_width(s: Seq<char>) -> nat;

/// Whether a character is in the Unicode general category "Other Punctuation" (Po).
pub uninterp spec fn is_other_punctuation(c: char) -> bool;

/// A text with every backslash that ends a line (and is not itself escaped) removed, together
/// with the line break and the whitespace that follow it.
pub uninterp spec fn strip_line_continuations(s: Seq<char>) -> Seq<char>;

/// The concatenation of pieces of text.
pub open spec fn concat(gs: Seq<Seq<char>>) -> Seq<char>
    decreases gs.len(),
{
    if gs.len() == 0 {
        Seq::empty()
    } else {
        concat(gs.drop_last()) + gs.last()
    }
}

pub open spec fn strings_view(v: Seq<String>) -> Seq<Seq<char>> {
    Seq::new(v.len(), |i: int| v[i]@)
}

/// `UnicodeSegmentation::graphemes(s, false)`: the legacy grapheme clusters of `s`, which are
/// non-empty and make up `s` in order.
#[verifier::external_body]
pub(crate) fn graphemes(s: &str) -> (r: Vec<String>)
    ensures
        strings_view(r@) == grapheme_clusters(s@),
        concat(strings_view(r@)) == s@,
        forall|i: int| 0 <= i < r@.len() ==> #[trigger] r@[i]@.len() > 0,
{
    UnicodeSegmentation::graphemes(s, false).map(|g| g.to_string()).collect()
}

/// `UnicodeWidthStr::width`: the display width of `s`. A text made only of characters up to
/// U+00A0 other than line feeds and carriage returns is one column per character.
#[verifier::external_body]
pub(crate) fn unicode_str_width(s: &str) -> (r: usize)
    ensures
        r == str_width(s@),
        (forall|i: int|
            0 <= i < s@.len() ==> (#[trigger] s@[i] as u32) <= 0xA0 && s@[i] != '\n' && s@[i]
                != '\r') ==> r == s@.len(),
{
    s.width()
}

/// `UnicodeGeneralCategory::general_category(c) == GeneralCategory::OtherPunctuation`.
#[verifier::external_body]
pub(crate) fn char_is_other_punctuation(c: char) -> (b: bool)
    ensures
        b == is_other_punctuation(c),
{
    c.general_category() == GeneralCategory::OtherPunctuation
}

/// Replaces every match of `([^\\](\\\\)*)\\[\n\r][[:space:]]*` in `s` by its first group: a
/// line-ending backslash that is not escaped is removed with the line break and the
/// whitespace after it. A text without backslash is returned unchanged.
#[verifier::external_body]
pub(crate) fn strip_line_breaks(s: &str) -> (r: String)
    ensures
        r@ == strip_line_continuations(s@),
        (forall|i: int| 0 <= i < s@.len() ==> #[trigger] s@[i] != '\\') ==> r@ == s@,
{
    let re = Regex::new(r"([^\\](\\\\)*)\\[\n\r][[:space:]]*").unwrap();
    re.replace_all(s, "$1").to_string()
}

/// Whether a grapheme starts a new line.
pub open spec fn spec_is_new_line(g: Seq<char>) -> bool {
    text::has_prefix(g, seq!['\n']) || text::has_prefix(g, seq!['\r', '\n'])
}

/// Whether a grapheme is made of whitespace only.
pub open spec fn spec_is_whitespace(g: Seq<char>) -> bool {
    forall|i: int| 0 <= i < g.len() ==> text::char_is_whitespace(#[trigger] g[i])
}

/// Whether a grapheme is made of "Other Punctuation" characters only.
pub open spec fn spec_is_punctuation(g: Seq<char>) -> bool {
    forall|i: int| 0 <= i < g.len() ==> is_other_punctuation(#[trigger] g[i])
}

pub open spec fn spec_not_whitespace_except_line_feed(g: Seq<char>) -> bool {
    spec_is_new_line(g) || !spec_is_whitespace(g)
}

fn is_new_line(grapheme: &str) -> (b: bool)
    ensures
        b == spec_is_new_line(grapheme@),
{
    let v = chars_of(grapheme);
    proof {
        reveal_strlit("\n");
        reveal_strlit("\r\n");
    }
    let a = starts_with_at(&v, 0, "\n");
    let b = starts_with_at(&v, 0, "\r\n");
    proof {
        assert("\n"@ =~= seq!['\n']);
        assert("\r\n"@ =~= seq!['\r', '\n']);
    }
    a || b
}

fn chars_all_whitespace(v: &Vec<char>) -> (b: bool)
    ensures
        b == spec_is_whitespace(v@),
{
    let mut i: usize = 0;
    while i < v.len()
        invariant
            i <= v@.len(),
            forall|j: int| 0 <= j < i ==> text::char_is_whitespace(#[trigger] v@[j]),
        decreases v.len() - i,
    {
        if !is_whitespace(v[i]) {
            return false;
        }
        i = i + 1;
    }
    true
}

fn is_whitespace_str(grapheme: &str) -> (b: bool)
    ensures
        b == spec_is_whitespace(grapheme@),
{
    let v = chars_of(grapheme);
    chars_all_whitespace(&v)
}

fn is_punctuation(grapheme: &str) -> (b: bool)
    ensures
        b == spec_is_punctuation(grapheme@),
{
    let v = chars_of(grapheme);
    let mut i: usize = 0;
    while i < v.len()
        invariant
            v@ == grapheme@,
            i <= v@.len(),
            forall|j: int| 0 <= j < i ==> is_other_punctuation(#[trigger] v@[j]),
        decreases v.len() - i,
    {
        if !char_is_other_punctuation(v[i]) {
            return false;
        }
        i = i + 1;
    }
    true
}

fn not_whitespace_except_line_feed(g: &str) -> (b: bool)
    ensures
        b == spec_not_whitespace_except_line_feed(g@),
{
    is_new_line(g) || !is_whitespace_str(g)
}

/// `a + b`, or `usize::MAX` when that overflows.
pub open spec fn sat_add(a: nat, b: nat) -> nat {
    if a + b > usize::MAX {
        usize::MAX as nat
    } else {
        a + b
    }
}

/// The total display width of graphemes (the sum saturates at `usize::MAX`).
pub open spec fn spec_graphemes_width(gs: Seq<Seq<char>>) -> nat
    decreases gs.len(),
{
    if gs.len() == 0 {
        0
    } else {
        sat_add(spec_graphemes_width(gs.drop_last()), str_width(gs.last()))
    }
}

fn graphemes_width(gs: &Vec<String>, from: usize) -> (w: usize)
    requires
        from <= gs@.len(),
    ensures
        w == spec_graphemes_width(strings_view(gs@).skip(from as int)),
{
    let ghost v = strings_view(gs@).skip(from as int);
    let mut w: usize = 0;
    let mut i = from;
    proof {
        assert(v.take(0) =~= Seq::<Seq<char>>::empty());
    }
    while i < gs.len()
        invariant
            from <= i <= gs@.len(),
            v == strings_view(gs@).skip(from as int),
            w == spec_graphemes_width(v.take(i - from)),
            w <= usize::MAX,
        decreases gs.len() - i,
    {
        let x = unicode_str_width(gs[i].as_str());
        proof {
            assert(v.take(i + 1 - from).drop_last() =~= v.take(i - from));
        }
        w = w.saturating_add(x);
        i = i + 1;
    }
    proof {
        assert(v.take(gs@.len() - from) =~= v);
    }
    w
}

} // verus!

verus! {

pub proof fn lemma_concat_push(gs: Seq<Seq<char>>, g: Seq<char>)
    ensures
        concat(gs.push(g)) == concat(gs) + g,
{
    assert(gs.push(g).drop_last() =~= gs);
}

/// `gs[from + a .. from + b]` concatenated.
fn concat_range(gs: &Vec<String>, a: usize, b: usize) -> (r: String)
    requires
        a <= b <= gs@.len(),
    ensures
        r@ == concat(strings_view(gs@).subrange(a as int, b as int)),
{
    let mut r = String::new();
    let mut i = a;
    proof {
        assert(strings_view(gs@).subrange(a as int, a as int) =~= Seq::<Seq<char>>::empty());
    }
    while i < b
        invariant
            a <= i <= b <= gs@.len(),
            r@ == concat(strings_view(gs@).subrange(a as int, i as int)),
        decreases b - i,
    {
        proof {
            let v = strings_view(gs@);
            assert(v.subrange(a as int, i + 1) =~= v.subrange(a as int, i as int).push(v[i as int]));
            lemma_concat_push(v.subrange(a as int, i as int), v[i as int]);
        }
        r.append(gs[i].as_str());
        i = i + 1;
    }
    r
}

/// Whether the graphemes `gs[pos]` and `gs[pos + 1]` (or `gs[pos - 1]` and `gs[pos]`) are both
/// `:`, i.e. `gs[pos]` is part of a `::` path separator.
pub open spec fn spec_is_part_of_type(gs: Seq<Seq<char>>, pos: int) -> bool {
    (pos + 1 < gs.len() && gs[pos] == seq![':'] && gs[pos + 1] == seq![':']) || (pos >= 1
        && gs[pos - 1] == seq![':'] && gs[pos] == seq![':'])
}

pub open spec fn spec_is_valid_linebreak(gs: Seq<Seq<char>>, pos: int) -> bool {
    spec_is_whitespace(gs[pos]) || (spec_is_punctuation(gs[pos]) && !spec_is_part_of_type(gs, pos))
}

fn is_colon(g: &String) -> (b: bool)
    ensures
        b == (g@ == seq![':']),
{
    let v = chars_of(g.as_str());
    let r = v.len() == 1 && v[0] == ':';
    proof {
        if v@.len() == 1 && v@[0] == ':' {
            assert(v@ =~= seq![':']);
        }
    }
    r
}

/// Whether `input[from + pos]` is part of a `::` in `input[from..]`.
fn is_part_of_type(input: &Vec<String>, from: usize, pos: usize) -> (b: bool)
    requires
        from + pos < input@.len(),
    ensures
        b == spec_is_part_of_type(strings_view(input@).skip(from as int), pos as int),
{
    let n = input.len();
    let a = pos + 1 < n - from && is_colon(&input[from + pos]) && is_colon(&input[from + pos + 1]);
    let b = pos >= 1 && is_colon(&input[from + pos - 1]) && is_colon(&input[from + pos]);
    a || b
}

fn is_valid_linebreak(input: &Vec<String>, from: usize, pos: usize) -> (b: bool)
    requires
        from + pos < input@.len(),
    ensures
        b == spec_is_valid_linebreak(strings_view(input@).skip(from as int), pos as int),
{
    let _n = input.len();
    if is_whitespace_str(input[from + pos].as_str()) {
        return true;
    }
    if is_punctuation(input[from + pos].as_str()) && !is_part_of_type(input, from, pos) {
        return true;
    }
    false
}

/// The last position `j <= i` at which `gs[j]` is whitespace.
pub open spec fn rpos_whitespace(gs: Seq<Seq<char>>, i: int) -> Option<int>
    decreases i + 1,
{
    if i < 0 {
        None
    } else if spec_is_whitespace(gs[i]) {
        Some(i)
    } else {
        rpos_whitespace(gs, i - 1)
    }
}

/// The last position `j <= i` at which `gs[j]` is not whitespace (a line feed counts as not
/// whitespace).
pub open spec fn rpos_not_whitespace(gs: Seq<Seq<char>>, i: int) -> Option<int>
    decreases i + 1,
{
    if i < 0 {
        None
    } else if spec_not_whitespace_except_line_feed(gs[i]) {
        Some(i)
    } else {
        rpos_not_whitespace(gs, i - 1)
    }
}

/// The first position `j >= i` (and `< gs.len()`) at which `gs[j]` is whitespace.
pub open spec fn pos_whitespace(gs: Seq<Seq<char>>, i: int) -> Option<int>
    decreases gs.len() - i,
{
    if i >= gs.len() || i < 0 {
        None
    } else if spec_is_whitespace(gs[i]) {
        Some(i)
    } else {
        pos_whitespace(gs, i + 1)
    }
}

/// The first position `j >= i` (and `< gs.len()`) at which `gs[j]` is not whitespace.
pub open spec fn pos_not_whitespace(gs: Seq<Seq<char>>, i: int) -> Option<int>
    decreases gs.len() - i,
{
    if i >= gs.len() || i < 0 {
        None
    } else if spec_not_whitespace_except_line_feed(gs[i]) {
        Some(i)
    } else {
        pos_not_whitespace(gs, i + 1)
    }
}

/// The first position `j >= i` (and `<= last`) at which `gs[j]` starts a new line.
pub open spec fn pos_new_line(gs: Seq<Seq<char>>, i: int, last: int) -> Option<int>
    decreases last + 1 - i,
{
    if i > last || i < 0 || i >= gs.len() {
        None
    } else if spec_is_new_line(gs[i]) {
        Some(i)
    } else {
        pos_new_line(gs, i + 1, last)
    }
}

/// Whether `s` contains `p`.
pub open spec fn contains_seq(s: Seq<char>, p: Seq<char>) -> bool {
    exists|k: int| text::has_prefix_at(s, k, p)
}

/// Whether `s` contains something that looks like the start of a URL.
pub open spec fn spec_has_url_scheme(s: Seq<char>) -> bool {
    contains_seq(s, "https://"@) || contains_seq(s, "http://"@) || contains_seq(s, "ftp://"@)
        || contains_seq(s, "file://"@)
}

/// Whether `v` contains the characters of `p`.
pub fn contains_str(v: &Vec<char>, p: &str) -> (b: bool)
    ensures
        b == contains_seq(v@, p@),
{
    let mut k: usize = 0;
    while k < v.len()
        invariant
            k <= v@.len(),
            forall|j: int| 0 <= j < k ==> !text::has_prefix_at(v@, j, p@),
        decreases v.len() - k,
    {
        if starts_with_at(v, k, p) {
            return true;
        }
        k = k + 1;
    }
    if starts_with_at(v, v.len(), p) {
        return true;
    }
    proof {
        assert forall|j: int| !text::has_prefix_at(v@, j, p@) by {
            if 0 <= j && j < k {
            }
        }
    }
    false
}

} // verus!

verus! {

/// Result of breaking a string so it fits in a line and the state it ended in.
/// The state informs about what to do with the snippet and how to continue the breaking process.
#[derive(Debug, PartialEq)]
pub enum SnippetState {
    /// The input could not be broken and so rewriting the string is finished.
    EndOfInput(String),
    /// The input could be broken and the returned snippet should be ended with a
    /// `line_end`. The next snippet needs to be indented; the number is how many graphemes
    /// were read.
    LineEnd(String, usize),
    /// The input could be broken but a newline is present that cannot be trimmed; the number is
    /// how many graphemes were read.
    EndWithLineFeed(String, usize),
}

/// The value of a `SnippetState`.
pub enum SnippetView {
    EndOfInput(Seq<char>),
    LineEnd(Seq<char>, nat),
    EndWithLineFeed(Seq<char>, nat),
}

pub open spec fn snippet_view(s: SnippetState) -> SnippetView {
    match s {
        SnippetState::EndOfInput(l) => SnippetView::EndOfInput(l@),
        SnippetState::LineEnd(l, n) => SnippetView::LineEnd(l@, n as nat),
        SnippetState::EndWithLineFeed(l, n) => SnippetView::EndWithLineFeed(l@, n as nat),
    }
}

/// The index to the end of the URL when the word that holds `gs[index]` (from after the last
/// whitespace at or before `index` to before the first whitespace at or after it) includes a URL
/// or alike.
pub open spec fn spec_detect_url(gs: Seq<Seq<char>>, index: int) -> Option<int> {
    let start = match rpos_whitespace(gs, index) {
        Some(p) => p + 1,
        None => 0,
    };
    let end = match pos_whitespace(gs, index) {
        Some(p) => p,
        None => gs.len() as int,
    };
    if gs.len() < start + 8 || end <= start {
        None
    } else if spec_has_url_scheme(concat(gs.subrange(start, end))) {
        Some(end - 1)
    } else {
        None
    }
}

pub proof fn lemma_rpos_whitespace_bounds(gs: Seq<Seq<char>>, i: int)
    ensures
        rpos_whitespace(gs, i) matches Some(p) ==> 0 <= p <= i && spec_is_whitespace(gs[p]),
        rpos_whitespace(gs, i) is None ==> forall|j: int| 0 <= j <= i ==> !spec_is_whitespace(#[trigger] gs[j]),
    decreases i + 1,
{
    if i >= 0 && !spec_is_whitespace(gs[i]) {
        lemma_rpos_whitespace_bounds(gs, i - 1);
    }
}

pub proof fn lemma_rpos_not_whitespace_bounds(gs: Seq<Seq<char>>, i: int)
    ensures
        rpos_not_whitespace(gs, i) matches Some(p) ==> 0 <= p <= i,
    decreases i + 1,
{
    if i >= 0 && !spec_not_whitespace_except_line_feed(gs[i]) {
        lemma_rpos_not_whitespace_bounds(gs, i - 1);
    }
}

pub proof fn lemma_pos_whitespace_bounds(gs: Seq<Seq<char>>, i: int)
    requires
        0 <= i,
    ensures
        pos_whitespace(gs, i) matches Some(p) ==> i <= p < gs.len(),
    decreases gs.len() - i,
{
    if i < gs.len() && !spec_is_whitespace(gs[i]) {
        lemma_pos_whitespace_bounds(gs, i + 1);
    }
}

pub proof fn lemma_pos_not_whitespace_bounds(gs: Seq<Seq<char>>, i: int)
    requires
        0 <= i,
    ensures
        pos_not_whitespace(gs, i) matches Some(p) ==> i <= p < gs.len()
            && spec_not_whitespace_except_line_feed(gs[p]),
    decreases gs.len() - i,
{
    if i < gs.len() && !spec_not_whitespace_except_line_feed(gs[i]) {
        lemma_pos_not_whitespace_bounds(gs, i + 1);
    }
}

pub proof fn lemma_pos_new_line_bounds(gs: Seq<Seq<char>>, i: int, last: int)
    requires
        0 <= i,
    ensures
        pos_new_line(gs, i, last) matches Some(p) ==> i <= p <= last && p < gs.len(),
    decreases last + 1 - i,
{
    if i <= last && i < gs.len() && !spec_is_new_line(gs[i]) {
        lemma_pos_new_line_bounds(gs, i + 1, last);
    }
}

/// `rpos_whitespace` over `input[from..]`, with positions relative to `from`.
fn rpos_whitespace_exec(input: &Vec<String>, from: usize, i: usize) -> (r: Option<usize>)
    requires
        from + i < input@.len(),
    ensures
        r matches Some(p) ==> rpos_whitespace(strings_view(input@).skip(from as int), i as int) == Some(p as int),
        r is None ==> rpos_whitespace(strings_view(input@).skip(from as int), i as int) is None,
{
    let ghost gs = strings_view(input@).skip(from as int);
    let _len = input.len();
    let mut j = i + 1;
    while j > 0
        invariant
            input@.len() <= usize::MAX,
            j <= i + 1,
            from + i < input@.len(),
            gs == strings_view(input@).skip(from as int),
            rpos_whitespace(gs, j - 1) == rpos_whitespace(gs, i as int),
        decreases j,
    {
        if is_whitespace_str(input[from + j - 1].as_str()) {
            return Some(j - 1);
        }
        j = j - 1;
    }
    None
}

/// `rpos_not_whitespace` over `input[from..]`, with positions relative to `from`.
fn rpos_not_whitespace_exec(input: &Vec<String>, from: usize, i: usize) -> (r: Option<usize>)
    requires
        from + i < input@.len(),
    ensures
        r matches Some(p) ==> rpos_not_whitespace(strings_view(input@).skip(from as int), i as int) == Some(p as int),
        r is None ==> rpos_not_whitespace(strings_view(input@).skip(from as int), i as int) is None,
{
    let ghost gs = strings_view(input@).skip(from as int);
    let _len = input.len();
    let mut j = i + 1;
    while j > 0
        invariant
            input@.len() <= usize::MAX,
            j <= i + 1,
            from + i < input@.len(),
            gs == strings_view(input@).skip(from as int),
            rpos_not_whitespace(gs, j - 1) == rpos_not_whitespace(gs, i as int),
        decreases j,
    {
        if not_whitespace_except_line_feed(input[from + j - 1].as_str()) {
            return Some(j - 1);
        }
        j = j - 1;
    }
    None
}

/// `pos_whitespace` over `input[from..]`, with positions relative to `from`.
fn pos_whitespace_exec(input: &Vec<String>, from: usize, i: usize) -> (r: Option<usize>)
    requires
        from <= input@.len(),
    ensures
        r matches Some(p) ==> pos_whitespace(strings_view(input@).skip(from as int), i as int) == Some(p as int),
        r is None ==> pos_whitespace(strings_view(input@).skip(from as int), i as int) is None,
{
    let ghost gs = strings_view(input@).skip(from as int);
    let n = input.len() - from;
    let mut j = i;
    while j < n
        invariant
            input@.len() <= usize::MAX,
            i <= j,
            n == gs.len(),
            from + n == input@.len(),
            gs == strings_view(input@).skip(from as int),
            pos_whitespace(gs, j as int) == pos_whitespace(gs, i as int),
        decreases n - j,
    {
        if is_whitespace_str(input[from + j].as_str()) {
            return Some(j);
        }
        j = j + 1;
    }
    None
}

/// `pos_not_whitespace` over `input[from..]`, with positions relative to `from`.
fn pos_not_whitespace_exec(input: &Vec<String>, from: usize, i: usize) -> (r: Option<usize>)
    requires
        from <= input@.len(),
    ensures
        r matches Some(p) ==> pos_not_whitespace(strings_view(input@).skip(from as int), i as int) == Some(p as int),
        r is None ==> pos_not_whitespace(strings_view(input@).skip(from as int), i as int) is None,
{
    let ghost gs = strings_view(input@).skip(from as int);
    let n = input.len() - from;
    let mut j = i;
    while j < n
        invariant
            input@.len() <= usize::MAX,
            i <= j,
            n == gs.len(),
            from + n == input@.len(),
            gs == strings_view(input@).skip(from as int),
            pos_not_whitespace(gs, j as int) == pos_not_whitespace(gs, i as int),
        decreases n - j,
    {
        if not_whitespace_except_line_feed(input[from + j].as_str()) {
            return Some(j);
        }
        j = j + 1;
    }
    None
}

/// Returns the index to the end of the URL if the split at index of the given string includes a
/// URL or alike. Otherwise, returns `None`.
pub fn detect_url(input: &Vec<String>, from: usize, index: usize) -> (r: Option<usize>)
    requires
        from + index < input@.len(),
    ensures
        r matches Some(p) ==> spec_detect_url(strings_view(input@).skip(from as int), index as int) == Some(p as int),
        r is None ==> spec_detect_url(strings_view(input@).skip(from as int), index as int) is None,
{
    let ghost gs = strings_view(input@).skip(from as int);
    let n = input.len() - from;
    proof {
        lemma_rpos_whitespace_bounds(gs, index as int);
        lemma_pos_whitespace_bounds(gs, index as int);
    }
    let start = match rpos_whitespace_exec(input, from, index) {
        Some(pos) => pos + 1,
        None => 0,
    };
    let end = match pos_whitespace_exec(input, from, index) {
        Some(pos) => pos,
        None => n,
    };
    if n < start || n - start < 8 || end <= start {
        return None;
    }
    let split_s = concat_range(input, from + start, from + end);
    proof {
        assert(strings_view(input@).subrange(from + start, from + end) =~= gs.subrange(
            start as int,
            end as int,
        ));
    }
    let split = chars_of(split_s.as_str());
    if contains_str(&split, "https://") || contains_str(&split, "http://") || contains_str(
        &split,
        "ftp://",
    ) || contains_str(&split, "file://") {
        Some(end - 1)
    } else {
        None
    }
}

} // verus!

verus! {

/// The snippet cut after `gs[index]` (which is included).
pub open spec fn spec_break_at(gs: Seq<Seq<char>>, index: int, trim_end: bool) -> SnippetView {
    let imw = match rpos_not_whitespace(gs, index) {
        Some(j) => j,
        None => index,
    };
    let nl = pos_new_line(gs, 0, index);
    if nl is Some && nl->0 <= imw {
        let i = nl->0;
        let line = if trim_end {
            text::trim_end(concat(gs.take(i)))
        } else {
            concat(gs.take(i))
        };
        SnippetView::EndWithLineFeed(line.push('\n'), (i + 1) as nat)
    } else {
        let k = pos_not_whitespace(gs, index + 1);
        if k is Some && !trim_end && spec_is_new_line(gs[k->0]) {
            SnippetView::EndWithLineFeed(concat(gs.take(k->0 + 1)), (k->0 + 1) as nat)
        } else {
            let ipw = match k {
                Some(p) => p - 1,
                None => index,
            };
            if trim_end {
                SnippetView::LineEnd(concat(gs.take(imw + 1)), (ipw + 1) as nat)
            } else {
                SnippetView::LineEnd(concat(gs.take(ipw + 1)), (ipw + 1) as nat)
            }
        }
    }
}

/// Builds the snippet `concat(input[from + a .. from + b])`, trimmed at its end when asked.
fn concat_trimmed(input: &Vec<String>, from: usize, b: usize, trim: bool) -> (r: String)
    requires
        from + b <= input@.len(),
    ensures
        r@ == if trim {
            text::trim_end(concat(strings_view(input@).skip(from as int).take(b as int)))
        } else {
            concat(strings_view(input@).skip(from as int).take(b as int))
        },
{
    let _len = input.len();
    let s = concat_range(input, from, from + b);
    proof {
        assert(strings_view(input@).subrange(from as int, from + b) =~= strings_view(input@).skip(
            from as int,
        ).take(b as int));
    }
    if trim {
        let v = chars_of(s.as_str());
        let stop = crate::text::trim_end_stop(&v, 0, v.len());
        proof {
            assert(v@.subrange(0, v@.len() as int) =~= v@);
        }
        crate::text::string_of(&v, 0, stop)
    } else {
        s
    }
}

/// `pos_new_line(gs, 0, last)` over `input[from..]`, with positions relative to `from`.
fn pos_new_line_exec(input: &Vec<String>, from: usize, last: usize) -> (r: Option<usize>)
    requires
        from + last < input@.len(),
    ensures
        r matches Some(p) ==> pos_new_line(strings_view(input@).skip(from as int), 0, last as int) == Some(p as int),
        r is None ==> pos_new_line(strings_view(input@).skip(from as int), 0, last as int) is None,
{
    let ghost gs = strings_view(input@).skip(from as int);
    let _len = input.len();
    let mut i: usize = 0;
    while i <= last
        invariant
            input@.len() <= usize::MAX,
            from + last < input@.len(),
            gs == strings_view(input@).skip(from as int),
            i <= last + 1,
            pos_new_line(gs, i as int, last as int) == pos_new_line(gs, 0, last as int),
        decreases last + 1 - i,
    {
        if is_new_line(input[from + i].as_str()) {
            return Some(i);
        }
        i = i + 1;
    }
    None
}

/// Cuts `input[from..]` after the grapheme at relative position `index`.
fn break_at(input: &Vec<String>, from: usize, index: usize, trim_end: bool) -> (r: SnippetState)
    requires
        from + index < input@.len(),
    ensures
        snippet_view(r) == spec_break_at(strings_view(input@).skip(from as int), index as int, trim_end),
        match snippet_view(r) {
            SnippetView::EndOfInput(_) => false,
            SnippetView::LineEnd(_, n) => 1 <= n <= input@.len() - from,
            SnippetView::EndWithLineFeed(_, n) => 1 <= n <= input@.len() - from,
        },
{
    let ghost gs = strings_view(input@).skip(from as int);
    let _len = input.len();
    proof {
        lemma_rpos_not_whitespace_bounds(gs, index as int);
        lemma_pos_new_line_bounds(gs, 0, index as int);
        lemma_pos_not_whitespace_bounds(gs, index + 1);
    }
    let imw = match rpos_not_whitespace_exec(input, from, index) {
        Some(j) => j,
        None => index,
    };
    let nl = pos_new_line_exec(input, from, index);
    match nl {
        Some(i) => {
            if i <= imw {
                let line = concat_trimmed(input, from, i, trim_end);
                let mut l = line;
                crate::text::string_push(&mut l, '\n');
                return SnippetState::EndWithLineFeed(l, i + 1);
            }
        },
        None => {},
    }
    let k = pos_not_whitespace_exec(input, from, index + 1);
    match k {
        Some(kk) => {
            if !trim_end && is_new_line(input[from + kk].as_str()) {
                let line = concat_trimmed(input, from, kk + 1, false);
                return SnippetState::EndWithLineFeed(line, kk + 1);
            }
        },
        None => {},
    }
    let ipw = match k {
        Some(p) => p - 1,
        None => index,
    };
    if trim_end {
        SnippetState::LineEnd(concat_trimmed(input, from, imw + 1, false), ipw + 1)
    } else {
        SnippetState::LineEnd(concat_trimmed(input, from, ipw + 1, false), ipw + 1)
    }
}

} // verus!

verus! {

/// The first position at which the running width of the graphemes exceeds `max_width`
/// (the last position when it never does; 0 for no graphemes).
pub open spec fn mwi_scan(gs: Seq<Seq<char>>, max_width: nat, i: nat, cur: nat) -> nat
    decreases gs.len() - i,
{
    if i >= gs.len() {
        if gs.len() == 0 {
            0
        } else {
            (gs.len() - 1) as nat
        }
    } else {
        let c2 = sat_add(cur, str_width(gs[i as int]));
        if c2 > max_width {
            i
        } else {
            mwi_scan(gs, max_width, i + 1, c2)
        }
    }
}

pub open spec fn spec_max_width_index(gs: Seq<Seq<char>>, max_width: nat) -> nat {
    mwi_scan(gs, max_width, 0, 0)
}

pub proof fn lemma_mwi_scan_bounds(gs: Seq<Seq<char>>, max_width: nat, i: nat, cur: nat)
    ensures
        gs.len() > 0 ==> mwi_scan(gs, max_width, i, cur) < gs.len(),
    decreases gs.len() - i,
{
    if i < gs.len() {
        let c2 = sat_add(cur, str_width(gs[i as int]));
        if c2 <= max_width {
            lemma_mwi_scan_bounds(gs, max_width, i + 1, c2);
        }
    }
}

/// The last position `j <= i` that is a valid line break.
pub open spec fn rpos_valid_linebreak(gs: Seq<Seq<char>>, i: int) -> Option<int>
    decreases i + 1,
{
    if i < 0 {
        None
    } else if spec_is_valid_linebreak(gs, i) {
        Some(i)
    } else {
        rpos_valid_linebreak(gs, i - 1)
    }
}

/// The first position `j >= i` that is a valid line break.
pub open spec fn pos_valid_linebreak(gs: Seq<Seq<char>>, i: int) -> Option<int>
    decreases gs.len() - i,
{
    if i >= gs.len() || i < 0 {
        None
    } else if spec_is_valid_linebreak(gs, i) {
        Some(i)
    } else {
        pos_valid_linebreak(gs, i + 1)
    }
}

pub proof fn lemma_pos_valid_linebreak_bounds(gs: Seq<Seq<char>>, i: int)
    requires
        0 <= i,
    ensures
        pos_valid_linebreak(gs, i) matches Some(p) ==> i <= p < gs.len(),
    decreases gs.len() - i,
{
    if i < gs.len() && !spec_is_valid_linebreak(gs, i) {
        lemma_pos_valid_linebreak_bounds(gs, i + 1);
    }
}

pub proof fn lemma_rpos_valid_linebreak_bounds(gs: Seq<Seq<char>>, i: int)
    ensures
        rpos_valid_linebreak(gs, i) matches Some(p) ==> 0 <= p <= i,
    decreases i + 1,
{
    if i >= 0 && !spec_is_valid_linebreak(gs, i) {
        lemma_rpos_valid_linebreak_bounds(gs, i - 1);
    }
}

/// Minimum number of graphemes kept on a line before a break.
pub const MIN_STRING: usize = 10;

/// What `break_string` returns on the graphemes `gs`.
pub open spec fn spec_break_string(max_width: nat, trim_end: bool, line_end_empty: bool, gs: Seq<Seq<char>>) -> SnippetView {
    let m = spec_max_width_index(gs, max_width) as int;
    if m == 0 {
        SnippetView::EndOfInput(concat(gs))
    } else if line_end_empty && trim_end && !spec_is_whitespace(gs[m - 1]) && spec_is_whitespace(gs[m]) {
        spec_break_at(gs, m - 1, trim_end)
    } else if spec_detect_url(gs, m) is Some {
        let u = spec_detect_url(gs, m)->0;
        let ipw = match pos_not_whitespace(gs, u + 1) {
            Some(p) => p - 1,
            None => u,
        };
        if trim_end {
            SnippetView::LineEnd(concat(gs.take(u + 1)), (ipw + 1) as nat)
        } else {
            SnippetView::LineEnd(concat(gs.take(ipw + 1)), (ipw + 1) as nat)
        }
    } else {
        let w = rpos_whitespace(gs, m - 1);
        if w is Some && w->0 >= MIN_STRING {
            spec_break_at(gs, w->0, trim_end)
        } else {
            let p = rpos_valid_linebreak(gs, m - 1);
            if p is Some && p->0 >= MIN_STRING {
                spec_break_at(gs, p->0, trim_end)
            } else {
                match pos_valid_linebreak(gs, m) {
                    Some(q) => spec_break_at(gs, q, trim_end),
                    None => SnippetView::EndOfInput(concat(gs)),
                }
            }
        }
    }
}

/// What a snippet cut without trimming holds: `n` graphemes of `gs` consumed, put together; all
/// of `gs` when the input could not be broken.
pub open spec fn snippet_keeps_text(v: SnippetView, gs: Seq<Seq<char>>) -> bool {
    match v {
        SnippetView::EndOfInput(l) => l == concat(gs),
        SnippetView::LineEnd(l, n) => 1 <= n <= gs.len() && l == concat(gs.take(n as int)),
        SnippetView::EndWithLineFeed(l, n) => 1 <= n <= gs.len() && l == concat(gs.take(n as int)),
    }
}

/// Whether every line break among the graphemes `gs` is a lone line feed.
pub open spec fn line_feeds_only(gs: Seq<Seq<char>>) -> bool {
    forall|i: int| 0 <= i < gs.len() && spec_is_new_line(#[trigger] gs[i]) ==> gs[i] == seq!['\n']
}

pub proof fn lemma_concat_take_step(gs: Seq<Seq<char>>, i: int)
    requires
        0 <= i < gs.len(),
    ensures
        concat(gs.take(i + 1)) == concat(gs.take(i)) + gs[i],
{
    assert(gs.take(i + 1).drop_last() =~= gs.take(i));
}

proof fn lemma_break_at_keeps_text(gs: Seq<Seq<char>>, index: int)
    requires
        0 <= index < gs.len(),
        line_feeds_only(gs),
    ensures
        snippet_keeps_text(spec_break_at(gs, index, false), gs),
{
    lemma_rpos_not_whitespace_bounds(gs, index);
    lemma_pos_new_line_bounds(gs, 0, index);
    lemma_pos_not_whitespace_bounds(gs, index + 1);
    let nl = pos_new_line(gs, 0, index);
    if nl is Some {
        let i = nl->0;
        lemma_pos_new_line_is_new_line(gs, 0, index);
        assert(gs[i] == seq!['\n']);
        lemma_concat_take_step(gs, i);
        assert(concat(gs.take(i)).push('\n') =~= concat(gs.take(i)) + seq!['\n']);
    }
}

proof fn lemma_pos_new_line_is_new_line(gs: Seq<Seq<char>>, i: int, last: int)
    requires
        0 <= i,
    ensures
        pos_new_line(gs, i, last) matches Some(p) ==> spec_is_new_line(gs[p]),
    decreases last + 1 - i,
{
    if i <= last && i < gs.len() && !spec_is_new_line(gs[i]) {
        lemma_pos_new_line_is_new_line(gs, i + 1, last);
    }
}

/// Breaking a string without trimming loses nothing: the snippet is the graphemes that it
/// consumed, put together, or the whole input when the input cannot be broken; so the snippets
/// of successive calls, each on what the one before left, put together give the input. This
/// holds where every line break in the input is a lone line feed (a `\r\n` break comes out as
/// `\n`).
pub proof fn law_break_string_keeps_text(max_width: nat, line_end_empty: bool, gs: Seq<Seq<char>>)
    requires
        line_feeds_only(gs),
    ensures
        snippet_keeps_text(spec_break_string(max_width, false, line_end_empty, gs), gs),
{
    let m = spec_max_width_index(gs, max_width) as int;
    lemma_mwi_scan_bounds(gs, max_width, 0, 0);
    if m == 0 {
    } else {
        assert(gs.len() > 0);
        if spec_detect_url(gs, m) is Some {
            lemma_pos_whitespace_bounds(gs, m);
            let u = spec_detect_url(gs, m)->0;
            lemma_pos_not_whitespace_bounds(gs, u + 1);
        } else {
            lemma_rpos_whitespace_bounds(gs, m - 1);
            lemma_rpos_valid_linebreak_bounds(gs, m - 1);
            lemma_pos_valid_linebreak_bounds(gs, m);
            let w = rpos_whitespace(gs, m - 1);
            let p = rpos_valid_linebreak(gs, m - 1);
            if w is Some && w->0 >= MIN_STRING {
                lemma_break_at_keeps_text(gs, w->0);
            } else if p is Some && p->0 >= MIN_STRING {
                lemma_break_at_keeps_text(gs, p->0);
            } else if pos_valid_linebreak(gs, m) is Some {
                lemma_break_at_keeps_text(gs, pos_valid_linebreak(gs, m)->0);
            }
        }
    }
}

proof fn lemma_rpos_whitespace_last(gs: Seq<Seq<char>>, i: int, w: int)
    requires
        0 <= w <= i < gs.len(),
        spec_is_whitespace(gs[w]),
        forall|j: int| w < j <= i ==> !spec_is_whitespace(#[trigger] gs[j]),
    ensures
        rpos_whitespace(gs, i) == Some(w),
    decreases i - w,
{
    if i > w {
        lemma_rpos_whitespace_last(gs, i - 1, w);
    }
}

/// Where the input does not fit in the width (the width is exceeded at grapheme `m > 0`), is
/// not already at a break, and holds no URL at `m`, and a whitespace grapheme stands at a
/// position `w >= MIN_STRING` before `m` with none after it before `m`, the snippet is cut after
/// that last whitespace `w` (as `spec_break_at` cuts after a position): never at a later
/// punctuation mark, nor after the width.
pub proof fn law_break_string_at_last_whitespace(
    max_width: nat,
    trim_end: bool,
    line_end_empty: bool,
    gs: Seq<Seq<char>>,
    w: int,
)
    requires
        spec_max_width_index(gs, max_width) > 0,
        !(line_end_empty && trim_end && !spec_is_whitespace(gs[spec_max_width_index(gs, max_width) - 1])
            && spec_is_whitespace(gs[spec_max_width_index(gs, max_width) as int])),
        spec_detect_url(gs, spec_max_width_index(gs, max_width) as int) is None,
        MIN_STRING <= w < spec_max_width_index(gs, max_width),
        spec_is_whitespace(gs[w]),
        forall|j: int| w < j < spec_max_width_index(gs, max_width) ==> !spec_is_whitespace(#[trigger] gs[j]),
    ensures
        spec_break_string(max_width, trim_end, line_end_empty, gs) == spec_break_at(gs, w, trim_end),
{
    let m = spec_max_width_index(gs, max_width) as int;
    lemma_mwi_scan_bounds(gs, max_width, 0, 0);
    lemma_rpos_whitespace_last(gs, m - 1, w);
}

proof fn lemma_rpos_valid_linebreak_last(gs: Seq<Seq<char>>, i: int, p: int)
    requires
        0 <= p <= i < gs.len(),
        spec_is_valid_linebreak(gs, p),
        forall|j: int| p < j <= i ==> !spec_is_valid_linebreak(gs, j),
    ensures
        rpos_valid_linebreak(gs, i) == Some(p),
    decreases i - p,
{
    if i > p {
        lemma_rpos_valid_linebreak_last(gs, i - 1, p);
    }
}

/// Where the input does not fit in the width (exceeded at grapheme `m > 0`), is not already at
/// a break, holds no URL at `m`, and has no whitespace between `MIN_STRING` and `m`, but has a
/// punctuation mark (one not inside a `::`) at a position `p >= MIN_STRING` before `m`, with
/// no such mark after it before `m`, the snippet is cut after that last punctuation mark `p`.
pub proof fn law_break_string_at_last_punctuation(
    max_width: nat,
    trim_end: bool,
    line_end_empty: bool,
    gs: Seq<Seq<char>>,
    p: int,
)
    requires
        spec_max_width_index(gs, max_width) > 0,
        !(line_end_empty && trim_end && !spec_is_whitespace(gs[spec_max_width_index(gs, max_width) - 1])
            && spec_is_whitespace(gs[spec_max_width_index(gs, max_width) as int])),
        spec_detect_url(gs, spec_max_width_index(gs, max_width) as int) is None,
        forall|j: int|
            MIN_STRING <= j < spec_max_width_index(gs, max_width) ==> !spec_is_whitespace(#[trigger] gs[j]),
        MIN_STRING <= p < spec_max_width_index(gs, max_width),
        spec_is_valid_linebreak(gs, p),
        forall|j: int| p < j < spec_max_width_index(gs, max_width) ==> !spec_is_valid_linebreak(gs, j),
    ensures
        spec_break_string(max_width, trim_end, line_end_empty, gs) == spec_break_at(gs, p, trim_end),
{
    let m = spec_max_width_index(gs, max_width) as int;
    lemma_mwi_scan_bounds(gs, max_width, 0, 0);
    lemma_rpos_whitespace_bounds(gs, m - 1);
    lemma_rpos_valid_linebreak_last(gs, m - 1, p);
}

/// The first position at which the running width of `input[from..]` exceeds `max_width`.
fn max_width_index(input: &Vec<String>, from: usize, max_width: usize) -> (m: usize)
    requires
        from <= input@.len(),
    ensures
        m == spec_max_width_index(strings_view(input@).skip(from as int), max_width as nat),
{
    let ghost gs = strings_view(input@).skip(from as int);
    let n = input.len() - from;
    let mut cur_width: usize = 0;
    let mut i: usize = 0;
    while i < n
        invariant
            input@.len() <= usize::MAX,
            n == gs.len(),
            from + n == input@.len(),
            gs == strings_view(input@).skip(from as int),
            i <= n,
            mwi_scan(gs, max_width as nat, i as nat, cur_width as nat) == spec_max_width_index(
                gs,
                max_width as nat,
            ),
        decreases n - i,
    {
        let w = unicode_str_width(input[from + i].as_str());
        let c2 = cur_width.saturating_add(w);
        if c2 > max_width {
            return i;
        }
        cur_width = c2;
        i = i + 1;
    }
    if n == 0 {
        0
    } else {
        n - 1
    }
}

/// `rpos_valid_linebreak` over `input[from..]`, with positions relative to `from`.
fn rpos_valid_linebreak_exec(input: &Vec<String>, from: usize, i: usize) -> (r: Option<usize>)
    requires
        from + i < input@.len(),
    ensures
        r matches Some(p) ==> rpos_valid_linebreak(strings_view(input@).skip(from as int), i as int) == Some(p as int),
        r is None ==> rpos_valid_linebreak(strings_view(input@).skip(from as int), i as int) is None,
{
    let ghost gs = strings_view(input@).skip(from as int);
    let _len = input.len();
    let mut j = i + 1;
    while j > 0
        invariant
            input@.len() <= usize::MAX,
            j <= i + 1,
            from + i < input@.len(),
            gs == strings_view(input@).skip(from as int),
            rpos_valid_linebreak(gs, j - 1) == rpos_valid_linebreak(gs, i as int),
        decreases j,
    {
        if is_valid_linebreak(input, from, j - 1) {
            return Some(j - 1);
        }
        j = j - 1;
    }
    None
}

/// `pos_valid_linebreak` over `input[from..]`, with positions relative to `from`.
fn pos_valid_linebreak_exec(input: &Vec<String>, from: usize, i: usize) -> (r: Option<usize>)
    requires
        from <= input@.len(),
    ensures
        r matches Some(p) ==> pos_valid_linebreak(strings_view(input@).skip(from as int), i as int) == Some(p as int),
        r is None ==> pos_valid_linebreak(strings_view(input@).skip(from as int), i as int) is None,
{
    let ghost gs = strings_view(input@).skip(from as int);
    let n = input.len() - from;
    let mut j = i;
    while j < n
        invariant
            input@.len() <= usize::MAX,
            i <= j,
            n == gs.len(),
            from + n == input@.len(),
            gs == strings_view(input@).skip(from as int),
            pos_valid_linebreak(gs, j as int) == pos_valid_linebreak(gs, i as int),
        decreases n - j,
    {
        if is_valid_linebreak(input, from, j) {
            return Some(j);
        }
        j = j + 1;
    }
    None
}

/// Break the input string at a boundary character around the offset `max_width`. A boundary
/// character is either a punctuation or a whitespace. The running width saturates at
/// `usize::MAX`.
pub fn break_string(max_width: usize, trim_end: bool, line_end: &str, input: &Vec<String>, from: usize) -> (r: SnippetState)
    requires
        from <= input@.len(),
    ensures
        snippet_view(r) == spec_break_string(
            max_width as nat,
            trim_end,
            line_end@.len() == 0,
            strings_view(input@).skip(from as int),
        ),
        match snippet_view(r) {
            SnippetView::EndOfInput(_) => true,
            SnippetView::LineEnd(_, n) => 1 <= n <= input@.len() - from,
            SnippetView::EndWithLineFeed(_, n) => 1 <= n <= input@.len() - from,
        },
{
    let ghost gs = strings_view(input@).skip(from as int);
    let n = input.len() - from;
    let m = max_width_index(input, from, max_width);
    proof {
        lemma_mwi_scan_bounds(gs, max_width as nat, 0, 0);
    }
    if m == 0 {
        let all = concat_range(input, from, input.len());
        proof {
            assert(strings_view(input@).subrange(from as int, input@.len() as int) =~= gs);
        }
        return SnippetState::EndOfInput(all);
    }
    let le = chars_of(line_end);
    if le.len() == 0 && trim_end && !is_whitespace_str(input[from + m - 1].as_str())
        && is_whitespace_str(input[from + m].as_str()) {
        return break_at(input, from, m - 1, trim_end);
    }
    proof {
        lemma_pos_whitespace_bounds(gs, m as int);
    }
    match detect_url(input, from, m) {
        Some(u) => {
            proof {
                lemma_pos_not_whitespace_bounds(gs, u + 1);
            }
            let k = pos_not_whitespace_exec(input, from, u + 1);
            let ipw = match k {
                Some(p) => p - 1,
                None => u,
            };
            if trim_end {
                return SnippetState::LineEnd(concat_trimmed(input, from, u + 1, false), ipw + 1);
            } else {
                return SnippetState::LineEnd(concat_trimmed(input, from, ipw + 1, false), ipw + 1);
            }
        },
        None => {},
    }
    proof {
        lemma_rpos_whitespace_bounds(gs, m - 1);
        lemma_rpos_valid_linebreak_bounds(gs, m - 1);
        lemma_pos_valid_linebreak_bounds(gs, m as int);
    }
    match rpos_whitespace_exec(input, from, m - 1) {
        Some(index) => {
            if index >= MIN_STRING {
                return break_at(input, from, index, trim_end);
            }
        },
        None => {},
    }
    match rpos_valid_linebreak_exec(input, from, m - 1) {
        Some(index) => {
            if index >= MIN_STRING {
                return break_at(input, from, index, trim_end);
            }
        },
        None => {},
    }
    match pos_valid_linebreak_exec(input, from, m) {
        Some(index) => break_at(input, from, index, trim_end),
        None => {
            let all = concat_range(input, from, input.len());
            proof {
                assert(strings_view(input@).subrange(from as int, input@.len() as int) =~= gs);
            }
            SnippetState::EndOfInput(all)
        },
    }
}

} // verus!

verus! {

/// `s` without its trailing whitespace other than line feeds.
pub open spec fn trim_end_keep_lf(s: Seq<char>) -> Seq<char>
    decreases s.len(),
{
    if s.len() > 0 && text::char_is_whitespace(s.last()) && s.last() != '\n' {
        trim_end_keep_lf(s.drop_last())
    } else {
        s
    }
}

pub open spec fn spec_trim_end_but_line_feed(trim_end: bool, s: Seq<char>) -> Seq<char> {
    if trim_end {
        trim_end_keep_lf(s)
    } else {
        s
    }
}

/// Trims whitespaces to the right except for the line feed character.
fn trim_end_but_line_feed(trim_end: bool, result: String) -> (r: String)
    ensures
        r@ == spec_trim_end_but_line_feed(trim_end, result@),
{
    if !trim_end {
        return result;
    }
    let v = chars_of(result.as_str());
    let mut stop = v.len();
    proof {
        assert(v@.take(v@.len() as int) =~= v@);
    }
    while stop > 0 && is_whitespace(v[stop - 1]) && v[stop - 1] != '\n'
        invariant
            stop <= v@.len(),
            v@ == result@,
            trim_end_keep_lf(v@.take(stop as int)) == trim_end_keep_lf(v@),
        decreases stop,
    {
        proof {
            assert(v@.take(stop as int).drop_last() =~= v@.take(stop - 1));
        }
        stop = stop - 1;
    }
    proof {
        assert(v@.take(v@.len() as int) =~= v@);
        assert(v@.subrange(0, stop as int) =~= v@.take(stop as int));
    }
    crate::text::string_of(&v, 0, stop)
}

} // verus!

verus! {

/// The width of the first line of `s`.
pub open spec fn spec_first_line_width(s: Seq<char>) -> nat {
    str_width(s.take(text::first_newline(s, 0) as int))
}

/// The last position of a line feed in `s`, if any.
pub open spec fn last_newline(s: Seq<char>, i: int) -> Option<int>
    decreases i + 1,
{
    if i < 0 {
        None
    } else if s[i] == '\n' {
        Some(i)
    } else {
        last_newline(s, i - 1)
    }
}

/// The width of the last line of `s`.
pub open spec fn spec_last_line_width(s: Seq<char>) -> nat {
    match last_newline(s, s.len() - 1) {
        Some(p) => str_width(s.skip(p + 1)),
        None => str_width(s),
    }
}

/// Whether the code of `snippet` (comments removed) fits: its first line within the shape's
/// width, its other lines within `max_width`, and its last line within the shape.
pub open spec fn spec_filtered_str_fits(snippet: Seq<char>, max_width: nat, shape: crate::shape::Shape) -> bool {
    let s = crate::comment::spec_filter_normal_code(snippet);
    s.len() == 0 || ({
        &&& spec_first_line_width(s) <= shape.width
        &&& (exists|i: int| 0 <= i < s.len() && s[i] == '\n') ==> {
            &&& forall|k: int|
                1 <= k < text::std_lines(s).len() ==> str_width(#[trigger] text::std_lines(s)[k])
                    <= max_width
            &&& spec_last_line_width(s) <= shape.spec_used_width() + shape.width
        }
    })
}

pub proof fn lemma_last_newline_bounds(s: Seq<char>, i: int)
    requires
        i < s.len(),
    ensures
        last_newline(s, i) matches Some(p) ==> 0 <= p <= i && s[p] == '\n',
        last_newline(s, i) is None ==> forall|j: int| 0 <= j <= i ==> s[j] != '\n',
    decreases i + 1,
{
    if i >= 0 && s[i] != '\n' {
        lemma_last_newline_bounds(s, i - 1);
    }
}

fn first_line_width(v: &Vec<char>) -> (w: usize)
    ensures
        w == spec_first_line_width(v@),
{
    let e = crate::text::newline_from(v, 0);
    proof {
        text::lemma_first_newline_bounds(v@, 0);
        assert(v@.subrange(0, e as int) =~= v@.take(e as int));
    }
    let s = crate::text::string_of(v, 0, e);
    unicode_str_width(s.as_str())
}

pub(crate) fn last_line_width(v: &Vec<char>) -> (w: usize)
    ensures
        w == spec_last_line_width(v@),
{
    let mut j = v.len();
    while j > 0 && v[j - 1] != '\n'
        invariant
            j <= v@.len(),
            last_newline(v@, j - 1) == last_newline(v@, v@.len() - 1),
        decreases j,
    {
        j = j - 1;
    }
    proof {
        assert(v@.subrange(j as int, v@.len() as int) =~= v@.skip(j as int));
        assert(v@.skip(0) =~= v@);
    }
    let s = crate::text::string_of(v, j, v.len());
    unicode_str_width(s.as_str())
}

/// Whether the code of `snippet` fits in the shape (see `spec_filtered_str_fits`).
fn filtered_str_fits(snippet: &str, max_width: usize, shape: crate::shape::Shape) -> (b: bool)
    ensures
        b == spec_filtered_str_fits(snippet@, max_width as nat, shape),
{
    let filtered = crate::comment::filter_normal_code(snippet);
    let v = chars_of(filtered.as_str());
    if v.len() == 0 {
        return true;
    }
    if first_line_width(&v) > shape.width {
        return false;
    }
    let mut has_nl = false;
    let mut i: usize = 0;
    while i < v.len()
        invariant
            i <= v@.len(),
            has_nl == exists|j: int| 0 <= j < i && v@[j] == '\n',
        decreases v.len() - i,
    {
        if v[i] == '\n' {
            has_nl = true;
        }
        i = i + 1;
    }
    if !has_nl {
        return true;
    }
    // The other lines must fit within the maximum width.
    let mut a: usize = 0;
    let mut k: usize = 0;
    let ghost lines = text::std_lines(v@);
    assert(text::std_lines_from(v@, 0) == lines);
    while a < v.len()
        invariant
            a <= v@.len(),
            k <= a,
            v@ == crate::comment::spec_filter_normal_code(snippet@),
            v@.len() > 0,
            spec_first_line_width(v@) <= shape.width,
            exists|j: int| 0 <= j < v@.len() && v@[j] == '\n',
            lines == text::std_lines(v@),
            k <= lines.len(),
            lines.skip(k as int) == text::std_lines_from(v@, a as nat),
            forall|kk: int| 1 <= kk < k ==> str_width(#[trigger] lines[kk]) <= max_width,
        decreases v.len() - a,
    {
        let e = crate::text::newline_from(&v, a);
        let stop = crate::text::std_line_stop(&v, a);
        proof {
            text::lemma_first_newline_bounds(v@, a as nat);
            assert(text::std_lines_from(v@, a as nat).len() >= 1);
            assert(text::std_lines_from(v@, a as nat)[0] == text::std_line(v@, a as nat));
            assert(k < lines.len());
            assert(lines.skip(k as int)[0] == lines[k as int]);
        }
        if k >= 1 {
            let line = crate::text::string_of(&v, a, stop);
            if unicode_str_width(line.as_str()) > max_width {
                proof {
                    assert(lines[k as int] == line@);
                    assert(str_width(lines[k as int]) > max_width);
                }
                return false;
            }
        }
        proof {
            assert(lines.skip(k + 1) =~= lines.skip(k as int).drop_first());
            if e < v@.len() {
                assert(text::std_lines_from(v@, a as nat).drop_first() =~= text::std_lines_from(v@, (e + 1) as nat));
            } else {
                assert(text::std_lines_from(v@, a as nat).drop_first() =~= Seq::<Seq<char>>::empty());
                assert(text::std_lines_from(v@, v@.len() as nat) =~= Seq::<Seq<char>>::empty());
            }
        }
        k = k + 1;
        a = if e < v.len() {
            e + 1
        } else {
            v.len()
        };
    }
    proof {
        assert(text::std_lines_from(v@, a as nat) =~= Seq::<Seq<char>>::empty());
        assert(k >= lines.len());
    }
    // A special check for the last line.
    let last = last_line_width(&v);
    let used = shape.indent.block_indent;
    if last > used && last - used > shape.offset && last - used - shape.offset > shape.width {
        return false;
    }
    true
}

/// `Some(s)` when the code of `s` fits within the shape and `max_width`.
pub fn wrap_str(s: String, max_width: usize, shape: crate::shape::Shape) -> (r: Option<String>)
    ensures
        r matches Some(t) ==> t@ == s@,
        r is Some <==> spec_filtered_str_fits(s@, max_width as nat, shape),
{
    if filtered_str_fits(s.as_str(), max_width, shape) {
        Some(s)
    } else {
        None
    }
}

} // verus!

verus! {

/// Describes the layout of a piece of text.
pub struct StringFormat<'a> {
    /// The opening sequence of characters for the piece of text
    pub opener: &'a str,
    /// The closing sequence of characters for the piece of text
    pub closer: &'a str,
    /// The opening sequence of characters for a line
    pub line_start: &'a str,
    /// The closing sequence of characters for a line
    pub line_end: &'a str,
    /// The allocated box to fit the text into
    pub shape: crate::shape::Shape,
    /// Trim trailing whitespaces
    pub trim_end: bool,
    pub config: &'a crate::config::Config,
}

impl<'a> StringFormat<'a> {
    /// The layout of a string literal: quoted, continued with a backslash at line ends.
    pub fn new(shape: crate::shape::Shape, config: &'a crate::config::Config) -> (r: StringFormat<'a>)
        ensures
            r.opener@ == "\""@,
            r.closer@ == "\""@,
            r.line_start@ == " "@,
            r.line_end@ == "\\"@,
            r.shape == shape,
            r.trim_end == false,
            r.config == config,
    {
        StringFormat {
            opener: "\"",
            closer: "\"",
            line_start: " ",
            line_end: "\\",
            shape,
            trim_end: false,
            config,
        }
    }

    /// The maximum width of a line's text once the opener and the line end are placed.
    pub open spec fn spec_max_width_with_indent(&self) -> Option<nat> {
        let used = text::byte_len(self.opener@) + text::byte_len(self.line_end@) + 1;
        if self.shape.width >= used {
            Some((self.shape.width - used + 1) as nat)
        } else {
            None
        }
    }

    /// The maximum width of a line's text when the indentation is not counted.
    pub open spec fn spec_max_width_without_indent(&self) -> Option<nat> {
        if self.config.max_width >= text::byte_len(self.line_end@) {
            Some((self.config.max_width - text::byte_len(self.line_end@)) as nat)
        } else {
            None
        }
    }

    /// Returns the maximum number of graphemes that is possible on a line while taking the
    /// indentation into account.
    ///
    /// If we cannot put at least a single character per line, the rewrite won't succeed.
    pub fn max_width_with_indent(&self) -> (r: Option<usize>)
        ensures
            r matches Some(w) ==> self.spec_max_width_with_indent() == Some(w as nat),
            r is None <==> self.spec_max_width_with_indent() is None,
    {
        let a = crate::text::str_byte_len(self.opener);
        let b = crate::text::str_byte_len(self.line_end);
        if a > self.shape.width || b > self.shape.width - a || 1 > self.shape.width - a - b {
            return None;
        }
        Some(self.shape.width - (a + b + 1) + 1)
    }

    /// Like `max_width_with_indent` but the indentation is not subtracted.
    pub fn max_width_without_indent(&self) -> (r: Option<usize>)
        ensures
            r matches Some(w) ==> self.spec_max_width_without_indent() == Some(w as nat),
            r is None <==> self.spec_max_width_without_indent() is None,
    {
        let b = crate::text::str_byte_len(self.line_end);
        if b > self.config.max_width {
            None
        } else {
            Some(self.config.max_width - b)
        }
    }
}

/// The constants of one rewrite of a string.
pub struct RewriteParams {
    pub trim_end: bool,
    pub line_end: Seq<char>,
    pub line_start: Seq<char>,
    pub indent_with_newline: Seq<char>,
    pub indent: Seq<char>,
    pub bareline_ok: bool,
    pub newline_max_chars: nat,
    pub max_width_with_indent: nat,
    pub max_width_without_indent: nat,
}

/// Appends the graphemes `gs[i..]`, which fit on the line: each line break trims the line
/// before it and may start the next line with the indentation and the line start.
pub open spec fn rs_fits_tail(gs: Seq<Seq<char>>, i: nat, result: Seq<char>, p: RewriteParams) -> Seq<char>
    decreases gs.len() - i,
{
    if i >= gs.len() {
        spec_trim_end_but_line_feed(p.trim_end, result)
    } else if spec_is_new_line(gs[i as int]) {
        let r1 = spec_trim_end_but_line_feed(p.trim_end, result).push('\n');
        let r2 = if !p.bareline_ok && i + 1 < gs.len() {
            r1 + p.indent + p.line_start
        } else {
            r1
        };
        rs_fits_tail(gs, i + 1, r2, p)
    } else {
        rs_fits_tail(gs, i + 1, result + gs[i as int], p)
    }
}

/// The rewriting loop from the grapheme `cur_start`, with the text `result` written so far and
/// `cur_max_width` the width available on the current line.
pub open spec fn rs_loop(gs: Seq<Seq<char>>, cur_start: nat, result: Seq<char>, cur_max_width: nat, p: RewriteParams) -> Seq<char>
    decreases gs.len() - cur_start,
{
    if spec_graphemes_width(gs.skip(cur_start as int)) <= cur_max_width {
        rs_fits_tail(gs, cur_start, result, p)
    } else {
        match spec_break_string(cur_max_width, p.trim_end, p.line_end.len() == 0, gs.skip(cur_start as int)) {
            SnippetView::LineEnd(line, len) => if 1 <= len && cur_start + len <= gs.len() {
                rs_loop(
                    gs,
                    cur_start + len,
                    result + line + p.line_end + p.indent_with_newline + p.line_start,
                    p.newline_max_chars,
                    p,
                )
            } else {
                result
            },
            SnippetView::EndWithLineFeed(line, len) => if 1 <= len && cur_start + len <= gs.len() {
                let r1 = if line == seq!['\n'] && p.trim_end {
                    text::trim_end(result)
                } else {
                    result
                };
                if p.bareline_ok {
                    rs_loop(gs, cur_start + len, r1 + line, p.max_width_without_indent, p)
                } else {
                    rs_loop(gs, cur_start + len, r1 + line + p.indent + p.line_start, p.max_width_with_indent, p)
                }
            } else {
                result
            },
            SnippetView::EndOfInput(line) => result + line,
        }
    }
}

/// The widths that a layout leaves for the text of a line: with the opener and the line end
/// placed, and without the indentation counted.
pub open spec fn spec_layout_widths(opener: Seq<char>, line_end: Seq<char>, shape: crate::shape::Shape, config: crate::config::Config) -> Option<(nat, nat)> {
    let used = text::byte_len(opener) + text::byte_len(line_end) + 1;
    if shape.width >= used && config.max_width >= text::byte_len(line_end) {
        Some(((shape.width - used + 1) as nat, (config.max_width - text::byte_len(line_end)) as nat))
    } else {
        None
    }
}

/// What `rewrite_string` returns for a layout given by its parts.
pub open spec fn spec_rewrite_text(
    orig: Seq<char>,
    opener: Seq<char>,
    closer: Seq<char>,
    line_start: Seq<char>,
    line_end: Seq<char>,
    shape: crate::shape::Shape,
    trim_end: bool,
    config: crate::config::Config,
    newline_max_chars: nat,
) -> Option<Seq<char>> {
    match spec_layout_widths(opener, line_end, shape, config) {
        Some((a, b)) => {
            let gs = grapheme_clusters(strip_line_continuations(orig));
            let p = RewriteParams {
                trim_end,
                line_end,
                line_start,
                indent_with_newline: seq!['\n'] + shape.indent.spec_to_string(config),
                indent: shape.indent.spec_to_string(config),
                bareline_ok: spec_is_whitespace(line_start),
                newline_max_chars,
                max_width_with_indent: a,
                max_width_without_indent: b,
            };
            let res = rs_loop(gs, 0, opener, a, p) + closer;
            if spec_filtered_str_fits(res, config.max_width as nat, shape) {
                Some(res)
            } else {
                None
            }
        },
        None => None,
    }
}

/// What `rewrite_string` returns.
pub open spec fn spec_rewrite_string(orig: Seq<char>, fmt: StringFormat, newline_max_chars: nat) -> Option<Seq<char>> {
    spec_rewrite_text(
        orig,
        fmt.opener@,
        fmt.closer@,
        fmt.line_start@,
        fmt.line_end@,
        fmt.shape,
        fmt.trim_end,
        *fmt.config,
        newline_max_chars,
    )
}

} // verus!

verus! {

fn is_single_line_feed(s: &String) -> (b: bool)
    ensures
        b == (s@ == seq!['\n']),
{
    let v = chars_of(s.as_str());
    let r = v.len() == 1 && v[0] == '\n';
    proof {
        if v@.len() == 1 && v@[0] == '\n' {
            assert(v@ =~= seq!['\n']);
        }
    }
    r
}

fn string_trim_end(s: String) -> (r: String)
    ensures
        r@ == text::trim_end(s@),
{
    let v = chars_of(s.as_str());
    let stop = crate::text::trim_end_stop(&v, 0, v.len());
    proof {
        assert(v@.subrange(0, v@.len() as int) =~= v@);
    }
    crate::text::string_of(&v, 0, stop)
}

/// Rewrites the string `orig` to fit the layout `fmt`, breaking it into lines. Lines after the
/// first may hold `newline_max_chars` graphemes of width. `None` when the layout leaves no
/// room or when the result does not fit.
pub fn rewrite_string<'a>(orig: &str, fmt: &StringFormat<'a>, newline_max_chars: usize) -> (r: Option<String>)
    requires
        fmt.spec_max_width_with_indent() is Some && fmt.spec_max_width_without_indent() is Some ==> {
            &&& fmt.shape.indent.spec_width() <= usize::MAX
            &&& fmt.config.hard_tabs ==> fmt.config.tab_spaces > 0
        },
    ensures
        r matches Some(s) ==> spec_rewrite_string(orig@, *fmt, newline_max_chars as nat) == Some(s@),
        r is None <==> spec_rewrite_string(orig@, *fmt, newline_max_chars as nat) is None,
{
    let max_width_with_indent = match fmt.max_width_with_indent() {
        Some(w) => w,
        None => {
            return None;
        },
    };
    let max_width_without_indent = match fmt.max_width_without_indent() {
        Some(w) => w,
        None => {
            return None;
        },
    };
    let indent_with_newline = fmt.shape.indent.to_string_with_newline(fmt.config);
    let indent_without_newline = fmt.shape.indent.to_string(fmt.config);
    // Strip line breaks.
    // With this regex applied, all remaining whitespaces are significant
    let stripped_str = strip_line_breaks(orig);
    let graphemes = graphemes(stripped_str.as_str());
    let ghost gs = strings_view(graphemes@);
    let n = graphemes.len();
    let is_bareline_ok = is_whitespace_str(fmt.line_start);
    let ghost p = RewriteParams {
        trim_end: fmt.trim_end,
        line_end: fmt.line_end@,
        line_start: fmt.line_start@,
        indent_with_newline: seq!['\n'] + fmt.shape.indent.spec_to_string(*fmt.config),
        indent: fmt.shape.indent.spec_to_string(*fmt.config),
        bareline_ok: spec_is_whitespace(fmt.line_start@),
        newline_max_chars: newline_max_chars as nat,
        max_width_with_indent: max_width_with_indent as nat,
        max_width_without_indent: max_width_without_indent as nat,
    };
    let ghost target = rs_loop(gs, 0, fmt.opener@, max_width_with_indent as nat, p);
    let mut cur_start: usize = 0;
    let mut result = String::new();
    result.append(fmt.opener);
    assert(result@ =~= fmt.opener@);
    let mut cur_max_width = max_width_with_indent;
    loop
        invariant_except_break
            n == graphemes@.len(),
            gs == strings_view(graphemes@),
            cur_start <= n,
            indent_with_newline@ == p.indent_with_newline,
            indent_without_newline@ == p.indent,
            is_bareline_ok == p.bareline_ok,
            p.trim_end == fmt.trim_end,
            p.line_end == fmt.line_end@,
            p.line_start == fmt.line_start@,
            p.newline_max_chars == newline_max_chars,
            p.max_width_with_indent == max_width_with_indent,
            p.max_width_without_indent == max_width_without_indent,
            rs_loop(gs, cur_start as nat, result@, cur_max_width as nat, p) == target,
        ensures
            result@ == target,
        decreases n - cur_start,
    {
        if graphemes_width(&graphemes, cur_start) <= cur_max_width {
            let mut i = cur_start;
            let ghost r0 = result@;
            while i < n
                invariant
                    n == graphemes@.len(),
                    gs == strings_view(graphemes@),
                    cur_start <= i <= n,
                    indent_without_newline@ == p.indent,
                    is_bareline_ok == p.bareline_ok,
                    p.trim_end == fmt.trim_end,
                    p.line_start == fmt.line_start@,
                    rs_fits_tail(gs, i as nat, result@, p) == rs_fits_tail(gs, cur_start as nat, r0, p),
                decreases n - i,
            {
                if is_new_line(graphemes[i].as_str()) {
                    // take care of blank lines
                    result = trim_end_but_line_feed(fmt.trim_end, result);
                    crate::text::string_push(&mut result, '\n');
                    if !is_bareline_ok && i + 1 < n {
                        result.append(indent_without_newline.as_str());
                        result.append(fmt.line_start);
                    }
                } else {
                    result.append(graphemes[i].as_str());
                }
                i = i + 1;
            }
            result = trim_end_but_line_feed(fmt.trim_end, result);
            break ;
        }
        // The input starting at cur_start needs to be broken
        match break_string(cur_max_width, fmt.trim_end, fmt.line_end, &graphemes, cur_start) {
            SnippetState::LineEnd(line, len) => {
                result.append(line.as_str());
                result.append(fmt.line_end);
                result.append(indent_with_newline.as_str());
                result.append(fmt.line_start);
                cur_max_width = newline_max_chars;
                cur_start = cur_start + len;
            },
            SnippetState::EndWithLineFeed(line, len) => {
                if is_single_line_feed(&line) && fmt.trim_end {
                    result = string_trim_end(result);
                }
                result.append(line.as_str());
                if is_bareline_ok {
                    // the next line can benefit from the full width
                    cur_max_width = max_width_without_indent;
                } else {
                    result.append(indent_without_newline.as_str());
                    result.append(fmt.line_start);
                    cur_max_width = max_width_with_indent;
                }
                cur_start = cur_start + len;
            },
            SnippetState::EndOfInput(line) => {
                result.append(line.as_str());
                break ;
            },
        }
    }
    result.append(fmt.closer);
    wrap_str(result, fmt.config.max_width, fmt.shape)
}

} // verus!
