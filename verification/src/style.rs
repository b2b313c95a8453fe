use vstd::prelude::*;

use crate::text;
use crate::text::{chars_of, is_alphanumeric, is_whitespace, starts_with_at, std_line_stop};
use vstd::string::StrSliceExecFns;

verus! {

/// The shape of a comment, told by its opening characters.
#[derive(Copy, Clone, PartialEq, Eq, Debug)]
pub enum CommentStyle<'a> {
    DoubleSlash,
    TripleSlash,
    Doc,
    SingleBullet,
    DoubleBullet,
    Exclamation,
    Custom(&'a str),
}

/// `//` followed by a third character that is neither alphanumeric nor whitespace.
pub open spec fn spec_is_custom_comment(s: Seq<char>) -> bool {
    &&& text::has_prefix(s, seq!['/', '/'])
    &&& s.len() > 2
    &&& !text::char_is_alphanumeric(s[2])
    &&& !text::char_is_whitespace(s[2])
}

fn is_custom_comment(comment: &Vec<char>) -> (b: bool)
    ensures
        b == spec_is_custom_comment(comment@),
{
    if !starts_with_at(comment, 0, "//") {
        proof {
            reveal_strlit("//");
            assert("//"@ =~= seq!['/', '/']);
        }
        false
    } else if comment.len() > 2 {
        proof {
            reveal_strlit("//");
            assert("//"@ =~= seq!['/', '/']);
        }
        let c = comment[2];
        !is_alphanumeric(c) && !is_whitespace(c)
    } else {
        proof {
            reveal_strlit("//");
            assert("//"@ =~= seq!['/', '/']);
        }
        false
    }
}

/// The opener of a custom comment: its first line up to and including the first space (the
/// whole first line when it has no space).
pub open spec fn spec_custom_opener(s: Seq<char>) -> Seq<char> {
    let first_line = text::std_line(s, 0);
    if exists|i: int| 0 <= i < first_line.len() && first_line[i] == ' ' {
        let i = choose|i: int|
            0 <= i < first_line.len() && first_line[i] == ' ' && forall|j: int|
                0 <= j < i ==> first_line[j] != ' ';
        first_line.take(i + 1)
    } else {
        first_line
    }
}

fn custom_opener(s: &str) -> (r: &str)
    ensures
        r@ == spec_custom_opener(s@),
{
    let v = chars_of(s);
    let stop = std_line_stop(&v, 0);
    let mut i: usize = 0;
    while i < stop
        invariant
            v@ == s@,
            stop <= v@.len(),
            v@.subrange(0, stop as int) == text::std_line(s@, 0),
            i <= stop,
            forall|j: int| 0 <= j < i ==> v@[j] != ' ',
        decreases stop - i,
    {
        if v[i] == ' ' {
            proof {
                let fl = text::std_line(s@, 0);
                assert(fl[i as int] == ' ');
                assert(forall|j: int| 0 <= j < i ==> fl[j] != ' ');
                let k = choose|k: int|
                    0 <= k < fl.len() && fl[k] == ' ' && forall|j: int| 0 <= j < k ==> fl[j] != ' ';
                assert(k == i);
                assert(fl.take(i + 1) =~= v@.subrange(0, i + 1));
            }
            return s.substring_char(0, i + 1);
        }
        i = i + 1;
    }
    proof {
        let fl = text::std_line(s@, 0);
        assert(forall|j: int| 0 <= j < fl.len() ==> fl[j] != ' ');
    }
    s.substring_char(0, stop)
}

} // verus!

verus! {

impl<'a> CommentStyle<'a> {
    pub open spec fn spec_is_line_comment(self) -> bool {
        match self {
            CommentStyle::DoubleSlash
            | CommentStyle::TripleSlash
            | CommentStyle::Doc
            | CommentStyle::Custom(_) => true,
            _ => false,
        }
    }

    pub open spec fn spec_is_block_comment(self) -> bool {
        match self {
            CommentStyle::SingleBullet | CommentStyle::DoubleBullet | CommentStyle::Exclamation => true,
            _ => false,
        }
    }

    pub open spec fn spec_opener(self) -> Seq<char> {
        match self {
            CommentStyle::DoubleSlash => "// "@,
            CommentStyle::TripleSlash => "/// "@,
            CommentStyle::Doc => "//! "@,
            CommentStyle::SingleBullet => "/* "@,
            CommentStyle::DoubleBullet => "/** "@,
            CommentStyle::Exclamation => "/*! "@,
            CommentStyle::Custom(opener) => opener@,
        }
    }

    pub open spec fn spec_closer(self) -> Seq<char> {
        match self {
            CommentStyle::DoubleSlash
            | CommentStyle::TripleSlash
            | CommentStyle::Custom(..)
            | CommentStyle::Doc => ""@,
            CommentStyle::SingleBullet | CommentStyle::DoubleBullet | CommentStyle::Exclamation => " */"@,
        }
    }

    pub open spec fn spec_line_start(self) -> Seq<char> {
        match self {
            CommentStyle::DoubleSlash => "// "@,
            CommentStyle::TripleSlash => "/// "@,
            CommentStyle::Doc => "//! "@,
            CommentStyle::SingleBullet | CommentStyle::DoubleBullet | CommentStyle::Exclamation => " * "@,
            CommentStyle::Custom(opener) => opener@,
        }
    }

    /// Returns `true` if the commenting style cannot span multiple lines.
    pub fn is_line_comment(&self) -> (b: bool)
        ensures
            b == self.spec_is_line_comment(),
    {
        match self {
            CommentStyle::DoubleSlash
            | CommentStyle::TripleSlash
            | CommentStyle::Doc
            | CommentStyle::Custom(_) => true,
            _ => false,
        }
    }

    /// Returns `true` if the commenting style can span multiple lines.
    pub fn is_block_comment(&self) -> (b: bool)
        ensures
            b == self.spec_is_block_comment(),
    {
        match self {
            CommentStyle::SingleBullet | CommentStyle::DoubleBullet | CommentStyle::Exclamation => true,
            _ => false,
        }
    }

    /// Returns `true` if the commenting style is for documentation.
    pub fn is_doc_comment(&self) -> (b: bool)
        ensures
            b == (*self is TripleSlash || *self is Doc),
    {
        match self {
            CommentStyle::TripleSlash | CommentStyle::Doc => true,
            _ => false,
        }
    }

    pub fn opener(&self) -> (r: &'a str)
        ensures
            r@ == self.spec_opener(),
    {
        match *self {
            CommentStyle::DoubleSlash => "// ",
            CommentStyle::TripleSlash => "/// ",
            CommentStyle::Doc => "//! ",
            CommentStyle::SingleBullet => "/* ",
            CommentStyle::DoubleBullet => "/** ",
            CommentStyle::Exclamation => "/*! ",
            CommentStyle::Custom(opener) => opener,
        }
    }

    pub fn closer(&self) -> (r: &'a str)
        ensures
            r@ == self.spec_closer(),
    {
        match *self {
            CommentStyle::DoubleSlash
            | CommentStyle::TripleSlash
            | CommentStyle::Custom(..)
            | CommentStyle::Doc => "",
            CommentStyle::SingleBullet | CommentStyle::DoubleBullet | CommentStyle::Exclamation => " */",
        }
    }

    pub fn line_start(&self) -> (r: &'a str)
        ensures
            r@ == self.spec_line_start(),
    {
        match *self {
            CommentStyle::DoubleSlash => "// ",
            CommentStyle::TripleSlash => "/// ",
            CommentStyle::Doc => "//! ",
            CommentStyle::SingleBullet | CommentStyle::DoubleBullet | CommentStyle::Exclamation => " * ",
            CommentStyle::Custom(opener) => opener,
        }
    }

    pub fn to_str_tuplet(&self) -> (r: (&'a str, &'a str, &'a str))
        ensures
            r.0@ == self.spec_opener(),
            r.1@ == self.spec_closer(),
            r.2@ == self.spec_line_start(),
    {
        (self.opener(), self.closer(), self.line_start())
    }
}

/// Starts with `///` not followed by a fourth `/`.
pub open spec fn starts_triple_slash(s: Seq<char>) -> bool {
    text::has_prefix(s, "///"@) && (s.len() <= 3 || s[3] != '/')
}

/// Starts with `/**` but not with `/**/`.
pub open spec fn starts_double_bullet(s: Seq<char>) -> bool {
    text::has_prefix(s, "/**"@) && !text::has_prefix(s, "/**/"@)
}

/// The style that `comment_style` gives `s`; `None` stands for `Custom`, whose opener is
/// `spec_custom_opener(s)`.
pub open spec fn spec_comment_style(s: Seq<char>, normalize_comments: bool) -> Option<
    CommentStyle<'static>,
> {
    if !normalize_comments {
        if starts_double_bullet(s) {
            Some(CommentStyle::DoubleBullet)
        } else if text::has_prefix(s, "/*!"@) {
            Some(CommentStyle::Exclamation)
        } else if text::has_prefix(s, "/*"@) {
            Some(CommentStyle::SingleBullet)
        } else if starts_triple_slash(s) {
            Some(CommentStyle::TripleSlash)
        } else if text::has_prefix(s, "//!"@) {
            Some(CommentStyle::Doc)
        } else if spec_is_custom_comment(s) {
            None
        } else {
            Some(CommentStyle::DoubleSlash)
        }
    } else if starts_triple_slash(s) || starts_double_bullet(s) {
        Some(CommentStyle::TripleSlash)
    } else if text::has_prefix(s, "//!"@) || text::has_prefix(s, "/*!"@) {
        Some(CommentStyle::Doc)
    } else if spec_is_custom_comment(s) {
        None
    } else {
        Some(CommentStyle::DoubleSlash)
    }
}

/// Whether `style` is what `comment_style` gives `s`.
pub open spec fn is_style_of(style: CommentStyle, s: Seq<char>, normalize_comments: bool) -> bool {
    match spec_comment_style(s, normalize_comments) {
        Some(st) => style == st,
        None => style matches CommentStyle::Custom(o) && o@ == spec_custom_opener(s),
    }
}

fn starts_triple_slash_exec(v: &Vec<char>) -> (b: bool)
    ensures
        b == starts_triple_slash(v@),
{
    starts_with_at(v, 0, "///") && (v.len() <= 3 || v[3] != '/')
}

fn starts_double_bullet_exec(v: &Vec<char>) -> (b: bool)
    ensures
        b == starts_double_bullet(v@),
{
    starts_with_at(v, 0, "/**") && !starts_with_at(v, 0, "/**/")
}

/// Tells the style of the comment `orig` by its opening characters.
pub fn comment_style(orig: &str, normalize_comments: bool) -> (r: CommentStyle<'_>)
    ensures
        is_style_of(r, orig@, normalize_comments),
{
    let v = chars_of(orig);
    if !normalize_comments {
        if starts_double_bullet_exec(&v) {
            CommentStyle::DoubleBullet
        } else if starts_with_at(&v, 0, "/*!") {
            CommentStyle::Exclamation
        } else if starts_with_at(&v, 0, "/*") {
            CommentStyle::SingleBullet
        } else if starts_triple_slash_exec(&v) {
            CommentStyle::TripleSlash
        } else if starts_with_at(&v, 0, "//!") {
            CommentStyle::Doc
        } else if is_custom_comment(&v) {
            CommentStyle::Custom(custom_opener(orig))
        } else {
            CommentStyle::DoubleSlash
        }
    } else if starts_triple_slash_exec(&v) || starts_double_bullet_exec(&v) {
        CommentStyle::TripleSlash
    } else if starts_with_at(&v, 0, "//!") || starts_with_at(&v, 0, "/*!") {
        CommentStyle::Doc
    } else if is_custom_comment(&v) {
        CommentStyle::Custom(custom_opener(orig))
    } else {
        CommentStyle::DoubleSlash
    }
}

/// Exactly one of "line comment" and "block comment" describes every style, and a style has a
/// closer exactly when it is a block comment.
pub proof fn law_style_line_xor_block(style: CommentStyle)
    ensures
        style.spec_is_line_comment() != style.spec_is_block_comment(),
        style.spec_is_block_comment() <==> style.spec_closer().len() > 0,
{
    reveal_strlit("");
    reveal_strlit(" */");
}

} // verus!

verus! {

/// Starts with one of the four-character comment openers followed by a space.
pub open spec fn starts_opener4(s: Seq<char>) -> bool {
    text::has_prefix(s, "//! "@) || text::has_prefix(s, "/// "@) || text::has_prefix(s, "/*! "@)
        || text::has_prefix(s, "/** "@)
}

/// Starts with one of the three-character comment openers.
pub open spec fn starts_opener3(s: Seq<char>) -> bool {
    text::has_prefix(s, "/* "@) || text::has_prefix(s, "// "@) || text::has_prefix(s, "//!"@)
        || text::has_prefix(s, "///"@) || text::has_prefix(s, "** "@) || text::has_prefix(
        s,
        "/*!"@,
    ) || starts_double_bullet(s)
}

/// Starts with one of the two-character comment openers.
pub open spec fn starts_opener2(s: Seq<char>) -> bool {
    text::has_prefix(s, "/*"@) || text::has_prefix(s, "* "@) || text::has_prefix(s, "//"@)
        || text::has_prefix(s, "**"@)
}

/// The inputs on which `left_trim_comment_line` does not panic: a line of a custom comment
/// that does not start with the opener is cut where the opener without its trailing
/// whitespace ends, which must be a character boundary of the line.
pub open spec fn left_trim_ok(line: Seq<char>, style: StyleView) -> bool {
    match style {
        StyleView::Custom(o) => (!starts_opener4(line) && !text::has_prefix(line, o)) ==> exists|
            k: nat,
        | text::is_byte_position(line, text::byte_len(text::trim_end(o)), k),
        _ => true,
    }
}

/// What `left_trim_comment_line` returns: the line without its comment characters, and whether
/// a single space after them was trimmed as well.
pub open spec fn spec_left_trim_comment_line(line: Seq<char>, style: StyleView) -> (
    Seq<char>,
    bool,
) {
    if starts_opener4(line) {
        (line.skip(4), true)
    } else if style is Custom {
        let o = style->Custom_0;
        if text::has_prefix(line, o) {
            (line.skip(o.len() as int), true)
        } else {
            let k = choose|k: nat|
                text::is_byte_position(line, text::byte_len(text::trim_end(o)), k);
            (line.skip(k as int), false)
        }
    } else if starts_opener3(line) {
        (line.skip(3), line[2] == ' ')
    } else if starts_opener2(line) {
        (line.skip(2), line[1] == ' ')
    } else if text::has_prefix(line, "*"@) {
        (line.skip(1), false)
    } else {
        (line, text::has_prefix(line, " "@))
    }
}

/// Trims comment characters and possibly a single space from the left of a string.
/// Does not trim all whitespace. If a single space is trimmed from the left of the string,
/// this function returns true.
pub fn left_trim_comment_line<'a>(line: &'a str, style: &CommentStyle<'_>) -> (r: (&'a str, bool))
    requires
        left_trim_ok(line@, style@),
    ensures
        r.0@ == spec_left_trim_comment_line(line@, style@).0,
        r.1 == spec_left_trim_comment_line(line@, style@).1,
{
    let v = chars_of(line);
    let n = v.len();
    proof {
        reveal_strlit("//! ");
        reveal_strlit("/// ");
        reveal_strlit("/*! ");
        reveal_strlit("/** ");
        reveal_strlit("/* ");
        reveal_strlit("// ");
        reveal_strlit("//!");
        reveal_strlit("///");
        reveal_strlit("** ");
        reveal_strlit("/*!");
        reveal_strlit("/**");
        reveal_strlit("/**/");
        reveal_strlit("/*");
        reveal_strlit("* ");
        reveal_strlit("//");
        reveal_strlit("**");
        reveal_strlit("*");
        reveal_strlit(" ");
    }
    if starts_with_at(&v, 0, "//! ") || starts_with_at(&v, 0, "/// ") || starts_with_at(
        &v,
        0,
        "/*! ",
    ) || starts_with_at(&v, 0, "/** ") {
        (line.substring_char(4, n), true)
    } else if let CommentStyle::Custom(opener) = *style {
        let ov = chars_of(opener);
        if starts_with_at(&v, 0, opener) {
            (line.substring_char(ov.len(), n), true)
        } else {
            let stop = crate::text::trim_end_stop(&ov, 0, ov.len());
            proof {
                assert(ov@.subrange(0, ov@.len() as int) =~= ov@);
                text::lemma_byte_len_mono(ov@, stop as int, ov@.len() as int);
                assert(ov@.take(stop as int) =~= ov@.subrange(0, stop as int));
                text::lemma_byte_len_encode(opener@);
            }
            let _ = crate::text::str_byte_len(opener);
            let b = crate::text::chars_byte_len(&ov, 0, stop);
            match crate::text::char_pos_of_byte(&v, b) {
                Some(k) => {
                    proof {
                        let kk = choose|kk: nat|
                            text::is_byte_position(v@, text::byte_len(text::trim_end(ov@)), kk);
                        text::lemma_byte_position_unique(v@, b as nat, k as nat, kk);
                    }
                    (line.substring_char(k, n), false)
                },
                None => {
                    proof {
                        let kk = choose|kk: nat|
                            text::is_byte_position(v@, text::byte_len(text::trim_end(ov@)), kk);
                        assert(text::is_byte_position(v@, b as nat, kk));
                    }
                    (line, false)
                },
            }
        }
    } else if starts_with_at(&v, 0, "/* ") || starts_with_at(&v, 0, "// ") || starts_with_at(
        &v,
        0,
        "//!",
    ) || starts_with_at(&v, 0, "///") || starts_with_at(&v, 0, "** ") || starts_with_at(
        &v,
        0,
        "/*!",
    ) || (starts_with_at(&v, 0, "/**") && !starts_with_at(&v, 0, "/**/")) {
        (line.substring_char(3, n), v[2] == ' ')
    } else if starts_with_at(&v, 0, "/*") || starts_with_at(&v, 0, "* ") || starts_with_at(
        &v,
        0,
        "//",
    ) || starts_with_at(&v, 0, "**") {
        (line.substring_char(2, n), v[1] == ' ')
    } else if starts_with_at(&v, 0, "*") {
        (line.substring_char(1, n), false)
    } else {
        (line, starts_with_at(&v, 0, " "))
    }
}

} // verus!

verus! {

/// A comment style as a value: the opener of a custom style is held as its text.
pub enum StyleView {
    DoubleSlash,
    TripleSlash,
    Doc,
    SingleBullet,
    DoubleBullet,
    Exclamation,
    Custom(Seq<char>),
}

impl<'a> View for CommentStyle<'a> {
    type V = StyleView;

    open spec fn view(&self) -> StyleView {
        match *self {
            CommentStyle::DoubleSlash => StyleView::DoubleSlash,
            CommentStyle::TripleSlash => StyleView::TripleSlash,
            CommentStyle::Doc => StyleView::Doc,
            CommentStyle::SingleBullet => StyleView::SingleBullet,
            CommentStyle::DoubleBullet => StyleView::DoubleBullet,
            CommentStyle::Exclamation => StyleView::Exclamation,
            CommentStyle::Custom(o) => StyleView::Custom(o@),
        }
    }
}

impl StyleView {
    pub open spec fn is_line(self) -> bool {
        !self.is_block()
    }

    pub open spec fn is_block(self) -> bool {
        self is SingleBullet || self is DoubleBullet || self is Exclamation
    }

    /// The opener of a block style without its trailing space.
    pub open spec fn block_opener(self) -> Seq<char> {
        match self {
            StyleView::DoubleBullet => "/**"@,
            StyleView::Exclamation => "/*!"@,
            _ => "/*"@,
        }
    }

    /// What a line of a line-comment group must start with (besides having the same style).
    pub open spec fn group_line_start(self) -> Seq<char> {
        match self {
            StyleView::TripleSlash => "/// "@,
            StyleView::Doc => "//! "@,
            StyleView::Custom(o) => text::trim_end(o),
            _ => "// "@,
        }
    }
}

/// The style that `comment_style` gives `s`, as a value.
pub open spec fn style_of(s: Seq<char>, normalize_comments: bool) -> StyleView {
    match spec_comment_style(s, normalize_comments) {
        Some(st) => st@,
        None => StyleView::Custom(spec_custom_opener(s)),
    }
}

pub proof fn lemma_style_of(r: CommentStyle, s: Seq<char>, normalize_comments: bool)
    requires
        is_style_of(r, s, normalize_comments),
    ensures
        r@ == style_of(s, normalize_comments),
{
}

/// Whether two strings hold the same characters.
pub fn str_eq(a: &str, b: &str) -> (r: bool)
    ensures
        r == (a@ == b@),
{
    let av = chars_of(a);
    let bv = chars_of(b);
    if av.len() != bv.len() {
        return false;
    }
    let mut i: usize = 0;
    while i < av.len()
        invariant
            av@ == a@,
            bv@ == b@,
            av@.len() == bv@.len(),
            i <= av@.len(),
            forall|j: int| 0 <= j < i ==> av@[j] == bv@[j],
        decreases av.len() - i,
    {
        if av[i] != bv[i] {
            return false;
        }
        i = i + 1;
    }
    assert(av@ =~= bv@);
    true
}

/// Whether two styles are the same (custom styles with the same opener).
pub fn same_style(a: &CommentStyle, b: &CommentStyle) -> (r: bool)
    ensures
        r == (a@ == b@),
{
    match (a, b) {
        (CommentStyle::DoubleSlash, CommentStyle::DoubleSlash) => true,
        (CommentStyle::TripleSlash, CommentStyle::TripleSlash) => true,
        (CommentStyle::Doc, CommentStyle::Doc) => true,
        (CommentStyle::SingleBullet, CommentStyle::SingleBullet) => true,
        (CommentStyle::DoubleBullet, CommentStyle::DoubleBullet) => true,
        (CommentStyle::Exclamation, CommentStyle::Exclamation) => true,
        (CommentStyle::Custom(x), CommentStyle::Custom(y)) => str_eq(x, y),
        _ => false,
    }
}

} // verus!
