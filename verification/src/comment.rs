use vstd::prelude::*;

use crate::text;
use crate::text::{chars_byte_len, chars_of, string_of};
use vstd::string::StrSliceExecFns;

pub use crate::identify::rewrite_comment;

verus! {

/// Scanner state between two characters of a source text.
#[derive(Clone, Copy, Debug, PartialEq, Eq, Structural)]
pub enum CharClassesStatus {
    Normal,
    /// Character is within a string
    LitString,
    LitStringEscape,
    /// Character is within a raw string
    LitRawString(usize),
    RawStringPrefix(usize),
    RawStringSuffix(usize),
    LitChar,
    LitCharEscape,
    /// Character inside a block comment, with the integer indicating the nesting deepness of the
    /// comment
    BlockComment(usize),
    /// Character inside a block-commented string, with the integer indicating the nesting deepness
    /// of the comment
    StringInBlockComment(usize),
    /// Status when the '/' has been consumed, but not yet the '*', deepness is
    /// the new deepness (after the comment opening).
    BlockCommentOpening(usize),
    /// Status when the '*' has been consumed, but not yet the '/', deepness is
    /// the new deepness (after the comment closing).
    BlockCommentClosing(usize),
    /// Character is within a line comment
    LineComment,
}

/// Distinguish between functional part of code and comments
#[derive(Clone, Copy, Debug, PartialEq, Eq, Structural)]
pub enum CodeCharKind {
    Normal,
    Comment,
}

/// Distinguish between functional part of code and comments,
/// describing opening and closing of comments for ease when chunking
/// code from tagged characters
#[derive(Clone, Copy, Debug, PartialEq, Eq, Structural)]
pub enum FullCodeCharKind {
    Normal,
    /// The first character of a comment, there is only one for a comment (always '/')
    StartComment,
    /// Any character inside a comment including the second character of comment
    /// marks ("//", "/*")
    InComment,
    /// Last character of a comment, '\n' for a line comment, '/' for a block comment.
    EndComment,
    /// Start of a mutlitine string inside a comment
    StartStringCommented,
    /// End of a mutlitine string inside a comment
    EndStringCommented,
    /// Inside a commented string
    InStringCommented,
    /// Start of a mutlitine string
    StartString,
    /// End of a mutlitine string
    EndString,
    /// Inside a string.
    InString,
}

pub open spec fn spec_is_comment(k: FullCodeCharKind) -> bool {
    match k {
        FullCodeCharKind::StartComment
        | FullCodeCharKind::InComment
        | FullCodeCharKind::EndComment
        | FullCodeCharKind::StartStringCommented
        | FullCodeCharKind::InStringCommented
        | FullCodeCharKind::EndStringCommented => true,
        _ => false,
    }
}

pub open spec fn spec_inside_comment(k: FullCodeCharKind) -> bool {
    match k {
        FullCodeCharKind::InComment
        | FullCodeCharKind::StartStringCommented
        | FullCodeCharKind::InStringCommented
        | FullCodeCharKind::EndStringCommented => true,
        _ => false,
    }
}

pub open spec fn spec_to_codecharkind(k: FullCodeCharKind) -> CodeCharKind {
    if spec_is_comment(k) {
        CodeCharKind::Comment
    } else {
        CodeCharKind::Normal
    }
}

impl FullCodeCharKind {
    pub fn is_comment(self) -> (b: bool)
        ensures
            b == spec_is_comment(self),
    {
        match self {
            FullCodeCharKind::StartComment
            | FullCodeCharKind::InComment
            | FullCodeCharKind::EndComment
            | FullCodeCharKind::StartStringCommented
            | FullCodeCharKind::InStringCommented
            | FullCodeCharKind::EndStringCommented => true,
            _ => false,
        }
    }

    /// Returns true if the character is inside a comment
    pub fn inside_comment(self) -> (b: bool)
        ensures
            b == spec_inside_comment(self),
    {
        match self {
            FullCodeCharKind::InComment
            | FullCodeCharKind::StartStringCommented
            | FullCodeCharKind::InStringCommented
            | FullCodeCharKind::EndStringCommented => true,
            _ => false,
        }
    }

    pub fn to_codecharkind(self) -> (k: CodeCharKind)
        ensures
            k == spec_to_codecharkind(self),
    {
        if self.is_comment() {
            CodeCharKind::Comment
        } else {
            CodeCharKind::Normal
        }
    }
}

/// The character at `j`, if `s` has one there.
pub open spec fn peek_at(s: Seq<char>, j: int) -> Option<char> {
    if 0 <= j < s.len() {
        Some(s[j])
    } else {
        None
    }
}

/// Whether the `count` characters after position `i` exist and are all `#`.
pub open spec fn raw_suffix_at(s: Seq<char>, i: int, count: nat) -> bool {
    &&& i + 1 + count <= s.len()
    &&& forall|k: int| i + 1 <= k < i + 1 + count ==> s[k] == '#'
}

/// One step of the scanner: the kind of the character `s[i]` read in state `st`,
/// and the state after it. The scanner may look at the characters after `s[i]`.
pub open spec fn class_step(s: Seq<char>, i: int, st: CharClassesStatus) -> (
    FullCodeCharKind,
    CharClassesStatus,
) {
    let chr = s[i];
    match st {
        CharClassesStatus::LitRawString(sharps) => {
            if chr == '"' {
                if sharps == 0 {
                    (FullCodeCharKind::Normal, CharClassesStatus::Normal)
                } else if raw_suffix_at(s, i, sharps as nat) {
                    (FullCodeCharKind::InString, CharClassesStatus::RawStringSuffix(sharps))
                } else {
                    (FullCodeCharKind::InString, CharClassesStatus::LitRawString(sharps))
                }
            } else {
                (FullCodeCharKind::InString, CharClassesStatus::LitRawString(sharps))
            }
        },
        CharClassesStatus::RawStringPrefix(sharps) => {
            if chr == '#' {
                (FullCodeCharKind::InString, CharClassesStatus::RawStringPrefix((sharps + 1) as usize))
            } else if chr == '"' {
                (FullCodeCharKind::InString, CharClassesStatus::LitRawString(sharps))
            } else {
                (FullCodeCharKind::InString, CharClassesStatus::Normal)
            }
        },
        CharClassesStatus::RawStringSuffix(sharps) => {
            if chr == '#' {
                if sharps == 1 {
                    (FullCodeCharKind::Normal, CharClassesStatus::Normal)
                } else {
                    (FullCodeCharKind::InString, CharClassesStatus::RawStringSuffix((sharps - 1) as usize))
                }
            } else {
                (FullCodeCharKind::Normal, CharClassesStatus::Normal)
            }
        },
        CharClassesStatus::LitString => {
            if chr == '"' {
                (FullCodeCharKind::InString, CharClassesStatus::Normal)
            } else if chr == '\\' {
                (FullCodeCharKind::InString, CharClassesStatus::LitStringEscape)
            } else {
                (FullCodeCharKind::InString, CharClassesStatus::LitString)
            }
        },
        CharClassesStatus::LitStringEscape => (
            FullCodeCharKind::InString,
            CharClassesStatus::LitString,
        ),
        CharClassesStatus::LitChar => {
            if chr == '\\' {
                (FullCodeCharKind::Normal, CharClassesStatus::LitCharEscape)
            } else if chr == '\'' {
                (FullCodeCharKind::Normal, CharClassesStatus::Normal)
            } else {
                (FullCodeCharKind::Normal, CharClassesStatus::LitChar)
            }
        },
        CharClassesStatus::LitCharEscape => (FullCodeCharKind::Normal, CharClassesStatus::LitChar),
        CharClassesStatus::Normal => {
            if chr == 'r' {
                if peek_at(s, i + 1) == Some('#') || peek_at(s, i + 1) == Some('"') {
                    (FullCodeCharKind::InString, CharClassesStatus::RawStringPrefix(0))
                } else {
                    (FullCodeCharKind::Normal, CharClassesStatus::Normal)
                }
            } else if chr == '"' {
                (FullCodeCharKind::InString, CharClassesStatus::LitString)
            } else if chr == '\'' {
                if peek_at(s, i + 1) == Some('\\') || peek_at(s, i + 2) == Some('\'') {
                    (FullCodeCharKind::Normal, CharClassesStatus::LitChar)
                } else {
                    (FullCodeCharKind::Normal, CharClassesStatus::Normal)
                }
            } else if chr == '/' {
                if peek_at(s, i + 1) == Some('*') {
                    (FullCodeCharKind::StartComment, CharClassesStatus::BlockCommentOpening(1))
                } else if peek_at(s, i + 1) == Some('/') {
                    (FullCodeCharKind::StartComment, CharClassesStatus::LineComment)
                } else {
                    (FullCodeCharKind::Normal, CharClassesStatus::Normal)
                }
            } else {
                (FullCodeCharKind::Normal, CharClassesStatus::Normal)
            }
        },
        CharClassesStatus::StringInBlockComment(deepness) => {
            if chr == '"' {
                (FullCodeCharKind::InStringCommented, CharClassesStatus::BlockComment(deepness))
            } else if chr == '*' && peek_at(s, i + 1) == Some('/') {
                (FullCodeCharKind::InComment, CharClassesStatus::BlockCommentClosing((deepness - 1) as usize))
            } else {
                (FullCodeCharKind::InStringCommented, CharClassesStatus::StringInBlockComment(deepness))
            }
        },
        CharClassesStatus::BlockComment(deepness) => {
            if chr == '*' && peek_at(s, i + 1) == Some('/') {
                (FullCodeCharKind::InComment, CharClassesStatus::BlockCommentClosing((deepness - 1) as usize))
            } else if chr == '/' && peek_at(s, i + 1) == Some('*') {
                (FullCodeCharKind::InComment, CharClassesStatus::BlockCommentOpening((deepness + 1) as usize))
            } else if chr == '"' {
                (FullCodeCharKind::InComment, CharClassesStatus::StringInBlockComment(deepness))
            } else {
                (FullCodeCharKind::InComment, CharClassesStatus::BlockComment(deepness))
            }
        },
        CharClassesStatus::BlockCommentOpening(deepness) => (
            FullCodeCharKind::InComment,
            CharClassesStatus::BlockComment(deepness),
        ),
        CharClassesStatus::BlockCommentClosing(deepness) => {
            if deepness == 0 {
                (FullCodeCharKind::EndComment, CharClassesStatus::Normal)
            } else {
                (FullCodeCharKind::InComment, CharClassesStatus::BlockComment(deepness))
            }
        },
        CharClassesStatus::LineComment => {
            if chr == '\n' {
                (FullCodeCharKind::EndComment, CharClassesStatus::Normal)
            } else {
                (FullCodeCharKind::InComment, CharClassesStatus::LineComment)
            }
        },
    }
}

/// The scanner state before the character `s[i]` (after reading `s[..i]`).
pub open spec fn status_at(s: Seq<char>, i: nat) -> CharClassesStatus
    decreases i,
{
    if i == 0 {
        CharClassesStatus::Normal
    } else {
        class_step(s, i - 1, status_at(s, (i - 1) as nat)).1
    }
}

/// The kind of the character `s[i]` when `s` is scanned from its start.
pub open spec fn kind_at(s: Seq<char>, i: int) -> FullCodeCharKind {
    class_step(s, i, status_at(s, i as nat)).0
}

/// The kinds of all the characters of `s`.
pub open spec fn char_kinds(s: Seq<char>) -> Seq<FullCodeCharKind> {
    Seq::new(s.len(), |i: int| kind_at(s, i))
}

/// Bounds that every state reached after `i` characters satisfies.
pub open spec fn status_bounded(st: CharClassesStatus, i: nat) -> bool {
    match st {
        CharClassesStatus::LitRawString(n) => n <= i,
        CharClassesStatus::RawStringPrefix(n) => n <= i,
        CharClassesStatus::RawStringSuffix(n) => 1 <= n <= i,
        CharClassesStatus::BlockComment(d) => 1 <= d <= i,
        CharClassesStatus::StringInBlockComment(d) => 1 <= d <= i,
        CharClassesStatus::BlockCommentOpening(d) => 1 <= d <= i,
        CharClassesStatus::BlockCommentClosing(d) => d <= i,
        _ => true,
    }
}

pub proof fn lemma_status_bounded(s: Seq<char>, i: nat)
    requires
        i <= s.len(),
        s.len() <= usize::MAX,
    ensures
        status_bounded(status_at(s, i), i),
    decreases i,
{
    if i > 0 {
        lemma_status_bounded(s, (i - 1) as nat);
    }
}

/// Exec form of one scanner step.
fn class_step_exec(s: &Vec<char>, i: usize, st: CharClassesStatus) -> (r: (
    FullCodeCharKind,
    CharClassesStatus,
))
    requires
        i < s@.len(),
        status_bounded(st, i as nat),
    ensures
        r == class_step(s@, i as int, st),
{
    let chr = s[i];
    let n = s.len();
    let next: Option<char> = if i + 1 < n {
        Some(s[i + 1])
    } else {
        None
    };
    assert(next == peek_at(s@, i + 1));
    match st {
        CharClassesStatus::LitRawString(sharps) => {
            if chr == '"' {
                if sharps == 0 {
                    (FullCodeCharKind::Normal, CharClassesStatus::Normal)
                } else if is_raw_string_suffix(s, i, sharps) {
                    (FullCodeCharKind::InString, CharClassesStatus::RawStringSuffix(sharps))
                } else {
                    (FullCodeCharKind::InString, CharClassesStatus::LitRawString(sharps))
                }
            } else {
                (FullCodeCharKind::InString, CharClassesStatus::LitRawString(sharps))
            }
        },
        CharClassesStatus::RawStringPrefix(sharps) => {
            if chr == '#' {
                (FullCodeCharKind::InString, CharClassesStatus::RawStringPrefix(sharps + 1))
            } else if chr == '"' {
                (FullCodeCharKind::InString, CharClassesStatus::LitRawString(sharps))
            } else {
                (FullCodeCharKind::InString, CharClassesStatus::Normal)
            }
        },
        CharClassesStatus::RawStringSuffix(sharps) => {
            if chr == '#' {
                if sharps == 1 {
                    (FullCodeCharKind::Normal, CharClassesStatus::Normal)
                } else {
                    (FullCodeCharKind::InString, CharClassesStatus::RawStringSuffix(sharps - 1))
                }
            } else {
                (FullCodeCharKind::Normal, CharClassesStatus::Normal)
            }
        },
        CharClassesStatus::LitString => {
            if chr == '"' {
                (FullCodeCharKind::InString, CharClassesStatus::Normal)
            } else if chr == '\\' {
                (FullCodeCharKind::InString, CharClassesStatus::LitStringEscape)
            } else {
                (FullCodeCharKind::InString, CharClassesStatus::LitString)
            }
        },
        CharClassesStatus::LitStringEscape => (
            FullCodeCharKind::InString,
            CharClassesStatus::LitString,
        ),
        CharClassesStatus::LitChar => {
            if chr == '\\' {
                (FullCodeCharKind::Normal, CharClassesStatus::LitCharEscape)
            } else if chr == '\'' {
                (FullCodeCharKind::Normal, CharClassesStatus::Normal)
            } else {
                (FullCodeCharKind::Normal, CharClassesStatus::LitChar)
            }
        },
        CharClassesStatus::LitCharEscape => (FullCodeCharKind::Normal, CharClassesStatus::LitChar),
        CharClassesStatus::Normal => {
            if chr == 'r' {
                if next == Some('#') || next == Some('"') {
                    (FullCodeCharKind::InString, CharClassesStatus::RawStringPrefix(0))
                } else {
                    (FullCodeCharKind::Normal, CharClassesStatus::Normal)
                }
            } else if chr == '"' {
                (FullCodeCharKind::InString, CharClassesStatus::LitString)
            } else if chr == '\'' {
                let next2: Option<char> = if n - i > 2 {
                    Some(s[i + 2])
                } else {
                    None
                };
                assert(next2 == peek_at(s@, i + 2));
                if next == Some('\\') || next2 == Some('\'') {
                    (FullCodeCharKind::Normal, CharClassesStatus::LitChar)
                } else {
                    (FullCodeCharKind::Normal, CharClassesStatus::Normal)
                }
            } else if chr == '/' {
                if next == Some('*') {
                    (FullCodeCharKind::StartComment, CharClassesStatus::BlockCommentOpening(1))
                } else if next == Some('/') {
                    (FullCodeCharKind::StartComment, CharClassesStatus::LineComment)
                } else {
                    (FullCodeCharKind::Normal, CharClassesStatus::Normal)
                }
            } else {
                (FullCodeCharKind::Normal, CharClassesStatus::Normal)
            }
        },
        CharClassesStatus::StringInBlockComment(deepness) => {
            if chr == '"' {
                (FullCodeCharKind::InStringCommented, CharClassesStatus::BlockComment(deepness))
            } else if chr == '*' && next == Some('/') {
                (FullCodeCharKind::InComment, CharClassesStatus::BlockCommentClosing(deepness - 1))
            } else {
                (FullCodeCharKind::InStringCommented, CharClassesStatus::StringInBlockComment(deepness))
            }
        },
        CharClassesStatus::BlockComment(deepness) => {
            if chr == '*' && next == Some('/') {
                (FullCodeCharKind::InComment, CharClassesStatus::BlockCommentClosing(deepness - 1))
            } else if chr == '/' && next == Some('*') {
                (FullCodeCharKind::InComment, CharClassesStatus::BlockCommentOpening(deepness + 1))
            } else if chr == '"' {
                (FullCodeCharKind::InComment, CharClassesStatus::StringInBlockComment(deepness))
            } else {
                (FullCodeCharKind::InComment, CharClassesStatus::BlockComment(deepness))
            }
        },
        CharClassesStatus::BlockCommentOpening(deepness) => (
            FullCodeCharKind::InComment,
            CharClassesStatus::BlockComment(deepness),
        ),
        CharClassesStatus::BlockCommentClosing(deepness) => {
            if deepness == 0 {
                (FullCodeCharKind::EndComment, CharClassesStatus::Normal)
            } else {
                (FullCodeCharKind::InComment, CharClassesStatus::BlockComment(deepness))
            }
        },
        CharClassesStatus::LineComment => {
            if chr == '\n' {
                (FullCodeCharKind::EndComment, CharClassesStatus::Normal)
            } else {
                (FullCodeCharKind::InComment, CharClassesStatus::LineComment)
            }
        },
    }
}

/// Whether the `count` characters after position `i` exist and are all `#`.
fn is_raw_string_suffix(s: &Vec<char>, i: usize, count: usize) -> (b: bool)
    requires
        i < s@.len(),
    ensures
        b == raw_suffix_at(s@, i as int, count as nat),
{
    let mut k: usize = 0;
    while k < count
        invariant
            i < s@.len(),
            s@.len() == s.len(),
            k <= count,
            i + 1 + k <= s@.len(),
            forall|j: int| i + 1 <= j < i + 1 + k ==> s@[j] == '#',
        decreases count - k,
    {
        if i + 1 + k >= s.len() {
            return false;
        }
        if s[i + 1 + k] != '#' {
            return false;
        }
        k = k + 1;
    }
    true
}

/// The kinds of all the characters of `s`, as one scan from the start of `s` gives them.
pub fn classify_chars(s: &Vec<char>) -> (kinds: Vec<FullCodeCharKind>)
    ensures
        kinds@ == char_kinds(s@),
{
    let mut kinds: Vec<FullCodeCharKind> = Vec::new();
    let mut st = CharClassesStatus::Normal;
    let mut i: usize = 0;
    while i < s.len()
        invariant
            i <= s@.len(),
            s@.len() == s.len(),
            st == status_at(s@, i as nat),
            kinds@ =~= Seq::new(i as nat, |j: int| kind_at(s@, j)),
        decreases s.len() - i,
    {
        proof {
            lemma_status_bounded(s@, i as nat);
        }
        let (k, next_st) = class_step_exec(s, i, st);
        kinds.push(k);
        st = next_st;
        i = i + 1;
    }
    kinds
}

} // verus!

verus! {

/// An iterator over the characters of a text, each paired with its kind.
pub struct CharClasses {
    chars: Vec<char>,
    pos: usize,
    status: CharClassesStatus,
}

impl CharClasses {
    /// The text that is scanned.
    pub closed spec fn text(&self) -> Seq<char> {
        self.chars@
    }

    /// The number of characters handed out so far.
    pub closed spec fn position(&self) -> nat {
        self.pos as nat
    }

    pub closed spec fn wf(&self) -> bool {
        &&& self.pos <= self.chars@.len()
        &&& self.status == status_at(self.chars@, self.pos as nat)
    }

    pub fn new(s: &str) -> (r: CharClasses)
        ensures
            r.wf(),
            r.text() == s@,
            r.position() == 0,
    {
        CharClasses { chars: chars_of(s), pos: 0, status: CharClassesStatus::Normal }
    }

    /// The next character and its kind, or `None` at the end of the text.
    pub fn next(&mut self) -> (r: Option<(FullCodeCharKind, char)>)
        requires
            old(self).wf(),
        ensures
            final(self).wf(),
            final(self).text() == old(self).text(),
            old(self).position() < old(self).text().len() ==> {
                &&& r == Some(
                    (kind_at(old(self).text(), old(self).position() as int), old(self).text()[old(self).position() as int]),
                )
                &&& final(self).position() == old(self).position() + 1
            },
            old(self).position() >= old(self).text().len() ==> {
                &&& r is None
                &&& final(self).position() == old(self).position()
            },
    {
        if self.pos >= self.chars.len() {
            return None;
        }
        proof {
            lemma_status_bounded(self.chars@, self.pos as nat);
        }
        let (kind, st) = class_step_exec(&self.chars, self.pos, self.status);
        let c = self.chars[self.pos];
        self.status = st;
        self.pos = self.pos + 1;
        Some((kind, c))
    }
}

/// Whether a character of this kind is code (or string) for the pattern search.
pub open spec fn is_code_kind(k: FullCodeCharKind) -> bool {
    k == FullCodeCharKind::Normal || k == FullCodeCharKind::InString
}

/// The search behind `find_uncommented`: the needle advances while code characters match it
/// and starts again from its first character (without retrying the current character) on a
/// mismatch. The result is the character position at which the whole needle has been matched.
pub open spec fn uncommented_scan(s: Seq<char>, pat: Seq<char>, i: nat, k: nat) -> Option<nat>
    decreases s.len() - i,
{
    if k >= pat.len() {
        Some(i)
    } else if i >= s.len() {
        None
    } else if is_code_kind(kind_at(s, i as int)) && s[i as int] == pat[k as int] {
        uncommented_scan(s, pat, i + 1, k + 1)
    } else {
        uncommented_scan(s, pat, i + 1, 0)
    }
}

/// Soundness of the search: a reported position is where the needle occurs, in code.
pub proof fn lemma_uncommented_scan_sound(s: Seq<char>, pat: Seq<char>, i: nat, k: nat)
    requires
        k <= pat.len(),
        k <= i <= s.len(),
        s.subrange(i - k, i as int) == pat.take(k as int),
        forall|j: int| i - k <= j < i ==> is_code_kind(#[trigger] kind_at(s, j)),
    ensures
        uncommented_scan(s, pat, i, k) matches Some(e) ==> {
            &&& pat.len() <= e <= s.len()
            &&& s.subrange(e - pat.len(), e as int) == pat
            &&& forall|j: int| e - pat.len() <= j < e ==> is_code_kind(#[trigger] kind_at(s, j))
        },
    decreases s.len() - i,
{
    if k >= pat.len() {
        assert(pat.take(k as int) =~= pat);
    } else if i >= s.len() {
    } else if is_code_kind(kind_at(s, i as int)) && s[i as int] == pat[k as int] {
        assert(s.subrange(i - k, i + 1 as int) =~= pat.take(k + 1 as int));
        lemma_uncommented_scan_sound(s, pat, i + 1, k + 1);
    } else {
        assert(s.subrange(i + 1 as int, i + 1 as int) =~= pat.take(0));
        lemma_uncommented_scan_sound(s, pat, i + 1, 0);
    }
}

/// Returns `true` if text contains any comment.
pub fn contains_comment(text: &str) -> (b: bool)
    ensures
        b == exists|i: int| 0 <= i < text@.len() && spec_is_comment(#[trigger] kind_at(text@, i)),
{
    let chars = chars_of(text);
    let kinds = classify_chars(&chars);
    let mut i: usize = 0;
    while i < kinds.len()
        invariant
            chars@ == text@,
            kinds@ == char_kinds(text@),
            i <= kinds@.len(),
            forall|j: int| 0 <= j < i ==> !spec_is_comment(#[trigger] kind_at(text@, j)),
        decreases kinds.len() - i,
    {
        if kinds[i].is_comment() {
            return true;
        }
        i = i + 1;
    }
    false
}

/// Returns the first byte position after the first comment. The given string
/// is expected to be prefixed by a comment, including delimiters.
/// Good: `/* /* inner */ outer */ code();`
/// Bad:  `code(); // hello\n world!`
pub fn find_comment_end(s: &str) -> (r: Option<usize>)
    ensures
        (exists|i: int| 0 <= i < s@.len() && is_code_kind(#[trigger] kind_at(s@, i))) ==> (
        exists|i: int|
            {
                &&& 0 <= i < s@.len()
                &&& is_code_kind(#[trigger] kind_at(s@, i))
                &&& forall|j: int| 0 <= j < i ==> !is_code_kind(#[trigger] kind_at(s@, j))
                &&& r == Some(text::byte_len(s@.take(i)) as usize)
            }),
        (forall|i: int| 0 <= i < s@.len() ==> !is_code_kind(#[trigger] kind_at(s@, i))) ==> (r
            == if status_at(s@, s@.len()) == CharClassesStatus::Normal {
            Some(text::byte_len(s@) as usize)
        } else {
            None::<usize>
        }),
{
    let chars = chars_of(s);
    let mut iter = CharClasses { chars: chars_of(s), pos: 0, status: CharClassesStatus::Normal };
    let n = chars.len();
    let _total = crate::text::str_byte_len(s);
    while iter.pos < n
        invariant
            chars@ == s@,
            iter.wf(),
            iter.chars@ == s@,
            n == s@.len(),
            forall|j: int| 0 <= j < iter.pos ==> !is_code_kind(#[trigger] kind_at(s@, j)),
            text::byte_len(s@) <= usize::MAX,
        decreases n - iter.pos,
    {
        let p = iter.pos;
        let r = iter.next();
        if let Some((kind, _c)) = r {
            if kind == FullCodeCharKind::Normal || kind == FullCodeCharKind::InString {
                proof {
                    text::lemma_str_byte_len(s, 0, p as int);
                    assert(s@.take(p as int) =~= s@.subrange(0, p as int));
                }
                return Some(chars_byte_len(&chars, 0, p));
            }
        }
    }
    proof {
        text::lemma_str_byte_len(s, 0, n as int);
        assert(s@.subrange(0, n as int) =~= s@);
    }
    if iter.status == CharClassesStatus::Normal {
        Some(chars_byte_len(&chars, 0, n))
    } else {
        None
    }
}

} // verus!

verus! {

/// Character position where `find_uncommented` finds `pat` in `s`.
pub open spec fn first_uncommented(s: Seq<char>, pat: Seq<char>) -> Option<nat> {
    match uncommented_scan(s, pat, 0, 0) {
        Some(e) => Some((e - pat.len()) as nat),
        None => None,
    }
}

/// Character position that `find_last_uncommented` reports: starting from the first match,
/// the search repeats on the text after the first character of the last match found
/// (each time scanning that rest of the text afresh) until it finds nothing more.
pub open spec fn last_uncommented(s: Seq<char>, pat: Seq<char>) -> Option<nat>
    decreases s.len(), s.len() + 1,
{
    match first_uncommented(s, pat) {
        Some(r) => if r < s.len() {
            Some(last_uncommented_from(s, pat, r))
        } else {
            Some(r)
        },
        None => None,
    }
}

pub open spec fn last_uncommented_from(s: Seq<char>, pat: Seq<char>, r: nat) -> nat
    decreases s.len(), s.len() - r,
{
    if r >= s.len() {
        r
    } else {
        match last_uncommented(s.skip(r + 1 as int), pat) {
            Some(n) => if r + 1 + n < s.len() {
                last_uncommented_from(s, pat, r + 1 + n)
            } else {
                r
            },
            None => r,
        }
    }
}

/// The inputs on which `find_last_uncommented` returns without panicking: the search cuts the
/// text one byte after each match, so the needle must start with a one-byte character.
pub open spec fn find_last_uncommented_ok(s: Seq<char>, pat: Seq<char>) -> bool {
    &&& pat.len() > 0
    &&& (text::utf8_len(pat[0]) == 1 || first_uncommented(s, pat) is None)
}

pub proof fn lemma_scan_bounds(s: Seq<char>, pat: Seq<char>, i: nat, k: nat)
    requires
        k <= i <= s.len(),
        k <= pat.len(),
    ensures
        uncommented_scan(s, pat, i, k) matches Some(e) ==> pat.len() <= e <= s.len() && e >= i,
    decreases s.len() - i,
{
    if k >= pat.len() {
    } else if i >= s.len() {
    } else if is_code_kind(kind_at(s, i as int)) && s[i as int] == pat[k as int] {
        lemma_scan_bounds(s, pat, i + 1, k + 1);
    } else {
        lemma_scan_bounds(s, pat, i + 1, 0);
    }
}

/// The character position of the first match of `pat` in code, in character units.
fn first_uncommented_chars(chars: &Vec<char>, pv: &Vec<char>) -> (r: Option<usize>)
    ensures
        r matches Some(p) ==> first_uncommented(chars@, pv@) == Some(p as nat),
        r is None <==> first_uncommented(chars@, pv@) is None,
        r matches Some(p) ==> p + pv@.len() <= chars@.len() && chars@.subrange(p as int, p + pv@.len()) == pv@,
{
    let kinds = classify_chars(chars);
    let n = chars.len();
    let m = pv.len();
    let mut i: usize = 0;
    let mut k: usize = 0;
    proof {
        assert(chars@.subrange(0, 0) =~= pv@.take(0));
    }
    while i < n && k < m
        invariant
            kinds@ == char_kinds(chars@),
            n == chars@.len(),
            m == pv@.len(),
            k <= m,
            k <= i <= n,
            uncommented_scan(chars@, pv@, i as nat, k as nat) == uncommented_scan(chars@, pv@, 0, 0),
            chars@.subrange(i - k, i as int) == pv@.take(k as int),
        decreases n - i,
    {
        if (kinds[i] == FullCodeCharKind::Normal || kinds[i] == FullCodeCharKind::InString)
            && chars[i] == pv[k] {
            proof {
                assert(chars@.subrange(i - k, i + 1) =~= pv@.take(k + 1));
            }
            k = k + 1;
        } else {
            proof {
                assert(chars@.subrange(i + 1, i + 1) =~= pv@.take(0));
            }
            k = 0;
        }
        i = i + 1;
    }
    if k < m {
        return None;
    }
    proof {
        assert(pv@.take(m as int) =~= pv@);
    }
    Some(i - k)
}

/// `chars[from..]` as a vector.
fn tail_of(chars: &Vec<char>, from: usize) -> (t: Vec<char>)
    requires
        from <= chars@.len(),
    ensures
        t@ == chars@.skip(from as int),
{
    let mut t: Vec<char> = Vec::new();
    let mut i = from;
    while i < chars.len()
        invariant
            from <= i <= chars@.len(),
            t@ == chars@.subrange(from as int, i as int),
        decreases chars.len() - i,
    {
        t.push(chars[i]);
        assert(t@ =~= chars@.subrange(from as int, i + 1));
        i = i + 1;
    }
    assert(t@ =~= chars@.skip(from as int));
    t
}

fn last_uncommented_chars(chars: &Vec<char>, pv: &Vec<char>) -> (r: Option<usize>)
    requires
        pv@.len() > 0,
        text::utf8_len(pv@[0]) == 1 || first_uncommented(chars@, pv@) is None,
    ensures
        r matches Some(p) ==> last_uncommented(chars@, pv@) == Some(p as nat) && p < chars@.len()
            && chars@[p as int] == pv@[0],
        r is None <==> last_uncommented(chars@, pv@) is None,
    decreases chars@.len(),
{
    match first_uncommented_chars(chars, pv) {
        None => None,
        Some(first) => {
            let mut r = first;
            assert(chars@[r as int] == pv@[0]) by {
                assert(chars@.subrange(r as int, r + pv@.len())[0] == pv@[0]);
            }
            while r < chars.len()
                invariant
                    r < chars@.len(),
                    first < chars@.len(),
                    first_uncommented(chars@, pv@) == Some(first as nat),
                    chars@[r as int] == pv@[0],
                    text::utf8_len(pv@[0]) == 1,
                    pv@.len() > 0,
                    last_uncommented_from(chars@, pv@, r as nat) == last_uncommented_from(
                        chars@,
                        pv@,
                        first as nat,
                    ),
                decreases chars.len() - r,
            {
                let rest = tail_of(chars, r + 1);
                match last_uncommented_chars(&rest, pv) {
                    None => {
                        proof {
                            assert(last_uncommented_from(chars@, pv@, r as nat) == r);
                            assert(last_uncommented(chars@, pv@) == Some(
                                last_uncommented_from(chars@, pv@, first as nat),
                            ));
                        }
                        return Some(r);
                    },
                    Some(n) => {
                        proof {
                            assert(rest@[n as int] == chars@[r + 1 + n]);
                        }
                        r = r + 1 + n;
                    },
                }
            }
            None
        },
    }
}

} // verus!

verus! {

/// The byte offset that `find_uncommented` reports: where the match starts.
pub open spec fn spec_find_uncommented(s: Seq<char>, pat: Seq<char>) -> Option<int> {
    match first_uncommented(s, pat) {
        Some(p) => Some(text::byte_len(s.take(p as int)) as int),
        None => None,
    }
}

/// The byte offset that `find_last_uncommented` reports.
pub open spec fn spec_find_last_uncommented(s: Seq<char>, pat: Seq<char>) -> Option<int> {
    match last_uncommented(s, pat) {
        Some(p) => Some(text::byte_len(s.take(p as int)) as int),
        None => None,
    }
}

/// Byte offset of the character position `p` of `s`.
fn byte_offset(s: &str, chars: &Vec<char>, p: usize) -> (b: usize)
    requires
        chars@ == s@,
        p <= chars@.len(),
    ensures
        b == text::byte_len(s@.take(p as int)),
{
    let _total = crate::text::str_byte_len(s);
    proof {
        text::lemma_str_byte_len(s, 0, p as int);
        assert(s@.take(p as int) =~= s@.subrange(0, p as int));
    }
    chars_byte_len(chars, 0, p)
}

/// Finds `pat` in `s` outside of comments; the result is a byte offset.
pub fn find_uncommented(s: &str, pat: &str) -> (r: Option<usize>)
    ensures
        r matches Some(p) ==> spec_find_uncommented(s@, pat@) == Some(p as int),
        r is None <==> spec_find_uncommented(s@, pat@) is None,
{
    let chars = chars_of(s);
    let pv = chars_of(pat);
    match first_uncommented_chars(&chars, &pv) {
        Some(p) => Some(byte_offset(s, &chars, p)),
        None => None,
    }
}

/// Finds the last match of `pat` in `s` outside of comments; the result is a byte offset.
pub fn find_last_uncommented(s: &str, pat: &str) -> (r: Option<usize>)
    requires
        find_last_uncommented_ok(s@, pat@),
    ensures
        r matches Some(p) ==> spec_find_last_uncommented(s@, pat@) == Some(p as int),
        r is None <==> spec_find_last_uncommented(s@, pat@) is None,
{
    let chars = chars_of(s);
    let pv = chars_of(pat);
    match last_uncommented_chars(&chars, &pv) {
        Some(p) => Some(byte_offset(s, &chars, p)),
        None => None,
    }
}

/// Search for a pattern outside of comments.
pub trait FindUncommented: View<V = Seq<char>> {
    fn find_uncommented(&self, pat: &str) -> Option<usize>;

    fn find_last_uncommented(&self, pat: &str) -> Option<usize>
        requires
            find_last_uncommented_ok(self@, pat@),
    ;
}

impl FindUncommented for str {
    fn find_uncommented(&self, pat: &str) -> (r: Option<usize>)
        ensures
            r matches Some(p) ==> spec_find_uncommented(self@, pat@) == Some(p as int),
            r is None <==> spec_find_uncommented(self@, pat@) is None,
    {
        find_uncommented(self, pat)
    }

    fn find_last_uncommented(&self, pat: &str) -> (r: Option<usize>)
        ensures
            r matches Some(p) ==> spec_find_last_uncommented(self@, pat@) == Some(p as int),
            r is None <==> spec_find_last_uncommented(self@, pat@) is None,
    {
        find_last_uncommented(self, pat)
    }
}

} // verus!

verus! {

/// States in which the scanner is outside of any comment.
pub open spec fn is_code_status(st: CharClassesStatus) -> bool {
    match st {
        CharClassesStatus::BlockComment(_)
        | CharClassesStatus::StringInBlockComment(_)
        | CharClassesStatus::BlockCommentOpening(_)
        | CharClassesStatus::BlockCommentClosing(_)
        | CharClassesStatus::LineComment => false,
        _ => true,
    }
}

/// Until the first comment character, the scanner stays outside of comments, and the first
/// comment character opens a comment with `//` or `/*`.
pub proof fn lemma_first_comment(s: Seq<char>, i: nat)
    requires
        i <= s.len(),
        forall|j: int| 0 <= j < i ==> !spec_is_comment(#[trigger] kind_at(s, j)),
    ensures
        is_code_status(status_at(s, i)),
        i < s.len() && spec_is_comment(kind_at(s, i as int)) ==> {
            &&& kind_at(s, i as int) == FullCodeCharKind::StartComment
            &&& s[i as int] == '/'
            &&& i + 1 < s.len()
            &&& (s[i + 1 as int] == '/' || s[i + 1 as int] == '*')
        },
    decreases i,
{
    if i > 0 {
        lemma_first_comment(s, (i - 1) as nat);
        assert(!spec_is_comment(kind_at(s, i - 1)));
    }
}

/// Whether the comment slice that starts at `start` is made of line comments.
pub open spec fn connector_mode(s: Seq<char>, start: int, last: CodeCharKind) -> bool {
    last == CodeCharKind::Normal && text::has_prefix_at(s, start, seq!['/', '/'])
}

/// A space or tab that may join line comments into one comment slice.
pub open spec fn is_connector(mode: bool, c: char) -> bool {
    mode && (c == ' ' || c == '\t')
}

/// The scan behind `CommentCodeSlices::next` over the rest `sub` of the text: returns whether
/// it stopped early, where it stopped, the relative end it found, and the start of the run of
/// joining whitespace at that point.
pub open spec fn slice_end_scan(
    sub: Seq<char>,
    mode: bool,
    last: CodeCharKind,
    i: nat,
    fw: Option<nat>,
) -> (bool, nat, nat, Option<nat>)
    decreases sub.len() - i,
{
    if i >= sub.len() {
        (false, i, 0, fw)
    } else {
        let conn = is_connector(mode, sub[i as int]);
        let fw1 = if conn && fw is None {
            Some(i)
        } else {
            fw
        };
        if spec_to_codecharkind(kind_at(sub, i as int)) == last && !conn {
            (
                true,
                i,
                match fw1 {
                    Some(j) => j,
                    None => i,
                },
                fw1,
            )
        } else {
            slice_end_scan(
                sub,
                mode,
                last,
                i + 1,
                if !conn {
                    None
                } else {
                    fw1
                },
            )
        }
    }
}

/// The length of the slice that `CommentCodeSlices::next` cuts at `start`.
pub open spec fn next_slice_len(s: Seq<char>, start: nat, last: CodeCharKind) -> nat {
    let sub = s.skip(start as int);
    let r = slice_end_scan(sub, connector_mode(s, start as int, last), last, 0, None);
    let exhausted = !r.0 || r.1 + 1 >= sub.len();
    if exhausted && r.2 == 0 {
        match r.3 {
            Some(j) => j,
            None => sub.len(),
        }
    } else {
        r.2
    }
}

pub open spec fn flip_kind(k: CodeCharKind) -> CodeCharKind {
    match k {
        CodeCharKind::Comment => CodeCharKind::Normal,
        CodeCharKind::Normal => CodeCharKind::Comment,
    }
}

pub proof fn lemma_slice_end_scan_bounds(
    sub: Seq<char>,
    mode: bool,
    last: CodeCharKind,
    i: nat,
    fw: Option<nat>,
)
    requires
        i <= sub.len(),
        fw matches Some(j) ==> j <= i,
    ensures
        ({
            let r = slice_end_scan(sub, mode, last, i, fw);
            &&& r.1 <= sub.len()
            &&& r.2 <= r.1
            &&& (r.0 ==> r.1 < sub.len())
            &&& (r.3 matches Some(j) ==> j <= r.1)
            &&& (!r.0 ==> r.2 == 0)
        }),
    decreases sub.len() - i,
{
    if i < sub.len() {
        let conn = is_connector(mode, sub[i as int]);
        let fw1 = if conn && fw is None {
            Some(i)
        } else {
            fw
        };
        if !(spec_to_codecharkind(kind_at(sub, i as int)) == last && !conn) {
            lemma_slice_end_scan_bounds(
                sub,
                mode,
                last,
                i + 1,
                if !conn {
                    None
                } else {
                    fw1
                },
            );
        }
    }
}

/// While cutting a code slice, the scan stops at the first comment character.
#[verifier::spinoff_prover]
#[verifier::rlimit(40)]
pub proof fn lemma_slice_end_scan_code(sub: Seq<char>, i: nat)
    requires
        i <= sub.len(),
        forall|j: int| 0 <= j < i ==> !spec_is_comment(#[trigger] kind_at(sub, j)),
    ensures
        ({
            let r = slice_end_scan(sub, false, CodeCharKind::Comment, i, None);
            &&& r.3 is None
            &&& r.0 ==> r.2 == r.1 && spec_is_comment(kind_at(sub, r.1 as int))
            &&& forall|j: int| 0 <= j < r.1 ==> !spec_is_comment(#[trigger] kind_at(sub, j))
        }),
    decreases sub.len() - i,
{
    if i < sub.len() {
        if !spec_is_comment(kind_at(sub, i as int)) {
            lemma_slice_end_scan_code(sub, i + 1);
        }
    }
}

/// Iterator over the alternating code and comment slices of a text.
pub struct CommentCodeSlices<'a> {
    slice: &'a str,
    chars: Vec<char>,
    last_slice_kind: CodeCharKind,
    last_slice_end: usize,
}

impl<'a> CommentCodeSlices<'a> {
    pub closed spec fn text(&self) -> Seq<char> {
        self.slice@
    }

    /// Character position where the next slice starts.
    pub closed spec fn end(&self) -> nat {
        self.last_slice_end as nat
    }

    /// Kind of the slice handed out last (`Comment` before the first one).
    pub closed spec fn last_kind(&self) -> CodeCharKind {
        self.last_slice_kind
    }

    pub closed spec fn wf(&self) -> bool {
        &&& self.chars@ == self.slice@
        &&& self.last_slice_end <= self.chars@.len()
        &&& (self.last_slice_kind == CodeCharKind::Normal && self.last_slice_end
            < self.chars@.len()) ==> (text::has_prefix_at(
            self.chars@,
            self.last_slice_end as int,
            seq!['/', '/'],
        ) || text::has_prefix_at(self.chars@, self.last_slice_end as int, seq!['/', '*']))
    }

    pub fn new(slice: &'a str) -> (r: CommentCodeSlices<'a>)
        ensures
            r.wf(),
            r.text() == slice@,
            r.end() == 0,
            r.last_kind() == CodeCharKind::Comment,
    {
        CommentCodeSlices {
            slice,
            chars: chars_of(slice),
            last_slice_kind: CodeCharKind::Comment,
            last_slice_end: 0,
        }
    }

    /// The next slice: its kind, its byte offset in the text and its text.
    pub fn next(&mut self) -> (r: Option<(CodeCharKind, usize, &'a str)>)
        requires
            old(self).wf(),
        ensures
            final(self).wf(),
            final(self).text() == old(self).text(),
            old(self).end() == old(self).text().len() ==> r is None && *final(self) == *old(self),
            old(self).end() < old(self).text().len() ==> {
                let len = next_slice_len(old(self).text(), old(self).end(), old(self).last_kind());
                let kind = flip_kind(old(self).last_kind());
                &&& old(self).end() + len <= old(self).text().len()
                &&& r matches Some(t) && t.0 == kind && t.1 == text::byte_len(
                    old(self).text().take(old(self).end() as int),
                ) && t.2@ == old(self).text().subrange(
                    old(self).end() as int,
                    old(self).end() + len as int,
                )
                &&& final(self).end() == old(self).end() + len
                &&& final(self).last_kind() == kind
            },
    {
        let n = self.chars.len();
        if self.last_slice_end == n {
            return None;
        }
        let start = self.last_slice_end;
        let last = self.last_slice_kind;
        let sub = tail_of(&self.chars, start);
        let kinds = classify_chars(&sub);
        let mode = last == CodeCharKind::Normal && crate::text::starts_with_at(&self.chars, start, "//");
        proof {
            reveal_strlit("//");
            assert("//"@ =~= seq!['/', '/']);
            assert(mode == connector_mode(self.chars@, start as int, last));
        }
        let m = sub.len();
        let mut i: usize = 0;
        let mut fw: Option<usize> = None;
        let mut broke = false;
        let mut end_rel: usize = 0;
        while i < m
            invariant_except_break
                sub@ == self.chars@.skip(start as int),
                kinds@ == char_kinds(sub@),
                m == sub@.len(),
                i <= m,
                fw matches Some(j) ==> j <= i,
                !broke,
                end_rel == 0,
                slice_end_scan(sub@, mode, last, i as nat, match fw {
                    Some(j) => Some(j as nat),
                    None => None,
                }) == slice_end_scan(sub@, mode, last, 0, None),
            ensures
                i <= m,
                fw matches Some(j) ==> j <= i,
                slice_end_scan(sub@, mode, last, 0, None) == (
                    broke,
                    i as nat,
                    end_rel as nat,
                    match fw {
                        Some(j) => Some(j as nat),
                        None => None,
                    },
                ),
            decreases m - i,
        {
            let c = sub[i];
            let conn = mode && (c == ' ' || c == '\t');
            if conn && fw.is_none() {
                fw = Some(i);
            }
            if kinds[i].to_codecharkind() == last && !conn {
                end_rel = match fw {
                    Some(j) => j,
                    None => i,
                };
                broke = true;
                break;
            }
            if !conn {
                fw = None;
            }
            i = i + 1;
        }
        proof {
            lemma_slice_end_scan_bounds(sub@, mode, last, 0, None);
        }
        let exhausted = !broke || i + 1 >= m;
        if exhausted && end_rel == 0 {
            end_rel = match fw {
                Some(j) => j,
                None => m,
            };
        }
        let kind = match last {
            CodeCharKind::Comment => CodeCharKind::Normal,
            CodeCharKind::Normal => CodeCharKind::Comment,
        };
        proof {
            if last == CodeCharKind::Comment {
                lemma_slice_end_scan_code(sub@, 0);
                let r = slice_end_scan(sub@, false, CodeCharKind::Comment, 0, None);
                if r.0 {
                    lemma_first_comment(sub@, r.1);
                    assert(self.chars@.subrange(start + end_rel, start + end_rel + 2) =~= sub@.subrange(
                        end_rel as int,
                        end_rel + 2,
                    ));
                    assert(sub@.subrange(end_rel as int, end_rel + 2) =~= seq!['/', '/']
                        || sub@.subrange(end_rel as int, end_rel + 2) =~= seq!['/', '*']);
                }
            }
        }
        let offset = byte_offset(self.slice, &self.chars, start);
        let piece = self.slice.substring_char(start, start + end_rel);
        self.last_slice_end = start + end_rel;
        self.last_slice_kind = kind;
        Some((kind, offset, piece))
    }
}

/// The characters of a text whose kinds start or end a comment: a comment starts at a `/`,
/// and ends at the line feed of a line comment or at the `/` that closes a block comment.
pub proof fn law_char_classes_kinds(s: Seq<char>)
    ensures
        forall|i: int|
            0 <= i < s.len() ==> (#[trigger] kind_at(s, i) == FullCodeCharKind::StartComment ==> s[i] == '/') && (
            kind_at(s, i) == FullCodeCharKind::EndComment ==> s[i] == '\n' || s[i] == '/'),
{
    assert forall|i: int| 0 <= i < s.len() implies (#[trigger] kind_at(s, i) == FullCodeCharKind::StartComment
        ==> s[i] == '/') && (kind_at(s, i) == FullCodeCharKind::EndComment ==> s[i] == '\n' || s[i]
        == '/') by {
        if i > 0 {
            assert(status_at(s, i as nat) == class_step(s, i - 1, status_at(s, (i - 1) as nat)).1);
        }
    }
}

/// Every character of `s` with its kind, in order, as iterating `CharClasses` over `s` to its
/// end hands them out: the iteration ends, after exactly one item per character.
pub fn char_classes_of(s: &str) -> (r: Vec<(FullCodeCharKind, char)>)
    ensures
        r@.len() == s@.len(),
        forall|i: int| 0 <= i < r@.len() ==> #[trigger] r@[i] == (kind_at(s@, i), s@[i]),
{
    let mut it = CharClasses::new(s);
    let mut r: Vec<(FullCodeCharKind, char)> = Vec::new();
    loop
        invariant
            it.wf(),
            it.text() == s@,
            r@.len() == it.position(),
            forall|i: int| 0 <= i < r@.len() ==> #[trigger] r@[i] == (kind_at(s@, i), s@[i]),
        ensures
            r@.len() == s@.len(),
            forall|i: int| 0 <= i < r@.len() ==> #[trigger] r@[i] == (kind_at(s@, i), s@[i]),
        decreases s@.len() - it.position(),
    {
        match it.next() {
            Some(x) => {
                r.push(x);
            },
            None => {
                break;
            },
        }
    }
    r
}

proof fn lemma_scan_end_positive(sub: Seq<char>, mode: bool, last: CodeCharKind, i: nat, fw: Option<nat>)
    requires
        i >= 1,
        fw matches Some(j) ==> j >= 1,
    ensures
        ({
            let r = slice_end_scan(sub, mode, last, i, fw);
            &&& r.0 ==> r.2 >= 1
            &&& r.3 matches Some(j) ==> j >= 1
        }),
    decreases sub.len() - i,
{
    if i < sub.len() {
        let conn = is_connector(mode, sub[i as int]);
        let fw1 = if conn && fw is None {
            Some(i)
        } else {
            fw
        };
        if !(spec_to_codecharkind(kind_at(sub, i as int)) == last && !conn) {
            lemma_scan_end_positive(sub, mode, last, i + 1, if !conn {
                None
            } else {
                fw1
            });
        }
    }
}

/// A comment slice is never empty: at a `//` or `/*` the slice after a code slice holds at
/// least one character.
pub proof fn lemma_comment_slice_nonempty(s: Seq<char>, start: nat)
    requires
        start < s.len(),
        text::has_prefix_at(s, start as int, seq!['/', '/']) || text::has_prefix_at(
            s,
            start as int,
            seq!['/', '*'],
        ),
    ensures
        next_slice_len(s, start, CodeCharKind::Normal) >= 1,
{
    let sub = s.skip(start as int);
    let mode = connector_mode(s, start as int, CodeCharKind::Normal);
    assert(sub[0] == s[start as int]);
    assert(sub[0] == '/') by {
        assert(s.subrange(start as int, start + 2 as int)[0] == s[start as int]);
    }
    assert(sub[1] == '/' || sub[1] == '*') by {
        assert(s.subrange(start as int, start + 2 as int)[1] == s[start + 1 as int]);
    }
    assert(kind_at(sub, 0) == FullCodeCharKind::StartComment);
    assert(!is_connector(mode, sub[0]));
    assert(slice_end_scan(sub, mode, CodeCharKind::Normal, 0, None) == slice_end_scan(
        sub,
        mode,
        CodeCharKind::Normal,
        1,
        None,
    ));
    lemma_scan_end_positive(sub, mode, CodeCharKind::Normal, 1, None);
    lemma_slice_end_scan_bounds(sub, mode, CodeCharKind::Normal, 0, None);
}

/// The slices as values: kind, byte offset and text.
pub open spec fn code_slices_view(v: Seq<(CodeCharKind, usize, &str)>) -> Seq<(CodeCharKind, usize, Seq<char>)> {
    Seq::new(v.len(), |i: int| (v[i].0, v[i].1, v[i].2@))
}

/// The texts of slices, one after another.
pub open spec fn slices_text(v: Seq<(CodeCharKind, usize, Seq<char>)>) -> Seq<char>
    decreases v.len(),
{
    if v.len() == 0 {
        Seq::empty()
    } else {
        slices_text(v.drop_last()) + v.last().2
    }
}

/// Slices that cut the first `end` characters of `s`: put together they give `s[..end]`; they
/// alternate between code and comment, starting with code; the offset of each is the byte
/// length of the slices before it; and no comment slice is empty.
pub open spec fn slices_cut(v: Seq<(CodeCharKind, usize, Seq<char>)>, s: Seq<char>, end: nat) -> bool {
    &&& slices_text(v) == s.take(end as int)
    &&& forall|i: int| 0 <= i < v.len() ==> #[trigger] v[i].0 == if i % 2 == 0 {
        CodeCharKind::Normal
    } else {
        CodeCharKind::Comment
    }
    &&& forall|i: int| 0 <= i < v.len() ==> #[trigger] v[i].1 == text::byte_len(slices_text(v.take(i)))
    &&& forall|i: int| 0 <= i < v.len() && #[trigger] v[i].0 == CodeCharKind::Comment ==> v[i].2.len() > 0
}

proof fn lemma_slices_cut_push(
    v: Seq<(CodeCharKind, usize, Seq<char>)>,
    x: (CodeCharKind, usize, Seq<char>),
    s: Seq<char>,
    end: nat,
    new_end: nat,
)
    requires
        slices_cut(v, s, end),
        end <= new_end <= s.len(),
        x.0 == if v.len() % 2 == 0 {
            CodeCharKind::Normal
        } else {
            CodeCharKind::Comment
        },
        x.1 == text::byte_len(s.take(end as int)),
        x.2 == s.subrange(end as int, new_end as int),
        x.0 == CodeCharKind::Comment ==> new_end > end,
    ensures
        slices_cut(v.push(x), s, new_end),
{
    let w = v.push(x);
    assert(w.drop_last() =~= v);
    assert(s.take(new_end as int) =~= s.take(end as int) + x.2);
    assert(w.take(v.len() as int) =~= v);
    assert forall|i: int| 0 <= i < v.len() implies #[trigger] w.take(i) =~= v.take(i) by {}
    assert forall|i: int| 0 <= i < w.len() implies #[trigger] w[i].1 == text::byte_len(slices_text(w.take(i))) by {
        if i < v.len() {
            assert(w.take(i) =~= v.take(i));
        }
    }
}

/// Repeated calls of `CommentCodeSlices::next` cut the text into slices: where the slices
/// handed out so far cut the text up to where the iterator stands (see `slices_cut`), the slice
/// that the next call hands out (its kind, offset and text as `next` states them) extends the
/// cut to where the iterator stands after the call. Since no comment slice is empty, the calls
/// move on and reach the end of the text. (The byte length of the text fits in `usize`, as that
/// of any `str` does.)
pub proof fn law_next_extends_cut<'a>(
    it: CommentCodeSlices<'a>,
    v: Seq<(CodeCharKind, usize, Seq<char>)>,
)
    requires
        it.wf(),
        slices_cut(v, it.text(), it.end()),
        it.last_kind() == if v.len() % 2 == 0 {
            CodeCharKind::Comment
        } else {
            CodeCharKind::Normal
        },
        it.end() < it.text().len(),
        text::byte_len(it.text()) <= usize::MAX,
    ensures
        ({
            let s = it.text();
            let end = it.end();
            let last = it.last_kind();
            let len = next_slice_len(s, end, last);
            &&& end + len <= s.len()
            &&& last == CodeCharKind::Normal ==> len >= 1
            &&& slices_cut(
                v.push(
                    (
                        flip_kind(last),
                        text::byte_len(s.take(end as int)) as usize,
                        s.subrange(end as int, end + len as int),
                    ),
                ),
                s,
                end + len,
            )
        }),
{
    let s = it.text();
    let end = it.end();
    let last = it.last_kind();
    let sub = s.skip(end as int);
    text::lemma_byte_len_mono(s, end as int, end as int);
    lemma_slice_end_scan_bounds(sub, connector_mode(s, end as int, last), last, 0, None);
    if last == CodeCharKind::Normal {
        lemma_comment_slice_nonempty(s, end);
    }
    let len = next_slice_len(s, end, last);
    lemma_slices_cut_push(
        v,
        (
            flip_kind(last),
            text::byte_len(s.take(end as int)) as usize,
            s.subrange(end as int, end + len as int),
        ),
        s,
        end,
        end + len,
    );
}

/// All the slices of `s` as iterating `CommentCodeSlices` over `s` to its end hands them out:
/// they cut all of `s` (see `slices_cut`), and since no comment slice is empty, the iteration
/// ends.
#[verifier::spinoff_prover]
pub fn code_comment_slices<'a>(s: &'a str) -> (r: Vec<(CodeCharKind, usize, &'a str)>)
    ensures
        slices_cut(code_slices_view(r@), s@, s@.len()),
{
    let mut it = CommentCodeSlices::new(s);
    let mut r: Vec<(CodeCharKind, usize, &'a str)> = Vec::new();
    proof {
        assert(s@.take(0) =~= Seq::<char>::empty());
        assert(code_slices_view(r@) =~= Seq::<(CodeCharKind, usize, Seq<char>)>::empty());
    }
    loop
        invariant
            it.wf(),
            it.text() == s@,
            slices_cut(code_slices_view(r@), s@, it.end()),
            it.last_kind() == if r@.len() % 2 == 0 {
                CodeCharKind::Comment
            } else {
                CodeCharKind::Normal
            },
        ensures
            slices_cut(code_slices_view(r@), s@, s@.len()),
        decreases s@.len() - it.end(), (if it.last_kind() == CodeCharKind::Comment {
            1int
        } else {
            0int
        }),
    {
        let ghost old_end = it.end();
        let ghost old_last = it.last_kind();
        let ghost old_view = code_slices_view(r@);
        proof {
            if old_last == CodeCharKind::Normal && old_end < s@.len() {
                lemma_comment_slice_nonempty(s@, old_end);
            }
        }
        match it.next() {
            Some(x) => {
                proof {
                    lemma_slices_cut_push(old_view, (x.0, x.1, x.2@), s@, old_end, it.end());
                    assert(code_slices_view(r@.push(x)) =~= old_view.push((x.0, x.1, x.2@)));
                }
                r.push(x);
            },
            None => {
                break;
            },
        }
    }
    r
}

} // verus!

verus! {

/// Position of the first `'\n'` at or after `a`, or the end of `s`.
pub open spec fn line_end(s: Seq<char>, a: nat) -> nat
    decreases s.len() - a,
{
    if a >= s.len() {
        s.len()
    } else if s[a as int] == '\n' {
        a
    } else {
        line_end(s, a + 1)
    }
}

/// The kind given to a line that starts with a character of kind `start` and ends with a line
/// feed of kind `at_newline`.
pub open spec fn newline_kind(start: FullCodeCharKind, at_newline: FullCodeCharKind) -> FullCodeCharKind {
    if start == FullCodeCharKind::Normal && at_newline == FullCodeCharKind::InString {
        FullCodeCharKind::StartString
    } else if start == FullCodeCharKind::InString && at_newline == FullCodeCharKind::Normal {
        FullCodeCharKind::EndString
    } else if start == FullCodeCharKind::InComment && at_newline
        == FullCodeCharKind::InStringCommented {
        FullCodeCharKind::StartStringCommented
    } else if start == FullCodeCharKind::InStringCommented && at_newline
        == FullCodeCharKind::InComment {
        FullCodeCharKind::EndStringCommented
    } else {
        at_newline
    }
}

/// The kind that `LineClasses` reports for the line starting at `a` (`a < s.len()`).
pub open spec fn line_kind(s: Seq<char>, a: nat) -> FullCodeCharKind {
    let e = line_end(s, a);
    if e < s.len() {
        newline_kind(kind_at(s, a as int), kind_at(s, e as int))
    } else {
        kind_at(s, s.len() - 1)
    }
}

/// The text of the line starting at `a`, without its line feed and without a final `'\r'`.
pub open spec fn line_text(s: Seq<char>, a: nat) -> Seq<char> {
    let t = s.subrange(a as int, line_end(s, a) as int);
    if t.len() > 0 && t.last() == '\r' {
        t.drop_last()
    } else {
        t
    }
}

pub proof fn lemma_line_end_bounds(s: Seq<char>, a: nat)
    requires
        a <= s.len(),
    ensures
        a <= line_end(s, a) <= s.len(),
        line_end(s, a) < s.len() ==> s[line_end(s, a) as int] == '\n',
        forall|j: int| a <= j < line_end(s, a) ==> s[j] != '\n',
    decreases s.len() - a,
{
    if a < s.len() && s[a as int] != '\n' {
        lemma_line_end_bounds(s, a + 1);
    }
}

/// An iterator over the lines of a string, paired with the char kind at the end of the line.
pub struct LineClasses {
    chars: Vec<char>,
    kinds: Vec<FullCodeCharKind>,
    pos: usize,
}

impl LineClasses {
    pub closed spec fn text(&self) -> Seq<char> {
        self.chars@
    }

    /// Character position where the next line starts.
    pub closed spec fn position(&self) -> nat {
        self.pos as nat
    }

    pub closed spec fn wf(&self) -> bool {
        &&& self.kinds@ == char_kinds(self.chars@)
        &&& self.pos <= self.chars@.len()
    }

    pub fn new(s: &str) -> (r: LineClasses)
        ensures
            r.wf(),
            r.text() == s@,
            r.position() == 0,
    {
        let chars = chars_of(s);
        let kinds = classify_chars(&chars);
        LineClasses { chars, kinds, pos: 0 }
    }

    /// The next line and its kind.
    pub fn next(&mut self) -> (r: Option<(FullCodeCharKind, String)>)
        requires
            old(self).wf(),
        ensures
            final(self).wf(),
            final(self).text() == old(self).text(),
            old(self).position() >= old(self).text().len() ==> r is None && final(self).position()
                == old(self).position(),
            old(self).position() < old(self).text().len() ==> {
                let s = old(self).text();
                let a = old(self).position();
                &&& r matches Some(t) && t.0 == line_kind(s, a) && t.1@ == line_text(s, a)
                &&& final(self).position() == if line_end(s, a) < s.len() {
                    line_end(s, a) + 1
                } else {
                    s.len() as nat
                }
            },
    {
        let n = self.chars.len();
        if self.pos >= n {
            return None;
        }
        let a = self.pos;
        let start_kind = self.kinds[a];
        let mut j = a;
        while j < n && self.chars[j] != '\n'
            invariant
                a <= j <= n,
                n == self.chars@.len(),
                a < n,
                line_end(self.chars@, j as nat) == line_end(self.chars@, a as nat),
            decreases n - j,
        {
            j = j + 1;
        }
        proof {
            lemma_line_end_bounds(self.chars@, a as nat);
        }
        let kind = if j < n {
            let k = self.kinds[j];
            if start_kind == FullCodeCharKind::Normal && k == FullCodeCharKind::InString {
                FullCodeCharKind::StartString
            } else if start_kind == FullCodeCharKind::InString && k == FullCodeCharKind::Normal {
                FullCodeCharKind::EndString
            } else if start_kind == FullCodeCharKind::InComment && k
                == FullCodeCharKind::InStringCommented {
                FullCodeCharKind::StartStringCommented
            } else if start_kind == FullCodeCharKind::InStringCommented && k
                == FullCodeCharKind::InComment {
                FullCodeCharKind::EndStringCommented
            } else {
                k
            }
        } else {
            self.kinds[n - 1]
        };
        let line_stop = if j > a && self.chars[j - 1] == '\r' {
            j - 1
        } else {
            j
        };
        let line = string_of(&self.chars, a, line_stop);
        proof {
            let t = self.chars@.subrange(a as int, j as int);
            if t.len() > 0 && t.last() == '\r' {
                assert(t.drop_last() =~= self.chars@.subrange(a as int, line_stop as int));
            }
        }
        self.pos = if j < n {
            j + 1
        } else {
            n
        };
        Some((kind, line))
    }
}

/// The lines kept by `filter_normal_code`, each followed by a line feed.
pub open spec fn filtered_lines(s: Seq<char>, a: nat) -> Seq<char>
    decreases s.len() - a,
{
    if a >= s.len() {
        Seq::empty()
    } else {
        let e = line_end(s, a);
        let rest = if e < s.len() && e + 1 > a {
            filtered_lines(s, e + 1)
        } else {
            Seq::empty()
        };
        if is_code_line_kind(line_kind(s, a)) {
            line_text(s, a).push('\n') + rest
        } else {
            rest
        }
    }
}

/// Line kinds that `filter_normal_code` keeps.
pub open spec fn is_code_line_kind(k: FullCodeCharKind) -> bool {
    k == FullCodeCharKind::Normal || k == FullCodeCharKind::StartString || k
        == FullCodeCharKind::InString || k == FullCodeCharKind::EndString
}

/// The text that `filter_normal_code` returns.
pub open spec fn spec_filter_normal_code(s: Seq<char>) -> Seq<char> {
    let b = filtered_lines(s, 0);
    if !(s.len() > 0 && s.last() == '\n') && b.len() > 0 && b.last() == '\n' {
        b.drop_last()
    } else {
        b
    }
}

/// Removes the lines that end inside or at the end of a comment.
pub fn filter_normal_code(code: &str) -> (r: String)
    ensures
        r@ == spec_filter_normal_code(code@),
{
    let mut buffer = String::new();
    let mut lines = LineClasses::new(code);
    let n = lines.chars.len();
    let ghost s = code@;
    while lines.pos < n
        invariant
            lines.wf(),
            lines.text() == s,
            s == code@,
            n == s.len(),
            filtered_lines(s, 0) == buffer@ + filtered_lines(s, lines.pos as nat),
        decreases n - lines.pos,
    {
        let ghost a = lines.pos as nat;
        proof {
            lemma_line_end_bounds(s, a);
        }
        let r = lines.next();
        if let Some((kind, line)) = r {
            if kind == FullCodeCharKind::Normal || kind == FullCodeCharKind::StartString || kind
                == FullCodeCharKind::InString || kind == FullCodeCharKind::EndString {
                buffer.append(line.as_str());
                crate::text::string_push(&mut buffer, '\n');
            }
            proof {
                let e = line_end(s, a);
                if e >= s.len() {
                    assert(filtered_lines(s, lines.pos as nat) =~= Seq::<char>::empty());
                }
                assert(filtered_lines(s, 0) =~= buffer@ + filtered_lines(s, lines.pos as nat));
            }
        }
    }
    proof {
        assert(filtered_lines(s, lines.pos as nat) =~= Seq::<char>::empty());
        assert(buffer@ =~= filtered_lines(s, 0));
    }
    let chars = chars_of(code);
    let code_ends_nl = chars.len() > 0 && chars[chars.len() - 1] == '\n';
    let bchars = chars_of(buffer.as_str());
    if !code_ends_nl && bchars.len() > 0 && bchars[bchars.len() - 1] == '\n' {
        string_of(&bchars, 0, bchars.len() - 1)
    } else {
        buffer
    }
}

} // verus!

verus! {

/// A character, or something that carries one.
pub trait RichChar {
    fn get_char(&self) -> char;
}

impl RichChar for char {
    fn get_char(&self) -> (c: char)
        ensures
            c == *self,
    {
        *self
    }
}

impl RichChar for (usize, char) {
    fn get_char(&self) -> (c: char)
        ensures
            c == self.1,
    {
        self.1
    }
}

} // verus!
