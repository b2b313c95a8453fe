use vstd::prelude::*;
use vstd::string::StringSliceAdditionalSpecFns;

verus! {

/// Number of bytes that the UTF-8 encoding of `c` takes.
pub open spec fn utf8_len(c: char) -> nat {
    if (c as u32) < 0x80 {
        1
    } else if (c as u32) < 0x800 {
        2
    } else if (c as u32) < 0x10000 {
        3
    } else {
        4
    }
}

/// Number of bytes that the UTF-8 encoding of `s` takes.
pub open spec fn byte_len(s: Seq<char>) -> nat
    decreases s.len(),
{
    if s.len() == 0 {
        0
    } else {
        byte_len(s.drop_last()) + utf8_len(s.last())
    }
}

/// The characters of `s`, in order.
pub fn chars_of(s: &str) -> (v: Vec<char>)
    ensures
        v@ == s@,
{
    let mut v: Vec<char> = Vec::new();
    for c in it: s.chars()
        invariant
            v@ == it.seq().take(it.index() as int),
            it.seq() == s@,
    {
        v.push(c);
    }
    v
}

} // verus!

verus! {

/// Byte length of the UTF-8 encoding of `c`.
pub fn char_utf8_len(c: char) -> (n: usize)
    ensures
        n == utf8_len(c),
{
    let u = c as u32;
    if u < 0x80 {
        1
    } else if u < 0x800 {
        2
    } else if u < 0x10000 {
        3
    } else {
        4
    }
}

pub proof fn lemma_byte_len_push(s: Seq<char>, c: char)
    ensures
        byte_len(s.push(c)) == byte_len(s) + utf8_len(c),
{
    assert(s.push(c).drop_last() =~= s);
}

pub proof fn lemma_byte_len_take_step(s: Seq<char>, i: int)
    requires
        0 <= i < s.len(),
    ensures
        byte_len(s.take(i + 1)) == byte_len(s.take(i)) + utf8_len(s[i]),
{
    assert(s.take(i + 1) =~= s.take(i).push(s[i]));
    lemma_byte_len_push(s.take(i), s[i]);
}

pub proof fn lemma_byte_len_append(a: Seq<char>, b: Seq<char>)
    ensures
        byte_len(a + b) == byte_len(a) + byte_len(b),
    decreases b.len(),
{
    if b.len() == 0 {
        assert(a + b =~= a);
    } else {
        assert((a + b).drop_last() =~= a + b.drop_last());
        lemma_byte_len_append(a, b.drop_last());
    }
}

pub proof fn lemma_byte_len_take_mono(s: Seq<char>, i: int, j: int)
    requires
        0 <= i <= j <= s.len(),
    ensures
        byte_len(s.take(i)) <= byte_len(s.take(j)),
    decreases j - i,
{
    if i < j {
        lemma_byte_len_take_step(s, j - 1);
        lemma_byte_len_take_mono(s, i, j - 1);
    }
}

pub proof fn lemma_byte_len_mono(s: Seq<char>, i: int, j: int)
    requires
        0 <= i <= j <= s.len(),
    ensures
        byte_len(s.take(i)) <= byte_len(s.take(j)),
        byte_len(s.take(j)) <= byte_len(s),
{
    assert(s.take(s.len() as int) =~= s);
    lemma_byte_len_take_mono(s, i, j);
    lemma_byte_len_take_mono(s, j, s.len() as int);
}

/// Byte length of the UTF-8 encoding of `v`.
pub fn chars_byte_len(v: &Vec<char>, from: usize, to: usize) -> (n: usize)
    requires
        from <= to <= v@.len(),
        byte_len(v@.subrange(from as int, to as int)) <= usize::MAX,
    ensures
        n == byte_len(v@.subrange(from as int, to as int)),
{
    let mut n: usize = 0;
    let mut i: usize = from;
    while i < to
        invariant
            from <= i <= to <= v@.len(),
            n == byte_len(v@.subrange(from as int, i as int)),
            byte_len(v@.subrange(from as int, to as int)) <= usize::MAX,
        decreases to - i,
    {
        proof {
            let sub = v@.subrange(from as int, to as int);
            assert(v@.subrange(from as int, i as int) =~= sub.take(i - from));
            assert(v@.subrange(from as int, i + 1) =~= sub.take(i + 1 - from));
            lemma_byte_len_take_step(sub, i - from);
            lemma_byte_len_mono(sub, i + 1 - from, to - from);
        }
        n = n + char_utf8_len(v[i]);
        i = i + 1;
    }
    n
}

/// Appends a character to a string.
#[verifier::external_body]
pub(crate) fn string_push(s: &mut String, c: char)
    ensures
        final(s)@ == old(s)@.push(c),
{
    s.push(c);
}

/// The string made of the characters `v[from..to]`.
pub fn string_of(v: &Vec<char>, from: usize, to: usize) -> (s: String)
    requires
        from <= to <= v@.len(),
    ensures
        s@ == v@.subrange(from as int, to as int),
{
    let mut s = String::new();
    let mut i = from;
    while i < to
        invariant
            from <= i <= to <= v@.len(),
            s@ == v@.subrange(from as int, i as int),
        decreases to - i,
    {
        string_push(&mut s, v[i]);
        assert(s@ =~= v@.subrange(from as int, i + 1));
        i = i + 1;
    }
    s
}

/// Whether `s[at..]` starts with `p`.
pub open spec fn has_prefix_at(s: Seq<char>, at: int, p: Seq<char>) -> bool {
    0 <= at && at + p.len() <= s.len() && s.subrange(at, at + p.len()) == p
}

/// Whether `s` starts with `p`.
pub open spec fn has_prefix(s: Seq<char>, p: Seq<char>) -> bool {
    has_prefix_at(s, 0, p)
}

/// Whether `s[at..]` starts with the characters of `p`.
pub fn starts_with_at(s: &Vec<char>, at: usize, p: &str) -> (b: bool)
    requires
        at <= s@.len(),
    ensures
        b == has_prefix_at(s@, at as int, p@),
{
    let pv = chars_of(p);
    let n = pv.len();
    if n > s.len() - at {
        return false;
    }
    let mut k: usize = 0;
    while k < n
        invariant
            n == pv@.len(),
            pv@ == p@,
            at + n <= s.len(),
            k <= pv@.len(),
            forall|j: int| 0 <= j < k ==> s@[at + j] == pv@[j],
        decreases n - k,
    {
        if s[at + k] != pv[k] {
            assert(s@.subrange(at as int, at + pv@.len())[k as int] != pv@[k as int]);
            return false;
        }
        k = k + 1;
    }
    assert(s@.subrange(at as int, at + pv@.len()) =~= pv@);
    true
}

} // verus!

verus! {

pub proof fn lemma_utf8_len_encode(c: char)
    ensures
        vstd::utf8::encode_scalar(c as u32).len() == utf8_len(c),
{
    broadcast use vstd::utf8::char_is_scalar;

    assert(vstd::utf8::is_scalar(c as u32));
}

/// The byte length of a char sequence is that of its UTF-8 encoding.
pub proof fn lemma_byte_len_encode(s: Seq<char>)
    ensures
        byte_len(s) == vstd::utf8::encode_utf8(s).len(),
    decreases s.len(),
{
    if s.len() > 0 {
        assert(s =~= seq![s[0]] + s.drop_first());
        lemma_byte_len_append(seq![s[0]], s.drop_first());
        assert(seq![s[0]].drop_last() =~= Seq::<char>::empty());
        assert(byte_len(Seq::<char>::empty()) == 0);
        assert(byte_len(seq![s[0]]) == utf8_len(s[0]));
        lemma_utf8_len_encode(s[0]);
        lemma_byte_len_encode(s.drop_first());
    }
}

/// The byte length of a string slice bounds that of every part of it.
pub proof fn lemma_str_byte_len(s: &str, i: int, j: int)
    requires
        0 <= i <= j <= s@.len(),
    ensures
        byte_len(s@.subrange(i, j)) <= byte_len(s@),
        byte_len(s@) == s.spec_bytes().len(),
{
    lemma_byte_len_encode(s@);
    assert(s@ =~= s@.take(i) + s@.subrange(i, j) + s@.skip(j));
    lemma_byte_len_append(s@.take(i) + s@.subrange(i, j), s@.skip(j));
    lemma_byte_len_append(s@.take(i), s@.subrange(i, j));
}

} // verus!

verus! {

/// Byte length of `s`.
pub fn str_byte_len(s: &str) -> (n: usize)
    ensures
        n == byte_len(s@),
{
    proof {
        lemma_byte_len_encode(s@);
    }
    let b = s.as_bytes();
    b.len()
}

} // verus!

verus! {

/// Whether `c` has the Unicode `White_Space` property: the tab, line feed, vertical tab, form
/// feed and carriage return, the space, U+0085, U+00A0, U+1680, U+2000 to U+200A, U+2028,
/// U+2029, U+202F, U+205F and U+3000.
pub open spec fn char_is_whitespace(c: char) -> bool {
    let u = c as u32;
    ||| 0x09 <= u <= 0x0D
    ||| u == 0x20
    ||| u == 0x85
    ||| u == 0xA0
    ||| u == 0x1680
    ||| 0x2000 <= u <= 0x200A
    ||| u == 0x2028
    ||| u == 0x2029
    ||| u == 0x202F
    ||| u == 0x205F
    ||| u == 0x3000
}

/// Whether `c` is alphabetic or numeric in the sense of Unicode.
pub uninterp spec fn char_is_alphanumeric(c: char) -> bool;

/// Whether `c` is whitespace, as `char::is_whitespace` documents it: exactly when `c` has the
/// Unicode `White_Space` property.
pub(crate) fn is_whitespace(c: char) -> (b: bool)
    ensures
        b == char_is_whitespace(c),
{
    let u = c as u32;
    (0x09 <= u && u <= 0x0D) || u == 0x20 || u == 0x85 || u == 0xA0 || u == 0x1680 || (0x2000 <= u
        && u <= 0x200A) || u == 0x2028 || u == 0x2029 || u == 0x202F || u == 0x205F || u == 0x3000
}

/// `char::is_alphanumeric`: true when `c` is alphabetic or numeric; among ASCII characters
/// these are the letters and the digits.
#[verifier::external_body]
pub(crate) fn is_alphanumeric(c: char) -> (b: bool)
    ensures
        b == char_is_alphanumeric(c),
        (c as u32) < 0x80 ==> (b <==> (('a' <= c <= 'z') || ('A' <= c <= 'Z') || ('0' <= c <= '9'))),
{
    c.is_alphanumeric()
}

/// Position of the end of the first line of `s` as `str::lines` cuts it (the first line feed,
/// or the end of `s`).
pub open spec fn first_newline(s: Seq<char>, a: nat) -> nat
    decreases s.len() - a,
{
    if a >= s.len() {
        s.len()
    } else if s[a as int] == '\n' {
        a
    } else {
        first_newline(s, a + 1)
    }
}

/// The line of `s` that starts at `a`, as `str::lines` gives it: without its line feed, and
/// without the carriage return that precedes that line feed.
pub open spec fn std_line(s: Seq<char>, a: nat) -> Seq<char> {
    let e = first_newline(s, a);
    let t = s.subrange(a as int, e as int);
    if e < s.len() && t.len() > 0 && t.last() == '\r' {
        t.drop_last()
    } else {
        t
    }
}

/// The lines of `s[a..]` as `str::lines` gives them.
pub open spec fn std_lines_from(s: Seq<char>, a: nat) -> Seq<Seq<char>>
    decreases s.len() - a,
{
    if a >= s.len() {
        Seq::empty()
    } else {
        let e = first_newline(s, a);
        if e < s.len() && e + 1 > a {
            seq![std_line(s, a)] + std_lines_from(s, e + 1)
        } else {
            seq![std_line(s, a)]
        }
    }
}

/// The lines of `s` as `str::lines` gives them.
pub open spec fn std_lines(s: Seq<char>) -> Seq<Seq<char>> {
    std_lines_from(s, 0)
}

pub proof fn lemma_first_newline_bounds(s: Seq<char>, a: nat)
    requires
        a <= s.len(),
    ensures
        a <= first_newline(s, a) <= s.len(),
        first_newline(s, a) < s.len() ==> s[first_newline(s, a) as int] == '\n',
        forall|j: int| a <= j < first_newline(s, a) ==> s[j] != '\n',
    decreases s.len() - a,
{
    if a < s.len() && s[a as int] != '\n' {
        lemma_first_newline_bounds(s, a + 1);
    }
}

/// Position of the first line feed at or after `a` in `v`, or `v.len()`.
pub fn newline_from(v: &Vec<char>, a: usize) -> (e: usize)
    requires
        a <= v@.len(),
    ensures
        e == first_newline(v@, a as nat),
{
    proof {
        lemma_first_newline_bounds(v@, a as nat);
    }
    let mut j = a;
    while j < v.len() && v[j] != '\n'
        invariant
            a <= j <= v@.len(),
            first_newline(v@, j as nat) == first_newline(v@, a as nat),
        decreases v.len() - j,
    {
        j = j + 1;
    }
    j
}

/// End (exclusive) of the line that `std_line` gives for the line starting at `a`.
pub fn std_line_stop(v: &Vec<char>, a: usize) -> (stop: usize)
    requires
        a <= v@.len(),
    ensures
        a <= stop <= v@.len(),
        v@.subrange(a as int, stop as int) == std_line(v@, a as nat),
{
    let e = newline_from(v, a);
    proof {
        lemma_first_newline_bounds(v@, a as nat);
    }
    if e < v.len() && e > a && v[e - 1] == '\r' {
        proof {
            assert(v@.subrange(a as int, e as int).drop_last() =~= v@.subrange(a as int, e - 1));
        }
        e - 1
    } else {
        e
    }
}

} // verus!

verus! {

/// `s` without its trailing whitespace.
pub open spec fn trim_end(s: Seq<char>) -> Seq<char>
    decreases s.len(),
{
    if s.len() > 0 && char_is_whitespace(s.last()) {
        trim_end(s.drop_last())
    } else {
        s
    }
}

/// `s` without its leading whitespace.
pub open spec fn trim_start(s: Seq<char>) -> Seq<char>
    decreases s.len(),
{
    if s.len() > 0 && char_is_whitespace(s[0]) {
        trim_start(s.drop_first())
    } else {
        s
    }
}

pub proof fn lemma_trim_end_prefix(s: Seq<char>)
    ensures
        trim_end(s).len() <= s.len(),
        trim_end(s) == s.take(trim_end(s).len() as int),
        trim_end(s).len() > 0 ==> !char_is_whitespace(trim_end(s).last()),
        forall|j: int| trim_end(s).len() <= j < s.len() ==> char_is_whitespace(s[j]),
    decreases s.len(),
{
    if s.len() > 0 && char_is_whitespace(s.last()) {
        lemma_trim_end_prefix(s.drop_last());
        assert(s.drop_last().take(trim_end(s).len() as int) =~= s.take(trim_end(s).len() as int));
        assert forall|j: int| trim_end(s).len() <= j < s.len() implies char_is_whitespace(s[j]) by {
            if j < s.len() - 1 {
                assert(s.drop_last()[j] == s[j]);
            }
        }
    } else {
        assert(s.take(s.len() as int) =~= s);
    }
}

pub proof fn lemma_trim_start_suffix(s: Seq<char>)
    ensures
        trim_start(s).len() <= s.len(),
        trim_start(s) == s.skip(s.len() - trim_start(s).len()),
        trim_start(s).len() > 0 ==> !char_is_whitespace(trim_start(s)[0]),
        forall|j: int| 0 <= j < s.len() - trim_start(s).len() ==> char_is_whitespace(s[j]),
    decreases s.len(),
{
    if s.len() > 0 && char_is_whitespace(s[0]) {
        lemma_trim_start_suffix(s.drop_first());
        let k = s.len() - trim_start(s).len();
        assert(s.drop_first().skip(k - 1) =~= s.skip(k));
        assert forall|j: int| 0 <= j < s.len() - trim_start(s).len() implies char_is_whitespace(s[j]) by {
            if j > 0 {
                assert(s.drop_first()[j - 1] == s[j]);
            }
        }
    } else {
        assert(s.skip(0) =~= s);
    }
}

/// End of `v[from..to]` once its trailing whitespace is dropped.
pub fn trim_end_stop(v: &Vec<char>, from: usize, to: usize) -> (stop: usize)
    requires
        from <= to <= v@.len(),
    ensures
        from <= stop <= to,
        v@.subrange(from as int, stop as int) == trim_end(v@.subrange(from as int, to as int)),
{
    let mut stop = to;
    while stop > from && is_whitespace(v[stop - 1])
        invariant
            from <= stop <= to <= v@.len(),
            trim_end(v@.subrange(from as int, stop as int)) == trim_end(
                v@.subrange(from as int, to as int),
            ),
        decreases stop - from,
    {
        proof {
            assert(v@.subrange(from as int, stop as int).drop_last() =~= v@.subrange(
                from as int,
                stop - 1,
            ));
        }
        stop = stop - 1;
    }
    stop
}

/// Start of `v[from..to]` once its leading whitespace is dropped.
pub fn trim_start_from(v: &Vec<char>, from: usize, to: usize) -> (start: usize)
    requires
        from <= to <= v@.len(),
    ensures
        from <= start <= to,
        v@.subrange(start as int, to as int) == trim_start(v@.subrange(from as int, to as int)),
{
    let mut start = from;
    while start < to && is_whitespace(v[start])
        invariant
            from <= start <= to <= v@.len(),
            trim_start(v@.subrange(start as int, to as int)) == trim_start(
                v@.subrange(from as int, to as int),
            ),
        decreases to - start,
    {
        proof {
            assert(v@.subrange(start as int, to as int).drop_first() =~= v@.subrange(
                start + 1,
                to as int,
            ));
        }
        start = start + 1;
    }
    start
}

/// The character position of `s` at which `b` bytes of `s` have been read, if there is one.
pub open spec fn is_byte_position(s: Seq<char>, b: nat, k: nat) -> bool {
    k <= s.len() && byte_len(s.take(k as int)) == b
}

pub proof fn lemma_byte_position_unique(s: Seq<char>, b: nat, k1: nat, k2: nat)
    requires
        is_byte_position(s, b, k1),
        is_byte_position(s, b, k2),
    ensures
        k1 == k2,
{
    if k1 < k2 {
        lemma_byte_len_take_step(s, k1 as int);
        lemma_byte_len_take_mono(s, k1 + 1 as int, k2 as int);
    } else if k2 < k1 {
        lemma_byte_len_take_step(s, k2 as int);
        lemma_byte_len_take_mono(s, k2 + 1 as int, k1 as int);
    }
}

/// The character position at which `b` bytes of `v` have been read, if there is one.
pub fn char_pos_of_byte(v: &Vec<char>, b: usize) -> (r: Option<usize>)
    ensures
        r matches Some(k) ==> is_byte_position(v@, b as nat, k as nat),
        r is None ==> forall|k: nat| !is_byte_position(v@, b as nat, k),
{
    let mut k: usize = 0;
    let mut acc: usize = 0;
    while k < v.len() && acc < b
        invariant
            k <= v@.len(),
            acc == byte_len(v@.take(k as int)),
            acc <= b,
        decreases v.len() - k,
    {
        proof {
            lemma_byte_len_take_step(v@, k as int);
        }
        let w = char_utf8_len(v[k]);
        if w > b - acc {
            proof {
                assert forall|j: nat| !is_byte_position(v@, b as nat, j) by {
                    if j <= k {
                        lemma_byte_len_take_mono(v@, j as int, k as int);
                    } else if j <= v@.len() {
                        lemma_byte_len_take_mono(v@, k + 1, j as int);
                    }
                }
            }
            return None;
        }
        acc = acc + w;
        k = k + 1;
    }
    if acc == b {
        Some(k)
    } else {
        proof {
            assert(k == v@.len());
            assert forall|j: nat| !is_byte_position(v@, b as nat, j) by {
                if j <= k {
                    lemma_byte_len_take_mono(v@, j as int, k as int);
                }
            }
        }
        None
    }
}

} // verus!

verus! {

/// Whether `s` ends with `p`.
pub open spec fn has_suffix(s: Seq<char>, p: Seq<char>) -> bool {
    p.len() <= s.len() && s.subrange(s.len() - p.len(), s.len() as int) == p
}

} // verus!
