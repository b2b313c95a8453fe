use vstd::prelude::*;
use crate::text::chars_of;

verus! {

/// A token of a dot-chain expression.
#[derive(Debug, Clone, PartialEq, Eq)]
pub enum Tok {
    Ident(String),
    LParen,
    RParen,
    Less,
    Greater,
    Comma,
    Dot,
    EOF,
}

/// A member of a dot chain: a field, or a call with its arguments (each argument a list of
/// members).
#[derive(Debug, PartialEq)]
pub enum ChainMember {
    Field(String),
    Call(String, Vec<Vec<ChainMember>>),
    Raw(String),
}

/// The value a `ChainMember` stands for.
pub enum ChainMemberView {
    Field(Seq<char>),
    Call(Seq<char>, Seq<Seq<ChainMemberView>>),
    Raw(Seq<char>),
}

pub open spec fn members_view(v: Seq<ChainMember>) -> Seq<ChainMemberView>
    decreases v,
{
    if v.len() == 0 {
        Seq::empty()
    } else {
        members_view(v.drop_last()).push(member_view(v.last()))
    }
}

pub open spec fn args_view(a: Seq<Vec<ChainMember>>) -> Seq<Seq<ChainMemberView>>
    decreases a,
{
    if a.len() == 0 {
        Seq::empty()
    } else {
        args_view(a.drop_last()).push(members_view(a.last()@))
    }
}

pub open spec fn member_view(m: ChainMember) -> ChainMemberView
    decreases m,
{
    match m {
        ChainMember::Field(s) => ChainMemberView::Field(s@),
        ChainMember::Call(n, args) => ChainMemberView::Call(n@, args_view(args@)),
        ChainMember::Raw(s) => ChainMemberView::Raw(s@),
    }
}

} // verus!

verus! {

/// How parsing a dot chain ends: with a value, with a refusal, or never (the parser of the
/// chain loops forever on an argument list in which a `>` stands where an argument starts or
/// closes an argument).
pub enum ParseOutcome<T> {
    Parsed(T),
    Rejected,
    Diverges,
}

/// The member a token of an argument stands for, outside a call: an identifier or a bracket
/// by its text, a comma by `.`; dots and end markers stand for nothing.
pub open spec fn tok_member(t: Tok) -> Seq<ChainMemberView> {
    match t {
        Tok::Ident(s) => seq![ChainMemberView::Field(s@)],
        Tok::LParen => seq![ChainMemberView::Field("("@)],
        Tok::RParen => seq![ChainMemberView::Field(")"@)],
        Tok::Less => seq![ChainMemberView::Field("<"@)],
        Tok::Greater => seq![ChainMemberView::Field(">"@)],
        Tok::Comma => seq![ChainMemberView::Field("."@)],
        _ => Seq::empty(),
    }
}

/// The position of the `)` in `t[pos..to]` that closes a `(` with `depth` parentheses open.
pub open spec fn close_at(t: Seq<Tok>, pos: nat, to: nat, depth: nat) -> Option<nat>
    decreases to - pos,
{
    if pos >= to {
        None
    } else if t[pos as int] is LParen {
        close_at(t, pos + 1, to, depth + 1)
    } else if t[pos as int] is RParen {
        if depth == 0 {
            Some(pos)
        } else {
            close_at(t, pos + 1, to, (depth - 1) as nat)
        }
    } else {
        close_at(t, pos + 1, to, depth)
    }
}

/// The position of the first comma in `t[pos..to]` outside parentheses, with `depth`
/// parentheses open.
pub open spec fn top_comma_at(t: Seq<Tok>, pos: nat, to: nat, depth: nat) -> Option<nat>
    decreases to - pos,
{
    if pos >= to {
        None
    } else if t[pos as int] is LParen {
        top_comma_at(t, pos + 1, to, depth + 1)
    } else if t[pos as int] is RParen {
        top_comma_at(t, pos + 1, to, if depth > 0 {
            (depth - 1) as nat
        } else {
            0
        })
    } else if t[pos as int] is Comma && depth == 0 {
        Some(pos)
    } else {
        top_comma_at(t, pos + 1, to, depth)
    }
}

pub proof fn lemma_close_at_bound(t: Seq<Tok>, pos: nat, to: nat, depth: nat)
    ensures
        close_at(t, pos, to, depth) matches Some(q) ==> pos <= q < to,
    decreases to - pos,
{
    if pos < to {
        if t[pos as int] is LParen {
            lemma_close_at_bound(t, pos + 1, to, depth + 1);
        } else if t[pos as int] is RParen {
            if depth > 0 {
                lemma_close_at_bound(t, pos + 1, to, (depth - 1) as nat);
            }
        } else {
            lemma_close_at_bound(t, pos + 1, to, depth);
        }
    }
}

pub proof fn lemma_top_comma_at_bound(t: Seq<Tok>, pos: nat, to: nat, depth: nat)
    ensures
        top_comma_at(t, pos, to, depth) matches Some(q) ==> pos <= q < to,
    decreases to - pos,
{
    if pos < to {
        if t[pos as int] is LParen {
            lemma_top_comma_at_bound(t, pos + 1, to, depth + 1);
        } else if t[pos as int] is RParen {
            lemma_top_comma_at_bound(t, pos + 1, to, if depth > 0 {
                (depth - 1) as nat
            } else {
                0
            });
        } else if !(t[pos as int] is Comma && depth == 0) {
            lemma_top_comma_at_bound(t, pos + 1, to, depth);
        }
    }
}

/// The members that the tokens `t[i..to]` of an argument stand for: a name followed by a
/// parenthesized, non-empty argument list is a call with those arguments; any other token
/// stands for what `tok_member` gives.
pub open spec fn slice_view_at(t: Seq<Tok>, i: nat, to: nat) -> Seq<ChainMemberView>
    decreases to - i, 0nat,
{
    if i >= to {
        Seq::empty()
    } else if t[i as int] is Ident && i + 1 < to && t[i + 1 as int] is LParen && close_at(t, i + 2, to, 0) is Some
        && close_at(t, i + 2, to, 0)->0 > i + 2 {
        let q = close_at(t, i + 2, to, 0)->0;
        proof {
            lemma_close_at_bound(t, i + 2, to, 0);
        }
        seq![ChainMemberView::Call(t[i as int]->Ident_0@, split_at(t, i + 2, q))] + slice_view_at(
            t,
            q + 1,
            to,
        )
    } else {
        tok_member(t[i as int]) + slice_view_at(t, i + 1, to)
    }
}

/// The arguments in `t[a..b]`: split at the commas outside parentheses, each as
/// `slice_view_at` gives it; an empty last argument is left out.
pub open spec fn split_at(t: Seq<Tok>, a: nat, b: nat) -> Seq<Seq<ChainMemberView>>
    decreases b - a, 1nat,
{
    match top_comma_at(t, a, b, 0) {
        Some(k) => {
            proof {
                lemma_top_comma_at_bound(t, a, b, 0);
            }
            seq![slice_view_at(t, a, k)] + split_at(t, k + 1, b)
        },
        None => if a < b {
            seq![slice_view_at(t, a, b)]
        } else {
            Seq::empty()
        },
    }
}

/// The members that an argument's tokens stand for (see `slice_view_at`).
pub open spec fn slice_view(t: Seq<Tok>) -> Seq<ChainMemberView> {
    slice_view_at(t, 0, t.len())
}

/// Skips the rest of a generic argument list with `depth` open `<`: the position after the
/// matching `>`, or `None` when the end marker comes first.
pub open spec fn skip_generics(t: Seq<Tok>, pos: nat, depth: nat) -> Option<nat>
    decreases t.len() - pos,
{
    if depth == 0 {
        Some(pos)
    } else if pos >= t.len() || t[pos as int] is EOF {
        None
    } else if t[pos as int] is Less {
        skip_generics(t, pos + 1, depth + 1)
    } else if t[pos as int] is Greater {
        skip_generics(t, pos + 1, (depth - 1) as nat)
    } else {
        skip_generics(t, pos + 1, depth)
    }
}

/// Scans one argument from `pos` with `depth` open brackets: the position of the comma or of
/// the unmatched closing bracket that ends it, or `None` at the end marker.
pub open spec fn scan_arg(t: Seq<Tok>, pos: nat, depth: nat) -> Option<nat>
    decreases t.len() - pos,
{
    if pos >= t.len() {
        None
    } else {
        match t[pos as int] {
            Tok::LParen | Tok::Less => scan_arg(t, pos + 1, depth + 1),
            Tok::RParen | Tok::Greater => if depth == 0 {
                Some(pos)
            } else {
                scan_arg(t, pos + 1, (depth - 1) as nat)
            },
            Tok::Comma => if depth == 0 {
                Some(pos)
            } else {
                scan_arg(t, pos + 1, depth)
            },
            Tok::EOF => None,
            _ => scan_arg(t, pos + 1, depth),
        }
    }
}

/// Parses the arguments of a call from `pos` (inside the parentheses), the current argument
/// starting at `arg_start`: the arguments and the position after `)`.
pub open spec fn args_loop(t: Seq<Tok>, pos: nat, arg_start: nat, all: Seq<Seq<ChainMemberView>>) -> ParseOutcome<
    (Seq<Seq<ChainMemberView>>, nat),
>
    decreases t.len() - pos,
{
    if pos >= t.len() {
        ParseOutcome::Rejected
    } else {
        match t[pos as int] {
            Tok::RParen => ParseOutcome::Parsed(
                (
                    if arg_start < pos {
                        all.push(slice_view(t.subrange(arg_start as int, pos as int)))
                    } else {
                        all
                    },
                    pos + 1,
                ),
            ),
            Tok::Comma => args_loop(
                t,
                pos + 1,
                pos + 1,
                all.push(slice_view(t.subrange(arg_start as int, pos as int))),
            ),
            Tok::EOF => ParseOutcome::Rejected,
            Tok::Greater => ParseOutcome::Diverges,
            _ => match scan_arg(t, pos, 0) {
                None => ParseOutcome::Rejected,
                Some(q) => if pos < q <= t.len() {
                    args_loop(t, q, arg_start, all)
                } else {
                    ParseOutcome::Diverges
                },
            },
        }
    }
}

/// Parses what follows a member name at `pos`: optional generic arguments, then optional call
/// arguments. Gives the arguments and the position after them.
pub open spec fn call_args(t: Seq<Tok>, pos: nat) -> ParseOutcome<(Seq<Seq<ChainMemberView>>, nat)> {
    let p = if pos < t.len() && t[pos as int] is Less {
        skip_generics(t, pos + 1, 1)
    } else {
        Some(pos)
    };
    match p {
        None => ParseOutcome::Rejected,
        Some(p) => if p < t.len() && t[p as int] is LParen {
            args_loop(t, p + 1, p + 1, Seq::empty())
        } else {
            ParseOutcome::Parsed((Seq::empty(), p))
        },
    }
}

/// Parses the member after a dot, at `pos`.
pub open spec fn postfix(t: Seq<Tok>, pos: nat) -> ParseOutcome<(ChainMemberView, nat)> {
    if pos < t.len() && t[pos as int] is Ident {
        let name = t[pos as int]->Ident_0@;
        let is_call = pos + 1 < t.len() && (t[pos + 1 as int] is Less || t[pos + 1 as int] is LParen);
        match call_args(t, pos + 1) {
            ParseOutcome::Parsed((args, q)) => ParseOutcome::Parsed(
                (
                    if is_call || args.len() > 0 {
                        ChainMemberView::Call(name, args)
                    } else {
                        ChainMemberView::Field(name)
                    },
                    q,
                ),
            ),
            ParseOutcome::Rejected => ParseOutcome::Rejected,
            ParseOutcome::Diverges => ParseOutcome::Diverges,
        }
    } else {
        ParseOutcome::Rejected
    }
}

/// Parses `.member` repeatedly from `pos`, after the members `acc`.
pub open spec fn chain_loop(t: Seq<Tok>, pos: nat, acc: Seq<ChainMemberView>) -> ParseOutcome<
    (Seq<ChainMemberView>, nat),
>
    decreases t.len() - pos,
{
    if pos < t.len() && t[pos as int] is Dot {
        match postfix(t, pos + 1) {
            ParseOutcome::Parsed((m, q)) => if pos < q <= t.len() {
                chain_loop(t, q, acc.push(m))
            } else {
                ParseOutcome::Diverges
            },
            ParseOutcome::Rejected => ParseOutcome::Rejected,
            ParseOutcome::Diverges => ParseOutcome::Diverges,
        }
    } else {
        ParseOutcome::Parsed((acc, pos))
    }
}

/// The outcome of `parse_dot_chain` on `tokens`: an identifier followed by `.member`s, up to
/// the end marker.
pub open spec fn spec_parse_dot_chain(tokens: Seq<Tok>) -> ParseOutcome<Seq<ChainMemberView>> {
    let t = tokens.push(Tok::EOF);
    if t[0] is Ident {
        match chain_loop(t, 1, seq![ChainMemberView::Field(t[0]->Ident_0@)]) {
            ParseOutcome::Parsed((acc, p)) => if p < t.len() && t[p as int] is EOF {
                ParseOutcome::Parsed(acc)
            } else {
                ParseOutcome::Rejected
            },
            ParseOutcome::Rejected => ParseOutcome::Rejected,
            ParseOutcome::Diverges => ParseOutcome::Diverges,
        }
    } else {
        ParseOutcome::Rejected
    }
}

} // verus!

verus! {

pub proof fn lemma_members_view_push(v: Seq<ChainMember>, m: ChainMember)
    ensures
        members_view(v.push(m)) == members_view(v).push(member_view(m)),
{
    assert(v.push(m).drop_last() =~= v);
}

pub proof fn lemma_args_view_push(a: Seq<Vec<ChainMember>>, m: Vec<ChainMember>)
    ensures
        args_view(a.push(m)) == args_view(a).push(members_view(m@)),
{
    assert(a.push(m).drop_last() =~= a);
}

/// A copy of a token.
fn copy_tok(t: &Tok) -> (r: Tok)
    ensures
        r == *t,
{
    match t {
        Tok::Ident(s) => {
            let c = s.clone();
            proof {
                assert(c@ == s@);
            }
            Tok::Ident(c)
        },
        Tok::LParen => Tok::LParen,
        Tok::RParen => Tok::RParen,
        Tok::Less => Tok::Less,
        Tok::Greater => Tok::Greater,
        Tok::Comma => Tok::Comma,
        Tok::Dot => Tok::Dot,
        Tok::EOF => Tok::EOF,
    }
}

/// The member that a token stands for outside a call, if any.
fn tok_to_member(t: &Tok) -> (r: Option<ChainMember>)
    ensures
        match r {
            Some(m) => tok_member(*t) == seq![member_view(m)],
            None => tok_member(*t) == Seq::<ChainMemberView>::empty(),
        },
{
    match t {
        Tok::Ident(s) => Some(ChainMember::Field(s.clone())),
        Tok::LParen => Some(ChainMember::Field("(".to_string())),
        Tok::RParen => Some(ChainMember::Field(")".to_string())),
        Tok::Less => Some(ChainMember::Field("<".to_string())),
        Tok::Greater => Some(ChainMember::Field(">".to_string())),
        Tok::Comma => Some(ChainMember::Field(".".to_string())),
        _ => None,
    }
}

/// The position of the `)` in `w[pos..to]` that closes an open `(`.
fn find_close(w: &Vec<Tok>, pos: usize, to: usize) -> (r: Option<usize>)
    requires
        pos <= to <= w@.len(),
    ensures
        match r {
            Some(q) => close_at(w@, pos as nat, to as nat, 0) == Some(q as nat),
            None => close_at(w@, pos as nat, to as nat, 0) is None,
        },
{
    let mut p = pos;
    let mut depth: usize = 0;
    while p < to
        invariant
            pos <= p <= to <= w@.len(),
            depth <= p,
            close_at(w@, p as nat, to as nat, depth as nat) == close_at(w@, pos as nat, to as nat, 0),
        decreases to - p,
    {
        match &w[p] {
            Tok::LParen => {
                depth = depth + 1;
            },
            Tok::RParen => {
                if depth == 0 {
                    return Some(p);
                }
                depth = depth - 1;
            },
            _ => {},
        }
        p = p + 1;
    }
    None
}

/// The position of the first comma in `w[pos..to]` outside parentheses.
fn find_top_comma(w: &Vec<Tok>, pos: usize, to: usize) -> (r: Option<usize>)
    requires
        pos <= to <= w@.len(),
    ensures
        match r {
            Some(q) => top_comma_at(w@, pos as nat, to as nat, 0) == Some(q as nat),
            None => top_comma_at(w@, pos as nat, to as nat, 0) is None,
        },
{
    let mut p = pos;
    let mut depth: usize = 0;
    while p < to
        invariant
            pos <= p <= to <= w@.len(),
            depth <= p,
            top_comma_at(w@, p as nat, to as nat, depth as nat) == top_comma_at(w@, pos as nat, to as nat, 0),
        decreases to - p,
    {
        match &w[p] {
            Tok::LParen => {
                depth = depth + 1;
            },
            Tok::RParen => {
                if depth > 0 {
                    depth = depth - 1;
                }
            },
            Tok::Comma => {
                if depth == 0 {
                    return Some(p);
                }
            },
            _ => {},
        }
        p = p + 1;
    }
    None
}

/// The members that the tokens `w[i..to]` of an argument stand for.
fn chain_at(w: &Vec<Tok>, i: usize, to: usize) -> (r: Vec<ChainMember>)
    requires
        i <= to <= w@.len(),
    ensures
        members_view(r@) == slice_view_at(w@, i as nat, to as nat),
    decreases to - i, 0nat,
{
    let mut r: Vec<ChainMember> = Vec::new();
    let mut k = i;
    proof {
        assert(members_view(r@) =~= Seq::<ChainMemberView>::empty());
    }
    while k < to
        invariant
            i <= k <= to <= w@.len(),
            members_view(r@) + slice_view_at(w@, k as nat, to as nat) == slice_view_at(w@, i as nat, to as nat),
        decreases to - k,
    {
        let ghost before = members_view(r@);
        let mut handled = false;
        if k + 1 < to {
            if let Tok::Ident(name) = &w[k] {
                if matches!(w[k + 1], Tok::LParen) {
                    match find_close(w, k + 2, to) {
                        Some(q) => {
                            if q > k + 2 {
                                proof {
                                    lemma_close_at_bound(w@, (k + 2) as nat, to as nat, 0);
                                }
                                let args = split_args_at(w, k + 2, q);
                                let m = ChainMember::Call(name.clone(), args);
                                proof {
                                    lemma_members_view_push(r@, m);
                                    assert(member_view(m) == ChainMemberView::Call(
                                        w@[k as int]->Ident_0@,
                                        split_at(w@, (k + 2) as nat, q as nat),
                                    ));
                                    assert(before.push(member_view(m)) + slice_view_at(w@, (q + 1) as nat, to as nat)
                                        =~= before + slice_view_at(w@, k as nat, to as nat));
                                }
                                r.push(m);
                                k = q + 1;
                                handled = true;
                            }
                        },
                        None => {},
                    }
                }
            }
        }
        if !handled {
            let m = tok_to_member(&w[k]);
            match m {
                Some(m) => {
                    proof {
                        lemma_members_view_push(r@, m);
                        assert(before.push(member_view(m)) + slice_view_at(w@, (k + 1) as nat, to as nat)
                            =~= before + slice_view_at(w@, k as nat, to as nat));
                    }
                    r.push(m);
                },
                None => {
                    proof {
                        assert(before + slice_view_at(w@, (k + 1) as nat, to as nat) =~= before
                            + slice_view_at(w@, k as nat, to as nat));
                    }
                },
            }
            k = k + 1;
        }
    }
    proof {
        assert(members_view(r@) + Seq::<ChainMemberView>::empty() =~= members_view(r@));
    }
    r
}

/// The arguments in `w[a..b]`, split at the commas outside parentheses.
fn split_args_at(w: &Vec<Tok>, a: usize, b: usize) -> (r: Vec<Vec<ChainMember>>)
    requires
        a <= b <= w@.len(),
    ensures
        args_view(r@) == split_at(w@, a as nat, b as nat),
    decreases b - a, 1nat,
{
    let mut r: Vec<Vec<ChainMember>> = Vec::new();
    let mut start = a;
    proof {
        assert(args_view(r@) =~= Seq::<Seq<ChainMemberView>>::empty());
        assert(args_view(r@) + split_at(w@, a as nat, b as nat) =~= split_at(w@, a as nat, b as nat));
    }
    loop
        invariant
            a <= start <= b <= w@.len(),
            args_view(r@) + split_at(w@, start as nat, b as nat) == split_at(w@, a as nat, b as nat),
        decreases b - start,
    {
        let ghost before = args_view(r@);
        match find_top_comma(w, start, b) {
            Some(k) => {
                proof {
                    lemma_top_comma_at_bound(w@, start as nat, b as nat, 0);
                }
                let arg = chain_at(w, start, k);
                proof {
                    lemma_args_view_push(r@, arg);
                    assert(before.push(members_view(arg@)) + split_at(w@, (k + 1) as nat, b as nat) =~= before
                        + split_at(w@, start as nat, b as nat));
                }
                r.push(arg);
                start = k + 1;
            },
            None => {
                if start < b {
                    let arg = chain_at(w, start, b);
                    proof {
                        lemma_args_view_push(r@, arg);
                        assert(before.push(members_view(arg@)) =~= before + split_at(w@, start as nat, b as nat));
                    }
                    r.push(arg);
                } else {
                    proof {
                        assert(before =~= before + split_at(w@, start as nat, b as nat));
                    }
                }
                return r;
            },
        }
    }
}

/// The members that the tokens `slice[from..to]` stand for.
pub fn slice_to_chain(slice: &Vec<Tok>, from: usize, to: usize) -> (r: Vec<ChainMember>)
    requires
        from <= to <= slice@.len(),
    ensures
        members_view(r@) == slice_view(slice@.subrange(from as int, to as int)),
{
    let mut w: Vec<Tok> = Vec::new();
    let mut i = from;
    proof {
        assert(w@ =~= slice@.subrange(from as int, from as int));
    }
    while i < to
        invariant
            from <= i <= to <= slice@.len(),
            w@ == slice@.subrange(from as int, i as int),
        decreases to - i,
    {
        let t = copy_tok(&slice[i]);
        w.push(t);
        proof {
            assert(w@ =~= slice@.subrange(from as int, i + 1));
        }
        i = i + 1;
    }
    chain_at(&w, 0, w.len())
}

} // verus!

verus! {

/// Recursive-descent parser of dot chains over a token list that ends with `Tok::EOF`.
struct Parser {
    tokens: Vec<Tok>,
    pos: usize,
    result: Vec<ChainMember>,
}

impl Parser {
    spec fn wf(&self) -> bool {
        &&& self.tokens@.len() > 0
        &&& self.tokens@.last() is EOF
        &&& self.pos < self.tokens@.len()
        &&& self.tokens@.len() <= usize::MAX
    }

    fn new(t: Vec<Tok>) -> (p: Parser)
        ensures
            p.wf(),
            p.tokens@ == t@.push(Tok::EOF),
            p.pos == 0,
            p.result@.len() == 0,
    {
        let mut t = t;
        t.push(Tok::EOF);
        let _n = t.len();
        Parser { tokens: t, pos: 0, result: Vec::new() }
    }

    fn current(&self) -> (r: &Tok)
        requires
            self.wf(),
        ensures
            *r == self.tokens@[self.pos as int],
    {
        &self.tokens[self.pos]
    }

    fn advance(&mut self)
        requires
            old(self).wf(),
        ensures
            final(self).wf(),
            final(self).tokens@ == old(self).tokens@,
            final(self).result == old(self).result,
            final(self).pos == if old(self).pos < old(self).tokens@.len() - 1 {
                old(self).pos + 1
            } else {
                old(self).pos as int
            },
    {
        if self.pos < self.tokens.len() - 1 {
            self.pos = self.pos + 1;
        }
    }

    fn parse_call_args(&mut self) -> (r: Option<Vec<Vec<ChainMember>>>)
        requires
            old(self).wf(),
            !(call_args(old(self).tokens@, old(self).pos as nat) is Diverges),
        ensures
            final(self).wf(),
            final(self).tokens@ == old(self).tokens@,
            final(self).result == old(self).result,
            match call_args(old(self).tokens@, old(self).pos as nat) {
                ParseOutcome::Parsed((args, q)) => r matches Some(v) && args_view(v@) == args
                    && final(self).pos == q,
                _ => r is None,
            },
    {
        let ghost t = self.tokens@;
        let ghost start = self.pos;
        if matches!(self.current(), Tok::Less) {
            self.advance();
            let mut depth: usize = 1;
            while depth > 0 && !matches!(self.current(), Tok::EOF)
                invariant
                    self.wf(),
                    self.tokens@ == t,
                    t == old(self).tokens@,
                    start == old(self).pos,
                    self.result == old(self).result,
                    start < self.pos,
                    depth <= self.pos,
                    skip_generics(t, self.pos as nat, depth as nat) == skip_generics(
                        t,
                        (start + 1) as nat,
                        1,
                    ),
                decreases t.len() - self.pos,
            {
                match self.current() {
                    Tok::Less => {
                        depth = depth + 1;
                    },
                    Tok::Greater => {
                        depth = depth - 1;
                    },
                    _ => {},
                }
                self.advance();
            }
            if depth != 0 {
                return None;
            }
        }
        if !matches!(self.current(), Tok::LParen) {
            return Some(Vec::new());
        }
        let ghost p = self.pos;
        self.advance();
        let mut all: Vec<Vec<ChainMember>> = Vec::new();
        let mut arg_start = self.pos;
        proof {
            assert(args_view(all@) =~= Seq::<Seq<ChainMemberView>>::empty());
        }
        loop
            invariant
                self.wf(),
                self.tokens@ == t,
                t == old(self).tokens@,
                start == old(self).pos,
                self.result == old(self).result,
                arg_start <= self.pos,
                args_loop(t, self.pos as nat, arg_start as nat, args_view(all@)) == args_loop(
                    t,
                    (p + 1) as nat,
                    (p + 1) as nat,
                    Seq::empty(),
                ),
                !(args_loop(t, self.pos as nat, arg_start as nat, args_view(all@)) is Diverges),
                call_args(t, start as nat) == args_loop(t, (p + 1) as nat, (p + 1) as nat, Seq::empty()),
            decreases t.len() - self.pos,
        {
            match self.current() {
                Tok::RParen => {
                    if arg_start < self.pos {
                        let arg = slice_to_chain(&self.tokens, arg_start, self.pos);
                        proof {
                            lemma_args_view_push(all@, arg);
                        }
                        all.push(arg);
                    }
                    self.advance();
                    return Some(all);
                },
                Tok::Comma => {
                    let arg = slice_to_chain(&self.tokens, arg_start, self.pos);
                    proof {
                        lemma_args_view_push(all@, arg);
                    }
                    all.push(arg);
                    self.advance();
                    arg_start = self.pos;
                },
                Tok::EOF => {
                    return None;
                },
                Tok::Greater => {
                    return None;
                },
                _ => {
                    let ghost q0 = self.pos;
                    let mut depth: usize = 0;
                    loop
                        invariant
                            self.wf(),
                            self.tokens@ == t,
                            t == old(self).tokens@,
                            start == old(self).pos,
                            self.result == old(self).result,
                            args_loop(t, q0 as nat, arg_start as nat, args_view(all@)) == args_loop(
                                t,
                                (p + 1) as nat,
                                (p + 1) as nat,
                                Seq::empty(),
                            ),
                            !(args_loop(t, q0 as nat, arg_start as nat, args_view(all@)) is Diverges),
                            call_args(t, start as nat) == args_loop(t, (p + 1) as nat, (p + 1) as nat, Seq::empty()),
                            q0 <= self.pos,
                            depth <= self.pos,
                            arg_start <= q0,
                            q0 < self.pos || depth == 0,
                            !(t[q0 as int] is RParen || t[q0 as int] is Greater || t[q0 as int] is Comma
                                || t[q0 as int] is EOF),
                            scan_arg(t, self.pos as nat, depth as nat) == scan_arg(t, q0 as nat, 0),
                        ensures
                            self.wf(),
                            self.tokens@ == t,
                            self.result == old(self).result,
                            q0 < self.pos,
                            arg_start <= self.pos,
                            scan_arg(t, q0 as nat, 0) == Some(self.pos as nat),
                            args_loop(t, q0 as nat, arg_start as nat, args_view(all@)) == args_loop(
                                t,
                                (p + 1) as nat,
                                (p + 1) as nat,
                                Seq::empty(),
                            ),
                            !(args_loop(t, q0 as nat, arg_start as nat, args_view(all@)) is Diverges),
                        decreases t.len() - self.pos,
                    {
                        match self.current() {
                            Tok::LParen | Tok::Less => {
                                depth = depth + 1;
                            },
                            Tok::RParen | Tok::Greater => {
                                if depth == 0 {
                                    proof {
                                        assert(scan_arg(t, self.pos as nat, 0) == Some(self.pos as nat));
                                    }
                                    break ;
                                }
                                depth = depth - 1;
                            },
                            Tok::Comma => {
                                if depth == 0 {
                                    proof {
                                        assert(scan_arg(t, self.pos as nat, 0) == Some(self.pos as nat));
                                    }
                                    break ;
                                }
                            },
                            Tok::EOF => {
                                return None;
                            },
                            _ => {},
                        }
                        self.advance();
                    }
                },
            }
        }
    }

    fn parse_postfix(&mut self) -> (r: Option<()>)
        requires
            old(self).wf(),
            !(postfix(old(self).tokens@, old(self).pos as nat) is Diverges),
        ensures
            final(self).wf(),
            final(self).tokens@ == old(self).tokens@,
            match postfix(old(self).tokens@, old(self).pos as nat) {
                ParseOutcome::Parsed((m, q)) => r is Some && members_view(final(self).result@)
                    == members_view(old(self).result@).push(m) && final(self).pos == q,
                _ => r is None,
            },
    {
        let ghost t = self.tokens@;
        let name = match self.current() {
            Tok::Ident(n) => {
                let n = n.clone();
                self.advance();
                n
            },
            _ => {
                return None;
            },
        };
        let is_call = matches!(self.current(), Tok::Less | Tok::LParen);
        let args = self.parse_call_args();
        match args {
            None => None,
            Some(args) => {
                let m = if is_call || args.len() > 0 {
                    ChainMember::Call(name, args)
                } else {
                    ChainMember::Field(name)
                };
                proof {
                    lemma_members_view_push(self.result@, m);
                }
                self.result.push(m);
                Some(())
            },
        }
    }

    fn parse_chain(&mut self) -> (r: Option<()>)
        requires
            old(self).wf(),
            old(self).pos == 0,
            old(self).result@.len() == 0,
            !(chain_start(old(self).tokens@) is Diverges),
        ensures
            final(self).wf(),
            final(self).tokens@ == old(self).tokens@,
            match chain_start(old(self).tokens@) {
                ParseOutcome::Parsed((acc, p)) => r is Some && members_view(final(self).result@)
                    == acc && final(self).pos == p,
                _ => r is None,
            },
    {
        let ghost t = self.tokens@;
        let first = match self.current() {
            Tok::Ident(name) => {
                let n = name.clone();
                self.advance();
                n
            },
            _ => {
                return None;
            },
        };
        let f = ChainMember::Field(first);
        proof {
            lemma_members_view_push(self.result@, f);
            assert(members_view(self.result@) =~= Seq::<ChainMemberView>::empty());
        }
        self.result.push(f);
        proof {
            assert(members_view(self.result@) =~= seq![ChainMemberView::Field(t[0]->Ident_0@)]);
        }
        while matches!(self.current(), Tok::Dot)
            invariant
                self.wf(),
                self.tokens@ == t,
                t == old(self).tokens@,
                chain_loop(t, self.pos as nat, members_view(self.result@)) == chain_start(t),
                !(chain_start(t) is Diverges),
            decreases t.len() - self.pos,
        {
            self.advance();
            let r = self.parse_postfix();
            if r.is_none() {
                return None;
            }
        }
        Some(())
    }
}

/// How the parser ends on `t` (a token list ending with the end marker), before it checks that
/// it stopped at the end marker.
pub open spec fn chain_start(t: Seq<Tok>) -> ParseOutcome<(Seq<ChainMemberView>, nat)> {
    if t.len() > 0 && t[0] is Ident {
        chain_loop(t, 1, seq![ChainMemberView::Field(t[0]->Ident_0@)])
    } else {
        ParseOutcome::Rejected
    }
}

/// Parses a dot chain such as `a.b().c<T>(x, y)`: an identifier followed by `.member`s, where a
/// member may have generic arguments (skipped) and call arguments.
pub fn parse_dot_chain(tokens: Vec<Tok>) -> (r: Option<Vec<ChainMember>>)
    requires
        !(spec_parse_dot_chain(tokens@) is Diverges),
    ensures
        match spec_parse_dot_chain(tokens@) {
            ParseOutcome::Parsed(v) => r matches Some(res) && members_view(res@) == v,
            _ => r is None,
        },
{
    let mut p = Parser::new(tokens);
    match p.parse_chain() {
        None => None,
        Some(()) => {
            if matches!(p.current(), Tok::EOF) {
                Some(p.result)
            } else {
                None
            }
        },
    }
}


} // verus!

verus! {

/// A member as it is printed: a field by its name, a call by its name and its arguments in
/// parentheses, separated by `, `; raw text not at all.
pub open spec fn member_text(m: ChainMemberView) -> Seq<char>
    decreases m,
{
    match m {
        ChainMemberView::Field(n) => n,
        ChainMemberView::Call(n, args) => n + seq!['('] + args_text(args) + seq![')'],
        ChainMemberView::Raw(_) => Seq::empty(),
    }
}

/// An argument as it is printed: its members separated by spaces.
pub open spec fn arg_text(ms: Seq<ChainMemberView>) -> Seq<char>
    decreases ms,
{
    if ms.len() == 0 {
        Seq::empty()
    } else if ms.len() == 1 {
        member_text(ms[0])
    } else {
        arg_text(ms.subrange(0, ms.len() - 1)) + seq![' '] + member_text(ms[ms.len() - 1])
    }
}

/// Call arguments as they are printed: separated by `, `.
pub open spec fn args_text(args: Seq<Seq<ChainMemberView>>) -> Seq<char>
    decreases args,
{
    if args.len() == 0 {
        Seq::empty()
    } else if args.len() == 1 {
        arg_text(args[0])
    } else {
        args_text(args.subrange(0, args.len() - 1)) + seq![',', ' '] + arg_text(args[args.len() - 1])
    }
}

/// A chain as it is printed: its members separated by dots.
pub open spec fn chain_text(ms: Seq<ChainMemberView>) -> Seq<char>
    decreases ms.len(),
{
    if ms.len() == 0 {
        Seq::empty()
    } else if ms.len() == 1 {
        member_text(ms[0])
    } else {
        chain_text(ms.subrange(0, ms.len() - 1)) + seq!['.'] + member_text(ms[ms.len() - 1])
    }
}

/// Whether no member of the chain is raw text.
pub open spec fn no_raw(ms: Seq<ChainMemberView>) -> bool {
    forall|i: int| 0 <= i < ms.len() ==> !(ms[i] is Raw)
}

pub proof fn lemma_members_view_index(v: Seq<ChainMember>, i: int)
    requires
        0 <= i < v.len(),
    ensures
        members_view(v).len() == v.len(),
        members_view(v)[i] == member_view(v[i]),
    decreases v.len(),
{
    lemma_members_view_len(v);
    lemma_members_view_len(v.drop_last());
    if i < v.len() - 1 {
        lemma_members_view_index(v.drop_last(), i);
    }
}

pub proof fn lemma_members_view_take(v: Seq<ChainMember>, i: int)
    requires
        0 <= i <= v.len(),
    ensures
        members_view(v.take(i)) == members_view(v).take(i),
    decreases v.len() - i,
{
    lemma_members_view_len(v);
    lemma_members_view_len(v.take(i));
    if i < v.len() {
        lemma_members_view_take(v, i + 1);
        assert(v.take(i + 1).drop_last() =~= v.take(i));
        assert(members_view(v).take(i + 1).drop_last() =~= members_view(v).take(i));
    } else {
        assert(v.take(i) =~= v);
        assert(members_view(v).take(i) =~= members_view(v));
    }
}

pub proof fn lemma_members_view_len(v: Seq<ChainMember>)
    ensures
        members_view(v).len() == v.len(),
    decreases v.len(),
{
    if v.len() > 0 {
        lemma_members_view_len(v.drop_last());
    }
}

pub proof fn lemma_args_view_index(a: Seq<Vec<ChainMember>>, i: int)
    requires
        0 <= i < a.len(),
    ensures
        args_view(a)[i] == members_view(a[i]@),
    decreases a.len(),
{
    lemma_args_view_len(a);
    lemma_args_view_len(a.drop_last());
    if i < a.len() - 1 {
        lemma_args_view_index(a.drop_last(), i);
    }
}

pub proof fn lemma_args_view_take(a: Seq<Vec<ChainMember>>, i: int)
    requires
        0 <= i <= a.len(),
    ensures
        args_view(a.take(i)) == args_view(a).take(i),
        args_view(a).len() == a.len(),
        i < a.len() ==> args_view(a)[i] == members_view(a[i]@),
    decreases a.len() - i,
{
    lemma_args_view_len(a);
    lemma_args_view_len(a.take(i));
    if i < a.len() {
        lemma_args_view_index(a, i);
        lemma_args_view_take(a, i + 1);
        assert(a.take(i + 1).drop_last() =~= a.take(i));
        assert(args_view(a).take(i + 1).drop_last() =~= args_view(a).take(i));
        assert(args_view(a.take(i + 1)) == args_view(a.take(i)).push(members_view(a[i]@)));
    } else {
        assert(a.take(i) =~= a);
        assert(args_view(a).take(i) =~= args_view(a));
    }
}

pub proof fn lemma_args_view_len(a: Seq<Vec<ChainMember>>)
    ensures
        args_view(a).len() == a.len(),
    decreases a.len(),
{
    if a.len() > 0 {
        lemma_args_view_len(a.drop_last());
    }
}

/// A copy of `s`.
fn copy_string(s: &String) -> (r: String)
    ensures
        r@ == s@,
{
    let mut r = String::new();
    r.append(s.as_str());
    assert(r@ =~= s@);
    r
}

/// The text of one member inside an argument.
fn member_to_text(m: &ChainMember) -> (r: String)
    ensures
        r@ == member_text(member_view(*m)),
    decreases *m,
{
    match m {
        ChainMember::Field(n) => copy_string(n),
        ChainMember::Call(name, args) => {
            let ghost av = args_view(args@);
            let mut r = copy_string(name);
            crate::text::string_push(&mut r, '(');
            let ghost prefix = r@;
            let mut inner = String::new();
            let mut j: usize = 0;
            proof {
                lemma_args_view_take(args@, 0);
            }
            while j < args.len()
                invariant
                    *m == ChainMember::Call(*name, *args),
                    j <= args@.len(),
                    av == args_view(args@),
                    av.len() == args@.len(),
                    inner@ == args_text(av.take(j as int)),
                decreases args.len() - j,
            {
                proof {
                    assert(*m == ChainMember::Call(*name, *args));
                    assert(decreases_to!(*m => (*m)->Call_1));
                    assert((*m)->Call_1 == *args);
                    assert(decreases_to!(*args => args@));
                    assert(decreases_to!(args@ => args@[j as int]));
                    assert(decreases_to!(args@[j as int] => args@[j as int]@));
                    lemma_args_view_take(args@, j as int);
                }
                let a = fmt_arg(args[j].as_slice());
                proof {
                    let t = av.take(j + 1);
                    assert(t.subrange(0, t.len() - 1) =~= av.take(j as int));
                    assert(t[t.len() - 1] == av[j as int]);
                }
                if j > 0 {
                    crate::text::string_push(&mut inner, ',');
                    crate::text::string_push(&mut inner, ' ');
                }
                inner.append(a.as_str());
                j = j + 1;
            }
            proof {
                assert(av.take(j as int) =~= av);
            }
            r.append(inner.as_str());
            crate::text::string_push(&mut r, ')');
            r
        },
        ChainMember::Raw(_) => String::new(),
    }
}

/// Prints an argument: its members separated by spaces (raw text prints as nothing).
pub fn fmt_arg(tokens: &[ChainMember]) -> (r: String)
    ensures
        r@ == arg_text(members_view(tokens@)),
    decreases tokens@,
{
    let ghost mv = members_view(tokens@);
    let mut r = String::new();
    let mut i: usize = 0;
    proof {
        lemma_members_view_len(tokens@);
    }
    while i < tokens.len()
        invariant
            i <= tokens@.len(),
            mv == members_view(tokens@),
            mv.len() == tokens@.len(),
            r@ == arg_text(mv.take(i as int)),
        decreases tokens.len() - i,
    {
        proof {
            assert(decreases_to!(tokens@ => tokens@[i as int]));
            lemma_members_view_index(tokens@, i as int);
        }
        let t = member_to_text(&tokens[i]);
        proof {
            let s = mv.take(i + 1);
            assert(s.subrange(0, s.len() - 1) =~= mv.take(i as int));
            assert(s[s.len() - 1] == mv[i as int]);
        }
        if i > 0 {
            crate::text::string_push(&mut r, ' ');
        }
        r.append(t.as_str());
        i = i + 1;
    }
    proof {
        assert(mv.take(i as int) =~= mv);
    }
    r
}

/// Prints a chain: its members separated by dots. A chain holds no raw text.
pub fn fmt_chain(chain: &[ChainMember]) -> (r: String)
    requires
        no_raw(members_view(chain@)),
    ensures
        r@ == chain_text(members_view(chain@)),
{
    let ghost mv = members_view(chain@);
    let mut r = String::new();
    let mut i: usize = 0;
    proof {
        lemma_members_view_len(chain@);
    }
    while i < chain.len()
        invariant
            i <= chain@.len(),
            mv == members_view(chain@),
            mv.len() == chain@.len(),
            r@ == chain_text(mv.take(i as int)),
        decreases chain.len() - i,
    {
        proof {
            lemma_members_view_index(chain@, i as int);
        }
        let t = member_to_text(&chain[i]);
        proof {
            let s = mv.take(i + 1);
            assert(s.subrange(0, s.len() - 1) =~= mv.take(i as int));
            assert(s[s.len() - 1] == mv[i as int]);
        }
        if i > 0 {
            crate::text::string_push(&mut r, '.');
        }
        r.append(t.as_str());
        i = i + 1;
    }
    proof {
        assert(mv.take(i as int) =~= mv);
    }
    r
}

} // verus!

verus! {

/// The text of a token as raw text, for the tokens that have one.
pub open spec fn tok_text(t: Tok) -> Option<Seq<char>> {
    match t {
        Tok::Ident(s) => Some(s@),
        Tok::LParen => Some(seq!['(']),
        Tok::RParen => Some(seq![')']),
        Tok::Less => Some(seq!['<']),
        Tok::Greater => Some(seq!['>']),
        Tok::Comma => Some(seq![',']),
        _ => None,
    }
}

/// The texts of the tokens that have one, in order.
pub open spec fn raw_pieces(t: Seq<Tok>) -> Seq<Seq<char>>
    decreases t.len(),
{
    if t.len() == 0 {
        Seq::empty()
    } else {
        match tok_text(t.last()) {
            Some(x) => raw_pieces(t.drop_last()).push(x),
            None => raw_pieces(t.drop_last()),
        }
    }
}

/// `s` with each occurrence of `p` replaced by `r`, the occurrences taken from left to right
/// without overlap.
pub open spec fn replace_all(s: Seq<char>, p: Seq<char>, r: Seq<char>) -> Seq<char>
    decreases s.len(),
{
    if s.len() == 0 {
        s
    } else if p.len() > 0 && crate::text::has_prefix(s, p) {
        r + replace_all(s.skip(p.len() as int), p, r)
    } else {
        seq![s[0]] + replace_all(s.drop_first(), p, r)
    }
}

/// What `slice_to_raw` returns: the token texts joined by spaces, then the spaces around
/// brackets, commas and angle brackets taken out.
pub open spec fn spec_slice_to_raw(t: Seq<Tok>) -> Seq<char> {
    let joined = crate::rewrite::join(raw_pieces(t), seq![' ']);
    replace_all(
        replace_all(
            replace_all(
                replace_all(replace_all(joined, seq![' ', '(', ' '], seq!['(']), seq![' ', ')', ' '], seq![')']),
                seq![' ', ',', ' '],
                seq![','],
            ),
            seq![' ', '<', ' '],
            seq!['<'],
        ),
        seq![' ', '>', ' '],
        seq!['>'],
    )
}

/// `s` with each occurrence of `p` replaced by `r`, from left to right.
fn replace_str(s: &str, p: &str, r: &str) -> (out: String)
    requires
        p@.len() > 0,
    ensures
        out@ == replace_all(s@, p@, r@),
{
    let v = chars_of(s);
    let pv = chars_of(p);
    let n = v.len();
    let mut out = String::new();
    let mut i: usize = 0;
    proof {
        assert(v@.skip(0) =~= v@);
    }
    while i < n
        invariant
            n == v@.len(),
            v@ == s@,
            pv@ == p@,
            p@.len() > 0,
            i <= n,
            out@ + replace_all(v@.skip(i as int), p@, r@) == replace_all(s@, p@, r@),
        decreases n - i,
    {
        let ghost rest = v@.skip(i as int);
        if crate::text::starts_with_at(&v, i, p) {
            proof {
                assert(rest.subrange(0, p@.len() as int) =~= v@.subrange(i as int, i + p@.len()));
                assert(rest.skip(p@.len() as int) =~= v@.skip(i + p@.len()));
                assert(out@ + r@ + replace_all(v@.skip(i + p@.len()), p@, r@) =~= out@ + (r@
                    + replace_all(rest.skip(p@.len() as int), p@, r@)));
            }
            out.append(r);
            i = i + pv.len();
        } else {
            proof {
                if p@.len() <= rest.len() {
                    assert(rest.subrange(0, p@.len() as int) =~= v@.subrange(i as int, i + p@.len()));
                }
                assert(rest.drop_first() =~= v@.skip(i + 1));
                assert(rest[0] == v@[i as int]);
                assert(out@.push(v@[i as int]) + replace_all(v@.skip(i + 1), p@, r@) =~= out@ + (
                seq![rest[0]] + replace_all(rest.drop_first(), p@, r@)));
            }
            crate::text::string_push(&mut out, v[i]);
            i = i + 1;
        }
    }
    proof {
        assert(v@.skip(i as int) =~= Seq::<char>::empty());
        assert(out@ + Seq::<char>::empty() =~= out@);
    }
    out
}

/// Joins the texts of the tokens (identifiers, brackets, commas) with spaces, then takes out
/// the spaces around brackets, commas and angle brackets.
pub fn slice_to_raw(slice: &[Tok]) -> (r: String)
    ensures
        r@ == spec_slice_to_raw(slice@),
{
    let mut joined = String::new();
    let mut any = false;
    let mut i: usize = 0;
    proof {
        assert(slice@.take(0) =~= Seq::<Tok>::empty());
    }
    while i < slice.len()
        invariant
            i <= slice@.len(),
            any == (raw_pieces(slice@.take(i as int)).len() > 0),
            joined@ == crate::rewrite::join(raw_pieces(slice@.take(i as int)), seq![' ']),
        decreases slice.len() - i,
    {
        proof {
            assert(slice@.take(i + 1).drop_last() =~= slice@.take(i as int));
            assert(slice@.take(i + 1).last() == slice@[i as int]);
        }
        let piece: Option<&str> = match &slice[i] {
            Tok::Ident(s) => Some(s.as_str()),
            Tok::LParen => Some("("),
            Tok::RParen => Some(")"),
            Tok::Less => Some("<"),
            Tok::Greater => Some(">"),
            Tok::Comma => Some(","),
            _ => None,
        };
        proof {
            reveal_strlit("(");
            reveal_strlit(")");
            reveal_strlit("<");
            reveal_strlit(">");
            reveal_strlit(",");
        }
        match piece {
            Some(x) => {
                proof {
                    assert(tok_text(slice@[i as int]) == Some(x@));
                    crate::rewrite::lemma_join_push(raw_pieces(slice@.take(i as int)), seq![' '], x@);
                }
                if any {
                    crate::text::string_push(&mut joined, ' ');
                }
                joined.append(x);
                any = true;
            },
            None => {
                assert(tok_text(slice@[i as int]) is None);
            },
        }
        i = i + 1;
    }
    proof {
        assert(slice@.take(i as int) =~= slice@);
        reveal_strlit(" ( ");
        reveal_strlit(" ) ");
        reveal_strlit(" , ");
        reveal_strlit(" < ");
        reveal_strlit(" > ");
        reveal_strlit("(");
        reveal_strlit(")");
        reveal_strlit(",");
        reveal_strlit("<");
        reveal_strlit(">");
        assert(" ( "@ =~= seq![' ', '(', ' ']);
        assert(" ) "@ =~= seq![' ', ')', ' ']);
        assert(" , "@ =~= seq![' ', ',', ' ']);
        assert(" < "@ =~= seq![' ', '<', ' ']);
        assert(" > "@ =~= seq![' ', '>', ' ']);
        assert("("@ =~= seq!['(']);
        assert(")"@ =~= seq![')']);
        assert(","@ =~= seq![',']);
        assert("<"@ =~= seq!['<']);
        assert(">"@ =~= seq!['>']);
    }
    let a = replace_str(joined.as_str(), " ( ", "(");
    let b = replace_str(a.as_str(), " ) ", ")");
    let c = replace_str(b.as_str(), " , ", ",");
    let d = replace_str(c.as_str(), " < ", "<");
    replace_str(d.as_str(), " > ", ">")
}

} // verus!
