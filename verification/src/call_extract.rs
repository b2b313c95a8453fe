use vstd::prelude::*;

verus! {

/// Where a piece of source lies: the byte offsets of its start and of its end.
#[derive(Clone, Copy, Debug, PartialEq, Eq, Structural)]
pub struct Loc {
    pub start: u32,
    pub end: u32,
}

/// A Move expression, as far as the rules for breaking calls read it.
#[derive(Debug)]
pub enum MoveExp {
    /// A call: where it lies, where its name lies, whether it is a receiver call
    /// (`x.name(args)`, whose receiver `x` is its first argument), where its argument list lies,
    /// and its arguments.
    Call { loc: Loc, name_loc: Loc, receiver: bool, args_loc: Loc, args: Vec<MoveExp> },
    /// A struct value `S { f: e, .. }`: where it lies, and the values of its fields.
    Pack { loc: Loc, fields: Vec<MoveExp> },
    /// Any other expression, with the expressions in it that the rules look into, in source
    /// order (none for a spec block).
    Other { children: Vec<MoveExp> },
}

/// How many receiver calls are chained in `e`: one for a receiver call, plus those chained in
/// its arguments; none for any other expression.
pub open spec fn chain_count(e: MoveExp) -> nat
    decreases e,
{
    match e {
        MoveExp::Call { receiver, args, .. } => if receiver {
            1 + chain_count_list(args@)
        } else {
            0
        },
        _ => 0,
    }
}

/// `chain_count` summed over `es`.
pub open spec fn chain_count_list(es: Seq<MoveExp>) -> nat
    decreases es,
{
    if es.len() == 0 {
        0
    } else {
        chain_count_list(es.drop_last()) + chain_count(es.last())
    }
}

/// What is collected of an expression: where the calls lie, where their argument lists lie,
/// where the struct values lie, and where the names of the last calls of long call chains lie.
pub type Collected = (Seq<Loc>, Seq<Loc>, Seq<Loc>, Seq<Loc>);

pub open spec fn nothing_collected() -> Collected {
    (Seq::empty(), Seq::empty(), Seq::empty(), Seq::empty())
}

pub open spec fn join_collected(a: Collected, b: Collected) -> Collected {
    (a.0 + b.0, a.1 + b.1, a.2 + b.2, a.3 + b.3)
}

/// What `CallExtractor::collect_expr` collects of `e`, in source order: a call whose name
/// stands before its argument list, with its argument list, then what its arguments hold; a
/// call whose name stands after the start of its argument list (a receiver call) only when it is
/// a chain of more than three receiver calls, as the name of its last call; a struct value, then
/// what its fields hold; for any other expression, what the expressions in it hold.
pub open spec fn collected(e: MoveExp) -> Collected
    decreases e,
{
    match e {
        MoveExp::Call { loc, name_loc, receiver, args_loc, args } => if name_loc.end > args_loc.start {
            if receiver && 1 + chain_count_list(args@) > 3 {
                (Seq::empty(), Seq::empty(), Seq::empty(), seq![name_loc])
            } else {
                nothing_collected()
            }
        } else {
            let c = collected_list(args@);
            (seq![loc] + c.0, seq![args_loc] + c.1, c.2, c.3)
        },
        MoveExp::Pack { loc, fields } => {
            let c = collected_list(fields@);
            (c.0, c.1, seq![loc] + c.2, c.3)
        },
        MoveExp::Other { children } => collected_list(children@),
    }
}

/// `collected` of each of `es`, one after another.
pub open spec fn collected_list(es: Seq<MoveExp>) -> Collected
    decreases es,
{
    if es.len() == 0 {
        nothing_collected()
    } else {
        join_collected(collected_list(es.drop_last()), collected(es.last()))
    }
}

pub open spec fn min4(n: nat) -> nat {
    if n < 4 {
        n
    } else {
        4
    }
}

/// `chain_count(e)`, counted up to 4.
fn chain_count_capped(e: &MoveExp) -> (n: u32)
    ensures
        n == min4(chain_count(*e)),
    decreases e,
{
    match e {
        MoveExp::Call { receiver, args, .. } => {
            if !*receiver {
                return 0;
            }
            let mut acc: u32 = 0;
            let mut i: usize = 0;
            proof {
                assert(args@.take(0) =~= Seq::<MoveExp>::empty());
                assert forall|j: int| 0 <= j < args@.len() implies decreases_to!(*e => #[trigger] args@[j]) by {
                    assert(decreases_to!(*e => args@[j]));
                }
            }
            while i < args.len()
                invariant
                    i <= args@.len(),
                    acc == min4(chain_count_list(args@.take(i as int))),
                    forall|j: int| 0 <= j < args@.len() ==> decreases_to!(*e => #[trigger] args@[j]),
                decreases args.len() - i,
            {
                assert(decreases_to!(*e => args@[i as int]));
                let c = chain_count_capped(&args[i]);
                proof {
                    assert(args@.take(i + 1).drop_last() =~= args@.take(i as int));
                }
                acc = if acc + c < 4 {
                    acc + c
                } else {
                    4
                };
                i = i + 1;
            }
            proof {
                assert(args@.take(args@.len() as int) =~= args@);
            }
            if acc + 1 < 4 {
                acc + 1
            } else {
                4
            }
        },
        _ => 0,
    }
}

/// Whether `e` is a chain of more than three receiver calls.
pub fn judge_link_call_exp(e: &MoveExp) -> (b: bool)
    ensures
        b == (chain_count(*e) > 3),
{
    chain_count_capped(e) > 3
}

/// What the rules for breaking calls collect of the expressions of a text.
pub struct CallExtractor {
    /// Where the calls lie.
    pub call_loc_vec: Vec<Loc>,
    /// Where the argument lists of the calls lie.
    pub call_paren_loc_vec: Vec<Loc>,
    /// Where the struct values lie.
    pub pack_in_call_loc_vec: Vec<Loc>,
    /// Where the names of the last calls of long call chains lie.
    pub link_call_name_loc_vec: Vec<Loc>,
}

impl CallExtractor {
    /// What has been collected.
    pub open spec fn collected_so_far(&self) -> Collected {
        (self.call_loc_vec@, self.call_paren_loc_vec@, self.pack_in_call_loc_vec@, self.link_call_name_loc_vec@)
    }

    /// An extractor that has collected nothing.
    pub fn new() -> (r: CallExtractor)
        ensures
            r.collected_so_far() == nothing_collected(),
    {
        CallExtractor {
            call_loc_vec: Vec::new(),
            call_paren_loc_vec: Vec::new(),
            pack_in_call_loc_vec: Vec::new(),
            link_call_name_loc_vec: Vec::new(),
        }
    }

    /// Collects what `collected` gives of `e`, after what was collected before.
    pub fn collect_expr(&mut self, e: &MoveExp)
        ensures
            final(self).collected_so_far() == join_collected(old(self).collected_so_far(), collected(*e)),
        decreases e, 1nat,
    {
        match e {
            MoveExp::Call { loc, name_loc, receiver, args_loc, args } => {
                if name_loc.end > args_loc.start {
                    if *receiver && judge_link_call_exp(e) {
                        self.link_call_name_loc_vec.push(*name_loc);
                        proof {
                            assert(self.collected_so_far() =~= join_collected(
                                old(self).collected_so_far(),
                                collected(*e),
                            ));
                        }
                    } else {
                        proof {
                            assert(self.collected_so_far() =~= join_collected(
                                old(self).collected_so_far(),
                                collected(*e),
                            ));
                        }
                    }
                } else {
                    self.call_loc_vec.push(*loc);
                    self.call_paren_loc_vec.push(*args_loc);
                    let ghost mid = self.collected_so_far();
                    self.collect_list(e, args);
                    proof {
                        let c = collected_list(args@);
                        let o = old(self).collected_so_far();
                        assert(mid.0 == o.0.push(*loc));
                        assert(o.0.push(*loc) + c.0 =~= o.0 + (seq![*loc] + c.0));
                        assert(o.1.push(*args_loc) + c.1 =~= o.1 + (seq![*args_loc] + c.1));
                    }
                }
            },
            MoveExp::Pack { loc, fields } => {
                self.pack_in_call_loc_vec.push(*loc);
                self.collect_list(e, fields);
                proof {
                    let c = collected_list(fields@);
                    let o = old(self).collected_so_far();
                    assert(o.2.push(*loc) + c.2 =~= o.2 + (seq![*loc] + c.2));
                }
            },
            MoveExp::Other { children } => {
                self.collect_list(e, children);
            },
        }
    }

    /// Collects what `collected_list` gives of `es`, the expressions in `parent`.
    fn collect_list(&mut self, parent: &MoveExp, es: &Vec<MoveExp>)
        requires
            forall|i: int| 0 <= i < es@.len() ==> decreases_to!(*parent => #[trigger] es@[i]),
        ensures
            final(self).collected_so_far() == join_collected(old(self).collected_so_far(), collected_list(es@)),
        decreases parent, 0nat,
    {
        let mut i: usize = 0;
        proof {
            assert(es@.take(0) =~= Seq::<MoveExp>::empty());
            assert(join_collected(old(self).collected_so_far(), nothing_collected()) =~= old(self).collected_so_far());
        }
        while i < es.len()
            invariant
                i <= es@.len(),
                forall|i: int| 0 <= i < es@.len() ==> decreases_to!(*parent => #[trigger] es@[i]),
                self.collected_so_far() == join_collected(
                    old(self).collected_so_far(),
                    collected_list(es@.take(i as int)),
                ),
            decreases es.len() - i,
        {
            let ghost before = self.collected_so_far();
            assert(decreases_to!(*parent => es@[i as int]));
            self.collect_expr(&es[i]);
            proof {
                assert(es@.take(i + 1).drop_last() =~= es@.take(i as int));
                assert(es@.take(i + 1).last() == es@[i as int]);
                let o = old(self).collected_so_far();
                let a = collected_list(es@.take(i as int));
                let b = collected(es@[i as int]);
                assert(join_collected(join_collected(o, a), b) =~= join_collected(o, join_collected(a, b)));
            }
            i = i + 1;
        }
        proof {
            assert(es@.take(es@.len() as int) =~= es@);
        }
    }
}

} // verus!
