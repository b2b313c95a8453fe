use movefmt::call_extract::{judge_link_call_exp, CallExtractor, Loc, MoveExp};

fn loc(start: u32, end: u32) -> Loc {
    Loc { start, end }
}

fn leaf() -> MoveExp {
    MoveExp::Other { children: vec![] }
}

/// `x.m1().m2()...` with `n` receiver calls, the last name at `name`.
fn chain(n: u32) -> MoveExp {
    let mut e = leaf();
    for k in 0..n {
        let start = 2 + 5 * k;
        e = MoveExp::Call {
            loc: loc(0, start + 4),
            name_loc: loc(start, start + 2),
            receiver: true,
            args_loc: loc(0, start + 4),
            args: vec![e],
        };
    }
    e
}

#[test]
fn collects_calls_argument_lists_and_struct_values() {
    // f(a, g(b), S { x: h() })
    let h = MoveExp::Call { loc: loc(18, 21), name_loc: loc(18, 19), receiver: false, args_loc: loc(19, 21), args: vec![] };
    let pack = MoveExp::Pack { loc: loc(11, 23), fields: vec![h] };
    let g = MoveExp::Call { loc: loc(5, 9), name_loc: loc(5, 6), receiver: false, args_loc: loc(6, 9), args: vec![leaf()] };
    let f = MoveExp::Call { loc: loc(0, 24), name_loc: loc(0, 1), receiver: false, args_loc: loc(1, 24), args: vec![leaf(), g, pack] };
    let mut c = CallExtractor::new();
    c.collect_expr(&f);
    assert_eq!(c.call_loc_vec, vec![loc(0, 24), loc(5, 9), loc(18, 21)]);
    assert_eq!(c.call_paren_loc_vec, vec![loc(1, 24), loc(6, 9), loc(19, 21)]);
    assert_eq!(c.pack_in_call_loc_vec, vec![loc(11, 23)]);
    assert!(c.link_call_name_loc_vec.is_empty());
}

#[test]
fn long_receiver_chains_are_recorded_by_their_last_name() {
    assert!(!judge_link_call_exp(&chain(3)));
    assert!(judge_link_call_exp(&chain(4)));
    assert!(!judge_link_call_exp(&leaf()));
    let mut c = CallExtractor::new();
    c.collect_expr(&chain(3));
    assert!(c.link_call_name_loc_vec.is_empty());
    let block = MoveExp::Other { children: vec![chain(4), chain(5)] };
    c.collect_expr(&block);
    assert_eq!(c.link_call_name_loc_vec, vec![loc(17, 19), loc(22, 24)]);
    assert!(c.call_loc_vec.is_empty());
}
