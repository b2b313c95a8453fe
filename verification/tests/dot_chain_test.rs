use movefmt::dot_chain::{fmt_arg, fmt_chain, parse_dot_chain, slice_to_raw, ChainMember, Tok};

fn ident(s: &str) -> Tok {
    Tok::Ident(s.to_string())
}

#[test]
fn simple_field_chain() {
    // a.b.c
    let toks = vec![ident("a"), Tok::Dot, ident("b"), Tok::Dot, ident("c")];
    let res = parse_dot_chain(toks).unwrap();
    assert_eq!(
        res,
        vec![
            ChainMember::Field("a".into()),
            ChainMember::Field("b".into()),
            ChainMember::Field("c".into())
        ]
    );
}

#[test]
fn function_call_chain() {
    // a.f1().f2(x)
    let toks = vec![
        ident("a"),
        Tok::Dot,
        ident("f1"),
        Tok::LParen,
        Tok::RParen,
        Tok::Dot,
        ident("f2"),
        Tok::LParen,
        ident("x"),
        Tok::RParen,
    ];
    let res = parse_dot_chain(toks).unwrap();
    assert_eq!(res.len(), 3);
    match &res[2] {
        ChainMember::Call(name, args) => {
            assert_eq!(name, "f2");
            assert_eq!(args.len(), 1);
            assert_eq!(args[0][0], ChainMember::Field("x".into()));
        }
        _ => panic!(),
    }
}

#[test]
fn generic_call() {
    // a.m<>()
    let toks = vec![
        ident("a"),
        Tok::Dot,
        ident("m"),
        Tok::Less,
        Tok::Greater,
        Tok::LParen,
        Tok::RParen,
    ];
    let res = parse_dot_chain(toks).unwrap();
    match &res[1] {
        ChainMember::Call(name, args) => {
            assert_eq!(name, "m");
            assert!(args.is_empty());
        }
        _ => panic!(),
    }
}

#[test]
fn invalid_missing_identifier() {
    // a.(
    let toks = vec![ident("a"), Tok::Dot, Tok::LParen];
    assert!(parse_dot_chain(toks).is_none());
}

#[test]
fn invalid_leading_dot() {
    // .a
    let toks = vec![Tok::Dot, ident("a")];
    assert!(parse_dot_chain(toks).is_none());
}

#[test]
fn long_pure_field() {
    // a.b.c.d.e.f.g.h.i.j.k.l.m.n.o.p.q.r.s.t.u.v.w.x.y.z
    let toks = "a.b.c.d.e.f.g.h.i.j.k.l.m.n.o.p.q.r.s.t.u.v.w.x.y.z"
        .split('.')
        .flat_map(|s| [ident(s), Tok::Dot])
        .collect::<Vec<_>>();
    let toks = &toks[..toks.len() - 1]; // remove trailing Dot
    let res = parse_dot_chain(toks.to_vec()).unwrap();
    assert_eq!(res.len(), 26);
    assert!(matches!(res.last().unwrap(), ChainMember::Field(n) if n == "z"));
}

#[test]
fn long_mixed_chain() {
    // a.b().c.d().e<f>().g()
    let toks = vec![
        ident("a"),
        Tok::Dot,
        ident("b"),
        Tok::LParen,
        Tok::RParen,
        Tok::Dot,
        ident("c"),
        Tok::Dot,
        ident("d"),
        Tok::LParen,
        Tok::RParen,
        Tok::Dot,
        ident("e"),
        Tok::Less,
        Tok::Greater,
        Tok::LParen,
        Tok::RParen,
        Tok::Dot,
        ident("g"),
        Tok::LParen,
        Tok::RParen,
    ];
    let res = parse_dot_chain(toks).unwrap();
    assert_eq!(res.len(), 6);
    let calls: Vec<_> = res
        .iter()
        .filter(|m| matches!(m, ChainMember::Call(_, _)))
        .collect();
    assert_eq!(calls.len(), 4);
}

#[test]
fn nested_call_args() {
    // a.f(b.c, d.e.g())
    let toks = vec![
        ident("a"),
        Tok::Dot,
        ident("f"),
        Tok::LParen,
        ident("b"),
        Tok::Dot,
        ident("c"),
        Tok::Comma,
        ident("d"),
        Tok::Dot,
        ident("e"),
        Tok::Dot,
        ident("g"),
        Tok::LParen,
        Tok::RParen,
        Tok::RParen,
    ];
    let res = parse_dot_chain(toks).unwrap();
    assert_eq!(res.len(), 2); // a, f(...)
    match &res[1] {
        ChainMember::Call(_, args) => {
            assert_eq!(args.len(), 2);
            assert_eq!(args[0][0], ChainMember::Field("b".into()));
            assert_eq!(args[0][1], ChainMember::Field("c".into()));
            assert_eq!(args[1][2], ChainMember::Field("g".into()));
        }
        _ => panic!(),
    }
}

#[test]
fn huge_single_line() {
    // a.f1().f2().f3()...f100()
    let mut toks = vec![ident("a")];
    for i in 1..=100 {
        toks.extend([Tok::Dot, ident(&format!("f{i}")), Tok::LParen, Tok::RParen]);
    }
    let res = parse_dot_chain(toks).unwrap();
    assert_eq!(res.len(), 101);
    assert!(matches!(res.last().unwrap(), ChainMember::Call(n, _) if n == "f100"));
}

#[test]
fn call_with_simple_binary_args() {
    // a.f(b + 1, c - 1)
    let toks = vec![
        ident("a"),
        Tok::Dot,
        ident("f"),
        Tok::LParen,
        ident("b"),
        ident("+"),
        ident("1"),
        Tok::Comma,
        ident("c"),
        ident("-"),
        ident("1"),
        Tok::RParen,
    ];
    let res = parse_dot_chain(toks).unwrap();
    assert_eq!(res.len(), 2);
    match &res[1] {
        ChainMember::Call(name, args) => {
            assert_eq!(name, "f");
            assert_eq!(args.len(), 2);
            assert_eq!(
                args[0],
                vec![
                    ChainMember::Field("b".into()),
                    ChainMember::Field("+".into()),
                    ChainMember::Field("1".into()),
                ]
            );
            assert_eq!(
                args[1],
                vec![
                    ChainMember::Field("c".into()),
                    ChainMember::Field("-".into()),
                    ChainMember::Field("1".into()),
                ]
            );
        }
        _ => panic!(),
    }
}

#[test]
fn single_arg_binary_expression() {
    // obj.method(a * b / c)
    let toks = vec![
        ident("obj"),
        Tok::Dot,
        ident("method"),
        Tok::LParen,
        ident("a"),
        ident("*"),
        ident("b"),
        ident("/"),
        ident("c"),
        Tok::RParen,
    ];
    let res = parse_dot_chain(toks).unwrap();
    assert_eq!(res.len(), 2);
    if let ChainMember::Call(_, args) = &res[1] {
        assert_eq!(args.len(), 1);
        assert_eq!(
            args[0],
            vec![
                ChainMember::Field("a".into()),
                ChainMember::Field("*".into()),
                ChainMember::Field("b".into()),
                ChainMember::Field("/".into()),
                ChainMember::Field("c".into()),
            ]
        );
    } else {
        panic!();
    }
}

#[test]
fn empty_call_with_binary_expression_in_generic() {
    // foo.bar<1 + 2>()
    let toks = vec![
        ident("foo"),
        Tok::Dot,
        ident("bar"),
        Tok::Less,
        ident("1"),
        ident("+"),
        ident("2"),
        Tok::Greater,
        Tok::LParen,
        Tok::RParen,
    ];
    let res = parse_dot_chain(toks).unwrap();
    assert_eq!(res.len(), 2);
    match &res[1] {
        ChainMember::Call(name, args) => {
            assert_eq!(name, "bar");
            assert!(args.is_empty());
        }
        _ => panic!(),
    }
}

#[test]
fn chain_stops_at_unclosed_generic() {
    let toks = vec![ident("a"), Tok::Dot, ident("m"), Tok::Less, ident("T")];
    assert!(parse_dot_chain(toks).is_none());
}

#[test]
fn chain_rejects_trailing_tokens() {
    let toks = vec![ident("a"), Tok::Dot, ident("b"), ident("c")];
    assert!(parse_dot_chain(toks).is_none());
}

#[test]
fn nested_parens_and_commas_in_argument() {
    // a.f(g(x, y), z)
    let toks = vec![
        ident("a"),
        Tok::Dot,
        ident("f"),
        Tok::LParen,
        ident("g"),
        Tok::LParen,
        ident("x"),
        Tok::Comma,
        ident("y"),
        Tok::RParen,
        Tok::Comma,
        ident("z"),
        Tok::RParen,
    ];
    let res = parse_dot_chain(toks).unwrap();
    match &res[1] {
        ChainMember::Call(_, args) => {
            assert_eq!(args.len(), 2);
            assert_eq!(
                args[0],
                vec![ChainMember::Call(
                    "g".into(),
                    vec![vec![ChainMember::Field("x".into())], vec![ChainMember::Field("y".into())]]
                )]
            );
            assert_eq!(args[1], vec![ChainMember::Field("z".into())]);
        }
        _ => panic!(),
    }
}

#[test]
fn fmt_chain_prints_parsed_chain() {
    // a.b(x, y).c
    let toks = vec![
        ident("a"),
        Tok::Dot,
        ident("b"),
        Tok::LParen,
        ident("x"),
        Tok::Comma,
        ident("y"),
        Tok::RParen,
        Tok::Dot,
        ident("c"),
    ];
    let chain = parse_dot_chain(toks).unwrap();
    assert_eq!(fmt_chain(&chain), "a.b(x, y).c");
}

#[test]
fn fmt_arg_joins_members_with_spaces() {
    let arg = vec![
        ChainMember::Field("x".into()),
        ChainMember::Raw("ignored".into()),
        ChainMember::Call("f".into(), vec![vec![ChainMember::Field("y".into())], vec![]]),
    ];
    assert_eq!(fmt_arg(&arg), "x  f(y, )");
}

#[test]
fn slice_to_raw_tightens_brackets() {
    let toks = vec![
        ident("foo"),
        Tok::Less,
        ident("T"),
        Tok::Greater,
        Tok::LParen,
        ident("x"),
        Tok::Comma,
        ident("y"),
        Tok::RParen,
        Tok::Dot,
    ];
    assert_eq!(slice_to_raw(&toks), "foo<T >(x,y )");
}

#[test]
fn field_chain_prints_names_joined_by_dots() {
    let toks = vec![ident("alpha"), Tok::Dot, ident("beta"), Tok::Dot, ident("gamma")];
    let chain = parse_dot_chain(toks).unwrap();
    assert_eq!(fmt_chain(&chain), "alpha.beta.gamma");
    let single = parse_dot_chain(vec![ident("solo")]).unwrap();
    assert_eq!(fmt_chain(&single), "solo");
}

#[test]
fn nested_call_with_mixed_expressions() {
    // a.g(x + y * z, h(1 + 2))
    let toks = vec![
        ident("a"),
        Tok::Dot,
        ident("g"),
        Tok::LParen,
        ident("x"),
        ident("+"),
        ident("y"),
        ident("*"),
        ident("z"),
        Tok::Comma,
        ident("h"),
        Tok::LParen,
        ident("1"),
        ident("+"),
        ident("2"),
        Tok::RParen,
        Tok::RParen,
    ];
    let res = parse_dot_chain(toks).unwrap();
    assert_eq!(res.len(), 2);
    match &res[1] {
        ChainMember::Call(name, args) => {
            assert_eq!(name, "g");
            assert_eq!(args.len(), 2);
            // arg0: x + y * z
            assert_eq!(
                args[0],
                vec![
                    ChainMember::Field("x".into()),
                    ChainMember::Field("+".into()),
                    ChainMember::Field("y".into()),
                    ChainMember::Field("*".into()),
                    ChainMember::Field("z".into()),
                ]
            );
            // arg1: h(1 + 2)
            println!("{}", fmt_chain(&res));
            println!("{}", fmt_chain(&args[1]));
            match &args[1][0] {
                ChainMember::Call(inner_name, inner_args) => {
                    assert_eq!(inner_name, "h");
                    assert_eq!(
                        inner_args[0],
                        vec![
                            ChainMember::Field("1".into()),
                            ChainMember::Field("+".into()),
                            ChainMember::Field("2".into()),
                        ]
                    );
                }
                _ => panic!(),
            }
        }
        _ => panic!(),
    }
}

#[test]
fn nested_call_prints_with_its_arguments() {
    let toks = vec![
        ident("a"),
        Tok::Dot,
        ident("g"),
        Tok::LParen,
        ident("h"),
        Tok::LParen,
        ident("1"),
        ident("+"),
        ident("2"),
        Tok::RParen,
        Tok::Comma,
        ident("k"),
        Tok::LParen,
        Tok::RParen,
        Tok::RParen,
    ];
    let res = parse_dot_chain(toks).unwrap();
    assert_eq!(fmt_chain(&res), "a.g(h(1 + 2), k ( ))");
}
