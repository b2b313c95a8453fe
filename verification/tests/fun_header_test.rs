use movefmt::fun_header::{
    build_line_indent, build_line_starts, byte_offset_to_line, fun_header_specifier_fmt,
    is_fun_specifiers, line_range, TokenSpan,
};

/// The tokens of `s` as the Move lexer cuts these headers: words and numbers, `::`, and single
/// punctuation characters; whitespace and comments are skipped.
fn lex(s: &str) -> Vec<TokenSpan> {
    let c: Vec<char> = s.chars().collect();
    let mut out = Vec::new();
    let mut i = 0;
    while i < c.len() {
        if c[i].is_whitespace() {
            i += 1;
        } else if c[i] == '/' && i + 1 < c.len() && c[i + 1] == '/' {
            while i < c.len() && c[i] != '\n' {
                i += 1;
            }
        } else if c[i] == '/' && i + 1 < c.len() && c[i + 1] == '*' {
            i += 2;
            while i + 1 < c.len() && !(c[i] == '*' && c[i + 1] == '/') {
                i += 1;
            }
            i += 2;
        } else if c[i].is_alphanumeric() || c[i] == '_' {
            let start = i;
            while i < c.len() && (c[i].is_alphanumeric() || c[i] == '_') {
                i += 1;
            }
            out.push(TokenSpan { start, end: i });
        } else if c[i] == ':' && i + 1 < c.len() && c[i + 1] == ':' {
            out.push(TokenSpan { start: i, end: i + 2 });
            i += 2;
        } else {
            out.push(TokenSpan { start: i, end: i + 1 });
            i += 1;
        }
    }
    out
}

fn fmt(input: &str, indent: &str) -> String {
    fun_header_specifier_fmt(input, &lex(input), indent)
}

#[test]
fn test_rewrite_fun_header_1() {
    let cases = [
        "acquires *(make_up_address(x))",
        "!reads *(0x42), *(0x43)",
        ": u32 !reads *(0x42), *(0x43)",
        ": /*(bool, bool)*/ (bool, bool) ",
    ];
    for input in cases {
        fmt(input, "    ");
    }
}

#[test]
fn test_rewrite_fun_header_2() {
    let cases = [
        ": u64 /* acquires comment1 */ acquires SomeStruct ",
        ": u64 acquires SomeStruct/* acquires comment2 */ ",
        ": u64 /* acquires comment3 */ acquires /* acquires comment4 */ SomeStruct /* acquires comment5 */",
        "acquires R reads R writes T, S reads G<u64> ",
        "fun f11() !reads *(0x42) ",
    ];
    for input in cases {
        fmt(input, "    ");
    }
}

#[test]
fn test_rewrite_fun_header_3() {
    let input = "
        // comment1
        econia: &signer)
        acquires // acquires comment2
        IncentiveParameters 
    ";
    fmt(input, "    ");
}

#[test]
fn test_rewrite_fun_header_4() {
    let input = "
fun complex_function()
    acquires SomeVeryLongStructName,
      AnotherLongStructName
    reads SomeResource
    writes AnotherResource,
      YetAnotherResource
    ";
    let optimized_result = fmt(input, "    ");
    println!("optimized_result = \n{}", optimized_result);
}

#[test]
fn test_exclamation_bug() {
    let input = "reads 0x42::*::*, !reads 0x43::*::*";
    let indent = "        ";
    let result = fmt(input, indent);
    println!("Result: {:?}", result);

    let expected = "\n        reads 0x42::*::*,\n        !reads 0x43::*::* ";
    assert_eq!(result, expected);
}

#[test]
fn single_specifier_is_left_alone() {
    for input in [
        "acquires *(make_up_address(x))",
        "!reads *(0x42), *(0x43)",
        ": u32 !reads *(0x42), *(0x43)",
        ": /*(bool, bool)*/ (bool, bool) ",
        ": u64 /* acquires comment1 */ acquires SomeStruct ",
        "fun f11() !reads *(0x42) ",
        "   ",
        "",
    ] {
        assert_eq!(fmt(input, "    "), input);
    }
}

#[test]
fn several_specifiers_one_per_line() {
    assert_eq!(
        fmt("acquires R reads R writes T, S reads G<u64> ", "    "),
        "\n    acquires R\n    reads R\n    writes T, S\n    reads G<u64> "
    );
    let input = "
fun complex_function()
    acquires SomeVeryLongStructName,
      AnotherLongStructName
    reads SomeResource
    writes AnotherResource,
      YetAnotherResource
    ";
    assert_eq!(
        fmt(input, "    "),
        "\nfun complex_function()\n    \n    acquires SomeVeryLongStructName,\n      AnotherLongStructName\n    reads SomeResource\n    writes AnotherResource,\n      YetAnotherResource "
    );
}

#[test]
fn pure_takes_no_arguments() {
    assert_eq!(fmt(": u8 pure reads R", "  "), ": u8 \n  pure\n  reads R ");
}

#[test]
fn bang_before_other_token_swallows_it() {
    // `!` then `x`: the `x` is dropped from the pieces, so it is not a specifier
    assert_eq!(fmt("reads A ! x writes B", " "), "\n reads A ! x\n writes B ");
    // a `!` apart from its keyword does not make a specifier
    assert_eq!(fmt("reads A ! reads B", " "), "reads A ! reads B");
}

#[test]
fn specifier_words() {
    for w in ["acquires", "reads", "writes", "pure", "!acquires", "!reads", "!writes"] {
        assert!(is_fun_specifiers(w));
    }
    for w in ["!pure", "read", "acquire", "", " reads"] {
        assert!(!is_fun_specifiers(w));
    }
}

#[test]
fn line_start_helpers() {
    use_line_helpers();
}

fn use_line_helpers() {
    assert_eq!(build_line_starts("ab\ncd\n"), vec![0, 3, 6]);
    assert_eq!(build_line_starts(""), vec![0]);
    assert_eq!(build_line_indent("  a\n b\nc", &[0, 4, 7]), vec![2, 1]);
    assert_eq!(build_line_indent("x", &[0]), Vec::<usize>::new());
    let starts = [0usize, 3, 6];
    assert_eq!(byte_offset_to_line(0, &starts), 0);
    assert_eq!(byte_offset_to_line(2, &starts), 0);
    assert_eq!(byte_offset_to_line(3, &starts), 1);
    assert_eq!(byte_offset_to_line(7, &starts), 2);
    assert_eq!(byte_offset_to_line(2, &[5, 9]), 0);
    assert_eq!(line_range(1, &starts, 8), 3..6);
    assert_eq!(line_range(2, &starts, 8), 6..8);
}

#[test]
fn test_performance_comparison() {
    use_performance_cases();
}

fn use_performance_cases() {
    let test_cases = vec![
        "acquires *(make_up_address(x))",
        "!reads *(0x42), *(0x43)",
        ": u32 !reads *(0x42), *(0x43)",
        ": /*(bool, bool)*/ (bool, bool) ",
        ": u64 /* acquires comment1 */ acquires SomeStruct ",
        ": u64 acquires SomeStruct/* acquires comment2 */ ",
        ": u64 /* acquires comment3 */ acquires /* acquires comment4 */ SomeStruct /* acquires comment5 */",
        "acquires R reads R writes T, S reads G<u64> ",
        "fun f11() !reads *(0x42) ",
        "
        // comment1
        econia: &signer)
        acquires // acquires comment2
        IncentiveParameters 
        ",
    ];

    let iterations = 1000;

    let start = std::time::Instant::now();
    for _ in 0..iterations {
        for case in &test_cases {
            fmt(case, "    ");
        }
    }
    let optimized_duration = start.elapsed();

    println!("Optimized version: {:?}", optimized_duration);
}
