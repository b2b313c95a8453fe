use movefmt::style::{comment_style, CommentStyle};
use movefmt::comment::{
    char_classes_of, code_comment_slices, contains_comment, filter_normal_code, find_comment_end,
    CharClasses, CodeCharKind,
    CommentCodeSlices, FindUncommented, FullCodeCharKind, LineClasses,
};

#[test]
fn char_classes() {
    let mut iter = CharClasses::new("//\n\n");

    assert_eq!((FullCodeCharKind::StartComment, '/'), iter.next().unwrap());
    assert_eq!((FullCodeCharKind::InComment, '/'), iter.next().unwrap());
    assert_eq!((FullCodeCharKind::EndComment, '\n'), iter.next().unwrap());
    assert_eq!((FullCodeCharKind::Normal, '\n'), iter.next().unwrap());
    assert_eq!(None, iter.next());
}

#[test]
fn comment_code_slices() {
    let input = "code(); /* test */ 1 + 1";
    let mut iter = CommentCodeSlices::new(input);

    assert_eq!((CodeCharKind::Normal, 0, "code(); "), iter.next().unwrap());
    assert_eq!(
        (CodeCharKind::Comment, 8, "/* test */"),
        iter.next().unwrap()
    );
    assert_eq!((CodeCharKind::Normal, 18, " 1 + 1"), iter.next().unwrap());
    assert_eq!(None, iter.next());
}

#[test]
fn test_contains_comment() {
    assert_eq!(contains_comment("abc"), false);
    assert_eq!(contains_comment("abc // qsdf"), true);
    assert_eq!(contains_comment("abc /* kqsdf"), true);
    assert_eq!(contains_comment("abc \" /* */\" qsdf"), false);
}

#[test]
fn test_find_uncommented() {
    fn check(haystack: &str, needle: &str, expected: Option<usize>) {
        assert_eq!(expected, haystack.find_uncommented(needle));
    }

    check("/*/ */test", "test", Some(6));
    check("//test\ntest", "test", Some(7));
    check("/* comment only */", "whatever", None);
    check(
        "/* comment */ some text /* more commentary */ result",
        "result",
        Some(46),
    );
    check("sup // sup", "p", Some(2));
    check("sup", "x", None);
    check(r#"π? /**/ π is nice!"#, r#"π is nice"#, Some(9));
    check("/*sup yo? \n sup*/ sup", "p", Some(20));
    check("hel/*lohello*/lo", "hello", None);
    check("acb", "ab", None);
    check(",/*A*/ ", ",", Some(0));
    check("abc", "abc", Some(0));
    check("/* abc */", "abc", None);
    check("/**/abc/* */", "abc", Some(4));
    check("\"/* abc */\"", "abc", Some(4));
    check("\"/* abc", "abc", Some(4));
}

#[test]
fn test_filter_normal_code() {
    let s = r#"
fn main() {
    println!("hello, world");
}
"#;
    assert_eq!(s, filter_normal_code(s));
    let s_with_comment = r#"
fn main() {
    // hello, world
    println!("hello, world");
}
"#;
    assert_eq!(s, filter_normal_code(s_with_comment));
}

#[test]
fn find_last_uncommented_skips_comments() {
    assert_eq!("a, b /* , */ c, d".find_last_uncommented(","), Some(14));
    assert_eq!("/* x */".find_last_uncommented("x"), None);
    assert_eq!("x // x".find_last_uncommented("x"), Some(0));
}

#[test]
fn find_comment_end_cases() {
    assert_eq!(find_comment_end("/* /* inner */ outer */ code();"), Some(23));
    assert_eq!(find_comment_end("// line\nrest"), Some(8));
    assert_eq!(find_comment_end("/* open"), None);
    assert_eq!(find_comment_end("// line"), None);
    assert_eq!(find_comment_end("/* closed */"), Some(12));
}

#[test]
fn line_classes_kinds() {
    let mut lines = LineClasses::new("a\n// c\n\"s\nt\"\r\nx");
    assert_eq!(lines.next(), Some((FullCodeCharKind::Normal, "a".to_string())));
    assert_eq!(lines.next(), Some((FullCodeCharKind::EndComment, "// c".to_string())));
    assert_eq!(lines.next(), Some((FullCodeCharKind::InString, "\"s".to_string())));
    assert_eq!(lines.next(), Some((FullCodeCharKind::EndString, "t\"".to_string())));
    assert_eq!(lines.next(), Some((FullCodeCharKind::Normal, "x".to_string())));
    assert_eq!(lines.next(), None);
}

#[test]
fn comment_code_slices_line_comments_join() {
    let input = "a; // one\n  // two\nb";
    let mut iter = CommentCodeSlices::new(input);
    assert_eq!((CodeCharKind::Normal, 0, "a; "), iter.next().unwrap());
    assert_eq!((CodeCharKind::Comment, 3, "// one\n  // two\n"), iter.next().unwrap());
    assert_eq!((CodeCharKind::Normal, 19, "b"), iter.next().unwrap());
    assert_eq!(None, iter.next());
}

#[test]
fn comment_code_slices_leading_comment() {
    let mut iter = CommentCodeSlices::new("/* c */x");
    assert_eq!((CodeCharKind::Normal, 0, ""), iter.next().unwrap());
    assert_eq!((CodeCharKind::Comment, 0, "/* c */"), iter.next().unwrap());
    assert_eq!((CodeCharKind::Normal, 7, "x"), iter.next().unwrap());
    assert_eq!(None, iter.next());
}

#[test]
fn find_uncommented_skips_comments_and_strings_count_as_code() {
    assert_eq!("a /* b */ b".find_uncommented("b"), Some(10));
    assert_eq!("// x\n".find_uncommented("x"), None);
    assert_eq!("\"x\"".find_uncommented("x"), Some(1));
}

#[test]
fn filter_normal_code_keeps_comment_free_text() {
    let s = "fn f() {\n    let s = \"// not a comment\";\n}";
    assert_eq!(filter_normal_code(s), s);
}

#[test]
fn normalized_styles_are_line_styles() {
    assert_eq!(comment_style("/** doc */", true), CommentStyle::TripleSlash);
    assert_eq!(comment_style("/*! doc */", true), CommentStyle::Doc);
    assert_eq!(comment_style("/* x */", true), CommentStyle::DoubleSlash);
    assert_eq!(comment_style("/* x */", false), CommentStyle::SingleBullet);
    assert!(comment_style("/** doc */", true).is_line_comment());
    assert_eq!(comment_style("//# note", false), CommentStyle::Custom("//# "));
}

#[test]
fn alphanumeric_third_char_is_not_custom() {
    assert_eq!(comment_style("//a", false), CommentStyle::DoubleSlash);
    assert_eq!(comment_style("// a", false), CommentStyle::DoubleSlash);
    assert_eq!(comment_style("//-- x", false), CommentStyle::Custom("//-- "));
}

#[test]
fn char_classes_of_whole_text() {
    let v = char_classes_of("a/*b*/\n//c\n");
    let chars: String = v.iter().map(|p| p.1).collect();
    assert_eq!(chars, "a/*b*/\n//c\n");
    assert_eq!(v[0].0, FullCodeCharKind::Normal);
    assert_eq!(v[1].0, FullCodeCharKind::StartComment);
    assert_eq!(v[3].0, FullCodeCharKind::InComment);
    assert_eq!(v[5].0, FullCodeCharKind::EndComment);
    assert_eq!(v[7].0, FullCodeCharKind::StartComment);
    assert_eq!(v[10].0, FullCodeCharKind::EndComment);
    assert!(char_classes_of("").is_empty());
}

#[test]
fn code_comment_slices_cut_the_text() {
    let v = code_comment_slices("code(); /* test */ 1 + 1");
    assert_eq!(
        v,
        vec![
            (CodeCharKind::Normal, 0, "code(); "),
            (CodeCharKind::Comment, 8, "/* test */"),
            (CodeCharKind::Normal, 18, " 1 + 1"),
        ]
    );
    let w = code_comment_slices("// only\nx");
    assert_eq!(w[0], (CodeCharKind::Normal, 0, ""));
    assert_eq!(w[1].0, CodeCharKind::Comment);
    let joined: String = w.iter().map(|t| t.2).collect();
    assert_eq!(joined, "// only\nx");
}

#[test]
fn comment_code_slices_next_calls_cut_the_text() {
    let s = "let x = 1; // one\n/* two */ y";
    let mut it = CommentCodeSlices::new(s);
    let mut v = Vec::new();
    while let Some(t) = it.next() {
        v.push(t);
    }
    let joined: String = v.iter().map(|t| t.2).collect();
    assert_eq!(joined, s);
    let mut offset = 0;
    for (k, t) in v.iter().enumerate() {
        assert_eq!(t.1, offset);
        let kind = if k % 2 == 0 { CodeCharKind::Normal } else { CodeCharKind::Comment };
        assert_eq!(t.0, kind);
        if t.0 == CodeCharKind::Comment {
            assert!(!t.2.is_empty());
        }
        offset += t.2.len();
    }
    assert_eq!(None, it.next());
}
