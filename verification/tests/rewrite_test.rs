use movefmt::comment_rewrite::rewrite_comment_inner;
use movefmt::style::CommentStyle;
use movefmt::comment_rewrite::{has_url, is_table_item};
use movefmt::config::Config;
use movefmt::comment::rewrite_comment;
use movefmt::layout::trim_left_preserve_layout;
use movefmt::rewrite::light_rewrite_comment;
use movefmt::shape::{Indent, Shape};
use movefmt::string_fmt::{break_string, detect_url, rewrite_string, SnippetState, StringFormat};
use movefmt::comment_rewrite::{hide_sharp_behind_comment, trim_custom_comment_prefix};

#[test]
fn test_rewrite_comment_1() {
    let orig = "/* This is a multi-line\n * comment */\n\n// This is a single-line comment";
    let block_style = false;
    let indent = Indent::new(0, 0);
    let shape = Shape {
        width: 100,
        indent,
        offset: 0,
    };
    let config = &Config::default();
    if let Some(comment) = rewrite_comment(orig, block_style, shape, config) {
        println!("{}", comment);
    }
}

fn shape_with(block_indent: usize) -> Shape {
    Shape {
        width: 100,
        indent: Indent::new(block_indent, 0),
        offset: 0,
    }
}

#[test]
fn rewrite_comment_block_then_line() {
    let orig = "/* This is a multi-line\n * comment */\n\n// This is a single-line comment";
    let r = rewrite_comment(orig, false, shape_with(0), &Config::default());
    assert_eq!(
        r,
        Some("/* This is a multi-line\n* comment */\n// This is a single-line comment".to_string())
    );
}

#[test]
fn rewrite_comment_keeps_blank_line_between_line_groups() {
    let r = rewrite_comment("// a\n\n// b", false, shape_with(0), &Config::default());
    assert_eq!(r, Some("// a\n\n// b".to_string()));
}

#[test]
fn rewrite_comment_reindents_following_lines() {
    let r = rewrite_comment("// a\n        // b", false, shape_with(4), &Config::default());
    assert_eq!(r, Some("// a\n    // b".to_string()));
}

#[test]
fn rewrite_comment_single_line_unchanged() {
    let r = rewrite_comment("/// doc line", false, shape_with(8), &Config::default());
    assert_eq!(r, Some("/// doc line".to_string()));
}

#[test]
fn rewrite_comment_block_keeps_layout_of_bare_lines() {
    let orig = "/* a\n      b\n    c */";
    let r = rewrite_comment(orig, false, shape_with(0), &Config::default());
    assert_eq!(r, Some("/* a\n  b\nc */".to_string()));
}

#[test]
fn rewrite_comment_block_layout_with_hard_tabs() {
    let mut config = Config::default();
    config.hard_tabs = true;
    config.tab_spaces = 4;
    let orig = "/* a\n      b\n    c */";
    let r = rewrite_comment(orig, false, shape_with(4), &config);
    assert_eq!(r, Some("/* a\n\t  b\n\tc */".to_string()));
}

#[test]
fn rewrite_comment_none_without_reindentable_line() {
    let r = rewrite_comment("/* a\n\n", false, shape_with(0), &Config::default());
    assert_eq!(r, None);
}

#[test]
fn light_rewrite_comment_trims_and_indents() {
    let r = light_rewrite_comment("  // a  \n   // b\n", Indent::new(2, 0), &Config::default(), false);
    assert_eq!(r, "// a\n  // b");
    let doc = light_rewrite_comment("/// a  \n/// b ", Indent::new(0, 0), &Config::default(), true);
    assert_eq!(doc, "/// a  \n/// b");
}

#[test]
fn trim_left_preserve_layout_keeps_relative_indent() {
    let r = trim_left_preserve_layout("first  \n   x\n     y", Indent::new(2, 0), &Config::default());
    assert_eq!(r, Some("first\n  x\n    y".to_string()));
}

#[test]
fn trim_left_preserve_layout_leaves_string_lines() {
    let r = trim_left_preserve_layout("x = \"a\n   b\n  c\";\n d", Indent::new(0, 0), &Config::default());
    assert_eq!(r, Some("x = \"a\n   b\n  c\";\nd".to_string()));
}

#[test]
fn trim_left_preserve_layout_single_line_is_none() {
    let r = trim_left_preserve_layout("only", Indent::new(0, 0), &Config::default());
    assert_eq!(r, None);
}

#[test]
fn rewrite_string_breaks_at_whitespace() {
    let config = Config::default();
    let fmt = StringFormat {
        opener: "",
        closer: "",
        line_start: "// ",
        line_end: "",
        shape: Shape::legacy(20, Indent::new(0, 0)),
        trim_end: true,
        config: &config,
    };
    let r = rewrite_string("aaa bbb ccc ddd eee fff ggg", &fmt, 20);
    assert_eq!(r, Some("aaa bbb ccc ddd eee\n// fff ggg".to_string()));
}

#[test]
fn rewrite_string_strips_line_continuations() {
    let config = Config::default();
    let fmt = StringFormat::new(Shape::legacy(100, Indent::new(0, 0)), &config);
    let r = rewrite_string("abc\\\n   def", &fmt, 100);
    assert_eq!(r, Some("\"abcdef\"".to_string()));
}

#[test]
fn rewrite_string_counts_display_width() {
    let config = Config::default();
    let fmt = StringFormat {
        opener: "",
        closer: "",
        line_start: "",
        line_end: "",
        shape: Shape::legacy(5, Indent::new(0, 0)),
        trim_end: true,
        config: &config,
    };
    assert_eq!(rewrite_string("日本語", &fmt, 5), None);
    assert_eq!(rewrite_string("abc", &fmt, 5), Some("abc".to_string()));
}

#[test]
fn string_format_widths() {
    let config = Config::default();
    let fmt = StringFormat::new(Shape::legacy(10, Indent::new(0, 0)), &config);
    assert_eq!(fmt.max_width_with_indent(), Some(8));
    assert_eq!(fmt.max_width_without_indent(), Some(99));
    let narrow = StringFormat::new(Shape::legacy(1, Indent::new(0, 0)), &config);
    assert_eq!(narrow.max_width_with_indent(), None);
}

#[test]
fn indent_strings() {
    let config = Config::default();
    assert_eq!(Indent::new(4, 2).to_string(&config), "      ");
    let mut tabs = Config::default();
    tabs.hard_tabs = true;
    assert_eq!(Indent::new(8, 1).to_string(&tabs), "\t\t ");
    assert_eq!(Indent::new(4, 0).to_string_with_newline(&config), "\n    ");
    let from = Indent::from_width(&tabs, 6);
    assert_eq!((from.block_indent, from.alignment), (4, 2));
    assert_eq!(Indent::from_width(&config, 6).width(), 6);
}

#[test]
fn one_line_comments_unchanged() {
    for c in ["/* a */", "// abc", "//! doc", "/** x */ y", "//#custom"] {
        assert_eq!(
            rewrite_comment(c, false, shape_with(4), &Config::default()),
            Some(c.to_string())
        );
    }
}

#[test]
fn rewrite_string_breaks_after_punctuation() {
    let config = Config::default();
    let fmt = StringFormat {
        opener: "",
        closer: "",
        line_start: "",
        line_end: "",
        shape: Shape::legacy(15, Indent::new(0, 0)),
        trim_end: true,
        config: &config,
    };
    assert_eq!(
        rewrite_string("aaaaaaaaaaaa.bbbbbbbbbb", &fmt, 15),
        Some("aaaaaaaaaaaa.\nbbbbbbbbbb".to_string())
    );
}

#[test]
fn urls_and_tables() {
    assert!(has_url("see https://example.com"));
    assert!(has_url("[example]: this::is::a::link"));
    assert!(has_url("[x] : y"));
    assert!(!has_url("[] : y"));
    assert!(!has_url("[a\nb]: y"));
    assert!(!has_url("plain text"));
    assert!(is_table_item("  | a | b |"));
    assert!(!is_table_item("| a"));
    assert!(!is_table_item("a | b"));
}

#[test]
fn doc_comment_line_kept() {
    let r = rewrite_comment_inner(
        "/// hello",
        false,
        CommentStyle::TripleSlash,
        shape_with(0),
        &Config::default(),
        true,
    );
    assert_eq!(r, Some("/// hello".to_string()));
}

#[test]
fn doc_comment_long_line_wrapped() {
    let shape = Shape {
        width: 20,
        indent: Indent::new(0, 0),
        offset: 0,
    };
    let r = rewrite_comment_inner(
        "/// aaa bbb ccc ddd eee fff ggg hhh",
        false,
        CommentStyle::TripleSlash,
        shape,
        &Config::default(),
        true,
    );
    assert_eq!(r, Some("/// aaa bbb ccc ddd\n/// eee fff ggg hhh".to_string()));
}

#[test]
fn doc_comment_code_block_kept() {
    let r = rewrite_comment_inner(
        "/// text\n/// ```\n/// # hidden\n/// code",
        false,
        CommentStyle::TripleSlash,
        shape_with(0),
        &Config::default(),
        true,
    );
    assert_eq!(r, Some("/// text\n/// ```\n/// # hidden\n/// code".to_string()));
}

#[test]
fn hide_sharp_round_trip_on_lines() {
    for s in ["# hidden line", "  #[attr]", "plain code", "", "#"] {
        assert_eq!(trim_custom_comment_prefix(&hide_sharp_behind_comment(s)), s);
    }
    assert_eq!(hide_sharp_behind_comment("# x"), "//#### # x");
    assert_eq!(hide_sharp_behind_comment("y"), "y");
}

#[test]
fn detect_url_looks_in_the_word_at_the_index() {
    let u: Vec<String> = ["h", "t", "t", "p", "s", ":", "/", "/", "a", " ", "b"]
        .iter()
        .map(|g| g.to_string())
        .collect();
    assert_eq!(detect_url(&u, 0, 3), Some(8));
    assert_eq!(detect_url(&u, 0, 10), None);
    let w: Vec<String> = ["a", "b", " ", "h", "t", "t", "p", ":", "/", "/", "x"]
        .iter()
        .map(|g| g.to_string())
        .collect();
    assert_eq!(detect_url(&w, 0, 0), None);
    assert_eq!(detect_url(&w, 0, 5), Some(10));
    assert_eq!(detect_url(&w, 2, 3), Some(8));
}

#[test]
fn break_string_without_trimming_keeps_the_text() {
    let text = "abcdefghij klmnopqrst uvwxyz\nend of it all here";
    let gs: Vec<String> = text.chars().map(|c| c.to_string()).collect();
    let mut from = 0;
    let mut joined = String::new();
    loop {
        match break_string(12, false, "", &gs, from) {
            SnippetState::EndOfInput(l) => {
                joined.push_str(&l);
                break;
            }
            SnippetState::LineEnd(l, n) | SnippetState::EndWithLineFeed(l, n) => {
                assert!(n >= 1);
                assert_eq!(l, gs[from..from + n].concat());
                joined.push_str(&l);
                from += n;
            }
        }
    }
    assert_eq!(joined, text);
}
