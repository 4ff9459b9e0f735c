use tokei::counter::{classify_line, count_file, LineKind};
use tokei::{Language, Stats};

fn counts(stats: &Stats) -> (usize, usize, usize, usize) {
    (stats.lines, stats.code, stats.comments, stats.blanks)
}

#[test]
fn code_with_trailing_line_comment_is_code() {
    let stats = count_file("a.c", "let x = 5; // comment", &Language::new_c());
    assert_eq!(counts(&stats), (1, 1, 0, 0));
    assert_eq!(stats.name, "a.c");
}

#[test]
fn block_comment_alone_is_comment() {
    let stats = count_file("a.c", "/* comment */", &Language::new_c());
    assert_eq!(counts(&stats), (1, 0, 1, 0));
}

#[test]
fn comment_closed_before_code_is_code() {
    let mut stack = vec![];
    let mut quote = None;
    let kind = classify_line("Hello /* /* */ World", &Language::new_c(), &mut stack, &mut quote);
    assert_eq!(kind, LineKind::Code);
    assert!(stack.is_empty());
}

#[test]
fn nested_comment_left_open_counts_as_comment() {
    let language = Language::new_func().nested();
    let mut stack = vec![];
    let mut quote = None;
    let kind = classify_line("(* (* *) ", &language, &mut stack, &mut quote);
    assert_eq!(kind, LineKind::Comment);
    assert_eq!(stack.len(), 1);
    let stats = count_file("a.ml", "(* (* *) ", &language);
    assert_eq!(counts(&stats), (1, 0, 1, 0));
}

#[test]
fn quoted_comment_markers_are_code() {
    let mut stack = vec![];
    let mut quote = None;
    let kind = classify_line(
        "x = \"/* not a comment */\"",
        &Language::new_c(),
        &mut stack,
        &mut quote,
    );
    assert_eq!(kind, LineKind::Code);
    assert!(stack.is_empty());
}

#[test]
fn whitespace_line_is_blank_outside_and_comment_inside_a_comment() {
    let languages = vec![
        Language::new_c(),
        Language::new_func().nested(),
        Language::new_html(),
        Language::new_hash(),
        Language::new_haskell(),
        Language::new_pro(),
    ];
    for language in &languages {
        let mut stack = vec![];
        let mut quote = None;
        assert_eq!(classify_line(" \t  ", language, &mut stack, &mut quote), LineKind::Blank);
        assert!(stack.is_empty());
        let mut stack = vec!["*/"];
        assert_eq!(classify_line(" \t  ", language, &mut stack, &mut quote), LineKind::Comment);
        assert_eq!(stack, vec!["*/"]);
    }
}

#[test]
fn whitespace_line_inside_quote_is_not_blank() {
    let mut stack = vec![];
    let mut quote = Some("\"");
    let kind = classify_line("   ", &Language::new_c(), &mut stack, &mut quote);
    assert_eq!(kind, LineKind::Comment);
    assert_eq!(quote, Some("\""));
}

#[test]
fn lines_add_up() {
    let text = "/* start\n   \nend */\ncode();\n\n// line\n";
    let stats = count_file("a.c", text, &Language::new_c());
    assert_eq!(counts(&stats), (6, 1, 4, 1));
    assert_eq!(stats.lines, stats.blanks + stats.code + stats.comments);
}

#[test]
fn lines_add_up_on_malformed_text() {
    let texts = [
        "\"never closed\n/* never closed\n\n   \nx",
        "*/ */ \"\"\" \\\n\\",
        "\r\n\r\r\n\n",
        "/* /* /* */\n*/\n*/\n",
    ];
    for text in texts.iter() {
        for language in [Language::new_c(), Language::new_haskell(), Language::new_blank()].iter() {
            let stats = count_file("x", text, language);
            assert_eq!(stats.lines, stats.blanks + stats.code + stats.comments);
        }
    }
}

#[test]
fn text_is_split_at_newlines() {
    let c = Language::new_c();
    assert_eq!(counts(&count_file("x", "", &c)), (0, 0, 0, 0));
    assert_eq!(counts(&count_file("x", "\n", &c)), (1, 0, 0, 1));
    assert_eq!(counts(&count_file("x", "\n\n", &c)), (2, 0, 0, 2));
    assert_eq!(counts(&count_file("x", "a", &c)), (1, 1, 0, 0));
    assert_eq!(counts(&count_file("x", "a\n", &c)), (1, 1, 0, 0));
    assert_eq!(counts(&count_file("x", "a\nb", &c)), (2, 2, 0, 0));
    assert_eq!(counts(&count_file("x", "a\n\nb\n", &c)), (3, 2, 0, 1));
}

#[test]
fn carriage_return_before_newline_belongs_to_the_line_end() {
    let c = Language::new_c();
    // Without the carriage return the closing `*/` ends the line and is seen.
    let stats = count_file("x", "/* a */\r\nb;\r\n", &c);
    assert_eq!(counts(&stats), (2, 1, 1, 0));
    let stats = count_file("x", "\r\n\r\n", &c);
    assert_eq!(counts(&stats), (2, 0, 0, 2));
}

#[test]
fn language_without_delimiters_has_code_and_blanks_only() {
    let text = "{\n\n  \"a\": 1 /* x */\n// y\n}";
    let stats = count_file("a.json", text, &Language::new_blank());
    assert_eq!(counts(&stats), (5, 4, 0, 1));
}

#[test]
fn state_runs_on_from_line_to_line() {
    let text = "a /* b\nc\nd */ e\nf";
    let stats = count_file("a.c", text, &Language::new_c());
    // `a /* b` and `d */ e` hold code, `c` is inside the comment.
    assert_eq!(counts(&stats), (4, 3, 1, 0));
}

#[test]
fn bytes_before_a_comment_are_code() {
    let stats = count_file("a.c", "  // indented", &Language::new_c());
    assert_eq!(counts(&stats), (1, 1, 0, 0));
    let stats = count_file("a.c", "/* a */ /* b */", &Language::new_c());
    assert_eq!(counts(&stats), (1, 1, 0, 0));
}

#[test]
fn hash_comments() {
    let text = "# comment\nx = 1 # trailing\n\n#\n";
    let stats = count_file("a.sh", text, &Language::new_hash());
    assert_eq!(counts(&stats), (4, 1, 2, 1));
}

#[test]
fn haskell_comments_nest() {
    let text = "{- a {- b -} still -}\nmain = x\n-- line\n";
    let stats = count_file("a.hs", text, &Language::new_haskell());
    assert_eq!(counts(&stats), (3, 1, 2, 0));
}
