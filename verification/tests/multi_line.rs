use tokei::multi_line::handle_multi_line;
use tokei::Language;

#[test]
fn both_comments_in_line() {
    let mut stack = vec![];
    let mut quote = None;
    let language = Language::new_c();
    handle_multi_line("Hello /* /* */ World", &language, &mut stack, &mut quote);
    assert_eq!(stack.len(), 0);
}

#[test]
fn comment_hidden_in_single() {
    let mut stack = vec![];
    let mut quote = None;
    let language = Language::new_c();
    handle_multi_line("Hello World // /*", &language, &mut stack, &mut quote);
    assert_eq!(stack.len(), 0);
}

#[test]
fn single_comment_in_multi() {
    let mut stack = vec![];
    let mut quote = None;
    let language = Language::new_c();
    handle_multi_line("Hello /* // */ world", &language, &mut stack, &mut quote);
    assert_eq!(stack.len(), 0);
}

#[test]
fn comment_start() {
    let mut stack = vec![];
    let mut quote = None;
    let language = Language::new_c();
    handle_multi_line("/*Hello World", &language, &mut stack, &mut quote);
    assert_eq!(stack.len(), 1);
}

#[test]
fn both_comments_in_line_nested() {
    let mut stack = vec![];
    let mut quote = None;
    let language = Language::new_func().nested();
    handle_multi_line("Hello (* (* *) World", &language, &mut stack, &mut quote);
    assert_eq!(stack.len(), 1);
}

#[test]
fn comments_of_uneven_length() {
    let mut stack = vec![];
    let mut quote = None;
    let language = Language::new(vec![], vec![("\\<open>", "\\<close>")]).nested();
    handle_multi_line("Hello \\<open> \\<open> \\<close> World",
                      &language,
                      &mut stack,
                      &mut quote);
    assert_eq!(stack.len(), 1);
}

#[test]
fn nested_comment_left_open_at_end_of_input() {
    let mut stack = vec![];
    let mut quote = None;
    let language = Language::new_func().nested();
    let seen = handle_multi_line("(* (* *) ", &language, &mut stack, &mut quote);
    assert_eq!(stack, vec!["*)"]);
    assert_eq!(quote, None);
    assert!(!seen.code_seen);
    assert_eq!(seen.comment_start, None);
}

#[test]
fn first_closer_ends_comment_that_does_not_nest() {
    let mut stack = vec![];
    let mut quote = None;
    let language = Language::new_c();
    let seen = handle_multi_line("Hello /* /* */ World", &language, &mut stack, &mut quote);
    assert!(stack.is_empty());
    assert_eq!(quote, None);
    assert!(seen.code_seen);
    assert_eq!(seen.comment_start, None);
}

#[test]
fn comment_markers_inside_quotes_are_inert() {
    let mut stack = vec![];
    let mut quote = None;
    let language = Language::new_c();
    let seen = handle_multi_line("x = \"/* not a comment */\";", &language, &mut stack, &mut quote);
    assert!(stack.is_empty());
    assert_eq!(quote, None);
    assert!(seen.code_seen);
}

#[test]
fn quote_closed_by_last_byte_stays_open() {
    let mut stack = vec![];
    let mut quote = None;
    let language = Language::new_c();
    handle_multi_line("x = \"/* not a comment */\"", &language, &mut stack, &mut quote);
    assert!(stack.is_empty());
    assert_eq!(quote, Some("\""));
}

#[test]
fn line_comment_reports_its_offset() {
    let mut stack = vec![];
    let mut quote = None;
    let language = Language::new_c();
    let seen = handle_multi_line("let x = 5; // comment", &language, &mut stack, &mut quote);
    assert_eq!(seen.comment_start, Some(11));
    assert!(seen.code_seen);
    assert!(stack.is_empty());
}

#[test]
fn line_comment_alone_has_no_code() {
    let mut stack = vec![];
    let mut quote = None;
    let language = Language::new_c();
    let seen = handle_multi_line("// /* only a comment", &language, &mut stack, &mut quote);
    assert_eq!(seen.comment_start, Some(0));
    assert!(!seen.code_seen);
    assert!(stack.is_empty());
}

#[test]
fn line_comment_is_inert_inside_comment() {
    let mut stack = vec!["*/"];
    let mut quote = None;
    let language = Language::new_c();
    let seen = handle_multi_line("// still open", &language, &mut stack, &mut quote);
    assert_eq!(seen.comment_start, None);
    assert!(!seen.code_seen);
    assert_eq!(stack, vec!["*/"]);
}

#[test]
fn quote_is_inert_inside_comment() {
    let mut stack = vec!["*/"];
    let mut quote = None;
    let language = Language::new_c();
    handle_multi_line("\"text\" more", &language, &mut stack, &mut quote);
    assert_eq!(quote, None);
    assert_eq!(stack, vec!["*/"]);
}

#[test]
fn backslash_does_not_close_a_quote_it_starts() {
    let mut stack = vec![];
    let mut quote = Some("\\");
    let language = Language::new_c();
    handle_multi_line("ab\\cd", &language, &mut stack, &mut quote);
    assert_eq!(quote, Some("\\"));
}

#[test]
fn one_byte_closer_hides_the_next_position() {
    let mut stack = vec![];
    let mut quote = Some("\"");
    let language = Language::new_c();
    // The quote closes at 0, the `/` at 1 is passed unread, so `/*` is not seen.
    let seen = handle_multi_line("\"/* x", &language, &mut stack, &mut quote);
    assert_eq!(quote, None);
    assert!(stack.is_empty());
    assert!(seen.code_seen);
}

#[test]
fn longer_closer_does_not_hide_the_next_position() {
    let mut stack = vec![];
    let mut quote = Some("''");
    let language = Language::new_c();
    // The quote closes at 0; the second `'` at 1 is read, and `/*` at 2 opens.
    handle_multi_line("''/* x", &language, &mut stack, &mut quote);
    assert_eq!(quote, None);
    assert_eq!(stack, vec!["*/"]);
}

#[test]
fn nested_pairs_win_over_multi_line_pairs() {
    let mut stack = vec![];
    let mut quote = None;
    let language = Language::new(vec!["//"], vec![("/*", "*/")]).nested_comments(vec![("/+", "+/")]);
    handle_multi_line("/+ /+ /* /* x", &language, &mut stack, &mut quote);
    // Both `/+` open a level; `/*` opens none, as a comment is open already.
    assert_eq!(stack, vec!["+/", "+/"]);
}

#[test]
fn multi_line_pair_opens_one_level_beside_nested_pairs() {
    let mut stack = vec![];
    let mut quote = None;
    let language = Language::new(vec!["//"], vec![("/*", "*/")]).nested_comments(vec![("/+", "+/")]);
    handle_multi_line("/* /* /+ x", &language, &mut stack, &mut quote);
    assert_eq!(stack, vec!["*/", "+/"]);
}

#[test]
fn closer_shorter_than_window_is_missed_at_end_of_line() {
    let mut stack = vec![];
    let mut quote = None;
    let language = Language::new_html();
    handle_multi_line("<!-- a -->", &language, &mut stack, &mut quote);
    assert_eq!(stack, vec!["-->"]);
    handle_multi_line("--> b", &language, &mut stack, &mut quote);
    assert!(stack.is_empty());
}

#[test]
fn line_shorter_than_window_is_code_where_nothing_is_open() {
    let mut stack = vec![];
    let mut quote = None;
    let language = Language::new_c();
    let seen = handle_multi_line("}", &language, &mut stack, &mut quote);
    assert!(seen.code_seen);
    let mut stack = vec!["*/"];
    let seen = handle_multi_line("}", &language, &mut stack, &mut quote);
    assert!(!seen.code_seen);
}

#[test]
fn window_is_as_wide_as_the_longest_delimiter() {
    assert_eq!(Language::new_c().window_size(), 2);
    assert_eq!(Language::new_html().window_size(), 4);
    assert_eq!(Language::new_hash().window_size(), 1);
    assert_eq!(Language::new_blank().window_size(), 0);
    assert_eq!(Language::new(vec![], vec![("\\<open>", "\\<close>")]).window_size(), 8);
    assert_eq!(Language::new_single(vec!["REM"]).window_size(), 3);
    assert_eq!(Language::new_blank().set_quotes(vec![("'''", "'''")]).window_size(), 3);
    assert_eq!(Language::new_blank().nested_comments(vec![("/+", "+/+")]).window_size(), 3);
}

#[test]
fn ml_like_comments_nest_as_they_are() {
    let mut stack = vec![];
    let mut quote = None;
    let language = Language::new_func();
    handle_multi_line("Hello (* (* *) World", &language, &mut stack, &mut quote);
    assert_eq!(stack, vec!["*)"]);
    handle_multi_line("*) x", &language, &mut stack, &mut quote);
    assert!(stack.is_empty());
}
