use tokei::counter::count_file;
use tokei::{Language, LanguageType, Languages, Sort, Stats};

fn file(name: &str, blanks: usize, code: usize, comments: usize) -> Stats {
    let mut stats = Stats::new(name);
    stats.blanks = blanks;
    stats.code = code;
    stats.comments = comments;
    stats.lines = blanks + code + comments;
    stats
}

#[test]
fn registry_knows_every_language_once() {
    let languages = Languages::new();
    let keys = languages.keys();
    assert_eq!(keys, LanguageType::all());
    assert_eq!(keys.len(), 30);
    assert_eq!(languages.len(), 30);
    for (i, key) in keys.iter().enumerate() {
        assert!(!keys[..i].contains(key));
        let language = languages.get(*key).expect("every key has a language");
        assert!(language.is_empty());
        assert!(language.stats.is_empty());
    }
}

#[test]
fn registry_holds_the_syntax_of_each_language() {
    let languages = Languages::new();
    let rust = languages.get(LanguageType::Rust).unwrap();
    assert_eq!(rust.line_comment, vec!["//"]);
    assert_eq!(rust.multi_line, vec![("/*", "*/")]);
    assert!(rust.nested);
    let d = languages.get(LanguageType::D).unwrap();
    assert_eq!(d.nested_comments, vec![("/+", "+/")]);
    assert!(d.nested);
    let javascript = languages.get(LanguageType::JavaScript).unwrap();
    assert_eq!(javascript.quotes, vec![("\"", "\""), ("'", "'")]);
    let json = languages.get(LanguageType::Json).unwrap();
    assert!(json.is_blank());
    let haskell = languages.get(LanguageType::Haskell).unwrap();
    assert!(haskell.nested);
    assert_eq!(haskell.multi_line, vec![("{-", "-}")]);
    let yaml = languages.get(LanguageType::Yaml).unwrap();
    assert_eq!(yaml.line_comment, vec!["#"]);
    let ocaml = languages.get(LanguageType::OCaml).unwrap();
    assert_eq!(ocaml.multi_line, vec![("(*", "*)")]);
    assert!(ocaml.nested);
    assert!(languages.get(LanguageType::Coq).unwrap().nested);
    let idris = languages.get(LanguageType::Idris).unwrap();
    assert_eq!(idris.line_comment, vec!["--"]);
    assert_eq!(idris.multi_line, vec![("{-", "-}")]);
    assert!(idris.nested);
    assert!(!languages.get(LanguageType::C).unwrap().nested);
    let xml = languages.get(LanguageType::Xml).unwrap();
    assert_eq!(xml.multi_line, vec![("<!--", "-->")]);
    let python = languages.get(LanguageType::Python).unwrap();
    assert_eq!(python.multi_line, vec![("'''", "'''")]);
    assert!(python.quotes.is_empty());
}

#[test]
fn language_type_gives_its_language() {
    for key in LanguageType::all() {
        let language = key.language();
        let listed = Languages::new();
        let other = listed.get(key).unwrap();
        assert_eq!(language.line_comment, other.line_comment);
        assert_eq!(language.multi_line, other.multi_line);
        assert_eq!(language.nested, other.nested);
        assert_eq!(language.nested_comments, other.nested_comments);
        assert_eq!(language.quotes, other.quotes);
        assert!(language.is_empty());
    }
}

#[test]
fn empty_registry_holds_nothing() {
    let languages = Languages::empty();
    assert_eq!(languages.len(), 0);
    assert!(languages.keys().is_empty());
    assert!(languages.get(LanguageType::C).is_none());
    assert!(languages.get_index(0).is_none());
}

#[test]
fn insert_adds_or_replaces() {
    let mut languages = Languages::empty();
    languages.insert(LanguageType::C, Language::new_c());
    languages.insert(LanguageType::Bash, Language::new_hash());
    assert_eq!(languages.keys(), vec![LanguageType::Bash, LanguageType::C]);
    let mut counted = Language::new_c();
    counted.add_stats(file("a.c", 1, 2, 3));
    languages.insert(LanguageType::C, counted);
    assert_eq!(languages.keys(), vec![LanguageType::Bash, LanguageType::C]);
    assert_eq!(languages.get(LanguageType::C).unwrap().lines, 6);
    assert_eq!(languages.get(LanguageType::Bash).unwrap().lines, 0);
}

#[test]
fn get_index_walks_the_listing() {
    let mut languages = Languages::empty();
    languages.insert(LanguageType::Go, Language::new_c());
    languages.insert(LanguageType::Tex, Language::new_single(vec!["%"]));
    let (key, language) = languages.get_index(0).unwrap();
    assert_eq!(key, LanguageType::Go);
    assert_eq!(language.line_comment, vec!["//"]);
    let (key, language) = languages.get_index(1).unwrap();
    assert_eq!(key, LanguageType::Tex);
    assert_eq!(language.line_comment, vec!["%"]);
    assert!(languages.get_index(2).is_none());
}

#[test]
fn add_stats_goes_to_the_language_of_the_key() {
    let mut languages = Languages::new();
    assert!(languages.add_stats(LanguageType::Rust, file("a.rs", 1, 2, 3)));
    assert!(languages.add_stats(LanguageType::Rust, file("b.rs", 10, 20, 30)));
    let rust = languages.get(LanguageType::Rust).unwrap();
    assert_eq!((rust.blanks, rust.code, rust.comments, rust.lines), (11, 22, 33, 66));
    assert_eq!(rust.stats, vec![file("a.rs", 1, 2, 3), file("b.rs", 10, 20, 30)]);
    assert!(languages.get(LanguageType::C).unwrap().is_empty());
    assert_eq!(languages.len(), 30);
}

#[test]
fn add_stats_without_the_key_changes_nothing() {
    let mut languages = Languages::empty();
    languages.insert(LanguageType::C, Language::new_c());
    assert!(!languages.add_stats(LanguageType::Rust, file("a.rs", 1, 2, 3)));
    assert_eq!(languages.keys(), vec![LanguageType::C]);
    assert!(languages.get(LanguageType::C).unwrap().is_empty());
}

#[test]
fn merge_unions_keys_and_merges_shared_ones() {
    let mut left = Languages::empty();
    left.insert(LanguageType::C, Language::new_c());
    left.insert(LanguageType::Go, Language::new_c());
    left.add_stats(LanguageType::C, file("l.c", 1, 2, 3));
    left.add_stats(LanguageType::Go, file("l.go", 7, 7, 7));

    let mut right = Languages::empty();
    right.insert(LanguageType::Rust, Language::new_c().nested());
    right.insert(LanguageType::C, Language::new_c());
    right.add_stats(LanguageType::Rust, file("r.rs", 5, 5, 5));
    right.add_stats(LanguageType::C, file("r.c", 10, 20, 30));

    left.add_assign(right);
    assert_eq!(left.keys(), vec![LanguageType::C, LanguageType::Go, LanguageType::Rust]);
    let c = left.get(LanguageType::C).unwrap();
    assert_eq!((c.blanks, c.code, c.comments, c.lines), (11, 22, 33, 66));
    assert_eq!(c.stats, vec![file("l.c", 1, 2, 3), file("r.c", 10, 20, 30)]);
    let go = left.get(LanguageType::Go).unwrap();
    assert_eq!((go.blanks, go.code, go.comments, go.lines), (7, 7, 7, 21));
    assert_eq!(go.stats, vec![file("l.go", 7, 7, 7)]);
    let rust = left.get(LanguageType::Rust).unwrap();
    assert_eq!((rust.blanks, rust.code, rust.comments, rust.lines), (5, 5, 5, 15));
    assert_eq!(rust.stats, vec![file("r.rs", 5, 5, 5)]);
    assert!(rust.nested);
}

#[test]
fn merge_with_empty_registry_changes_nothing() {
    let mut languages = Languages::empty();
    languages.insert(LanguageType::C, Language::new_c());
    languages.add_stats(LanguageType::C, file("a.c", 1, 2, 3));
    languages.add_assign(Languages::empty());
    assert_eq!(languages.keys(), vec![LanguageType::C]);
    assert_eq!(languages.get(LanguageType::C).unwrap().lines, 6);

    let mut empty = Languages::empty();
    empty.add_assign(languages);
    assert_eq!(empty.keys(), vec![LanguageType::C]);
    assert_eq!(empty.get(LanguageType::C).unwrap().lines, 6);
}

#[test]
fn sort_by_sorts_every_language() {
    let mut languages = Languages::empty();
    languages.insert(LanguageType::C, Language::new_c());
    languages.insert(LanguageType::Go, Language::new_c());
    languages.add_stats(LanguageType::C, file("b.c", 1, 2, 3));
    languages.add_stats(LanguageType::C, file("a.c", 1, 5, 3));
    languages.add_stats(LanguageType::Go, file("z.go", 0, 1, 0));
    languages.add_stats(LanguageType::Go, file("y.go", 0, 9, 0));
    languages.sort_by(Sort::Code);
    let c = languages.get(LanguageType::C).unwrap();
    assert_eq!(c.stats, vec![file("a.c", 1, 5, 3), file("b.c", 1, 2, 3)]);
    let go = languages.get(LanguageType::Go).unwrap();
    assert_eq!(go.stats, vec![file("y.go", 0, 9, 0), file("z.go", 0, 1, 0)]);
    assert_eq!(languages.keys(), vec![LanguageType::C, LanguageType::Go]);
    assert_eq!(c.lines, 15);
}

#[test]
fn counted_files_are_folded_into_the_registry() {
    let mut languages = Languages::new();
    let text = "// a\nfn main() {}\n\n/* b\n c */\n";
    let stats = count_file("main.rs", text, languages.get(LanguageType::Rust).unwrap());
    assert!(languages.add_stats(LanguageType::Rust, stats));
    let rust = languages.get(LanguageType::Rust).unwrap();
    assert_eq!((rust.lines, rust.code, rust.comments, rust.blanks), (5, 1, 3, 1));
    assert_eq!(rust.stats.len(), 1);
    assert_eq!(rust.stats[0].name, "main.rs");
}

#[test]
fn registry_holds_the_pattern_of_each_language() {
    let languages = Languages::new();
    let pattern = |key: LanguageType| languages.get(key).unwrap().regex.pattern.clone();
    assert_eq!(pattern(LanguageType::C), "/\\*");
    assert_eq!(pattern(LanguageType::Rust), "/\\*");
    assert_eq!(pattern(LanguageType::D), "/\\*");
    assert_eq!(pattern(LanguageType::Sql), "/\\*");
    assert_eq!(pattern(LanguageType::OCaml), "\\(\\*");
    assert_eq!(pattern(LanguageType::Haskell), "\\{-");
    assert_eq!(pattern(LanguageType::Idris), "\\{-");
    assert_eq!(pattern(LanguageType::Xml), "<!--");
    assert_eq!(pattern(LanguageType::Lisp), "\\#\\|");
    assert_eq!(pattern(LanguageType::Mustache), "\\{\\{!");
    assert_eq!(pattern(LanguageType::Python), "'''");
    assert_eq!(pattern(LanguageType::Ruby), "=begin");
    assert_eq!(pattern(LanguageType::Yaml), "");
    assert_eq!(pattern(LanguageType::Json), "");
    for key in LanguageType::all() {
        assert_eq!(key.language().regex.pattern, pattern(key));
    }
}

#[test]
fn listing_is_in_the_order_of_the_language_types() {
    let mut languages = Languages::empty();
    for key in [
        LanguageType::Yaml,
        LanguageType::Go,
        LanguageType::Bash,
        LanguageType::Rust,
        LanguageType::C,
        LanguageType::Go,
    ] {
        languages.insert(key, key.language());
    }
    let expected = vec![
        LanguageType::Bash,
        LanguageType::C,
        LanguageType::Go,
        LanguageType::Rust,
        LanguageType::Yaml,
    ];
    assert_eq!(languages.keys(), expected);
    let mut sorted = expected.clone();
    sorted.sort();
    assert_eq!(sorted, expected);
    for (i, key) in expected.iter().enumerate() {
        assert_eq!(languages.get_index(i).unwrap().0, *key);
    }
}

#[test]
fn merge_keeps_the_order_of_the_language_types() {
    let mut left = Languages::empty();
    left.insert(LanguageType::Go, Language::new_c());
    left.insert(LanguageType::Rust, Language::new_c().nested());
    let mut right = Languages::empty();
    right.insert(LanguageType::Toml, Language::new_hash());
    right.insert(LanguageType::C, Language::new_c());
    right.insert(LanguageType::Haskell, Language::new_haskell());
    left.add_assign(right);
    assert_eq!(
        left.keys(),
        vec![
            LanguageType::C,
            LanguageType::Go,
            LanguageType::Haskell,
            LanguageType::Rust,
            LanguageType::Toml,
        ]
    );
}

#[test]
fn ordinal_follows_the_order_of_the_language_types() {
    let all = LanguageType::all();
    for (i, key) in all.iter().enumerate() {
        assert_eq!(key.ordinal() as usize, i);
    }
    let mut sorted = all.clone();
    sorted.sort();
    assert_eq!(sorted, all);
}
