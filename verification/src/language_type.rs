//! The languages that are known by name, and the syntax of each.

use crate::language::Language;
use crate::matcher::generated_pattern;
use crate::syntax::Tables;
use vstd::prelude::*;

verus! {

/// A language known by name.
#[derive(Clone, Copy, Debug, PartialEq, Eq, Structural, PartialOrd, Ord, Hash)]
pub enum LanguageType {
    /// Bash
    Bash,
    /// C
    C,
    /// Coq
    Coq,
    /// C++
    Cpp,
    /// C#
    CSharp,
    /// CSS
    Css,
    /// D
    D,
    /// Erlang
    Erlang,
    /// Go
    Go,
    /// Haskell
    Haskell,
    /// HTML
    Html,
    /// Idris
    Idris,
    /// Java
    Java,
    /// JavaScript
    JavaScript,
    /// JSON
    Json,
    /// Lisp
    Lisp,
    /// Makefile
    Makefile,
    /// Markdown
    Markdown,
    /// Mustache
    Mustache,
    /// OCaml
    OCaml,
    /// Prolog
    Prolog,
    /// Python
    Python,
    /// Ruby
    Ruby,
    /// Rust
    Rust,
    /// SQL
    Sql,
    /// TeX
    Tex,
    /// Plain text
    Text,
    /// TOML
    Toml,
    /// XML
    Xml,
    /// YAML
    Yaml,
}

impl LanguageType {
    /// The delimiters with which the language is written.
    pub open spec fn tables(self) -> Tables {
        match self {
            LanguageType::Bash => Tables::hash(),
            LanguageType::C => Tables::c(),
            LanguageType::Coq => Tables::func(),
            LanguageType::Cpp => Tables::c(),
            LanguageType::CSharp => Tables::c(),
            LanguageType::Css => Tables::c(),
            LanguageType::D => Tables {
                nested: true,
                nested_comments: seq![("/+", "+/")],
                ..Tables::c()
            },
            LanguageType::Erlang => Tables::quoted(seq!["%"], Seq::empty()),
            LanguageType::Go => Tables::c(),
            LanguageType::Haskell => Tables::haskell(),
            LanguageType::Html => Tables::html(),
            LanguageType::Idris => Tables::haskell(),
            LanguageType::Java => Tables::c(),
            LanguageType::JavaScript => Tables {
                quotes: seq![("\"", "\""), ("'", "'")],
                ..Tables::c()
            },
            LanguageType::Json => Tables::blank(),
            LanguageType::Lisp => Tables::plain(seq![";"], seq![("#|", "|#")]),
            LanguageType::Makefile => Tables::hash(),
            LanguageType::Markdown => Tables::blank(),
            LanguageType::Mustache => Tables::quoted(Seq::empty(), seq![("{{!", "}}")]),
            LanguageType::OCaml => Tables::func(),
            LanguageType::Prolog => Tables::pro(),
            LanguageType::Python => Tables::plain(seq!["#"], seq![("'''", "'''")]),
            LanguageType::Ruby => Tables::plain(seq!["#"], seq![("=begin", "=end")]),
            LanguageType::Rust => Tables { nested: true, ..Tables::c() },
            LanguageType::Sql => Tables::plain(seq!["--"], seq![("/*", "*/")]),
            LanguageType::Tex => Tables::quoted(seq!["%"], Seq::empty()),
            LanguageType::Text => Tables::blank(),
            LanguageType::Toml => Tables::hash(),
            LanguageType::Xml => Tables::html(),
            LanguageType::Yaml => Tables::hash(),
        }
    }

    /// The source of the pattern that finds where a multi line comment of
    /// the language starts.
    pub open spec fn pattern(self) -> Seq<char> {
        match self {
            LanguageType::Bash => ""@,
            LanguageType::C => "/\\*"@,
            LanguageType::Coq => "\\(\\*"@,
            LanguageType::Cpp => "/\\*"@,
            LanguageType::CSharp => "/\\*"@,
            LanguageType::Css => "/\\*"@,
            LanguageType::D => "/\\*"@,
            LanguageType::Erlang => ""@,
            LanguageType::Go => "/\\*"@,
            LanguageType::Haskell => "\\{-"@,
            LanguageType::Html => "<!--"@,
            LanguageType::Idris => "\\{-"@,
            LanguageType::Java => "/\\*"@,
            LanguageType::JavaScript => "/\\*"@,
            LanguageType::Json => ""@,
            LanguageType::Lisp => generated_pattern(seq![("#|", "|#")]),
            LanguageType::Makefile => ""@,
            LanguageType::Markdown => ""@,
            LanguageType::Mustache => generated_pattern(seq![("{{!", "}}")]),
            LanguageType::OCaml => "\\(\\*"@,
            LanguageType::Prolog => "/\\*"@,
            LanguageType::Python => generated_pattern(seq![("'''", "'''")]),
            LanguageType::Ruby => generated_pattern(seq![("=begin", "=end")]),
            LanguageType::Rust => "/\\*"@,
            LanguageType::Sql => generated_pattern(seq![("/*", "*/")]),
            LanguageType::Tex => ""@,
            LanguageType::Text => ""@,
            LanguageType::Toml => ""@,
            LanguageType::Xml => "<!--"@,
            LanguageType::Yaml => ""@,
        }
    }

    /// The language with nothing counted yet.
    pub fn language(self) -> (language: Language)
        ensures
            language.is_fresh(),
            language.tables() == self.tables(),
            language.regex.pattern@ == self.pattern(),
    {
        let language = match self {
            LanguageType::Bash => Language::new_hash(),
            LanguageType::C => Language::new_c(),
            LanguageType::Coq => Language::new_func(),
            LanguageType::Cpp => Language::new_c(),
            LanguageType::CSharp => Language::new_c(),
            LanguageType::Css => Language::new_c(),
            LanguageType::D => Language::new_c().nested_comments(vec![("/+", "+/")]),
            LanguageType::Erlang => Language::new_single(vec!["%"]),
            LanguageType::Go => Language::new_c(),
            LanguageType::Haskell => Language::new_haskell(),
            LanguageType::Html => Language::new_html(),
            LanguageType::Idris => Language::new_haskell(),
            LanguageType::Java => Language::new_c(),
            LanguageType::JavaScript => Language::new_c().set_quotes(
                vec![("\"", "\""), ("'", "'")],
            ),
            LanguageType::Json => Language::new_blank(),
            LanguageType::Lisp => Language::new(vec![";"], vec![("#|", "|#")]),
            LanguageType::Makefile => Language::new_hash(),
            LanguageType::Markdown => Language::new_blank(),
            LanguageType::Mustache => Language::new_multi(vec![("{{!", "}}")]),
            LanguageType::OCaml => Language::new_func(),
            LanguageType::Prolog => Language::new_pro(),
            LanguageType::Python => Language::new(vec!["#"], vec![("'''", "'''")]),
            LanguageType::Ruby => Language::new(vec!["#"], vec![("=begin", "=end")]),
            LanguageType::Rust => Language::new_c().nested(),
            LanguageType::Sql => Language::new(vec!["--"], vec![("/*", "*/")]),
            LanguageType::Tex => Language::new_single(vec!["%"]),
            LanguageType::Text => Language::new_blank(),
            LanguageType::Toml => Language::new_hash(),
            LanguageType::Xml => Language::new_html(),
            LanguageType::Yaml => Language::new_hash(),
        };
        assert(language.tables() =~= self.tables());
        language
    }

    /// The place of the language in the order of the language types, which
    /// is the order in which they are declared.
    pub fn ordinal(self) -> (place: u8)
        ensures
            place == rank(self),
    {
        match self {
            LanguageType::Bash => 0,
            LanguageType::C => 1,
            LanguageType::Coq => 2,
            LanguageType::Cpp => 3,
            LanguageType::CSharp => 4,
            LanguageType::Css => 5,
            LanguageType::D => 6,
            LanguageType::Erlang => 7,
            LanguageType::Go => 8,
            LanguageType::Haskell => 9,
            LanguageType::Html => 10,
            LanguageType::Idris => 11,
            LanguageType::Java => 12,
            LanguageType::JavaScript => 13,
            LanguageType::Json => 14,
            LanguageType::Lisp => 15,
            LanguageType::Makefile => 16,
            LanguageType::Markdown => 17,
            LanguageType::Mustache => 18,
            LanguageType::OCaml => 19,
            LanguageType::Prolog => 20,
            LanguageType::Python => 21,
            LanguageType::Ruby => 22,
            LanguageType::Rust => 23,
            LanguageType::Sql => 24,
            LanguageType::Tex => 25,
            LanguageType::Text => 26,
            LanguageType::Toml => 27,
            LanguageType::Xml => 28,
            LanguageType::Yaml => 29,
        }
    }

    /// Every language, each once, in their order.
    pub fn all() -> (types: Vec<LanguageType>)
        ensures
            forall|language: LanguageType| types@.contains(language),
            types@.no_duplicates(),
            forall|i: int| 0 <= i < types@.len() ==> rank(#[trigger] types@[i]) == i,
    {
        let types = vec![
            LanguageType::Bash,
            LanguageType::C,
            LanguageType::Coq,
            LanguageType::Cpp,
            LanguageType::CSharp,
            LanguageType::Css,
            LanguageType::D,
            LanguageType::Erlang,
            LanguageType::Go,
            LanguageType::Haskell,
            LanguageType::Html,
            LanguageType::Idris,
            LanguageType::Java,
            LanguageType::JavaScript,
            LanguageType::Json,
            LanguageType::Lisp,
            LanguageType::Makefile,
            LanguageType::Markdown,
            LanguageType::Mustache,
            LanguageType::OCaml,
            LanguageType::Prolog,
            LanguageType::Python,
            LanguageType::Ruby,
            LanguageType::Rust,
            LanguageType::Sql,
            LanguageType::Tex,
            LanguageType::Text,
            LanguageType::Toml,
            LanguageType::Xml,
            LanguageType::Yaml,
        ];
        proof {
            assert forall|language: LanguageType| types@.contains(language) by {
                let i = rank(language);
                assert(types@[i] == language);
            }
            assert forall|i: int, j: int|
                0 <= i < types@.len() && 0 <= j < types@.len() && i != j implies types@[i]
                != types@[j] by {
                assert(rank(types@[i]) == i);
                assert(rank(types@[j]) == j);
            }
        }
        types
    }
}

/// The place of a language in the list of all languages.
pub open spec fn rank(language: LanguageType) -> int {
    match language {
        LanguageType::Bash => 0,
        LanguageType::C => 1,
        LanguageType::Coq => 2,
        LanguageType::Cpp => 3,
        LanguageType::CSharp => 4,
        LanguageType::Css => 5,
        LanguageType::D => 6,
        LanguageType::Erlang => 7,
        LanguageType::Go => 8,
        LanguageType::Haskell => 9,
        LanguageType::Html => 10,
        LanguageType::Idris => 11,
        LanguageType::Java => 12,
        LanguageType::JavaScript => 13,
        LanguageType::Json => 14,
        LanguageType::Lisp => 15,
        LanguageType::Makefile => 16,
        LanguageType::Markdown => 17,
        LanguageType::Mustache => 18,
        LanguageType::OCaml => 19,
        LanguageType::Prolog => 20,
        LanguageType::Python => 21,
        LanguageType::Ruby => 22,
        LanguageType::Rust => 23,
        LanguageType::Sql => 24,
        LanguageType::Tex => 25,
        LanguageType::Text => 26,
        LanguageType::Toml => 27,
        LanguageType::Xml => 28,
        LanguageType::Yaml => 29,
    }
}

/// Two languages have the same place only if they are the same.
pub proof fn lemma_rank_injective(a: LanguageType, b: LanguageType)
    requires
        rank(a) == rank(b),
    ensures
        a == b,
{
}

} // verus!
