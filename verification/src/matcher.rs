//! The pattern that finds where a multi line comment starts, and its
//! compiled form.

use regex::Regex;
use vstd::prelude::*;
use vstd::string::*;

verus! {

/// Declares `regex::Regex`, a compiled pattern. Nothing is known of what a
/// value of it holds: it is only carried along.
#[verifier::external_type_specification]
#[verifier::external_body]
pub struct ExRegex(regex::Regex);

/// The characters that have a meaning of their own in a pattern.
pub open spec fn is_meta_character(c: char) -> bool {
    c == '\\' || c == '.' || c == '+' || c == '*' || c == '?' || c == '(' || c == ')' || c == '|'
        || c == '[' || c == ']' || c == '{' || c == '}' || c == '^' || c == '$' || c == '#' || c
        == '&' || c == '-' || c == '~'
}

/// `text` with a backslash put before each of its meta characters.
pub open spec fn escaped(text: Seq<char>) -> Seq<char>
    decreases text.len(),
{
    if text.len() == 0 {
        Seq::empty()
    } else if is_meta_character(text.last()) {
        escaped(text.drop_last()).push('\\').push(text.last())
    } else {
        escaped(text.drop_last()).push(text.last())
    }
}

/// The start delimiters of the first `n` pairs, with a `|` between each two.
pub open spec fn joined_starts(pairs: Seq<(&'static str, &'static str)>, n: nat) -> Seq<char>
    decreases n,
{
    if n == 0 {
        Seq::empty()
    } else if n == 1 {
        pairs[0].0@
    } else {
        joined_starts(pairs, (n - 1) as nat).push('|') + pairs[n - 1].0@
    }
}

/// The pattern that is made for the start delimiters of `multi_line`: they
/// are joined with `|`, and the whole is escaped.
pub open spec fn generated_pattern(multi_line: Seq<(&'static str, &'static str)>) -> Seq<char> {
    escaped(joined_starts(multi_line, multi_line.len()))
}

/// Calls `regex::escape`, which copies `text` and puts a backslash before
/// every character that `regex_syntax::is_meta_character` accepts. Trusted:
/// the result is `escaped` of the text.
#[verifier::external_body]
fn escape_text(text: &str) -> (quoted: String)
    ensures
        quoted@ == escaped(text@),
{
    regex::escape(text)
}

/// Calls `Regex::new` and keeps the compiled pattern, or `None` where the
/// pattern was refused. Trusted, and nothing is claimed of the outcome.
#[verifier::external_body]
fn compile_pattern(pattern: &str) -> (compiled: Option<Regex>) {
    Regex::new(pattern).ok()
}

/// A pattern and, where it could be compiled, its compiled form.
#[derive(Clone, Debug)]
pub struct Matcher {
    /// The source of the pattern.
    pub pattern: String,
    /// The pattern compiled, `None` if the compiler refused it.
    pub compiled: Option<Regex>,
}

impl Matcher {
    /// Compiles `pattern` and keeps both.
    pub fn new(pattern: &str) -> (matcher: Matcher)
        ensures
            matcher.pattern@ == pattern@,
    {
        let compiled = compile_pattern(pattern);
        Matcher { pattern: pattern.to_owned(), compiled }
    }
}

/// The matcher for the start delimiters of `multi_line`: they are joined with
/// `|` and the whole text is then escaped, so the pattern matches that text
/// literally.
pub fn generate_regex(multi_line: &Vec<(&'static str, &'static str)>) -> (matcher: Matcher)
    ensures
        matcher.pattern@ == generated_pattern(multi_line@),
{
    let mut raw = String::new();
    let mut i: usize = 0;
    while i < multi_line.len()
        invariant
            i <= multi_line.len(),
            raw@ == joined_starts(multi_line@, i as nat),
        decreases multi_line.len() - i,
    {
        if i > 0 {
            proof {
                reveal_strlit("|");
            }
            raw.append("|");
            assert(raw@ =~= joined_starts(multi_line@, i as nat).push('|'));
        }
        raw.append(multi_line[i].0);
        i += 1;
        assert(raw@ =~= joined_starts(multi_line@, i as nat));
    }
    let quoted = escape_text(raw.as_str());
    Matcher::new(quoted.as_str())
}

} // verus!
