//! A language: its comment syntax and the statistics gathered under it.

use crate::matcher::{generate_regex, generated_pattern, Matcher};
use crate::sort::{sort_stats, sorts_stably, Sort};
use crate::stats::{lemma_sum_totals_concat, lemma_sum_totals_prefix, sum_totals, Stats, Totals};
use crate::syntax::{
    larger, longest_marker, longest_pair, marker_bytes, pair_bytes, Syntax, Tables,
};
use vstd::prelude::*;
use vstd::string::*;

verus! {

/// A language cannot be scanned: none of its delimiters holds a byte.
#[derive(Clone, Copy, Debug, PartialEq, Eq, Structural)]
pub struct ConfigurationError;

/// A language without statistics has no lines.
pub proof fn lemma_fresh_is_empty(language: Language)
    requires
        language.is_fresh(),
    ensures
        language.totals() == Totals::zero(),
        language.wf(),
{
}

/// The totals of a merge do not depend on which language was merged into
/// which. The lists of statistics do: each merge puts the statistics of the
/// language merged in behind those of the other.
pub proof fn lemma_merge_totals_commute(a: Language, b: Language)
    ensures
        a.totals().plus(b.totals()) == b.totals().plus(a.totals()),
{
}

/// Merging with a language that has no lines leaves the totals as they are,
/// whichever of the two is merged into the other.
pub proof fn lemma_merge_empty_is_identity(language: Language, empty: Language)
    requires
        empty.totals() == Totals::zero(),
    ensures
        language.totals().plus(empty.totals()) == language.totals(),
        empty.totals().plus(language.totals()) == language.totals(),
{
}

/// A single language: the totals over its files, the statistics of each
/// file, and the delimiters of its comments and quoted literals.
#[derive(Clone, Debug)]
pub struct Language {
    /// Number of blank lines.
    pub blanks: usize,
    /// Number of lines of code.
    pub code: usize,
    /// Number of comments (both single, and multi line).
    pub comments: usize,
    /// The statistics of each file, in the order in which they were added.
    pub stats: Vec<Stats>,
    /// Number of total lines.
    pub lines: usize,
    /// The markers of single line comments, such as `//` in Rust.
    pub line_comment: Vec<&'static str>,
    /// Start and end of each multi line comment, such as `/*` and `*/`.
    pub multi_line: Vec<(&'static str, &'static str)>,
    /// Whether the language supports nested multi line comments.
    pub nested: bool,
    /// The multi line comments that nest. Where this is empty and `nested`
    /// holds, all of `multi_line` nest.
    pub nested_comments: Vec<(&'static str, &'static str)>,
    /// Start and end of each quoted literal.
    pub quotes: Vec<(&'static str, &'static str)>,
    /// The pattern that finds the start of a multi line comment.
    pub regex: Matcher,
}

impl Language {
    /// The delimiters of the language as they are written.
    pub open spec fn tables(&self) -> Tables {
        Tables {
            line_comment: self.line_comment@,
            multi_line: self.multi_line@,
            nested: self.nested,
            nested_comments: self.nested_comments@,
            quotes: self.quotes@,
        }
    }

    /// The delimiters of the language as bytes.
    pub open spec fn syntax(&self) -> Syntax {
        self.tables().syntax()
    }

    /// The totals of the language.
    pub open spec fn totals(&self) -> Totals {
        Totals {
            blanks: self.blanks as nat,
            code: self.code as nat,
            comments: self.comments as nat,
            lines: self.lines as nat,
        }
    }

    /// The totals are the sums over the statistics of the files.
    pub open spec fn wf(&self) -> bool {
        self.totals() == sum_totals(self.stats@, self.stats@.len())
    }

    /// Nothing has been counted: no statistics and all totals zero.
    pub open spec fn is_fresh(&self) -> bool {
        &&& self.blanks == 0
        &&& self.code == 0
        &&& self.comments == 0
        &&& self.lines == 0
        &&& self.stats@ == Seq::<Stats>::empty()
    }

    /// Constructs a new empty language with the comments provided. It has no
    /// quotes and does not nest.
    pub fn new(
        line_comment: Vec<&'static str>,
        multi_line: Vec<(&'static str, &'static str)>,
    ) -> (language: Self)
        ensures
            language.is_fresh(),
            language.tables() == Tables::plain(line_comment@, multi_line@),
            language.regex.pattern@ == generated_pattern(multi_line@),
    {
        let regex = generate_regex(&multi_line);
        Language {
            blanks: 0,
            code: 0,
            comments: 0,
            stats: Vec::new(),
            lines: 0,
            line_comment,
            multi_line,
            nested: false,
            nested_comments: Vec::new(),
            quotes: Vec::new(),
            regex,
        }
    }

    /// A language that has no commenting syntax.
    pub fn new_blank() -> (language: Self)
        ensures
            language.is_fresh(),
            language.tables() == Tables::blank(),
            language.regex.pattern@ == ""@,
    {
        Language {
            blanks: 0,
            code: 0,
            comments: 0,
            stats: Vec::new(),
            lines: 0,
            line_comment: Vec::new(),
            multi_line: Vec::new(),
            nested: false,
            nested_comments: Vec::new(),
            quotes: Vec::new(),
            regex: Matcher::new(""),
        }
    }

    /// A language with the commenting syntax of C like languages.
    pub fn new_c() -> (language: Self)
        ensures
            language.is_fresh(),
            language.tables() == Tables::c(),
            language.regex.pattern@ == "/\\*"@,
    {
        let mut language = Self::new_blank();
        language.line_comment = vec!["//"];
        language.multi_line = vec![("/*", "*/")];
        language.quotes = vec![("\"", "\"")];
        language.regex = Matcher::new("/\\*");
        assert(language.tables() =~= Tables::c());
        language
    }

    /// A language with the commenting syntax of ML like languages: its multi
    /// line comments nest.
    pub fn new_func() -> (language: Self)
        ensures
            language.is_fresh(),
            language.tables() == Tables::func(),
            language.regex.pattern@ == "\\(\\*"@,
    {
        let mut language = Self::new_blank();
        language.multi_line = vec![("(*", "*)")];
        language.nested = true;
        language.quotes = vec![("\"", "\"")];
        language.regex = Matcher::new("\\(\\*");
        assert(language.tables() =~= Tables::func());
        language
    }

    /// A language with the commenting syntax of HTML like languages.
    pub fn new_html() -> (language: Self)
        ensures
            language.is_fresh(),
            language.tables() == Tables::html(),
            language.regex.pattern@ == "<!--"@,
    {
        let mut language = Self::new_blank();
        language.multi_line = vec![("<!--", "-->")];
        language.quotes = vec![("\"", "\"")];
        language.regex = Matcher::new("<!--");
        assert(language.tables() =~= Tables::html());
        language
    }

    /// A language with the commenting syntax of Bash.
    pub fn new_hash() -> (language: Self)
        ensures
            language.is_fresh(),
            language.tables() == Tables::hash(),
            language.regex.pattern@ == ""@,
    {
        let language = Self::new_single(vec!["#"]);
        assert(language.tables() =~= Tables::hash());
        language
    }

    /// A language with the commenting syntax of Haskell: its multi line
    /// comments nest, and it has no quotes.
    pub fn new_haskell() -> (language: Self)
        ensures
            language.is_fresh(),
            language.tables() == Tables::haskell(),
            language.regex.pattern@ == "\\{-"@,
    {
        let language = Self::new(vec!["--"], vec![("{-", "-}")]).nested().regex(Matcher::new("\\{-"));
        assert(language.tables() =~= Tables::haskell());
        language
    }

    /// A language that only has multi line comments.
    pub fn new_multi(multi_line: Vec<(&'static str, &'static str)>) -> (language: Self)
        ensures
            language.is_fresh(),
            language.tables() == Tables::quoted(Seq::empty(), multi_line@),
            language.regex.pattern@ == generated_pattern(multi_line@),
    {
        let mut language = Self::new_blank();
        language.regex = generate_regex(&multi_line);
        language.multi_line = multi_line;
        language.quotes = vec![("\"", "\"")];
        assert(language.tables() =~= Tables::quoted(Seq::empty(), multi_line@));
        language
    }

    /// A language with the commenting syntax of Prolog.
    pub fn new_pro() -> (language: Self)
        ensures
            language.is_fresh(),
            language.tables() == Tables::pro(),
            language.regex.pattern@ == "/\\*"@,
    {
        let mut language = Self::new_blank();
        language.line_comment = vec!["%"];
        language.multi_line = vec![("/*", "*/")];
        language.quotes = vec![("\"", "\"")];
        language.regex = Matcher::new("/\\*");
        assert(language.tables() =~= Tables::pro());
        language
    }

    /// A language that only has single line comments.
    pub fn new_single(line_comment: Vec<&'static str>) -> (language: Self)
        ensures
            language.is_fresh(),
            language.tables() == Tables::quoted(line_comment@, Seq::empty()),
            language.regex.pattern@ == ""@,
    {
        let mut language = Self::new_blank();
        language.line_comment = line_comment;
        language.quotes = vec![("\"", "\"")];
        assert(language.tables() =~= Tables::quoted(line_comment@, Seq::empty()));
        language
    }

    /// States that the multi line comments of the language nest.
    pub fn nested(self) -> (language: Self)
        ensures
            language == (Language { nested: true, ..self }),
    {
        let mut language = self;
        language.nested = true;
        language
    }

    /// States which multi line comments nest, and that some do. The other
    /// multi line comments then open one level at most.
    pub fn nested_comments(
        self,
        nested_comments: Vec<(&'static str, &'static str)>,
    ) -> (language: Self)
        ensures
            language == (Language { nested: true, nested_comments, ..self }),
    {
        let mut language = self;
        language.nested = true;
        language.nested_comments = nested_comments;
        language
    }

    /// Replaces the pattern that finds the start of a multi line comment.
    fn regex(self, regex: Matcher) -> (language: Self)
        ensures
            language == (Language { regex, ..self }),
    {
        let mut language = self;
        language.regex = regex;
        language
    }

    /// States the delimiters of the quoted literals, inside which the
    /// commenting syntax is ignored.
    pub fn set_quotes(self, quotes: Vec<(&'static str, &'static str)>) -> (language: Self)
        ensures
            language == (Language { quotes, ..self }),
    {
        let mut language = self;
        language.quotes = quotes;
        language
    }

    /// Checks if the language is empty: all four totals are zero.
    pub fn is_empty(&self) -> (empty: bool)
        ensures
            empty == (self.totals() == Totals::zero()),
    {
        self.code == 0 && self.comments == 0 && self.blanks == 0 && self.lines == 0
    }

    /// Checks if the language has no comments: neither a single line comment
    /// nor a multi line comment is configured.
    pub fn is_blank(&self) -> (blank: bool)
        ensures
            blank == self.syntax().is_blank(),
    {
        self.line_comment.len() == 0 && self.multi_line.len() == 0
    }

    /// Adds the totals of `rhs` to those of the language, and the statistics
    /// of its files behind those that are there. The order of the statistics
    /// is the order of the calls: merging `a` into `b` and `b` into `a` give
    /// the same totals and different lists.
    pub fn add_assign(&mut self, rhs: &Language)
        requires
            old(self).totals().plus(rhs.totals()).fits(),
        ensures
            final(self).totals() == old(self).totals().plus(rhs.totals()),
            final(self).stats@ == old(self).stats@ + rhs.stats@,
            final(self).stats@.len() == old(self).stats@.len() + rhs.stats@.len(),
            *final(self) == (Language {
                blanks: final(self).blanks,
                code: final(self).code,
                comments: final(self).comments,
                lines: final(self).lines,
                stats: final(self).stats,
                ..*old(self)
            }),
            old(self).wf() && rhs.wf() ==> final(self).wf(),
    {
        let ghost before = self.stats@;
        self.lines += rhs.lines;
        self.comments += rhs.comments;
        self.blanks += rhs.blanks;
        self.code += rhs.code;
        self.stats.extend_from_slice(rhs.stats.as_slice());
        proof {
            assert(self.stats@ =~= before + rhs.stats@);
            lemma_sum_totals_concat(before, rhs.stats@, rhs.stats@.len());
        }
    }

    /// Adds the counts of one file to the totals, and its statistics behind
    /// those that are there.
    pub fn add_stats(&mut self, rhs: Stats)
        requires
            old(self).totals().plus(rhs.totals()).fits(),
        ensures
            final(self).totals() == old(self).totals().plus(rhs.totals()),
            final(self).stats@ == old(self).stats@.push(rhs),
            *final(self) == (Language {
                blanks: final(self).blanks,
                code: final(self).code,
                comments: final(self).comments,
                lines: final(self).lines,
                stats: final(self).stats,
                ..*old(self)
            }),
            old(self).wf() ==> final(self).wf(),
    {
        let ghost before = self.stats@;
        self.lines += rhs.lines;
        self.code += rhs.code;
        self.comments += rhs.comments;
        self.blanks += rhs.blanks;
        self.stats.push(rhs);
        proof {
            lemma_sum_totals_prefix(self.stats@, before, before.len());
        }
    }

    /// Sorts the statistics of the files by `category`: by a count, the
    /// largest first, or by file name, in the order of the bytes of the
    /// names. Statistics that are equal in this keep their order. The totals
    /// and the syntax stay as they are.
    pub fn sort_by(&mut self, category: Sort)
        ensures
            exists|origin: Seq<int>|
                sorts_stably(category, old(self).stats@, final(self).stats@, origin),
            *final(self) == (Language { stats: final(self).stats, ..*old(self) }),
            old(self).wf() ==> final(self).wf(),
    {
        sort_stats(&mut self.stats, category);
    }

    /// The width of the scan window, or the error that the language cannot
    /// be scanned. Ask before the first line is handed to
    /// `handle_multi_line`.
    pub fn scan_width(&self) -> (width: Result<usize, ConfigurationError>)
        ensures
            self.syntax().width() >= 1 ==> width == Ok::<usize, ConfigurationError>(
                self.syntax().width() as usize,
            ),
            self.syntax().width() == 0 ==> width == Err::<usize, ConfigurationError>(
                ConfigurationError,
            ),
    {
        let width = self.window_size();
        if width >= 1 {
            Ok(width)
        } else {
            Err(ConfigurationError)
        }
    }

    /// The width of the window with which lines of this language are
    /// scanned: the byte length of its longest delimiter, 0 if it has none.
    pub fn window_size(&self) -> (width: usize)
        ensures
            width == self.syntax().width(),
    {
        larger_of(
            larger_of(longest_marker_in(&self.line_comment), longest_pair_in(&self.multi_line)),
            larger_of(longest_pair_in(&self.nested_comments), longest_pair_in(&self.quotes)),
        )
    }
}

/// The byte length of the longest marker of a table.
fn longest_marker_in(markers: &Vec<&'static str>) -> (width: usize)
    ensures
        width == longest_marker(marker_bytes(markers@), markers@.len()),
{
    let ghost table = marker_bytes(markers@);
    let mut width: usize = 0;
    let mut i: usize = 0;
    while i < markers.len()
        invariant
            i <= markers@.len(),
            table == marker_bytes(markers@),
            width == longest_marker(table, i as nat),
        decreases markers.len() - i,
    {
        let here = markers[i].as_bytes().len();
        if here > width {
            width = here;
        }
        i += 1;
    }
    width
}

/// The byte length of the longest delimiter of a table of pairs.
fn longest_pair_in(pairs: &Vec<(&'static str, &'static str)>) -> (width: usize)
    ensures
        width == longest_pair(pair_bytes(pairs@), pairs@.len()),
{
    let ghost table = pair_bytes(pairs@);
    let mut width: usize = 0;
    let mut i: usize = 0;
    while i < pairs.len()
        invariant
            i <= pairs@.len(),
            table == pair_bytes(pairs@),
            width == longest_pair(table, i as nat),
        decreases pairs.len() - i,
    {
        let opens = pairs[i].0.as_bytes().len();
        let closes = pairs[i].1.as_bytes().len();
        let here = if opens > closes {
            opens
        } else {
            closes
        };
        if here > width {
            width = here;
        }
        i += 1;
    }
    width
}

/// The larger of two widths.
fn larger_of(a: usize, b: usize) -> (width: usize)
    ensures
        width == larger(a as nat, b as nat),
{
    if a > b {
        a
    } else {
        b
    }
}

impl Default for Language {
    /// A language that has no commenting syntax and no statistics.
    fn default() -> (language: Self)
        ensures
            language.is_fresh(),
            language.tables() == Tables::blank(),
            language.regex.pattern@ == ""@,
    {
        Language::new_blank()
    }
}

} // verus!
