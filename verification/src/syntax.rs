//! The mathematical model of a language's lexical rules: its comment and
//! quote delimiters as byte strings.

use vstd::prelude::*;
use vstd::string::*;
use vstd::utf8::is_ascii_chars_encode_utf8;

verus! {

/// A delimiter pair as bytes: what opens a region and what closes it.
pub type Pair = (Seq<u8>, Seq<u8>);

/// The delimiters of one language, each as the bytes it is written with.
pub struct Syntax {
    /// Markers that start a comment running to the end of the line.
    pub line_comment: Seq<Seq<u8>>,
    /// Start and end of each multi line comment.
    pub multi_line: Seq<Pair>,
    /// Whether multi line comments nest.
    pub nested: bool,
    /// The pairs that nest, where only some of them do.
    pub nested_comments: Seq<Pair>,
    /// Start and end of each quoted literal.
    pub quotes: Seq<Pair>,
}

/// A delimiter pair as it is written.
pub type Delimiters = (&'static str, &'static str);

/// The delimiters of one language as they are written.
#[verifier::ext_equal]
pub struct Tables {
    /// Markers that start a comment running to the end of the line.
    pub line_comment: Seq<&'static str>,
    /// Start and end of each multi line comment.
    pub multi_line: Seq<Delimiters>,
    /// Whether multi line comments nest.
    pub nested: bool,
    /// The pairs that nest, where only some of them do.
    pub nested_comments: Seq<Delimiters>,
    /// Start and end of each quoted literal.
    pub quotes: Seq<Delimiters>,
}

impl Tables {
    /// The given comments, no nesting and no quotes.
    pub open spec fn plain(line_comment: Seq<&'static str>, multi_line: Seq<Delimiters>) -> Tables {
        Tables {
            line_comment,
            multi_line,
            nested: false,
            nested_comments: Seq::empty(),
            quotes: Seq::empty(),
        }
    }

    /// The given comments, no nesting, and `"` as the quote.
    pub open spec fn quoted(line_comment: Seq<&'static str>, multi_line: Seq<Delimiters>) -> Tables {
        Tables { quotes: seq![("\"", "\"")], ..Tables::plain(line_comment, multi_line) }
    }

    /// No delimiters at all.
    pub open spec fn blank() -> Tables {
        Tables::plain(Seq::empty(), Seq::empty())
    }

    /// The syntax of C like languages: `//`, `/*` to `*/`, and `"`.
    pub open spec fn c() -> Tables {
        Tables::quoted(seq!["//"], seq![("/*", "*/")])
    }

    /// The syntax of ML like languages: `(*` to `*)`, which nests, and `"`.
    pub open spec fn func() -> Tables {
        Tables { nested: true, ..Tables::quoted(Seq::empty(), seq![("(*", "*)")]) }
    }

    /// The syntax of HTML like languages: `<!--` to `-->`, and `"`.
    pub open spec fn html() -> Tables {
        Tables::quoted(Seq::empty(), seq![("<!--", "-->")])
    }

    /// The syntax of Bash: `#`, and `"`.
    pub open spec fn hash() -> Tables {
        Tables::quoted(seq!["#"], Seq::empty())
    }

    /// The syntax of Haskell: `--`, and `{-` to `-}`, which nests.
    pub open spec fn haskell() -> Tables {
        Tables { nested: true, ..Tables::plain(seq!["--"], seq![("{-", "-}")]) }
    }

    /// The syntax of Prolog: `%`, `/*` to `*/`, and `"`.
    pub open spec fn pro() -> Tables {
        Tables::quoted(seq!["%"], seq![("/*", "*/")])
    }

    /// The delimiters as bytes.
    pub open spec fn syntax(self) -> Syntax {
        Syntax {
            line_comment: marker_bytes(self.line_comment),
            multi_line: pair_bytes(self.multi_line),
            nested: self.nested,
            nested_comments: pair_bytes(self.nested_comments),
            quotes: pair_bytes(self.quotes),
        }
    }
}

/// The bytes of each marker of a table.
pub open spec fn marker_bytes(markers: Seq<&'static str>) -> Seq<Seq<u8>> {
    Seq::new(markers.len(), |i: int| markers[i].spec_bytes())
}

/// The bytes of each pair of a table.
pub open spec fn pair_bytes(pairs: Seq<Delimiters>) -> Seq<Pair> {
    Seq::new(pairs.len(), |i: int| (pairs[i].0.spec_bytes(), pairs[i].1.spec_bytes()))
}

/// The length of the longest among the first `n` markers, 0 for none.
pub open spec fn longest_marker(markers: Seq<Seq<u8>>, n: nat) -> nat
    decreases n,
{
    if n == 0 {
        0
    } else {
        let rest = longest_marker(markers, (n - 1) as nat);
        let here = markers[n - 1].len();
        if here > rest {
            here
        } else {
            rest
        }
    }
}

/// The length of the longer delimiter of a pair.
pub open spec fn pair_len(pair: Pair) -> nat {
    if pair.0.len() > pair.1.len() {
        pair.0.len()
    } else {
        pair.1.len()
    }
}

/// The length of the longest delimiter among the first `n` pairs, 0 for none.
pub open spec fn longest_pair(pairs: Seq<Pair>, n: nat) -> nat
    decreases n,
{
    if n == 0 {
        0
    } else {
        let rest = longest_pair(pairs, (n - 1) as nat);
        let here = pair_len(pairs[n - 1]);
        if here > rest {
            here
        } else {
            rest
        }
    }
}

/// The larger of two lengths.
pub open spec fn larger(a: nat, b: nat) -> nat {
    if a > b {
        a
    } else {
        b
    }
}

impl Syntax {
    /// The width of the scan window: the byte length of the longest delimiter
    /// of any table. It is 0 exactly when no table holds a delimiter of at
    /// least one byte, and such a syntax cannot be scanned.
    pub open spec fn width(self) -> nat {
        larger(
            larger(
                longest_marker(self.line_comment, self.line_comment.len()),
                longest_pair(self.multi_line, self.multi_line.len()),
            ),
            larger(
                longest_pair(self.nested_comments, self.nested_comments.len()),
                longest_pair(self.quotes, self.quotes.len()),
            ),
        )
    }

    /// No line comment and no multi line comment is configured.
    pub open spec fn is_blank(self) -> bool {
        self.line_comment.len() == 0 && self.multi_line.len() == 0
    }
}

/// No marker among the first `n` is longer than `longest_marker` says.
pub proof fn lemma_longest_marker_bounds(markers: Seq<Seq<u8>>, n: nat, i: int)
    requires
        0 <= i < n,
    ensures
        markers[i].len() <= longest_marker(markers, n),
    decreases n,
{
    if i < n - 1 {
        lemma_longest_marker_bounds(markers, (n - 1) as nat, i);
    }
}

/// No delimiter among the first `n` pairs is longer than `longest_pair` says.
pub proof fn lemma_longest_pair_bounds(pairs: Seq<Pair>, n: nat, i: int)
    requires
        0 <= i < n,
    ensures
        pairs[i].0.len() <= longest_pair(pairs, n),
        pairs[i].1.len() <= longest_pair(pairs, n),
    decreases n,
{
    if i < n - 1 {
        lemma_longest_pair_bounds(pairs, (n - 1) as nat, i);
    }
}

/// The window is as wide as the longest delimiter: no delimiter of any table
/// is longer than the window.
pub proof fn lemma_width_covers(syntax: Syntax)
    ensures
        forall|i: int|
            0 <= i < syntax.line_comment.len() ==> (#[trigger] syntax.line_comment[i]).len()
                <= syntax.width(),
        forall|i: int|
            0 <= i < syntax.multi_line.len() ==> pair_len(#[trigger] syntax.multi_line[i])
                <= syntax.width(),
        forall|i: int|
            0 <= i < syntax.nested_comments.len() ==> pair_len(
                #[trigger] syntax.nested_comments[i],
            ) <= syntax.width(),
        forall|i: int|
            0 <= i < syntax.quotes.len() ==> pair_len(#[trigger] syntax.quotes[i])
                <= syntax.width(),
{
    assert forall|i: int| 0 <= i < syntax.line_comment.len() implies (
    #[trigger] syntax.line_comment[i]).len() <= syntax.width() by {
        lemma_longest_marker_bounds(syntax.line_comment, syntax.line_comment.len(), i);
    }
    assert forall|i: int| 0 <= i < syntax.multi_line.len() implies pair_len(
        #[trigger] syntax.multi_line[i],
    ) <= syntax.width() by {
        lemma_longest_pair_bounds(syntax.multi_line, syntax.multi_line.len(), i);
    }
    assert forall|i: int| 0 <= i < syntax.nested_comments.len() implies pair_len(
        #[trigger] syntax.nested_comments[i],
    ) <= syntax.width() by {
        lemma_longest_pair_bounds(syntax.nested_comments, syntax.nested_comments.len(), i);
    }
    assert forall|i: int| 0 <= i < syntax.quotes.len() implies pair_len(
        #[trigger] syntax.quotes[i],
    ) <= syntax.width() by {
        lemma_longest_pair_bounds(syntax.quotes, syntax.quotes.len(), i);
    }
}

/// The windows of the syntaxes that come ready made: two bytes for the C,
/// ML, Haskell and Prolog like ones, four for the HTML like one, one for
/// the Bash like one, and none for the blank one. All but the blank one can
/// be scanned.
pub proof fn lemma_ready_made_widths()
    ensures
        Tables::blank().syntax().width() == 0,
        Tables::c().syntax().width() == 2,
        Tables::func().syntax().width() == 2,
        Tables::html().syntax().width() == 4,
        Tables::hash().syntax().width() == 1,
        Tables::haskell().syntax().width() == 2,
        Tables::pro().syntax().width() == 2,
{
    reveal_strlit("//");
    reveal_strlit("/*");
    reveal_strlit("*/");
    reveal_strlit("\"");
    reveal_strlit("(*");
    reveal_strlit("*)");
    reveal_strlit("<!--");
    reveal_strlit("-->");
    reveal_strlit("#");
    reveal_strlit("--");
    reveal_strlit("{-");
    reveal_strlit("-}");
    reveal_strlit("%");
    is_ascii_chars_encode_utf8("//"@);
    is_ascii_chars_encode_utf8("/*"@);
    is_ascii_chars_encode_utf8("*/"@);
    is_ascii_chars_encode_utf8("\""@);
    is_ascii_chars_encode_utf8("(*"@);
    is_ascii_chars_encode_utf8("*)"@);
    is_ascii_chars_encode_utf8("<!--"@);
    is_ascii_chars_encode_utf8("-->"@);
    is_ascii_chars_encode_utf8("#"@);
    is_ascii_chars_encode_utf8("--"@);
    is_ascii_chars_encode_utf8("{-"@);
    is_ascii_chars_encode_utf8("-}"@);
    is_ascii_chars_encode_utf8("%"@);
    lemma_single_tables(Tables::blank());
    lemma_single_tables(Tables::c());
    lemma_single_tables(Tables::func());
    lemma_single_tables(Tables::html());
    lemma_single_tables(Tables::hash());
    lemma_single_tables(Tables::haskell());
    lemma_single_tables(Tables::pro());
}

/// In tables of at most one entry each, the longest delimiter of a table is
/// that of its one entry.
proof fn lemma_single_tables(tables: Tables)
    requires
        tables.line_comment.len() <= 1,
        tables.multi_line.len() <= 1,
        tables.nested_comments.len() <= 1,
        tables.quotes.len() <= 1,
    ensures
        ({
            let syntax = tables.syntax();
            &&& longest_marker(syntax.line_comment, syntax.line_comment.len()) == (if tables.line_comment.len()
                == 1 {
                tables.line_comment[0].spec_bytes().len()
            } else {
                0
            })
            &&& longest_pair(syntax.multi_line, syntax.multi_line.len()) == (if tables.multi_line.len()
                == 1 {
                pair_len(syntax.multi_line[0])
            } else {
                0
            })
            &&& longest_pair(syntax.nested_comments, syntax.nested_comments.len()) == (
            if tables.nested_comments.len() == 1 {
                pair_len(syntax.nested_comments[0])
            } else {
                0
            })
            &&& longest_pair(syntax.quotes, syntax.quotes.len()) == (if tables.quotes.len() == 1 {
                pair_len(syntax.quotes[0])
            } else {
                0
            })
        }),
{
    let syntax = tables.syntax();
    assert(longest_marker(syntax.line_comment, 0) == 0);
    assert(longest_pair(syntax.multi_line, 0) == 0);
    assert(longest_pair(syntax.nested_comments, 0) == 0);
    assert(longest_pair(syntax.quotes, 0) == 0);
}

} // verus!
