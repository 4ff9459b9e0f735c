//! Counting the lines of a file: each line is blank, code or comment.

use crate::language::Language;
use crate::multi_line::{
    advance, closer_bytes, scan_bytes, scan_from, scan_line, window_starts_with, Cursor, ScanState,
};
use crate::stats::Stats;
use crate::syntax::{marker_bytes, Syntax};
use vstd::prelude::*;
use vstd::string::*;

verus! {

/// The byte that ends a line.
pub const NEWLINE: u8 = 0x0a;

/// The byte that may stand before the end of a line and belongs to the end.
pub const CARRIAGE_RETURN: u8 = 0x0d;

/// What a line counts as.
#[derive(Clone, Copy, Debug, PartialEq, Eq, Structural)]
pub enum LineKind {
    /// Nothing but whitespace, outside of comments and quoted literals.
    Blank,
    /// At least one byte of code.
    Code,
    /// No byte of code.
    Comment,
}

/// How many lines of each kind were met.
pub struct Tally {
    /// Blank lines.
    pub blanks: nat,
    /// Lines of code.
    pub code: nat,
    /// Comment lines.
    pub comments: nat,
}

impl Tally {
    /// Nothing counted.
    pub open spec fn zero() -> Tally {
        Tally { blanks: 0, code: 0, comments: 0 }
    }

    /// One more line of `kind`.
    pub open spec fn with(self, kind: LineKind) -> Tally {
        match kind {
            LineKind::Blank => Tally { blanks: self.blanks + 1, ..self },
            LineKind::Code => Tally { code: self.code + 1, ..self },
            LineKind::Comment => Tally { comments: self.comments + 1, ..self },
        }
    }

    /// The number of lines counted.
    pub open spec fn total(self) -> nat {
        self.blanks + self.code + self.comments
    }
}

/// A space, or one of the ASCII control characters from tab to carriage
/// return.
pub open spec fn is_space(byte: u8) -> bool {
    byte == 0x20 || (0x09 <= byte <= 0x0d)
}

/// The line holds nothing but whitespace.
pub open spec fn is_blank_line(line: Seq<u8>) -> bool {
    forall|i: int| 0 <= i < line.len() ==> is_space(#[trigger] line[i])
}

/// The number of bytes from `from` up to the next newline, or to the end of
/// the text where there is none.
pub open spec fn line_len(text: Seq<u8>, from: int) -> nat
    decreases text.len() - from,
{
    if from < 0 || from >= text.len() || text[from] == NEWLINE {
        0
    } else {
        1 + line_len(text, from + 1)
    }
}

/// The line without the carriage return at its end, if it has one.
pub open spec fn without_cr(line: Seq<u8>) -> Seq<u8> {
    if line.len() > 0 && line.last() == CARRIAGE_RETURN {
        line.drop_last()
    } else {
        line
    }
}

/// The lines of the text from `from` on. A line ends before a newline, or
/// before a carriage return and a newline; what follows the last newline is
/// a line if there is anything.
pub open spec fn lines_from(text: Seq<u8>, from: int) -> Seq<Seq<u8>>
    decreases text.len() - from,
{
    if from < 0 || from >= text.len() {
        Seq::empty()
    } else {
        let end = from + line_len(text, from);
        if end < text.len() {
            seq![without_cr(text.subrange(from, end))] + lines_from(text, end + 1)
        } else {
            seq![text.subrange(from, end)]
        }
    }
}

/// The lines of a text.
pub open spec fn lines_of(text: Seq<u8>) -> Seq<Seq<u8>> {
    lines_from(text, 0)
}

/// Nothing is open.
pub open spec fn nothing_open(state: ScanState) -> bool {
    state.quote is None && state.stack.len() == 0
}

/// What a line counts as when it begins in `state`. A syntax without
/// delimiters knows blank lines and code only. Otherwise a line of
/// whitespace is blank where nothing is open, and any other line is scanned:
/// it is code if the scan met a byte of code, and comment if not.
pub open spec fn line_kind(syntax: Syntax, line: Seq<u8>, state: ScanState) -> LineKind {
    if syntax.width() == 0 {
        if is_blank_line(line) {
            LineKind::Blank
        } else {
            LineKind::Code
        }
    } else if is_blank_line(line) && nothing_open(state) {
        LineKind::Blank
    } else if scan_line(syntax, line, state).code_seen {
        LineKind::Code
    } else {
        LineKind::Comment
    }
}

/// What is open behind a line that begins in `state`.
pub open spec fn state_after(syntax: Syntax, line: Seq<u8>, state: ScanState) -> ScanState {
    if syntax.width() == 0 || (is_blank_line(line) && nothing_open(state)) {
        state
    } else {
        let end = scan_line(syntax, line, state);
        ScanState { quote: end.quote, stack: end.stack }
    }
}

/// The count of `lines`, of which the first begins in `state`.
pub open spec fn tally(syntax: Syntax, lines: Seq<Seq<u8>>, state: ScanState) -> Tally
    decreases lines.len(),
{
    if lines.len() == 0 {
        Tally::zero()
    } else {
        tally(syntax, lines.drop_first(), state_after(syntax, lines[0], state)).with(
            line_kind(syntax, lines[0], state),
        )
    }
}

/// The delimiter holds a byte that is no whitespace.
pub open spec fn has_ink(delimiter: Seq<u8>) -> bool {
    exists|i: int| 0 <= i < delimiter.len() && !is_space(#[trigger] delimiter[i])
}

/// A line of whitespace is blank where nothing is open, whatever the
/// syntax, and leaves nothing open.
pub proof fn lemma_blank_line_outside(syntax: Syntax, line: Seq<u8>, state: ScanState)
    requires
        is_blank_line(line),
        nothing_open(state),
    ensures
        line_kind(syntax, line, state) == LineKind::Blank,
        state_after(syntax, line, state) == state,
{
}

/// Inside a comment whose closing delimiter holds a byte that is no
/// whitespace, a scan of whitespace closes nothing of what was open and
/// meets no code.
pub proof fn lemma_blank_scan_in_comment(
    syntax: Syntax,
    width: int,
    line: Seq<u8>,
    pos: int,
    c: Cursor,
    depth: int,
)
    requires
        is_blank_line(line),
        0 <= pos,
        c.quote is None,
        !c.code_seen,
        1 <= depth <= c.stack.len(),
        has_ink(c.stack[depth - 1]),
    ensures
        ({
            let end = scan_from(syntax, width, line, pos, c);
            &&& end.quote is None
            &&& !end.code_seen
            &&& depth <= end.stack.len()
            &&& end.stack[depth - 1] == c.stack[depth - 1]
        }),
    decreases line.len() - pos,
{
    if pos < line.len() {
        let next = advance(syntax, width, line, pos, c);
        if c.stack.len() == depth {
            let closer = c.stack.last();
            let i = choose|i: int| 0 <= i < closer.len() && !is_space(#[trigger] closer[i]);
            if window_starts_with(line, pos, width, closer) {
                assert(line.subrange(pos, pos + closer.len())[i] == line[pos + i]);
            }
        }
        lemma_blank_scan_in_comment(syntax, width, line, pos + 1, next, depth);
    }
}

/// A line of whitespace inside a comment is a comment, and the comment stays
/// open, where the delimiter that closes it holds a byte that is no
/// whitespace and the syntax can be scanned.
pub proof fn lemma_blank_line_in_comment(syntax: Syntax, line: Seq<u8>, state: ScanState)
    requires
        syntax.width() >= 1,
        is_blank_line(line),
        state.quote is None,
        state.stack.len() > 0,
        has_ink(state.stack.last()),
    ensures
        line_kind(syntax, line, state) == LineKind::Comment,
        state_after(syntax, line, state).stack.len() >= state.stack.len(),
{
    let start = Cursor {
        quote: state.quote,
        stack: state.stack,
        skip: false,
        comment_at: None,
        code_seen: false,
    };
    lemma_blank_scan_in_comment(
        syntax,
        syntax.width() as int,
        line,
        0,
        start,
        state.stack.len() as int,
    );
}

/// Whether the line holds nothing but whitespace.
fn blank_bytes(line: &[u8]) -> (blank: bool)
    ensures
        blank == is_blank_line(line@),
{
    let mut i: usize = 0;
    while i < line.len()
        invariant
            i <= line@.len(),
            forall|j: int| 0 <= j < i ==> is_space(#[trigger] line@[j]),
        decreases line.len() - i,
    {
        let byte = line[i];
        if !(byte == 0x20 || (0x09 <= byte && byte <= 0x0d)) {
            return false;
        }
        i += 1;
    }
    true
}

/// Classifies the bytes of one line, scanning with a window of `width`.
fn classify_bytes(
    line: &[u8],
    language: &Language,
    width: usize,
    stack: &mut Vec<&'static str>,
    quote: &mut Option<&'static str>,
) -> (kind: LineKind)
    requires
        width == language.syntax().width(),
    ensures
        ({
            let before = ScanState {
                quote: closer_bytes(*old(quote)),
                stack: marker_bytes(old(stack)@),
            };
            let after = ScanState {
                quote: closer_bytes(*final(quote)),
                stack: marker_bytes(final(stack)@),
            };
            &&& kind == line_kind(language.syntax(), line@, before)
            &&& after == state_after(language.syntax(), line@, before)
        }),
{
    let blank = blank_bytes(line);
    if width == 0 {
        if blank {
            LineKind::Blank
        } else {
            LineKind::Code
        }
    } else if blank && quote.is_none() && stack.len() == 0 {
        LineKind::Blank
    } else {
        let seen = scan_bytes(line, language, width, stack, quote);
        if seen.code_seen {
            LineKind::Code
        } else {
            LineKind::Comment
        }
    }
}

/// Classifies one line of a file written in `language`. `stack` and `quote`
/// hold what is open before the line, as for `handle_multi_line`, and are
/// left as they are behind it.
pub fn classify_line(
    line: &str,
    language: &Language,
    stack: &mut Vec<&'static str>,
    quote: &mut Option<&'static str>,
) -> (kind: LineKind)
    ensures
        ({
            let before = ScanState {
                quote: closer_bytes(*old(quote)),
                stack: marker_bytes(old(stack)@),
            };
            let after = ScanState {
                quote: closer_bytes(*final(quote)),
                stack: marker_bytes(final(stack)@),
            };
            &&& kind == line_kind(language.syntax(), line.spec_bytes(), before)
            &&& after == state_after(language.syntax(), line.spec_bytes(), before)
        }),
{
    let width = language.window_size();
    classify_bytes(line.as_bytes(), language, width, stack, quote)
}

/// Every line is counted as exactly one kind.
pub proof fn lemma_tally_total(syntax: Syntax, lines: Seq<Seq<u8>>, state: ScanState)
    ensures
        tally(syntax, lines, state).total() == lines.len(),
    decreases lines.len(),
{
    if lines.len() > 0 {
        lemma_tally_total(syntax, lines.drop_first(), state_after(syntax, lines[0], state));
    }
}

/// Counts the lines of `text`, a file called `name` and written in
/// `language`. The first line begins with nothing open.
pub fn count_file(name: &str, text: &str, language: &Language) -> (stats: Stats)
    ensures
        stats.name@ == name@,
        ({
            let lines = lines_of(text.spec_bytes());
            let counted = tally(
                language.syntax(),
                lines,
                ScanState { quote: None, stack: Seq::empty() },
            );
            &&& stats.blanks == counted.blanks
            &&& stats.code == counted.code
            &&& stats.comments == counted.comments
            &&& stats.lines == lines.len()
        }),
        stats.lines == stats.blanks + stats.code + stats.comments,
{
    let bytes = text.as_bytes();
    let width = language.window_size();
    let mut stats = Stats::new(name);
    let mut stack: Vec<&'static str> = Vec::new();
    let mut quote: Option<&'static str> = None;
    let ghost syntax = language.syntax();
    let ghost start = ScanState { quote: None, stack: Seq::empty() };
    let ghost mut done = Tally::zero();
    assert(marker_bytes(stack@) =~= Seq::<Seq<u8>>::empty());
    let total = bytes.len();
    let mut from: usize = 0;
    while from < total
        invariant
            from <= total == bytes@.len(),
            bytes@ == text.spec_bytes(),
            syntax == language.syntax(),
            width == syntax.width(),
            stats.name@ == name@,
            stats.blanks == done.blanks,
            stats.code == done.code,
            stats.comments == done.comments,
            stats.lines == done.total(),
            done.total() <= from,
            done.total() + lines_from(bytes@, from as int).len() == lines_of(bytes@).len(),
            ({
                let state = ScanState {
                    quote: closer_bytes(quote),
                    stack: marker_bytes(stack@),
                };
                let rest = tally(syntax, lines_from(bytes@, from as int), state);
                let all = tally(syntax, lines_of(bytes@), start);
                &&& done.blanks + rest.blanks == all.blanks
                &&& done.code + rest.code == all.code
                &&& done.comments + rest.comments == all.comments
            }),
        decreases total - from,
    {
        let mut end: usize = from;
        while end < total && bytes[end] != NEWLINE
            invariant
                from <= end <= total == bytes@.len(),
                end + line_len(bytes@, end as int) == from + line_len(bytes@, from as int),
            decreases total - end,
        {
            end += 1;
        }
        let ends_in_cr = end < total && end > from && bytes[end - 1] == CARRIAGE_RETURN;
        let line = if ends_in_cr {
            &bytes[from..end - 1]
        } else {
            &bytes[from..end]
        };
        let ghost state = ScanState { quote: closer_bytes(quote), stack: marker_bytes(stack@) };
        let ghost lines = lines_from(bytes@, from as int);
        proof {
            assert(end == from + line_len(bytes@, from as int));
            assert(lines[0] == line@);
            assert(lines.drop_first() =~= lines_from(bytes@, end + 1));
            assert(end == total ==> lines_from(bytes@, end + 1) == lines_from(bytes@, end as int));
        }
        let kind = classify_bytes(line, language, width, &mut stack, &mut quote);
        match kind {
            LineKind::Blank => {
                stats.blanks += 1;
            },
            LineKind::Code => {
                stats.code += 1;
            },
            LineKind::Comment => {
                stats.comments += 1;
            },
        }
        stats.lines += 1;
        proof {
            done = done.with(kind);
        }
        from = if end < total {
            end + 1
        } else {
            end
        };
    }
    proof {
        lemma_tally_total(syntax, lines_of(bytes@), start);
    }
    stats
}

} // verus!
