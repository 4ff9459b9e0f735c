//! The scanner: it walks one line with a window as wide as the longest
//! delimiter and follows quoted literals and multi line comments, which may
//! both run on from the line before.

use crate::language::Language;
use crate::syntax::{marker_bytes, pair_bytes, Pair, Syntax};
use vstd::prelude::*;
use vstd::string::*;

verus! {

/// The byte that takes the meaning from the byte after it inside a quoted
/// literal: a backslash.
pub const ESCAPE: u8 = 0x5c;

/// What is open between two lines.
pub struct ScanState {
    /// The delimiter that closes the quoted literal we are in, if any.
    pub quote: Option<Seq<u8>>,
    /// The delimiters that close the comments we are in, the innermost last.
    pub stack: Seq<Seq<u8>>,
}

/// What is known while a line is being scanned.
pub struct Cursor {
    /// The delimiter that closes the quoted literal we are in, if any.
    pub quote: Option<Seq<u8>>,
    /// The delimiters that close the comments we are in, the innermost last.
    pub stack: Seq<Seq<u8>>,
    /// Whether the next position is passed over unread.
    pub skip: bool,
    /// Where a single line comment starts: nothing is read from there on.
    pub comment_at: Option<int>,
    /// Whether a byte of code has been seen.
    pub code_seen: bool,
}

/// What a scan tells of the line itself.
#[derive(Clone, Copy, Debug, PartialEq, Eq)]
pub struct LineScan {
    /// Whether the line holds a byte of code: a byte met outside of quoted
    /// literals and comments that starts no comment.
    pub code_seen: bool,
    /// The offset of the single line comment that ends the line, if any.
    pub comment_start: Option<usize>,
}

/// The bytes of the closing delimiter of the open quote.
pub open spec fn closer_bytes(quote: Option<&'static str>) -> Option<Seq<u8>> {
    match quote {
        Some(closer) => Some(closer.spec_bytes()),
        None => None,
    }
}

/// `marker` stands in `line` at `pos`.
pub open spec fn starts_at(line: Seq<u8>, pos: int, marker: Seq<u8>) -> bool {
    &&& 0 <= pos
    &&& pos + marker.len() <= line.len()
    &&& line.subrange(pos, pos + marker.len()) == marker
}

/// The window of `width` bytes at `pos` starts with `marker`. A marker longer
/// than the window never does.
pub open spec fn window_starts_with(line: Seq<u8>, pos: int, width: int, marker: Seq<u8>) -> bool {
    marker.len() <= width && starts_at(line, pos, marker)
}

/// The index of the first marker, from `from` on, that the window starts with.
pub open spec fn first_marker(
    markers: Seq<Seq<u8>>,
    line: Seq<u8>,
    pos: int,
    width: int,
    from: int,
) -> Option<int>
    decreases markers.len() - from,
{
    if from < 0 || from >= markers.len() {
        None
    } else if window_starts_with(line, pos, width, markers[from]) {
        Some(from)
    } else {
        first_marker(markers, line, pos, width, from + 1)
    }
}

/// The index of the first pair, from `from` on, with whose opening delimiter
/// the window starts.
pub open spec fn first_opener(
    pairs: Seq<Pair>,
    line: Seq<u8>,
    pos: int,
    width: int,
    from: int,
) -> Option<int>
    decreases pairs.len() - from,
{
    if from < 0 || from >= pairs.len() {
        None
    } else if window_starts_with(line, pos, width, pairs[from].0) {
        Some(from)
    } else {
        first_opener(pairs, line, pos, width, from + 1)
    }
}

/// Reads the window at `pos`. The rules, the first that applies:
/// inside a quoted literal a backslash does nothing, the closing delimiter
/// ends the literal (and, being one byte long, hides the next position), and
/// anything else is passed; the delimiter that closes the innermost comment
/// closes it; outside of comments a single line comment ends the scan and an
/// opening quote starts a literal; a nesting comment opens; a multi line
/// comment opens, and counts where it nests or no comment is open. A window
/// that starts with none of these is code where no comment is open.
pub open spec fn read_window(syntax: Syntax, width: int, line: Seq<u8>, pos: int, c: Cursor) -> Cursor {
    if c.quote is Some {
        let closer = c.quote->0;
        if line[pos] == ESCAPE {
            c
        } else if window_starts_with(line, pos, width, closer) {
            Cursor { quote: None, skip: closer.len() == 1, ..c }
        } else {
            c
        }
    } else if c.stack.len() > 0 && window_starts_with(line, pos, width, c.stack.last()) {
        Cursor { stack: c.stack.drop_last(), skip: true, ..c }
    } else if c.stack.len() == 0 && first_marker(syntax.line_comment, line, pos, width, 0) is Some {
        Cursor { comment_at: Some(pos), ..c }
    } else if c.stack.len() == 0 && first_opener(syntax.quotes, line, pos, width, 0) is Some {
        let found = first_opener(syntax.quotes, line, pos, width, 0)->0;
        Cursor { quote: Some(syntax.quotes[found].1), skip: true, code_seen: true, ..c }
    } else if first_opener(syntax.nested_comments, line, pos, width, 0) is Some {
        let found = first_opener(syntax.nested_comments, line, pos, width, 0)->0;
        Cursor { stack: c.stack.push(syntax.nested_comments[found].1), skip: true, ..c }
    } else if first_opener(syntax.multi_line, line, pos, width, 0) is Some {
        let found = first_opener(syntax.multi_line, line, pos, width, 0)->0;
        if (syntax.nested && syntax.nested_comments.len() == 0) || c.stack.len() == 0 {
            Cursor { stack: c.stack.push(syntax.multi_line[found].1), skip: true, ..c }
        } else {
            Cursor { skip: true, ..c }
        }
    } else {
        Cursor { code_seen: c.code_seen || c.stack.len() == 0, ..c }
    }
}

/// Passes the position `pos`. Nothing is read after a single line comment
/// has started; a hidden position is passed unread; a position at which a
/// whole window begins is read; and the last bytes of the line, at which no
/// whole window begins, are code where nothing is open.
pub open spec fn advance(syntax: Syntax, width: int, line: Seq<u8>, pos: int, c: Cursor) -> Cursor {
    if c.comment_at is Some {
        c
    } else if c.skip {
        Cursor { skip: false, ..c }
    } else if pos + width <= line.len() {
        read_window(syntax, width, line, pos, c)
    } else {
        Cursor { code_seen: c.code_seen || (c.quote is None && c.stack.len() == 0), ..c }
    }
}

/// Passes every position from `pos` to the end of the line.
pub open spec fn scan_from(syntax: Syntax, width: int, line: Seq<u8>, pos: int, c: Cursor) -> Cursor
    decreases line.len() - pos,
{
    if pos < 0 || pos >= line.len() {
        c
    } else {
        scan_from(syntax, width, line, pos + 1, advance(syntax, width, line, pos, c))
    }
}

/// Scans a whole line that begins in `state`.
pub open spec fn scan_line(syntax: Syntax, line: Seq<u8>, state: ScanState) -> Cursor {
    scan_from(
        syntax,
        syntax.width() as int,
        line,
        0,
        Cursor {
            quote: state.quote,
            stack: state.stack,
            skip: false,
            comment_at: None,
            code_seen: false,
        },
    )
}

/// Once a single line comment has started, the rest of the line changes
/// nothing.
pub proof fn lemma_scan_stops(syntax: Syntax, width: int, line: Seq<u8>, pos: int, c: Cursor)
    requires
        c.comment_at is Some,
    ensures
        scan_from(syntax, width, line, pos, c) == c,
    decreases line.len() - pos,
{
    if 0 <= pos < line.len() {
        lemma_scan_stops(syntax, width, line, pos + 1, c);
    }
}

/// A quoted literal is open only where no comment is.
pub open spec fn exclusive(quote: Option<Seq<u8>>, stack: Seq<Seq<u8>>) -> bool {
    quote is Some ==> stack.len() == 0
}

/// A quoted literal and a comment are never open together: a scan that
/// begins with at most one of them open ends with at most one of them open.
pub proof fn lemma_scan_keeps_exclusive(
    syntax: Syntax,
    width: int,
    line: Seq<u8>,
    pos: int,
    c: Cursor,
)
    requires
        exclusive(c.quote, c.stack),
    ensures
        exclusive(
            scan_from(syntax, width, line, pos, c).quote,
            scan_from(syntax, width, line, pos, c).stack,
        ),
    decreases line.len() - pos,
{
    if 0 <= pos < line.len() {
        lemma_scan_keeps_exclusive(syntax, width, line, pos + 1, advance(syntax, width, line, pos, c));
    }
}

/// Whether `marker` stands in `line` at `pos`.
fn matches_at(line: &[u8], pos: usize, marker: &[u8]) -> (found: bool)
    requires
        pos <= line@.len(),
    ensures
        found == starts_at(line@, pos as int, marker@),
{
    if marker.len() > line.len() - pos {
        return false;
    }
    let mut k: usize = 0;
    while k < marker.len()
        invariant
            k <= marker@.len(),
            pos + marker@.len() <= line@.len() <= usize::MAX,
            forall|j: int| 0 <= j < k ==> line@[pos + j] == marker@[j],
        decreases marker.len() - k,
    {
        if line[pos + k] != marker[k] {
            assert(line@.subrange(pos as int, pos + marker@.len())[k as int] != marker@[k as int]);
            return false;
        }
        k += 1;
    }
    assert(line@.subrange(pos as int, pos + marker@.len()) =~= marker@);
    true
}

/// Whether the window of `width` bytes at `pos` starts with `marker`.
fn window_has(line: &[u8], pos: usize, width: usize, marker: &[u8]) -> (found: bool)
    requires
        pos <= line@.len(),
    ensures
        found == window_starts_with(line@, pos as int, width as int, marker@),
{
    marker.len() <= width && matches_at(line, pos, marker)
}

/// Whether the window starts with one of `markers`.
fn find_marker(markers: &Vec<&'static str>, line: &[u8], pos: usize, width: usize) -> (found: bool)
    requires
        pos <= line@.len(),
    ensures
        found == (first_marker(marker_bytes(markers@), line@, pos as int, width as int, 0)
            is Some),
{
    let ghost table = marker_bytes(markers@);
    let mut i: usize = 0;
    while i < markers.len()
        invariant
            i <= markers@.len(),
            pos <= line@.len(),
            table == marker_bytes(markers@),
            first_marker(table, line@, pos as int, width as int, 0) == first_marker(
                table,
                line@,
                pos as int,
                width as int,
                i as int,
            ),
        decreases markers.len() - i,
    {
        if window_has(line, pos, width, markers[i].as_bytes()) {
            return true;
        }
        i += 1;
    }
    false
}

/// The first pair of `pairs` with whose opening delimiter the window starts.
fn find_opener(
    pairs: &Vec<(&'static str, &'static str)>,
    line: &[u8],
    pos: usize,
    width: usize,
) -> (found: Option<usize>)
    requires
        pos <= line@.len(),
    ensures
        match found {
            Some(i) => first_opener(pair_bytes(pairs@), line@, pos as int, width as int, 0)
                == Some(i as int) && i < pairs@.len(),
            None => first_opener(pair_bytes(pairs@), line@, pos as int, width as int, 0) is None,
        },
{
    let ghost table = pair_bytes(pairs@);
    let mut i: usize = 0;
    while i < pairs.len()
        invariant
            i <= pairs@.len(),
            pos <= line@.len(),
            table == pair_bytes(pairs@),
            first_opener(table, line@, pos as int, width as int, 0) == first_opener(
                table,
                line@,
                pos as int,
                width as int,
                i as int,
            ),
        decreases pairs.len() - i,
    {
        if window_has(line, pos, width, pairs[i].0.as_bytes()) {
            return Some(i);
        }
        i += 1;
    }
    None
}

/// Scans the bytes of one line with a window of `width` bytes. `stack` and
/// `quote` hold what is open before the line, and afterwards what is open
/// behind it.
pub fn scan_bytes(
    line: &[u8],
    language: &Language,
    width: usize,
    stack: &mut Vec<&'static str>,
    quote: &mut Option<&'static str>,
) -> (seen: LineScan)
    requires
        width >= 1,
    ensures
        ({
            let end = scan_from(
                language.syntax(),
                width as int,
                line@,
                0,
                Cursor {
                    quote: closer_bytes(*old(quote)),
                    stack: marker_bytes(old(stack)@),
                    skip: false,
                    comment_at: None,
                    code_seen: false,
                },
            );
            &&& marker_bytes(final(stack)@) == end.stack
            &&& closer_bytes(*final(quote)) == end.quote
            &&& seen.code_seen == end.code_seen
            &&& seen.comment_start is Some == end.comment_at is Some
            &&& seen.comment_start is Some ==> seen.comment_start->0 == end.comment_at->0
        }),
{
    let ghost syntax = language.syntax();
    let ghost start = Cursor {
        quote: closer_bytes(*quote),
        stack: marker_bytes(stack@),
        skip: false,
        comment_at: None,
        code_seen: false,
    };
    let ghost mut cur = start;
    let nests = language.nested && language.nested_comments.len() == 0;
    let mut skip = false;
    let mut code_seen = false;
    let mut comment_start: Option<usize> = None;
    let mut pos: usize = 0;
    while pos < line.len() && comment_start.is_none()
        invariant
            width >= 1,
            pos <= line@.len(),
            syntax == language.syntax(),
            nests == (syntax.nested && syntax.nested_comments.len() == 0),
            cur.quote == closer_bytes(*quote),
            cur.stack == marker_bytes(stack@),
            cur.skip == skip,
            cur.code_seen == code_seen,
            cur.comment_at is Some == comment_start is Some,
            comment_start is Some ==> comment_start->0 == cur.comment_at->0,
            scan_from(syntax, width as int, line@, pos as int, cur) == scan_from(
                syntax,
                width as int,
                line@,
                0,
                start,
            ),
        decreases line.len() - pos,
    {
        let ghost before = cur;
        if skip {
            skip = false;
            proof {
                cur = Cursor { skip: false, ..cur };
            }
        } else if width > line.len() - pos {
            if quote.is_none() && stack.len() == 0 {
                code_seen = true;
            }
            proof {
                cur = Cursor {
                    code_seen: cur.code_seen || (cur.quote is None && cur.stack.len() == 0),
                    ..cur
                };
            }
        } else {
            let open: Option<&'static str> = *quote;
            match open {
                Some(closer) => {
                    if line[pos] != ESCAPE && window_has(line, pos, width, closer.as_bytes()) {
                        *quote = None;
                        skip = closer.as_bytes().len() == 1;
                    }
                },
                None => {
                    let depth = stack.len();
                    if depth > 0 && window_has(line, pos, width, stack[depth - 1].as_bytes()) {
                        stack.pop();
                        skip = true;
                        assert(marker_bytes(stack@) =~= before.stack.drop_last());
                    } else if depth == 0 && find_marker(&language.line_comment, line, pos, width) {
                        comment_start = Some(pos);
                    } else {
                        let quoted = if depth == 0 {
                            find_opener(&language.quotes, line, pos, width)
                        } else {
                            None
                        };
                        if let Some(found) = quoted {
                            *quote = Some(language.quotes[found].1);
                            skip = true;
                            code_seen = true;
                        } else if let Some(found) = find_opener(
                            &language.nested_comments,
                            line,
                            pos,
                            width,
                        ) {
                            stack.push(language.nested_comments[found].1);
                            skip = true;
                            assert(marker_bytes(stack@) =~= before.stack.push(
                                syntax.nested_comments[found as int].1,
                            ));
                        } else if let Some(found) = find_opener(
                            &language.multi_line,
                            line,
                            pos,
                            width,
                        ) {
                            if nests || depth == 0 {
                                stack.push(language.multi_line[found].1);
                                assert(marker_bytes(stack@) =~= before.stack.push(
                                    syntax.multi_line[found as int].1,
                                ));
                            }
                            skip = true;
                        } else if depth == 0 {
                            code_seen = true;
                        }
                    }
                },
            }
            proof {
                cur = read_window(syntax, width as int, line@, pos as int, before);
            }
        }
        assert(cur == advance(syntax, width as int, line@, pos as int, before));
        pos += 1;
    }
    proof {
        if comment_start is Some {
            lemma_scan_stops(syntax, width as int, line@, pos as int, cur);
        }
    }
    LineScan { code_seen, comment_start }
}

/// Scans one line of a file written in `language`. `stack` holds the closing
/// delimiters of the comments that are open before the line, the innermost
/// last, and `quote` the closing delimiter of the quoted literal that is
/// open; both are left as they are behind the line. The window is as wide as
/// the longest delimiter of the language, which must hold at least one byte.
pub fn handle_multi_line(
    line: &str,
    language: &Language,
    stack: &mut Vec<&'static str>,
    quote: &mut Option<&'static str>,
) -> (seen: LineScan)
    requires
        language.syntax().width() >= 1,
    ensures
        ({
            let end = scan_line(
                language.syntax(),
                line.spec_bytes(),
                ScanState { quote: closer_bytes(*old(quote)), stack: marker_bytes(old(stack)@) },
            );
            &&& marker_bytes(final(stack)@) == end.stack
            &&& closer_bytes(*final(quote)) == end.quote
            &&& seen.code_seen == end.code_seen
            &&& seen.comment_start is Some == end.comment_at is Some
            &&& seen.comment_start is Some ==> seen.comment_start->0 == end.comment_at->0
        }),
{
    let width = language.window_size();
    scan_bytes(line.as_bytes(), language, width, stack, quote)
}

} // verus!
