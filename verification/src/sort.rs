//! The orders in which the statistics of a language can be listed.

use crate::stats::{lemma_sum_totals_prefix, sum_totals, Stats};
use vstd::prelude::*;
use vstd::string::*;
use vstd::utf8::{decode_utf8, encode_utf8, encode_utf8_decode_utf8};

verus! {

/// The category by which statistics are sorted.
#[derive(Clone, Copy, Debug, PartialEq, Eq, Structural)]
pub enum Sort {
    /// By number of blank lines, the most first.
    Blanks,
    /// By number of comment lines, the most first.
    Comments,
    /// By number of lines of code, the most first.
    Code,
    /// By file name, in the order of the bytes of the names.
    Files,
    /// By number of lines, the most first.
    Lines,
}

/// A name that is none of `blanks`, `comments`, `code`, `files`, `lines` was
/// given as a sort category.
#[derive(Clone, Copy, Debug, PartialEq, Eq, Structural)]
pub struct UnknownCategory;

impl Sort {
    /// The category that `name` stands for: one of `blanks`, `comments`,
    /// `code`, `files` and `lines`. Any other name is an error.
    pub open spec fn named(name: Seq<char>) -> Result<Sort, UnknownCategory> {
        if name == "blanks"@ {
            Ok(Sort::Blanks)
        } else if name == "comments"@ {
            Ok(Sort::Comments)
        } else if name == "code"@ {
            Ok(Sort::Code)
        } else if name == "files"@ {
            Ok(Sort::Files)
        } else if name == "lines"@ {
            Ok(Sort::Lines)
        } else {
            Err(UnknownCategory)
        }
    }

    /// The category that `name` stands for, or the error that it stands for
    /// none.
    pub fn from_name(name: &str) -> (category: Result<Sort, UnknownCategory>)
        ensures
            category == Sort::named(name@),
    {
        if same_text(name, "blanks") {
            Ok(Sort::Blanks)
        } else if same_text(name, "comments") {
            Ok(Sort::Comments)
        } else if same_text(name, "code") {
            Ok(Sort::Code)
        } else if same_text(name, "files") {
            Ok(Sort::Files)
        } else if same_text(name, "lines") {
            Ok(Sort::Lines)
        } else {
            Err(UnknownCategory)
        }
    }
}

/// Whether two texts are the same.
fn same_text(a: &str, b: &str) -> (same: bool)
    ensures
        same == (a@ == b@),
{
    let left = a.as_bytes();
    let right = b.as_bytes();
    proof {
        encode_utf8_decode_utf8(a@);
        encode_utf8_decode_utf8(b@);
    }
    if left.len() != right.len() {
        return false;
    }
    let mut i: usize = 0;
    while i < left.len()
        invariant
            i <= left@.len() == right@.len(),
            left@ == encode_utf8(a@),
            right@ == encode_utf8(b@),
            decode_utf8(left@) == a@,
            decode_utf8(right@) == b@,
            forall|j: int| 0 <= j < i ==> left@[j] == right@[j],
        decreases left.len() - i,
    {
        if left[i] != right[i] {
            return false;
        }
        i += 1;
    }
    assert(left@ =~= right@);
    true
}

/// From `from` on, `a` comes before `b` in the order of their bytes: at the
/// first place where they differ `a` has the smaller byte, or `a` ends there
/// and `b` does not.
pub open spec fn bytes_less_from(a: Seq<u8>, b: Seq<u8>, from: int) -> bool
    decreases a.len() - from,
{
    if from < 0 || from >= b.len() {
        false
    } else if from >= a.len() {
        true
    } else if a[from] != b[from] {
        a[from] < b[from]
    } else {
        bytes_less_from(a, b, from + 1)
    }
}

/// `a` comes before `b` in the order of their bytes.
pub open spec fn bytes_less(a: Seq<u8>, b: Seq<u8>) -> bool {
    bytes_less_from(a, b, 0)
}

/// The bytes of the file name.
pub open spec fn name_bytes(stats: Stats) -> Seq<u8> {
    encode_utf8(stats.name@)
}

/// `a` has to stand before `b` when sorted by `category`.
pub open spec fn precedes(category: Sort, a: Stats, b: Stats) -> bool {
    match category {
        Sort::Blanks => a.blanks > b.blanks,
        Sort::Comments => a.comments > b.comments,
        Sort::Code => a.code > b.code,
        Sort::Files => bytes_less(name_bytes(a), name_bytes(b)),
        Sort::Lines => a.lines > b.lines,
    }
}

/// `after` is `before` sorted by `category`, each statistic `after[i]` being
/// `before[origin[i]]`: nothing is lost or added, none stands behind one that
/// it precedes, and those of which neither precedes the other keep the order
/// they had.
pub open spec fn sorts_stably(
    category: Sort,
    before: Seq<Stats>,
    after: Seq<Stats>,
    origin: Seq<int>,
) -> bool {
    &&& after.len() == before.len()
    &&& origin.len() == before.len()
    &&& forall|i: int|
        0 <= i < after.len() ==> 0 <= #[trigger] origin[i] < before.len() && after[i]
            == before[origin[i]]
    &&& forall|i: int, j: int|
        0 <= i < j < after.len() ==> #[trigger] origin[i] != #[trigger] origin[j]
    &&& forall|i: int, j: int|
        0 <= i < j < after.len() ==> !precedes(category, #[trigger] after[j], #[trigger] after[i])
    &&& forall|i: int, j: int|
        0 <= i < j < after.len() && !precedes(category, after[i], after[j]) ==> #[trigger] origin[i]
            < #[trigger] origin[j]
}

/// Putting one more statistic anywhere into a list adds its counts to the
/// sum.
pub proof fn lemma_sum_totals_insert(stats: Seq<Stats>, place: int, item: Stats)
    requires
        0 <= place <= stats.len(),
    ensures
        sum_totals(stats.insert(place, item), stats.len() + 1) == sum_totals(
            stats,
            stats.len(),
        ).plus(item.totals()),
    decreases stats.len(),
{
    let longer = stats.insert(place, item);
    if place == stats.len() {
        lemma_sum_totals_prefix(longer, stats, stats.len());
    } else {
        let shorter = stats.drop_last();
        lemma_sum_totals_insert(shorter, place, item);
        lemma_sum_totals_prefix(longer, shorter.insert(place, item), stats.len());
        lemma_sum_totals_prefix(stats, shorter, shorter.len());
    }
}

/// Of two byte strings at most one comes before the other.
pub proof fn lemma_bytes_less_asymmetric(a: Seq<u8>, b: Seq<u8>, from: int)
    requires
        0 <= from,
        bytes_less_from(a, b, from),
    ensures
        !bytes_less_from(b, a, from),
    decreases a.len() - from,
{
    if from < a.len() && from < b.len() && a[from] == b[from] {
        lemma_bytes_less_asymmetric(a, b, from + 1);
    }
}

/// If `a` does not come before `b`, nor `b` before `c`, then `a` does not
/// come before `c`.
pub proof fn lemma_bytes_not_less_transitive(a: Seq<u8>, b: Seq<u8>, c: Seq<u8>, from: int)
    requires
        0 <= from,
        !bytes_less_from(a, b, from),
        !bytes_less_from(b, c, from),
    ensures
        !bytes_less_from(a, c, from),
    decreases c.len() - from,
{
    if from < c.len() && from < b.len() && from < a.len() && a[from] == b[from] && b[from]
        == c[from] {
        lemma_bytes_not_less_transitive(a, b, c, from + 1);
    }
}

/// No statistic precedes one that precedes it.
pub proof fn lemma_precedes_asymmetric(category: Sort, a: Stats, b: Stats)
    requires
        precedes(category, a, b),
    ensures
        !precedes(category, b, a),
{
    if category == Sort::Files {
        lemma_bytes_less_asymmetric(name_bytes(a), name_bytes(b), 0);
    }
}

/// If `a` does not precede `b`, nor `b` precede `c`, then `a` does not
/// precede `c`.
pub proof fn lemma_not_precedes_transitive(category: Sort, a: Stats, b: Stats, c: Stats)
    requires
        !precedes(category, a, b),
        !precedes(category, b, c),
    ensures
        !precedes(category, a, c),
{
    if category == Sort::Files {
        lemma_bytes_not_less_transitive(name_bytes(a), name_bytes(b), name_bytes(c), 0);
    }
}

/// Whether `a` comes before `b` in the order of their bytes.
fn less_bytes(a: &[u8], b: &[u8]) -> (less: bool)
    ensures
        less == bytes_less(a@, b@),
{
    let mut i: usize = 0;
    while i < a.len() && i < b.len()
        invariant
            i <= a@.len(),
            i <= b@.len(),
            bytes_less_from(a@, b@, i as int) == bytes_less(a@, b@),
        decreases a.len() - i,
    {
        if a[i] != b[i] {
            return a[i] < b[i];
        }
        i += 1;
    }
    i < b.len()
}

/// Whether `a` has to stand before `b` when sorted by `category`.
fn stands_before(category: Sort, a: &Stats, b: &Stats) -> (before: bool)
    ensures
        before == precedes(category, *a, *b),
{
    match category {
        Sort::Blanks => a.blanks > b.blanks,
        Sort::Comments => a.comments > b.comments,
        Sort::Code => a.code > b.code,
        Sort::Files => less_bytes(a.name.as_str().as_bytes(), b.name.as_str().as_bytes()),
        Sort::Lines => a.lines > b.lines,
    }
}

/// Sorts the statistics by `category`, keeping the order of those of which
/// neither precedes the other.
pub fn sort_stats(stats: &mut Vec<Stats>, category: Sort)
    ensures
        exists|origin: Seq<int>| sorts_stably(category, old(stats)@, final(stats)@, origin),
        sum_totals(final(stats)@, final(stats)@.len()) == sum_totals(
            old(stats)@,
            old(stats)@.len(),
        ),
{
    let ghost before = stats@;
    let mut sorted: Vec<Stats> = Vec::new();
    let ghost mut origin: Seq<int> = Seq::empty();
    let total = stats.len();
    let mut taken: usize = 0;
    while taken < total
        invariant
            taken <= total == before.len(),
            stats@.len() == total - taken,
            forall|k: int| 0 <= k < stats@.len() ==> stats@[k] == before[taken + k],
            sorted@.len() == taken,
            origin.len() == taken,
            sum_totals(sorted@, taken as nat) == sum_totals(before, taken as nat),
            forall|i: int|
                0 <= i < taken ==> 0 <= #[trigger] origin[i] < taken && sorted@[i]
                    == before[origin[i]],
            forall|i: int, j: int|
                0 <= i < j < taken ==> #[trigger] origin[i] != #[trigger] origin[j],
            forall|i: int, j: int|
                0 <= i < j < taken ==> !precedes(
                    category,
                    #[trigger] sorted@[j],
                    #[trigger] sorted@[i],
                ),
            forall|i: int, j: int|
                0 <= i < j < taken && !precedes(category, sorted@[i], sorted@[j])
                    ==> #[trigger] origin[i] < #[trigger] origin[j],
        decreases total - taken,
    {
        let item = stats.remove(0);
        let ghost was = sorted@;
        let ghost was_origin = origin;
        let mut place: usize = taken;
        while place > 0 && stands_before(category, &item, &sorted[place - 1])
            invariant
                place <= taken == sorted@.len(),
                forall|k: int| place <= k < taken ==> precedes(category, item, #[trigger] sorted@[k]),
            decreases place,
        {
            place -= 1;
        }
        proof {
            assert forall|k: int| 0 <= k < place implies !precedes(
                category,
                item,
                #[trigger] was[k],
            ) by {
                if k < place - 1 {
                    lemma_not_precedes_transitive(category, item, was[place - 1], was[k]);
                }
            }
            assert forall|k: int| place <= k < taken implies !precedes(
                category,
                #[trigger] was[k],
                item,
            ) by {
                lemma_precedes_asymmetric(category, item, was[k]);
            }
            origin = origin.insert(place as int, taken as int);
            lemma_sum_totals_insert(was, place as int, item);
        }
        sorted.insert(place, item);
        taken += 1;
        proof {
            assert forall|i: int| 0 <= i < taken implies 0 <= #[trigger] origin[i] < taken
                && sorted@[i] == before[origin[i]] by {
                if i < place {
                    assert(origin[i] == was_origin[i]);
                } else if i > place {
                    assert(origin[i] == was_origin[i - 1]);
                }
            }
            assert forall|i: int, j: int| 0 <= i < j < taken implies #[trigger] origin[i]
                != #[trigger] origin[j] by {
                let a = if i < place { i } else { i - 1 };
                let b = if j < place { j } else { j - 1 };
                if i != place && j != place {
                    assert(was_origin[a] != was_origin[b]);
                } else if i == place {
                    assert(origin[j] == was_origin[b]);
                } else {
                    assert(origin[i] == was_origin[a]);
                }
            }
            assert forall|i: int, j: int| 0 <= i < j < taken implies !precedes(
                category,
                #[trigger] sorted@[j],
                #[trigger] sorted@[i],
            ) by {
                let a = if i < place { i } else { i - 1 };
                let b = if j < place { j } else { j - 1 };
                if i != place && j != place {
                    assert(!precedes(category, was[b], was[a]));
                } else if i == place {
                    assert(sorted@[j] == was[b]);
                } else {
                    assert(sorted@[i] == was[a]);
                }
            }
            assert forall|i: int, j: int|
                0 <= i < j < taken && !precedes(
                    category,
                    sorted@[i],
                    sorted@[j],
                ) implies #[trigger] origin[i] < #[trigger] origin[j] by {
                let a = if i < place { i } else { i - 1 };
                let b = if j < place { j } else { j - 1 };
                if i != place && j != place {
                    assert(sorted@[i] == was[a]);
                    assert(sorted@[j] == was[b]);
                    assert(was_origin[a] < was_origin[b]);
                } else if i == place {
                    assert(sorted@[j] == was[b]);
                } else {
                    assert(origin[i] == was_origin[a]);
                }
            }
        }
    }
    *stats = sorted;
    assert(sorts_stably(category, before, stats@, origin));
}

} // verus!
