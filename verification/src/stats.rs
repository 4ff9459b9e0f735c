//! The line counts of one file.

use vstd::prelude::*;

verus! {

/// Line counts as numbers without a limit.
pub struct Totals {
    /// Number of blank lines.
    pub blanks: nat,
    /// Number of lines of code.
    pub code: nat,
    /// Number of comment lines.
    pub comments: nat,
    /// Number of lines.
    pub lines: nat,
}

impl Totals {
    /// Nothing counted.
    pub open spec fn zero() -> Totals {
        Totals { blanks: 0, code: 0, comments: 0, lines: 0 }
    }

    /// The sum, counter by counter.
    pub open spec fn plus(self, other: Totals) -> Totals {
        Totals {
            blanks: self.blanks + other.blanks,
            code: self.code + other.code,
            comments: self.comments + other.comments,
            lines: self.lines + other.lines,
        }
    }

    /// Each counter fits in a `usize`.
    pub open spec fn fits(self) -> bool {
        &&& self.blanks <= usize::MAX
        &&& self.code <= usize::MAX
        &&& self.comments <= usize::MAX
        &&& self.lines <= usize::MAX
    }
}

/// The sum of the counts of the first `n` files.
pub open spec fn sum_totals(stats: Seq<Stats>, n: nat) -> Totals
    decreases n,
{
    if n == 0 {
        Totals::zero()
    } else {
        sum_totals(stats, (n - 1) as nat).plus(stats[n - 1].totals())
    }
}

/// The sum over two lists, one after the other, is the sum of their sums.
pub proof fn lemma_sum_totals_concat(first: Seq<Stats>, second: Seq<Stats>, n: nat)
    requires
        n <= second.len(),
    ensures
        sum_totals(first + second, first.len() + n) == sum_totals(first, first.len()).plus(
            sum_totals(second, n),
        ),
    decreases n,
{
    if n == 0 {
        lemma_sum_totals_prefix(first + second, first, first.len());
    } else {
        lemma_sum_totals_concat(first, second, (n - 1) as nat);
        assert((first + second)[first.len() + n - 1] == second[n - 1]);
    }
}

/// The sum of the first `n` counts looks at the first `n` files only.
pub proof fn lemma_sum_totals_prefix(a: Seq<Stats>, b: Seq<Stats>, n: nat)
    requires
        n <= a.len(),
        n <= b.len(),
        forall|i: int| 0 <= i < n ==> a[i] == b[i],
    ensures
        sum_totals(a, n) == sum_totals(b, n),
    decreases n,
{
    if n > 0 {
        lemma_sum_totals_prefix(a, b, (n - 1) as nat);
    }
}

/// The line counts of a single file, together with the name it was read under.
#[derive(Debug, PartialEq, Eq)]
pub struct Stats {
    /// Number of blank lines within the file.
    pub blanks: usize,
    /// Number of lines of code within the file.
    pub code: usize,
    /// Number of comment lines within the file.
    pub comments: usize,
    /// Total number of lines within the file.
    pub lines: usize,
    /// File name.
    pub name: String,
}

impl Stats {
    /// The counts of the file.
    pub open spec fn totals(&self) -> Totals {
        Totals {
            blanks: self.blanks as nat,
            code: self.code as nat,
            comments: self.comments as nat,
            lines: self.lines as nat,
        }
    }

    /// The three kinds of line add up to the total.
    pub open spec fn wf(&self) -> bool {
        self.lines == self.blanks + self.code + self.comments
    }

    /// A record for `name` in which nothing has been counted yet.
    pub fn new(name: &str) -> (stats: Stats)
        ensures
            stats.name@ == name@,
            stats.blanks == 0,
            stats.code == 0,
            stats.comments == 0,
            stats.lines == 0,
            stats.wf(),
    {
        Stats { blanks: 0, code: 0, comments: 0, lines: 0, name: name.to_owned() }
    }
}

impl Clone for Stats {
    fn clone(&self) -> (copy: Stats)
        ensures
            copy == *self,
    {
        Stats {
            blanks: self.blanks,
            code: self.code,
            comments: self.comments,
            lines: self.lines,
            name: self.name.clone(),
        }
    }
}

} // verus!
