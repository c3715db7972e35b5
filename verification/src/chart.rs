//! Bars for a histogram: one line of `#` for each bin, as long as the bin is
//! full in proportion to the fullest.
use vstd::prelude::*;
use crate::text::string_of;

verus! {

/// The length of the longest bar.
pub const BAR_WIDTH: usize = 40;

/// The greatest of `counts`, or 1 where there is none.
pub open spec fn peak(counts: Seq<usize>) -> nat
    decreases counts.len(),
{
    if counts.len() == 0 {
        1
    } else if counts.len() == 1 {
        counts[0] as nat
    } else {
        let rest = peak(counts.drop_last());
        if counts.last() > rest {
            counts.last() as nat
        } else {
            rest
        }
    }
}

/// The length of the bar of a bin that holds `count` values, where the
/// fullest bin holds `most`: the bin's share of the longest bar, rounded
/// down, and at least 1.
pub open spec fn bar_length(count: nat, most: nat) -> nat {
    let share = count * BAR_WIDTH as nat / most;
    if share < 1 {
        1
    } else {
        share
    }
}

/// A line of `n` times the character `c`.
pub open spec fn repeated(c: char, n: nat) -> Seq<char> {
    Seq::new(n, |i: int| c)
}

/// The greatest of `counts`, or 1 where there is none.
pub fn max_count(counts: &[usize]) -> (r: usize)
    ensures
        r == peak(counts@),
{
    let len: usize = counts.len();
    if len == 0 {
        return 1;
    }
    let mut most: usize = counts[0];
    let mut i: usize = 1;
    assert(counts@.take(1) =~= seq![counts@[0]]);
    while i < len
        invariant
            1 <= i <= len == counts@.len(),
            most == peak(counts@.take(i as int)),
        decreases len - i,
    {
        proof {
            let now = counts@.take(i + 1);
            assert(now.drop_last() =~= counts@.take(i as int));
            assert(now.last() == counts@[i as int]);
        }
        if counts[i] > most {
            most = counts[i];
        }
        i = i + 1;
    }
    assert(counts@.take(len as int) =~= counts@);
    most
}

/// The length of the bar of a bin that holds `count` values, where the
/// fullest bin holds `most`.
pub fn bar_len(count: usize, most: usize) -> (r: usize)
    requires
        most > 0,
        count * BAR_WIDTH <= usize::MAX,
    ensures
        r == bar_length(count as nat, most as nat),
{
    let share: usize = count * BAR_WIDTH / most;
    if share < 1 {
        1
    } else {
        share
    }
}

/// The bars of a histogram, one for each bin of `counts`.
pub fn bars(counts: &[usize]) -> (r: Vec<String>)
    requires
        peak(counts@) > 0,
        forall|i: int| 0 <= i < counts@.len() ==> counts@[i] * BAR_WIDTH <= usize::MAX,
    ensures
        r@.len() == counts@.len(),
        forall|i: int|
            0 <= i < counts@.len() ==> (#[trigger] r@[i])@ == repeated(
                '#',
                bar_length(counts@[i] as nat, peak(counts@)),
            ),
{
    let most: usize = max_count(counts);
    let len: usize = counts.len();
    let mut out: Vec<String> = Vec::new();
    let mut i: usize = 0;
    while i < len
        invariant
            i <= len == counts@.len(),
            most == peak(counts@),
            most > 0,
            forall|j: int| 0 <= j < counts@.len() ==> counts@[j] * BAR_WIDTH <= usize::MAX,
            out@.len() == i,
            forall|j: int|
                0 <= j < i ==> (#[trigger] out@[j])@ == repeated(
                    '#',
                    bar_length(counts@[j] as nat, most as nat),
                ),
        decreases len - i,
    {
        let n: usize = bar_len(counts[i], most);
        let mut line: Vec<char> = Vec::new();
        let mut k: usize = 0;
        while k < n
            invariant
                k <= n,
                line@ == repeated('#', k as nat),
            decreases n - k,
        {
            line.push('#');
            k = k + 1;
            assert(line@ =~= repeated('#', k as nat));
        }
        out.push(string_of(line.as_slice()));
        i = i + 1;
    }
    out
}

} // verus!
