//! Frequency tables (kHz) of the two CPU clusters, lowest first.
use vstd::prelude::*;

verus! {

/// The scaling frequencies of the little cluster.
pub open spec fn spec_little_frequencies() -> Seq<i32> {
    seq![500000, 667000, 1000000, 1200000, 1398000, 1512000, 1704000, 1800000]
}

/// The scaling frequencies of the big cluster.
pub open spec fn spec_big_frequencies() -> Seq<i32> {
    seq![500000, 667000, 1000000, 1200000, 1398000, 1512000, 1608000, 1704000, 1800000,
        1908000, 2016000, 2100000, 2208000]
}

/// The little-cluster frequencies that the frequency benchmark samples.
pub open spec fn spec_little_freq_interp() -> Seq<i32> {
    seq![500000, 1000000, 1398000, 1800000]
}

/// The big-cluster frequencies that the frequency benchmark samples.
pub open spec fn spec_big_freq_interp() -> Seq<i32> {
    seq![500000, 1000000, 1512000, 2016000, 2208000]
}

proof fn lemma_rising_chain(s: Seq<i32>, i: int, j: int)
    requires
        0 <= i < j < s.len(),
        forall|q: int| #![trigger s[q]] 0 <= q < s.len() - 1 ==> s[q] < s[q + 1],
    ensures
        s[i] < s[j],
    decreases j - i,
{
    if i + 1 < j {
        lemma_rising_chain(s, i + 1, j);
    }
}

/// Each frequency table, and each sampled list, is in rising order, lowest
/// first; the sampled frequencies are entries of their cluster's table, and
/// the highest sampled frequency is the highest of the table.
pub proof fn lemma_frequency_tables_rising()
    ensures
        forall|i: int, j: int|
            0 <= i < j < spec_little_frequencies().len() ==> spec_little_frequencies()[i]
                < spec_little_frequencies()[j],
        forall|i: int, j: int|
            0 <= i < j < spec_big_frequencies().len() ==> spec_big_frequencies()[i]
                < spec_big_frequencies()[j],
        forall|i: int, j: int|
            0 <= i < j < spec_little_freq_interp().len() ==> spec_little_freq_interp()[i]
                < spec_little_freq_interp()[j],
        forall|i: int, j: int|
            0 <= i < j < spec_big_freq_interp().len() ==> spec_big_freq_interp()[i]
                < spec_big_freq_interp()[j],
        forall|i: int|
            0 <= i < spec_little_freq_interp().len() ==> spec_little_frequencies().contains(
                #[trigger] spec_little_freq_interp()[i],
            ),
        forall|i: int|
            0 <= i < spec_big_freq_interp().len() ==> spec_big_frequencies().contains(
                #[trigger] spec_big_freq_interp()[i],
            ),
        spec_little_freq_interp().last() == spec_little_frequencies().last(),
        spec_big_freq_interp().last() == spec_big_frequencies().last(),
{
    let l = spec_little_frequencies();
    let b = spec_big_frequencies();
    let li = spec_little_freq_interp();
    let bi = spec_big_freq_interp();
    assert(forall|i: int| #![trigger l[i]] 0 <= i < l.len() - 1 ==> l[i] < l[i + 1]);
    assert(forall|i: int| #![trigger b[i]] 0 <= i < b.len() - 1 ==> b[i] < b[i + 1]);
    assert(forall|i: int| #![trigger li[i]] 0 <= i < li.len() - 1 ==> li[i] < li[i + 1]);
    assert(forall|i: int| #![trigger bi[i]] 0 <= i < bi.len() - 1 ==> bi[i] < bi[i + 1]);
    assert forall|i: int, j: int| 0 <= i < j < l.len() implies l[i] < l[j] by {
        lemma_rising_chain(l, i, j);
    }
    assert forall|i: int, j: int| 0 <= i < j < b.len() implies b[i] < b[j] by {
        lemma_rising_chain(b, i, j);
    }
    assert forall|i: int, j: int| 0 <= i < j < li.len() implies li[i] < li[j] by {
        lemma_rising_chain(li, i, j);
    }
    assert forall|i: int, j: int| 0 <= i < j < bi.len() implies bi[i] < bi[j] by {
        lemma_rising_chain(bi, i, j);
    }
    assert(l[0] == li[0] && l[2] == li[1] && l[4] == li[2] && l[7] == li[3]);
    assert(b[0] == bi[0] && b[2] == bi[1] && b[5] == bi[2] && b[10] == bi[3] && b[12] == bi[4]);
}

/// The little cluster's frequency table.
pub fn little_frequencies() -> (v: Vec<i32>)
    ensures
        v@ == spec_little_frequencies(),
{
    let v: Vec<i32> = vec![500000, 667000, 1000000, 1200000, 1398000, 1512000, 1704000, 1800000];
    assert(v@ =~= spec_little_frequencies());
    v
}

/// The big cluster's frequency table.
pub fn big_frequencies() -> (v: Vec<i32>)
    ensures
        v@ == spec_big_frequencies(),
{
    let v: Vec<i32> = vec![500000, 667000, 1000000, 1200000, 1398000, 1512000, 1608000, 1704000,
        1800000, 1908000, 2016000, 2100000, 2208000];
    assert(v@ =~= spec_big_frequencies());
    v
}

/// The little-cluster frequencies sampled by the frequency benchmark.
pub fn little_freq_interp() -> (v: Vec<i32>)
    ensures
        v@ == spec_little_freq_interp(),
{
    let v: Vec<i32> = vec![500000, 1000000, 1398000, 1800000];
    assert(v@ =~= spec_little_freq_interp());
    v
}

/// The big-cluster frequencies sampled by the frequency benchmark.
pub fn big_freq_interp() -> (v: Vec<i32>)
    ensures
        v@ == spec_big_freq_interp(),
{
    let v: Vec<i32> = vec![500000, 1000000, 1512000, 2016000, 2208000];
    assert(v@ =~= spec_big_freq_interp());
    v
}

} // verus!
