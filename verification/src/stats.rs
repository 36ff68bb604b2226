//! The figures of a benchmark.

use vstd::prelude::*;
use vstd::relations::sorted_by;

verus! {

/// Whether `s` ascends.
pub open spec fn ascends(s: Seq<u64>) -> bool {
    forall|i: int, j: int| 0 <= i <= j < s.len() ==> s[i] <= s[j]
}

/// The values of `s` in ascending order.
pub open spec fn ascending(s: Seq<u64>) -> Seq<u64> {
    s.sort_by(|a: u64, b: u64| a <= b)
}

proof fn lemma_ascending(s: Seq<u64>, r: Seq<u64>)
    requires
        ascends(r),
        r.to_multiset() == s.to_multiset(),
    ensures
        r == ascending(s),
{
    let leq = |a: u64, b: u64| a <= b;
    s.lemma_sort_by_ensures(leq);
    assert(sorted_by(r, leq));
    vstd::seq_lib::lemma_sorted_unique(r, ascending(s), leq);
}

/// Putting values in order keeps every one of them.
pub proof fn law_ascending(s: Seq<u64>)
    ensures
        ascends(ascending(s)),
        ascending(s).to_multiset() == s.to_multiset(),
        ascending(s).len() == s.len(),
{
    broadcast use vstd::seq_lib::group_to_multiset_ensures;

    let leq = |a: u64, b: u64| a <= b;
    let r = ascending(s);
    s.lemma_sort_by_ensures(leq);
    assert(s.len() == s.to_multiset().len());
    assert(r.len() == r.to_multiset().len());
    assert forall|i: int, j: int| 0 <= i <= j < r.len() implies r[i] <= r[j] by {
        if i < j {
            assert(leq(r[i], r[j]));
        }
    }
}

/// The values of a benchmark, in ascending order.
#[derive(Debug)]
pub struct Spread {
    pub sorted: Vec<u64>,
}

impl View for Spread {
    type V = Seq<u64>;

    open spec fn view(&self) -> Seq<u64> {
        self.sorted@
    }
}

/// What is told of a benchmark beside its mean.
#[derive(Debug, Clone, Copy, PartialEq, Eq, Structural)]
pub struct Figures {
    pub count: usize,
    pub min: u64,
    /// The value in the middle; of two, the larger.
    pub p50: u64,
    /// The value below which 99 of 100 lie.
    pub p99: u64,
    pub max: u64,
}

/// The figures of the ascending values `s`.
pub open spec fn figures_of(s: Seq<u64>) -> Figures {
    Figures {
        count: s.len() as usize,
        min: s[0],
        p50: s[s.len() as int / 2],
        p99: s[s.len() as int * 99 / 100],
        max: s[s.len() - 1],
    }
}

proof fn lemma_insert(s: Seq<u64>, i: int, x: u64)
    requires
        0 <= i <= s.len(),
    ensures
        s.insert(i, x).to_multiset() == s.to_multiset().insert(x),
{
    broadcast use vstd::seq_lib::group_to_multiset_ensures;

    let more = s.insert(i, x);
    assert(more[i] == x);
    assert(more.remove(i) =~= s);
    assert(more.contains(x));
    assert(more.to_multiset() =~= more.to_multiset().remove(x).insert(x));
}

impl Spread {
    /// The spread of `values`.
    pub fn of(values: &Vec<u64>) -> (r: Self)
        ensures
            ascends(r@),
            r@.to_multiset() == values@.to_multiset(),
            r@ == ascending(values@),
    {
        let mut sorted: Vec<u64> = Vec::new();
        assert(values@.take(0) =~= sorted@);
        for i in 0..values.len()
            invariant
                ascends(sorted@),
                sorted@.to_multiset() == values@.take(i as int).to_multiset(),
                sorted@.len() == i,
        {
            let x: u64 = values[i];
            let mut at: usize = sorted.len();
            while at > 0 && sorted[at - 1] > x
                invariant
                    at <= sorted@.len(),
                    ascends(sorted@),
                    forall|j: int| at <= j < sorted@.len() ==> sorted@[j] > x,
                decreases at,
            {
                at = at - 1;
            }
            let ghost before = sorted@;
            sorted.insert(at, x);
            proof {
                broadcast use vstd::seq_lib::group_to_multiset_ensures;

                lemma_insert(before, at as int, x);
                assert(values@.take(i + 1) =~= values@.take(i as int).push(x));
            }
        }
        assert(values@.take(values@.len() as int) =~= values@);
        proof {
            lemma_ascending(values@, sorted@);
        }
        Spread { sorted }
    }

    /// The figures; `None` where there is no value.
    pub fn figures(&self) -> (r: Option<Figures>)
        ensures
            r == (if self@.len() == 0 {
                None
            } else {
                Some(figures_of(self@))
            }),
    {
        let n: usize = self.sorted.len();
        if n == 0 {
            return None;
        }
        let p99: usize = (n as u128 * 99 / 100) as usize;
        Some(
            Figures {
                count: n,
                min: self.sorted[0],
                p50: self.sorted[n / 2],
                p99: self.sorted[p99],
                max: self.sorted[n - 1],
            },
        )
    }
}

/// The figures of a spread are in order, and each is one of the values.
pub proof fn law_figures_in_order(values: Seq<u64>, s: Seq<u64>)
    requires
        ascends(s),
        s.to_multiset() == values.to_multiset(),
        0 < s.len() <= usize::MAX,
    ensures
        ({
            let f = figures_of(s);
            &&& f.count == values.len()
            &&& f.min <= f.p50 <= f.p99 <= f.max
            &&& values.contains(f.min) && values.contains(f.p50) && values.contains(f.p99)
                && values.contains(f.max)
            &&& forall|x: u64| #[trigger] values.contains(x) ==> f.min <= x <= f.max
        }),
{
    broadcast use vstd::seq_lib::group_to_multiset_ensures;

    let n = s.len() as int;
    assert(n / 2 <= n * 99 / 100) by (nonlinear_arith)
        requires
            n > 0,
    ;
    assert(n * 99 / 100 <= n - 1) by (nonlinear_arith)
        requires
            n > 0,
    ;
    assert forall|i: int| 0 <= i < n implies values.contains(#[trigger] s[i]) by {
        assert(s.contains(s[i]));
        assert(s.to_multiset().count(s[i]) > 0);
    }
    assert forall|x: u64| #[trigger] values.contains(x) implies s[0] <= x <= s[n - 1] by {
        assert(values.to_multiset().count(x) > 0);
        assert(s.contains(x));
    }
    let p = n / 2;
    let q = n * 99 / 100;
    assert(s[0] <= s[p] <= s[q] <= s[n - 1]);
    assert(values.contains(s[0]) && values.contains(s[p]));
    assert(values.contains(s[q]) && values.contains(s[n - 1]));
    assert(s.len() == s.to_multiset().len());
    assert(values.len() == values.to_multiset().len());
}


/// Of values in ascending order the smallest, the largest, the one in the middle and the
/// one at 99 of 100 are told: half of the values, rounded down, stand before the middle,
/// and none of those is larger.
pub proof fn law_figures(s: Seq<u64>)
    requires
        forall|i: int, j: int| 0 <= i <= j < s.len() ==> s[i] <= s[j],
        0 < s.len() <= usize::MAX,
    ensures
        ({
            let f = figures_of(s);
            let half = s.len() as int / 2;
            let most = s.len() as int * 99 / 100;
            &&& f.count == s.len()
            &&& f.min == s.first() && f.max == s.last()
            &&& half < s.len() && most < s.len()
            &&& forall|i: int| 0 <= i < half ==> #[trigger] s[i] <= f.p50
            &&& forall|i: int| half <= i < s.len() ==> f.p50 <= #[trigger] s[i]
            &&& s[half] == f.p50
            &&& forall|i: int| 0 <= i < most ==> #[trigger] s[i] <= f.p99
            &&& forall|i: int| most <= i < s.len() ==> f.p99 <= #[trigger] s[i]
            &&& s[most] == f.p99
        }),
{
}

/// The values in ascending order are the same values, each as often, and none stands
/// before a smaller one.
pub proof fn law_put_in_order(s: Seq<u64>)
    ensures
        forall|i: int, j: int|
            0 <= i <= j < ascending(s).len() ==> ascending(s)[i] <= ascending(s)[j],
        ascending(s).to_multiset() == s.to_multiset(),
        ascending(s).len() == s.len(),
{
    law_ascending(s);
}

} // verus!
