//! Cartesian products of value lists, in odometer order.

use vstd::prelude::*;
use vstd::arithmetic::div_mod::{
    lemma_div_pos_is_pos, lemma_fundamental_div_mod, lemma_fundamental_div_mod_converse, lemma_mod_bound,
    lemma_multiply_divide_lt,
};
use vstd::arithmetic::mul::lemma_mul_is_commutative;

verus! {

/// The number of combinations of lists of lengths `lens`.
pub open spec fn count_product(lens: Seq<nat>) -> nat
    decreases lens.len(),
{
    if lens.len() == 0 {
        1
    } else {
        count_product(lens.drop_last()) * lens.last()
    }
}

/// For each combination, in order, the position it takes in each list: the
/// combinations of all lists but the last, each followed by every position
/// of the last one in turn.
pub open spec fn index_tuples(lens: Seq<nat>) -> Seq<Seq<int>>
    decreases lens.len(),
{
    if lens.len() == 0 {
        seq![Seq::<int>::empty()]
    } else {
        let p = index_tuples(lens.drop_last());
        let n = lens.last() as int;
        Seq::new((p.len() * n) as nat, |i: int| p[i / n].push(i % n))
    }
}

pub open spec fn list_lens<T>(lists: Seq<Vec<T>>) -> Seq<nat> {
    lists.map_values(|l: Vec<T>| l@.len())
}

pub open spec fn as_ints(v: Seq<usize>) -> Seq<int> {
    v.map_values(|x: usize| x as int)
}

pub open spec fn same_tuples(r: Seq<Vec<usize>>, t: Seq<Seq<int>>) -> bool {
    &&& r.len() == t.len()
    &&& forall|q: int| 0 <= q < r.len() ==> as_ints(#[trigger] r[q]@) == t[q]
}

proof fn lemma_div_bound_pos(i: int, n: int, m: int)
    requires
        0 <= i < m * n,
        0 <= m,
    ensures
        n > 0,
        0 <= i / n < m,
{
    if n <= 0 {
        assert(false) by (nonlinear_arith)
            requires
                n <= 0,
                0 <= m,
                i < m * n,
                0 <= i,
        ;
    }
    lemma_mul_is_commutative(m, n);
    lemma_multiply_divide_lt(i, n, m);
    lemma_div_pos_is_pos(i, n);
}

/// `d` picks one valid position in each of lists with lengths `lens`.
pub open spec fn valid_positions(lens: Seq<nat>, d: Seq<int>) -> bool {
    &&& d.len() == lens.len()
    &&& forall|j: int| 0 <= j < lens.len() ==> 0 <= #[trigger] d[j] < lens[j]
}

/// The combinations of `lists` have positions in range, are pairwise
/// distinct, cover every choice of one position per list, number exactly
/// the product of the lengths, and the last list cycles fastest.
pub proof fn lemma_product_shape(lens: Seq<nat>)
    ensures
        index_tuples(lens).len() == count_product(lens),
        forall|i: int| #![trigger index_tuples(lens)[i]] 0 <= i < index_tuples(lens).len() ==> {
            &&& index_tuples(lens)[i].len() == lens.len()
            &&& forall|j: int| 0 <= j < lens.len() ==> 0 <= #[trigger] index_tuples(lens)[i][j] < lens[j]
        },
        forall|i: int, i2: int|
            0 <= i < index_tuples(lens).len() && 0 <= i2 < index_tuples(lens).len() && i != i2
                ==> #[trigger] index_tuples(lens)[i] != #[trigger] index_tuples(lens)[i2],
        forall|d: Seq<int>| #[trigger] valid_positions(lens, d)
                ==> exists|i: int| 0 <= i < index_tuples(lens).len() && #[trigger] index_tuples(lens)[i] == d,
        lens.len() > 0 ==> forall|i: int| #![trigger index_tuples(lens)[i]] 0 <= i < index_tuples(lens).len() ==> {
            &&& index_tuples(lens)[i].last() == i % (lens.last() as int)
            &&& index_tuples(lens)[i].drop_last() == index_tuples(lens.drop_last())[i / (lens.last() as int)]
        },
    decreases lens.len(),
{
    if lens.len() > 0 {
        let pl = lens.drop_last();
        lemma_product_shape(pl);
        let p = index_tuples(pl);
        let n = lens.last() as int;
        let t = index_tuples(lens);
        assert forall|i: int| #![trigger t[i]] 0 <= i < t.len() implies {
            &&& t[i].len() == lens.len()
            &&& forall|j: int| 0 <= j < lens.len() ==> 0 <= #[trigger] t[i][j] < lens[j]
            &&& t[i].last() == i % n
            &&& t[i].drop_last() == p[i / n]
        } by {
            lemma_div_bound_pos(i, n, p.len() as int);
            lemma_mod_bound(i, n);
            assert(t[i] == p[i / n].push(i % n));
            assert(t[i].drop_last() =~= p[i / n]);
            assert forall|j: int| 0 <= j < lens.len() implies 0 <= #[trigger] t[i][j] < lens[j] by {
                if j < lens.len() - 1 {
                    assert(t[i][j] == p[i / n][j]);
                    assert(lens[j] == pl[j]);
                }
            }
        }
        assert forall|i: int, i2: int|
            0 <= i < t.len() && 0 <= i2 < t.len() && i != i2 implies #[trigger] t[i] != #[trigger] t[i2] by {
            lemma_div_bound_pos(i, n, p.len() as int);
            lemma_div_bound_pos(i2, n, p.len() as int);
            if t[i] == t[i2] {
                assert(t[i].last() == t[i2].last());
                assert(t[i].drop_last() == t[i2].drop_last());
                assert(i / n == i2 / n);
                assert(i % n == i2 % n);
                lemma_fundamental_div_mod(i, n);
                lemma_fundamental_div_mod(i2, n);
            }
        }
        assert forall|d: Seq<int>| #[trigger] valid_positions(lens, d)
                implies exists|i: int| 0 <= i < t.len() && #[trigger] t[i] == d by {
            let dp = d.drop_last();
            assert forall|j: int| 0 <= j < pl.len() implies 0 <= #[trigger] dp[j] < pl[j] by {
                assert(dp[j] == d[j]);
                assert(pl[j] == lens[j]);
            }
            assert(valid_positions(pl, dp));
            let a = choose|a: int| 0 <= a < p.len() && #[trigger] p[a] == dp;
            let y = d.last();
            let i = a * n + y;
            lemma_fundamental_div_mod_converse(i, n, a, y);
            assert(i < p.len() * n) by (nonlinear_arith)
                requires
                    i == a * n + y,
                    y < n,
                    a + 1 <= p.len(),
                    0 <= n,
            ;
            assert(t[i] == p[a].push(y));
            assert(t[i] =~= d);
        }
    } else {
        assert forall|d: Seq<int>| #[trigger] valid_positions(lens, d)
                implies exists|i: int| 0 <= i < index_tuples(lens).len() && #[trigger] index_tuples(lens)[i] == d by {
            assert(index_tuples(lens)[0] =~= d);
        }
    }
}

/// Copies a list of positions.
fn copy_positions(v: &Vec<usize>) -> (r: Vec<usize>)
    ensures
        r@ == v@,
{
    let mut r: Vec<usize> = Vec::new();
    let mut i: usize = 0;
    while i < v.len()
        invariant
            i <= v@.len(),
            r@ == v@.subrange(0, i as int),
        decreases v@.len() - i,
    {
        r.push(v[i]);
        i += 1;
    }
    assert(r@ =~= v@);
    r
}

/// The index tuples of lists with lengths `lens`, built one list at a time.
fn position_product(lens: &Vec<usize>) -> (r: Vec<Vec<usize>>)
    ensures
        same_tuples(r@, index_tuples(as_ints(lens@).map_values(|x: int| x as nat))),
{
    let ghost all = as_ints(lens@).map_values(|x: int| x as nat);
    let mut result: Vec<Vec<usize>> = Vec::new();
    result.push(Vec::new());
    proof {
        assert(all.take(0).len() == 0);
        assert(as_ints(result@[0]@) =~= Seq::<int>::empty());
    }
    let mut a: usize = 0;
    while a < lens.len()
        invariant
            a <= lens@.len(),
            all == as_ints(lens@).map_values(|x: int| x as nat),
            same_tuples(result@, index_tuples(all.take(a as int))),
        decreases lens@.len() - a,
    {
        let n = lens[a];
        let ghost prev = index_tuples(all.take(a as int));
        let mut next: Vec<Vec<usize>> = Vec::new();
        let mut p: usize = 0;
        while p < result.len()
            invariant
                p <= result@.len(),
                n > 0 ==> next@.len() == p * n,
                n == 0 ==> next@.len() == 0,
                same_tuples(result@, prev),
                forall|q: int| 0 <= q < next@.len() ==> as_ints(#[trigger] next@[q]@) == prev[q / (n as int)].push(q % (n as int)),
            decreases result@.len() - p,
        {
            let mut y: usize = 0;
            while y < n
                invariant
                    p < result@.len(),
                    y <= n,
                    next@.len() == p * n + y,
                    same_tuples(result@, prev),
                    forall|q: int| 0 <= q < next@.len() ==> as_ints(#[trigger] next@[q]@) == prev[q / (n as int)].push(q % (n as int)),
                decreases n - y,
            {
                let mut combo = copy_positions(&result[p]);
                combo.push(y);
                proof {
                    let q = (p * n + y) as int;
                    lemma_fundamental_div_mod_converse(q, n as int, p as int, y as int);
                    assert(as_ints(combo@) =~= as_ints(result@[p as int]@).push(y as int));
                }
                next.push(combo);
                y += 1;
            }
            p += 1;
            proof {
                if n > 0 {
                    assert(next@.len() == p * n) by (nonlinear_arith)
                        requires next@.len() == (p - 1) * n + n;
                }
            }
        }
        proof {
            let ta = all.take(a + 1);
            assert(ta.drop_last() =~= all.take(a as int));
            assert(ta.last() == n as nat);
            assert(next@.len() == prev.len() * n) by (nonlinear_arith)
                requires
                    n > 0 ==> next@.len() == p * n,
                    n == 0 ==> next@.len() == 0,
                    p == prev.len(),
            ;
        }
        result = next;
        a += 1;
    }
    assert(all.take(lens@.len() as int) =~= all);
    result
}

/// Every combination that takes one value from each list, in odometer
/// order: the last list's values cycle fastest. No lists give one empty
/// combination.
pub fn cartesian_product<T: Clone>(lists: &[Vec<T>]) -> (r: Vec<Vec<T>>)
    ensures
        r@.len() == index_tuples(list_lens(lists@)).len(),
        forall|i: int| 0 <= i < r@.len() ==> (#[trigger] r@[i])@.len() == lists@.len(),
        forall|i: int, j: int|
            0 <= i < r@.len() && 0 <= j < lists@.len() ==> cloned(
                lists@[j]@[index_tuples(list_lens(lists@))[i][j]],
                #[trigger] r@[i]@[j],
            ),
{
    let mut lens: Vec<usize> = Vec::new();
    let mut a: usize = 0;
    while a < lists.len()
        invariant
            a <= lists@.len(),
            lens@.len() == a,
            forall|j: int| 0 <= j < a ==> #[trigger] lens@[j] == lists@[j]@.len(),
        decreases lists@.len() - a,
    {
        lens.push(lists[a].len());
        a += 1;
    }
    let ghost ls = list_lens(lists@);
    assert(as_ints(lens@).map_values(|x: int| x as nat) =~= ls);
    let positions = position_product(&lens);
    proof {
        lemma_product_shape(ls);
    }
    let ghost t = index_tuples(ls);
    let mut result: Vec<Vec<T>> = Vec::new();
    let mut i: usize = 0;
    while i < positions.len()
        invariant
            i <= positions@.len(),
            t == index_tuples(ls),
            ls == list_lens(lists@),
            same_tuples(positions@, t),
            lens@.len() == lists@.len(),
            forall|j: int| 0 <= j < lens@.len() ==> #[trigger] lens@[j] == lists@[j]@.len(),
            forall|k: int| #![trigger t[k]] 0 <= k < t.len() ==> {
                &&& t[k].len() == ls.len()
                &&& forall|j: int| 0 <= j < ls.len() ==> 0 <= #[trigger] t[k][j] < ls[j]
            },
            result@.len() == i,
            forall|k: int| 0 <= k < i ==> (#[trigger] result@[k])@.len() == lists@.len(),
            forall|k: int, j: int|
                0 <= k < i && 0 <= j < lists@.len() ==> cloned(lists@[j]@[t[k][j]], #[trigger] result@[k]@[j]),
        decreases positions@.len() - i,
    {
        let ghost tk = t[i as int];
        assert(as_ints(positions@[i as int]@) == tk);
        let mut combo: Vec<T> = Vec::new();
        let mut j: usize = 0;
        while j < lists.len()
            invariant
                i < positions@.len(),
                j <= lists@.len(),
                tk == t[i as int],
                as_ints(positions@[i as int]@) == tk,
                tk.len() == lists@.len(),
                ls == list_lens(lists@),
                forall|j2: int| 0 <= j2 < ls.len() ==> 0 <= #[trigger] tk[j2] < ls[j2],
                combo@.len() == j,
                forall|j2: int| 0 <= j2 < j ==> cloned(lists@[j2]@[tk[j2]], #[trigger] combo@[j2]),
            decreases lists@.len() - j,
        {
            assert(tk[j as int] == positions@[i as int]@[j as int] as int);
            let x = lists[j][positions[i][j]].clone();
            combo.push(x);
            j += 1;
        }
        result.push(combo);
        i += 1;
    }
    result
}

} // verus!
