//! This module implements various helper functions.
use vstd::prelude::*;

use crate::errors::{ParseError, ParseErrorKind};
use crate::search::Score;

verus! {

/// The index `x` comes before the index `y` when the data are sorted by value,
/// equal values keeping the order of their indices.
pub open spec fn sorts_before(data: Seq<Score>, x: int, y: int) -> bool {
    data[x] < data[y] || (data[x] == data[y] && x < y)
}

/// `order` lists each index of `data` once.
pub open spec fn is_order(data: Seq<Score>, order: Seq<usize>) -> bool {
    &&& order.len() == data.len()
    &&& forall|k: int| 0 <= k < order.len() ==> #[trigger] order[k] < data.len()
    &&& forall|a: int, b: int| 0 <= a < b < order.len() ==> order[a] != order[b]
    &&& forall|j: int| 0 <= j < data.len() ==> #[trigger] order.contains(j as usize)
}

/// `order` lists the indices of `data` by increasing value, equal values in
/// the order of their indices.
pub open spec fn is_sorted_order(data: Seq<Score>, order: Seq<usize>) -> bool {
    &&& is_order(data, order)
    &&& forall|a: int, b: int|
        0 <= a < b < order.len() ==> sorts_before(data, #[trigger] order[a] as int, #[trigger] order[b] as int)
}

/// Returns a vector of sorted indices: the indices of `data` by increasing
/// value (equal values in the order of their indices), or the reverse of that
/// order when `reverse` is set.
pub fn argsort(data: &[Score], reverse: bool) -> (r: Vec<usize>)
    ensures
        !reverse ==> is_sorted_order(data@, r@),
        reverse ==> is_sorted_order(data@, r@.reverse()),
{
    let n = data.len();
    let mut sorted: Vec<usize> = Vec::new();
    let mut i: usize = 0;
    while i < n
        invariant
            n == data@.len(),
            i <= n,
            sorted@.len() == i,
            forall|k: int| 0 <= k < i ==> #[trigger] sorted@[k] < i,
            forall|a: int, b: int| 0 <= a < b < i ==> sorted@[a] != sorted@[b],
            forall|j: int| 0 <= j < i ==> #[trigger] sorted@.contains(j as usize),
            forall|a: int, b: int|
                0 <= a < b < i ==> sorts_before(data@, #[trigger] sorted@[a] as int, #[trigger] sorted@[b] as int),
        decreases n - i,
    {
        // find the first position holding a greater value
        let mut p: usize = 0;
        while p < i && data[sorted[p]] <= data[i]
            invariant
                n == data@.len(),
                i < n,
                p <= i,
                sorted@.len() == i,
                forall|k: int| 0 <= k < i ==> #[trigger] sorted@[k] < i,
                forall|k: int| 0 <= k < p ==> data@[#[trigger] sorted@[k] as int] <= data@[i as int],
            decreases i - p,
        {
            p += 1;
        }
        let ghost old_sorted = sorted@;
        proof {
            assert forall|k: int| p <= k < i implies data@[i as int] < data@[#[trigger] old_sorted[k] as int] by {
                if k > p {
                    assert(sorts_before(data@, old_sorted[p as int] as int, old_sorted[k] as int));
                }
            }
        }
        sorted.insert(p, i);
        proof {
            let s = sorted@;
            assert(s == old_sorted.insert(p as int, i));
            assert forall|k: int| 0 <= k < i + 1 implies #[trigger] s[k] < i + 1 by {
                if k < p {
                    assert(s[k] == old_sorted[k]);
                } else if k > p {
                    assert(s[k] == old_sorted[k - 1]);
                }
            }
            assert forall|a: int, b: int| 0 <= a < b < i + 1 implies s[a] != s[b] by {
                if a < p && b < p {
                } else if a < p && b == p {
                    assert(old_sorted[a] < i);
                } else if a < p {
                    assert(s[b] == old_sorted[b - 1]);
                } else if a == p {
                    assert(s[b] == old_sorted[b - 1]);
                    assert(old_sorted[b - 1] < i);
                } else {
                    assert(s[a] == old_sorted[a - 1]);
                    assert(s[b] == old_sorted[b - 1]);
                }
            }
            assert forall|j: int| 0 <= j < i + 1 implies #[trigger] s.contains(j as usize) by {
                if j == i {
                    assert(s[p as int] == i);
                } else {
                    assert(old_sorted.contains(j as usize));
                    let k = choose|k: int| 0 <= k < old_sorted.len() && old_sorted[k] == j as usize;
                    if k < p {
                        assert(s[k] == j as usize);
                    } else {
                        assert(s[k + 1] == j as usize);
                    }
                }
            }
            assert forall|a: int, b: int| 0 <= a < b < i + 1 implies sorts_before(
                data@,
                #[trigger] s[a] as int,
                #[trigger] s[b] as int,
            ) by {
                if b < p {
                    assert(sorts_before(data@, old_sorted[a] as int, old_sorted[b] as int));
                } else if b == p {
                    assert(old_sorted[a] < i);
                } else if a < p {
                    assert(sorts_before(data@, old_sorted[a] as int, old_sorted[b - 1] as int));
                } else if a == p {
                    assert(data@[i as int] < data@[old_sorted[b - 1] as int]);
                } else {
                    assert(sorts_before(data@, old_sorted[a - 1] as int, old_sorted[b - 1] as int));
                }
            }
        }
        i += 1;
    }
    if reverse {
        let mut reversed: Vec<usize> = Vec::new();
        let mut k: usize = n;
        while k > 0
            invariant
                k <= n,
                sorted@.len() == n,
                reversed@.len() == n - k,
                forall|a: int| 0 <= a < n - k ==> #[trigger] reversed@[a] == sorted@[n - 1 - a],
            decreases k,
        {
            k -= 1;
            reversed.push(sorted[k]);
        }
        proof {
            assert(reversed@.reverse() =~= sorted@);
        }
        reversed
    } else {
        sorted
    }
}

/// The values of `original` written at the positions given by `indices`, in
/// the order of `indices`, over a copy of `original`.
pub open spec fn unsorted(original: Seq<Score>, indices: Seq<usize>, n: int) -> Seq<Score>
    decreases n,
{
    if n <= 0 {
        original
    } else {
        unsorted(original, indices, n - 1).update(indices[n - 1] as int, original[n - 1])
    }
}

/// Reverse operation of argsort, uses an array of sorted indices to create the original unsorted vector
pub fn reverse_argsort(original: &[Score], indices: &[usize]) -> (r: Vec<Score>)
    requires
        indices@.len() <= original@.len(),
        forall|k: int| 0 <= k < indices@.len() ==> #[trigger] indices@[k] < original@.len(),
    ensures
        r@ == unsorted(original@, indices@, indices@.len() as int),
{
    let mut sorted: Vec<Score> = Vec::new();
    let mut j: usize = 0;
    while j < original.len()
        invariant
            j <= original@.len(),
            sorted@ == original@.subrange(0, j as int),
        decreases original@.len() - j,
    {
        sorted.push(original[j]);
        j += 1;
    }
    let mut index_original: usize = 0;
    while index_original < indices.len()
        invariant
            index_original <= indices@.len(),
            indices@.len() <= original@.len(),
            forall|k: int| 0 <= k < indices@.len() ==> #[trigger] indices@[k] < original@.len(),
            sorted@ == unsorted(original@, indices@, index_original as int),
            sorted@.len() == original@.len(),
        decreases indices@.len() - index_original,
    {
        let index = indices[index_original];
        sorted.set(index, original[index_original]);
        index_original += 1;
    }
    sorted
}

pub proof fn lemma_unsorted_len(original: Seq<Score>, indices: Seq<usize>, n: int)
    requires
        0 <= n <= indices.len(),
        forall|k: int| 0 <= k < indices.len() ==> #[trigger] indices[k] < original.len(),
    ensures
        unsorted(original, indices, n).len() == original.len(),
    decreases n,
{
    if n > 0 {
        lemma_unsorted_len(original, indices, n - 1);
    }
}

proof fn lemma_unsorted(data: Seq<Score>, order: Seq<usize>, sorted: Seq<Score>, n: int, j: int)
    requires
        is_order(data, order),
        sorted.len() == data.len(),
        0 <= n <= order.len(),
        0 <= j < data.len(),
        forall|k: int| 0 <= k < order.len() ==> #[trigger] sorted[k] == data[order[k] as int],
    ensures
        (exists|k: int| 0 <= k < n && order[k] == j) ==> unsorted(sorted, order, n)[j] == data[j],
    decreases n,
{
    if n > 0 {
        lemma_unsorted(data, order, sorted, n - 1, j);
        lemma_unsorted_len(sorted, order, n - 1);
        if order[n - 1] as int != j && exists|k: int| 0 <= k < n && order[k] == j {
            let k = choose|k: int| 0 <= k < n && order[k] == j;
            assert(k < n - 1);
        }
    }
}

/// Each value of `sorted` is written back at the index that `indices` gives
/// for it, the indices being distinct.
pub proof fn lemma_unsorted_at(sorted: Seq<Score>, indices: Seq<usize>, n: int, k: int)
    requires
        0 <= k < n <= indices.len(),
        forall|j: int| 0 <= j < indices.len() ==> #[trigger] indices[j] < sorted.len(),
        forall|a: int, b: int| 0 <= a < b < indices.len() ==> indices[a] != indices[b],
    ensures
        unsorted(sorted, indices, n)[indices[k] as int] == sorted[k],
    decreases n,
{
    lemma_unsorted_len(sorted, indices, n - 1);
    if k < n - 1 {
        lemma_unsorted_at(sorted, indices, n - 1, k);
    }
}

/// Law: writing back the values sorted by an order of the indices at the
/// positions that the order gives restores the original values.
pub proof fn lemma_reverse_argsort(data: Seq<Score>, order: Seq<usize>, sorted: Seq<Score>)
    requires
        data.len() <= usize::MAX,
        is_order(data, order),
        sorted.len() == data.len(),
        forall|k: int| 0 <= k < order.len() ==> #[trigger] sorted[k] == data[order[k] as int],
    ensures
        unsorted(sorted, order, order.len() as int) == data,
{
    assert forall|j: int| 0 <= j < data.len() implies #[trigger] unsorted(
        sorted,
        order,
        order.len() as int,
    )[j] == data[j] by {
        assert(order.contains(j as usize));
        let k = choose|k: int| 0 <= k < order.len() && order[k] == j as usize;
        assert(order[k] == j);
        lemma_unsorted(data, order, sorted, order.len() as int, j);
    }
    lemma_unsorted_len(sorted, order, order.len() as int);
    assert(unsorted(sorted, order, order.len() as int) =~= data);
}

/// Parses bool arguments in string format ("true", "false"). Returns an error if the value is anything else.
pub fn parse_bool_arg(argument: &str) -> (r: Result<bool, ParseError>)
    ensures
        argument@ == seq!['t', 'r', 'u', 'e'] ==> r == Ok::<bool, ParseError>(true),
        argument@ == seq!['f', 'a', 'l', 's', 'e'] ==> r == Ok::<bool, ParseError>(false),
        argument@ != seq!['t', 'r', 'u', 'e'] && argument@ != seq!['f', 'a', 'l', 's', 'e'] ==> (r matches Err(e)
            && e.kind == ParseErrorKind::InvalidBool && e.value@ == argument@),
{
    let n = argument.unicode_len();
    if n == 4 && argument.get_char(0) == 't' && argument.get_char(1) == 'r' && argument.get_char(2)
        == 'u' && argument.get_char(3) == 'e' {
        assert(argument@ =~= seq!['t', 'r', 'u', 'e']);
        Ok(true)
    } else if n == 5 && argument.get_char(0) == 'f' && argument.get_char(1) == 'a'
        && argument.get_char(2) == 'l' && argument.get_char(3) == 's' && argument.get_char(4)
        == 'e' {
        assert(argument@ =~= seq!['f', 'a', 'l', 's', 'e']);
        Ok(false)
    } else {
        Err(ParseError { kind: ParseErrorKind::InvalidBool, value: argument.to_owned() })
    }
}

} // verus!
