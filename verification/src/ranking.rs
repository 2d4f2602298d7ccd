//! The first few of a table's rows in a given order.
use vstd::prelude::*;

verus! {

/// The place of a row in an order: the first number decides, then the second.
pub type Rank = (i128, i128);

pub open spec fn rank_le(a: Rank, b: Rank) -> bool {
    a.0 < b.0 || (a.0 == b.0 && a.1 <= b.1)
}

/// Whether `chosen` are the places of the first `limit` of the rows that have a rank, in the order
/// of their ranks. Rows of the same rank may come in any order.
pub open spec fn first_ranked(
    ranks: Seq<Option<Rank>>,
    chosen: Seq<usize>,
    limit: int,
) -> bool {
    &&& chosen.no_duplicates()
    &&& chosen.len() <= limit
    &&& forall|k: int|
        0 <= k < chosen.len() ==> (#[trigger] chosen[k]) < ranks.len() && ranks[chosen[k] as int]
            is Some
    &&& forall|j: int, k: int|
        0 <= j < k < chosen.len() ==> rank_le(
            ranks[#[trigger] chosen[j] as int]->0,
            ranks[#[trigger] chosen[k] as int]->0,
        )
    &&& forall|i: int, k: int|
        0 <= i < ranks.len() && (#[trigger] ranks[i]) is Some && !chosen.contains(i as usize) && 0
            <= k < chosen.len() ==> rank_le(ranks[#[trigger] chosen[k] as int]->0, ranks[i]->0)
    &&& chosen.len() < limit ==> forall|i: int|
        0 <= i < ranks.len() && (#[trigger] ranks[i]) is Some ==> chosen.contains(i as usize)
}

fn is_le(a: Rank, b: Rank) -> (r: bool)
    ensures
        r == rank_le(a, b),
{
    a.0 < b.0 || (a.0 == b.0 && a.1 <= b.1)
}

/// The place of a row of lowest rank among those not taken.
fn lowest(ranks: &Vec<Option<Rank>>, taken: &Vec<bool>) -> (r: Option<usize>)
    requires
        ranks.len() == taken.len(),
    ensures
        match r {
            Some(best) => {
                &&& best < ranks.len()
                &&& !taken@[best as int]
                &&& ranks@[best as int] is Some
                &&& forall|i: int|
                    0 <= i < ranks.len() && !taken@[i] && ranks@[i] is Some ==> rank_le(
                        ranks@[best as int]->0,
                        #[trigger] ranks@[i]->0,
                    )
            },
            None => forall|i: int|
                0 <= i < ranks.len() && !taken@[i] ==> (#[trigger] ranks@[i]) is None,
        },
{
    let n: usize = ranks.len();
    let mut best: Option<usize> = None;
    let mut i: usize = 0;
    while i < n
        invariant
            n == ranks.len(),
            n == taken.len(),
            i <= n,
            match best {
                Some(b) => {
                    &&& b < i
                    &&& !taken@[b as int]
                    &&& ranks@[b as int] is Some
                    &&& forall|j: int|
                        0 <= j < i && !taken@[j] && ranks@[j] is Some ==> rank_le(
                            ranks@[b as int]->0,
                            #[trigger] ranks@[j]->0,
                        )
                },
                None => forall|j: int|
                    0 <= j < i && !taken@[j] ==> (#[trigger] ranks@[j]) is None,
            },
        decreases n - i,
    {
        if !taken[i] {
            if let Some(here) = ranks[i] {
                let better: bool = match best {
                    Some(b) => match ranks[b] {
                        Some(held) => !is_le(held, here),
                        None => true,
                    },
                    None => true,
                };
                if better {
                    best = Some(i);
                }
            }
        }
        i = i + 1;
    }
    best
}

/// The places of the first `limit` rows.
pub fn choose_first(ranks: &Vec<Option<Rank>>, limit: i128) -> (r: Vec<usize>)
    requires
        limit >= 0,
    ensures
        first_ranked(ranks@, r@, limit as int),
{
    let n: usize = ranks.len();
    let mut taken: Vec<bool> = Vec::new();
    let mut i: usize = 0;
    while i < n
        invariant
            i <= n,
            taken.len() == i,
            forall|j: int| 0 <= j < i ==> !(#[trigger] taken@[j]),
        decreases n - i,
    {
        taken.push(false);
        i = i + 1;
    }
    let mut chosen: Vec<usize> = Vec::new();
    while (chosen.len() as i128) < limit
        invariant_except_break
            n == ranks.len(),
            n == taken.len(),
            chosen.len() <= limit,
            forall|j: usize| 0 <= j < n ==> (taken@[j as int] <==> #[trigger] chosen@.contains(j)),
            chosen@.no_duplicates(),
            forall|k: int|
                0 <= k < chosen@.len() ==> (#[trigger] chosen@[k]) < n && ranks@[chosen@[k] as int]
                    is Some,
            forall|j: int, k: int|
                0 <= j < k < chosen@.len() ==> rank_le(
                    ranks@[#[trigger] chosen@[j] as int]->0,
                    ranks@[#[trigger] chosen@[k] as int]->0,
                ),
            forall|i: int, k: int|
                0 <= i < n && (#[trigger] ranks@[i]) is Some && !chosen@.contains(i as usize) && 0
                    <= k < chosen@.len() ==> rank_le(
                    ranks@[#[trigger] chosen@[k] as int]->0,
                    ranks@[i]->0,
                ),
        ensures
            first_ranked(ranks@, chosen@, limit as int),
        decreases limit - chosen.len(),
    {
        match lowest(ranks, &taken) {
            Some(best) => {
                let ghost before = chosen@;
                assert(!before.contains(best));
                chosen.push(best);
                taken.set(best, true);
                proof {
                    let after = chosen@;
                    let last = before.len() as int;
                    assert forall|j: usize| 0 <= j < n implies (taken@[j as int]
                        <==> #[trigger] after.contains(j)) by {
                        if before.contains(j) {
                            let k = before.index_of(j);
                            assert(after[k] == j);
                        }
                        if j == best {
                            assert(after[last] == j);
                        }
                        if after.contains(j) && j != best {
                            let k = after.index_of(j);
                            assert(before[k] == j);
                        }
                    }
                    assert forall|a: int, b: int|
                        0 <= a < after.len() && 0 <= b < after.len() && a != b implies after[a]
                        != after[b] by {
                        if a == last {
                            assert(before.contains(before[b]));
                        } else if b == last {
                            assert(before.contains(before[a]));
                        }
                    }
                    assert forall|j: int, k: int| 0 <= j < k < after.len() implies rank_le(
                        ranks@[#[trigger] after[j] as int]->0,
                        ranks@[#[trigger] after[k] as int]->0,
                    ) by {
                        if k == last {
                            assert(after[j] == before[j]);
                            assert(rank_le(
                                ranks@[before[j] as int]->0,
                                ranks@[best as int]->0,
                            ));
                        } else {
                            assert(after[j] == before[j] && after[k] == before[k]);
                        }
                    }
                    assert forall|i: int, k: int|
                        0 <= i < n && (#[trigger] ranks@[i]) is Some && !after.contains(i as usize)
                            && 0 <= k < after.len() implies rank_le(
                        ranks@[#[trigger] after[k] as int]->0,
                        ranks@[i]->0,
                    ) by {
                        if before.contains(i as usize) {
                            let q = before.index_of(i as usize);
                            assert(after[q] == i as usize);
                        }
                        assert(taken@[i] <==> after.contains(i as usize));
                        if i == best {
                            assert(after[last] == i);
                        }
                        if k < last {
                            assert(after[k] == before[k]);
                        }
                    }
                }
            },
            None => {
                assert forall|i: int|
                    0 <= i < ranks@.len() && (#[trigger] ranks@[i]) is Some implies chosen@.contains(
                    i as usize,
                ) by {
                    assert(taken@[i] <==> chosen@.contains(i as usize));
                }
                break;
            },
        }
    }
    chosen
}

/// Different numbers below a bound are no more than the bound.
pub proof fn lemma_distinct_below(numbers: Seq<int>, bound: nat)
    requires
        numbers.no_duplicates(),
        forall|k: int| 0 <= k < numbers.len() ==> 0 <= #[trigger] numbers[k] < bound,
    ensures
        numbers.len() <= bound,
{
    let set = numbers.to_set();
    numbers.unique_seq_to_set();
    let below = vstd::set_lib::set_int_range(0, bound as int);
    vstd::set_lib::lemma_int_range(0, bound as int);
    assert forall|x: int| set.contains(x) implies below.contains(x) by {
        let k = choose|k: int| 0 <= k < numbers.len() && numbers[k] == x;
        assert(0 <= numbers[k] < bound);
    }
    vstd::set_lib::lemma_len_subset(set, below);
}

} // verus!
