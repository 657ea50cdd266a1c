use vstd::prelude::*;

use crate::model::Progress;

verus! {

// --- MARK: GRID

/// The number of rows given to the "Recently read" grid for `n_columns`
/// columns: `3` divided by the column count (rounded down), but at least 2.
pub fn progress_grid_rows(n_columns: i32) -> (r: i32)
    requires
        n_columns >= 1,
    ensures
        r == if 3i32 / n_columns >= 2 {
            3i32 / n_columns
        } else {
            2
        },
        r >= 2,
{
    let q = 3 / n_columns;
    if q >= 2 {
        q
    } else {
        2
    }
}

/// The number of rows given to the grid of all 114 surahs for `n_columns`
/// columns: 114 divided by the column count, rounded down.
pub fn surah_grid_rows(n_columns: i32) -> (r: i32)
    requires
        n_columns >= 1,
    ensures
        r == 114i32 / n_columns,
{
    114 / n_columns
}

/// The cell (column, row) of the `index`-th card of a grid of `n_columns`
/// columns, filled row by row.
pub fn grid_position(index: i32, n_columns: i32) -> (r: (i32, i32))
    requires
        index >= 0,
        n_columns >= 1,
    ensures
        r.0 == index as int % n_columns as int,
        r.1 == index as int / n_columns as int,
        0 <= r.0 < n_columns,
        n_columns * r.1 + r.0 == index,
{
    proof {
        vstd::arithmetic::div_mod::lemma_fundamental_div_mod(index as int, n_columns as int);
    }
    (index % n_columns, index / n_columns)
}

/// Distinct cards of a grid never share a cell.
pub proof fn lemma_grid_positions_distinct(a: int, b: int, n_columns: int)
    requires
        0 <= a,
        0 <= b,
        a != b,
        n_columns >= 1,
    ensures
        (a % n_columns, a / n_columns) != (b % n_columns, b / n_columns),
{
    vstd::arithmetic::div_mod::lemma_fundamental_div_mod(a, n_columns);
    vstd::arithmetic::div_mod::lemma_fundamental_div_mod(b, n_columns);
}

// --- MARK: RECENTLY READ

/// One card of the "Recently read" grid: the entry `index` of the progress
/// list, and the cell it is shown in.
#[derive(Clone, Copy)]
pub struct ProgressCard {
    pub index: usize,
    pub progress: Progress,
    pub column: i32,
    pub row: i32,
}

/// The time at which entry `i` of `progress` was last read.
pub open spec fn read_time(progress: Seq<Progress>, i: int) -> int {
    progress[i]@.last_on as int
}

/// The order in which `cards` lists the progress entries is a prefix of an
/// ordering of all of `progress` by the time they were last read, earliest
/// first: the entries are distinct, come in that order, and none left out was
/// read before one taken.
pub open spec fn is_read_order_prefix(progress: Seq<Progress>, cards: Seq<ProgressCard>) -> bool {
    &&& forall|a: int| 0 <= a < cards.len() ==> #[trigger] cards[a].index < progress.len()
    &&& forall|a: int, b: int|
        0 <= a < b < cards.len() ==> #[trigger] cards[a].index != #[trigger] cards[b].index
    &&& forall|a: int, b: int|
        0 <= a < b < cards.len() ==> read_time(progress, #[trigger] cards[a].index as int)
            <= read_time(progress, #[trigger] cards[b].index as int)
    &&& forall|a: int, j: int|
        0 <= a < cards.len() && 0 <= j < progress.len() && !is_taken(cards, j) ==> read_time(
            progress,
            #[trigger] cards[a].index as int,
        ) <= #[trigger] read_time(progress, j)
}

/// Entry `j` of the progress list has a card.
pub open spec fn is_taken(cards: Seq<ProgressCard>, j: int) -> bool {
    exists|b: int| 0 <= b < cards.len() && cards[b].index == j
}

/// The cards of the "Recently read" grid: the progress entries ordered by
/// the time they were last read (earliest first; entries read at the same
/// time in any order), as many as the grid has cells, each placed in the next
/// cell, row by row.
pub fn progress_cards(progress: &Vec<Progress>, n_columns: i32, n_rows: i32) -> (r: Vec<
    ProgressCard,
>)
    requires
        n_columns >= 1,
        n_rows >= 0,
        n_rows * n_columns <= i32::MAX,
    ensures
        r@.len() == if progress@.len() < n_rows * n_columns {
            progress@.len() as int
        } else {
            n_rows * n_columns
        },
        is_read_order_prefix(progress@, r@),
        forall|a: int|
            #![trigger r@[a]]
            0 <= a < r@.len() ==> {
                &&& r@[a].progress == progress@[r@[a].index as int]
                &&& r@[a].column == a % (n_columns as int)
                &&& r@[a].row == a / (n_columns as int)
            },
{
    let n = progress.len();
    let limit = (n_rows * n_columns) as usize;
    let mut rest: Vec<usize> = Vec::new();
    let mut i: usize = 0;
    while i < n
        invariant
            n == progress@.len(),
            i <= n,
            rest@.len() == i,
            forall|q: int| 0 <= q < i ==> #[trigger] rest@[q] == q,
        decreases n - i,
    {
        rest.push(i);
        i += 1;
    }
    let mut cards: Vec<ProgressCard> = Vec::new();
    let mut k: usize = 0;
    proof {
        assert forall|j: int| 0 <= j < n implies rest@.contains(j as usize) || is_taken(
            cards@,
            j,
        ) by {
            assert(rest@[j] == j as usize);
        }
    }
    while k < n && k < limit
        invariant
            n == progress@.len(),
            limit == n_rows * n_columns,
            limit <= i32::MAX,
            n_columns >= 1,
            k <= n,
            k <= limit,
            cards@.len() == k,
            rest@.len() == n - k,
            forall|q: int| 0 <= q < rest@.len() ==> #[trigger] rest@[q] < n,
            forall|q1: int, q2: int|
                0 <= q1 < q2 < rest@.len() ==> #[trigger] rest@[q1] != #[trigger] rest@[q2],
            forall|a: int, q: int|
                0 <= a < k && 0 <= q < rest@.len() ==> #[trigger] cards@[a].index
                    != #[trigger] rest@[q],
            forall|a: int, q: int|
                0 <= a < k && 0 <= q < rest@.len() ==> read_time(
                    progress@,
                    #[trigger] cards@[a].index as int,
                ) <= read_time(progress@, #[trigger] rest@[q] as int),
            forall|j: int| 0 <= j < n ==> rest@.contains(j as usize) || is_taken(cards@, j),
            is_read_order_prefix(progress@, cards@),
            forall|a: int|
                #![trigger cards@[a]]
                0 <= a < k ==> {
                    &&& cards@[a].progress == progress@[cards@[a].index as int]
                    &&& cards@[a].column == a % (n_columns as int)
                    &&& cards@[a].row == a / (n_columns as int)
                },
        decreases n - k,
    {
        // The earliest-read entry among those not yet placed.
        let mut best: usize = 0;
        let mut q: usize = 1;
        while q < rest.len()
            invariant
                n == progress@.len(),
                rest@.len() >= 1,
                best < rest@.len(),
                1 <= q <= rest@.len(),
                forall|q: int| 0 <= q < rest@.len() ==> #[trigger] rest@[q] < n,
                forall|p: int|
                    0 <= p < q ==> read_time(progress@, rest@[best as int] as int) <= read_time(
                        progress@,
                        #[trigger] rest@[p] as int,
                    ),
            decreases rest@.len() - q,
        {
            if progress[rest[q]].last_on() < progress[rest[best]].last_on() {
                best = q;
            }
            q += 1;
        }
        let ghost old_rest = rest@;
        let chosen = rest.remove(best);
        let ghost old_cards = cards@;
        let (column, row) = grid_position(k as i32, n_columns);
        cards.push(ProgressCard { index: chosen, progress: progress[chosen], column, row });
        proof {
            assert forall|q: int| 0 <= q < rest@.len() implies #[trigger] rest@[q] != chosen by {
                if q < best {
                    assert(old_rest[q] == rest@[q]);
                } else {
                    assert(old_rest[q + 1] == rest@[q]);
                }
            }
            assert forall|p: int| 0 <= p < rest@.len() implies read_time(
                progress@,
                chosen as int,
            ) <= read_time(progress@, #[trigger] rest@[p] as int) by {
                if p < best {
                    assert(old_rest[p] == rest@[p]);
                } else {
                    assert(old_rest[p + 1] == rest@[p]);
                }
            }
            assert forall|j: int| 0 <= j < n implies rest@.contains(j as usize) || is_taken(
                cards@,
                j,
            ) by {
                if j == chosen {
                    assert(cards@[k as int].index == j);
                } else if old_rest.contains(j as usize) {
                    let q = choose|q: int| 0 <= q < old_rest.len() && old_rest[q] == j as usize;
                    if q < best {
                        assert(rest@[q] == j as usize);
                    } else {
                        assert(rest@[q - 1] == j as usize);
                    }
                } else {
                    assert(is_taken(old_cards, j));
                    let a = choose|a: int| 0 <= a < old_cards.len() && old_cards[a].index == j;
                    assert(cards@[a].index == j);
                }
            }
            assert forall|a: int, j: int|
                0 <= a < cards@.len() && 0 <= j < progress@.len() && !is_taken(
                    cards@,
                    j,
                ) implies read_time(progress@, #[trigger] cards@[a].index as int)
                <= #[trigger] read_time(progress@, j) by {
                if !rest@.contains(j as usize) {
                    assert(is_taken(cards@, j));
                }
                let q = choose|q: int| 0 <= q < rest@.len() && rest@[q] == j as usize;
                if a < k {
                    assert(old_cards[a] == cards@[a]);
                    assert(old_rest[if q < best {
                        q
                    } else {
                        q + 1
                    }] == rest@[q]);
                }
            }
            assert forall|a: int, b: int| 0 <= a < b < cards@.len() implies read_time(
                progress@,
                #[trigger] cards@[a].index as int,
            ) <= read_time(progress@, #[trigger] cards@[b].index as int) by {
                if b == k {
                    assert(old_rest[best as int] == chosen);
                }
            }
            assert forall|a: int, b: int|
                0 <= a < b < cards@.len() implies #[trigger] cards@[a].index
                != #[trigger] cards@[b].index by {
                if b == k {
                    assert(old_rest[best as int] == chosen);
                }
            }
        }
        k += 1;
    }
    proof {
        if k < limit {
            assert(k == n);
            assert forall|a: int, j: int|
                0 <= a < cards@.len() && 0 <= j < progress@.len() && !is_taken(
                    cards@,
                    j,
                ) implies read_time(progress@, #[trigger] cards@[a].index as int)
                <= #[trigger] read_time(progress@, j) by {
                assert(rest@.len() == 0);
                assert(!rest@.contains(j as usize));
            }
        }
    }
    cards
}

} // verus!
