use vstd::prelude::*;

verus! {

/// The rows of a bit matrix as sequences.
pub open spec fn matrix(rows: Vec<Vec<bool>>) -> Seq<Seq<bool>> {
    Seq::new(rows@.len(), |i: int| rows@[i]@)
}

/// The successor lists as sequences.
pub open spec fn edges(succ: Vec<Vec<usize>>) -> Seq<Seq<usize>> {
    Seq::new(succ@.len(), |i: int| succ@[i]@)
}

/// `x` has `n` rows of `m` bits.
pub open spec fn shaped(x: Seq<Seq<bool>>, n: nat, m: nat) -> bool {
    &&& x.len() == n
    &&& forall|i: int| 0 <= i < n ==> (#[trigger] x[i]).len() == m
}

/// Every successor is a node.
pub open spec fn edges_fit(succ: Seq<Seq<usize>>) -> bool {
    forall|i: int, k: int|
        0 <= i < succ.len() && 0 <= k < succ[i].len() ==> (#[trigger] succ[i][k]) < succ.len()
}

/// Bit `j` flows into node `i` from one of its successors.
pub open spec fn flows(succ: Seq<Seq<usize>>, x: Seq<Seq<bool>>, i: int, j: int) -> bool {
    exists|k: int| 0 <= k < succ[i].len() && #[trigger] x[succ[i][k] as int][j]
}

/// Row `i` of `x` holds what the node generates and what flows into it
/// from its successors and is not killed.
pub open spec fn stable(
    succ: Seq<Seq<usize>>,
    gen: Seq<Seq<bool>>,
    kill: Seq<Seq<bool>>,
    x: Seq<Seq<bool>>,
    i: int,
) -> bool {
    forall|j: int|
        0 <= j < x[i].len() ==> (gen[i][j] || (!kill[i][j] && flows(succ, x, i, j))
            ==> #[trigger] x[i][j])
}

/// `x` is a solution: every row is stable.
pub open spec fn solution(
    succ: Seq<Seq<usize>>,
    gen: Seq<Seq<bool>>,
    kill: Seq<Seq<bool>>,
    x: Seq<Seq<bool>>,
) -> bool {
    forall|i: int| 0 <= i < x.len() ==> #[trigger] stable(succ, gen, kill, x, i)
}

/// `x` is below `y`: every bit of `x` is a bit of `y`.
pub open spec fn below(x: Seq<Seq<bool>>, y: Seq<Seq<bool>>) -> bool {
    forall|i: int, j: int| 0 <= i < x.len() && 0 <= j < x[i].len() && x[i][j] ==> #[trigger] y[i][j]
}

/// `x` is below every solution of its shape.
pub open spec fn least(
    succ: Seq<Seq<usize>>,
    gen: Seq<Seq<bool>>,
    kill: Seq<Seq<bool>>,
    x: Seq<Seq<bool>>,
    m: nat,
) -> bool {
    forall|y: Seq<Seq<bool>>|
        shaped(y, x.len(), m) && #[trigger] solution(succ, gen, kill, y) ==> below(x, y)
}

/// The number of bits of `row` that are not set.
pub open spec fn unset(row: Seq<bool>) -> nat
    decreases row.len(),
{
    if row.len() == 0 {
        0
    } else {
        unset(row.drop_last()) + if row.last() {
            0nat
        } else {
            1nat
        }
    }
}

/// The number of bits of the first `n` rows of `x` that are not set.
pub open spec fn unset_rows(x: Seq<Seq<bool>>, n: nat) -> nat
    decreases n,
{
    if n == 0 || n > x.len() {
        0
    } else {
        unset_rows(x, (n - 1) as nat) + unset(x[n - 1])
    }
}

/// A row that gains bits and loses none has fewer unset bits.
pub proof fn lemma_unset_shrinks(old_row: Seq<bool>, new_row: Seq<bool>)
    requires
        old_row.len() == new_row.len(),
        forall|j: int| 0 <= j < old_row.len() && old_row[j] ==> new_row[j],
    ensures
        unset(new_row) <= unset(old_row),
        (exists|j: int| 0 <= j < old_row.len() && new_row[j] && !old_row[j]) ==> unset(new_row)
            < unset(old_row),
    decreases old_row.len(),
{
    if old_row.len() > 0 {
        lemma_unset_shrinks(old_row.drop_last(), new_row.drop_last());
        if exists|j: int| 0 <= j < old_row.len() && new_row[j] && !old_row[j] {
            let j = choose|j: int| 0 <= j < old_row.len() && new_row[j] && !old_row[j];
            if j < old_row.len() - 1 {
                assert(new_row.drop_last()[j] && !old_row.drop_last()[j]);
            }
        }
    }
}

/// Replacing one row changes the count by the difference of that row.
pub proof fn lemma_unset_rows_update(x: Seq<Seq<bool>>, i: int, row: Seq<bool>, n: nat)
    requires
        0 <= i < x.len(),
        n <= x.len(),
    ensures
        unset_rows(x.update(i, row), n) + (if i < n {
            unset(x[i])
        } else {
            0
        }) == unset_rows(x, n) + (if i < n {
            unset(row)
        } else {
            0
        }),
    decreases n,
{
    if n > 0 {
        lemma_unset_rows_update(x, i, row, (n - 1) as nat);
    }
}

/// The bit `j` of the row that `step` computes for node `i`.
pub open spec fn step_bit(
    succ: Seq<Seq<usize>>,
    gen: Seq<Seq<bool>>,
    kill: Seq<Seq<bool>>,
    x: Seq<Seq<bool>>,
    i: int,
    j: int,
) -> bool {
    x[i][j] || gen[i][j] || (!kill[i][j] && flows(succ, x, i, j))
}

/// Whether bit `j` flows into node `i` from one of its successors.
pub(crate) fn flows_in(succ: &Vec<Vec<usize>>, ins: &Vec<Vec<bool>>, i: usize, j: usize, Ghost(m): Ghost<nat>) -> (r:
    bool)
    requires
        i < succ@.len(),
        j < m,
        shaped(matrix(*ins), succ@.len() as nat, m),
        edges_fit(edges(*succ)),
    ensures
        r == flows(edges(*succ), matrix(*ins), i as int, j as int),
{
    let mut k: usize = 0;
    while k < succ[i].len()
        invariant
            i < succ@.len(),
            j < m,
            k <= succ@[i as int]@.len(),
            shaped(matrix(*ins), succ@.len() as nat, m),
            edges_fit(edges(*succ)),
            forall|q: int| 0 <= q < k ==> !matrix(*ins)[edges(*succ)[i as int][q] as int][j as int],
        decreases succ@[i as int]@.len() - k,
    {
        let s = succ[i][k];
        assert(s == edges(*succ)[i as int][k as int]);
        assert(matrix(*ins)[s as int].len() == m);
        if ins[s][j] {
            return true;
        }
        k = k + 1;
    }
    false
}

/// The row of node `i` with what the node generates and what flows into it
/// added.
fn step(
    succ: &Vec<Vec<usize>>,
    gen: &Vec<Vec<bool>>,
    kill: &Vec<Vec<bool>>,
    ins: &Vec<Vec<bool>>,
    i: usize,
    m: usize,
) -> (r: (Vec<bool>, bool))
    requires
        i < succ@.len(),
        shaped(matrix(*ins), succ@.len() as nat, m as nat),
        shaped(matrix(*gen), succ@.len() as nat, m as nat),
        shaped(matrix(*kill), succ@.len() as nat, m as nat),
        edges_fit(edges(*succ)),
    ensures
        r.0@.len() == m,
        forall|j: int|
            0 <= j < m ==> r.0@[j] == step_bit(
                edges(*succ),
                matrix(*gen),
                matrix(*kill),
                matrix(*ins),
                i as int,
                j,
            ),
        r.1 <==> exists|j: int| 0 <= j < m && r.0@[j] && !matrix(*ins)[i as int][j],
{
    let mut row: Vec<bool> = Vec::new();
    let mut grew = false;
    let ghost mut witness: int = 0;
    let mut j: usize = 0;
    while j < m
        invariant
            j <= m,
            i < succ@.len(),
            row@.len() == j,
            shaped(matrix(*ins), succ@.len() as nat, m as nat),
            shaped(matrix(*gen), succ@.len() as nat, m as nat),
            shaped(matrix(*kill), succ@.len() as nat, m as nat),
            edges_fit(edges(*succ)),
            forall|q: int|
                0 <= q < j ==> row@[q] == step_bit(
                    edges(*succ),
                    matrix(*gen),
                    matrix(*kill),
                    matrix(*ins),
                    i as int,
                    q,
                ),
            grew ==> 0 <= witness < j && row@[witness] && !matrix(*ins)[i as int][witness],
            !grew ==> forall|q: int| 0 <= q < j ==> !(row@[q] && !matrix(*ins)[i as int][q]),
        decreases m - j,
    {
        assert(matrix(*ins)[i as int].len() == m);
        assert(matrix(*gen)[i as int].len() == m);
        assert(matrix(*kill)[i as int].len() == m);
        let had = ins[i][j];
        let bit = had || gen[i][j] || (!kill[i][j] && flows_in(succ, ins, i, j, Ghost(m as nat)));
        row.push(bit);
        if bit && !had {
            grew = true;
            proof {
                witness = j as int;
            }
        }
        j = j + 1;
    }
    (row, grew)
}

/// `n` rows of `m` unset bits.
fn blank(n: usize, m: usize) -> (r: Vec<Vec<bool>>)
    ensures
        shaped(matrix(r), n as nat, m as nat),
        forall|i: int, j: int| 0 <= i < n && 0 <= j < m ==> !matrix(r)[i][j],
{
    let mut rows: Vec<Vec<bool>> = Vec::new();
    let mut i: usize = 0;
    while i < n
        invariant
            i <= n,
            rows@.len() == i,
            forall|a: int| 0 <= a < i ==> (#[trigger] rows@[a])@.len() == m,
            forall|a: int, b: int| 0 <= a < i && 0 <= b < m ==> !(#[trigger] rows@[a]@[b]),
        decreases n - i,
    {
        let mut row: Vec<bool> = Vec::new();
        let mut j: usize = 0;
        while j < m
            invariant
                j <= m,
                row@.len() == j,
                forall|b: int| 0 <= b < j ==> !row@[b],
            decreases m - j,
        {
            row.push(false);
            j = j + 1;
        }
        rows.push(row);
        i = i + 1;
    }
    rows
}

/// The least solution of a backward dataflow problem on bit rows: the least
/// `x` such that each row `x[i]` holds `gen[i]`, and holds every bit of a
/// successor's row that `kill[i]` does not hold.
pub fn solve(succ: &Vec<Vec<usize>>, gen: &Vec<Vec<bool>>, kill: &Vec<Vec<bool>>, m: usize) -> (ins:
    Vec<Vec<bool>>)
    requires
        shaped(matrix(*gen), succ@.len() as nat, m as nat),
        shaped(matrix(*kill), succ@.len() as nat, m as nat),
        edges_fit(edges(*succ)),
    ensures
        shaped(matrix(ins), succ@.len() as nat, m as nat),
        solution(edges(*succ), matrix(*gen), matrix(*kill), matrix(ins)),
        least(edges(*succ), matrix(*gen), matrix(*kill), matrix(ins), m as nat),
{
    let n = succ.len();
    let mut ins = blank(n, m);
    let mut changed = true;
    while changed
        invariant
            n == succ@.len(),
            shaped(matrix(ins), n as nat, m as nat),
            shaped(matrix(*gen), n as nat, m as nat),
            shaped(matrix(*kill), n as nat, m as nat),
            edges_fit(edges(*succ)),
            least(edges(*succ), matrix(*gen), matrix(*kill), matrix(ins), m as nat),
            !changed ==> solution(edges(*succ), matrix(*gen), matrix(*kill), matrix(ins)),
        decreases
                unset_rows(matrix(ins), n as nat),
                if changed {
                    1nat
                } else {
                    0nat
                },
    {
        changed = false;
        let ghost start = matrix(ins);
        let mut i: usize = 0;
        while i < n
            invariant
                i <= n,
                n == succ@.len(),
                shaped(matrix(ins), n as nat, m as nat),
                shaped(matrix(*gen), n as nat, m as nat),
                shaped(matrix(*kill), n as nat, m as nat),
                edges_fit(edges(*succ)),
                least(edges(*succ), matrix(*gen), matrix(*kill), matrix(ins), m as nat),
                !changed ==> matrix(ins) == start,
                !changed ==> forall|a: int|
                    0 <= a < i ==> #[trigger] stable(
                        edges(*succ),
                        matrix(*gen),
                        matrix(*kill),
                        matrix(ins),
                        a,
                    ),
                changed ==> unset_rows(matrix(ins), n as nat) < unset_rows(start, n as nat),
            decreases n - i,
        {
            let ghost before = matrix(ins);
            let (row, grew) = step(succ, gen, kill, &ins, i, m);
            if grew {
                proof {
                    assert(before[i as int].len() == m);
                    lemma_unset_shrinks(before[i as int], row@);
                    lemma_unset_rows_update(before, i as int, row@, n as nat);
                    assert forall|y: Seq<Seq<bool>>|
                        shaped(y, n as nat, m as nat) && #[trigger] solution(
                            edges(*succ),
                            matrix(*gen),
                            matrix(*kill),
                            y,
                        ) implies below(before.update(i as int, row@), y) by {
                        lemma_step_below(
                            edges(*succ),
                            matrix(*gen),
                            matrix(*kill),
                            before,
                            y,
                            i as int,
                            row@,
                            n as nat,
                            m as nat,
                        );
                    }
                }
                ins.set(i, row);
                assert(matrix(ins) =~= before.update(i as int, row@));
                changed = true;
            } else {
                proof {
                    assert(stable(
                        edges(*succ),
                        matrix(*gen),
                        matrix(*kill),
                        matrix(ins),
                        i as int,
                    )) by {
                        assert forall|j: int| 0 <= j < before[i as int].len() implies (matrix(
                            *gen,
                        )[i as int][j] || (!matrix(*kill)[i as int][j] && flows(
                            edges(*succ),
                            before,
                            i as int,
                            j,
                        )) ==> #[trigger] before[i as int][j]) by {
                            assert(row@[j] == step_bit(
                                edges(*succ),
                                matrix(*gen),
                                matrix(*kill),
                                before,
                                i as int,
                                j,
                            ));
                        }
                    }
                }
            }
            i = i + 1;
        }
    }
    ins
}

/// A row computed by one step from a matrix below the solution `y` is below
/// the row of `y`.
pub proof fn lemma_step_below(
    succ: Seq<Seq<usize>>,
    gen: Seq<Seq<bool>>,
    kill: Seq<Seq<bool>>,
    x: Seq<Seq<bool>>,
    y: Seq<Seq<bool>>,
    i: int,
    row: Seq<bool>,
    n: nat,
    m: nat,
)
    requires
        0 <= i < n,
        succ.len() == n,
        shaped(x, n, m),
        shaped(y, n, m),
        shaped(gen, n, m),
        shaped(kill, n, m),
        edges_fit(succ),
        row.len() == m,
        forall|j: int| 0 <= j < m ==> row[j] == step_bit(succ, gen, kill, x, i, j),
        solution(succ, gen, kill, y),
        below(x, y),
    ensures
        below(x.update(i, row), y),
{
    let z = x.update(i, row);
    assert forall|a: int, j: int| 0 <= a < z.len() && 0 <= j < z[a].len() && z[a][j] implies #[trigger] y[a][j] by {
        if a == i {
            assert(stable(succ, gen, kill, y, i));
            assert(y[i].len() == m);
            if x[i][j] {
                assert(y[i][j]);
            } else if gen[i][j] {
                assert(y[i][j]);
            } else {
                let k = choose|k: int| 0 <= k < succ[i].len() && #[trigger] x[succ[i][k] as int][j];
                let s = succ[i][k] as int;
                assert(x[s].len() == m);
                assert(y[s][j]);
                assert(flows(succ, y, i, j));
                assert(y[i][j]);
            }
        } else {
            assert(x[a][j]);
        }
    }
}

} // verus!
