use crate::ertl::structure::register::Register;
use crate::ertl::structure::{Graph, Instr, Label};
use crate::liveness::dataflow::{edges, edges_fit, flows, matrix, shaped};
use crate::liveness::error::LivenessError;
use crate::liveness::model::{closed, defs_model, uses_model};
use crate::liveness::{def_use, succ};
use crate::utils::{lists, LabelMap};
use vstd::prelude::*;

verus! {

/// Whether `register` is among `registers`.
pub fn member(registers: &Vec<Register>, register: Register) -> (r: bool)
    ensures
        r == registers@.contains(register),
{
    let mut i: usize = 0;
    while i < registers.len()
        invariant
            i <= registers@.len(),
            forall|k: int| 0 <= k < i ==> registers@[k] != register,
        decreases registers@.len() - i,
    {
        if registers[i] == register {
            return true;
        }
        i = i + 1;
    }
    false
}

/// The position of each label in `labels`.
pub fn index_labels(labels: &Vec<Label>) -> (r: LabelMap<usize>)
    requires
        labels@.no_duplicates(),
    ensures
        forall|i: int|
            0 <= i < labels@.len() ==> r@.contains_key(#[trigger] labels@[i]) && r@[labels@[i]]
                == i,
        forall|l: Label| #[trigger] r@.contains_key(l) ==> labels@.contains(l),
{
    let mut index: LabelMap<usize> = LabelMap::new();
    let mut i: usize = 0;
    while i < labels.len()
        invariant
            i <= labels@.len(),
            labels@.no_duplicates(),
            forall|k: int|
                0 <= k < i ==> index@.contains_key(#[trigger] labels@[k]) && index@[labels@[k]]
                    == k,
            forall|l: Label| #[trigger]
                index@.contains_key(l) ==> exists|k: int| 0 <= k < i && labels@[k] == l,
        decreases labels@.len() - i,
    {
        index.insert_at_label(labels[i], i);
        i = i + 1;
    }
    index
}

/// A graph laid out on the positions of its labels: for each position the
/// instruction, its successors as labels and as positions, and the
/// registers that it writes and reads.
pub struct Encoding {
    pub instrs: Vec<Instr>,
    pub succs: Vec<Vec<Label>>,
    pub succ_idx: Vec<Vec<usize>>,
    pub defs: Vec<Vec<Register>>,
    pub uses: Vec<Vec<Register>>,
}

impl Encoding {
    /// The encoding lays out `graph` in the order `labels`.
    pub open spec fn encodes(&self, graph: Map<Label, Instr>, labels: Seq<Label>) -> bool {
        let n = labels.len();
        &&& lists(labels, graph.dom())
        &&& self.instrs@.len() == n
        &&& self.succs@.len() == n
        &&& self.succ_idx@.len() == n
        &&& self.defs@.len() == n
        &&& self.uses@.len() == n
        &&& edges_fit(edges(self.succ_idx))
        &&& forall|i: int|
            0 <= i < n ==> {
                &&& (#[trigger] self.instrs@[i]) == graph[labels[i]]
                &&& self.succs@[i]@ == graph[labels[i]].successors()
                &&& self.succ_idx@[i]@.len() == self.succs@[i]@.len()
                &&& self.defs@[i]@ == defs_model(graph[labels[i]])
                &&& self.uses@[i]@ == uses_model(graph[labels[i]])
            }
        &&& forall|i: int, k: int|
            0 <= i < n && 0 <= k < self.succ_idx@[i]@.len() ==> labels[(
            #[trigger] self.succ_idx@[i]@[k]) as int] == self.succs@[i]@[k]
    }
}

/// The positions of the labels `targets`, or the first of them that has none.
fn positions(index: &LabelMap<usize>, targets: &Vec<Label>, Ghost(labels): Ghost<Seq<Label>>) -> (r:
    Result<Vec<usize>, Label>)
    requires
        forall|i: int|
            0 <= i < labels.len() ==> index@.contains_key(#[trigger] labels[i]) && index@[labels[i]]
                == i,
        forall|l: Label| #[trigger] index@.contains_key(l) ==> labels.contains(l),
    ensures
        match r {
            Ok(found) => found@.len() == targets@.len() && forall|k: int|
                0 <= k < found@.len() ==> (#[trigger] found@[k]) < labels.len()
                    && labels[found@[k] as int] == targets@[k],
            Err(label) => targets@.contains(label) && !labels.contains(label),
        },
{
    let mut found: Vec<usize> = Vec::new();
    let mut k: usize = 0;
    while k < targets.len()
        invariant
            k <= targets@.len(),
            found@.len() == k,
            forall|i: int|
                0 <= i < labels.len() ==> index@.contains_key(#[trigger] labels[i])
                    && index@[labels[i]] == i,
            forall|l: Label| #[trigger] index@.contains_key(l) ==> labels.contains(l),
            forall|q: int|
                0 <= q < k ==> (#[trigger] found@[q]) < labels.len() && labels[found@[q] as int]
                    == targets@[q],
        decreases targets@.len() - k,
    {
        let target = targets[k];
        match index.get(target) {
            Some(position) => {
                proof {
                    let i = choose|i: int| 0 <= i < labels.len() && labels[i] == target;
                    assert(index@[labels[i]] == i);
                }
                found.push(*position);
            },
            None => {
                proof {
                    if labels.contains(target) {
                        let i = choose|i: int| 0 <= i < labels.len() && labels[i] == target;
                        assert(index@.contains_key(labels[i]));
                    }
                }
                return Err(target);
            },
        }
        k = k + 1;
    }
    Ok(found)
}

/// Lays out `graph` in the order `labels`, or names a label that control may
/// reach and that has no instruction.
pub fn encode(graph: &Graph, labels: &Vec<Label>) -> (r: Result<Encoding, LivenessError>)
    requires
        lists(labels@, graph@.dom()),
    ensures
        match r {
            Ok(encoding) => encoding.encodes(graph@, labels@) && closed(graph@),
            Err(LivenessError::UnknownLabel(label)) => !graph@.contains_key(label) && exists|
                l: Label,
            |
                graph@.contains_key(l) && graph@[l].successors().contains(label),
        },
        r is Ok <==> closed(graph@),
{
    let index = index_labels(labels);
    let n = labels.len();
    let mut encoding = Encoding {
        instrs: Vec::new(),
        succs: Vec::new(),
        succ_idx: Vec::new(),
        defs: Vec::new(),
        uses: Vec::new(),
    };
    let mut i: usize = 0;
    while i < n
        invariant
            i <= n,
            n == labels@.len(),
            lists(labels@, graph@.dom()),
            forall|a: int|
                0 <= a < labels@.len() ==> index@.contains_key(#[trigger] labels@[a])
                    && index@[labels@[a]] == a,
            forall|l: Label| #[trigger] index@.contains_key(l) ==> labels@.contains(l),
            encoding.instrs@.len() == i,
            encoding.succs@.len() == i,
            encoding.succ_idx@.len() == i,
            encoding.defs@.len() == i,
            encoding.uses@.len() == i,
            forall|a: int, k: int|
                0 <= a < i && 0 <= k < encoding.succ_idx@[a]@.len() ==> (
                #[trigger] encoding.succ_idx@[a]@[k]) < n,
            forall|a: int|
                0 <= a < i ==> {
                    &&& (#[trigger] encoding.instrs@[a]) == graph@[labels@[a]]
                    &&& encoding.succs@[a]@ == graph@[labels@[a]].successors()
                    &&& encoding.succ_idx@[a]@.len() == encoding.succs@[a]@.len()
                    &&& encoding.defs@[a]@ == defs_model(graph@[labels@[a]])
                    &&& encoding.uses@[a]@ == uses_model(graph@[labels@[a]])
                },
            forall|a: int, k: int|
                0 <= a < i && 0 <= k < encoding.succ_idx@[a]@.len() ==> labels@[(
                #[trigger] encoding.succ_idx@[a]@[k]) as int] == encoding.succs@[a]@[k],
        decreases n - i,
    {
        let label = labels[i];
        assert(labels@.contains(labels@[i as int]));
        match graph.instrs.get(label) {
            Some(instr) => {
                let targets = succ(instr);
                let (defs, uses) = def_use(instr);
                match positions(&index, &targets, Ghost(labels@)) {
                    Ok(found) => {
                        encoding.instrs.push(*instr);
                        encoding.succs.push(targets);
                        encoding.succ_idx.push(found);
                        encoding.defs.push(defs);
                        encoding.uses.push(uses);
                    },
                    Err(missing) => {
                        proof {
                            let k = choose|k: int|
                                0 <= k < targets@.len() && targets@[k] == missing;
                            assert(graph@[label].successors()[k] == missing);
                        }
                        return Err(LivenessError::UnknownLabel(missing));
                    },
                }
            },
            None => {
                proof {
                    assert(false);
                }
            },
        }
        i = i + 1;
    }
    proof {
        assert forall|l: Label, k: int|
            graph@.contains_key(l) && 0 <= k < graph@[l].successors().len() implies graph@.contains_key(
            #[trigger] graph@[l].successors()[k],
        ) by {
            assert(labels@.contains(l));
            let a = choose|a: int| 0 <= a < labels@.len() && labels@[a] == l;
            assert(encoding.instrs@[a] == graph@[labels@[a]]);
            let s = encoding.succ_idx@[a]@[k];
            assert(s < n);
            assert(labels@[s as int] == encoding.succs@[a]@[k]);
            assert(labels@.contains(labels@[s as int]));
        }
        assert(edges_fit(edges(encoding.succ_idx)));
    }
    Ok(encoding)
}

/// Every register that occurs in `sets`, once.
pub fn collect(sets: &Vec<Vec<Register>>) -> (r: Vec<Register>)
    ensures
        r@.no_duplicates(),
        forall|i: int, k: int|
            0 <= i < sets@.len() && 0 <= k < sets@[i]@.len() ==> r@.contains(
                #[trigger] sets@[i]@[k],
            ),
{
    let mut universe: Vec<Register> = Vec::new();
    let mut i: usize = 0;
    while i < sets.len()
        invariant
            i <= sets@.len(),
            universe@.no_duplicates(),
            forall|a: int, k: int|
                0 <= a < i && 0 <= k < sets@[a]@.len() ==> universe@.contains(
                    #[trigger] sets@[a]@[k],
                ),
        decreases sets@.len() - i,
    {
        let mut k: usize = 0;
        while k < sets[i].len()
            invariant
                i < sets@.len(),
                k <= sets@[i as int]@.len(),
                universe@.no_duplicates(),
                forall|a: int, q: int|
                    0 <= a < i && 0 <= q < sets@[a]@.len() ==> universe@.contains(
                        #[trigger] sets@[a]@[q],
                    ),
                forall|q: int|
                    0 <= q < k ==> universe@.contains(#[trigger] sets@[i as int]@[q]),
            decreases sets@[i as int]@.len() - k,
        {
            let register = sets[i][k];
            let ghost before = universe@;
            if !member(&universe, register) {
                universe.push(register);
                proof {
                    assert forall|x: Register| before.contains(x) implies universe@.contains(
                        x,
                    ) by {
                        let j = choose|j: int| 0 <= j < before.len() && before[j] == x;
                        assert(universe@[j] == x);
                    }
                    assert(universe@[before.len() as int] == register);
                }
            }
            k = k + 1;
        }
        i = i + 1;
    }
    universe
}

/// For each set and each register of `universe`, whether the register is in
/// the set.
pub fn rows(sets: &Vec<Vec<Register>>, universe: &Vec<Register>) -> (r: Vec<Vec<bool>>)
    ensures
        shaped(matrix(r), sets@.len() as nat, universe@.len() as nat),
        forall|i: int, j: int|
            0 <= i < sets@.len() && 0 <= j < universe@.len() ==> (#[trigger] matrix(r)[i][j])
                == sets@[i]@.contains(universe@[j]),
{
    let mut out: Vec<Vec<bool>> = Vec::new();
    let mut i: usize = 0;
    while i < sets.len()
        invariant
            i <= sets@.len(),
            out@.len() == i,
            forall|a: int| 0 <= a < i ==> (#[trigger] out@[a])@.len() == universe@.len(),
            forall|a: int, j: int|
                0 <= a < i && 0 <= j < universe@.len() ==> (#[trigger] out@[a]@[j])
                    == sets@[a]@.contains(universe@[j]),
        decreases sets@.len() - i,
    {
        let mut row: Vec<bool> = Vec::new();
        let mut j: usize = 0;
        while j < universe.len()
            invariant
                i < sets@.len(),
                j <= universe@.len(),
                row@.len() == j,
                forall|q: int| 0 <= q < j ==> row@[q] == sets@[i as int]@.contains(universe@[q]),
            decreases universe@.len() - j,
        {
            row.push(member(&sets[i], universe[j]));
            j = j + 1;
        }
        out.push(row);
        i = i + 1;
    }
    out
}

/// The registers of `universe` whose bit is set in `row`.
pub open spec fn row_set(universe: Seq<Register>, row: Seq<bool>) -> Set<Register> {
    Set::new(|r: Register| exists|j: int| 0 <= j < universe.len() && universe[j] == r && row[j])
}

/// The registers of `universe` whose bit is set in `row`, each once.
pub fn select(universe: &Vec<Register>, row: &Vec<bool>) -> (r: Vec<Register>)
    requires
        universe@.no_duplicates(),
        row@.len() == universe@.len(),
    ensures
        r@.no_duplicates(),
        r@.to_set() == row_set(universe@, row@),
{
    let mut out: Vec<Register> = Vec::new();
    let mut j: usize = 0;
    while j < universe.len()
        invariant
            j <= universe@.len(),
            row@.len() == universe@.len(),
            universe@.no_duplicates(),
            out@.no_duplicates(),
            forall|x: Register|
                out@.contains(x) <==> exists|q: int| 0 <= q < j && universe@[q] == x && row@[q],
        decreases universe@.len() - j,
    {
        let ghost before = out@;
        if row[j] {
            out.push(universe[j]);
            proof {
                assert forall|x: Register| out@.contains(x) <==> exists|q: int|
                    0 <= q < j + 1 && universe@[q] == x && row@[q] by {
                    if out@.contains(x) {
                        let a = choose|a: int| 0 <= a < out@.len() && out@[a] == x;
                        if a < before.len() {
                            assert(before[a] == x);
                            assert(before.contains(x));
                        }
                    }
                    if exists|q: int| 0 <= q < j + 1 && universe@[q] == x && row@[q] {
                        let q = choose|q: int| 0 <= q < j + 1 && universe@[q] == x && row@[q];
                        if q < j {
                            assert(before.contains(x));
                            let a = choose|a: int| 0 <= a < before.len() && before[a] == x;
                            assert(out@[a] == x);
                        } else {
                            assert(out@[before.len() as int] == x);
                        }
                    }
                }
                assert(!before.contains(universe@[j as int]));
            }
        }
        j = j + 1;
    }
    assert(out@.to_set() =~= row_set(universe@, row@));
    out
}

/// The bits that flow into node `i` from its successors.
pub fn out_row(succ_idx: &Vec<Vec<usize>>, ins: &Vec<Vec<bool>>, i: usize, m: usize) -> (r: Vec<bool>)
    requires
        i < succ_idx@.len(),
        shaped(matrix(*ins), succ_idx@.len() as nat, m as nat),
        edges_fit(edges(*succ_idx)),
    ensures
        r@.len() == m,
        forall|j: int|
            0 <= j < m ==> r@[j] == flows(edges(*succ_idx), matrix(*ins), i as int, j),
{
    let mut row: Vec<bool> = Vec::new();
    let mut j: usize = 0;
    while j < m
        invariant
            j <= m,
            i < succ_idx@.len(),
            row@.len() == j,
            shaped(matrix(*ins), succ_idx@.len() as nat, m as nat),
            edges_fit(edges(*succ_idx)),
            forall|q: int|
                0 <= q < j ==> row@[q] == flows(edges(*succ_idx), matrix(*ins), i as int, q),
        decreases m - j,
    {
        row.push(crate::liveness::dataflow::flows_in(succ_idx, ins, i, j, Ghost(m as nat)));
        j = j + 1;
    }
    row
}

} // verus!
