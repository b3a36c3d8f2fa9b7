use crate::ertl::structure::register::Register;
use crate::liveness::encoding::member;
use vstd::prelude::*;

verus! {

/// What one register is joined to: the registers that it would like to
/// share a color with, and those that it must not share one with. Both are
/// sets, held as vectors.
#[derive(Debug)]
pub struct RegisterArc {
    pub prefs: Vec<Register>,
    pub intfs: Vec<Register>,
}

/// A graph on registers with two kinds of edges. Each vertex stands once in
/// `arcs`, with what it is joined to.
#[derive(Debug)]
pub struct InterferenceGraph {
    pub arcs: Vec<(Register, RegisterArc)>,
}

/// The graph as a mathematical value: its vertices, and each kind of edge
/// as a set of ordered pairs.
pub ghost struct GraphView {
    pub vertices: Set<Register>,
    pub prefs: Set<(Register, Register)>,
    pub intfs: Set<(Register, Register)>,
}

/// A copy of `registers`.
pub fn copy_registers(registers: &Vec<Register>) -> (r: Vec<Register>)
    ensures
        r@ == registers@,
{
    let mut out: Vec<Register> = Vec::new();
    let mut i: usize = 0;
    while i < registers.len()
        invariant
            i <= registers@.len(),
            out@ == registers@.take(i as int),
        decreases registers@.len() - i,
    {
        out.push(registers[i]);
        assert(out@ =~= registers@.take(i + 1));
        i = i + 1;
    }
    assert(registers@.take(registers@.len() as int) =~= registers@);
    out
}

/// The registers of `registers` that are not among `removed`.
pub fn without(registers: &Vec<Register>, removed: &Vec<Register>) -> (r: Vec<Register>)
    ensures
        forall|b: Register|
            #[trigger] r@.contains(b) <==> registers@.contains(b) && !removed@.contains(b),
{
    let mut out: Vec<Register> = Vec::new();
    let mut j: usize = 0;
    while j < registers.len()
        invariant
            j <= registers@.len(),
            forall|b: Register|
                #[trigger] out@.contains(b) <==> (exists|q: int|
                    0 <= q < j && registers@[q] == b) && !removed@.contains(b),
        decreases registers@.len() - j,
    {
        let candidate = registers[j];
        let ghost before = out@;
        let kept = !member(removed, candidate);
        if kept {
            out.push(candidate);
        }
        proof {
            assert forall|b: Register| #[trigger] out@.contains(b) <==> (exists|q: int|
                0 <= q < j + 1 && registers@[q] == b) && !removed@.contains(b) by {
                if out@.contains(b) {
                    let q = choose|q: int| 0 <= q < out@.len() && out@[q] == b;
                    if q < before.len() {
                        assert(before[q] == b);
                        assert(before.contains(b));
                        let w = choose|w: int| 0 <= w < j && registers@[w] == b;
                        assert(0 <= w < j + 1 && registers@[w] == b);
                    } else {
                        assert(b == candidate);
                        assert(0 <= j < j + 1 && registers@[j as int] == b);
                    }
                }
                if (exists|q: int| 0 <= q < j + 1 && registers@[q] == b) && !removed@.contains(b) {
                    let q = choose|q: int| 0 <= q < j + 1 && registers@[q] == b;
                    if q < j {
                        assert(before.contains(b));
                        let w = choose|w: int| 0 <= w < before.len() && before[w] == b;
                        assert(out@[w] == b);
                    } else {
                        assert(kept);
                        assert(out@[before.len() as int] == b);
                    }
                }
            }
        }
        j = j + 1;
    }
    out
}

impl RegisterArc {
    pub fn new(prefs: Vec<Register>, intfs: Vec<Register>) -> (r: RegisterArc)
        ensures
            r.prefs == prefs,
            r.intfs == intfs,
    {
        RegisterArc { prefs, intfs }
    }
}

impl View for InterferenceGraph {
    type V = GraphView;

    open spec fn view(&self) -> GraphView {
        GraphView {
            vertices: Set::new(|r: Register| self.has(r)),
            prefs: Set::new(|e: (Register, Register)| self.prefers(e.0, e.1)),
            intfs: Set::new(|e: (Register, Register)| self.interferes(e.0, e.1)),
        }
    }
}

impl InterferenceGraph {
    /// No vertex stands twice.
    pub open spec fn wf(&self) -> bool {
        forall|i: int, j: int|
            0 <= i < j < self.arcs@.len() ==> (#[trigger] self.arcs@[i]).0 != (
            #[trigger] self.arcs@[j]).0
    }

    /// `r` is a vertex.
    pub open spec fn has(&self, r: Register) -> bool {
        exists|i: int| 0 <= i < self.arcs@.len() && (#[trigger] self.arcs@[i]).0 == r
    }

    /// There is a preference edge from `a` to `b`.
    pub open spec fn prefers(&self, a: Register, b: Register) -> bool {
        exists|i: int|
            0 <= i < self.arcs@.len() && (#[trigger] self.arcs@[i]).0 == a
                && self.arcs@[i].1.prefs@.contains(b)
    }

    /// There is an interference edge from `a` to `b`.
    pub open spec fn interferes(&self, a: Register, b: Register) -> bool {
        exists|i: int|
            0 <= i < self.arcs@.len() && (#[trigger] self.arcs@[i]).0 == a
                && self.arcs@[i].1.intfs@.contains(b)
    }

    pub fn new() -> (r: InterferenceGraph)
        ensures
            r.wf(),
            r@.vertices == Set::<Register>::empty(),
            r@.prefs == Set::<(Register, Register)>::empty(),
            r@.intfs == Set::<(Register, Register)>::empty(),
    {
        let r = InterferenceGraph { arcs: Vec::new() };
        assert(r@.vertices =~= Set::<Register>::empty());
        assert(r@.prefs =~= Set::<(Register, Register)>::empty());
        assert(r@.intfs =~= Set::<(Register, Register)>::empty());
        r
    }

    /// Where `register` stands in `arcs`, if it is a vertex.
    pub fn position(&self, register: Register) -> (r: Option<usize>)
        ensures
            match r {
                Some(i) => i < self.arcs@.len() && self.arcs@[i as int].0 == register,
                None => !self.has(register),
            },
    {
        let mut i: usize = 0;
        while i < self.arcs.len()
            invariant
                i <= self.arcs@.len(),
                forall|k: int| 0 <= k < i ==> (#[trigger] self.arcs@[k]).0 != register,
            decreases self.arcs@.len() - i,
        {
            if self.arcs[i].0 == register {
                return Some(i);
            }
            i = i + 1;
        }
        None
    }

    /// What `register` is joined to, if it is a vertex.
    pub fn arc(&self, register: Register) -> (r: Option<&RegisterArc>)
        ensures
            match r {
                Some(arc) => exists|i: int|
                    0 <= i < self.arcs@.len() && (#[trigger] self.arcs@[i]).0 == register
                        && self.arcs@[i].1 == *arc,
                None => !self.has(register),
            },
    {
        match self.position(register) {
            Some(i) => Some(&self.arcs[i].1),
            None => None,
        }
    }

    /// Makes `register` a vertex, if it is none yet.
    pub fn vertex(&mut self, register: Register)
        requires
            old(self).wf(),
        ensures
            final(self).wf(),
            final(self)@.vertices == old(self)@.vertices.insert(register),
            final(self)@.prefs == old(self)@.prefs,
            final(self)@.intfs == old(self)@.intfs,
    {
        match self.position(register) {
            Some(_) => {
                assert(self@.vertices =~= old(self)@.vertices.insert(register));
            },
            None => {
                self.arcs.push((register, RegisterArc::new(Vec::new(), Vec::new())));
                proof {
                    let n = old(self).arcs@.len() as int;
                    assert(self.arcs@[n].0 == register);
                    assert forall|r: Register| self.has(r) <==> old(self).has(r) || r
                        == register by {
                        if old(self).has(r) {
                            let i = choose|i: int|
                                0 <= i < old(self).arcs@.len() && (#[trigger] old(self).arcs@[i]).0
                                    == r;
                            assert(self.arcs@[i].0 == r);
                        }
                    }
                    assert(self@.vertices =~= old(self)@.vertices.insert(register));
                    assert forall|a: Register, b: Register| self.prefers(a, b) <==> old(
                        self,
                    ).prefers(a, b) by {
                        if old(self).prefers(a, b) {
                            let i = choose|i: int|
                                0 <= i < old(self).arcs@.len() && (#[trigger] old(self).arcs@[i]).0
                                    == a && old(self).arcs@[i].1.prefs@.contains(b);
                            assert(self.arcs@[i].0 == a);
                        }
                    }
                    assert forall|a: Register, b: Register| self.interferes(a, b) <==> old(
                        self,
                    ).interferes(a, b) by {
                        if old(self).interferes(a, b) {
                            let i = choose|i: int|
                                0 <= i < old(self).arcs@.len() && (#[trigger] old(self).arcs@[i]).0
                                    == a && old(self).arcs@[i].1.intfs@.contains(b);
                            assert(self.arcs@[i].0 == a);
                        }
                    }
                    assert(self@.prefs =~= old(self)@.prefs);
                    assert(self@.intfs =~= old(self)@.intfs);
                }
            },
        }
    }

    /// Adds an edge from `r1` to `r2`: a preference edge, or an interference
    /// edge when `interfering`. `r1` becomes a vertex.
    pub fn join(&mut self, r1: Register, r2: Register, interfering: bool)
        requires
            old(self).wf(),
        ensures
            final(self).wf(),
            final(self)@.vertices == old(self)@.vertices.insert(r1),
            final(self)@.prefs == if interfering {
                old(self)@.prefs
            } else {
                old(self)@.prefs.insert((r1, r2))
            },
            final(self)@.intfs == if interfering {
                old(self)@.intfs.insert((r1, r2))
            } else {
                old(self)@.intfs
            },
    {
        self.vertex(r1);
        let ghost mid = *self;
        match self.position(r1) {
            Some(i) => {
                let mut prefs = copy_registers(&self.arcs[i].1.prefs);
                let mut intfs = copy_registers(&self.arcs[i].1.intfs);
                if interfering {
                    if !member(&intfs, r2) {
                        intfs.push(r2);
                    }
                } else {
                    if !member(&prefs, r2) {
                        prefs.push(r2);
                    }
                }
                self.arcs.set(i, (r1, RegisterArc::new(prefs, intfs)));
                proof {
                    let n = mid.arcs@.len();
                    assert forall|k: int| 0 <= k < n implies (#[trigger] self.arcs@[k]).0
                        == mid.arcs@[k].0 by {}
                    assert forall|r: Register| self.has(r) <==> mid.has(r) by {
                        if mid.has(r) {
                            let k = choose|k: int|
                                0 <= k < n && (#[trigger] mid.arcs@[k]).0 == r;
                            assert(self.arcs@[k].0 == r);
                        }
                        if self.has(r) {
                            let k = choose|k: int|
                                0 <= k < n && (#[trigger] self.arcs@[k]).0 == r;
                            assert(mid.arcs@[k].0 == r);
                        }
                    }
                    assert(self@.vertices =~= mid@.vertices);
                    assert forall|a: Register, b: Register| self.prefers(a, b) <==> (mid.prefers(
                        a,
                        b,
                    ) || (!interfering && a == r1 && b == r2)) by {
                        if mid.prefers(a, b) {
                            let k = choose|k: int|
                                0 <= k < n && (#[trigger] mid.arcs@[k]).0 == a
                                    && mid.arcs@[k].1.prefs@.contains(b);
                            if k == i {
                                let q = choose|q: int|
                                    0 <= q < mid.arcs@[k].1.prefs@.len() && mid.arcs@[k].1.prefs@[q]
                                        == b;
                                assert(self.arcs@[k].1.prefs@[q] == b);
                            }
                            assert(self.arcs@[k].0 == a);
                        }
                        if !interfering && a == r1 && b == r2 {
                            if mid.arcs@[i as int].1.prefs@.contains(r2) {
                            } else {
                                assert(self.arcs@[i as int].1.prefs@[mid.arcs@[i as int].1.prefs@.len() as int]
                                    == r2);
                            }
                            assert(self.arcs@[i as int].0 == a);
                        }
                        if self.prefers(a, b) {
                            let k = choose|k: int|
                                0 <= k < n && (#[trigger] self.arcs@[k]).0 == a
                                    && self.arcs@[k].1.prefs@.contains(b);
                            assert(mid.arcs@[k].0 == a);
                            if k == i {
                                let q = choose|q: int|
                                    0 <= q < self.arcs@[k].1.prefs@.len()
                                        && self.arcs@[k].1.prefs@[q] == b;
                                if q < mid.arcs@[k].1.prefs@.len() {
                                    assert(mid.arcs@[k].1.prefs@[q] == b);
                                }
                            }
                        }
                    }
                    assert forall|a: Register, b: Register| self.interferes(a, b) <==> (
                    mid.interferes(a, b) || (interfering && a == r1 && b == r2)) by {
                        if mid.interferes(a, b) {
                            let k = choose|k: int|
                                0 <= k < n && (#[trigger] mid.arcs@[k]).0 == a
                                    && mid.arcs@[k].1.intfs@.contains(b);
                            if k == i {
                                let q = choose|q: int|
                                    0 <= q < mid.arcs@[k].1.intfs@.len() && mid.arcs@[k].1.intfs@[q]
                                        == b;
                                assert(self.arcs@[k].1.intfs@[q] == b);
                            }
                            assert(self.arcs@[k].0 == a);
                        }
                        if interfering && a == r1 && b == r2 {
                            if mid.arcs@[i as int].1.intfs@.contains(r2) {
                            } else {
                                assert(self.arcs@[i as int].1.intfs@[mid.arcs@[i as int].1.intfs@.len() as int]
                                    == r2);
                            }
                            assert(self.arcs@[i as int].0 == a);
                        }
                        if self.interferes(a, b) {
                            let k = choose|k: int|
                                0 <= k < n && (#[trigger] self.arcs@[k]).0 == a
                                    && self.arcs@[k].1.intfs@.contains(b);
                            assert(mid.arcs@[k].0 == a);
                            if k == i {
                                let q = choose|q: int|
                                    0 <= q < self.arcs@[k].1.intfs@.len()
                                        && self.arcs@[k].1.intfs@[q] == b;
                                if q < mid.arcs@[k].1.intfs@.len() {
                                    assert(mid.arcs@[k].1.intfs@[q] == b);
                                }
                            }
                        }
                    }
                    if interfering {
                        assert(self@.prefs =~= mid@.prefs);
                        assert(self@.intfs =~= mid@.intfs.insert((r1, r2)));
                    } else {
                        assert(self@.prefs =~= mid@.prefs.insert((r1, r2)));
                        assert(self@.intfs =~= mid@.intfs);
                    }
                }
            },
            None => {
                proof {
                    assert(mid@.vertices.contains(r1));
                    assert(false);
                }
            },
        }
    }

    fn pref_oriented(&mut self, r1: Register, r2: Register)
        requires
            old(self).wf(),
        ensures
            final(self).wf(),
            final(self)@.vertices == old(self)@.vertices.insert(r1),
            final(self)@.prefs == old(self)@.prefs.insert((r1, r2)),
            final(self)@.intfs == old(self)@.intfs,
    {
        self.join(r1, r2, false)
    }

    fn intf_oriented(&mut self, r1: Register, r2: Register)
        requires
            old(self).wf(),
        ensures
            final(self).wf(),
            final(self)@.vertices == old(self)@.vertices.insert(r1),
            final(self)@.prefs == old(self)@.prefs,
            final(self)@.intfs == old(self)@.intfs.insert((r1, r2)),
    {
        self.join(r1, r2, true)
    }

    /// Adds a preference edge between `r1` and `r2`, in both directions.
    pub fn pref(&mut self, r1: Register, r2: Register)
        requires
            old(self).wf(),
        ensures
            final(self).wf(),
            final(self)@.vertices == old(self)@.vertices.insert(r1).insert(r2),
            final(self)@.prefs == old(self)@.prefs.insert((r1, r2)).insert((r2, r1)),
            final(self)@.intfs == old(self)@.intfs,
    {
        self.pref_oriented(r1, r2);
        self.pref_oriented(r2, r1);
    }

    /// Adds an interference edge between `r1` and `r2`, in both directions.
    pub fn intf(&mut self, r1: Register, r2: Register)
        requires
            old(self).wf(),
        ensures
            final(self).wf(),
            final(self)@.vertices == old(self)@.vertices.insert(r1).insert(r2),
            final(self)@.prefs == old(self)@.prefs,
            final(self)@.intfs == old(self)@.intfs.insert((r1, r2)).insert((r2, r1)),
    {
        self.intf_oriented(r1, r2);
        self.intf_oriented(r2, r1);
    }

    /// Removes every preference edge that is an interference edge too.
    pub fn remove_pref_when_intf(&mut self)
        requires
            old(self).wf(),
        ensures
            final(self).wf(),
            final(self)@.vertices == old(self)@.vertices,
            final(self)@.intfs == old(self)@.intfs,
            final(self)@.prefs == old(self)@.prefs.difference(old(self)@.intfs),
    {
        let n = self.arcs.len();
        let mut i: usize = 0;
        while i < n
            invariant
                i <= n,
                n == self.arcs@.len(),
                n == old(self).arcs@.len(),
                forall|k: int|
                    0 <= k < n ==> (#[trigger] self.arcs@[k]).0 == old(self).arcs@[k].0
                        && self.arcs@[k].1.intfs@ == old(self).arcs@[k].1.intfs@,
                forall|k: int|
                    i <= k < n ==> (#[trigger] self.arcs@[k]).1.prefs@ == old(
                        self,
                    ).arcs@[k].1.prefs@,
                forall|k: int, b: Register|
                    0 <= k < i ==> (#[trigger] self.arcs@[k].1.prefs@.contains(b) <==> old(
                        self,
                    ).arcs@[k].1.prefs@.contains(b) && !old(self).arcs@[k].1.intfs@.contains(b)),
            decreases n - i,
        {
            let register = self.arcs[i].0;
            let intfs = copy_registers(&self.arcs[i].1.intfs);
            let prefs = without(&self.arcs[i].1.prefs, &intfs);
            self.arcs.set(i, (register, RegisterArc::new(prefs, intfs)));
            i = i + 1;
        }
        proof {
            assert forall|r: Register| self.has(r) <==> old(self).has(r) by {
                if old(self).has(r) {
                    let k = choose|k: int| 0 <= k < n && (#[trigger] old(self).arcs@[k]).0 == r;
                    assert(self.arcs@[k].0 == r);
                }
                if self.has(r) {
                    let k = choose|k: int| 0 <= k < n && (#[trigger] self.arcs@[k]).0 == r;
                    assert(old(self).arcs@[k].0 == r);
                }
            }
            assert forall|a: Register, b: Register| self.interferes(a, b) <==> old(
                self,
            ).interferes(a, b) by {
                if old(self).interferes(a, b) {
                    let k = choose|k: int|
                        0 <= k < n && (#[trigger] old(self).arcs@[k]).0 == a && old(
                            self,
                        ).arcs@[k].1.intfs@.contains(b);
                    assert(self.arcs@[k].0 == a);
                }
                if self.interferes(a, b) {
                    let k = choose|k: int|
                        0 <= k < n && (#[trigger] self.arcs@[k]).0 == a
                            && self.arcs@[k].1.intfs@.contains(b);
                    assert(old(self).arcs@[k].0 == a);
                }
            }
            assert forall|a: Register, b: Register| self.prefers(a, b) <==> (old(self).prefers(
                a,
                b,
            ) && !old(self).interferes(a, b)) by {
                if old(self).prefers(a, b) && !old(self).interferes(a, b) {
                    let k = choose|k: int|
                        0 <= k < n && (#[trigger] old(self).arcs@[k]).0 == a && old(
                            self,
                        ).arcs@[k].1.prefs@.contains(b);
                    assert(self.arcs@[k].0 == a);
                    assert(self.arcs@[k].1.prefs@.contains(b));
                }
                if self.prefers(a, b) {
                    let k = choose|k: int|
                        0 <= k < n && (#[trigger] self.arcs@[k]).0 == a
                            && self.arcs@[k].1.prefs@.contains(b);
                    assert(old(self).arcs@[k].0 == a);
                    if old(self).interferes(a, b) {
                        let q = choose|q: int|
                            0 <= q < n && (#[trigger] old(self).arcs@[q]).0 == a && old(
                                self,
                            ).arcs@[q].1.intfs@.contains(b);
                        assert(q == k);
                    }
                }
            }
            assert(self@.vertices =~= old(self)@.vertices);
            assert(self@.intfs =~= old(self)@.intfs);
            assert(self@.prefs =~= old(self)@.prefs.difference(old(self)@.intfs));
        }
    }
}

} // verus!
