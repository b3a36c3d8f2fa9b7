use crate::rtl::structure::label::Label;
use crate::rtl::structure::register::PseudoRegister;
use crate::rtl::structure::{Fresh, Supply};
use std::collections::BTreeMap;
use vstd::prelude::*;
use vstd::std_specs::iter::IteratorSpec;

verus! {

/// Pairs each item of `items` with its index, by `itertools::enumerate`:
/// the result is as long as `items`, and its `i`-th pair is `i` with the
/// `i`-th item.
#[verifier::external_body]
pub(crate) fn enumerate_items<T>(items: &Vec<T>) -> (r: Vec<(usize, &T)>)
    ensures
        r@.len() == items@.len(),
        forall|i: int| 0 <= i < r@.len() ==> (#[trigger] r@[i]).0 == i && *r@[i].1 == items@[i],
{
    itertools::enumerate(items).collect()
}

/// `order` names every member of `dom` exactly once.
pub open spec fn is_listing(order: Seq<u32>, dom: Set<u32>) -> bool {
    &&& order.no_duplicates()
    &&& order.to_set() == dom
}

/// `keys` goes up strictly.
pub open spec fn increasing(keys: Seq<u32>) -> bool {
    forall|i: int, j: int| 0 <= i < j < keys.len() ==> keys[i] < keys[j]
}

/// Puts `key` into `keys`, which goes up and lacks it, at its place.
fn insert_increasing(keys: &mut Vec<u32>, key: u32)
    requires
        increasing(old(keys)@),
        !old(keys)@.contains(key),
    ensures
        increasing(final(keys)@),
        final(keys)@.len() == old(keys)@.len() + 1,
        forall|k: u32| final(keys)@.contains(k) <==> old(keys)@.contains(k) || k == key,
{
    let ghost before = keys@;
    let mut at: usize = keys.len();
    while at > 0 && keys[at - 1] > key
        invariant
            at <= keys@.len(),
            keys@ == before,
            forall|a: int| at <= a < keys@.len() ==> keys@[a] > key,
        decreases at,
    {
        at = at - 1;
    }
    keys.insert(at, key);
    proof {
        assert(keys@ =~= before.insert(at as int, key));
        assert forall|i: int, j: int| 0 <= i < j < keys@.len() implies keys@[i] < keys@[j] by {
            if j == at {
                assert(keys@[i] == before[i]);
                assert(before[at - 1] <= key);
                assert(before.contains(before[at - 1]));
                if i < at - 1 {
                    assert(before[i] < before[at - 1]);
                }
            } else if i == at {
                assert(keys@[j] == before[j - 1]);
            } else {
                let a = if i < at {
                    i
                } else {
                    i - 1
                };
                let b = if j < at {
                    j
                } else {
                    j - 1
                };
                assert(keys@[i] == before[a]);
                assert(keys@[j] == before[b]);
            }
        }
        assert forall|k: u32| keys@.contains(k) <==> before.contains(k) || k == key by {
            if keys@.contains(k) {
                let w = choose|w: int| 0 <= w < keys@.len() && keys@[w] == k;
                if w < at {
                    assert(before[w] == k);
                } else if w > at {
                    assert(before[w - 1] == k);
                }
            }
            if before.contains(k) {
                let v = choose|v: int| 0 <= v < before.len() && before[v] == k;
                let w = if v < at {
                    v
                } else {
                    v + 1
                };
                assert(keys@[w] == k);
            }
            if k == key {
                assert(keys@[at as int] == k);
            }
        }
    }
}

/// A finite map keyed by ordinals.
#[derive(Debug)]
pub struct OrdinalMap<T> {
    entries: BTreeMap<u32, T>,
}

impl<T> View for OrdinalMap<T> {
    type V = Map<u32, T>;

    closed spec fn view(&self) -> Map<u32, T> {
        self.entries@
    }
}

impl<T> OrdinalMap<T> {
    pub fn new() -> (r: OrdinalMap<T>)
        ensures
            r@ == Map::<u32, T>::empty(),
    {
        OrdinalMap { entries: BTreeMap::new() }
    }

    /// Binds `key` to `value`, replacing what was bound before.
    pub fn insert(&mut self, key: u32, value: T)
        ensures
            final(self)@ == old(self)@.insert(key, value),
    {
        broadcast use vstd::std_specs::btree::group_btree_axioms;

        self.entries.insert(key, value);
    }

    pub fn contains_key(&self, key: u32) -> (r: bool)
        ensures
            r == self@.contains_key(key),
    {
        broadcast use vstd::std_specs::btree::group_btree_axioms;

        self.entries.contains_key(&key)
    }

    pub fn get(&self, key: u32) -> (r: Option<&T>)
        ensures
            match r {
                Some(value) => self@.contains_key(key) && *value == self@[key],
                None => !self@.contains_key(key),
            },
    {
        broadcast use vstd::std_specs::btree::group_btree_axioms;

        self.entries.get(&key)
    }

    /// The keys, each once, in ascending order.
    pub fn keys(&self) -> (r: Vec<u32>)
        ensures
            is_listing(r@, self@.dom()),
            increasing(r@),
    {
        broadcast use vstd::std_specs::btree::group_btree_axioms;

        let mut found: Vec<u32> = Vec::new();
        for k in iter: self.entries.keys()
            invariant
                found@.len() == iter.index(),
                forall|i: int| 0 <= i < found@.len() ==> found@[i] == *iter.seq()[i],
                iter.seq() == self.entries.keys().remaining(),
        {
            found.push(*k);
        }
        assert(found@ =~= self.entries.keys().remaining().unref());
        assert(found@.no_duplicates()) by {
            assert forall|i: int, j: int|
                0 <= i < found@.len() && 0 <= j < found@.len() && i != j implies found@[i]
                != found@[j] by {
                let s = self.entries.keys().remaining();
                assert(s[i] != s[j]);
            }
        }
        let mut out: Vec<u32> = Vec::new();
        let mut i: usize = 0;
        while i < found.len()
            invariant
                i <= found@.len(),
                found@.no_duplicates(),
                increasing(out@),
                forall|k: u32| out@.contains(k) <==> found@.take(i as int).contains(k),
            decreases found@.len() - i,
        {
            let key = found[i];
            let ghost seen = found@.take(i as int);
            let ghost more = found@.take(i as int + 1);
            proof {
                if out@.contains(key) {
                    let w = choose|w: int| 0 <= w < seen.len() && seen[w] == key;
                    assert(found@[w] == found@[i as int]);
                }
                assert(more =~= seen.push(key));
            }
            let ghost before = out@;
            insert_increasing(&mut out, key);
            proof {
                assert forall|k: u32| out@.contains(k) <==> more.contains(k) by {
                    if more.contains(k) {
                        let w = choose|w: int| 0 <= w < more.len() && more[w] == k;
                        if w < i {
                            assert(seen[w] == k);
                        }
                    }
                    if before.contains(k) {
                        let w = choose|w: int| 0 <= w < seen.len() && seen[w] == k;
                        assert(more[w] == k);
                    }
                    if k == key {
                        assert(more[i as int] == k);
                    }
                }
            }
            i = i + 1;
        }
        proof {
            assert(found@.take(i as int) =~= found@);
            assert(out@.no_duplicates());
            assert(out@.to_set() =~= found@.to_set());
        }
        out
    }
}

/// `order` names every label of `dom` exactly once.
pub open spec fn lists(order: Seq<Label>, dom: Set<Label>) -> bool {
    &&& order.no_duplicates()
    &&& forall|l: Label| order.contains(l) <==> dom.contains(l)
}

/// The ordinals of `order` go up strictly.
pub open spec fn ascending(order: Seq<Label>) -> bool {
    forall|i: int, j: int| 0 <= i < j < order.len() ==> order[i].index < order[j].index
}

/// The labels of `dom` whose ordinals are under `n`, in ascending order.
pub open spec fn upto(dom: Set<Label>, n: nat) -> Seq<Label>
    decreases n,
{
    if n == 0 {
        Seq::empty()
    } else if n <= 0x1_0000_0000 && dom.contains(Label { index: (n - 1) as u32 }) {
        upto(dom, (n - 1) as nat).push(Label { index: (n - 1) as u32 })
    } else {
        upto(dom, (n - 1) as nat)
    }
}

/// The labels of `dom` in ascending order of their ordinals: the order in
/// which a graph is walked.
pub open spec fn ordered(dom: Set<Label>) -> Seq<Label> {
    upto(dom, 0x1_0000_0000)
}

/// `upto` goes up, and names the labels of `dom` that are under `n`.
pub proof fn lemma_upto(dom: Set<Label>, n: nat)
    requires
        n <= 0x1_0000_0000,
    ensures
        ascending(upto(dom, n)),
        forall|l: Label|
            #![trigger upto(dom, n).contains(l)]
            #![trigger dom.contains(l)]
            upto(dom, n).contains(l) <==> dom.contains(l) && l.index < n,
    decreases n,
{
    if n > 0 {
        let rest = upto(dom, (n - 1) as nat);
        lemma_upto(dom, (n - 1) as nat);
        let top = Label { index: (n - 1) as u32 };
        if dom.contains(top) {
            let all = rest.push(top);
            assert forall|i: int, j: int| 0 <= i < j < all.len() implies all[i].index
                < all[j].index by {
                if j == rest.len() {
                    assert(all[i] == rest[i]);
                    assert(rest.contains(rest[i]));
                    assert(rest[i].index < n - 1);
                } else {
                    assert(all[i] == rest[i] && all[j] == rest[j]);
                }
            }
            assert forall|l: Label| all.contains(l) <==> dom.contains(l) && l.index < n by {
                if all.contains(l) {
                    let k = choose|k: int| 0 <= k < all.len() && all[k] == l;
                    if k < rest.len() {
                        assert(rest.contains(l));
                    }
                }
                if dom.contains(l) && l.index < n {
                    if l.index == n - 1 {
                        assert(all[rest.len() as int] == l);
                    } else {
                        assert(rest.contains(l));
                        let k = choose|k: int| 0 <= k < rest.len() && rest[k] == l;
                        assert(all[k] == l);
                    }
                }
            }
        } else {
            assert forall|l: Label| rest.contains(l) <==> dom.contains(l) && l.index < n by {
                if dom.contains(l) && l.index < n {
                    assert(l.index != n - 1);
                }
            }
        }
    }
}

/// The order of `dom` names each of its labels once, and goes up.
pub proof fn lemma_ordered_lists(dom: Set<Label>)
    ensures
        lists(ordered(dom), dom),
        ascending(ordered(dom)),
{
    lemma_upto(dom, 0x1_0000_0000);
    let order = ordered(dom);
    assert forall|i: int, j: int| 0 <= i < order.len() && 0 <= j < order.len() && i
        != j implies order[i] != order[j] by {
        if i < j {
            assert(order[i].index < order[j].index);
        } else {
            assert(order[j].index < order[i].index);
        }
    }
}

/// Two ascending sequences that name the same labels are equal.
pub proof fn lemma_ascending_unique(a: Seq<Label>, b: Seq<Label>)
    requires
        ascending(a),
        ascending(b),
        forall|l: Label| a.contains(l) <==> b.contains(l),
    ensures
        a == b,
    decreases a.len(),
{
    if a.len() == 0 {
        if b.len() > 0 {
            assert(b.contains(b[0]));
        }
        assert(a =~= b);
    } else {
        assert(a.contains(a.last()));
        assert(b.contains(a.last()));
        let x = a.last();
        let y = b.last();
        assert(b.contains(y));
        assert(a.contains(y));
        let i = choose|i: int| 0 <= i < a.len() && a[i] == y;
        let j = choose|j: int| 0 <= j < b.len() && b[j] == x;
        assert(x.index == y.index);
        let a1 = a.drop_last();
        let b1 = b.drop_last();
        assert forall|l: Label| a1.contains(l) <==> b1.contains(l) by {
            if a1.contains(l) {
                let k = choose|k: int| 0 <= k < a1.len() && a1[k] == l;
                assert(a[k] == l);
                assert(a.contains(l));
                assert(l.index < x.index);
                let m = choose|m: int| 0 <= m < b.len() && b[m] == l;
                assert(b1[m] == l);
            }
            if b1.contains(l) {
                let k = choose|k: int| 0 <= k < b1.len() && b1[k] == l;
                assert(b[k] == l);
                assert(b.contains(l));
                assert(l.index < y.index);
                let m = choose|m: int| 0 <= m < a.len() && a[m] == l;
                assert(a1[m] == l);
            }
        }
        lemma_ascending_unique(a1, b1);
        assert(a =~= a1.push(x));
        assert(b =~= b1.push(y));
    }
}

/// An ascending sequence that names the labels of `dom` is the order of
/// `dom`.
pub proof fn lemma_ordered(order: Seq<Label>, dom: Set<Label>)
    requires
        ascending(order),
        forall|l: Label| order.contains(l) <==> dom.contains(l),
    ensures
        order == ordered(dom),
        lists(order, dom),
{
    lemma_ordered_lists(dom);
    lemma_ascending_unique(order, ordered(dom));
}

/// A control-flow graph under construction together with the counters, as
/// one mathematical value.
pub ghost struct State<I> {
    pub instrs: Map<Label, I>,
    pub supply: Supply,
}

/// The state after a fresh label has been given `instr`, with that label;
/// `None` once the labels are used up.
pub open spec fn emit<I>(state: State<I>, instr: I) -> Option<(State<I>, Label)> {
    match Label::issue(state.supply) {
        Some((label, next)) => Some(
            (State { instrs: state.instrs.insert(label, instr), supply: next }, label),
        ),
        None => None,
    }
}

/// The state after `instr` has been put at the label `at`.
pub open spec fn fill<I>(state: State<I>, at: Label, instr: I) -> State<I> {
    State { instrs: state.instrs.insert(at, instr), supply: state.supply }
}

/// The state after a label has been set aside, with that label.
pub open spec fn reserve_label<I>(state: State<I>) -> Option<(State<I>, Label)> {
    match Label::issue(state.supply) {
        Some((label, next)) => Some((State { instrs: state.instrs, supply: next }, label)),
        None => None,
    }
}

/// The state after a pseudo-register has been drawn, with that register.
pub open spec fn reserve_register<I>(state: State<I>) -> Option<(State<I>, PseudoRegister)> {
    match PseudoRegister::issue(state.supply) {
        Some((register, next)) => Some((State { instrs: state.instrs, supply: next }, register)),
        None => None,
    }
}

/// A finite map from labels to instructions.
#[derive(Debug)]
pub struct LabelMap<I> {
    pub entries: OrdinalMap<I>,
}

impl<I> View for LabelMap<I> {
    type V = Map<Label, I>;

    open spec fn view(&self) -> Map<Label, I> {
        Map::new(
            |l: Label| self.entries@.contains_key(l.index),
            |l: Label| self.entries@[l.index],
        )
    }
}

impl<I> LabelMap<I> {
    pub fn new() -> (r: LabelMap<I>)
        ensures
            r@ == Map::<Label, I>::empty(),
    {
        let r = LabelMap { entries: OrdinalMap::new() };
        assert(r@ =~= Map::<Label, I>::empty());
        r
    }

    /// Puts `instr` at `label`, replacing what stood there.
    pub fn insert_at_label(&mut self, label: Label, instr: I)
        ensures
            final(self)@ == old(self)@.insert(label, instr),
    {
        self.entries.insert(label.index, instr);
        assert(self@ =~= old(self)@.insert(label, instr));
    }

    /// Puts `instr` at a fresh label and returns that label; `None`, with
    /// nothing changed, once the labels are used up.
    pub fn insert(&mut self, supply: &mut Supply, instr: I) -> (r: Option<Label>)
        ensures
            match Label::issue(*old(supply)) {
                Some((label, next)) => r == Some(label) && *final(supply) == next && final(self)@
                    == old(self)@.insert(label, instr),
                None => r is None && *final(supply) == *old(supply) && final(self)@ == old(self)@,
            },
    {
        match Label::fresh(supply) {
            Some(label) => {
                self.insert_at_label(label, instr);
                Some(label)
            },
            None => None,
        }
    }

    pub fn contains(&self, label: Label) -> (r: bool)
        ensures
            r == self@.contains_key(label),
    {
        self.entries.contains_key(label.index)
    }

    /// The instruction at `label`, if there is one.
    pub fn get(&self, label: Label) -> (r: Option<&I>)
        ensures
            match r {
                Some(instr) => self@.contains_key(label) && self@[label] == *instr,
                None => !self@.contains_key(label),
            },
    {
        self.entries.get(label.index)
    }

    /// The labels that have an instruction, in ascending order.
    pub fn labels(&self) -> (r: Vec<Label>)
        ensures
            r@ == ordered(self@.dom()),
            lists(r@, self@.dom()),
            ascending(r@),
    {
        let keys = self.entries.keys();
        let mut out: Vec<Label> = Vec::new();
        let mut i: usize = 0;
        while i < keys.len()
            invariant
                i <= keys@.len(),
                out@.len() == i,
                forall|k: int| 0 <= k < i ==> out@[k] == (Label { index: keys@[k] }),
            decreases keys@.len() - i,
        {
            out.push(Label { index: keys[i] });
            i = i + 1;
        }
        proof {
            assert forall|l: Label| out@.contains(l) <==> self@.dom().contains(l) by {
                if out@.contains(l) {
                    let k = choose|k: int| 0 <= k < out@.len() && out@[k] == l;
                    assert(keys@.to_set().contains(keys@[k]));
                }
                if self@.dom().contains(l) {
                    assert(keys@.to_set().contains(l.index));
                    let k = choose|k: int| 0 <= k < keys@.len() && keys@[k] == l.index;
                    assert(out@[k] == l);
                }
            }
            assert(ascending(out@));
            lemma_ordered(out@, self@.dom());
        }
        out
    }
}

/// A finite set of labels.
#[derive(Debug)]
pub struct LabelSet {
    pub members: OrdinalMap<bool>,
}

impl View for LabelSet {
    type V = Set<Label>;

    open spec fn view(&self) -> Set<Label> {
        Set::new(|l: Label| self.members@.contains_key(l.index))
    }
}

impl LabelSet {
    pub fn new() -> (r: LabelSet)
        ensures
            r@ == Set::<Label>::empty(),
    {
        let r = LabelSet { members: OrdinalMap::new() };
        assert(r@ =~= Set::<Label>::empty());
        r
    }

    pub fn insert(&mut self, label: Label)
        ensures
            final(self)@ == old(self)@.insert(label),
    {
        self.members.insert(label.index, true);
        assert(self@ =~= old(self)@.insert(label));
    }

    pub fn contains(&self, label: Label) -> (r: bool)
        ensures
            r == self@.contains(label),
    {
        self.members.contains_key(label.index)
    }
}

/// Instructions that say where control may go next.
pub trait Flowing {
    /// The labels that control may reach after the instruction.
    spec fn targets(&self) -> Seq<Label>;
}

/// From every instruction of `graph` control goes only to labels that have
/// an instruction or are in `allowed`.
pub open spec fn closed<I: Flowing>(graph: Map<Label, I>, allowed: Set<Label>) -> bool {
    forall|l: Label, k: int|
        graph.contains_key(l) && 0 <= k < graph[l].targets().len() ==> graph.contains_key(
            #[trigger] graph[l].targets()[k],
        ) || allowed.contains(graph[l].targets()[k])
}

/// `label` has an instruction in `graph` or is in `allowed`.
pub open spec fn known<I>(graph: Map<Label, I>, allowed: Set<Label>, label: Label) -> bool {
    graph.contains_key(label) || allowed.contains(label)
}

/// Every target of `instr` is known or is `at`.
pub open spec fn leads_on<I: Flowing>(
    graph: Map<Label, I>,
    allowed: Set<Label>,
    instr: I,
    at: Label,
) -> bool {
    forall|k: int|
        0 <= k < instr.targets().len() ==> known(graph, allowed, #[trigger] instr.targets()[k])
            || instr.targets()[k] == at
}

/// From `before` to `after` no label loses its instruction, and the graph
/// stays closed if it was.
#[verifier::opaque]
pub open spec fn step<I: Flowing>(
    before: Map<Label, I>,
    after: Map<Label, I>,
    allowed: Set<Label>,
) -> bool {
    &&& forall|l: Label| #[trigger] before.contains_key(l) ==> after.contains_key(l)
    &&& closed(before, allowed) ==> closed(after, allowed)
}

/// Nothing changed is a step.
pub proof fn lemma_step_none<I: Flowing>(graph: Map<Label, I>, allowed: Set<Label>)
    ensures
        step(graph, graph, allowed),
{
    reveal(step);
}

/// Two steps make a step.
pub proof fn lemma_step_both<I: Flowing>(
    a: Map<Label, I>,
    b: Map<Label, I>,
    c: Map<Label, I>,
    allowed: Set<Label>,
)
    requires
        step(a, b, allowed),
        step(b, c, allowed),
    ensures
        step(a, c, allowed),
{
    reveal(step);
}

/// What is known stays known, and what has an instruction keeps one, over
/// a step.
pub proof fn lemma_step_keeps<I: Flowing>(
    a: Map<Label, I>,
    b: Map<Label, I>,
    allowed: Set<Label>,
    label: Label,
)
    requires
        step(a, b, allowed),
    ensures
        known(a, allowed, label) ==> known(b, allowed, label),
        a.contains_key(label) ==> b.contains_key(label),
{
    reveal(step);
}

/// Putting an instruction whose targets are known at a label is a step.
pub proof fn lemma_fill<I: Flowing>(
    graph: Map<Label, I>,
    at: Label,
    instr: I,
    allowed: Set<Label>,
)
    requires
        leads_on(graph, allowed, instr, at),
    ensures
        step(graph, graph.insert(at, instr), allowed),
        graph.insert(at, instr).contains_key(at),
{
    reveal(step);
    let after = graph.insert(at, instr);
    if closed(graph, allowed) {
        assert forall|l: Label, k: int|
            after.contains_key(l) && 0 <= k < after[l].targets().len() implies after.contains_key(
            #[trigger] after[l].targets()[k],
        ) || allowed.contains(after[l].targets()[k]) by {
            if l == at {
                assert(known(graph, allowed, instr.targets()[k]) || instr.targets()[k] == at);
            } else {
                assert(graph.contains_key(graph[l].targets()[k]) || allowed.contains(
                    graph[l].targets()[k],
                ));
            }
        }
    }
}

/// Putting an instruction whose targets are known at a fresh label is a
/// step, after which that label has an instruction.
pub proof fn lemma_emit<I: Flowing>(state: State<I>, instr: I, allowed: Set<Label>)
    requires
        forall|k: int|
            0 <= k < instr.targets().len() ==> known(
                state.instrs,
                allowed,
                #[trigger] instr.targets()[k],
            ),
    ensures
        match emit(state, instr) {
            Some((after, label)) => step(state.instrs, after.instrs, allowed)
                && after.instrs.contains_key(label) && after.instrs == state.instrs.insert(
                label,
                instr,
            ),
            None => true,
        },
{
    match Label::issue(state.supply) {
        Some((label, _)) => {
            lemma_fill(state.instrs, label, instr, allowed);
        },
        None => {},
    }
}

/// A step under more allowed labels, after which those have instructions,
/// is a step under fewer.
pub proof fn lemma_settle<I: Flowing>(
    before: Map<Label, I>,
    after: Map<Label, I>,
    allowed: Set<Label>,
    more: Set<Label>,
)
    requires
        step(before, after, more),
        forall|l: Label| more.contains(l) ==> allowed.contains(l) || after.contains_key(l),
        forall|l: Label| allowed.contains(l) ==> more.contains(l),
    ensures
        step(before, after, allowed),
{
    reveal(step);
    if closed(before, allowed) {
        assert forall|l: Label, k: int|
            before.contains_key(l) && 0 <= k < before[l].targets().len() implies before.contains_key(
            #[trigger] before[l].targets()[k],
        ) || more.contains(before[l].targets()[k]) by {
            assert(before.contains_key(before[l].targets()[k]) || allowed.contains(
                before[l].targets()[k],
            ));
        }
        assert(closed(after, more));
        assert forall|l: Label, k: int|
            after.contains_key(l) && 0 <= k < after[l].targets().len() implies after.contains_key(
            #[trigger] after[l].targets()[k],
        ) || allowed.contains(after[l].targets()[k]) by {
            assert(after.contains_key(after[l].targets()[k]) || more.contains(
                after[l].targets()[k],
            ));
        }
    }
}

} // verus!
