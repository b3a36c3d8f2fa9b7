use crate::common::Ident;
use crate::linearise::printer::{decimal_digits, name_text, push_natural, render_name};
use crate::rtl::structure::label::Label;
use crate::rtl::structure::register::PseudoRegister;
use crate::rtl::structure::{BlockIdent, Fresh, Instr, InstrView, Supply};
use crate::utils::OrdinalMap;
use vstd::prelude::*;
use vstd::string::StringExecFns;

verus! {

/// The register bound to `ident` in `vars`: that of the first pair that names it.
pub open spec fn lookup(vars: Seq<(BlockIdent, PseudoRegister)>, ident: BlockIdent) -> Option<
    PseudoRegister,
>
    decreases vars.len(),
{
    if vars.len() == 0 {
        None
    } else if vars[0].0 == ident {
        Some(vars[0].1)
    } else {
        lookup(vars.drop_first(), ident)
    }
}

/// The instructions of a graph as a map from label to instruction.
pub open spec fn instrs_view(instrs: Map<u32, Instr>) -> Map<Label, InstrView> {
    Map::new(|l: Label| instrs.contains_key(l.index), |l: Label| instrs[l.index]@)
}

/// The control-flow graph of one function while it is built: the register of
/// each variable, and the instruction at each label.
#[derive(Debug)]
pub struct Graph {
    pub vars: Vec<(BlockIdent, PseudoRegister)>,
    pub instrs: OrdinalMap<Instr>,
}

/// A local variable with the name it is shown under.
#[derive(Debug)]
pub struct DisplayableVar {
    pub name: String,
    pub register: PseudoRegister,
}

impl View for DisplayableVar {
    type V = (Seq<char>, PseudoRegister);

    open spec fn view(&self) -> (Seq<char>, PseudoRegister) {
        (self.name@, self.register)
    }
}

/// The name under which the local `ident` of the block `block` is shown:
/// its spelling, an underscore, and the index of the block.
pub open spec fn local_text(names: Seq<String>, ident: Ident, block: u8) -> Seq<char> {
    name_text(names, ident) + "_"@ + decimal_digits(block as nat)
}

/// The locals among the first `n` of `vars`, each with the name it is shown
/// under; the arguments are left out.
pub open spec fn locals_model(
    vars: Seq<(BlockIdent, PseudoRegister)>,
    names: Seq<String>,
    n: nat,
) -> Seq<(Seq<char>, PseudoRegister)>
    decreases n,
{
    if n == 0 || n > vars.len() {
        Seq::empty()
    } else {
        let before = locals_model(vars, names, (n - 1) as nat);
        match vars[n - 1].0 {
            BlockIdent::Arg(_, _) => before,
            BlockIdent::Local(block, ident) => before.push(
                (local_text(names, ident, block), vars[n - 1].1),
            ),
        }
    }
}

impl View for Graph {
    type V = Map<Label, InstrView>;

    open spec fn view(&self) -> Map<Label, InstrView> {
        instrs_view(self.instrs@)
    }
}

/// The register of `ident` in `vars`, if it has one.
pub fn find_register(vars: &Vec<(BlockIdent, PseudoRegister)>, ident: BlockIdent) -> (r: Option<
    PseudoRegister,
>)
    ensures
        r == lookup(vars@, ident),
{
    let mut i: usize = 0;
    assert(vars@.skip(0) =~= vars@);
    while i < vars.len()
        invariant
            i <= vars@.len(),
            lookup(vars@, ident) == lookup(vars@.skip(i as int), ident),
        decreases vars@.len() - i,
    {
        let (name, register) = vars[i];
        proof {
            let rest = vars@.skip(i as int);
            assert(rest[0] == vars@[i as int]);
            assert(rest.drop_first() =~= vars@.skip(i + 1));
        }
        if name == ident {
            return Some(register);
        }
        i = i + 1;
    }
    None
}

impl Graph {
    pub fn new(vars: Vec<(BlockIdent, PseudoRegister)>) -> (r: Graph)
        ensures
            r.vars == vars,
            r@ == Map::<Label, InstrView>::empty(),
    {
        let r = Graph { instrs: OrdinalMap::new(), vars };
        assert(r@ =~= Map::<Label, InstrView>::empty());
        r
    }

    /// The locals of the function with the names they are shown under,
    /// spelt as in `names`.
    pub fn locals(&self, names: &Vec<String>) -> (r: Vec<DisplayableVar>)
        ensures
            r@.len() == locals_model(self.vars@, names@, self.vars@.len()).len(),
            forall|k: int|
                0 <= k < r@.len() ==> (#[trigger] r@[k])@ == locals_model(
                    self.vars@,
                    names@,
                    self.vars@.len(),
                )[k],
    {
        let mut locals: Vec<DisplayableVar> = Vec::new();
        let mut i: usize = 0;
        while i < self.vars.len()
            invariant
                i <= self.vars@.len(),
                locals@.len() == locals_model(self.vars@, names@, i as nat).len(),
                forall|k: int|
                    0 <= k < locals@.len() ==> (#[trigger] locals@[k])@ == locals_model(
                        self.vars@,
                        names@,
                        i as nat,
                    )[k],
            decreases self.vars@.len() - i,
        {
            match self.vars[i].0 {
                BlockIdent::Arg(_, _) => {},
                BlockIdent::Local(block, ident) => {
                    let mut name = String::new();
                    render_name(names, ident, &mut name);
                    name.append("_");
                    push_natural(&mut name, block as u64);
                    assert(name@ =~= local_text(names@, ident, block));
                    locals.push(DisplayableVar { name, register: self.vars[i].1 });
                },
            }
            i = i + 1;
        }
        locals
    }

    /// The register of `ident`, if it has one.
    pub fn register_of(&self, ident: BlockIdent) -> (r: Option<PseudoRegister>)
        ensures
            r == lookup(self.vars@, ident),
    {
        find_register(&self.vars, ident)
    }

    /// Puts `instr` at `label`, replacing what stood there.
    pub fn insert_with_label(&mut self, label: Label, instr: Instr)
        ensures
            final(self)@ == old(self)@.insert(label, instr@),
            final(self).vars == old(self).vars,
    {
        self.instrs.insert(label.index, instr);
        assert(self@ =~= old(self)@.insert(label, instr@));
    }

    /// Puts `instr` at a fresh label and returns that label; `None`, with
    /// nothing changed, once the labels are used up.
    pub fn insert(&mut self, supply: &mut Supply, instr: Instr) -> (r: Option<Label>)
        ensures
            final(self).vars == old(self).vars,
            match Label::issue(*old(supply)) {
                Some((label, next)) => r == Some(label) && *final(supply) == next && final(self)@
                    == old(self)@.insert(label, instr@),
                None => r is None && *final(supply) == *old(supply) && final(self)@ == old(self)@,
            },
    {
        match Label::fresh(supply) {
            Some(label) => {
                self.insert_with_label(label, instr);
                Some(label)
            },
            None => None,
        }
    }

    /// The labels that have an instruction, in ascending order.
    pub fn labels(&self) -> (r: Vec<Label>)
        ensures
            r@ == crate::utils::ordered(self@.dom()),
            crate::utils::lists(r@, self@.dom()),
            crate::utils::ascending(r@),
    {
        let keys = self.instrs.keys();
        let mut out: Vec<Label> = Vec::new();
        let mut i: usize = 0;
        while i < keys.len()
            invariant
                i <= keys@.len(),
                out@.len() == i,
                forall|k: int| 0 <= k < i ==> out@[k] == (Label { index: keys@[k] }),
            decreases keys@.len() - i,
        {
            out.push(Label { index: keys[i] });
            i = i + 1;
        }
        proof {
            assert forall|l: Label| out@.contains(l) <==> self@.dom().contains(l) by {
                if out@.contains(l) {
                    let k = choose|k: int| 0 <= k < out@.len() && out@[k] == l;
                    assert(keys@.to_set().contains(keys@[k]));
                }
                if self@.dom().contains(l) {
                    assert(keys@.to_set().contains(l.index));
                    let k = choose|k: int| 0 <= k < keys@.len() && keys@[k] == l.index;
                    assert(out@[k] == l);
                }
            }
            assert(crate::utils::ascending(out@));
            crate::utils::lemma_ordered(out@, self@.dom());
        }
        out
    }

    /// The instruction at `label`, if there is one.
    pub fn get(&self, label: Label) -> (r: Option<&Instr>)
        ensures
            match r {
                Some(instr) => self@.contains_key(label) && self@[label] == instr@,
                None => !self@.contains_key(label),
            },
    {
        self.instrs.get(label.index)
    }
}

} // verus!
