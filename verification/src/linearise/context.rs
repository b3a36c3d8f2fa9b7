use crate::ertl::structure::Label;
use crate::linearise::model::{emitted, emitted_all, entered, needed, LinState};
use crate::linearise::x86_64::{Asm, AsmNode};
use crate::utils::LabelSet;
use vstd::prelude::*;

verus! {

/// The state of the traversal: the code emitted so far, the labels whose
/// instruction has been emitted, and the labels that some emitted jump goes
/// to.
pub struct Context {
    pub code: Asm,
    pub visited: LabelSet,
    pub labels: LabelSet,
}

impl View for Context {
    type V = LinState;

    open spec fn view(&self) -> LinState {
        LinState { code: self.code@, visited: self.visited@, labels: self.labels@ }
    }
}

impl Context {
    pub fn new(code: Asm, visited: LabelSet, labels: LabelSet) -> (r: Context)
        ensures
            r.code == code,
            r.visited == visited,
            r.labels == labels,
    {
        Context { code, visited, labels }
    }

    /// Emits the label `label`, then `node`.
    pub fn emit_at_label(&mut self, label: Label, node: AsmNode)
        ensures
            final(self)@ == emitted(emitted(old(self)@, AsmNode::Label(label)), node),
    {
        self.code.nodes.push(AsmNode::Label(label));
        self.code.nodes.push(node);
    }

    /// Emits `node`.
    pub fn emit(&mut self, node: AsmNode)
        ensures
            final(self)@ == emitted(old(self)@, node),
    {
        self.code.nodes.push(node);
    }

    /// Emits the nodes of `code`, in order.
    pub fn emit_all(&mut self, code: &Vec<AsmNode>)
        ensures
            final(self)@ == emitted_all(old(self)@, code@),
    {
        let mut i: usize = 0;
        while i < code.len()
            invariant
                i <= code@.len(),
                self.visited == old(self).visited,
                self.labels == old(self).labels,
                self.code@ == old(self).code@ + code@.take(i as int),
            decreases code@.len() - i,
        {
            self.code.nodes.push(code[i]);
            assert(code@.take(i + 1) =~= code@.take(i as int).push(code@[i as int]));
            assert(self.code@ =~= old(self).code@ + code@.take(i + 1));
            i = i + 1;
        }
        assert(code@.take(code@.len() as int) =~= code@);
    }

    /// Notes that a jump goes to `label`.
    pub fn need_label(&mut self, label: Label)
        ensures
            final(self)@ == needed(old(self)@, label),
    {
        self.labels.insert(label);
    }

    /// Marks `label` as visited and emits it.
    pub fn enter(&mut self, label: Label)
        ensures
            final(self)@ == entered(old(self)@, label),
    {
        self.visited.insert(label);
        self.code.nodes.push(AsmNode::Label(label));
    }
}

} // verus!
