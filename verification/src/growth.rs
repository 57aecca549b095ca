//! The lowering only ever appends: every step keeps the nodes emitted before
//! it, in place, and the steps that thread a wire leave the bindings alone.

use vstd::prelude::*;

use crate::float_bits::FloatBits;
use crate::hugr::{NodeView, OperationView, Wire};
use crate::lowering::Lowering;
use crate::types::{CliffordGate, CommandView, Plane};

verus! {

/// Whether `later` starts with `earlier`.
pub open spec fn extends(later: Seq<NodeView>, earlier: Seq<NodeView>) -> bool {
    earlier.len() <= later.len() && later.subrange(0, earlier.len() as int) =~= earlier
}

/// Whether `after` holds the nodes of `before` and more, with the same
/// bindings.
pub open spec fn appends_to(after: Lowering, before: Lowering) -> bool {
    &&& extends(after.nodes, before.nodes)
    &&& after.qubits == before.qubits
    &&& after.bits == before.bits
}

/// To start with a list is transitive.
pub proof fn lemma_extends_transitive(c: Seq<NodeView>, b: Seq<NodeView>, a: Seq<NodeView>)
    requires
        extends(c, b),
        extends(b, a),
    ensures
        extends(c, a),
{
    assert forall|i: int| 0 <= i < a.len() implies c[i] == a[i] by {
        assert(b.subrange(0, a.len() as int)[i] == a[i]);
        assert(c.subrange(0, b.len() as int)[i] == b[i]);
    }
}

/// A list that starts with another agrees with it on the other's positions.
pub proof fn lemma_extends_index(later: Seq<NodeView>, earlier: Seq<NodeView>, i: int)
    requires
        extends(later, earlier),
        0 <= i < earlier.len(),
    ensures
        later[i] == earlier[i],
{
    assert(later.subrange(0, earlier.len() as int)[i] == earlier[i]);
}

impl Lowering {
    /// Loading `false` appends two nodes.
    pub proof fn lemma_load_false_appends(self)
        ensures
            appends_to(self.load_false().state, self),
            self.load_false().state.nodes.len() == self.nodes.len() + 2,
    {
    }

    /// A change of basis appends at most two nodes.
    pub proof fn lemma_change_basis_appends(self, wire: Wire, plane: Plane, angle: FloatBits)
        ensures
            appends_to(self.change_basis(wire, plane, angle).state, self),
            self.change_basis(wire, plane, angle).state.nodes.len() <= self.nodes.len() + 2,
    {
    }

    /// Folding bits into a parity appends.
    pub proof fn lemma_xor_known_appends(self, acc: Wire, ids: Seq<usize>)
        ensures
            appends_to(self.xor_known(acc, ids).state, self),
        decreases ids.len(),
    {
        if ids.len() > 0 {
            self.lemma_xor_known_appends(acc, ids.drop_last());
            let before = self.xor_known(acc, ids.drop_last());
            if self.bits.contains_key(ids.last()) {
                lemma_extends_transitive(
                    self.xor_known(acc, ids).state.nodes,
                    before.state.nodes,
                    self.nodes,
                );
            }
        }
    }

    /// Computing a parity appends.
    pub proof fn lemma_parity_appends(self, domain: Seq<usize>)
        ensures
            appends_to(self.parity(domain).state, self),
    {
        if domain.len() > 0 && self.bits.contains_key(domain[0]) {
            self.lemma_xor_known_appends(
                self.bits[domain[0]],
                domain.subrange(1, domain.len() as int),
            );
        }
    }

    /// Threading a wire through gates appends.
    pub proof fn lemma_apply_gates_appends(self, wire: Wire, gates: Seq<CliffordGate>)
        ensures
            appends_to(self.apply_gates(wire, gates).state, self),
        decreases gates.len(),
    {
        if gates.len() > 0 {
            self.lemma_apply_gates_appends(wire, gates.drop_last());
            let before = self.apply_gates(wire, gates.drop_last());
            lemma_extends_transitive(
                self.apply_gates(wire, gates).state.nodes,
                before.state.nodes,
                self.nodes,
            );
        }
    }

    /// A command keeps the nodes emitted before it.
    pub proof fn lemma_step_extends(self, command: CommandView)
        ensures
            extends(self.step(command).nodes, self.nodes),
    {
        match command {
            CommandView::N { node } => {},
            CommandView::E { nodes } => {},
            CommandView::M { node, plane, angle } => {
                if self.qubits.contains_key(node) {
                    self.lemma_change_basis_appends(self.qubits[node], plane, angle);
                    let turned = self.change_basis(self.qubits[node], plane, angle);
                    lemma_extends_transitive(
                        self.step(command).nodes,
                        turned.state.nodes,
                        self.nodes,
                    );
                }
            },
            CommandView::X { node, domain } => {
                self.lemma_correct_extends(node, domain, "ConditionalX"@);
            },
            CommandView::Z { node, domain } => {
                self.lemma_correct_extends(node, domain, "ConditionalZ"@);
            },
            CommandView::C { node, clifford } => {
                if self.qubits.contains_key(node) {
                    self.lemma_apply_gates_appends(self.qubits[node], clifford);
                }
            },
        }
    }

    /// A correction keeps the nodes emitted before it.
    pub proof fn lemma_correct_extends(self, node: usize, domain: Set<usize>, name: Seq<char>)
        ensures
            extends(self.correct(node, domain, name).nodes, self.nodes),
    {
        if self.qubits.contains_key(node) {
            let condition = self.parity(crate::ids::members_in_order(domain));
            self.lemma_parity_appends(crate::ids::members_in_order(domain));
            lemma_extends_transitive(
                self.correct(node, domain, name).nodes,
                condition.state.nodes,
                self.nodes,
            );
        }
    }

    /// A run of commands keeps the nodes emitted before it.
    pub proof fn lemma_run_extends(self, commands: Seq<CommandView>)
        ensures
            extends(self.run(commands).nodes, self.nodes),
        decreases commands.len(),
    {
        if commands.len() > 0 {
            self.lemma_run_extends(commands.drop_last());
            self.run(commands.drop_last()).lemma_step_extends(commands.last());
            lemma_extends_transitive(
                self.run(commands).nodes,
                self.run(commands.drop_last()).nodes,
                self.nodes,
            );
        }
    }

    /// Reading off bits appends, and yields one wire for each identifier.
    pub proof fn lemma_gather_bits_appends(self, ids: Seq<usize>)
        ensures
            appends_to(self.gather_bits(ids).state, self),
            self.gather_bits(ids).wires.len() == ids.len(),
        decreases ids.len(),
    {
        if ids.len() > 0 {
            self.lemma_gather_bits_appends(ids.drop_last());
            let before = self.gather_bits(ids.drop_last());
            if !self.bits.contains_key(ids.last()) {
                before.state.lemma_load_false_appends();
                lemma_extends_transitive(
                    self.gather_bits(ids).state.nodes,
                    before.state.nodes,
                    self.nodes,
                );
            }
        }
    }
}

} // verus!
