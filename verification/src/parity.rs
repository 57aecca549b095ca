//! The shape of a parity computation.

use vstd::prelude::*;

use crate::growth::extends;
use crate::hugr::{ConstValue, NodeView, OperationView, Wire};
use crate::ids::members_in_order;
use crate::lowering::{conditional_op, xor_op, Lowering};

verus! {

impl Lowering {
    /// How many of `ids` have a known bit.
    pub open spec fn known_count(self, ids: Seq<usize>) -> nat
        decreases ids.len(),
    {
        if ids.len() == 0 {
            0
        } else {
            self.known_count(ids.drop_last()) + (if self.bits.contains_key(ids.last()) {
                1nat
            } else {
                0nat
            })
        }
    }

    /// The count of known bits splits at the first identifier.
    pub proof fn lemma_known_count_first(self, ids: Seq<usize>)
        requires
            ids.len() > 0,
        ensures
            self.known_count(ids) == self.known_count(ids.subrange(1, ids.len() as int)) + (if
                self.bits.contains_key(ids[0]) {
                1nat
            } else {
                0nat
            }),
        decreases ids.len(),
    {
        let rest = ids.subrange(1, ids.len() as int);
        if ids.len() == 1 {
            assert(ids.drop_last() =~= Seq::<usize>::empty());
            assert(rest =~= Seq::<usize>::empty());
            assert(self.known_count(ids.drop_last()) == 0);
            assert(self.known_count(rest) == 0);
        } else {
            self.lemma_known_count_first(ids.drop_last());
            assert(ids.drop_last().subrange(1, ids.len() - 1) =~= rest.drop_last());
            assert(rest.last() == ids.last());
            assert(ids.drop_last()[0] == ids[0]);
        }
    }

    /// Folding `ids` into a parity emits one `XOR` node for each known bit
    /// among them, and nothing else.
    pub proof fn lemma_xor_known_shape(self, acc: Wire, ids: Seq<usize>)
        ensures
            extends(self.xor_known(acc, ids).state.nodes, self.nodes),
            self.xor_known(acc, ids).state.nodes.len() == self.nodes.len() + self.known_count(ids),
            forall|i: int|
                self.nodes.len() <= i < self.xor_known(acc, ids).state.nodes.len() ==> (
                #[trigger] self.xor_known(acc, ids).state.nodes[i]).operation == xor_op(),
        decreases ids.len(),
    {
        self.lemma_xor_known_appends(acc, ids);
        if ids.len() > 0 {
            self.lemma_xor_known_shape(acc, ids.drop_last());
            let before = self.xor_known(acc, ids.drop_last());
            let after = self.xor_known(acc, ids);
            assert forall|i: int| self.nodes.len() <= i < after.state.nodes.len() implies (
            #[trigger] after.state.nodes[i]).operation == xor_op() by {
                if i < before.state.nodes.len() {
                    assert(after.state.nodes[i] == before.state.nodes[i]);
                }
            }
        }
    }

    /// The two nodes that stand for a parity without known bits: the
    /// constant `false` and the node that loads it.
    pub open spec fn false_pair(self) -> Seq<NodeView> {
        seq![
            NodeView::bare(
                self.next_id(),
                OperationView::Const { value: ConstValue::Bool(false) },
            ),
            NodeView::wired(
                (self.nodes.len() + 1) as usize,
                OperationView::LoadConst { const_node: self.next_id() },
                seq![],
            ),
        ]
    }

    /// The shape of a parity computation over a domain given in ascending
    /// order, of whose identifiers `k` have a known bit.
    ///
    /// If the least identifier has a known bit, exactly `k - 1` nodes are
    /// emitted and each is an `XOR`.  Otherwise, and so whenever `k` is 0,
    /// exactly two nodes are emitted: the constant `false` and the node that
    /// loads it, whose wire is the parity.
    pub proof fn lemma_parity_shape(self, domain: Seq<usize>)
        ensures
            extends(self.parity(domain).state.nodes, self.nodes),
            domain.len() > 0 && self.bits.contains_key(domain[0]) ==> {
                &&& self.known_count(domain) >= 1
                &&& self.parity(domain).state.nodes.len() == self.nodes.len() + self.known_count(
                    domain,
                ) - 1
                &&& forall|i: int|
                    self.nodes.len() <= i < self.parity(domain).state.nodes.len() ==> (
                    #[trigger] self.parity(domain).state.nodes[i]).operation == xor_op()
            },
            self.known_count(domain) == 0 ==> domain.len() == 0 || !self.bits.contains_key(
                domain[0],
            ),
            domain.len() == 0 || !self.bits.contains_key(domain[0]) ==> {
                &&& self.parity(domain).state.nodes == self.nodes + self.false_pair()
                &&& self.parity(domain).wire == (Wire {
                    node_id: (self.nodes.len() + 1) as usize,
                    port: 0,
                })
            },
    {
        self.lemma_parity_appends(domain);
        if domain.len() > 0 {
            self.lemma_known_count_first(domain);
            if self.bits.contains_key(domain[0]) {
                self.lemma_xor_known_shape(
                    self.bits[domain[0]],
                    domain.subrange(1, domain.len() as int),
                );
            }
        }
        if domain.len() == 0 || !self.bits.contains_key(domain[0]) {
            assert(self.parity(domain).state.nodes =~= self.nodes + self.false_pair());
        }
    }

    /// The shape of a correction on a live qubit.  After the nodes of the
    /// parity, as [`Lowering::lemma_parity_shape`] describes them, comes the
    /// conditional operation, fed by the parity and by the qubit; nothing
    /// else is emitted.
    pub proof fn lemma_correct_shape(self, node: usize, domain: Set<usize>, name: Seq<char>)
        requires
            self.qubits.contains_key(node),
        ensures
            ({
                let ids = members_in_order(domain);
                let condition = self.parity(ids);
                let after = self.correct(node, domain, name);
                &&& after.nodes.len() == condition.state.nodes.len() + 1
                &&& extends(after.nodes, condition.state.nodes)
                &&& after.nodes.last().operation == conditional_op(name)
                &&& after.nodes.last().inputs == seq![condition.wire, self.qubits[node]]
                &&& ids.len() > 0 && self.bits.contains_key(ids[0]) ==> after.nodes.len()
                    == self.nodes.len() + self.known_count(ids)
                &&& self.known_count(ids) == 0 ==> after.nodes.len() == self.nodes.len() + 3
            }),
    {
        self.lemma_parity_shape(members_in_order(domain));
    }
}

} // verus!
