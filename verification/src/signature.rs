//! The shape of the graph that a pattern denotes: how its nodes are
//! numbered, what its `Input` node declares and what its `Output` node
//! consumes.

use vstd::prelude::*;

use crate::converter::{converts_to, ConversionError};
use crate::growth::{extends, lemma_extends_transitive};
use crate::hugr::{lemma_dense_keys_len, Hugr, HugrType, HugrView, NodeView, OperationView};
use crate::ids::{lemma_in_order_ensures, lemma_members_in_order_ensures};
use crate::lowering::{graph_of, measures, nodes_of, Lowering};
use crate::types::{CommandView, Pattern, PatternView};
use crate::typing::{lemma_typed_stable, numbered, typed};

verus! {

/// There are `n` machine words below `n`.
pub proof fn lemma_words_below(n: usize)
    ensures
        Set::new(|k: usize| k < n).finite(),
        Set::new(|k: usize| k < n).len() == n,
{
    let m = Map::new(|k: usize| k < n, |k: usize| 0int);
    lemma_dense_keys_len(m, n);
    assert(m.dom() =~= Set::new(|k: usize| k < n));
}

/// A graph that is held in memory and is the graph of a list of nodes with
/// one node added has fewer nodes than there are machine words.
pub proof fn lemma_held_graph_fits(nodes: Seq<NodeView>, last: NodeView, hugr: Hugr)
    requires
        hugr@ == graph_of(nodes).with_node(last),
    ensures
        nodes.len() < usize::MAX,
{
    hugr.lemma_view_nodes();
    let held = hugr.nodes@.dom();
    assert(hugr.nodes.len() == held.len());
    if nodes.len() >= usize::MAX {
        let below = Set::new(|k: usize| k < usize::MAX);
        lemma_words_below(usize::MAX);
        assert(held =~= below.insert(usize::MAX)) by {
            assert forall|k: usize| held.contains(k) by {
                if k < usize::MAX {
                    assert(graph_of(nodes).nodes.contains_key(k));
                } else {
                    if nodes.len() == usize::MAX {
                        assert(graph_of(nodes).next_node_id == k);
                    } else {
                        assert(graph_of(nodes).nodes.contains_key(k));
                    }
                }
            }
        }
        assert(held.len() == usize::MAX + 1);
    }
}

impl Lowering {
    /// Where no qubit of `ids` is dead, all are live.
    pub proof fn lemma_none_dead(self, ids: Seq<usize>)
        requires
            self.first_dead(ids) is None,
        ensures
            forall|i: int| 0 <= i < ids.len() ==> self.qubits.contains_key(#[trigger] ids[i]),
        decreases ids.len(),
    {
        if ids.len() > 0 {
            self.lemma_none_dead(ids.drop_last());
            assert forall|i: int| 0 <= i < ids.len() implies self.qubits.contains_key(
                #[trigger] ids[i],
            ) by {
                if i < ids.len() - 1 {
                    assert(ids.drop_last()[i] == ids[i]);
                }
            }
        }
    }
}

impl HugrView {
    /// The node that was added last.
    pub open spec fn last_node(self) -> NodeView {
        self.nodes[(self.next_node_id - 1) as usize]
    }
}

impl PatternView {
    /// The nodes of the denoted graph in order of emission: those of the
    /// commands, those that load a missing bit, and the `Output` node.
    pub open spec fn emitted(self) -> Seq<NodeView> {
        self.finished().nodes.push(self.finished().graph().output_node(self.output_wires()))
    }

    /// The state after the commands, and the state after reading off the
    /// bits, are coherent if the denoted graph fits the machine word.
    pub proof fn lemma_finished_coherent(self)
        requires
            self.input_nodes.len() <= usize::MAX,
            self.finished().nodes.len() <= usize::MAX,
        ensures
            self.executed().coherent(),
            self.finished().coherent(),
            extends(self.finished().nodes, self.executed().nodes),
            self.finished().nodes.len() >= 1,
            self.finished().nodes[0] == self.initial().nodes[0],
            forall|i: int|
                0 <= i < self.measured().len() ==> typed(
                    self.finished().nodes,
                    #[trigger] self.executed().gather_bits(self.measured()).wires[i],
                    HugrType::Bool,
                ),
    {
        let start = self.initial();
        let done = self.executed();
        self.lemma_initial_coherent();
        done.lemma_gather_bits_appends(self.measured());
        start.lemma_run_extends(self.commands);
        start.lemma_run_coherent(self.commands);
        done.lemma_gather_bits_coherent(self.measured());
        lemma_extends_transitive(self.finished().nodes, done.nodes, start.nodes);
        crate::growth::lemma_extends_index(self.finished().nodes, start.nodes, 0);
    }

    /// The denoted graph is the graph of the emitted nodes, if it fits the
    /// machine word.
    pub proof fn lemma_lowered_is_emitted(self)
        requires
            self.lowered() is Ok,
            self.finished().nodes.len() < usize::MAX,
        ensures
            self.lowered() == Ok::<HugrView, ConversionError>(graph_of(self.emitted())),
    {
        let graph = self.lowered()->Ok_0;
        assert(graph.nodes =~= graph_of(self.emitted()).nodes);
    }
}

/// The nodes of the graph that a pattern denotes are numbered in order of
/// emission: the node emitted first is node 0, the next is node 1, and so
/// on without a gap up to the `Output` node.
pub proof fn lemma_ids_count_up(pattern: Pattern, hugr: Hugr)
    requires
        pattern@.lowered() == Ok::<HugrView, ConversionError>(hugr@),
    ensures
        hugr.wf(),
        nodes_of(hugr@) == pattern@.emitted(),
        forall|i: int| 0 <= i < pattern@.emitted().len() ==> (#[trigger] pattern@.emitted()[i]).id == i,
{
    let p = pattern@;
    assert(p.input_nodes.len() == pattern.input_nodes.len());
    lemma_held_graph_fits(
        p.finished().nodes,
        p.finished().graph().output_node(p.output_wires()),
        hugr,
    );
    p.lemma_finished_coherent();
    p.lemma_lowered_is_emitted();
    assert(nodes_of(hugr@) =~= p.emitted());
}

/// The signature of the graph that a pattern denotes.
///
/// The `Input` node declares one `Qubit` for each input qubit.  The `Output`
/// node is the node emitted last; it consumes one wire for each output qubit
/// of the pattern and then one wire for each measured qubit.  The former
/// wires carry a `Qubit` and the latter a `Bool`, in the graph and in the
/// types that the node declares.
pub proof fn lemma_output_signature(pattern: Pattern, hugr: Hugr)
    requires
        pattern@.lowered() == Ok::<HugrView, ConversionError>(hugr@),
    ensures
        hugr@.nodes[0].operation == (OperationView::Input {
            types: Seq::new(pattern@.input_nodes.len(), |i: int| HugrType::Qubit),
        }),
        hugr@.next_node_id >= 2,
        hugr@.last_node().inputs.len() == pattern@.output_nodes.len() + pattern@.measured().len(),
        forall|i: int|
            0 <= i < pattern@.output_nodes.len() ==> hugr@.wire_type(
                #[trigger] hugr@.last_node().inputs[i],
            ) == Some(HugrType::Qubit),
        forall|i: int|
            pattern@.output_nodes.len() <= i < hugr@.last_node().inputs.len() ==> hugr@.wire_type(
                #[trigger] hugr@.last_node().inputs[i],
            ) == Some(HugrType::Bool),
        hugr@.last_node().operation == (OperationView::Output {
            types: Seq::new(
                hugr@.last_node().inputs.len(),
                |i: int|
                    if i < pattern@.output_nodes.len() {
                        HugrType::Qubit
                    } else {
                        HugrType::Bool
                    },
            ),
        }),
{
    let p = pattern@;
    let done = p.executed();
    let end = p.finished();
    let wires = p.output_wires();
    let outs = p.sorted_outputs();
    let n = p.output_nodes.len();
    assert(p.input_nodes.len() == pattern.input_nodes.len());
    lemma_held_graph_fits(end.nodes, end.graph().output_node(wires), hugr);
    p.lemma_finished_coherent();
    p.lemma_lowered_is_emitted();
    lemma_in_order_ensures(p.output_nodes);
    done.lemma_gather_bits_appends(p.measured());
    done.lemma_none_dead(outs);
    let all = p.emitted();
    assert(extends(all, end.nodes));
    assert(hugr@.last_node() == all[end.nodes.len() as int]);
    assert forall|i: int| 0 <= i < wires.len() implies typed(
        end.nodes,
        #[trigger] wires[i],
        if i < n {
            HugrType::Qubit
        } else {
            HugrType::Bool
        },
    ) by {
        let gathered = done.gather_bits(p.measured());
        assert(done.qubit_wires(outs).len() == n);
        if i < n {
            assert(wires[i] == done.qubits[outs[i]]);
            assert(done.qubits.contains_key(outs[i]));
            lemma_typed_stable(end.nodes, done.nodes, done.qubits[outs[i]], HugrType::Qubit);
        } else {
            assert(wires[i] == gathered.wires[i - n]);
            assert(typed(end.nodes, gathered.wires[i - n], HugrType::Bool));
        }
    }
    assert forall|i: int| 0 <= i < wires.len() implies hugr@.wire_type(#[trigger] wires[i])
        == Some(
        if i < n {
            HugrType::Qubit
        } else {
            HugrType::Bool
        },
    ) by {
        lemma_typed_stable(
            all,
            end.nodes,
            wires[i],
            if i < n {
                HugrType::Qubit
            } else {
                HugrType::Bool
            },
        );
    }
    assert(hugr@.last_node().operation->Output_types =~= Seq::new(
        wires.len(),
        |i: int|
            if i < n {
                HugrType::Qubit
            } else {
                HugrType::Bool
            },
    ));
    crate::growth::lemma_extends_index(all, end.nodes, 0);
}

impl PatternView {
    /// The qubits measured by the first `n` commands are finitely many.
    pub proof fn lemma_measured_among_finite(self, n: int)
        requires
            0 <= n <= self.commands.len(),
        ensures
            self.measured_among(n).finite(),
        decreases n,
    {
        if n == 0 {
            assert(self.measured_among(0) =~= Set::empty());
        } else {
            self.lemma_measured_among_finite(n - 1);
            let fewer = self.measured_among(n - 1);
            match self.commands[n - 1] {
                CommandView::M { node, .. } => {
                    assert(self.measured_among(n).subset_of(fewer.insert(node))) by {
                        assert forall|id: usize|
                            self.measured_among(n).contains(id) implies fewer.insert(
                            node,
                        ).contains(id) by {
                            let c = choose|c: int|
                                0 <= c < n && c < self.commands.len() && measures(
                                    #[trigger] self.commands[c],
                                    id,
                                );
                            if c < n - 1 {
                                assert(fewer.contains(id));
                            }
                        }
                    }
                    vstd::set_lib::lemma_len_subset(self.measured_among(n), fewer.insert(node));
                },
                _ => {
                    assert(self.measured_among(n).subset_of(fewer)) by {
                        assert forall|id: usize|
                            self.measured_among(n).contains(id) implies fewer.contains(id) by {
                            let c = choose|c: int|
                                0 <= c < n && c < self.commands.len() && measures(
                                    #[trigger] self.commands[c],
                                    id,
                                );
                            if c < n - 1 {
                                assert(fewer.contains(id));
                            }
                        }
                    }
                    vstd::set_lib::lemma_len_subset(self.measured_among(n), fewer);
                },
            }
        }
    }
}

/// The bits that a graph hands out belong to measured qubits that are not
/// outputs: the list of measured qubits is strictly ascending, each of its
/// members is the subject of a measurement, and none is an output qubit of
/// the pattern.
pub proof fn lemma_measured_not_output(pattern: PatternView, i: int)
    requires
        0 <= i < pattern.measured().len(),
    ensures
        crate::ids::strictly_ascending(pattern.measured()),
        !pattern.output_nodes.contains(pattern.measured()[i]),
        exists|c: int|
            0 <= c < pattern.commands.len() && measures(
                #[trigger] pattern.commands[c],
                pattern.measured()[i],
            ),
{
    pattern.lemma_measured_among_finite(pattern.commands.len() as int);
    lemma_members_in_order_ensures(pattern.measured_set());
    let id = pattern.measured()[i];
    assert(pattern.measured().to_set().contains(id));
    assert(pattern.measured_set().contains(id));
    let c = choose|c: int|
        0 <= c < pattern.commands.len() && c < pattern.commands.len() && measures(
            #[trigger] pattern.commands[c],
            id,
        );
    assert(0 <= c < pattern.commands.len() && measures(pattern.commands[c], id));
}

impl Lowering {
    /// The first dead qubit of a list is dead, stands in the list, and all
    /// before it are live.
    pub proof fn lemma_first_dead_position(self, ids: Seq<usize>)
        requires
            self.first_dead(ids) is Some,
        ensures
            exists|i: int|
                0 <= i < ids.len() && #[trigger] ids[i] == self.first_dead(ids)->Some_0
                    && !self.qubits.contains_key(ids[i]) && forall|j: int|
                    0 <= j < i ==> self.qubits.contains_key(#[trigger] ids[j]),
        decreases ids.len(),
    {
        let front = ids.drop_last();
        if self.first_dead(front) is Some {
            self.lemma_first_dead_position(front);
            let i = choose|i: int|
                0 <= i < front.len() && #[trigger] front[i] == self.first_dead(front)->Some_0
                    && !self.qubits.contains_key(front[i]) && forall|j: int|
                    0 <= j < i ==> self.qubits.contains_key(#[trigger] front[j]);
            assert(ids[i] == front[i]);
            assert forall|j: int| 0 <= j < i implies self.qubits.contains_key(
                #[trigger] ids[j],
            ) by {
                assert(ids[j] == front[j]);
            }
        } else {
            self.lemma_none_dead(front);
            let i = ids.len() - 1;
            assert(ids[i] == ids.last());
            assert forall|j: int| 0 <= j < i implies self.qubits.contains_key(
                #[trigger] ids[j],
            ) by {
                assert(ids[j] == front[j]);
            }
        }
    }
}

/// When a pattern denotes a graph and when it does not.
///
/// A pattern denotes a graph exactly if each of its output qubits is live
/// when its commands are done.  Otherwise the error is
/// `OutputNodeNotFound` and names the least output qubit that is not live.
pub proof fn lemma_failure_names_least_dead_output(pattern: PatternView)
    ensures
        match pattern.lowered() {
            Ok(_) => forall|i: int|
                0 <= i < pattern.output_nodes.len() ==> pattern.executed().qubits.contains_key(
                    #[trigger] pattern.output_nodes[i],
                ),
            Err(ConversionError::OutputNodeNotFound(id)) => {
                &&& pattern.output_nodes.contains(id)
                &&& !pattern.executed().qubits.contains_key(id)
                &&& forall|i: int|
                    0 <= i < pattern.output_nodes.len() && !pattern.executed().qubits.contains_key(
                        #[trigger] pattern.output_nodes[i],
                    ) ==> id <= pattern.output_nodes[i]
            },
            Err(ConversionError::NodeNotFound(_)) => false,
        },
{
    let done = pattern.executed();
    let listed = pattern.output_nodes;
    let outs = pattern.sorted_outputs();
    lemma_in_order_ensures(listed);
    assert forall|x: usize| outs.contains(x) <==> listed.contains(x) by {
        vstd::seq_lib::to_multiset_contains(outs, x);
        vstd::seq_lib::to_multiset_contains(listed, x);
    }
    if done.first_dead(outs) is Some {
        done.lemma_first_dead_position(outs);
        let id = done.first_dead(outs)->Some_0;
        let i = choose|i: int|
            0 <= i < outs.len() && #[trigger] outs[i] == id && !done.qubits.contains_key(outs[i])
                && forall|j: int| 0 <= j < i ==> done.qubits.contains_key(#[trigger] outs[j]);
        assert(outs.contains(id));
        assert forall|k: int|
            0 <= k < listed.len() && !done.qubits.contains_key(
                #[trigger] listed[k],
            ) implies id <= listed[k] by {
            assert(listed.contains(listed[k]));
            assert(outs.contains(listed[k]));
            let j = choose|j: int| 0 <= j < outs.len() && outs[j] == listed[k];
            if j < i {
                assert(done.qubits.contains_key(outs[j]));
            }
        }
    } else {
        done.lemma_none_dead(outs);
        assert forall|k: int| 0 <= k < listed.len() implies done.qubits.contains_key(
            #[trigger] listed[k],
        ) by {
            assert(listed.contains(listed[k]));
            assert(outs.contains(listed[k]));
            let j = choose|j: int| 0 <= j < outs.len() && outs[j] == listed[k];
            assert(done.qubits.contains_key(outs[j]));
        }
    }
}

/// Conversion is a function of the pattern: two conversions of patterns
/// that are equal as mathematical values both succeed or both fail; the
/// graphs of two successes are equal node for node and field for field, and
/// the errors of two failures are equal.
pub proof fn lemma_conversion_deterministic(
    a: Pattern,
    b: Pattern,
    of_a: Result<Hugr, ConversionError>,
    of_b: Result<Hugr, ConversionError>,
)
    requires
        a@ == b@,
        converts_to(a@, of_a),
        converts_to(b@, of_b),
    ensures
        match (of_a, of_b) {
            (Ok(g), Ok(h)) => g@ == h@,
            (Err(e), Err(f)) => e == f,
            _ => false,
        },
{
}

} // verus!
