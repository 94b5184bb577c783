//! The reverse-mode automatic-differentiation layer.  Graph nodes live in
//! an arena and edges are indices into it, always pointing at
//! earlier-built nodes, so the computation graph is acyclic by
//! construction.  Composing variables consumes their handles; reusing an
//! operand requires an explicit duplication of the handle.  A single
//! `backward` call at the root replays the whole graph, visiting each
//! node once per recorded consumer edge and accumulating gradients
//! wherever a node tracks them.

use vstd::prelude::*;

use crate::core_ops::{map_apply, zip_apply, BinOp};
use crate::layout::Layout;
use crate::shape::shape_product;
use crate::tensor::{DynamicTensor, Tensor};
use crate::transpose_policy::TransposePolicy;

verus! {

/// The recorded operation of a graph node: how an incoming gradient is
/// replayed to the node's operands.
#[derive(Clone, Copy, Debug, PartialEq, Eq, Structural)]
pub enum BackOp {
    Leaf,
    Add { lhs: usize, rhs: usize },
    Sub { lhs: usize, rhs: usize },
    Mul { lhs: usize, rhs: usize },
    ScalAdd { src: usize },
    ScalMul { src: usize, factor: i64 },
}

/// One node of the computation graph: the forward value, the gradient
/// accumulator of tracking nodes, and the replay record.
pub struct BackpropNode {
    /// The forward value.
    pub value: DynamicTensor,
    /// The accumulated gradient; `None` for detached nodes.
    pub grad: Option<DynamicTensor>,
    /// How to replay an incoming gradient to the operands.
    pub op: BackOp,
}

/// The arena holding the computation graph.
pub struct Graph {
    /// The nodes, in construction order; operands precede their results.
    pub nodes: Vec<BackpropNode>,
}

/// A handle to one node of the graph.
#[derive(Clone, Copy, Debug, PartialEq, Eq, Structural)]
pub struct Variable {
    /// The index of the node in its graph's arena.
    pub id: usize,
}

/// The mathematical model of a node: its value and gradient in logical
/// order, its shape, and its replay record.
pub struct NodeModel {
    /// The forward value in logical order.
    pub value: Seq<i64>,
    /// The runtime shape.
    pub shape: Seq<usize>,
    /// The accumulated gradient in logical order, if tracked.
    pub grad: Option<Seq<i64>>,
    /// The replay record.
    pub op: BackOp,
}

/// The model of one node.
pub open spec fn model_of(n: BackpropNode) -> NodeModel {
    NodeModel {
        value: n.value.logical(),
        shape: n.value.shape_spec(),
        grad: match n.grad {
            Some(g) => Some(g.logical()),
            None => None,
        },
        op: n.op,
    }
}

/// The models of all nodes.
pub open spec fn models(nodes: Seq<BackpropNode>) -> Seq<NodeModel> {
    nodes.map_values(|n: BackpropNode| model_of(n))
}

/// Well-formedness of one node within the arena: tensors are well
/// formed, a tracked gradient is shaped like the value, and operands are
/// earlier nodes of the same shape.
pub open spec fn node_ok(nodes: Seq<BackpropNode>, i: int) -> bool {
    &&& nodes[i].value.wf()
    &&& match nodes[i].grad {
        Some(g) => g.wf() && g.shape_spec() == nodes[i].value.shape_spec(),
        None => true,
    }
    &&& match nodes[i].op {
        BackOp::Leaf => true,
        BackOp::Add { lhs, rhs } => lhs < i && rhs < i && nodes[lhs as int].value.shape_spec()
            == nodes[i].value.shape_spec() && nodes[rhs as int].value.shape_spec()
            == nodes[i].value.shape_spec(),
        BackOp::Sub { lhs, rhs } => lhs < i && rhs < i && nodes[lhs as int].value.shape_spec()
            == nodes[i].value.shape_spec() && nodes[rhs as int].value.shape_spec()
            == nodes[i].value.shape_spec(),
        BackOp::Mul { lhs, rhs } => lhs < i && rhs < i && nodes[lhs as int].value.shape_spec()
            == nodes[i].value.shape_spec() && nodes[rhs as int].value.shape_spec()
            == nodes[i].value.shape_spec(),
        BackOp::ScalAdd { src } => src < i && nodes[src as int].value.shape_spec()
            == nodes[i].value.shape_spec(),
        BackOp::ScalMul { src, factor } => src < i && nodes[src as int].value.shape_spec()
            == nodes[i].value.shape_spec(),
    }
}

/// Well-formedness of the whole arena.
pub open spec fn graph_wf(nodes: Seq<BackpropNode>) -> bool {
    forall|i: int| 0 <= i < nodes.len() ==> #[trigger] node_ok(nodes, i)
}

/// The replay record of one elementwise composition.
pub open spec fn bin_record(op: BinOp, lhs: usize, rhs: usize) -> BackOp {
    match op {
        BinOp::Add => BackOp::Add { lhs, rhs },
        BinOp::Sub => BackOp::Sub { lhs, rhs },
        BinOp::Mul => BackOp::Mul { lhs, rhs },
    }
}

/// The model of the node built by composing nodes `lhs` and `rhs` with
/// one elementwise operation: the combined value, a fresh zero
/// accumulator exactly when either operand tracks one, and the replay
/// record.
pub open spec fn composed_model(ms: Seq<NodeModel>, op: BinOp, lhs: usize, rhs: usize) -> NodeModel {
    NodeModel {
        value: zip_apply(op, ms[lhs as int].value, ms[rhs as int].value),
        shape: ms[lhs as int].shape,
        grad: if ms[lhs as int].grad is Some || ms[rhs as int].grad is Some {
            Some(Seq::new(shape_product(ms[lhs as int].shape), |i: int| 0i64))
        } else {
            None
        },
        op: bin_record(op, lhs, rhs),
    }
}

/// Adding an incoming gradient into the accumulator of node `id`, if it
/// tracks one.
pub open spec fn accumulate(ms: Seq<NodeModel>, id: int, g: Seq<i64>) -> Seq<NodeModel> {
    match ms[id].grad {
        Some(old_g) => ms.update(
            id,
            NodeModel {
                value: ms[id].value,
                shape: ms[id].shape,
                grad: Some(zip_apply(BinOp::Add, old_g, g)),
                op: ms[id].op,
            },
        ),
        None => ms,
    }
}

/// One full backward replay from node `id` with incoming gradient `g`:
/// the gradient is added into the accumulator if the node tracks one,
/// then replayed to the operands under the derivative rule of the
/// recorded operation.
pub open spec fn backward_model(ms: Seq<NodeModel>, id: int, g: Seq<i64>) -> Seq<NodeModel>
    decreases id,
{
    let ms1 = accumulate(ms, id, g);
    match ms[id].op {
        BackOp::Leaf => ms1,
        BackOp::Add { lhs, rhs } => if 0 <= lhs < id && rhs < id {
            backward_model(backward_model(ms1, lhs as int, g), rhs as int, g)
        } else {
            ms1
        },
        BackOp::Sub { lhs, rhs } => if 0 <= lhs < id && rhs < id {
            backward_model(
                backward_model(ms1, lhs as int, g),
                rhs as int,
                map_apply(BinOp::Mul, g, -1i64),
            )
        } else {
            ms1
        },
        BackOp::Mul { lhs, rhs } => if 0 <= lhs < id && rhs < id {
            backward_model(
                backward_model(ms1, lhs as int, zip_apply(BinOp::Mul, g, ms[rhs as int].value)),
                rhs as int,
                zip_apply(BinOp::Mul, g, ms[lhs as int].value),
            )
        } else {
            ms1
        },
        BackOp::ScalAdd { src } => if 0 <= src < id {
            backward_model(ms1, src as int, g)
        } else {
            ms1
        },
        BackOp::ScalMul { src, factor } => if 0 <= src < id {
            backward_model(ms1, src as int, map_apply(BinOp::Mul, g, factor))
        } else {
            ms1
        },
    }
}

/// Backward replay changes gradients only: every node keeps its value,
/// shape and replay record, a detached node stays detached, a tracking
/// node keeps tracking, and nodes past the visited one are untouched.
pub proof fn lemma_backward_model_preserves(ms: Seq<NodeModel>, id: int, g: Seq<i64>)
    requires
        0 <= id < ms.len(),
    ensures
        backward_model(ms, id, g).len() == ms.len(),
        forall|j: int|
            0 <= j < ms.len() ==> {
                let r = #[trigger] backward_model(ms, id, g)[j];
                r.value == ms[j].value && r.shape == ms[j].shape && r.op == ms[j].op && (r.grad
                    is Some <==> ms[j].grad is Some)
            },
        forall|j: int| id < j < ms.len() ==> #[trigger] backward_model(ms, id, g)[j] == ms[j],
    decreases id,
{
    let ms1 = accumulate(ms, id, g);
    assert(ms1.len() == ms.len());
    match ms[id].op {
        BackOp::Leaf => {},
        BackOp::Add { lhs, rhs } => {
            if 0 <= lhs < id && rhs < id {
                lemma_backward_model_preserves(ms1, lhs as int, g);
                lemma_backward_model_preserves(backward_model(ms1, lhs as int, g), rhs as int, g);
            }
        },
        BackOp::Sub { lhs, rhs } => {
            if 0 <= lhs < id && rhs < id {
                lemma_backward_model_preserves(ms1, lhs as int, g);
                lemma_backward_model_preserves(
                    backward_model(ms1, lhs as int, g),
                    rhs as int,
                    map_apply(BinOp::Mul, g, -1i64),
                );
            }
        },
        BackOp::Mul { lhs, rhs } => {
            if 0 <= lhs < id && rhs < id {
                let gl = zip_apply(BinOp::Mul, g, ms[rhs as int].value);
                let gr = zip_apply(BinOp::Mul, g, ms[lhs as int].value);
                lemma_backward_model_preserves(ms1, lhs as int, gl);
                lemma_backward_model_preserves(backward_model(ms1, lhs as int, gl), rhs as int, gr);
            }
        },
        BackOp::ScalAdd { src } => {
            if 0 <= src < id {
                lemma_backward_model_preserves(ms1, src as int, g);
            }
        },
        BackOp::ScalMul { src, factor } => {
            if 0 <= src < id {
                lemma_backward_model_preserves(ms1, src as int, map_apply(BinOp::Mul, g, factor));
            }
        },
    }
}

/// A detached node never acquires a gradient, however often backward
/// passes over it: `None` accumulators stay `None`.
pub proof fn lemma_detached_stays_none(ms: Seq<NodeModel>, id: int, g: Seq<i64>, j: int)
    requires
        0 <= id < ms.len(),
        0 <= j < ms.len(),
        ms[j].grad is None,
    ensures
        backward_model(ms, id, g)[j].grad is None,
{
    lemma_backward_model_preserves(ms, id, g);
}

/// Backward adds the incoming gradient into the visited node's
/// accumulator exactly once: for a tracking node, the accumulator after
/// the pass is the old accumulator plus the incoming gradient, element
/// by element.
pub proof fn lemma_backward_accumulates(ms: Seq<NodeModel>, id: int, g: Seq<i64>, old_g: Seq<i64>)
    requires
        0 <= id < ms.len(),
        ms[id].grad == Some(old_g),
    ensures
        backward_model(ms, id, g)[id].grad == Some(zip_apply(BinOp::Add, old_g, g)),
{
    let ms1 = accumulate(ms, id, g);
    assert(ms1[id].grad == Some(zip_apply(BinOp::Add, old_g, g)));
    match ms[id].op {
        BackOp::Leaf => {},
        BackOp::Add { lhs, rhs } => {
            if 0 <= lhs < id && rhs < id {
                lemma_backward_model_preserves(ms1, lhs as int, g);
                lemma_backward_model_preserves(backward_model(ms1, lhs as int, g), rhs as int, g);
            }
        },
        BackOp::Sub { lhs, rhs } => {
            if 0 <= lhs < id && rhs < id {
                lemma_backward_model_preserves(ms1, lhs as int, g);
                lemma_backward_model_preserves(
                    backward_model(ms1, lhs as int, g),
                    rhs as int,
                    map_apply(BinOp::Mul, g, -1i64),
                );
            }
        },
        BackOp::Mul { lhs, rhs } => {
            if 0 <= lhs < id && rhs < id {
                let gl = zip_apply(BinOp::Mul, g, ms[rhs as int].value);
                let gr = zip_apply(BinOp::Mul, g, ms[lhs as int].value);
                lemma_backward_model_preserves(ms1, lhs as int, gl);
                lemma_backward_model_preserves(backward_model(ms1, lhs as int, gl), rhs as int, gr);
            }
        },
        BackOp::ScalAdd { src } => {
            if 0 <= src < id {
                lemma_backward_model_preserves(ms1, src as int, g);
            }
        },
        BackOp::ScalMul { src, factor } => {
            if 0 <= src < id {
                lemma_backward_model_preserves(ms1, src as int, map_apply(BinOp::Mul, g, factor));
            }
        },
    }
}

impl Graph {
    /// The arena is well formed.
    pub open spec fn wf(&self) -> bool {
        graph_wf(self.nodes@)
    }

    /// An empty computation graph.
    pub fn new() -> (r: Graph)
        ensures
            r.wf(),
            r.nodes@.len() == 0,
    {
        Graph { nodes: Vec::new() }
    }

    /// The number of nodes built so far.
    pub fn len(&self) -> (r: usize)
        ensures
            r == self.nodes@.len(),
    {
        self.nodes.len()
    }
}

/// The recursive replay: accumulate into node `id`, then dispatch the
/// gradient to its operands under the derivative rule of its record.
fn backward_at(nodes: &mut Vec<BackpropNode>, id: usize, grad: &DynamicTensor)
    requires
        graph_wf(old(nodes)@),
        id < old(nodes)@.len(),
        grad.wf(),
        grad.shape_spec() == old(nodes)@[id as int].value.shape_spec(),
    ensures
        graph_wf(final(nodes)@),
        final(nodes)@.len() == old(nodes)@.len(),
        models(final(nodes)@) == backward_model(models(old(nodes)@), id as int, grad.logical()),
    decreases id,
{
    let ghost ms0 = models(nodes@);
    assert(node_ok(nodes@, id as int));
    let node = &mut nodes[id];
    match &mut node.grad {
        Some(g) => {
            g.add_(grad);
        },
        None => {},
    }
    assert(models(nodes@) =~= accumulate(ms0, id as int, grad.logical()));
    assert(graph_wf(nodes@)) by {
        assert forall|i: int| 0 <= i < nodes@.len() implies #[trigger] node_ok(nodes@, i) by {
            assert(node_ok(old(nodes)@, i));
        }
    }
    let ghost ms1 = models(nodes@);
    let op = nodes[id].op;
    match op {
        BackOp::Leaf => {},
        BackOp::Add { lhs, rhs } => {
            assert(node_ok(old(nodes)@, id as int));
            backward_at(nodes, lhs, grad);
            proof {
                lemma_backward_model_preserves(ms1, lhs as int, grad.logical());
                assert(models(nodes@)[rhs as int].shape == ms1[rhs as int].shape);
                assert(models(nodes@)[rhs as int].shape == nodes@[rhs as int].value.shape_spec());
            }
            backward_at(nodes, rhs, grad);
        },
        BackOp::Sub { lhs, rhs } => {
            assert(node_ok(old(nodes)@, id as int));
            let gneg = grad.scal_mul_dynamic(-1);
            backward_at(nodes, lhs, grad);
            proof {
                lemma_backward_model_preserves(ms1, lhs as int, grad.logical());
                assert(models(nodes@)[rhs as int].shape == ms1[rhs as int].shape);
                assert(models(nodes@)[rhs as int].shape == nodes@[rhs as int].value.shape_spec());
            }
            backward_at(nodes, rhs, &gneg);
        },
        BackOp::Mul { lhs, rhs } => {
            assert(node_ok(old(nodes)@, id as int));
            assert(node_ok(nodes@, id as int));
            assert(node_ok(nodes@, lhs as int));
            assert(node_ok(nodes@, rhs as int));
            let gl = grad.mul_dynamic(&nodes[rhs].value);
            let gr = grad.mul_dynamic(&nodes[lhs].value);
            proof {
                assert(gl.logical() == zip_apply(BinOp::Mul, grad.logical(), ms0[rhs as int].value));
                assert(gr.logical() == zip_apply(BinOp::Mul, grad.logical(), ms0[lhs as int].value));
            }
            backward_at(nodes, lhs, &gl);
            proof {
                lemma_backward_model_preserves(ms1, lhs as int, gl.logical());
                assert(models(nodes@)[rhs as int].shape == ms1[rhs as int].shape);
                assert(models(nodes@)[rhs as int].shape == nodes@[rhs as int].value.shape_spec());
            }
            backward_at(nodes, rhs, &gr);
        },
        BackOp::ScalAdd { src } => {
            assert(node_ok(old(nodes)@, id as int));
            backward_at(nodes, src, grad);
        },
        BackOp::ScalMul { src, factor } => {
            assert(node_ok(old(nodes)@, id as int));
            let gs = grad.scal_mul_dynamic(factor);
            backward_at(nodes, src, &gs);
        },
    }
}

impl Variable {
    /// A graph leaf holding `tensor`; a tracking leaf starts with a
    /// zero-filled gradient accumulator shaped like the value.
    pub fn new(graph: &mut Graph, tensor: DynamicTensor, require_grad: bool) -> (r: Variable)
        requires
            old(graph).wf(),
            tensor.wf(),
        ensures
            final(graph).wf(),
            r.id == old(graph).nodes@.len(),
            final(graph).nodes@.len() == old(graph).nodes@.len() + 1,
            models(final(graph).nodes@) == models(old(graph).nodes@).push(
                NodeModel {
                    value: tensor.logical(),
                    shape: tensor.shape_spec(),
                    grad: if require_grad {
                        Some(Seq::new(shape_product(tensor.shape_spec()), |i: int| 0i64))
                    } else {
                        None
                    },
                    op: BackOp::Leaf,
                },
            ),
    {
        proof {
            tensor.layout.wf_facts();
        }
        let id = graph.nodes.len();
        let grad_opt = if require_grad {
            Some(DynamicTensor::fill_dynamic(0, tensor.shape()))
        } else {
            None
        };
        let node = BackpropNode { value: tensor, grad: grad_opt, op: BackOp::Leaf };
        graph.nodes.push(node);
        proof {
            assert(models(graph.nodes@) =~= models(old(graph).nodes@).push(
                model_of(graph.nodes@[id as int]),
            ));
            assert forall|i: int| 0 <= i < graph.nodes@.len() implies #[trigger] node_ok(
                graph.nodes@,
                i,
            ) by {
                if i < id {
                    assert(node_ok(old(graph).nodes@, i));
                }
            }
        }
        Variable { id }
    }

    /// A copy of the accumulated gradient, or `None` for a detached
    /// node.
    pub fn grad(&self, graph: &Graph) -> (r: Option<DynamicTensor>)
        requires
            graph.wf(),
            self.id < graph.nodes@.len(),
        ensures
            match r {
                Some(g) => {
                    &&& graph.nodes@[self.id as int].grad is Some
                    &&& g.wf()
                    &&& g.shape_spec() == graph.nodes@[self.id as int].value.shape_spec()
                    &&& Some(g.logical()) == models(graph.nodes@)[self.id as int].grad
                },
                None => graph.nodes@[self.id as int].grad is None,
            },
    {
        assert(node_ok(graph.nodes@, self.id as int));
        match &graph.nodes[self.id].grad {
            Some(g) => Some(g.duplicate()),
            None => None,
        }
    }

    /// Replays the graph from this node: adds `grad` into its
    /// accumulator if it tracks one, then dispatches gradients to every
    /// reachable operand, once per recorded consumer edge.
    pub fn backward(&self, graph: &mut Graph, grad: DynamicTensor)
        requires
            old(graph).wf(),
            self.id < old(graph).nodes@.len(),
            grad.wf(),
            grad.shape_spec() == old(graph).nodes@[self.id as int].value.shape_spec(),
        ensures
            final(graph).wf(),
            final(graph).nodes@.len() == old(graph).nodes@.len(),
            models(final(graph).nodes@) == backward_model(
                models(old(graph).nodes@),
                self.id as int,
                grad.logical(),
            ),
    {
        backward_at(&mut graph.nodes, self.id, &grad);
    }

    /// Composes two variables with one elementwise operation: computes
    /// the forward value, decides whether the result tracks a gradient
    /// (it does exactly when either operand does), and records the
    /// replay edge.  Both handles are consumed.
    fn compose(self, graph: &mut Graph, other: Variable, op: BinOp) -> (r: Variable)
        requires
            old(graph).wf(),
            self.id < old(graph).nodes@.len(),
            other.id < old(graph).nodes@.len(),
            old(graph).nodes@[self.id as int].value.shape_spec() == old(
                graph,
            ).nodes@[other.id as int].value.shape_spec(),
        ensures
            final(graph).wf(),
            r.id == old(graph).nodes@.len(),
            final(graph).nodes@.len() == old(graph).nodes@.len() + 1,
            models(final(graph).nodes@) == models(old(graph).nodes@).push(
                NodeModel {
                    value: zip_apply(
                        op,
                        old(graph).nodes@[self.id as int].value.logical(),
                        old(graph).nodes@[other.id as int].value.logical(),
                    ),
                    shape: old(graph).nodes@[self.id as int].value.shape_spec(),
                    grad: if old(graph).nodes@[self.id as int].grad is Some || old(
                        graph,
                    ).nodes@[other.id as int].grad is Some {
                        Some(
                            Seq::new(
                                shape_product(
                                    old(graph).nodes@[self.id as int].value.shape_spec(),
                                ),
                                |i: int| 0i64,
                            ),
                        )
                    } else {
                        None
                    },
                    op: bin_record(op, self.id, other.id),
                },
            ),
    {
        assert(node_ok(graph.nodes@, self.id as int));
        assert(node_ok(graph.nodes@, other.id as int));
        let value = match op {
            BinOp::Add => graph.nodes[self.id].value.add_dynamic(&graph.nodes[other.id].value),
            BinOp::Sub => graph.nodes[self.id].value.sub_dynamic(&graph.nodes[other.id].value),
            BinOp::Mul => graph.nodes[self.id].value.mul_dynamic(&graph.nodes[other.id].value),
        };
        let needs = graph.nodes[self.id].grad.is_some() || graph.nodes[other.id].grad.is_some();
        proof {
            value.layout.wf_facts();
        }
        let grad_opt = if needs {
            Some(DynamicTensor::fill_dynamic(0, value.shape()))
        } else {
            None
        };
        let record = match op {
            BinOp::Add => BackOp::Add { lhs: self.id, rhs: other.id },
            BinOp::Sub => BackOp::Sub { lhs: self.id, rhs: other.id },
            BinOp::Mul => BackOp::Mul { lhs: self.id, rhs: other.id },
        };
        let id = graph.nodes.len();
        graph.nodes.push(BackpropNode { value, grad: grad_opt, op: record });
        proof {
            assert(models(graph.nodes@) =~= models(old(graph).nodes@).push(
                model_of(graph.nodes@[id as int]),
            ));
            assert forall|i: int| 0 <= i < graph.nodes@.len() implies #[trigger] node_ok(
                graph.nodes@,
                i,
            ) by {
                if i < id {
                    assert(node_ok(old(graph).nodes@, i));
                }
            }
        }
        Variable { id }
    }

    /// Elementwise addition of two variables, recording the additive
    /// replay rule: both operands receive the incoming gradient.
    pub fn add(self, graph: &mut Graph, other: Variable) -> (r: Variable)
        requires
            old(graph).wf(),
            self.id < old(graph).nodes@.len(),
            other.id < old(graph).nodes@.len(),
            old(graph).nodes@[self.id as int].value.shape_spec() == old(
                graph,
            ).nodes@[other.id as int].value.shape_spec(),
        ensures
            final(graph).wf(),
            r.id == old(graph).nodes@.len(),
            final(graph).nodes@.len() == old(graph).nodes@.len() + 1,
            models(final(graph).nodes@) == models(old(graph).nodes@).push(
                composed_model(models(old(graph).nodes@), BinOp::Add, self.id, other.id),
            ),
    {
        self.compose(graph, other, BinOp::Add)
    }

    /// Elementwise subtraction of two variables, recording the replay
    /// rule that negates the gradient for the right operand.
    pub fn sub(self, graph: &mut Graph, other: Variable) -> (r: Variable)
        requires
            old(graph).wf(),
            self.id < old(graph).nodes@.len(),
            other.id < old(graph).nodes@.len(),
            old(graph).nodes@[self.id as int].value.shape_spec() == old(
                graph,
            ).nodes@[other.id as int].value.shape_spec(),
        ensures
            final(graph).wf(),
            r.id == old(graph).nodes@.len(),
            final(graph).nodes@.len() == old(graph).nodes@.len() + 1,
            models(final(graph).nodes@) == models(old(graph).nodes@).push(
                composed_model(models(old(graph).nodes@), BinOp::Sub, self.id, other.id),
            ),
    {
        self.compose(graph, other, BinOp::Sub)
    }

    /// Elementwise multiplication of two variables, recording the
    /// product replay rule: each operand receives the incoming gradient
    /// times the other operand's value.
    pub fn mul(self, graph: &mut Graph, other: Variable) -> (r: Variable)
        requires
            old(graph).wf(),
            self.id < old(graph).nodes@.len(),
            other.id < old(graph).nodes@.len(),
            old(graph).nodes@[self.id as int].value.shape_spec() == old(
                graph,
            ).nodes@[other.id as int].value.shape_spec(),
        ensures
            final(graph).wf(),
            r.id == old(graph).nodes@.len(),
            final(graph).nodes@.len() == old(graph).nodes@.len() + 1,
            models(final(graph).nodes@) == models(old(graph).nodes@).push(
                composed_model(models(old(graph).nodes@), BinOp::Mul, self.id, other.id),
            ),
    {
        self.compose(graph, other, BinOp::Mul)
    }

    /// Adds a scalar to a variable; the replay rule passes the gradient
    /// through unchanged.
    pub fn scal_add(self, graph: &mut Graph, param: i64) -> (r: Variable)
        requires
            old(graph).wf(),
            self.id < old(graph).nodes@.len(),
        ensures
            final(graph).wf(),
            r.id == old(graph).nodes@.len(),
            final(graph).nodes@.len() == old(graph).nodes@.len() + 1,
            models(final(graph).nodes@) == models(old(graph).nodes@).push(
                NodeModel {
                    value: map_apply(
                        BinOp::Add,
                        models(old(graph).nodes@)[self.id as int].value,
                        param,
                    ),
                    shape: models(old(graph).nodes@)[self.id as int].shape,
                    grad: if models(old(graph).nodes@)[self.id as int].grad is Some {
                        Some(
                            Seq::new(
                                shape_product(models(old(graph).nodes@)[self.id as int].shape),
                                |i: int| 0i64,
                            ),
                        )
                    } else {
                        None
                    },
                    op: BackOp::ScalAdd { src: self.id },
                },
            ),
    {
        assert(node_ok(graph.nodes@, self.id as int));
        let value = graph.nodes[self.id].value.scal_add_dynamic(param);
        let needs = graph.nodes[self.id].grad.is_some();
        proof {
            value.layout.wf_facts();
        }
        let grad_opt = if needs {
            Some(DynamicTensor::fill_dynamic(0, value.shape()))
        } else {
            None
        };
        let id = graph.nodes.len();
        graph.nodes.push(
            BackpropNode { value, grad: grad_opt, op: BackOp::ScalAdd { src: self.id } },
        );
        proof {
            assert(models(graph.nodes@) =~= models(old(graph).nodes@).push(
                model_of(graph.nodes@[id as int]),
            ));
            assert forall|i: int| 0 <= i < graph.nodes@.len() implies #[trigger] node_ok(
                graph.nodes@,
                i,
            ) by {
                if i < id {
                    assert(node_ok(old(graph).nodes@, i));
                }
            }
        }
        Variable { id }
    }

    /// Multiplies a variable by a scalar; the replay rule scales the
    /// gradient by the same factor.
    pub fn scal_mul(self, graph: &mut Graph, param: i64) -> (r: Variable)
        requires
            old(graph).wf(),
            self.id < old(graph).nodes@.len(),
        ensures
            final(graph).wf(),
            r.id == old(graph).nodes@.len(),
            final(graph).nodes@.len() == old(graph).nodes@.len() + 1,
            models(final(graph).nodes@) == models(old(graph).nodes@).push(
                NodeModel {
                    value: map_apply(
                        BinOp::Mul,
                        models(old(graph).nodes@)[self.id as int].value,
                        param,
                    ),
                    shape: models(old(graph).nodes@)[self.id as int].shape,
                    grad: if models(old(graph).nodes@)[self.id as int].grad is Some {
                        Some(
                            Seq::new(
                                shape_product(models(old(graph).nodes@)[self.id as int].shape),
                                |i: int| 0i64,
                            ),
                        )
                    } else {
                        None
                    },
                    op: BackOp::ScalMul { src: self.id, factor: param },
                },
            ),
    {
        assert(node_ok(graph.nodes@, self.id as int));
        let value = graph.nodes[self.id].value.scal_mul_dynamic(param);
        let needs = graph.nodes[self.id].grad.is_some();
        proof {
            value.layout.wf_facts();
        }
        let grad_opt = if needs {
            Some(DynamicTensor::fill_dynamic(0, value.shape()))
        } else {
            None
        };
        let id = graph.nodes.len();
        graph.nodes.push(
            BackpropNode { value, grad: grad_opt, op: BackOp::ScalMul { src: self.id, factor: param } },
        );
        proof {
            assert(models(graph.nodes@) =~= models(old(graph).nodes@).push(
                model_of(graph.nodes@[id as int]),
            ));
            assert forall|i: int| 0 <= i < graph.nodes@.len() implies #[trigger] node_ok(
                graph.nodes@,
                i,
            ) by {
                if i < id {
                    assert(node_ok(old(graph).nodes@, i));
                }
            }
        }
        Variable { id }
    }

    /// The runtime-shape form of [`Variable::backward`].
    pub fn backward_dynamic(&self, graph: &mut Graph, grad: DynamicTensor)
        requires
            old(graph).wf(),
            self.id < old(graph).nodes@.len(),
            grad.wf(),
            grad.shape_spec() == old(graph).nodes@[self.id as int].value.shape_spec(),
        ensures
            final(graph).wf(),
            final(graph).nodes@.len() == old(graph).nodes@.len(),
            models(final(graph).nodes@) == backward_model(
                models(old(graph).nodes@),
                self.id as int,
                grad.logical(),
            ),
    {
        backward_at(&mut graph.nodes, self.id, &grad);
    }
}

} // verus!
