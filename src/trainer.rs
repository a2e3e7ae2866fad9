use vstd::prelude::*;
use crate::Activation;
use crate::shape::Shape;

verus! {

/// What a declared layer does.
#[derive(Clone, Copy, Debug, PartialEq, Eq, Structural)]
pub enum OpType {
    Activate(Activation),
    Affine,
}

/// A declared layer: its output width and what it does.
#[derive(Clone, Copy, Debug, PartialEq, Eq, Structural)]
pub struct NodeType {
    pub size: usize,
    pub op: OpType,
}

/// Width of the vector that layer `i` reads: the two concatenated halves of
/// the feature transformer for the first layer, else the previous layer's output.
pub open spec fn layer_input(ft_out: nat, nodes: Seq<NodeType>, i: int) -> nat {
    if i <= 0 {
        2 * ft_out
    } else {
        nodes[i - 1].size as nat
    }
}

/// Number of parameters of layer `i`: weights and biases of an affine layer,
/// none for an activation.
pub open spec fn layer_params(ft_out: nat, nodes: Seq<NodeType>, i: int) -> nat {
    match nodes[i].op {
        OpType::Affine => (layer_input(ft_out, nodes, i) + 1) * nodes[i].size as nat,
        OpType::Activate(_) => 0,
    }
}

/// Number of parameters of the first `i` layers.
pub open spec fn params_before(ft_out: nat, nodes: Seq<NodeType>, i: int) -> nat
    decreases i,
{
    if i <= 0 {
        0
    } else {
        params_before(ft_out, nodes, i - 1) + layer_params(ft_out, nodes, i - 1)
    }
}

/// Number of affine layers among the first `i` layers.
pub open spec fn affine_before(nodes: Seq<NodeType>, i: int) -> nat
    decreases i,
{
    if i <= 0 {
        0
    } else {
        affine_before(nodes, i - 1) + if nodes[i - 1].op is Affine {
            1nat
        } else {
            0nat
        }
    }
}

/// Product of the first `n` quantisation factors.
pub open spec fn scale_product(q: Seq<i16>, n: int) -> int
    decreases n,
{
    if n <= 0 {
        1
    } else {
        scale_product(q, n - 1) * q[n - 1] as int
    }
}


/// Whether `v` is a 16-bit signed value.
pub open spec fn fits_i16(v: int) -> bool {
    i16::MIN <= v <= i16::MAX
}

/// A contiguous run of entries in the optimiser's parameter buffers.
#[derive(Clone, Copy, Debug, PartialEq, Eq, Structural)]
pub struct ParamRange {
    pub start: usize,
    pub len: usize,
}

/// Quantisation factor `val` applies from parameter `start` up to the start
/// of the next entry (or the end of the parameters).
#[derive(Clone, Copy, Debug, PartialEq, Eq, Structural)]
pub struct QuantiseInfo {
    pub val: i16,
    pub start: usize,
}

/// Where an affine layer's weights and biases live, or which activation a
/// layer applies.
#[derive(Clone, Copy, Debug, PartialEq, Eq, Structural)]
pub enum LayerOp {
    Affine { weights: ParamRange, biases: ParamRange, weights_shape: Shape },
    Activate(Activation),
}

/// One built layer: the shape of each of its per-sample outputs and its operation.
#[derive(Clone, Copy, Debug, PartialEq, Eq, Structural)]
pub struct LayerLayout {
    pub outputs: Shape,
    pub op: LayerOp,
}

/// Why a network description cannot be built.
#[derive(Clone, Copy, Debug, PartialEq, Eq, Structural)]
pub enum BuildError {
    /// There must be one quantisation factor for the feature transformer and
    /// one per affine layer, or none at all.
    QuantisationCount,
    /// A product of quantisation factors does not fit in 16 bits.
    QuantisationOverflow,
}

/// The parameter layout of a network: every layer's weights and biases bound
/// to non-overlapping ranges of one parameter buffer of `net_size` entries,
/// feature transformer first, then the layers in declaration order.
pub struct NetworkLayout {
    pub input_size: usize,
    pub max_active: usize,
    pub batch_size: usize,
    pub ft_out_size: usize,
    pub ft_weights: ParamRange,
    pub ft_biases: ParamRange,
    pub layers: Vec<LayerLayout>,
    pub quantiser: Vec<QuantiseInfo>,
    pub net_size: usize,
}

/// Assembles a network description layer by layer.
pub struct TrainerBuilder {
    pub input_size: usize,
    pub max_active: usize,
    pub batch_size: usize,
    pub ft_out_size: usize,
    pub nodes: Vec<NodeType>,
    pub quantisations: Vec<i16>,
    /// Parameters of the layers after the feature transformer.
    pub size: usize,
}

impl TrainerBuilder {
    /// The running parameter count matches the declared layers.
    pub open spec fn wf(&self) -> bool {
        self.size == params_before(self.ft_out_size as nat, self.nodes@, self.nodes@.len() as int)
    }

    /// Width of the last declared layer's output.
    pub open spec fn last_size(&self) -> nat {
        layer_input(self.ft_out_size as nat, self.nodes@, self.nodes@.len() as int)
    }

    pub fn new() -> (r: TrainerBuilder)
        ensures
            r.wf(),
            r.input_size == 0 && r.max_active == 0 && r.batch_size == 0 && r.ft_out_size == 0,
            r.nodes@.len() == 0,
            r.quantisations@.len() == 0,
    {
        TrainerBuilder {
            input_size: 0,
            max_active: 0,
            batch_size: 0,
            ft_out_size: 0,
            nodes: Vec::new(),
            quantisations: Vec::new(),
            size: 0,
        }
    }

    fn get_last_layer_size(&self) -> (r: usize)
        requires
            2 * self.ft_out_size <= usize::MAX,
        ensures
            r == self.last_size(),
    {
        if self.nodes.len() > 0 {
            self.nodes[self.nodes.len() - 1].size
        } else {
            2 * self.ft_out_size
        }
    }

    /// Sets the input width and the largest number of active features of a sample.
    pub fn set_input(self, input_size: usize, max_active: usize) -> (r: TrainerBuilder)
        ensures
            r == (TrainerBuilder { input_size, max_active, ..self }),
    {
        let mut b = self;
        b.input_size = input_size;
        b.max_active = max_active;
        b
    }

    pub fn set_batch_size(self, batch_size: usize) -> (r: TrainerBuilder)
        ensures
            r == (TrainerBuilder { batch_size, ..self }),
    {
        let mut b = self;
        b.batch_size = batch_size;
        b
    }

    /// One factor for the feature transformer, then one per affine layer.
    pub fn set_quantisations(self, quants: &[i16]) -> (r: TrainerBuilder)
        ensures
            r.quantisations@ == quants@,
            r.input_size == self.input_size && r.max_active == self.max_active,
            r.batch_size == self.batch_size && r.ft_out_size == self.ft_out_size,
            r.nodes == self.nodes && r.size == self.size,
    {
        let mut q: Vec<i16> = Vec::new();
        let mut i: usize = 0;
        while i < quants.len()
            invariant
                i <= quants@.len(),
                q@ == quants@.subrange(0, i as int),
            decreases quants@.len() - i,
        {
            q.push(quants[i]);
            i = i + 1;
        }
        assert(q@ =~= quants@);
        let mut b = self;
        b.quantisations = q;
        b
    }

    /// Sets the feature transformer's output width (per half). Only before any
    /// layer is added.
    pub fn ft(self, size: usize) -> (r: TrainerBuilder)
        requires
            self.nodes@.len() == 0,
            self.wf(),
        ensures
            r == (TrainerBuilder { ft_out_size: size, ..self }),
            r.wf(),
    {
        let mut b = self;
        b.ft_out_size = size;
        b
    }

    /// Adds an affine layer with `size` outputs.
    pub fn add_layer(self, size: usize) -> (r: TrainerBuilder)
        requires
            self.wf(),
            2 * self.ft_out_size <= usize::MAX,
            self.last_size() < usize::MAX,
            self.size + (self.last_size() + 1) * size <= usize::MAX,
        ensures
            r.wf(),
            r.nodes@ == self.nodes@.push(NodeType { size, op: OpType::Affine }),
            r.size == self.size + (self.last_size() + 1) * size,
            r.input_size == self.input_size && r.max_active == self.max_active,
            r.batch_size == self.batch_size && r.ft_out_size == self.ft_out_size,
            r.quantisations == self.quantisations,
    {
        let last = self.get_last_layer_size();
        let mut b = self;
        assert((last + 1) * size <= usize::MAX) by (nonlinear_arith)
            requires
                b.size + (last + 1) * size <= usize::MAX,
        ;
        b.size = b.size + (last + 1) * size;
        let ghost prior = b.nodes@;
        b.nodes.push(NodeType { size, op: OpType::Affine });
        proof {
            let n = b.nodes@;
            let ft = b.ft_out_size as nat;
            assert(n.subrange(0, prior.len() as int) =~= prior);
            lemma_params_prefix(ft, prior, n, prior.len() as int);
        }
        b
    }

    /// Adds an activation layer; its width is that of the layer before it.
    pub fn activate(self, activation: Activation) -> (r: TrainerBuilder)
        requires
            self.wf(),
            2 * self.ft_out_size <= usize::MAX,
        ensures
            r.wf(),
            r.nodes@ == self.nodes@.push(
                NodeType { size: self.last_size() as usize, op: OpType::Activate(activation) },
            ),
            r.size == self.size,
            r.input_size == self.input_size && r.max_active == self.max_active,
            r.batch_size == self.batch_size && r.ft_out_size == self.ft_out_size,
            r.quantisations == self.quantisations,
    {
        let size = self.get_last_layer_size();
        let mut b = self;
        let ghost prior = b.nodes@;
        b.nodes.push(NodeType { size, op: OpType::Activate(activation) });
        proof {
            let n = b.nodes@;
            let ft = b.ft_out_size as nat;
            assert(n.subrange(0, prior.len() as int) =~= prior);
            lemma_params_prefix(ft, prior, n, prior.len() as int);
        }
        b
    }
}

/// Number of parameters of the feature transformer: a weight per input and
/// output, and a bias per output.
pub open spec fn ft_params(b: TrainerBuilder) -> nat {
    (b.input_size as nat + 1) * b.ft_out_size as nat
}

/// Offset of the first parameter of layer `i`.
pub open spec fn layer_start(b: TrainerBuilder, i: int) -> nat {
    ft_params(b) + params_before(b.ft_out_size as nat, b.nodes@, i)
}

/// The layout that layer `i` of `b` is built into.
pub open spec fn expected_layer(b: TrainerBuilder, i: int) -> LayerLayout {
    let n = b.nodes@[i];
    let inp = layer_input(b.ft_out_size as nat, b.nodes@, i);
    let start = layer_start(b, i);
    LayerLayout {
        outputs: Shape { cols: 1, rows: n.size },
        op: match n.op {
            OpType::Affine => LayerOp::Affine {
                weights: ParamRange { start: start as usize, len: (inp * n.size) as usize },
                biases: ParamRange { start: (start + inp * n.size) as usize, len: n.size },
                weights_shape: Shape { cols: inp as usize, rows: n.size },
            },
            OpType::Activate(a) => LayerOp::Activate(a),
        },
    }
}

/// Either no quantisation, or one factor for the feature transformer and one
/// per affine layer.
pub open spec fn quantisation_count_ok(b: TrainerBuilder) -> bool {
    let q = b.quantisations@;
    q.len() == 0 || q.len() == 1 + affine_before(b.nodes@, b.nodes@.len() as int)
}

/// Every running product of the quantisation factors fits in 16 bits.
pub open spec fn products_fit(q: Seq<i16>) -> bool {
    forall|k: int| 1 <= k <= q.len() ==> #[trigger] fits_i16(scale_product(q, k))
}

/// The quantiser entries of layer `i`, when it is affine: its weights take
/// the next factor, its biases the product of all factors so far.
pub open spec fn quantiser_entries_ok(b: TrainerBuilder, quantiser: Seq<QuantiseInfo>, i: int) -> bool {
    let q = b.quantisations@;
    let k = affine_before(b.nodes@, i) as int;
    let n = b.nodes@[i];
    let inp = layer_input(b.ft_out_size as nat, b.nodes@, i);
    n.op is Affine ==> {
        &&& quantiser[1 + 2 * k] == QuantiseInfo { val: q[k + 1], start: layer_start(b, i) as usize }
        &&& quantiser[2 + 2 * k] == QuantiseInfo {
            val: scale_product(q, k + 2) as i16,
            start: (layer_start(b, i) + inp * n.size) as usize,
        }
    }
}

/// `l` is the layout built from `b`.
pub open spec fn layout_matches(b: TrainerBuilder, l: NetworkLayout) -> bool {
    let q = b.quantisations@;
    let nodes = b.nodes@;
    let a = affine_before(nodes, nodes.len() as int);
    &&& l.input_size == b.input_size && l.max_active == b.max_active
    &&& l.batch_size == b.batch_size && l.ft_out_size == b.ft_out_size
    &&& l.ft_weights == ParamRange { start: 0, len: (b.ft_out_size * b.input_size) as usize }
    &&& l.ft_biases == ParamRange {
        start: (b.ft_out_size * b.input_size) as usize,
        len: b.ft_out_size,
    }
    &&& l.net_size == ft_params(b) + b.size
    &&& l.layers@.len() == nodes.len()
    &&& forall|i: int| 0 <= i < nodes.len() ==> #[trigger] l.layers@[i] == expected_layer(b, i)
    &&& q.len() == 0 ==> l.quantiser@.len() == 0
    &&& q.len() > 0 ==> {
        &&& l.quantiser@.len() == 1 + 2 * a
        &&& l.quantiser@[0] == QuantiseInfo { val: q[0], start: 0 }
        &&& forall|i: int|
            0 <= i < nodes.len() ==> #[trigger] quantiser_entries_ok(b, l.quantiser@, i)
    }
}

/// Number of affine layers.
fn count_affine(nodes: &Vec<NodeType>) -> (r: usize)
    ensures
        r == affine_before(nodes@, nodes@.len() as int),
        r <= nodes@.len(),
{
    let mut count: usize = 0;
    let mut i: usize = 0;
    while i < nodes.len()
        invariant
            i <= nodes@.len(),
            count == affine_before(nodes@, i as int),
            count <= i,
        decreases nodes@.len() - i,
    {
        if nodes[i].op.is_affine() {
            count = count + 1;
        }
        i = i + 1;
    }
    count
}

impl OpType {
    pub fn is_affine(&self) -> (r: bool)
        ensures
            r == (*self is Affine),
    {
        match self {
            OpType::Affine => true,
            OpType::Activate(_) => false,
        }
    }
}

impl TrainerBuilder {
    /// Binds every layer to its range of the parameter buffer: feature
    /// transformer weights, then its biases, then each affine layer's weights
    /// and biases in declaration order. The ranges end exactly at the total
    /// parameter count. With quantisation factors, also lists which factor
    /// scales which range.
    pub fn build(self) -> (r: Result<NetworkLayout, BuildError>)
        requires
            self.wf(),
            2 * self.ft_out_size <= usize::MAX,
            ft_params(self) + self.size <= usize::MAX,
        ensures
            r is Ok <==> quantisation_count_ok(self) && products_fit(self.quantisations@),
            r == Err::<NetworkLayout, BuildError>(BuildError::QuantisationCount) <==> !quantisation_count_ok(self),
            r == Err::<NetworkLayout, BuildError>(BuildError::QuantisationOverflow) <==> quantisation_count_ok(self)
                && !products_fit(self.quantisations@),
            r is Ok ==> layout_matches(self, r->Ok_0),
    {
        let ghost b = self;
        let ghost ft = self.ft_out_size as nat;
        let ghost nodes = self.nodes@;
        let ghost q = self.quantisations@;
        let num_affine = count_affine(&self.nodes);
        let nq = self.quantisations.len();
        if nq != 0 && nq - 1 != num_affine {
            return Err(BuildError::QuantisationCount);
        }
        let ft_out = self.ft_out_size;
        let inp = self.input_size;
        assert(ft_out * inp + ft_out == (inp + 1) * ft_out) by (nonlinear_arith);
        let ft_w_len = ft_out * inp;
        let ft_size = ft_w_len + ft_out;
        let net_size = ft_size + self.size;
        let mut offset = ft_size;
        let mut layers: Vec<LayerLayout> = Vec::new();
        let mut quantiser: Vec<QuantiseInfo> = Vec::new();
        let mut qi: usize = 0;
        let mut accq: i16 = 1;
        if nq > 0 {
            quantiser.push(QuantiseInfo { val: self.quantisations[0], start: 0 });
            accq = self.quantisations[0];
            qi = 1;
            assert(scale_product(q, 1) == q[0] as int) by {
                assert(scale_product(q, 0) == 1);
            }
        }
        let mut inp_size = 2 * ft_out;
        let mut i: usize = 0;
        while i < self.nodes.len()
            invariant
                b == self,
                nodes == self.nodes@,
                q == self.quantisations@,
                ft == self.ft_out_size,
                nq == q.len(),
                self.wf(),
                ft_size == ft_params(self),
                net_size == ft_size + self.size,
                net_size <= usize::MAX,
                i <= nodes.len(),
                offset == layer_start(self, i as int),
                inp_size == layer_input(ft, nodes, i as int),
                quantisation_count_ok(self),
                num_affine == affine_before(nodes, nodes.len() as int),
                nq == 0 ==> quantiser@.len() == 0,
                nq > 0 ==> {
                    &&& qi == 1 + affine_before(nodes, i as int)
                    &&& accq as int == scale_product(q, qi as int)
                    &&& forall|k: int| 1 <= k <= qi ==> #[trigger] fits_i16(scale_product(q, k))
                    &&& quantiser@.len() == 1 + 2 * affine_before(nodes, i as int)
                    &&& quantiser@[0] == QuantiseInfo { val: q[0], start: 0 }
                    &&& forall|j: int|
                        0 <= j < i ==> #[trigger] quantiser_entries_ok(self, quantiser@, j)
                },
                layers@.len() == i,
                forall|j: int| 0 <= j < i ==> #[trigger] layers@[j] == expected_layer(self, j),
            decreases nodes.len() - i,
        {
            let node = self.nodes[i];
            proof {
                lemma_params_monotone(ft, nodes, i as int + 1, nodes.len() as int);
                assert(params_before(ft, nodes, i as int + 1) == params_before(ft, nodes, i as int)
                    + layer_params(ft, nodes, i as int));
            }
            let ghost qprev = quantiser@;
            let op = if node.op.is_affine() {
                proof {
                    assert((inp_size + 1) * node.size == inp_size * node.size + node.size)
                        by (nonlinear_arith);
                    assert(affine_before(nodes, i as int + 1) == affine_before(nodes, i as int) + 1);
                }
                let wlen = inp_size * node.size;
                let wstart = offset;
                if nq > 0 {
                    quantiser.push(QuantiseInfo { val: self.quantisations[qi], start: offset });
                }
                offset = offset + wlen;
                let bstart = offset;
                if nq > 0 {
                    match accq.checked_mul(self.quantisations[qi]) {
                        Some(v) => {
                            accq = v;
                            quantiser.push(QuantiseInfo { val: v, start: offset });
                            qi = qi + 1;
                        },
                        None => {
                            proof {
                                let k = qi as int + 1;
                                assert(scale_product(q, k) == scale_product(q, k - 1) * q[k - 1]);
                                assert(!fits_i16(scale_product(q, k)));
                            }
                            return Err(BuildError::QuantisationOverflow);
                        },
                    }
                }
                offset = offset + node.size;
                LayerOp::Affine {
                    weights: ParamRange { start: wstart, len: wlen },
                    biases: ParamRange { start: bstart, len: node.size },
                    weights_shape: Shape::new(inp_size, node.size),
                }
            } else {
                proof {
                    assert(affine_before(nodes, i as int + 1) == affine_before(nodes, i as int));
                }
                match node.op {
                    OpType::Activate(a) => LayerOp::Activate(a),
                    OpType::Affine => LayerOp::Activate(Activation::ReLU),
                }
            };
            layers.push(LayerLayout { outputs: Shape::new(1, node.size), op });
            proof {
                assert(layers@[i as int] == expected_layer(self, i as int));
                if nq > 0 {
                    assert forall|j: int| 0 <= j < i + 1 implies #[trigger] quantiser_entries_ok(
                        self,
                        quantiser@,
                        j,
                    ) by {
                        if j < i {
                            assert(quantiser_entries_ok(self, qprev, j));
                            if nodes[j].op is Affine {
                                lemma_params_monotone(ft, nodes, j + 1, i as int);
                            }
                        }
                    }
                }
            }
            inp_size = node.size;
            i = i + 1;
        }
        Ok(
            NetworkLayout {
                input_size: self.input_size,
                max_active: self.max_active,
                batch_size: self.batch_size,
                ft_out_size: ft_out,
                ft_weights: ParamRange { start: 0, len: ft_w_len },
                ft_biases: ParamRange { start: ft_w_len, len: ft_out },
                layers,
                quantiser,
                net_size,
            },
        )
    }
}

/// Quantisation factor of parameter `i`: that of the last entry starting at
/// or before `i`, or 0 when none does.
pub open spec fn scale_at(q: Seq<QuantiseInfo>, i: int) -> i16
    decreases q.len(),
{
    if q.len() == 0 {
        0
    } else if q.last().start <= i {
        q.last().val
    } else {
        scale_at(q.drop_last(), i)
    }
}

/// Entry starts never decrease.
pub open spec fn starts_sorted(q: Seq<QuantiseInfo>) -> bool {
    forall|a: int, b: int| 0 <= a <= b < q.len() ==> q[a].start <= q[b].start
}

proof fn lemma_scale_at(q: Seq<QuantiseInfo>, k: int, i: int)
    requires
        starts_sorted(q),
        0 <= k <= q.len(),
        forall|j: int| 0 <= j < k ==> q[j].start <= i,
        forall|j: int| k <= j < q.len() ==> q[j].start > i,
    ensures
        scale_at(q, i) == if k == 0 {
            0
        } else {
            q[k - 1].val
        },
    decreases q.len(),
{
    if q.len() > 0 && k < q.len() {
        let d = q.drop_last();
        assert(starts_sorted(d));
        lemma_scale_at(d, k, i);
    }
}

/// The factor by which each of `size` parameters is scaled on quantised
/// export; the entries must be in order of their starts.
pub fn quantisation_scales(quantiser: &Vec<QuantiseInfo>, size: usize) -> (r: Vec<i16>)
    requires
        starts_sorted(quantiser@),
    ensures
        r@.len() == size,
        forall|i: int| 0 <= i < size ==> #[trigger] r@[i] == scale_at(quantiser@, i),
{
    let q = quantiser;
    let mut out: Vec<i16> = Vec::new();
    let mut k: usize = 0;
    let mut i: usize = 0;
    while i < size
        invariant
            starts_sorted(q@),
            i <= size,
            k <= q@.len(),
            out@.len() == i,
            forall|j: int| 0 <= j < k ==> q@[j].start < i || (i == 0 && q@[j].start == 0),
            forall|j: int| k <= j < q@.len() ==> q@[j].start >= i,
            forall|j: int| 0 <= j < i ==> #[trigger] out@[j] == scale_at(q@, j),
        decreases size - i,
    {
        while k < q.len() && q[k].start <= i
            invariant
                starts_sorted(q@),
                k <= q@.len(),
                forall|j: int| 0 <= j < k ==> q@[j].start <= i,
                forall|j: int| k <= j < q@.len() ==> q@[j].start >= i,
            decreases q@.len() - k,
        {
            k = k + 1;
        }
        proof {
            assert forall|j: int| k <= j < q@.len() implies q@[j].start > i by {
                assert(q@[k as int].start <= q@[j].start);
            }
            lemma_scale_at(q@, k as int, i as int);
        }
        let v = if k == 0 {
            0
        } else {
            q[k - 1].val
        };
        out.push(v);
        i = i + 1;
    }
    out
}

/// One step of a training iteration.
#[derive(Clone, Copy, Debug, PartialEq, Eq, Structural)]
pub enum Step {
    ZeroGradients,
    SparseForward,
    LayerForward(usize),
    Loss,
    LayerBackward(usize),
    SparseBackward,
    Update,
}

/// The order of one training step over `num_layers` layers after the feature
/// transformer: clear gradients, the sparse affine then each layer forward,
/// the loss, each layer backward in reverse order then the sparse affine
/// backward, and last the optimiser update.
pub fn training_plan(num_layers: usize) -> (r: Vec<Step>)
    requires
        2 * num_layers + 5 <= usize::MAX,
    ensures
        r@.len() == 2 * num_layers + 5,
        r@[0] == Step::ZeroGradients,
        r@[1] == Step::SparseForward,
        forall|i: int| 0 <= i < num_layers ==> #[trigger] r@[2 + i] == Step::LayerForward(i as usize),
        r@[2 + num_layers] == Step::Loss,
        forall|i: int|
            0 <= i < num_layers ==> #[trigger] r@[3 + num_layers + i] == Step::LayerBackward(
                (num_layers - 1 - i) as usize,
            ),
        r@[3 + 2 * num_layers] == Step::SparseBackward,
        r@[4 + 2 * num_layers] == Step::Update,
{
    let mut plan: Vec<Step> = Vec::new();
    plan.push(Step::ZeroGradients);
    plan.push(Step::SparseForward);
    let mut i: usize = 0;
    while i < num_layers
        invariant
            i <= num_layers,
            plan@.len() == 2 + i,
            plan@[0] == Step::ZeroGradients,
            plan@[1] == Step::SparseForward,
            forall|j: int| 0 <= j < i ==> #[trigger] plan@[2 + j] == Step::LayerForward(j as usize),
        decreases num_layers - i,
    {
        plan.push(Step::LayerForward(i));
        i = i + 1;
    }
    plan.push(Step::Loss);
    let mut k: usize = num_layers;
    while k > 0
        invariant
            k <= num_layers,
            2 * num_layers + 5 <= usize::MAX,
            plan@.len() == 3 + num_layers + (num_layers - k),
            plan@[0] == Step::ZeroGradients,
            plan@[1] == Step::SparseForward,
            forall|j: int| 0 <= j < num_layers ==> #[trigger] plan@[2 + j] == Step::LayerForward(j as usize),
            plan@[2 + num_layers] == Step::Loss,
            forall|j: int|
                0 <= j < num_layers - k ==> #[trigger] plan@[3 + num_layers + j] == Step::LayerBackward(
                    (num_layers - 1 - j) as usize,
                ),
        decreases k,
    {
        plan.push(Step::LayerBackward(k - 1));
        k = k - 1;
    }
    plan.push(Step::SparseBackward);
    plan.push(Step::Update);
    plan
}

/// The parameter counts of a prefix of layers depend on that prefix alone.
proof fn lemma_params_prefix(ft: nat, a: Seq<NodeType>, b: Seq<NodeType>, i: int)
    requires
        0 <= i <= a.len(),
        i <= b.len(),
        forall|j: int| 0 <= j < i ==> a[j] == b[j],
    ensures
        params_before(ft, a, i) == params_before(ft, b, i),
        affine_before(a, i) == affine_before(b, i),
    decreases i,
{
    if i > 0 {
        lemma_params_prefix(ft, a, b, i - 1);
        assert(layer_input(ft, a, i - 1) == layer_input(ft, b, i - 1));
    }
}

/// Parameter counts only grow along the layers.
proof fn lemma_params_monotone(ft: nat, nodes: Seq<NodeType>, i: int, j: int)
    requires
        0 <= i <= j,
    ensures
        params_before(ft, nodes, i) <= params_before(ft, nodes, j),
        affine_before(nodes, i) <= affine_before(nodes, j),
    decreases j,
{
    if i < j {
        lemma_params_monotone(ft, nodes, i, j - 1);
    }
}

} // verus!
