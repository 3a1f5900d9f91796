//! The structural description of a network and the graph that is built and
//! validated from it.

use vstd::prelude::*;
use vstd::set_lib::{lemma_int_range, lemma_len_subset, set_int_range};

use crate::error::NetError;
use crate::layer::{
    spec_create_by_type_name, BlobSlot, Layer, LayerKindView, LayerRegistry, LayerShape,
    LayerView,
};
use crate::mat::{Mat, MatView, MAX_DIMENSION};

verus! {

/// What a topology says of one layer.
pub struct LayerDescView {
    pub kind_name: Seq<char>,
    pub name: Seq<char>,
    pub bottoms: Seq<BlobSlot>,
    pub tops: Seq<BlobSlot>,
    pub weight_shape: LayerShape,
}

/// One layer of a topology: the name of its kind, its instance name, the
/// blobs it reads and writes with the shapes declared for them, and the shape
/// that its weight block must have.
#[derive(Debug)]
pub struct LayerDesc {
    pub kind_name: String,
    pub name: String,
    pub bottoms: Vec<BlobSlot>,
    pub tops: Vec<BlobSlot>,
    pub weight_shape: LayerShape,
}

impl View for LayerDesc {
    type V = LayerDescView;

    open spec fn view(&self) -> LayerDescView {
        LayerDescView {
            kind_name: self.kind_name@,
            name: self.name@,
            bottoms: self.bottoms@,
            tops: self.tops@,
            weight_shape: self.weight_shape,
        }
    }
}

/// What a topology says: the names of the blobs, by index, and the layers in
/// the order in which they are declared.
pub struct TopologyView {
    pub blobs: Seq<Seq<char>>,
    pub layers: Seq<LayerDescView>,
}

/// The structural description of a network. A blob without a name has the
/// empty name.
#[derive(Debug)]
pub struct Topology {
    pub blobs: Vec<String>,
    pub layers: Vec<LayerDesc>,
}

impl View for Topology {
    type V = TopologyView;

    open spec fn view(&self) -> TopologyView {
        TopologyView {
            blobs: Seq::new(self.blobs@.len(), |b: int| self.blobs@[b]@),
            layers: Seq::new(self.layers@.len(), |l: int| self.layers@[l]@),
        }
    }
}

/// What a blob of a graph is: its name and the layer that writes it, where
/// there is one.
pub struct BlobView {
    pub name: Seq<char>,
    pub producer: Option<int>,
}

/// What a graph is: its layers and its blobs.
pub struct GraphView {
    pub layers: Seq<LayerView>,
    pub blobs: Seq<BlobView>,
}

impl GraphView {
    /// The graph without layers and blobs.
    pub open spec fn empty() -> GraphView {
        GraphView { layers: Seq::empty(), blobs: Seq::empty() }
    }

    /// The blob that layer `l` reads at input `i`.
    pub open spec fn bottom(self, l: int, i: int) -> int {
        self.layers[l].bottoms[i].index as int
    }

    /// The blob that layer `l` writes at output `i`.
    pub open spec fn top(self, l: int, i: int) -> int {
        self.layers[l].tops[i].index as int
    }

    /// Whether `(l, i)` is an input of the graph.
    pub open spec fn is_bottom(self, l: int, i: int) -> bool {
        0 <= l < self.layers.len() && 0 <= i < self.layers[l].bottoms.len()
    }

    /// Whether `(l, i)` is an output of the graph.
    pub open spec fn is_top(self, l: int, i: int) -> bool {
        0 <= l < self.layers.len() && 0 <= i < self.layers[l].tops.len()
    }

    /// Every blob that a layer names exists, the producer of a blob is the
    /// one layer that writes it, and a layer writes a blob at one output
    /// only.
    pub open spec fn linked(self) -> bool {
        &&& self.layers.len() <= MAX_DIMENSION
        &&& self.blobs.len() <= MAX_DIMENSION
        &&& forall|l: int| 0 <= l < self.layers.len() ==> (#[trigger] self.layers[l]).wf()
        &&& forall|l: int, i: int| #[trigger]
            self.is_bottom(l, i) ==> 0 <= self.bottom(l, i) < self.blobs.len()
        &&& forall|l: int, i: int| #[trigger]
            self.is_top(l, i) ==> 0 <= self.top(l, i) < self.blobs.len()
        &&& forall|l: int, i: int| #[trigger]
            self.is_top(l, i) ==> self.blobs[self.top(l, i)].producer == Some(l)
        &&& forall|l: int, i: int, j: int|
            #![trigger self.is_top(l, i), self.is_top(l, j)]
            self.is_top(l, i) && self.is_top(l, j) && self.top(l, i) == self.top(l, j) ==> i == j
        &&& forall|b: int|
            0 <= b < self.blobs.len() ==> ((#[trigger] self.blobs[b]).producer matches Some(l)
                ==> 0 <= l < self.layers.len() && self.layers[l].produces(b))
    }

    /// Whether layer `l` reads, at input `i`, a blob that layer `p` writes.
    pub open spec fn feeds(self, p: int, l: int, i: int) -> bool {
        self.is_bottom(l, i) && self.blobs[self.bottom(l, i)].producer == Some(p)
    }

    /// Whether `rank` orders the layers by their data dependencies: a layer
    /// ranks above every layer whose output it reads.
    pub open spec fn ranked(self, rank: Seq<nat>) -> bool {
        &&& rank.len() == self.layers.len()
        &&& forall|p: int, l: int, i: int| #[trigger] self.feeds(p, l, i) ==> rank[p] < rank[l]
    }

    /// Whether layer `l` depends on layer `p`: it reads a blob that `p`
    /// writes.
    pub open spec fn depends(self, p: int, l: int) -> bool {
        exists|i: int| self.feeds(p, l, i)
    }

    /// Whether entry `k` of a chain of layers depends on the entry before
    /// it.
    pub open spec fn link(self, chain: Seq<int>, k: int) -> bool {
        self.depends(chain[k - 1], chain[k])
    }

    /// Whether every layer of a chain depends on the layer before it.
    pub open spec fn chained(self, chain: Seq<int>) -> bool {
        forall|k: int| 0 < k < chain.len() ==> #[trigger] self.link(chain, k)
    }

    /// Whether a chain of dependencies leads from a layer back to itself.
    pub open spec fn cycle(self, chain: Seq<int>) -> bool {
        chain.len() >= 2 && self.chained(chain) && chain.first() == chain.last()
    }

    /// Whether the data dependencies between the layers are free of cycles.
    pub open spec fn acyclic(self) -> bool {
        forall|chain: Seq<int>| !self.cycle(chain)
    }

    /// The invariant of a graph.
    pub open spec fn wf(self) -> bool {
        self.linked() && self.acyclic()
    }

    /// Whether every layer holds weights of the shape declared for it.
    pub open spec fn loaded(self) -> bool {
        forall|l: int|
            0 <= l < self.layers.len() ==> (#[trigger] self.layers[l]).weight_shape.fits(
                self.layers[l].weights,
            )
    }
}

/// The index of the first slot from `from` on whose blob does not exist
/// among `count` blobs.
pub open spec fn first_stray(slots: Seq<BlobSlot>, count: nat, from: int) -> Option<u32>
    decreases slots.len() - from,
{
    if from < 0 || from >= slots.len() {
        None
    } else if slots[from].index >= count {
        Some(slots[from].index)
    } else {
        first_stray(slots, count, from + 1)
    }
}

/// Whether blob `b` is written by an output that the topology declares
/// before output `t` of layer `l`.
pub open spec fn written_before(topo: TopologyView, l: int, t: int, b: int) -> bool {
    exists|k: int, s: int|
        0 <= k <= l && k < topo.layers.len() && 0 <= s < topo.layers[k].tops.len() && (k < l || s
            < t) && (#[trigger] topo.layers[k].tops[s]).index == b
}

/// What is wrong with the first output of layer `l` from `from` on that is
/// not in order: its blob does not exist, or the blob is written already.
pub open spec fn top_fault(topo: TopologyView, l: int, from: int) -> Option<NetError>
    decreases topo.layers[l].tops.len() - from,
{
    let tops = topo.layers[l].tops;
    if from < 0 || from >= tops.len() {
        None
    } else if tops[from].index >= topo.blobs.len() {
        Some(NetError::BlobOutOfRange { layer: l as u32, blob: tops[from].index })
    } else if written_before(topo, l, from, tops[from].index as int) {
        Some(NetError::DuplicateProducer { layer: l as u32, blob: tops[from].index })
    } else {
        top_fault(topo, l, from + 1)
    }
}

/// What is wrong with layer `l` of a topology, where something is: its kind
/// cannot be made, it has more inputs or outputs than can be counted, or one
/// of its inputs, and failing that of its outputs, is not in order.
pub open spec fn layer_fault(kinds: Seq<LayerKindView>, topo: TopologyView, l: int) -> Option<
    NetError,
> {
    let desc = topo.layers[l];
    match spec_create_by_type_name(kinds, desc.kind_name) {
        Err(cause) => Some(NetError::Layer { layer: l as u32, cause }),
        Ok(_) => if desc.bottoms.len() > MAX_DIMENSION || desc.tops.len() > MAX_DIMENSION {
            Some(NetError::TooLarge)
        } else if let Some(blob) = first_stray(desc.bottoms, topo.blobs.len(), 0) {
            Some(NetError::BlobOutOfRange { layer: l as u32, blob })
        } else {
            top_fault(topo, l, 0)
        },
    }
}

/// What is wrong with the first layer from `from` on with which something is.
pub open spec fn first_fault(kinds: Seq<LayerKindView>, topo: TopologyView, from: int) -> Option<
    NetError,
>
    decreases topo.layers.len() - from,
{
    if from < 0 || from >= topo.layers.len() {
        None
    } else if let Some(e) = layer_fault(kinds, topo, from) {
        Some(e)
    } else {
        first_fault(kinds, topo, from + 1)
    }
}

/// Whether layer `l` of the topology writes blob `b`.
pub open spec fn writes(topo: TopologyView, l: int, b: int) -> bool {
    0 <= l < topo.layers.len() && exists|s: int|
        0 <= s < topo.layers[l].tops.len() && (#[trigger] topo.layers[l].tops[s]).index == b
}

/// The layer of the topology that writes blob `b`, where there is one.
pub open spec fn producer_of(topo: TopologyView, b: int) -> Option<int> {
    if exists|l: int| writes(topo, l, b) {
        Some(choose|l: int| writes(topo, l, b))
    } else {
        None
    }
}

/// The layer that the registry makes for a layer of the topology.
pub open spec fn layer_of(kinds: Seq<LayerKindView>, desc: LayerDescView) -> LayerView {
    LayerView {
        name: desc.name,
        bottoms: desc.bottoms,
        tops: desc.tops,
        weight_shape: desc.weight_shape,
        ..spec_create_by_type_name(kinds, desc.kind_name)->Ok_0
    }
}

/// The graph that a topology describes.
pub open spec fn graph_of(kinds: Seq<LayerKindView>, topo: TopologyView) -> GraphView {
    GraphView {
        layers: Seq::new(topo.layers.len(), |l: int| layer_of(kinds, topo.layers[l])),
        blobs: Seq::new(
            topo.blobs.len(),
            |b: int| BlobView { name: topo.blobs[b], producer: producer_of(topo, b) },
        ),
    }
}

/// What loading a topology gives: the graph it describes, or what is wrong
/// with it. A topology is refused where it is too large to be indexed, where
/// something is wrong with one of its layers, and where its layers depend on
/// each other in a cycle.
pub open spec fn spec_load_topology(kinds: Seq<LayerKindView>, topo: TopologyView) -> Result<
    GraphView,
    NetError,
> {
    if topo.blobs.len() > MAX_DIMENSION || topo.layers.len() > MAX_DIMENSION {
        Err(NetError::TooLarge)
    } else if let Some(e) = first_fault(kinds, topo, 0) {
        Err(e)
    } else if !graph_of(kinds, topo).acyclic() {
        Err(NetError::CyclicDependency)
    } else {
        Ok(graph_of(kinds, topo))
    }
}

/// Where no slot from `from` on is stray, every blob named from there on
/// exists.
pub proof fn lemma_no_stray(slots: Seq<BlobSlot>, count: nat, from: int)
    requires
        0 <= from,
        first_stray(slots, count, from) is None,
    ensures
        forall|i: int| from <= i < slots.len() ==> (#[trigger] slots[i]).index < count,
    decreases slots.len() - from,
{
    if from < slots.len() {
        lemma_no_stray(slots, count, from + 1);
    }
}

/// Where no output of layer `l` from `from` on is at fault, every blob
/// written from there on exists and is written by no earlier output.
pub proof fn lemma_no_top_fault(topo: TopologyView, l: int, from: int)
    requires
        0 <= from,
        top_fault(topo, l, from) is None,
    ensures
        forall|s: int|
            from <= s < topo.layers[l].tops.len() ==> (#[trigger] topo.layers[l].tops[s]).index
                < topo.blobs.len() && !written_before(
                topo,
                l,
                s,
                topo.layers[l].tops[s].index as int,
            ),
    decreases topo.layers[l].tops.len() - from,
{
    if from < topo.layers[l].tops.len() {
        lemma_no_top_fault(topo, l, from + 1);
    }
}

/// Whether nothing is wrong with any layer of the topology.
pub open spec fn faultless(kinds: Seq<LayerKindView>, topo: TopologyView) -> bool {
    forall|l: int| 0 <= l < topo.layers.len() ==> layer_fault(kinds, topo, l) is None
}

/// In a topology with whose layers nothing is wrong, a blob has at most one
/// layer that writes it.
pub proof fn lemma_one_writer(
    kinds: Seq<LayerKindView>,
    topo: TopologyView,
    k1: int,
    k2: int,
    b: int,
)
    requires
        faultless(kinds, topo),
        writes(topo, k1, b),
        writes(topo, k2, b),
    ensures
        k1 == k2,
{
    let s1 = choose|s: int|
        0 <= s < topo.layers[k1].tops.len() && (#[trigger] topo.layers[k1].tops[s]).index == b;
    let s2 = choose|s: int|
        0 <= s < topo.layers[k2].tops.len() && (#[trigger] topo.layers[k2].tops[s]).index == b;
    assert(layer_fault(kinds, topo, k1) is None);
    assert(layer_fault(kinds, topo, k2) is None);
    lemma_no_top_fault(topo, k1, 0);
    lemma_no_top_fault(topo, k2, 0);
    if k1 < k2 {
        assert(topo.layers[k1].tops[s1].index == b);
        assert(written_before(topo, k2, s2, b));
        assert(!written_before(topo, k2, s2, topo.layers[k2].tops[s2].index as int));
    } else if k2 < k1 {
        assert(topo.layers[k2].tops[s2].index == b);
        assert(written_before(topo, k1, s1, b));
        assert(!written_before(topo, k1, s1, topo.layers[k1].tops[s1].index as int));
    }
}

/// The graph of a topology that is small enough and with whose layers
/// nothing is wrong is linked.
pub proof fn lemma_graph_linked(kinds: Seq<LayerKindView>, topo: TopologyView)
    requires
        topo.blobs.len() <= MAX_DIMENSION,
        topo.layers.len() <= MAX_DIMENSION,
        faultless(kinds, topo),
    ensures
        graph_of(kinds, topo).linked(),
{
    let g = graph_of(kinds, topo);
    assert forall|l: int| 0 <= l < g.layers.len() implies (#[trigger] g.layers[l]).wf() by {
        assert(layer_fault(kinds, topo, l) is None);
    }
    assert forall|l: int, i: int| #[trigger] g.is_bottom(l, i) implies 0 <= g.bottom(l, i)
        < g.blobs.len() by {
        assert(layer_fault(kinds, topo, l) is None);
        lemma_no_stray(topo.layers[l].bottoms, topo.blobs.len(), 0);
        assert(topo.layers[l].bottoms[i].index < topo.blobs.len());
    }
    assert forall|l: int, i: int| #[trigger] g.is_top(l, i) implies 0 <= g.top(l, i)
        < g.blobs.len() && g.blobs[g.top(l, i)].producer == Some(l) by {
        assert(layer_fault(kinds, topo, l) is None);
        lemma_no_top_fault(topo, l, 0);
        let b = topo.layers[l].tops[i].index as int;
        assert(writes(topo, l, b));
        let k = choose|k: int| writes(topo, k, b);
        lemma_one_writer(kinds, topo, k, l, b);
    }
    assert forall|l: int, i: int, j: int|
        #![trigger g.is_top(l, i), g.is_top(l, j)]
        g.is_top(l, i) && g.is_top(l, j) && g.top(l, i) == g.top(l, j) implies i == j by {
        assert(layer_fault(kinds, topo, l) is None);
        lemma_no_top_fault(topo, l, 0);
        let b = topo.layers[l].tops[i].index as int;
        if i < j {
            assert(topo.layers[l].tops[i].index == b);
            assert(written_before(topo, l, j, b));
            assert(!written_before(topo, l, j, topo.layers[l].tops[j].index as int));
        } else if j < i {
            assert(topo.layers[l].tops[j].index == b);
            assert(written_before(topo, l, i, b));
            assert(!written_before(topo, l, i, topo.layers[l].tops[i].index as int));
        }
    }
    assert forall|b: int| 0 <= b < g.blobs.len() implies ((#[trigger] g.blobs[b]).producer matches Some(
        l,
    ) ==> 0 <= l < g.layers.len() && g.layers[l].produces(b)) by {
        if g.blobs[b].producer is Some {
            let l = choose|l: int| writes(topo, l, b);
            assert(writes(topo, l, b));
            let s = choose|s: int|
                0 <= s < topo.layers[l].tops.len() && (#[trigger] topo.layers[l].tops[s]).index
                    == b;
            assert(g.layers[l].tops[s].index == b);
        }
    }
}

/// What the producer marks hold once the outputs before output `t` of layer
/// `l` are linked: a blob is marked where one of them writes it, with a
/// layer that writes it.
pub open spec fn marked(topo: TopologyView, marks: Seq<Option<u32>>, l: int, t: int) -> bool {
    &&& marks.len() == topo.blobs.len()
    &&& forall|b: int|
        0 <= b < marks.len() ==> ((#[trigger] marks[b]) is Some <==> written_before(topo, l, t, b))
    &&& forall|b: int|
        0 <= b < marks.len() ==> ((#[trigger] marks[b]) matches Some(k) ==> writes(
            topo,
            k as int,
            b,
        ))
}

/// A blob of a graph: its name and the layer that writes it.
#[derive(Debug)]
pub struct Blob {
    name: String,
    producer: Option<u32>,
}

impl View for Blob {
    type V = BlobView;

    closed spec fn view(&self) -> BlobView {
        BlobView {
            name: self.name@,
            producer: match self.producer {
                Some(l) => Some(l as int),
                None => None,
            },
        }
    }
}

/// The layers and blobs of a network, ranked by their data dependencies.
#[derive(Debug)]
pub struct Graph {
    layers: Vec<Layer>,
    blobs: Vec<Blob>,
    rank: Vec<u32>,
}

impl View for Graph {
    type V = GraphView;

    closed spec fn view(&self) -> GraphView {
        graph_view(self.layers@, self.blobs@)
    }
}

/// The view of a graph that was built, or the error in its place.
pub open spec fn made_graph(r: Result<Graph, NetError>) -> Result<GraphView, NetError> {
    match r {
        Ok(g) => Ok(g@),
        Err(e) => Err(e),
    }
}

/// The first slot whose blob does not exist among `count` blobs, computed.
fn first_stray_slot(slots: &Vec<BlobSlot>, count: usize) -> (r: Option<u32>)
    ensures
        r == first_stray(slots@, count as nat, 0),
{
    let mut i: usize = 0;
    while i < slots.len()
        invariant
            i <= slots@.len(),
            first_stray(slots@, count as nat, 0) == first_stray(slots@, count as nat, i as int),
        decreases slots@.len() - i,
    {
        if slots[i].index as usize >= count {
            return Some(slots[i].index);
        }
        i = i + 1;
    }
    None
}

/// Links the outputs of layer `l`: marks every blob they write.
fn link_tops(topo: &Topology, l: usize, marks: &mut Vec<Option<u32>>) -> (r: Result<(), NetError>)
    requires
        l < topo@.layers.len() <= MAX_DIMENSION,
        marked(topo@, old(marks)@, l as int, 0),
    ensures
        match r {
            Ok(()) => top_fault(topo@, l as int, 0) is None && marked(
                topo@,
                final(marks)@,
                l + 1,
                0,
            ),
            Err(e) => top_fault(topo@, l as int, 0) == Some(e),
        },
{
    let tops: &Vec<BlobSlot> = &topo.layers[l].tops;
    let mut t: usize = 0;
    while t < tops.len()
        invariant
            t <= tops@.len(),
            l < topo@.layers.len() <= MAX_DIMENSION,
            tops@ == topo@.layers[l as int].tops,
            marked(topo@, marks@, l as int, t as int),
            top_fault(topo@, l as int, 0) == top_fault(topo@, l as int, t as int),
        decreases tops@.len() - t,
    {
        let blob: u32 = tops[t].index;
        if blob as usize >= marks.len() {
            return Err(NetError::BlobOutOfRange { layer: l as u32, blob });
        }
        if marks[blob as usize].is_some() {
            return Err(NetError::DuplicateProducer { layer: l as u32, blob });
        }
        let ghost before = marks@;
        marks.set(blob as usize, Some(l as u32));
        proof {
            let tv = topo@;
            assert(tv.layers[l as int].tops[t as int].index == blob);
            assert(writes(tv, l as int, blob as int));
            assert forall|b: int| 0 <= b < marks@.len() implies ((#[trigger] marks@[b]) is Some
                <==> written_before(tv, l as int, t + 1, b)) by {
                if b == blob {
                    assert(written_before(tv, l as int, t + 1, b));
                } else {
                    assert(marks@[b] == before[b]);
                    if written_before(tv, l as int, t + 1, b) {
                        let (k, s) = choose|k: int, s: int|
                            0 <= k <= l && k < tv.layers.len() && 0 <= s < tv.layers[k].tops.len()
                                && (k < l || s < t + 1) && (#[trigger] tv.layers[k].tops[s]).index
                                == b;
                        assert(tv.layers[k].tops[s].index == b);
                        assert(k < l || s < t);
                        assert(written_before(tv, l as int, t as int, b));
                    }
                    if written_before(tv, l as int, t as int, b) {
                        let (k, s) = choose|k: int, s: int|
                            0 <= k <= l && k < tv.layers.len() && 0 <= s < tv.layers[k].tops.len()
                                && (k < l || s < t) && (#[trigger] tv.layers[k].tops[s]).index == b;
                        assert(tv.layers[k].tops[s].index == b);
                        assert(written_before(tv, l as int, t + 1, b));
                    }
                }
            }
        }
        t = t + 1;
    }
    proof {
        let tv = topo@;
        assert forall|b: int| 0 <= b < marks@.len() implies ((#[trigger] marks@[b]) is Some
            <==> written_before(tv, l + 1, 0, b)) by {
            if written_before(tv, l + 1, 0, b) {
                let (k, s) = choose|k: int, s: int|
                    0 <= k <= l + 1 && k < tv.layers.len() && 0 <= s < tv.layers[k].tops.len() && (k
                        < l + 1 || s < 0) && (#[trigger] tv.layers[k].tops[s]).index == b;
                assert(tv.layers[k].tops[s].index == b);
                assert(written_before(tv, l as int, t as int, b));
            }
            if written_before(tv, l as int, t as int, b) {
                let (k, s) = choose|k: int, s: int|
                    0 <= k <= l && k < tv.layers.len() && 0 <= s < tv.layers[k].tops.len() && (k < l
                        || s < t) && (#[trigger] tv.layers[k].tops[s]).index == b;
                assert(tv.layers[k].tops[s].index == b);
                assert(written_before(tv, l + 1, 0, b));
            }
        }
    }
    Ok(())
}

/// The graph that layers and blobs make up.
pub open spec fn graph_view(layers: Seq<Layer>, blobs: Seq<Blob>) -> GraphView {
    GraphView {
        layers: Seq::new(layers.len(), |l: int| layers[l]@),
        blobs: Seq::new(blobs.len(), |b: int| blobs[b]@),
    }
}

/// Ranks as numbers.
pub open spec fn ranks(rank: Seq<u32>) -> Seq<nat> {
    Seq::new(rank.len(), |l: int| rank[l] as nat)
}

/// Whether input `i` of layer `l` reads the output of a layer that is not
/// done.
pub open spec fn blocked_at(g: GraphView, done: Seq<bool>, l: int, i: int) -> bool {
    g.is_bottom(l, i) && (g.blobs[g.bottom(l, i)].producer matches Some(p) && !done[p])
}

/// Whether layer `l` reads the output of a layer that is not done.
pub open spec fn blocked(g: GraphView, done: Seq<bool>, l: int) -> bool {
    exists|i: int| blocked_at(g, done, l, i)
}

/// Whether every layer that is not done is blocked by another that is not
/// done.
pub open spec fn stuck(g: GraphView, done: Seq<bool>) -> bool {
    &&& done.len() == g.layers.len()
    &&& forall|l: int| 0 <= l < done.len() && !(#[trigger] done[l]) ==> blocked(g, done, l)
}

/// Along a chain of dependencies the ranks rise.
proof fn lemma_ranks_rise(g: GraphView, rank: Seq<nat>, chain: Seq<int>, k: int)
    requires
        g.ranked(rank),
        g.chained(chain),
        0 < k < chain.len(),
    ensures
        rank[chain[0]] < rank[chain[k]],
    decreases k,
{
    assert(g.link(chain, k));
    let p = chain[k - 1];
    let l = chain[k];
    let i = choose|i: int| #[trigger] g.feeds(p, l, i);
    assert(g.feeds(p, l, i));
    if k > 1 {
        lemma_ranks_rise(g, rank, chain, k - 1);
    }
}

/// A graph whose layers can be ranked is free of cycles.
pub proof fn lemma_ranked_is_acyclic(g: GraphView, rank: Seq<nat>)
    requires
        g.ranked(rank),
    ensures
        g.acyclic(),
{
    assert forall|chain: Seq<int>| !g.cycle(chain) by {
        if g.cycle(chain) {
            lemma_ranks_rise(g, rank, chain, chain.len() - 1);
        }
    }
}

/// A layer that blocks layer `l`, where `l` is blocked.
pub open spec fn blocker(g: GraphView, done: Seq<bool>, l: int) -> int {
    let i = choose|i: int| blocked_at(g, done, l, i);
    g.blobs[g.bottom(l, i)].producer->0
}

/// The layer reached from `l` by going `k` times from a layer to one that
/// blocks it.
pub open spec fn back(g: GraphView, done: Seq<bool>, l: int, k: nat) -> int
    decreases k,
{
    if k == 0 {
        l
    } else {
        blocker(g, done, back(g, done, l, (k - 1) as nat))
    }
}

/// In a stuck graph, every layer reached by going back from a layer that is
/// not done is a layer that is not done, and the layer before it on the way
/// depends on it.
proof fn lemma_back(g: GraphView, done: Seq<bool>, l: int, k: nat)
    requires
        g.linked(),
        stuck(g, done),
        0 <= l < g.layers.len(),
        !done[l],
    ensures
        0 <= back(g, done, l, k) < g.layers.len(),
        !done[back(g, done, l, k)],
        k > 0 ==> g.depends(back(g, done, l, k), back(g, done, l, (k - 1) as nat)),
    decreases k,
{
    if k > 0 {
        lemma_back(g, done, l, (k - 1) as nat);
        let at = back(g, done, l, (k - 1) as nat);
        assert(blocked(g, done, at));
        let i = choose|i: int| blocked_at(g, done, at, i);
        let b = g.bottom(at, i);
        assert(0 <= b < g.blobs.len());
        let p = g.blobs[b].producer->0;
        assert(g.feeds(p, at, i));
    }
}

/// Among more numbers than `n`, all of them in `0..n`, two are the same.
proof fn lemma_two_the_same(s: Seq<int>, n: int)
    requires
        0 <= n < s.len(),
        forall|i: int| 0 <= i < s.len() ==> 0 <= #[trigger] s[i] < n,
    ensures
        exists|a: int, b: int| 0 <= a < b < s.len() && s[a] == s[b],
{
    if s.no_duplicates() {
        s.unique_seq_to_set();
        lemma_int_range(0, n);
        assert(s.to_set().subset_of(set_int_range(0, n))) by {
            assert forall|v: int| s.to_set().contains(v) implies set_int_range(0, n).contains(
                v,
            ) by {
                let i = choose|i: int| 0 <= i < s.len() && s[i] == v;
                assert(0 <= s[i] < n);
            }
        }
        lemma_len_subset(s.to_set(), set_int_range(0, n));
    } else {
        let (i, j) = choose|i: int, j: int|
            0 <= i < s.len() && 0 <= j < s.len() && i != j && s[i] == s[j];
        if i < j {
            assert(0 <= i < j < s.len() && s[i] == s[j]);
        } else {
            assert(0 <= j < i < s.len() && s[j] == s[i]);
        }
    }
}

/// A graph in which layers that are not done block each other has a cycle:
/// going back from a layer that is not done, from a layer to one that blocks
/// it, comes by the same layer twice.
pub proof fn lemma_stuck_is_cyclic(g: GraphView, done: Seq<bool>, l: int)
    requires
        g.linked(),
        stuck(g, done),
        0 <= l < g.layers.len(),
        !done[l],
    ensures
        !g.acyclic(),
{
    let n = g.layers.len() as int;
    let walk = Seq::new((n + 1) as nat, |k: int| back(g, done, l, k as nat));
    assert forall|k: int| 0 <= k < walk.len() implies 0 <= #[trigger] walk[k] < n by {
        lemma_back(g, done, l, k as nat);
    }
    lemma_two_the_same(walk, n);
    let (a, b) = choose|a: int, b: int| 0 <= a < b < walk.len() && walk[a] == walk[b];
    let chain = Seq::new((b - a + 1) as nat, |k: int| walk[b - k]);
    assert forall|k: int| 0 < k < chain.len() implies #[trigger] g.link(chain, k) by {
        lemma_back(g, done, l, (b - k + 1) as nat);
        assert(chain[k - 1] == back(g, done, l, (b - k + 1) as nat));
        assert(chain[k] == back(g, done, l, (b - k) as nat));
    }
    assert(chain.first() == walk[b]);
    assert(chain.last() == walk[a]);
    assert(g.cycle(chain));
}

/// Number of layers that are not done.
pub open spec fn pending(done: Seq<bool>) -> nat
    decreases done.len(),
{
    if done.len() == 0 {
        0
    } else {
        pending(done.drop_last()) + if done.last() {
            0nat
        } else {
            1nat
        }
    }
}

/// Marking a layer done leaves one layer less pending.
pub proof fn lemma_pending_update(done: Seq<bool>, l: int)
    requires
        0 <= l < done.len(),
        !done[l],
    ensures
        pending(done.update(l, true)) + 1 == pending(done),
    decreases done.len(),
{
    let after = done.update(l, true);
    if l == done.len() - 1 {
        assert(after.drop_last() =~= done.drop_last());
    } else {
        assert(after.drop_last() =~= done.drop_last().update(l, true));
        lemma_pending_update(done.drop_last(), l);
    }
}

/// Where nothing is pending, every layer is done.
proof fn lemma_pending_none(done: Seq<bool>)
    requires
        pending(done) == 0,
    ensures
        forall|l: int| 0 <= l < done.len() ==> done[l],
    decreases done.len(),
{
    if done.len() > 0 {
        lemma_pending_none(done.drop_last());
        assert forall|l: int| 0 <= l < done.len() implies done[l] by {
            if l < done.len() - 1 {
                assert(done.drop_last()[l] == done[l]);
            }
        }
    }
}

/// Whether the layers done so far are ranked below `bound` and above the
/// layers they read from, which are done too.
pub open spec fn ranked_so_far(g: GraphView, done: Seq<bool>, rank: Seq<u32>, bound: int) -> bool {
    &&& done.len() == g.layers.len()
    &&& rank.len() == g.layers.len()
    &&& forall|l: int| 0 <= l < done.len() && #[trigger] done[l] ==> rank[l] < bound
    &&& forall|p: int, l: int, i: int| #[trigger]
        g.feeds(p, l, i) && done[l] ==> done[p] && rank[p] < rank[l]
}

/// Whether no input of layer `l` waits for a layer that is not done.
fn ready(layers: &Vec<Layer>, blobs: &Vec<Blob>, done: &Vec<bool>, l: usize) -> (r: bool)
    requires
        graph_view(layers@, blobs@).linked(),
        l < layers@.len(),
        done@.len() == layers@.len(),
    ensures
        r == !blocked(graph_view(layers@, blobs@), done@, l as int),
{
    let ghost g = graph_view(layers@, blobs@);
    assert(g.layers[l as int].wf());
    let count: u32 = layers[l].bottom_len();
    let mut i: u32 = 0;
    while i < count
        invariant
            i <= count,
            g == graph_view(layers@, blobs@),
            g.linked(),
            l < layers@.len(),
            done@.len() == layers@.len(),
            count == g.layers[l as int].bottoms.len(),
            forall|j: int| 0 <= j < i ==> !blocked_at(g, done@, l as int, j),
        decreases count - i,
    {
        assert(g.is_bottom(l as int, i as int));
        let b: usize = layers[l].bottom_unchecked(i) as usize;
        assert(b == g.bottom(l as int, i as int));
        if let Some(p) = blobs[b].producer {
            assert(g.blobs[b as int].producer == Some(p as int));
            if !done[p as usize] {
                assert(blocked_at(g, done@, l as int, i as int));
                return false;
            }
        }
        i = i + 1;
    }
    true
}

/// Ranks the layers by their data dependencies, where they can be ranked.
fn rank_layers(layers: &Vec<Layer>, blobs: &Vec<Blob>) -> (r: Option<Vec<u32>>)
    requires
        graph_view(layers@, blobs@).linked(),
    ensures
        match r {
            Some(rank) => graph_view(layers@, blobs@).ranked(ranks(rank@)) && graph_view(
                layers@,
                blobs@,
            ).acyclic(),
            None => !graph_view(layers@, blobs@).acyclic(),
        },
{
    let ghost g = graph_view(layers@, blobs@);
    let n: usize = layers.len();
    let mut rank: Vec<u32> = Vec::new();
    let mut done: Vec<bool> = Vec::new();
    let mut k: usize = 0;
    while k < n
        invariant
            k <= n,
            rank@.len() == k,
            done@.len() == k,
            pending(done@) == k,
            forall|j: int| 0 <= j < k ==> !done@[j],
        decreases n - k,
    {
        rank.push(0);
        let ghost before = done@;
        done.push(false);
        assert(done@.drop_last() =~= before);
        k = k + 1;
    }
    let mut left: usize = n;
    let mut progress: bool = true;
    while progress
        invariant
            g == graph_view(layers@, blobs@),
            g.linked(),
            n == layers@.len(),
            left <= n,
            left == pending(done@),
            ranked_so_far(g, done@, rank@, n - left),
            !progress ==> stuck(g, done@),
        decreases 2 * left + (if progress { 1int } else { 0int }),
    {
        progress = false;
        let ghost start = done@;
        let mut l: usize = 0;
        while l < n
            invariant
                l <= n,
                g == graph_view(layers@, blobs@),
                g.linked(),
                n == layers@.len(),
                left <= n,
                left == pending(done@),
                ranked_so_far(g, done@, rank@, n - left),
                !progress ==> done@ == start,
                !progress ==> forall|j: int| 0 <= j < l && !(#[trigger] done@[j]) ==> blocked(
                    g,
                    done@,
                    j,
                ),
                progress ==> left < pending(start),
            decreases n - l,
        {
            if !done[l] && ready(layers, blobs, &done, l) {
                proof {
                    lemma_pending_update(done@, l as int);
                }
                let ghost before = done@;
                let ghost ranks_before = rank@;
                let place: u32 = (n - left) as u32;
                rank.set(l, place);
                done.set(l, true);
                left = left - 1;
                progress = true;
                proof {
                    assert forall|p: int, k: int, i: int| #[trigger]
                        g.feeds(p, k, i) && done@[k] implies done@[p] && rank@[p] < rank@[k] by {
                        assert(0 <= g.bottom(k, i) < g.blobs.len());
                        assert(0 <= p < n);
                        if k == l {
                            assert(!blocked_at(g, before, l as int, i));
                            assert(before[p]);
                            assert(p != l);
                        } else {
                            assert(before[k]);
                            assert(g.feeds(p, k, i) && before[k]);
                            assert(before[p]);
                        }
                    }
                }
            }
            l = l + 1;
        }
    }
    if left == 0 {
        proof {
            lemma_pending_none(done@);
            assert forall|p: int, l: int, i: int| #[trigger] g.feeds(p, l, i) implies ranks(
                rank@,
            )[p] < ranks(rank@)[l] by {
                assert(0 <= g.bottom(l, i) < g.blobs.len());
                assert(done@[l]);
            }
            lemma_ranked_is_acyclic(g, ranks(rank@));
        }
        Some(rank)
    } else {
        proof {
            if forall|l: int| 0 <= l < done@.len() ==> done@[l] {
                lemma_all_done(done@);
            }
            let l = choose|l: int| 0 <= l < done@.len() && !done@[l];
            lemma_stuck_is_cyclic(g, done@, l);
        }
        None
    }
}

/// Where every layer is done, nothing is pending.
proof fn lemma_all_done(done: Seq<bool>)
    requires
        forall|l: int| 0 <= l < done.len() ==> done[l],
    ensures
        pending(done) == 0,
    decreases done.len(),
{
    if done.len() > 0 {
        assert forall|l: int| 0 <= l < done.drop_last().len() implies done.drop_last()[l] by {
            assert(done.drop_last()[l] == done[l]);
        }
        lemma_all_done(done.drop_last());
    }
}

impl Graph {
    /// The ranks of the layers: a layer ranks above every layer whose output
    /// it reads.
    pub closed spec fn rank(&self) -> Seq<nat> {
        ranks(self.rank@)
    }

    /// The invariant that building establishes: the graph is linked, and its
    /// layers are ranked.
    pub open spec fn wf(&self) -> bool {
        self@.linked() && self@.ranked(self.rank())
    }

    /// A graph that is well formed is free of cycles.
    pub proof fn lemma_wf(&self)
        requires
            self.wf(),
        ensures
            self@.wf(),
    {
        lemma_ranked_is_acyclic(self@, self.rank());
    }

    /// The graph without layers and blobs.
    pub fn new() -> (g: Self)
        ensures
            g@ == GraphView::empty(),
            g.wf(),
    {
        let g = Graph { layers: Vec::new(), blobs: Vec::new(), rank: Vec::new() };
        assert(g@.layers =~= Seq::<LayerView>::empty());
        assert(g@.blobs =~= Seq::<BlobView>::empty());
        g
    }

    /// Builds the graph that a topology describes: makes every layer through
    /// the registry, links the layers to the blobs, and ranks the layers.
    pub fn build(registry: &LayerRegistry, topo: &Topology) -> (r: Result<Graph, NetError>)
        requires
            registry.wf(),
        ensures
            made_graph(r) == spec_load_topology(registry@, topo@),
            r matches Ok(g) ==> g.wf(),
    {
        let ghost kinds = registry@;
        let ghost tv = topo@;
        let count: usize = topo.blobs.len();
        let n: usize = topo.layers.len();
        if count > MAX_DIMENSION as usize || n > MAX_DIMENSION as usize {
            return Err(NetError::TooLarge);
        }
        let mut marks: Vec<Option<u32>> = Vec::new();
        let mut b: usize = 0;
        while b < count
            invariant
                b <= count,
                marks@.len() == b,
                forall|j: int| 0 <= j < b ==> (#[trigger] marks@[j]) is None,
            decreases count - b,
        {
            marks.push(None);
            b = b + 1;
        }
        assert(marked(tv, marks@, 0, 0));
        let mut layers: Vec<Layer> = Vec::new();
        let mut l: usize = 0;
        while l < n
            invariant
                l <= n,
                n == tv.layers.len(),
                count == tv.blobs.len(),
                n <= MAX_DIMENSION,
                count <= MAX_DIMENSION,
                tv == topo@,
                kinds == registry@,
                registry.wf(),
                first_fault(kinds, tv, 0) == first_fault(kinds, tv, l as int),
                marked(tv, marks@, l as int, 0),
                layers@.len() == l,
                forall|j: int| 0 <= j < l ==> layer_fault(kinds, tv, j) is None,
                forall|j: int|
                    0 <= j < l ==> (#[trigger] layers@[j])@ == layer_of(kinds, tv.layers[j])
                        && layers@[j].wf(),
            decreases n - l,
        {
            let desc: &LayerDesc = &topo.layers[l];
            assert(desc@ == tv.layers[l as int]);
            let layer: Layer = match Layer::create_by_type_name(registry, desc.kind_name.as_str()) {
                Ok(layer) => layer,
                Err(cause) => {
                    assert(layer_fault(kinds, tv, l as int) == Some(
                        NetError::Layer { layer: l as u32, cause },
                    ));
                    assert(first_fault(kinds, tv, l as int) == layer_fault(kinds, tv, l as int));
                    return Err(NetError::Layer { layer: l as u32, cause });
                },
            };
            if desc.bottoms.len() > MAX_DIMENSION as usize || desc.tops.len()
                > MAX_DIMENSION as usize {
                return Err(NetError::TooLarge);
            }
            if let Some(blob) = first_stray_slot(&desc.bottoms, count) {
                assert(layer_fault(kinds, tv, l as int) == Some(
                    NetError::BlobOutOfRange { layer: l as u32, blob },
                ));
                assert(first_fault(kinds, tv, l as int) == layer_fault(kinds, tv, l as int));
                return Err(NetError::BlobOutOfRange { layer: l as u32, blob });
            }
            match link_tops(topo, l, &mut marks) {
                Ok(()) => {},
                Err(e) => {
                    assert(layer_fault(kinds, tv, l as int) == Some(e));
                    assert(first_fault(kinds, tv, l as int) == layer_fault(kinds, tv, l as int));
                    return Err(e);
                },
            }
            assert(layer_fault(kinds, tv, l as int) is None);
            let bottoms: Vec<BlobSlot> = desc.bottoms.clone();
            let tops: Vec<BlobSlot> = desc.tops.clone();
            assert(bottoms@ =~= desc.bottoms@);
            assert(tops@ =~= desc.tops@);
            layers.push(layer.connect(desc.name.clone(), bottoms, tops, desc.weight_shape));
            l = l + 1;
        }
        assert(faultless(kinds, tv));
        let mut blobs: Vec<Blob> = Vec::new();
        let mut b: usize = 0;
        while b < count
            invariant
                b <= count,
                count == tv.blobs.len(),
                count == marks@.len(),
                tv == topo@,
                n == tv.layers.len(),
                faultless(kinds, tv),
                marked(tv, marks@, n as int, 0),
                blobs@.len() == b,
                forall|j: int|
                    0 <= j < b ==> (#[trigger] blobs@[j])@ == (BlobView {
                        name: tv.blobs[j],
                        producer: producer_of(tv, j),
                    }),
            decreases count - b,
        {
            let producer: Option<u32> = marks[b];
            proof {
                match producer {
                    Some(k) => {
                        assert(writes(tv, k as int, b as int));
                        let chosen = choose|k: int| writes(tv, k, b as int);
                        lemma_one_writer(kinds, tv, chosen, k as int, b as int);
                    },
                    None => {
                        assert(!written_before(tv, n as int, 0, b as int));
                        if exists|k: int| writes(tv, k, b as int) {
                            let k = choose|k: int| writes(tv, k, b as int);
                            let s = choose|s: int|
                                0 <= s < tv.layers[k].tops.len() && (
                                #[trigger] tv.layers[k].tops[s]).index == b;
                            assert(tv.layers[k].tops[s].index == b);
                            assert(written_before(tv, n as int, 0, b as int));
                        }
                    },
                }
            }
            blobs.push(Blob { name: topo.blobs[b].clone(), producer });
            b = b + 1;
        }
        proof {
            lemma_graph_linked(kinds, tv);
            assert(graph_view(layers@, blobs@).layers =~= graph_of(kinds, tv).layers);
            assert(graph_view(layers@, blobs@).blobs =~= graph_of(kinds, tv).blobs);
        }
        match rank_layers(&layers, &blobs) {
            Some(rank) => Ok(Graph { layers, blobs, rank }),
            None => Err(NetError::CyclicDependency),
        }
    }
}

/// The shape of a tensor, as a topology would declare it.
pub open spec fn shape_of(tensor: MatView) -> LayerShape {
    LayerShape {
        dims: tensor.dims as u32,
        width: tensor.width as u32,
        height: tensor.height as u32,
        channels: tensor.channels as u32,
    }
}

/// What is wrong with the first weight block from `from` on that has another
/// shape than the topology declares for its layer.
pub open spec fn first_mismatch(g: GraphView, blocks: Seq<MatView>, from: int) -> Option<NetError>
    decreases g.layers.len() - from,
{
    if from < 0 || from >= g.layers.len() {
        None
    } else if !g.layers[from].weight_shape.fits(blocks[from]) {
        Some(
            NetError::ShapeMismatch {
                layer: from as u32,
                declared: g.layers[from].weight_shape,
                found: shape_of(blocks[from]),
            },
        )
    } else {
        first_mismatch(g, blocks, from + 1)
    }
}

/// The graph with the weight blocks put into its layers, in order.
pub open spec fn with_weights(g: GraphView, blocks: Seq<MatView>) -> GraphView {
    GraphView {
        layers: Seq::new(
            g.layers.len(),
            |l: int| LayerView { weights: blocks[l], ..g.layers[l] },
        ),
        blobs: g.blobs,
    }
}

/// What loading weights into a graph gives. There is one block for every
/// layer, in the order in which the topology declares the layers, and every
/// block has the shape declared for the weights of its layer.
pub open spec fn spec_load_weights(g: GraphView, blocks: Seq<MatView>) -> Result<
    GraphView,
    NetError,
> {
    if blocks.len() != g.layers.len() {
        Err(NetError::LayerCountMismatch { layers: g.layers.len() as u64, blocks: blocks.len() as u64 })
    } else if let Some(e) = first_mismatch(g, blocks, 0) {
        Err(e)
    } else {
        Ok(with_weights(g, blocks))
    }
}

/// Where no block from `from` on is mismatched, every block from there on
/// has the shape declared for its layer.
pub proof fn lemma_no_mismatch(g: GraphView, blocks: Seq<MatView>, from: int)
    requires
        0 <= from,
        first_mismatch(g, blocks, from) is None,
    ensures
        forall|l: int|
            from <= l < g.layers.len() ==> (#[trigger] g.layers[l]).weight_shape.fits(blocks[l]),
    decreases g.layers.len() - from,
{
    if from < g.layers.len() {
        lemma_no_mismatch(g, blocks, from + 1);
    }
}

/// The tensors of a list, by their views.
pub open spec fn views(tensors: Seq<Mat>) -> Seq<MatView> {
    Seq::new(tensors.len(), |i: int| tensors[i]@)
}

/// Whether every tensor of a list is well formed.
pub open spec fn all_wf(tensors: Seq<Mat>) -> bool {
    forall|i: int| 0 <= i < tensors.len() ==> (#[trigger] tensors[i]).wf()
}

/// The index of the first blob of the given name, where there is one.
pub open spec fn blob_named(blobs: Seq<BlobView>, name: Seq<char>) -> Option<int> {
    if exists|b: int| first_named(blobs, name, b) {
        Some(choose|b: int| first_named(blobs, name, b))
    } else {
        None
    }
}

/// Whether `b` is the index of the first blob of the given name.
pub open spec fn first_named(blobs: Seq<BlobView>, name: Seq<char>, b: int) -> bool {
    &&& 0 <= b < blobs.len()
    &&& blobs[b].name == name
    &&& forall|j: int| 0 <= j < b ==> (#[trigger] blobs[j]).name != name
}

/// There is at most one first blob of a name.
pub proof fn lemma_first_named(blobs: Seq<BlobView>, name: Seq<char>, a: int, b: int)
    requires
        first_named(blobs, name, a),
        first_named(blobs, name, b),
    ensures
        a == b,
{
    if a < b {
        assert(blobs[a].name != name);
    }
    if b < a {
        assert(blobs[b].name != name);
    }
}

impl Graph {
    /// Layers of the graph.
    pub fn layer_count(&self) -> (n: usize)
        ensures
            n == self@.layers.len(),
    {
        self.layers.len()
    }

    /// Blobs of the graph.
    pub fn blob_count(&self) -> (n: usize)
        ensures
            n == self@.blobs.len(),
    {
        self.blobs.len()
    }

    /// Layer `l`.
    pub fn layer(&self, l: usize) -> (layer: &Layer)
        requires
            l < self@.layers.len(),
        ensures
            layer@ == self@.layers[l as int],
            self.wf() ==> layer.wf(),
    {
        proof {
            if self.wf() {
                assert(self@.layers[l as int].wf());
            }
        }
        &self.layers[l]
    }

    /// The layer that writes blob `b`, where there is one.
    pub fn producer(&self, b: usize) -> (producer: Option<u32>)
        requires
            b < self@.blobs.len(),
        ensures
            self@.blobs[b as int].producer == (match producer {
                Some(l) => Some(l as int),
                None => None,
            }),
    {
        self.blobs[b].producer
    }

    /// The name of blob `b`.
    pub fn blob_name(&self, b: usize) -> (name: &str)
        requires
            b < self@.blobs.len(),
        ensures
            name@ == self@.blobs[b as int].name,
    {
        self.blobs[b].name.as_str()
    }

    /// The rank of layer `l`.
    pub fn rank_of(&self, l: usize) -> (rank: u32)
        requires
            l < self@.layers.len(),
            self.wf(),
        ensures
            rank == self.rank()[l as int],
    {
        self.rank[l]
    }

    /// The index of the first blob named `name`.
    pub fn find_blob(&self, name: &str) -> (r: Option<u32>)
        requires
            self.wf(),
        ensures
            match r {
                Some(b) => blob_named(self@.blobs, name@) == Some(b as int) && b
                    < self@.blobs.len(),
                None => blob_named(self@.blobs, name@) is None,
            },
    {
        let wanted: String = name.to_owned();
        let mut b: usize = 0;
        while b < self.blobs.len()
            invariant
                b <= self.blobs@.len(),
                wanted@ == name@,
                self.wf(),
                forall|j: int| 0 <= j < b ==> (#[trigger] self@.blobs[j]).name != name@,
            decreases self.blobs@.len() - b,
        {
            if self.blobs[b].name == wanted {
                proof {
                    assert(self@.blobs[b as int].name == name@);
                    assert(first_named(self@.blobs, name@, b as int));
                    let chosen = choose|c: int| first_named(self@.blobs, name@, c);
                    lemma_first_named(self@.blobs, name@, chosen, b as int);
                }
                return Some(b as u32);
            }
            b = b + 1;
        }
        None
    }

    /// Puts the weight blocks into the layers, in order.
    pub fn load_weights(self, blocks: Vec<Mat>) -> (r: Result<Graph, NetError>)
        requires
            self.wf(),
            all_wf(blocks@),
        ensures
            made_graph(r) == spec_load_weights(self@, views(blocks@)),
            r matches Ok(g) ==> g.wf() && g@.loaded() && g.rank() == self.rank(),
    {
        let ghost g = self@;
        let ghost bv = views(blocks@);
        let n: usize = self.layers.len();
        if blocks.len() != n {
            return Err(
                NetError::LayerCountMismatch { layers: n as u64, blocks: blocks.len() as u64 },
            );
        }
        let mut l: usize = 0;
        while l < n
            invariant
                l <= n,
                n == g.layers.len(),
                n == blocks@.len(),
                n <= MAX_DIMENSION,
                g == self@,
                bv == views(blocks@),
                first_mismatch(g, bv, 0) == first_mismatch(g, bv, l as int),
            decreases n - l,
        {
            let declared: LayerShape = self.layers[l].weight_shape();
            if !declared.matches(&blocks[l]) {
                let found: LayerShape = LayerShape::of(&blocks[l]);
                proof {
                    lemma_shape_of(blocks@[l as int], found);
                }
                return Err(NetError::ShapeMismatch { layer: l as u32, declared, found });
            }
            l = l + 1;
        }
        proof {
            lemma_no_mismatch(g, bv, 0);
        }
        let Graph { layers, blobs, rank } = self;
        let mut layers: Vec<Layer> = layers;
        let mut blocks: Vec<Mat> = blocks;
        let ghost old_layers = layers@;
        let ghost old_blocks = blocks@;
        assert forall|j: int| 0 <= j < n implies (#[trigger] old_layers[j]).wf() by {
            assert(g.layers[j].wf());
        }
        let mut l: usize = 0;
        while l < n
            invariant
                l <= n,
                n == layers@.len(),
                n == blocks@.len(),
                n == old_layers.len(),
                n == old_blocks.len(),
                all_wf(old_blocks),
                forall|j: int| 0 <= j < n ==> (#[trigger] old_layers[j]).wf(),
                forall|j: int| l <= j < n ==> layers@[j] == old_layers[j],
                forall|j: int| l <= j < n ==> blocks@[j] == old_blocks[j],
                forall|j: int|
                    0 <= j < l ==> (#[trigger] layers@[j])@ == (LayerView {
                        weights: old_blocks[j]@,
                        ..old_layers[j]@
                    }) && layers@[j].wf(),
            decreases n - l,
        {
            layers.push(Layer::create());
            let layer: Layer = layers.swap_remove(l);
            blocks.push(Mat::new());
            let block: Mat = blocks.swap_remove(l);
            assert(layer == old_layers[l as int]);
            assert(block == old_blocks[l as int]);
            let loaded: Layer = layer.load(block);
            layers.set(l, loaded);
            l = l + 1;
        }
        let built = Graph { layers, blobs, rank };
        proof {
            assert(built@.layers =~= with_weights(g, bv).layers);
            assert(built@.blobs =~= g.blobs);
            lemma_weights_keep_links(g, bv);
        }
        Ok(built)
    }
}

/// The shape of a tensor is the shape that fits it.
proof fn lemma_shape_of(tensor: Mat, shape: LayerShape)
    requires
        shape.fits(tensor@),
    ensures
        shape == shape_of(tensor@),
{
}

/// Weights change nothing in the links and the ranking of a graph, and with
/// blocks of the declared shapes the graph is loaded.
pub proof fn lemma_weights_keep_links(g: GraphView, blocks: Seq<MatView>)
    requires
        g.linked(),
        blocks.len() == g.layers.len(),
        forall|l: int| 0 <= l < blocks.len() ==> (#[trigger] blocks[l]).wf(),
    ensures
        with_weights(g, blocks).linked(),
        forall|rank: Seq<nat>| g.ranked(rank) ==> with_weights(g, blocks).ranked(rank),
        (forall|l: int|
            0 <= l < g.layers.len() ==> (#[trigger] g.layers[l]).weight_shape.fits(blocks[l]))
            ==> with_weights(g, blocks).loaded(),
{
    let h = with_weights(g, blocks);
    assert forall|l: int, i: int| #[trigger] h.is_bottom(l, i) implies 0 <= h.bottom(l, i)
        < h.blobs.len() by {
        assert(g.is_bottom(l, i));
    }
    assert forall|l: int, i: int| #[trigger] h.is_top(l, i) implies 0 <= h.top(l, i)
        < h.blobs.len() && h.blobs[h.top(l, i)].producer == Some(l) by {
        assert(g.is_top(l, i));
    }
    assert forall|b: int| 0 <= b < h.blobs.len() implies ((#[trigger] h.blobs[b]).producer matches Some(
        l,
    ) ==> 0 <= l < h.layers.len() && h.layers[l].produces(b)) by {
        if let Some(l) = g.blobs[b].producer {
            assert(g.layers[l].produces(b));
            let s = choose|s: int|
                0 <= s < g.layers[l].tops.len() && (#[trigger] g.layers[l].tops[s]).index == b;
            assert(h.layers[l].tops[s].index == b);
        }
    }
    assert forall|l: int| 0 <= l < h.layers.len() implies (#[trigger] h.layers[l]).wf() by {
        assert(g.layers[l].wf());
        assert(blocks[l].wf());
    }
    assert forall|l: int, i: int, j: int|
        #![trigger h.is_top(l, i), h.is_top(l, j)]
        h.is_top(l, i) && h.is_top(l, j) && h.top(l, i) == h.top(l, j) implies i == j by {
        assert(g.is_top(l, i) && g.is_top(l, j));
    }
    assert forall|rank: Seq<nat>| g.ranked(rank) implies h.ranked(rank) by {
        assert forall|p: int, l: int, i: int| #[trigger] h.feeds(p, l, i) implies rank[p]
            < rank[l] by {
            assert(g.feeds(p, l, i));
        }
    }
}

/// A stray slot at or after `from` is found.
proof fn lemma_stray_found(slots: Seq<BlobSlot>, count: nat, from: int, i: int)
    requires
        0 <= from <= i < slots.len(),
        slots[i].index >= count,
    ensures
        first_stray(slots, count, from) is Some,
    decreases i - from,
{
    if from < i && slots[from].index < count {
        lemma_stray_found(slots, count, from + 1, i);
    }
}

/// An output at or after `from` whose blob does not exist is found at fault,
/// unless an earlier one is.
proof fn lemma_top_fault_found(topo: TopologyView, l: int, from: int, i: int)
    requires
        0 <= from <= i < topo.layers[l].tops.len(),
        topo.layers[l].tops[i].index >= topo.blobs.len(),
    ensures
        top_fault(topo, l, from) is Some,
    decreases i - from,
{
    if from < i {
        lemma_top_fault_found(topo, l, from + 1, i);
    }
}

/// A layer at or after `from` with which something is wrong is found,
/// unless an earlier one is.
proof fn lemma_fault_found(kinds: Seq<LayerKindView>, topo: TopologyView, from: int, l: int)
    requires
        0 <= from <= l < topo.layers.len(),
        layer_fault(kinds, topo, l) is Some,
    ensures
        first_fault(kinds, topo, from) is Some,
    decreases l - from,
{
    if from < l {
        lemma_fault_found(kinds, topo, from + 1, l);
    }
}

/// Whether slot `i` of `slots` names a blob that does not exist among
/// `count` blobs.
pub open spec fn stray(slots: Seq<BlobSlot>, count: nat, i: int) -> bool {
    0 <= i < slots.len() && slots[i].index >= count
}

/// A topology in which a layer names, at an input or an output, a blob
/// that the topology does not have is refused.
pub proof fn lemma_stray_blob_refused(
    kinds: Seq<LayerKindView>,
    topo: TopologyView,
    l: int,
    i: int,
)
    requires
        0 <= l < topo.layers.len(),
        stray(topo.layers[l].bottoms, topo.blobs.len(), i) || stray(
            topo.layers[l].tops,
            topo.blobs.len(),
            i,
        ),
    ensures
        spec_load_topology(kinds, topo) is Err,
{
    if topo.blobs.len() <= MAX_DIMENSION && topo.layers.len() <= MAX_DIMENSION {
        let desc = topo.layers[l];
        if spec_create_by_type_name(kinds, desc.kind_name) is Ok && desc.bottoms.len()
            <= MAX_DIMENSION && desc.tops.len() <= MAX_DIMENSION {
            if stray(desc.bottoms, topo.blobs.len(), i) {
                lemma_stray_found(desc.bottoms, topo.blobs.len(), 0, i);
            } else if first_stray(desc.bottoms, topo.blobs.len(), 0) is None {
                lemma_top_fault_found(topo, l, 0, i);
            }
        }
        assert(layer_fault(kinds, topo, l) is Some);
        lemma_fault_found(kinds, topo, 0, l);
    }
}

/// A topology with a layer whose kind the registry does not hold is
/// refused.
pub proof fn lemma_unknown_kind_refused(kinds: Seq<LayerKindView>, topo: TopologyView, l: int)
    requires
        0 <= l < topo.layers.len(),
        spec_create_by_type_name(kinds, topo.layers[l].kind_name) is Err,
    ensures
        spec_load_topology(kinds, topo) is Err,
{
    if topo.blobs.len() <= MAX_DIMENSION && topo.layers.len() <= MAX_DIMENSION {
        assert(layer_fault(kinds, topo, l) is Some);
        lemma_fault_found(kinds, topo, 0, l);
    }
}

/// The graph that loading a topology gives is well formed.
pub proof fn lemma_loaded_topology_wf(kinds: Seq<LayerKindView>, topo: TopologyView)
    requires
        spec_load_topology(kinds, topo) is Ok,
    ensures
        spec_load_topology(kinds, topo)->Ok_0.wf(),
{
    assert forall|l: int| 0 <= l < topo.layers.len() implies layer_fault(kinds, topo, l)
        is None by {
        if layer_fault(kinds, topo, l) is Some {
            lemma_fault_found(kinds, topo, 0, l);
        }
    }
    lemma_graph_linked(kinds, topo);
}

} // verus!
