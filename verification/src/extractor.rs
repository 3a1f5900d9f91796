//! Evaluation sessions: a network's outputs are computed on demand, every
//! layer at most once.
//!
//! Computing a layer is the caller's part. The extractor says which layer is
//! to be computed next and on which tensors, takes the outputs, and remembers
//! them.

use vstd::prelude::*;

use crate::error::ExtractError;
use crate::graph::{
    all_wf, blob_named, lemma_pending_update, pending, views, Graph, GraphView,
};
use crate::layer::BlobSlot;
use crate::mat::{Mat, MatView};
use crate::net::Net;

verus! {

/// What a session holds: for every blob the tensor that is there, and for
/// every layer whether its outputs were handed in.
pub struct ExtractorView {
    pub blobs: Seq<Option<MatView>>,
    pub computed: Seq<bool>,
}

impl ExtractorView {
    /// The session in which nothing is there yet.
    pub open spec fn fresh(blobs: nat, layers: nat) -> ExtractorView {
        ExtractorView {
            blobs: Seq::new(blobs, |b: int| None::<MatView>),
            computed: Seq::new(layers, |l: int| false),
        }
    }

    /// Whether blob `b` has a tensor.
    pub open spec fn has(self, b: int) -> bool {
        0 <= b < self.blobs.len() && self.blobs[b] is Some
    }

    /// Whether every input of layer `l` has a tensor.
    pub open spec fn runnable(self, g: GraphView, l: int) -> bool {
        forall|i: int| #[trigger] g.is_bottom(l, i) ==> self.has(g.bottom(l, i))
    }

    /// The tensors at the inputs of layer `l`, in order.
    pub open spec fn inputs(self, g: GraphView, l: int) -> Seq<MatView> {
        Seq::new(g.layers[l].bottoms.len(), |i: int| self.blobs[g.bottom(l, i)]->0)
    }

    /// The session is one of the graph `g`: it has a place for every blob and
    /// every layer, the tensors in it are well formed, and the outputs of
    /// every layer that was computed are there.
    pub open spec fn wf(self, g: GraphView) -> bool {
        &&& self.blobs.len() == g.blobs.len()
        &&& self.computed.len() == g.layers.len()
        &&& forall|b: int|
            0 <= b < self.blobs.len() ==> ((#[trigger] self.blobs[b]) matches Some(t) ==> t.wf())
        &&& forall|l: int, i: int| #[trigger]
            g.is_top(l, i) && self.computed[l] ==> self.has(g.top(l, i))
    }
}

/// What is to happen next on the way to the outputs of a layer.
pub enum Plan {
    /// This layer is to be computed: all its inputs are there.
    Run { layer: int },
    /// Nothing can be done: this blob is not there, and no layer writes it.
    Missing { blob: int },
}

/// What is to happen next on the way to the outputs of layer `l`, whose
/// inputs before `i` are there. The inputs are looked at in order. Where one
/// is not there, the layer that writes it comes first; `rank` is a ranking
/// of the graph, under which that layer ranks below `l`.
pub open spec fn plan(g: GraphView, rank: Seq<nat>, session: ExtractorView, l: int, i: int) -> Plan
    decreases rank[l], g.layers[l].bottoms.len() - i,
{
    if i < 0 || i >= g.layers[l].bottoms.len() {
        Plan::Run { layer: l }
    } else if session.has(g.bottom(l, i)) {
        plan(g, rank, session, l, i + 1)
    } else {
        match g.blobs[g.bottom(l, i)].producer {
            Some(p) if rank[p] < rank[l] => plan(g, rank, session, p, 0),
            _ => Plan::Missing { blob: g.bottom(l, i) },
        }
    }
}

/// What an extraction gives: the tensor asked for, or the layer that is to
/// be computed next with the tensors at its inputs.
pub enum StepView {
    Ready { tensor: MatView },
    Compute { layer: int, inputs: Seq<MatView> },
}

/// What asking a session for blob `blob` gives.
pub open spec fn spec_extract(g: GraphView, rank: Seq<nat>, session: ExtractorView, blob: int) -> Result<
    StepView,
    ExtractError,
> {
    if blob < 0 || blob >= g.blobs.len() {
        Err(ExtractError::UnknownBlob)
    } else if let Some(tensor) = session.blobs[blob] {
        Ok(StepView::Ready { tensor })
    } else {
        match g.blobs[blob].producer {
            None => Err(ExtractError::Unreachable { blob: blob as u32 }),
            Some(l) => match plan(g, rank, session, l, 0) {
                Plan::Run { layer } => Ok(
                    StepView::Compute { layer, inputs: session.inputs(g, layer) },
                ),
                Plan::Missing { blob: missing } => Err(
                    ExtractError::Unsatisfied { blob: missing as u32 },
                ),
            },
        }
    }
}

/// The blobs of a session after the first `upto` outputs of a layer are
/// stored where the layer writes them.
pub open spec fn stored(
    blobs: Seq<Option<MatView>>,
    tops: Seq<BlobSlot>,
    outputs: Seq<MatView>,
    upto: int,
) -> Seq<Option<MatView>>
    decreases upto,
{
    if upto <= 0 {
        blobs
    } else {
        stored(blobs, tops, outputs, upto - 1).update(
            tops[upto - 1].index as int,
            Some(outputs[upto - 1]),
        )
    }
}

/// What handing in the outputs of layer `layer` makes of a session, and what
/// is returned. `outputs` is nothing where the computation failed. On every
/// failure the session stays as it was.
pub open spec fn spec_supply(
    g: GraphView,
    session: ExtractorView,
    layer: int,
    outputs: Option<Seq<MatView>>,
) -> (ExtractorView, Result<(), ExtractError>) {
    if layer < 0 || layer >= g.layers.len() {
        (session, Err(ExtractError::UnknownLayer))
    } else if session.computed[layer] {
        (session, Err(ExtractError::AlreadyComputed { layer: layer as u32 }))
    } else if !session.runnable(g, layer) {
        (session, Err(ExtractError::NotRunnable { layer: layer as u32 }))
    } else {
        match outputs {
            None => (session, Err(ExtractError::ComputeFailed { layer: layer as u32 })),
            Some(outputs) => if outputs.len() != g.layers[layer].tops.len() {
                (
                    session,
                    Err(
                        ExtractError::OutputCount {
                            layer: layer as u32,
                            outputs: g.layers[layer].tops.len() as u64,
                            handed: outputs.len() as u64,
                        },
                    ),
                )
            } else {
                (
                    ExtractorView {
                        blobs: stored(
                            session.blobs,
                            g.layers[layer].tops,
                            outputs,
                            outputs.len() as int,
                        ),
                        computed: session.computed.update(layer, true),
                    },
                    Ok(()),
                )
            },
        }
    }
}

/// What supplying a tensor for blob `blob` makes of a session, and what is
/// returned.
pub open spec fn spec_set_input(g: GraphView, session: ExtractorView, blob: int, tensor: MatView) -> (
    ExtractorView,
    Result<(), ExtractError>,
) {
    if blob < 0 || blob >= g.blobs.len() {
        (session, Err(ExtractError::UnknownBlob))
    } else {
        (ExtractorView { blobs: session.blobs.update(blob, Some(tensor)), ..session }, Ok(()))
    }
}

/// What an extraction hands out.
#[derive(Debug)]
pub enum Step {
    /// The tensor of the blob asked for.
    Ready { tensor: Mat },
    /// The layer that is to be computed next, and the tensors at its inputs
    /// in order. Its outputs are handed in with `Extractor::supply`.
    Compute { layer: u32, inputs: Vec<Mat> },
}

impl View for Step {
    type V = StepView;

    open spec fn view(&self) -> StepView {
        match self {
            Step::Ready { tensor } => StepView::Ready { tensor: tensor@ },
            Step::Compute { layer, inputs } => StepView::Compute {
                layer: *layer as int,
                inputs: views(inputs@),
            },
        }
    }
}

/// The view of a step that was handed out, or the error in its place.
pub open spec fn made_step(r: Result<Step, ExtractError>) -> Result<StepView, ExtractError> {
    match r {
        Ok(step) => Ok(step@),
        Err(e) => Err(e),
    }
}

/// One evaluation session over a network.
#[derive(Debug)]
pub struct Extractor<'a> {
    net: &'a Net,
    blobs: Vec<Option<Mat>>,
    computed: Vec<bool>,
}

/// The tensor that is there, by its view.
pub open spec fn held(slot: Option<Mat>) -> Option<MatView> {
    match slot {
        Some(tensor) => Some(tensor@),
        None => None,
    }
}

impl<'a> View for Extractor<'a> {
    type V = ExtractorView;

    closed spec fn view(&self) -> ExtractorView {
        ExtractorView {
            blobs: Seq::new(self.blobs@.len(), |b: int| held(self.blobs@[b])),
            computed: self.computed@,
        }
    }
}

impl<'a> Extractor<'a> {
    /// The graph of the network that the session evaluates.
    pub closed spec fn graph(&self) -> GraphView {
        self.net@.graph
    }

    /// The ranking of that graph.
    pub closed spec fn rank(&self) -> Seq<nat> {
        self.net.rank()
    }

    /// The session is one of its network, and the network is built.
    pub closed spec fn wf(&self) -> bool {
        self.net.wf() && self@.wf(self.net@.graph)
    }

    /// What the invariant says of the view.
    pub proof fn lemma_wf(&self)
        requires
            self.wf(),
        ensures
            self@.wf(self.graph()),
            self.graph().linked(),
            self.graph().ranked(self.rank()),
    {
        self.net.lemma_wf();
    }
}

/// What a plan promises, in a graph that is linked and ranked: a layer that
/// is to be computed has all its inputs there and is the layer started from
/// or the writer of a blob that is not there; a blob that is missing is not
/// there, and no layer writes it.
pub proof fn lemma_plan(g: GraphView, rank: Seq<nat>, session: ExtractorView, l: int, i: int)
    requires
        g.linked(),
        g.ranked(rank),
        session.blobs.len() == g.blobs.len(),
        0 <= l < g.layers.len(),
        0 <= i,
        forall|j: int| 0 <= j < i && j < g.layers[l].bottoms.len() ==> session.has(g.bottom(l, j)),
    ensures
        match plan(g, rank, session, l, i) {
            Plan::Run { layer } => {
                &&& 0 <= layer < g.layers.len()
                &&& session.runnable(g, layer)
                &&& layer == l || exists|b: int|
                    0 <= b < g.blobs.len() && !session.has(b) && (#[trigger] g.blobs[b]).producer
                        == Some(layer)
            },
            Plan::Missing { blob } => {
                &&& 0 <= blob < g.blobs.len()
                &&& !session.has(blob)
                &&& g.blobs[blob].producer is None
            },
        },
    decreases rank[l], g.layers[l].bottoms.len() - i,
{
    if i >= g.layers[l].bottoms.len() {
        assert forall|j: int| #[trigger] g.is_bottom(l, j) implies session.has(g.bottom(l, j)) by {}
    } else {
        assert(g.is_bottom(l, i));
        let b = g.bottom(l, i);
        assert(0 <= b < g.blobs.len());
        if session.has(b) {
            lemma_plan(g, rank, session, l, i + 1);
        } else {
            match g.blobs[b].producer {
                Some(p) => {
                    assert(g.feeds(p, l, i));
                    assert(rank[p] < rank[l]);
                    lemma_plan(g, rank, session, p, 0);
                    match plan(g, rank, session, p, 0) {
                        Plan::Run { layer } => {
                            if layer == p {
                                assert(g.blobs[b].producer == Some(layer));
                            }
                        },
                        Plan::Missing { .. } => {},
                    }
                },
                None => {},
            }
        }
    }
}

/// Storing outputs keeps the number of blobs, takes no tensor away, and puts
/// a tensor wherever the layer writes.
pub proof fn lemma_stored(
    blobs: Seq<Option<MatView>>,
    tops: Seq<BlobSlot>,
    outputs: Seq<MatView>,
    upto: int,
)
    requires
        0 <= upto <= tops.len(),
        upto <= outputs.len(),
        forall|j: int| 0 <= j < tops.len() ==> (#[trigger] tops[j]).index < blobs.len(),
    ensures
        stored(blobs, tops, outputs, upto).len() == blobs.len(),
        forall|b: int|
            0 <= b < blobs.len() && blobs[b] is Some ==> (#[trigger] stored(
                blobs,
                tops,
                outputs,
                upto,
            )[b]) is Some,
        forall|j: int|
            0 <= j < upto ==> stored(blobs, tops, outputs, upto)[(#[trigger] tops[j]).index as int]
                is Some,
        forall|b: int|
            0 <= b < blobs.len() ==> ((#[trigger] stored(blobs, tops, outputs, upto)[b])
                == blobs[b] || exists|j: int|
                0 <= j < upto && stored(blobs, tops, outputs, upto)[b] == Some(
                    #[trigger] outputs[j],
                )),
    decreases upto,
{
    if upto > 0 {
        lemma_stored(blobs, tops, outputs, upto - 1);
        let before = stored(blobs, tops, outputs, upto - 1);
        let after = stored(blobs, tops, outputs, upto);
        let at = tops[upto - 1].index as int;
        assert(after == before.update(at, Some(outputs[upto - 1])));
        assert forall|j: int| 0 <= j < upto implies after[(#[trigger] tops[j]).index as int]
            is Some by {
            if j < upto - 1 {
                assert(before[tops[j].index as int] is Some);
            }
        }
        assert forall|b: int| 0 <= b < blobs.len() implies ((#[trigger] after[b]) == blobs[b]
            || exists|j: int| 0 <= j < upto && after[b] == Some(#[trigger] outputs[j])) by {
            if b == at {
                assert(after[b] == Some(outputs[upto - 1]));
            } else {
                assert(after[b] == before[b]);
                if before[b] != blobs[b] {
                    let j = choose|j: int|
                        0 <= j < upto - 1 && before[b] == Some(#[trigger] outputs[j]);
                    assert(after[b] == Some(outputs[j]));
                }
            }
        }
    }
}

impl Net {
    /// Opens an evaluation session in which nothing is there yet. A network
    /// serves any number of sessions.
    pub fn create_extractor(&self) -> (extractor: Extractor<'_>)
        requires
            self.wf(),
        ensures
            extractor.wf(),
            extractor.graph() == self@.graph,
            extractor.rank() == self.rank(),
            extractor@ == ExtractorView::fresh(
                self@.graph.blobs.len(),
                self@.graph.layers.len(),
            ),
    {
        let blob_count: usize = self.blob_count();
        let layer_count: usize = self.layer_count();
        let mut blobs: Vec<Option<Mat>> = Vec::new();
        let mut b: usize = 0;
        while b < blob_count
            invariant
                b <= blob_count,
                blobs@.len() == b,
                forall|j: int| 0 <= j < b ==> (#[trigger] blobs@[j]) is None,
            decreases blob_count - b,
        {
            blobs.push(None);
            b = b + 1;
        }
        let mut computed: Vec<bool> = Vec::new();
        let mut l: usize = 0;
        while l < layer_count
            invariant
                l <= layer_count,
                computed@.len() == l,
                forall|j: int| 0 <= j < l ==> !(#[trigger] computed@[j]),
            decreases layer_count - l,
        {
            computed.push(false);
            l = l + 1;
        }
        let extractor = Extractor { net: self, blobs, computed };
        assert(extractor@.blobs =~= ExtractorView::fresh(
            self@.graph.blobs.len(),
            self@.graph.layers.len(),
        ).blobs);
        assert(extractor@.computed =~= ExtractorView::fresh(
            self@.graph.blobs.len(),
            self@.graph.layers.len(),
        ).computed);
        extractor
    }
}

impl<'a> Extractor<'a> {
    /// Supplies the tensor of blob `blob`. A tensor that is there already is
    /// replaced.
    pub fn set_input(&mut self, blob: u32, tensor: Mat) -> (r: Result<(), ExtractError>)
        requires
            old(self).wf(),
            tensor.wf(),
        ensures
            (final(self)@, r) == spec_set_input(old(self).graph(), old(self)@, blob as int, tensor@),
            final(self).wf(),
            final(self).graph() == old(self).graph(),
            final(self).rank() == old(self).rank(),
    {
        if blob as usize >= self.blobs.len() {
            return Err(ExtractError::UnknownBlob);
        }
        self.blobs.set(blob as usize, Some(tensor));
        proof {
            assert(self@.blobs =~= old(self)@.blobs.update(blob as int, Some(tensor@)));
            let g = self.net@.graph;
            assert forall|l: int, i: int| #[trigger]
                g.is_top(l, i) && self@.computed[l] implies self@.has(g.top(l, i)) by {
                assert(old(self)@.has(g.top(l, i)));
            }
        }
        Ok(())
    }

    /// Supplies the tensor of the first blob named `name`.
    pub fn set_input_by_name(&mut self, name: &str, tensor: Mat) -> (r: Result<(), ExtractError>)
        requires
            old(self).wf(),
            tensor.wf(),
        ensures
            (final(self)@, r) == (match blob_named(old(self).graph().blobs, name@) {
                Some(blob) => spec_set_input(old(self).graph(), old(self)@, blob, tensor@),
                None => (old(self)@, Err::<(), ExtractError>(ExtractError::UnknownBlob)),
            }),
            final(self).wf(),
            final(self).graph() == old(self).graph(),
            final(self).rank() == old(self).rank(),
    {
        match self.net.find_blob(name) {
            Some(blob) => self.set_input(blob, tensor),
            None => Err(ExtractError::UnknownBlob),
        }
    }

    /// The index of the first input of layer `l` that is not there, or the
    /// number of inputs where all are there.
    fn first_absent(&self, l: usize) -> (i: u32)
        requires
            self.wf(),
            l < self.graph().layers.len(),
        ensures
            i <= self.graph().layers[l as int].bottoms.len(),
            forall|j: int| 0 <= j < i ==> self@.has(self.graph().bottom(l as int, j)),
            i < self.graph().layers[l as int].bottoms.len() ==> !self@.has(
                self.graph().bottom(l as int, i as int),
            ),
            plan(self.graph(), self.rank(), self@, l as int, 0) == plan(
                self.graph(),
                self.rank(),
                self@,
                l as int,
                i as int,
            ),
    {
        proof {
            self.net.lemma_wf();
        }
        let graph: &Graph = self.net.graph();
        let ghost g = self.graph();
        assert(g.layers[l as int].wf());
        let count: u32 = graph.layer(l).bottom_len();
        let mut i: u32 = 0;
        while i < count
            invariant
                i <= count,
                self.wf(),
                g == self.graph(),
                g == graph@,
                g.linked(),
                l < g.layers.len(),
                count == g.layers[l as int].bottoms.len(),
                forall|j: int| 0 <= j < i ==> self@.has(g.bottom(l as int, j)),
                plan(g, self.rank(), self@, l as int, 0) == plan(
                    g,
                    self.rank(),
                    self@,
                    l as int,
                    i as int,
                ),
            decreases count - i,
        {
            assert(g.is_bottom(l as int, i as int));
            let b: usize = graph.layer(l).bottom_unchecked(i) as usize;
            if self.blobs[b].is_none() {
                return i;
            }
            i = i + 1;
        }
        i
    }

    /// Copies of the tensors at the inputs of layer `l`, which are all there.
    fn gather_inputs(&self, l: usize) -> (inputs: Vec<Mat>)
        requires
            self.wf(),
            l < self.graph().layers.len(),
            self@.runnable(self.graph(), l as int),
        ensures
            views(inputs@) == self@.inputs(self.graph(), l as int),
            all_wf(inputs@),
    {
        proof {
            self.net.lemma_wf();
        }
        let graph: &Graph = self.net.graph();
        let ghost g = self.graph();
        assert(g.layers[l as int].wf());
        let count: u32 = graph.layer(l).bottom_len();
        let mut inputs: Vec<Mat> = Vec::new();
        let mut i: u32 = 0;
        while i < count
            invariant
                i <= count,
                self.wf(),
                g == self.graph(),
                g == graph@,
                g.linked(),
                l < g.layers.len(),
                self@.runnable(g, l as int),
                count == g.layers[l as int].bottoms.len(),
                inputs@.len() == i,
                all_wf(inputs@),
                forall|j: int|
                    0 <= j < i ==> (#[trigger] inputs@[j])@ == self@.blobs[g.bottom(l as int, j)]->0,
            decreases count - i,
        {
            assert(g.is_bottom(l as int, i as int));
            let b: usize = graph.layer(l).bottom_unchecked(i) as usize;
            assert(self@.has(b as int));
            match &self.blobs[b] {
                Some(tensor) => {
                    let copy: Mat = tensor.clone();
                    assert(copy.wf());
                    inputs.push(copy);
                },
                None => {},
            }
            i = i + 1;
        }
        assert(views(inputs@) =~= self@.inputs(g, l as int));
        inputs
    }

    /// Asks for the tensor of blob `blob`. Where it is there, it is handed
    /// out. Where it is not, the layer that is to be computed next on the way
    /// to it is handed out, with the tensors at its inputs; the session stays
    /// as it is until the outputs are handed in. A blob that is not there and
    /// that no layer writes cannot be reached.
    pub fn extract(&self, blob: u32) -> (r: Result<Step, ExtractError>)
        requires
            self.wf(),
        ensures
            made_step(r) == spec_extract(self.graph(), self.rank(), self@, blob as int),
            r matches Ok(Step::Ready { tensor }) ==> tensor.wf(),
            r matches Ok(Step::Compute { layer, inputs }) ==> all_wf(inputs@),
    {
        proof {
            self.net.lemma_wf();
        }
        let graph: &Graph = self.net.graph();
        let ghost g = self.graph();
        let ghost rank = self.rank();
        if blob as usize >= self.blobs.len() {
            return Err(ExtractError::UnknownBlob);
        }
        if let Some(tensor) = &self.blobs[blob as usize] {
            let copy: Mat = tensor.clone();
            return Ok(Step::Ready { tensor: copy });
        }
        let first: u32 = match graph.producer(blob as usize) {
            None => {
                return Err(ExtractError::Unreachable { blob });
            },
            Some(l) => l,
        };
        let mut l: usize = first as usize;
        loop
            invariant
                self.wf(),
                g == self.graph(),
                g == graph@,
                rank == self.rank(),
                graph.wf(),
                g.linked(),
                g.ranked(rank),
                self@.wf(g),
                l < g.layers.len(),
                blob < g.blobs.len(),
                self@.blobs[blob as int] is None,
                g.blobs[blob as int].producer == Some(first as int),
                plan(g, rank, self@, first as int, 0) == plan(g, rank, self@, l as int, 0),
            decreases rank[l as int],
        {
            let i: u32 = self.first_absent(l);
            assert(g.layers[l as int].wf());
            if i == graph.layer(l).bottom_len() {
                proof {
                    assert forall|j: int| #[trigger] g.is_bottom(l as int, j) implies self@.has(
                        g.bottom(l as int, j),
                    ) by {}
                }
                assert(plan(g, rank, self@, l as int, i as int) == (Plan::Run { layer: l as int }));
                let inputs: Vec<Mat> = self.gather_inputs(l);
                return Ok(Step::Compute { layer: l as u32, inputs });
            }
            assert(g.is_bottom(l as int, i as int));
            let b: u32 = graph.layer(l).bottom_unchecked(i);
            match graph.producer(b as usize) {
                None => {
                    assert(plan(g, rank, self@, l as int, i as int) == (Plan::Missing {
                        blob: b as int,
                    }));
                    return Err(ExtractError::Unsatisfied { blob: b });
                },
                Some(p) => {
                    assert(g.feeds(p as int, l as int, i as int));
                    assert(rank[p as int] < rank[l as int]);
                    l = p as usize;
                },
            }
        }
    }

    /// Asks for the tensor of the first blob named `name`.
    pub fn extract_by_name(&self, name: &str) -> (r: Result<Step, ExtractError>)
        requires
            self.wf(),
        ensures
            made_step(r) == (match blob_named(self.graph().blobs, name@) {
                Some(blob) => spec_extract(self.graph(), self.rank(), self@, blob),
                None => Err::<StepView, ExtractError>(ExtractError::UnknownBlob),
            }),
            r matches Ok(Step::Ready { tensor }) ==> tensor.wf(),
            r matches Ok(Step::Compute { layer, inputs }) ==> all_wf(inputs@),
    {
        match self.net.find_blob(name) {
            Some(blob) => self.extract(blob),
            None => Err(ExtractError::UnknownBlob),
        }
    }

    /// Whether the outputs of layer `layer` were handed in.
    pub fn is_computed(&self, layer: u32) -> (computed: bool)
        requires
            self.wf(),
        ensures
            computed == (layer < self@.computed.len() && self@.computed[layer as int]),
    {
        (layer as usize) < self.computed.len() && self.computed[layer as usize]
    }

    /// Hands in the outputs of layer `layer`, in the order in which the layer
    /// writes them, or nothing where its computation failed. The outputs are
    /// remembered: the layer is not computed again in this session.
    pub fn supply(&mut self, layer: u32, outputs: Option<Vec<Mat>>) -> (r: Result<
        (),
        ExtractError,
    >)
        requires
            old(self).wf(),
            outputs matches Some(tensors) ==> all_wf(tensors@),
        ensures
            (final(self)@, r) == spec_supply(
                old(self).graph(),
                old(self)@,
                layer as int,
                match outputs {
                    Some(tensors) => Some(views(tensors@)),
                    None => None,
                },
            ),
            final(self).wf(),
            final(self).graph() == old(self).graph(),
            final(self).rank() == old(self).rank(),
    {
        proof {
            self.net.lemma_wf();
        }
        let net: &Net = self.net;
        let graph: &Graph = net.graph();
        let ghost g = self.graph();
        if layer as usize >= graph.layer_count() {
            return Err(ExtractError::UnknownLayer);
        }
        let l: usize = layer as usize;
        if self.computed[l] {
            return Err(ExtractError::AlreadyComputed { layer });
        }
        assert(g.layers[l as int].wf());
        let absent: u32 = self.first_absent(l);
        if absent < graph.layer(l).bottom_len() {
            assert(g.is_bottom(l as int, absent as int));
            return Err(ExtractError::NotRunnable { layer });
        }
        assert(self@.runnable(g, l as int)) by {
            assert forall|j: int| #[trigger] g.is_bottom(l as int, j) implies self@.has(
                g.bottom(l as int, j),
            ) by {}
        }
        let mut tensors: Vec<Mat> = match outputs {
            None => {
                return Err(ExtractError::ComputeFailed { layer });
            },
            Some(tensors) => tensors,
        };
        let count: u32 = graph.layer(l).top_len();
        if tensors.len() != count as usize {
            return Err(
                ExtractError::OutputCount {
                    layer,
                    outputs: count as u64,
                    handed: tensors.len() as u64,
                },
            );
        }
        let ghost handed = tensors@;
        let ghost tops = g.layers[l as int].tops;
        assert forall|j: int| 0 <= j < tops.len() implies (#[trigger] tops[j]).index
            < self@.blobs.len() by {
            assert(g.is_top(l as int, j));
        }
        let mut i: u32 = 0;
        while i < count
            invariant
                i <= count,
                count == tops.len(),
                count == handed.len(),
                tensors@.len() == count,
                all_wf(handed),
                g == old(self).graph(),
                g == graph@,
                g.linked(),
                l < g.layers.len(),
                tops == g.layers[l as int].tops,
                self.net == old(self).net,
                self.computed@ == old(self).computed@,
                self.blobs@.len() == old(self).blobs@.len(),
                forall|j: int| 0 <= j < tops.len() ==> (#[trigger] tops[j]).index < self.blobs@.len(),
                forall|j: int| i <= j < count ==> tensors@[j] == handed[j],
                self@.blobs == stored(old(self)@.blobs, tops, views(handed), i as int),
            decreases count - i,
        {
            tensors.push(Mat::new());
            let tensor: Mat = tensors.swap_remove(i as usize);
            assert(tensor == handed[i as int]);
            assert(g.is_top(l as int, i as int));
            let b: usize = graph.layer(l).top_unchecked(i) as usize;
            let ghost before = self@.blobs;
            self.blobs.set(b, Some(tensor));
            assert(self@.blobs =~= before.update(b as int, Some(views(handed)[i as int])));
            i = i + 1;
        }
        self.computed.set(l, true);
        proof {
            lemma_stored(old(self)@.blobs, tops, views(handed), count as int);
            let after = self@;
            assert(after.computed == old(self)@.computed.update(l as int, true));
            assert forall|b: int| 0 <= b < after.blobs.len() implies ((
            #[trigger] after.blobs[b]) matches Some(t) ==> t.wf()) by {
                if after.blobs[b] != old(self)@.blobs[b] {
                    let j = choose|j: int|
                        0 <= j < count && after.blobs[b] == Some(#[trigger] views(handed)[j]);
                    assert(handed[j].wf());
                }
            }
            assert forall|k: int, j: int| #[trigger]
                g.is_top(k, j) && after.computed[k] implies after.has(g.top(k, j)) by {
                if k == l {
                    assert(after.blobs[tops[j].index as int] is Some);
                } else {
                    assert(old(self)@.has(g.top(k, j)));
                }
            }
        }
        Ok(())
    }
}

/// Where a layer writes each blob at one output only, the blob at output `j`
/// holds output `j` once the outputs are stored.
pub proof fn lemma_stored_at(
    blobs: Seq<Option<MatView>>,
    tops: Seq<BlobSlot>,
    outputs: Seq<MatView>,
    upto: int,
    j: int,
)
    requires
        0 <= j < upto <= tops.len(),
        upto <= outputs.len(),
        forall|k: int| 0 <= k < tops.len() ==> (#[trigger] tops[k]).index < blobs.len(),
        forall|a: int, b: int|
            0 <= a < tops.len() && 0 <= b < tops.len() && (#[trigger] tops[a]).index == (
            #[trigger] tops[b]).index ==> a == b,
    ensures
        stored(blobs, tops, outputs, upto)[tops[j].index as int] == Some(outputs[j]),
    decreases upto,
{
    lemma_stored(blobs, tops, outputs, upto - 1);
    if j < upto - 1 {
        lemma_stored_at(blobs, tops, outputs, upto - 1, j);
        assert(tops[j].index != tops[upto - 1].index);
    }
}

/// Handing in the outputs of a layer keeps the session one of its graph.
pub proof fn lemma_supply_wf(
    g: GraphView,
    session: ExtractorView,
    layer: int,
    outputs: Seq<MatView>,
)
    requires
        g.linked(),
        session.wf(g),
        forall|j: int| 0 <= j < outputs.len() ==> (#[trigger] outputs[j]).wf(),
    ensures
        spec_supply(g, session, layer, Some(outputs)).0.wf(g),
{
    let (after, r) = spec_supply(g, session, layer, Some(outputs));
    if r is Ok {
        let tops = g.layers[layer].tops;
        assert forall|j: int| 0 <= j < tops.len() implies (#[trigger] tops[j]).index
            < session.blobs.len() by {
            assert(g.is_top(layer, j));
        }
        lemma_stored(session.blobs, tops, outputs, outputs.len() as int);
        assert forall|b: int| 0 <= b < after.blobs.len() implies ((
        #[trigger] after.blobs[b]) matches Some(t) ==> t.wf()) by {
            if after.blobs[b] != session.blobs[b] {
                let j = choose|j: int|
                    0 <= j < outputs.len() && after.blobs[b] == Some(#[trigger] outputs[j]);
                assert(outputs[j].wf());
            }
        }
        assert forall|k: int, j: int| #[trigger]
            g.is_top(k, j) && after.computed[k] implies after.has(g.top(k, j)) by {
            if k == layer {
                assert(after.blobs[tops[j].index as int] is Some);
            } else {
                assert(session.has(g.top(k, j)));
            }
        }
    }
}

/// Once the outputs of a layer are handed in, asking for a blob that the
/// layer writes gives the tensor that was handed in for it and asks for no
/// computation, however often it is asked.
pub proof fn lemma_memoized(
    g: GraphView,
    rank: Seq<nat>,
    session: ExtractorView,
    layer: int,
    outputs: Seq<MatView>,
    i: int,
)
    requires
        g.linked(),
        session.wf(g),
        spec_supply(g, session, layer, Some(outputs)).1 is Ok,
        0 <= i < g.layers[layer].tops.len(),
    ensures
        spec_extract(g, rank, spec_supply(g, session, layer, Some(outputs)).0, g.top(layer, i))
            == Ok::<StepView, ExtractError>(StepView::Ready { tensor: outputs[i] }),
{
    let tops = g.layers[layer].tops;
    assert(g.is_top(layer, i));
    assert forall|j: int| 0 <= j < tops.len() implies (#[trigger] tops[j]).index
        < session.blobs.len() by {
        assert(g.is_top(layer, j));
    }
    assert forall|a: int, b: int|
        0 <= a < tops.len() && 0 <= b < tops.len() && (#[trigger] tops[a]).index == (
        #[trigger] tops[b]).index implies a == b by {
        assert(g.is_top(layer, a) && g.is_top(layer, b));
        assert(g.top(layer, a) == g.top(layer, b));
    }
    lemma_stored(session.blobs, tops, outputs, outputs.len() as int);
    lemma_stored_at(session.blobs, tops, outputs, outputs.len() as int, i);
}

/// An extraction asks for the computation of a layer only where the layer
/// can be computed and was not computed before: its inputs are all there,
/// and its outputs were not handed in. So every layer is computed at most
/// once in a session, and the outputs of the layer asked for are accepted.
pub proof fn lemma_computed_once(g: GraphView, rank: Seq<nat>, session: ExtractorView, blob: int)
    requires
        g.linked(),
        g.ranked(rank),
        session.wf(g),
    ensures
        spec_extract(g, rank, session, blob) matches Ok(StepView::Compute { layer, inputs }) ==> {
            &&& 0 <= layer < g.layers.len()
            &&& !session.computed[layer]
            &&& session.runnable(g, layer)
            &&& inputs.len() == g.layers[layer].bottoms.len()
        },
{
    if 0 <= blob < g.blobs.len() && session.blobs[blob] is None {
        if let Some(l) = g.blobs[blob].producer {
            lemma_plan(g, rank, session, l, 0);
            if let Plan::Run { layer } = plan(g, rank, session, l, 0) {
                let b = if layer == l {
                    blob
                } else {
                    choose|b: int|
                        0 <= b < g.blobs.len() && !session.has(b) && (#[trigger] g.blobs[b]).producer
                            == Some(layer)
                };
                assert(g.layers[layer].produces(b));
                let t = choose|t: int|
                    0 <= t < g.layers[layer].tops.len() && (#[trigger] g.layers[layer].tops[t]).index
                        == b;
                assert(g.is_top(layer, t));
                assert(g.top(layer, t) == b);
            }
        }
    }
}

/// Asking for a blob that is not there and that no layer writes fails: the
/// blob cannot be reached.
pub proof fn lemma_unreachable(g: GraphView, rank: Seq<nat>, session: ExtractorView, blob: int)
    requires
        0 <= blob < g.blobs.len(),
        blob <= u32::MAX,
        session.blobs[blob] is None,
        g.blobs[blob].producer is None,
    ensures
        spec_extract(g, rank, session, blob) == Err::<StepView, ExtractError>(
            ExtractError::Unreachable { blob: blob as u32 },
        ),
{
}

/// Where an extraction fails for want of a blob on the way, that blob is
/// not there and no layer writes it.
pub proof fn lemma_unsatisfied(
    g: GraphView,
    rank: Seq<nat>,
    session: ExtractorView,
    blob: int,
    missing: u32,
)
    requires
        g.linked(),
        g.ranked(rank),
        session.wf(g),
        spec_extract(g, rank, session, blob) == Err::<StepView, ExtractError>(
            ExtractError::Unsatisfied { blob: missing },
        ),
    ensures
        missing < g.blobs.len(),
        !session.has(missing as int),
        g.blobs[missing as int].producer is None,
{
    let l = g.blobs[blob].producer->0;
    lemma_plan(g, rank, session, l, 0);
}

/// Every computation brings an extraction nearer its end: handing in the
/// outputs of a layer leaves one layer less that was not computed, so a
/// session asks for no more computations than the graph has layers.
pub proof fn lemma_supply_progress(
    g: GraphView,
    session: ExtractorView,
    layer: int,
    outputs: Seq<MatView>,
)
    requires
        session.computed.len() == g.layers.len(),
        spec_supply(g, session, layer, Some(outputs)).1 is Ok,
    ensures
        pending(spec_supply(g, session, layer, Some(outputs)).0.computed) + 1 == pending(
            session.computed,
        ),
{
    lemma_pending_update(session.computed, layer);
}

/// A tensor that was supplied for a blob is the tensor that asking for the
/// blob gives.
pub proof fn lemma_input_is_extracted(
    g: GraphView,
    rank: Seq<nat>,
    session: ExtractorView,
    blob: int,
    tensor: MatView,
)
    requires
        session.blobs.len() == g.blobs.len(),
        spec_set_input(g, session, blob, tensor).1 is Ok,
    ensures
        spec_extract(g, rank, spec_set_input(g, session, blob, tensor).0, blob) == Ok::<
            StepView,
            ExtractError,
        >(StepView::Ready { tensor }),
{
}

/// A plan does not depend on the ranking it is made under: every ranking of
/// the graph gives the same plan.
pub proof fn lemma_plan_any_ranking(
    g: GraphView,
    rank: Seq<nat>,
    other: Seq<nat>,
    session: ExtractorView,
    l: int,
    i: int,
)
    requires
        g.linked(),
        g.ranked(rank),
        g.ranked(other),
        0 <= l < g.layers.len(),
    ensures
        plan(g, rank, session, l, i) == plan(g, other, session, l, i),
    decreases rank[l], g.layers[l].bottoms.len() - i,
{
    if 0 <= i < g.layers[l].bottoms.len() {
        assert(g.is_bottom(l, i));
        let b = g.bottom(l, i);
        assert(0 <= b < g.blobs.len());
        if session.has(b) {
            lemma_plan_any_ranking(g, rank, other, session, l, i + 1);
        } else if let Some(p) = g.blobs[b].producer {
            assert(g.feeds(p, l, i));
            lemma_plan_any_ranking(g, rank, other, session, p, 0);
        }
    }
}

} // verus!
