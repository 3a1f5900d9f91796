//! The network and the two phases in which it is built: the topology is
//! loaded, then the weights.
//!
//! Reading a source is the caller's part. The builder says which sources it
//! was given, takes what was read from them, one phase at a time, and decides
//! what becomes of the network.

use vstd::prelude::*;

use crate::datareader::{DataReader, DataReaderView};
use crate::error::{NetError, ReadError, SourceKind};
use crate::graph::{
    all_wf, blob_named, lemma_stray_blob_refused, spec_load_topology, spec_load_weights, stray,
    views, Graph, GraphView, Topology, TopologyView,
};
use crate::layer::{contains_nul, has_nul, Layer, LayerKindView, LayerRegistry};
use crate::mat::{Mat, MatView};
use crate::option::OptionView;

verus! {

/// How far the building of a network has come.
#[derive(Clone, Copy, Debug, PartialEq, Eq, Structural)]
pub enum Phase {
    /// Nothing is loaded.
    Empty,
    /// The layers and blobs are there; the layers have no weights yet.
    TopologyLoaded,
    /// The weights are loaded too.
    Ready,
}

/// What a source is.
pub enum LoadMethodView {
    Unset,
    Path { path: Seq<char> },
    DataReader { datareader: DataReaderView },
}

impl LoadMethodView {
    /// The position of a reader lies within its source.
    pub open spec fn wf(self) -> bool {
        self matches LoadMethodView::DataReader { datareader } ==> datareader.position
            <= datareader.bytes.len()
    }

    /// The bytes that reading up to `count` bytes from the source hands
    /// out: the next bytes of a reader, none of any other source.
    pub open spec fn next(self, count: nat) -> Seq<u8> {
        match self {
            LoadMethodView::DataReader { datareader } => datareader.next(count),
            _ => Seq::empty(),
        }
    }

    /// The source after `taken` bytes were read from it.
    pub open spec fn advanced(self, taken: nat) -> LoadMethodView {
        match self {
            LoadMethodView::DataReader { datareader } => LoadMethodView::DataReader {
                datareader: DataReaderView {
                    position: datareader.position + taken,
                    ..datareader
                },
            },
            _ => self,
        }
    }

    /// The kind of the source, where one was chosen.
    pub open spec fn kind(self) -> Option<SourceKind> {
        match self {
            LoadMethodView::Unset => None,
            LoadMethodView::Path { .. } => Some(SourceKind::Path),
            LoadMethodView::DataReader { .. } => Some(SourceKind::DataReader),
        }
    }
}

/// The source that a phase reads: none yet, a file by its path, or a reader.
#[derive(Debug)]
pub enum LoadMethod {
    Unset,
    Path { path: String },
    DataReader { datareader: DataReader },
}

impl View for LoadMethod {
    type V = LoadMethodView;

    open spec fn view(&self) -> LoadMethodView {
        match self {
            LoadMethod::Unset => LoadMethodView::Unset,
            LoadMethod::Path { path } => LoadMethodView::Path { path: path@ },
            LoadMethod::DataReader { datareader } => LoadMethodView::DataReader {
                datareader: datareader@,
            },
        }
    }
}

impl LoadMethod {
    /// Reads the next `count` bytes of the source, or as many as are left
    /// where they are fewer. Only a reader has bytes to hand out.
    pub fn read(&mut self, count: usize) -> (out: Vec<u8>)
        requires
            old(self)@.wf(),
        ensures
            out@ == old(self)@.next(count as nat),
            final(self)@ == old(self)@.advanced(out@.len()),
            final(self)@.wf(),
    {
        match self {
            LoadMethod::DataReader { datareader } => datareader.read(count),
            _ => Vec::new(),
        }
    }

    /// The kind of the source, where one was chosen.
    pub fn kind(&self) -> (kind: Option<SourceKind>)
        ensures
            kind == self@.kind(),
    {
        match self {
            LoadMethod::Unset => None,
            LoadMethod::Path { .. } => Some(SourceKind::Path),
            LoadMethod::DataReader { .. } => Some(SourceKind::DataReader),
        }
    }
}

/// What a network is: its execution options and its graph.
pub struct NetView {
    pub option: OptionView,
    pub graph: GraphView,
}

/// What a builder is: the options and sources it was given, the phase it is
/// in, and the graph built so far.
pub struct NetBuilderView {
    pub option: OptionView,
    pub param: LoadMethodView,
    pub model: LoadMethodView,
    pub phase: Phase,
    pub graph: GraphView,
}

/// What was read from a topology source, by its view.
pub open spec fn read_topology(outcome: Result<Topology, ReadError>) -> Result<
    TopologyView,
    ReadError,
> {
    match outcome {
        Ok(topology) => Ok(topology@),
        Err(e) => Err(e),
    }
}

/// What was read from a weight source, by its views.
pub open spec fn read_weights(outcome: Result<Vec<Mat>, ReadError>) -> Result<
    Seq<MatView>,
    ReadError,
> {
    match outcome {
        Ok(blocks) => Ok(views(blocks@)),
        Err(e) => Err(e),
    }
}

impl NetBuilderView {
    /// The builder before anything is set or loaded.
    pub open spec fn initial() -> NetBuilderView {
        NetBuilderView {
            option: OptionView { num_threads: crate::option::DEFAULT_NUM_THREADS, vulkan_compute: false },
            param: LoadMethodView::Unset,
            model: LoadMethodView::Unset,
            phase: Phase::Empty,
            graph: GraphView::empty(),
        }
    }

    /// The builder with nothing loaded.
    pub open spec fn reset(self) -> NetBuilderView {
        NetBuilderView { phase: Phase::Empty, graph: GraphView::empty(), ..self }
    }

    /// The configuration error of a builder that lacks a source.
    pub open spec fn missing_source(self) -> Option<NetError> {
        if self.param is Unset {
            Some(NetError::NoParamSource)
        } else if self.model is Unset {
            Some(NetError::NoModelSource)
        } else {
            None
        }
    }

    /// What the first phase makes of what was read from the topology
    /// source: the builder afterwards, and what is returned. On every
    /// failure the builder stays as it was.
    pub open spec fn load_topology(
        self,
        kinds: Seq<LayerKindView>,
        outcome: Result<TopologyView, ReadError>,
    ) -> (NetBuilderView, Result<(), NetError>) {
        if let Some(e) = self.missing_source() {
            (self, Err(e))
        } else if self.phase != Phase::Empty {
            (self, Err(NetError::OutOfTurn))
        } else {
            match outcome {
                Err(error) => (
                    self,
                    Err(NetError::ParamRead { source: self.param.kind()->0, error }),
                ),
                Ok(topology) => match spec_load_topology(kinds, topology) {
                    Err(e) => (self, Err(e)),
                    Ok(graph) => (
                        NetBuilderView { phase: Phase::TopologyLoaded, graph, ..self },
                        Ok(()),
                    ),
                },
            }
        }
    }

    /// What the second phase makes of what was read from the weight source.
    /// A failure after the phase was entered leaves nothing loaded.
    pub open spec fn load_weights(self, outcome: Result<Seq<MatView>, ReadError>) -> (
        NetBuilderView,
        Result<(), NetError>,
    ) {
        if let Some(e) = self.missing_source() {
            (self, Err(e))
        } else if self.phase != Phase::TopologyLoaded {
            (self, Err(NetError::OutOfTurn))
        } else {
            match outcome {
                Err(error) => (
                    self.reset(),
                    Err(NetError::ModelRead { source: self.model.kind()->0, error }),
                ),
                Ok(blocks) => match spec_load_weights(self.graph, blocks) {
                    Err(e) => (self.reset(), Err(e)),
                    Ok(graph) => (NetBuilderView { phase: Phase::Ready, graph, ..self }, Ok(())),
                },
            }
        }
    }

    /// What building gives: the network of a builder that is ready.
    pub open spec fn build(self) -> Result<NetView, NetError> {
        if let Some(e) = self.missing_source() {
            Err(e)
        } else if self.phase != Phase::Ready {
            Err(NetError::OutOfTurn)
        } else {
            Ok(NetView { option: self.option, graph: self.graph })
        }
    }
}

/// Builds a network in two phases from the sources it is given.
#[derive(Debug)]
pub struct NetBuilder {
    option: crate::option::Option,
    param: LoadMethod,
    model: LoadMethod,
    phase: Phase,
    graph: Graph,
}

impl View for NetBuilder {
    type V = NetBuilderView;

    closed spec fn view(&self) -> NetBuilderView {
        NetBuilderView {
            option: self.option@,
            param: self.param@,
            model: self.model@,
            phase: self.phase,
            graph: self.graph@,
        }
    }
}

/// A network that is built: its graph is linked, free of cycles and holds
/// the weights. Nothing in it changes any more.
#[derive(Debug)]
pub struct Net {
    option: crate::option::Option,
    graph: Graph,
}

impl View for Net {
    type V = NetView;

    closed spec fn view(&self) -> NetView {
        NetView { option: self.option@, graph: self.graph@ }
    }
}

/// The view of a builder that was returned, or the error in its place.
pub open spec fn made_builder(r: Result<NetBuilder, NetError>) -> Result<NetBuilderView, NetError> {
    match r {
        Ok(builder) => Ok(builder@),
        Err(e) => Err(e),
    }
}

/// The view of a network that was built, or the error in its place.
pub open spec fn made_net(r: Result<Net, NetError>) -> Result<NetView, NetError> {
    match r {
        Ok(net) => Ok(net@),
        Err(e) => Err(e),
    }
}

impl NetBuilder {
    /// The ranks of the layers loaded so far.
    pub closed spec fn rank(&self) -> Seq<nat> {
        self.graph.rank()
    }

    /// The graph loaded so far is well formed; before the first phase it is
    /// empty, and after the second it holds the weights.
    pub closed spec fn wf(&self) -> bool {
        &&& self.graph.wf()
        &&& self.phase == Phase::Empty ==> self.graph@ == GraphView::empty()
        &&& self.phase == Phase::Ready ==> self.graph@.loaded()
        &&& self.param@.wf()
        &&& self.model@.wf()
    }

    /// What the invariant says of the view.
    pub proof fn lemma_wf(&self)
        requires
            self.wf(),
        ensures
            self@.graph.wf(),
            self@.phase == Phase::Empty ==> self@.graph == GraphView::empty(),
            self@.phase == Phase::Ready ==> self@.graph.loaded(),
            self@.param.wf(),
            self@.model.wf(),
    {
        self.graph.lemma_wf();
    }

    /// A builder without sources and with nothing loaded.
    pub fn new() -> (r: Result<NetBuilder, NetError>)
        ensures
            made_builder(r) == Ok::<NetBuilderView, NetError>(NetBuilderView::initial()),
            r matches Ok(builder) ==> builder.wf(),
    {
        Ok(
            NetBuilder {
                option: crate::option::Option::new(),
                param: LoadMethod::Unset,
                model: LoadMethod::Unset,
                phase: Phase::Empty,
                graph: Graph::new(),
            },
        )
    }

    /// Sets the execution options of the network.
    pub fn set_option(self, opt: &crate::option::Option) -> (builder: Self)
        requires
            self.wf(),
        ensures
            builder@ == (NetBuilderView { option: opt@, ..self@ }),
            builder.wf(),
    {
        let NetBuilder { option: _, param, model, phase, graph } = self;
        NetBuilder { option: *opt, param, model, phase, graph }
    }

    /// Chooses the file at `param_path` as the source of the topology. A
    /// path with a zero byte names no file.
    pub fn set_param_path(self, param_path: &str) -> (r: Result<Self, NetError>)
        requires
            self.wf(),
        ensures
            made_builder(r) == (if has_nul(param_path@) {
                Err::<NetBuilderView, NetError>(NetError::InvalidParamPath)
            } else {
                Ok::<NetBuilderView, NetError>(
                    NetBuilderView { param: LoadMethodView::Path { path: param_path@ }, ..self@ },
                )
            }),
            r matches Ok(builder) ==> builder.wf(),
    {
        if contains_nul(param_path) {
            return Err(NetError::InvalidParamPath);
        }
        let NetBuilder { option, param: _, model, phase, graph } = self;
        Ok(
            NetBuilder {
                option,
                param: LoadMethod::Path { path: param_path.to_owned() },
                model,
                phase,
                graph,
            },
        )
    }

    /// Chooses the file at `model_path` as the source of the weights. A path
    /// with a zero byte names no file.
    pub fn set_model_path(self, model_path: &str) -> (r: Result<Self, NetError>)
        requires
            self.wf(),
        ensures
            made_builder(r) == (if has_nul(model_path@) {
                Err::<NetBuilderView, NetError>(NetError::InvalidModelPath)
            } else {
                Ok::<NetBuilderView, NetError>(
                    NetBuilderView { model: LoadMethodView::Path { path: model_path@ }, ..self@ },
                )
            }),
            r matches Ok(builder) ==> builder.wf(),
    {
        if contains_nul(model_path) {
            return Err(NetError::InvalidModelPath);
        }
        let NetBuilder { option, param, model: _, phase, graph } = self;
        Ok(
            NetBuilder {
                option,
                param,
                model: LoadMethod::Path { path: model_path.to_owned() },
                phase,
                graph,
            },
        )
    }

    /// Chooses a reader as the source of the topology.
    pub fn set_param_datareader(self, datareader: DataReader) -> (builder: Self)
        requires
            self.wf(),
            datareader.wf(),
        ensures
            builder@ == (NetBuilderView {
                param: LoadMethodView::DataReader { datareader: datareader@ },
                ..self@
            }),
            builder.wf(),
    {
        let NetBuilder { option, param: _, model, phase, graph } = self;
        NetBuilder { option, param: LoadMethod::DataReader { datareader }, model, phase, graph }
    }

    /// Chooses a reader as the source of the weights.
    pub fn set_model_datareader(self, datareader: DataReader) -> (builder: Self)
        requires
            self.wf(),
            datareader.wf(),
        ensures
            builder@ == (NetBuilderView {
                model: LoadMethodView::DataReader { datareader: datareader@ },
                ..self@
            }),
            builder.wf(),
    {
        let NetBuilder { option, param, model: _, phase, graph } = self;
        NetBuilder { option, param, model: LoadMethod::DataReader { datareader }, phase, graph }
    }

    /// The source of the topology.
    pub fn param(&self) -> (source: &LoadMethod)
        ensures
            source@ == self@.param,
    {
        &self.param
    }

    /// The source of the weights.
    pub fn model(&self) -> (source: &LoadMethod)
        ensures
            source@ == self@.model,
    {
        &self.model
    }

    /// Reads the next `count` bytes of the topology source, or as many as
    /// are left where they are fewer. Only a reader has bytes to hand out.
    pub fn read_param(&mut self, count: usize) -> (out: Vec<u8>)
        requires
            old(self).wf(),
        ensures
            out@ == old(self)@.param.next(count as nat),
            final(self)@ == (NetBuilderView {
                param: old(self)@.param.advanced(out@.len()),
                ..old(self)@
            }),
            final(self).wf(),
    {
        self.param.read(count)
    }

    /// Reads the next `count` bytes of the weight source, or as many as are
    /// left where they are fewer. Only a reader has bytes to hand out.
    pub fn read_model(&mut self, count: usize) -> (out: Vec<u8>)
        requires
            old(self).wf(),
        ensures
            out@ == old(self)@.model.next(count as nat),
            final(self)@ == (NetBuilderView {
                model: old(self)@.model.advanced(out@.len()),
                ..old(self)@
            }),
            final(self).wf(),
    {
        self.model.read(count)
    }

    /// The phase that the builder is in.
    pub fn phase(&self) -> (phase: Phase)
        ensures
            phase == self@.phase,
    {
        self.phase
    }

    /// Checks that both sources are chosen. A caller checks before it reads
    /// either of them.
    pub fn check_sources(&self) -> (r: Result<(), NetError>)
        ensures
            r == (match self@.missing_source() {
                Some(e) => Err::<(), NetError>(e),
                None => Ok::<(), NetError>(()),
            }),
    {
        if let LoadMethod::Unset = self.param {
            return Err(NetError::NoParamSource);
        }
        if let LoadMethod::Unset = self.model {
            return Err(NetError::NoModelSource);
        }
        Ok(())
    }

    /// The first phase: takes what was read from the topology source and,
    /// where it is a topology in order, builds the graph from it.
    pub fn load_topology(
        &mut self,
        registry: &LayerRegistry,
        outcome: Result<Topology, ReadError>,
    ) -> (r: Result<(), NetError>)
        requires
            old(self).wf(),
            registry.wf(),
        ensures
            (final(self)@, r) == old(self)@.load_topology(registry@, read_topology(outcome)),
            final(self).wf(),
    {
        self.check_sources()?;
        if self.phase != Phase::Empty {
            return Err(NetError::OutOfTurn);
        }
        let topology: Topology = match outcome {
            Ok(topology) => topology,
            Err(error) => {
                let source: SourceKind = match self.param.kind() {
                    Some(kind) => kind,
                    None => SourceKind::Path,
                };
                return Err(NetError::ParamRead { source, error });
            },
        };
        let graph: Graph = Graph::build(registry, &topology)?;
        self.graph = graph;
        self.phase = Phase::TopologyLoaded;
        Ok(())
    }

    /// The second phase: takes what was read from the weight source, one
    /// block for every layer in the order in which the topology declares the
    /// layers, and puts the blocks into the layers.
    pub fn load_weights(&mut self, outcome: Result<Vec<Mat>, ReadError>) -> (r: Result<
        (),
        NetError,
    >)
        requires
            old(self).wf(),
            outcome matches Ok(blocks) ==> all_wf(blocks@),
        ensures
            (final(self)@, r) == old(self)@.load_weights(read_weights(outcome)),
            final(self).wf(),
    {
        self.check_sources()?;
        if self.phase != Phase::TopologyLoaded {
            return Err(NetError::OutOfTurn);
        }
        let mut graph: Graph = Graph::new();
        core::mem::swap(&mut graph, &mut self.graph);
        self.phase = Phase::Empty;
        let blocks: Vec<Mat> = match outcome {
            Ok(blocks) => blocks,
            Err(error) => {
                let source: SourceKind = match self.model.kind() {
                    Some(kind) => kind,
                    None => SourceKind::Path,
                };
                return Err(NetError::ModelRead { source, error });
            },
        };
        let loaded: Graph = graph.load_weights(blocks)?;
        self.graph = loaded;
        self.phase = Phase::Ready;
        Ok(())
    }

    /// Hands out the network, once both phases are through.
    pub fn build(self) -> (r: Result<Net, NetError>)
        requires
            self.wf(),
        ensures
            made_net(r) == self@.build(),
            r matches Ok(net) ==> net.wf(),
    {
        self.check_sources()?;
        if self.phase != Phase::Ready {
            return Err(NetError::OutOfTurn);
        }
        let NetBuilder { option, param: _, model: _, phase: _, graph } = self;
        Ok(Net { option, graph })
    }
}

impl Net {
    /// The graph is well formed and holds the weights.
    pub closed spec fn wf(&self) -> bool {
        self.graph.wf() && self.graph@.loaded()
    }

    /// The ranks of the layers: a layer ranks above every layer whose output
    /// it reads.
    pub closed spec fn rank(&self) -> Seq<nat> {
        self.graph.rank()
    }

    /// What the invariant says of the view.
    pub proof fn lemma_wf(&self)
        requires
            self.wf(),
        ensures
            self@.graph.wf(),
            self@.graph.loaded(),
            self@.graph.linked(),
            self@.graph.ranked(self.rank()),
    {
        self.graph.lemma_wf();
    }

    /// The execution options, as they were when the network was built.
    pub fn option(&self) -> (opt: &crate::option::Option)
        ensures
            opt@ == self@.option,
    {
        &self.option
    }

    /// The graph of the network.
    pub fn graph(&self) -> (graph: &Graph)
        ensures
            graph@ == self@.graph,
            self.wf() ==> graph.wf() && graph.rank() == self.rank(),
    {
        &self.graph
    }

    /// Layers of the network.
    pub fn layer_count(&self) -> (n: usize)
        ensures
            n == self@.graph.layers.len(),
    {
        self.graph.layer_count()
    }

    /// Blobs of the network.
    pub fn blob_count(&self) -> (n: usize)
        ensures
            n == self@.graph.blobs.len(),
    {
        self.graph.blob_count()
    }

    /// Layer `index`, where the network has such a layer.
    pub fn layer(&self, index: usize) -> (layer: Option<&Layer>)
        ensures
            match layer {
                Some(layer) => index < self@.graph.layers.len() && layer@
                    == self@.graph.layers[index as int] && (self.wf() ==> layer.wf()),
                None => index >= self@.graph.layers.len(),
            },
    {
        if index < self.graph.layer_count() {
            Some(self.graph.layer(index))
        } else {
            None
        }
    }

    /// The index of the first blob named `name`.
    pub fn find_blob(&self, name: &str) -> (r: Option<u32>)
        requires
            self.wf(),
        ensures
            match r {
                Some(b) => blob_named(self@.graph.blobs, name@) == Some(b as int) && b
                    < self@.graph.blobs.len(),
                None => blob_named(self@.graph.blobs, name@) is None,
            },
    {
        self.graph.find_blob(name)
    }
}

/// Loading a topology in which a layer names a blob that the topology does
/// not have fails and leaves the builder as it was. A builder that had
/// nothing loaded has nothing loaded afterwards: the weights are not taken,
/// and no network is handed out from which an extraction could start.
pub proof fn lemma_stray_blob_fails_build(
    builder: NetBuilderView,
    kinds: Seq<LayerKindView>,
    topo: TopologyView,
    l: int,
    i: int,
    blocks: Result<Seq<MatView>, ReadError>,
)
    requires
        0 <= l < topo.layers.len(),
        stray(topo.layers[l].bottoms, topo.blobs.len(), i) || stray(
            topo.layers[l].tops,
            topo.blobs.len(),
            i,
        ),
    ensures
        ({
            let (after, r) = builder.load_topology(kinds, Ok(topo));
            &&& r is Err
            &&& after == builder
            &&& builder.phase == Phase::Empty ==> {
                &&& after.load_weights(blocks).1 is Err
                &&& after.load_weights(blocks).0 == after
                &&& after.build() is Err
            }
        }),
{
    lemma_stray_blob_refused(kinds, topo, l, i);
}

/// A network is handed out by a builder that went through both phases, and
/// by no other: its graph is the graph of a topology that was loaded, with
/// the weights put in.
pub proof fn lemma_build_needs_both_phases(builder: NetBuilderView)
    requires
        builder.build() is Ok,
    ensures
        builder.phase == Phase::Ready,
        !(builder.param is Unset),
        !(builder.model is Unset),
        builder.build()->Ok_0.graph == builder.graph,
        builder.build()->Ok_0.option == builder.option,
{
}

} // verus!
