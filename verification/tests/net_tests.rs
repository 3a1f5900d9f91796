use ncnn_rs::datareader::DataReader;
use ncnn_rs::error::{ExtractError, NetError, ReadError, SourceKind};
use ncnn_rs::extractor::{Extractor, Step};
use ncnn_rs::graph::{LayerDesc, Topology};
use ncnn_rs::layer::{
    contains_nul, BlobSlot, Capabilities, Layer, LayerError, LayerId, LayerRegistry, LayerShape,
};
use ncnn_rs::mat::Mat;
use ncnn_rs::net::{LoadMethod, Net, NetBuilder, Phase};
use ncnn_rs::option::Option as NetOption;

fn caps() -> Capabilities {
    Capabilities::default()
}

fn registry() -> LayerRegistry {
    let mut r = LayerRegistry::new();
    r.register("Input", caps()).unwrap();
    r.register("Scale", Capabilities { one_blob_only: true, support_inplace: true, ..caps() })
        .unwrap();
    r.register("Add", caps()).unwrap();
    r.register("Split", caps()).unwrap();
    r
}

fn slot(index: u32) -> BlobSlot {
    BlobSlot { index, shape: LayerShape::new(3, 1, 1, 1) }
}

fn desc(kind: &str, name: &str, bottoms: &[u32], tops: &[u32], weight_shape: LayerShape) -> LayerDesc {
    LayerDesc {
        kind_name: kind.to_string(),
        name: name.to_string(),
        bottoms: bottoms.iter().map(|b| slot(*b)).collect(),
        tops: tops.iter().map(|b| slot(*b)).collect(),
        weight_shape,
    }
}

fn no_weights() -> LayerShape {
    LayerShape::default()
}

fn one_scalar() -> LayerShape {
    LayerShape::new(1, 1, 1, 1)
}

fn scalar_tensor(value: f32) -> Mat {
    let mut m = Mat::new_1d(1, None).unwrap();
    m.fill(value.to_bits());
    m
}

fn input_tensor(value: f32) -> Mat {
    let mut m = Mat::new_3d(1, 1, 1, None).unwrap();
    m.fill(value.to_bits());
    m
}

fn value_of(m: &Mat) -> f32 {
    let d = m.data();
    f32::from_bits(u32::from_le_bytes([d[0], d[1], d[2], d[3]]))
}

/// in -> [pass] -> mid -> [scale] -> out
fn two_layers() -> Topology {
    Topology {
        blobs: vec!["in".to_string(), "mid".to_string(), "out".to_string()],
        layers: vec![
            desc("Input", "pass", &[0], &[1], no_weights()),
            desc("Scale", "scale", &[1], &[2], one_scalar()),
        ],
    }
}

fn builder() -> NetBuilder {
    NetBuilder::new()
        .unwrap()
        .set_param_path("net.param")
        .unwrap()
        .set_model_path("net.bin")
        .unwrap()
}

fn build(topology: Topology, weights: Vec<Mat>) -> Net {
    let mut b = builder();
    b.load_topology(&registry(), Ok(topology)).unwrap();
    b.load_weights(Ok(weights)).unwrap();
    b.build().unwrap()
}

/// Computes a layer as the compute backend would: `Input` and `Split` hand
/// their input on, `Scale` multiplies by its weight, `Add` adds its inputs.
fn forward(net: &Net, layer: u32, inputs: &[Mat]) -> Vec<Mat> {
    let l = net.layer(layer as usize).unwrap();
    match l.kind_name() {
        "Input" => vec![inputs[0].clone()],
        "Split" => (0..l.top_len()).map(|_| inputs[0].clone()).collect(),
        "Scale" => {
            let scale = value_of(l.weights());
            let mut out = inputs[0].clone();
            out.fill((value_of(&inputs[0]) * scale).to_bits());
            vec![out]
        }
        "Add" => {
            let mut out = inputs[0].clone();
            out.fill(inputs.iter().map(value_of).sum::<f32>().to_bits());
            vec![out]
        }
        other => panic!("no kernel for {}", other),
    }
}

/// Drives an extraction to its end and counts the computations per layer.
fn run(net: &Net, ex: &mut Extractor, blob: u32, calls: &mut Vec<u32>) -> Result<Mat, ExtractError> {
    loop {
        match ex.extract(blob)? {
            Step::Ready { tensor } => return Ok(tensor),
            Step::Compute { layer, inputs } => {
                calls[layer as usize] += 1;
                let outputs = forward(net, layer, &inputs);
                ex.supply(layer, Some(outputs))?;
            }
        }
    }
}

#[test]
fn load_not_exist_model() {
    let _ = NetBuilder::new()
        .unwrap()
        .set_param_path("not_exist.param")
        .unwrap()
        .set_model_path("not_exist.bin")
        .unwrap()
        .build()
        .map(|_| ())
        .expect_err("Expected files to not be found");
}

#[test]
fn unreadable_sources_fail_the_phase() {
    let mut b = builder();
    assert_eq!(
        b.load_topology(&registry(), Err(ReadError::Unavailable)),
        Err(NetError::ParamRead { source: SourceKind::Path, error: ReadError::Unavailable })
    );
    assert_eq!(b.phase(), Phase::Empty);
    b.load_topology(&registry(), Ok(two_layers())).unwrap();
    assert_eq!(b.phase(), Phase::TopologyLoaded);
    assert_eq!(
        b.load_weights(Err(ReadError::Truncated)),
        Err(NetError::ModelRead { source: SourceKind::Path, error: ReadError::Truncated })
    );
    assert_eq!(b.phase(), Phase::Empty);
    assert_eq!(b.build().map(|_| ()), Err(NetError::OutOfTurn));

    let mut b = NetBuilder::new()
        .unwrap()
        .set_param_datareader(DataReader::from_memory(vec![1, 2, 3]))
        .set_model_datareader(DataReader::from_memory(vec![]));
    assert_eq!(
        b.load_topology(&registry(), Err(ReadError::Malformed)),
        Err(NetError::ParamRead { source: SourceKind::DataReader, error: ReadError::Malformed })
    );
    b.load_topology(&registry(), Ok(two_layers())).unwrap();
    assert_eq!(
        b.load_weights(Err(ReadError::Unavailable)),
        Err(NetError::ModelRead { source: SourceKind::DataReader, error: ReadError::Unavailable })
    );
}

fn is_send<T: Send>() -> bool {
    true
}

#[test]
fn check_sync_send() {
    assert!(is_send::<Net>());
}

#[test]
fn sources_must_be_chosen_first() {
    let b = NetBuilder::new().unwrap();
    assert_eq!(b.check_sources(), Err(NetError::NoParamSource));
    assert!(matches!(b.param(), LoadMethod::Unset));
    assert_eq!(b.build().map(|_| ()), Err(NetError::NoParamSource));

    let mut b = NetBuilder::new().unwrap().set_param_path("a.param").unwrap();
    assert_eq!(b.check_sources(), Err(NetError::NoModelSource));
    assert!(matches!(b.param(), LoadMethod::Path { path } if path == "a.param"));
    // the missing source comes before anything that was read
    assert_eq!(b.load_topology(&registry(), Ok(two_layers())), Err(NetError::NoModelSource));
    assert_eq!(b.load_topology(&registry(), Err(ReadError::Unavailable)), Err(NetError::NoModelSource));
    assert_eq!(b.load_weights(Ok(vec![])), Err(NetError::NoModelSource));
    assert_eq!(b.phase(), Phase::Empty);
    assert_eq!(b.build().map(|_| ()), Err(NetError::NoModelSource));

    let b = NetBuilder::new().unwrap().set_model_datareader(DataReader::from_memory(vec![]));
    assert!(matches!(b.model(), LoadMethod::DataReader { .. }));
    assert_eq!(b.check_sources(), Err(NetError::NoParamSource));

    assert_eq!(builder().check_sources(), Ok(()));
}

#[test]
fn paths_with_a_zero_byte_are_refused() {
    assert_eq!(
        NetBuilder::new().unwrap().set_param_path("a\0b").map(|_| ()),
        Err(NetError::InvalidParamPath)
    );
    assert_eq!(
        NetBuilder::new().unwrap().set_model_path("\0").map(|_| ()),
        Err(NetError::InvalidModelPath)
    );
    assert!(contains_nul("a\0"));
    assert!(!contains_nul("a0"));
    assert!(!contains_nul(""));
}

#[test]
fn phases_come_in_turn() {
    let mut b = builder();
    assert_eq!(b.phase(), Phase::Empty);
    assert_eq!(b.load_weights(Ok(vec![])), Err(NetError::OutOfTurn));
    b.load_topology(&registry(), Ok(two_layers())).unwrap();
    assert_eq!(b.load_topology(&registry(), Ok(two_layers())), Err(NetError::OutOfTurn));
    assert_eq!(b.phase(), Phase::TopologyLoaded);
    b.load_weights(Ok(vec![Mat::new(), scalar_tensor(1.0)])).unwrap();
    assert_eq!(b.phase(), Phase::Ready);
    assert_eq!(b.load_weights(Ok(vec![Mat::new(), scalar_tensor(1.0)])), Err(NetError::OutOfTurn));
    assert_eq!(b.phase(), Phase::Ready);
    let net = b.build().unwrap();
    assert_eq!((net.layer_count(), net.blob_count()), (2, 3));

    let mut b = builder();
    b.load_topology(&registry(), Ok(two_layers())).unwrap();
    assert_eq!(b.build().map(|_| ()), Err(NetError::OutOfTurn));
}

#[test]
fn options_are_frozen_in_the_network() {
    let mut opt = NetOption::new();
    opt.set_num_threads(4);
    opt.set_vulkan_compute(true);
    let mut b = builder().set_option(&opt);
    opt.set_num_threads(9);
    b.load_topology(&registry(), Ok(two_layers())).unwrap();
    b.load_weights(Ok(vec![Mat::new(), scalar_tensor(1.0)])).unwrap();
    let net = b.build().unwrap();
    assert_eq!(net.option().get_num_threads(), 4);
    assert!(net.option().get_vulkan_compute());
}

#[test]
fn blob_index_out_of_range_fails_the_build() {
    let mut t = two_layers();
    t.layers[1].bottoms[0].index = 3;
    let mut b = builder();
    assert_eq!(
        b.load_topology(&registry(), Ok(t)),
        Err(NetError::BlobOutOfRange { layer: 1, blob: 3 })
    );
    assert_eq!(b.phase(), Phase::Empty);
    assert_eq!(b.load_weights(Ok(vec![Mat::new(), scalar_tensor(1.0)])), Err(NetError::OutOfTurn));
    assert_eq!(b.build().map(|_| ()), Err(NetError::OutOfTurn));

    let mut t = two_layers();
    t.layers[0].tops[0].index = 7;
    let mut b = builder();
    assert_eq!(
        b.load_topology(&registry(), Ok(t)),
        Err(NetError::BlobOutOfRange { layer: 0, blob: 7 })
    );
    // the builder can start over with a topology that is in order
    b.load_topology(&registry(), Ok(two_layers())).unwrap();
}

#[test]
fn unknown_layer_kind_fails_the_build() {
    let mut t = two_layers();
    t.layers[1].kind_name = "Conv".to_string();
    let mut b = builder();
    assert_eq!(
        b.load_topology(&registry(), Ok(t)),
        Err(NetError::Layer { layer: 1, cause: LayerError::UnknownType })
    );
    let mut t = two_layers();
    t.layers[0].kind_name = "In\0put".to_string();
    assert_eq!(
        b.load_topology(&registry(), Ok(t)),
        Err(NetError::Layer { layer: 0, cause: LayerError::BadTypeName })
    );
    assert_eq!(b.phase(), Phase::Empty);
}

#[test]
fn a_blob_has_one_producer() {
    let mut t = two_layers();
    t.layers[1].tops[0].index = 1;
    let mut b = builder();
    assert_eq!(
        b.load_topology(&registry(), Ok(t)),
        Err(NetError::DuplicateProducer { layer: 1, blob: 1 })
    );
    let t = Topology {
        blobs: vec!["a".to_string(), "b".to_string()],
        layers: vec![desc("Split", "s", &[0], &[1, 1], no_weights())],
    };
    assert_eq!(
        b.load_topology(&registry(), Ok(t)),
        Err(NetError::DuplicateProducer { layer: 0, blob: 1 })
    );
}

#[test]
fn the_first_fault_is_reported() {
    // layer 0: stray input 9 and stray output 8; layer 1: unknown kind
    let t = Topology {
        blobs: vec!["a".to_string(), "b".to_string()],
        layers: vec![
            desc("Input", "x", &[0, 9], &[8], no_weights()),
            desc("Nope", "y", &[0], &[1], no_weights()),
        ],
    };
    let mut b = builder();
    assert_eq!(
        b.load_topology(&registry(), Ok(t)),
        Err(NetError::BlobOutOfRange { layer: 0, blob: 9 })
    );
}

#[test]
fn cycles_are_refused() {
    // a -> [x] -> b -> [y] -> a
    let t = Topology {
        blobs: vec!["a".to_string(), "b".to_string()],
        layers: vec![
            desc("Input", "x", &[0], &[1], no_weights()),
            desc("Input", "y", &[1], &[0], no_weights()),
        ],
    };
    let mut b = builder();
    assert_eq!(b.load_topology(&registry(), Ok(t)), Err(NetError::CyclicDependency));
    // a layer that reads what it writes
    let t = Topology {
        blobs: vec!["a".to_string()],
        layers: vec![desc("Input", "x", &[0], &[0], no_weights())],
    };
    assert_eq!(b.load_topology(&registry(), Ok(t)), Err(NetError::CyclicDependency));
    assert_eq!(b.phase(), Phase::Empty);
}

#[test]
fn layers_may_be_declared_in_any_order() {
    // the scale layer is declared before the layer it reads from
    let t = Topology {
        blobs: vec!["in".to_string(), "mid".to_string(), "out".to_string()],
        layers: vec![
            desc("Scale", "scale", &[1], &[2], one_scalar()),
            desc("Input", "pass", &[0], &[1], no_weights()),
        ],
    };
    let net = build(t, vec![scalar_tensor(5.0), Mat::new()]);
    let mut ex = net.create_extractor();
    ex.set_input(0, input_tensor(2.0)).unwrap();
    let mut calls = vec![0, 0];
    let out = run(&net, &mut ex, 2, &mut calls).unwrap();
    assert_eq!(value_of(&out), 10.0);
    assert_eq!(calls, vec![1, 1]);
}

#[test]
fn weights_are_checked_against_the_topology() {
    let mut b = builder();
    b.load_topology(&registry(), Ok(two_layers())).unwrap();
    assert_eq!(
        b.load_weights(Ok(vec![Mat::new()])),
        Err(NetError::LayerCountMismatch { layers: 2, blocks: 1 })
    );
    assert_eq!(b.phase(), Phase::Empty);

    let mut b = builder();
    b.load_topology(&registry(), Ok(two_layers())).unwrap();
    assert_eq!(
        b.load_weights(Ok(vec![Mat::new(), scalar_tensor(1.0), Mat::new()])),
        Err(NetError::LayerCountMismatch { layers: 2, blocks: 3 })
    );

    let mut b = builder();
    b.load_topology(&registry(), Ok(two_layers())).unwrap();
    assert_eq!(
        b.load_weights(Ok(vec![Mat::new(), Mat::new_1d(2, None).unwrap()])),
        Err(NetError::ShapeMismatch {
            layer: 1,
            declared: LayerShape::new(1, 1, 1, 1),
            found: LayerShape::new(1, 2, 1, 1),
        })
    );
    assert_eq!(b.phase(), Phase::Empty);
    assert_eq!(b.build().map(|_| ()), Err(NetError::OutOfTurn));

    let mut b = builder();
    b.load_topology(&registry(), Ok(two_layers())).unwrap();
    assert_eq!(
        b.load_weights(Ok(vec![scalar_tensor(1.0), scalar_tensor(1.0)])),
        Err(NetError::ShapeMismatch {
            layer: 0,
            declared: LayerShape::new(0, 0, 0, 0),
            found: LayerShape::new(1, 1, 1, 1),
        })
    );
}

#[test]
fn scale_network_end_to_end() {
    let scale = 3.5f32;
    let net = build(two_layers(), vec![Mat::new(), scalar_tensor(scale)]);
    let mut ex = net.create_extractor();
    ex.set_input(0, input_tensor(2.0)).unwrap();
    let mut calls = vec![0, 0];
    let out = run(&net, &mut ex, 2, &mut calls).unwrap();
    assert_eq!((out.dimensions(), out.width(), out.height(), out.channels()), (3, 1, 1, 1));
    assert_eq!(value_of(&out), 2.0 * scale);
    assert_eq!(calls, vec![1, 1]);
}

#[test]
fn extraction_is_memoized() {
    let net = build(two_layers(), vec![Mat::new(), scalar_tensor(4.0)]);
    let mut ex = net.create_extractor();
    ex.set_input_by_name("in", input_tensor(2.0)).unwrap();
    let mut calls = vec![0, 0];
    let first = run(&net, &mut ex, 2, &mut calls).unwrap();
    assert_eq!(calls, vec![1, 1]);
    let second = run(&net, &mut ex, 2, &mut calls).unwrap();
    assert_eq!(calls, vec![1, 1]);
    assert_eq!(first.data(), second.data());
    assert_eq!(value_of(&second), 8.0);
    // the blob on the way is there too, and is not computed again
    let mid = run(&net, &mut ex, 1, &mut calls).unwrap();
    assert_eq!(value_of(&mid), 2.0);
    assert_eq!(calls, vec![1, 1]);
    assert!(ex.is_computed(0) && ex.is_computed(1));
    assert!(!ex.is_computed(2));
    assert!(matches!(ex.extract_by_name("out"), Ok(Step::Ready { .. })));
}

#[test]
fn a_shared_layer_is_computed_once() {
    // in -> [split] -> a, b; a -> [s1] -> c; b -> [s2] -> d; c, d -> [add] -> out
    let t = Topology {
        blobs: ["in", "a", "b", "c", "d", "out"].iter().map(|s| s.to_string()).collect(),
        layers: vec![
            desc("Add", "add", &[3, 4], &[5], no_weights()),
            desc("Scale", "s1", &[1], &[3], one_scalar()),
            desc("Scale", "s2", &[2], &[4], one_scalar()),
            desc("Split", "split", &[0], &[1, 2], no_weights()),
        ],
    };
    let net = build(t, vec![Mat::new(), scalar_tensor(2.0), scalar_tensor(10.0), Mat::new()]);
    let mut ex = net.create_extractor();
    ex.set_input(0, input_tensor(1.5)).unwrap();
    // the first step is the split, which everything else waits for
    match ex.extract(5).unwrap() {
        Step::Compute { layer, inputs } => {
            assert_eq!(layer, 3);
            assert_eq!(inputs.len(), 1);
            assert_eq!(value_of(&inputs[0]), 1.5);
        }
        Step::Ready { .. } => panic!("nothing was computed yet"),
    }
    let mut calls = vec![0; 4];
    let out = run(&net, &mut ex, 5, &mut calls).unwrap();
    assert_eq!(value_of(&out), 1.5 * 2.0 + 1.5 * 10.0);
    assert_eq!(calls, vec![1, 1, 1, 1]);
}

#[test]
fn only_what_is_asked_for_is_computed() {
    let t = Topology {
        blobs: ["in", "a", "b", "c", "d", "out"].iter().map(|s| s.to_string()).collect(),
        layers: vec![
            desc("Split", "split", &[0], &[1, 2], no_weights()),
            desc("Scale", "s1", &[1], &[3], one_scalar()),
            desc("Scale", "s2", &[2], &[4], one_scalar()),
            desc("Add", "add", &[3, 4], &[5], no_weights()),
        ],
    };
    let net = build(t, vec![Mat::new(), scalar_tensor(2.0), scalar_tensor(10.0), Mat::new()]);
    let mut ex = net.create_extractor();
    ex.set_input(0, input_tensor(1.0)).unwrap();
    let mut calls = vec![0; 4];
    let c = run(&net, &mut ex, 3, &mut calls).unwrap();
    assert_eq!(value_of(&c), 2.0);
    assert_eq!(calls, vec![1, 1, 0, 0]);
    // a supplied intermediate blob takes the place of the layers before it
    let mut ex = net.create_extractor();
    ex.set_input(3, input_tensor(7.0)).unwrap();
    ex.set_input(4, input_tensor(8.0)).unwrap();
    let mut calls = vec![0; 4];
    let out = run(&net, &mut ex, 5, &mut calls).unwrap();
    assert_eq!(value_of(&out), 15.0);
    assert_eq!(calls, vec![0, 0, 0, 1]);
}

#[test]
fn unreachable_blob_is_an_error() {
    let net = build(two_layers(), vec![Mat::new(), scalar_tensor(4.0)]);
    let ex = net.create_extractor();
    // blob 0 is written by no layer and was not supplied
    assert_eq!(ex.extract(0).map(|_| ()), Err(ExtractError::Unreachable { blob: 0 }));
    assert_eq!(ex.extract_by_name("in").map(|_| ()), Err(ExtractError::Unreachable { blob: 0 }));
    // the output depends on it
    assert_eq!(ex.extract(2).map(|_| ()), Err(ExtractError::Unsatisfied { blob: 0 }));
    assert_eq!(ex.extract(1).map(|_| ()), Err(ExtractError::Unsatisfied { blob: 0 }));
    // the failure is the same when asked again
    assert_eq!(ex.extract(2).map(|_| ()), Err(ExtractError::Unsatisfied { blob: 0 }));
}

#[test]
fn unknown_blobs_are_refused() {
    let net = build(two_layers(), vec![Mat::new(), scalar_tensor(4.0)]);
    let mut ex = net.create_extractor();
    assert_eq!(ex.set_input(3, input_tensor(1.0)), Err(ExtractError::UnknownBlob));
    assert_eq!(ex.set_input_by_name("nope", input_tensor(1.0)), Err(ExtractError::UnknownBlob));
    assert_eq!(ex.extract(3).map(|_| ()), Err(ExtractError::UnknownBlob));
    assert_eq!(ex.extract_by_name("").map(|_| ()), Err(ExtractError::UnknownBlob));
    assert_eq!(net.find_blob("mid"), Some(1));
    assert_eq!(net.find_blob("x"), None);
}

#[test]
fn outputs_are_taken_once_and_in_full() {
    let net = build(two_layers(), vec![Mat::new(), scalar_tensor(4.0)]);
    let mut ex = net.create_extractor();
    assert_eq!(ex.supply(2, Some(vec![])), Err(ExtractError::UnknownLayer));
    // the inputs of layer 0 are not there yet
    assert_eq!(
        ex.supply(0, Some(vec![input_tensor(1.0)])),
        Err(ExtractError::NotRunnable { layer: 0 })
    );
    ex.set_input(0, input_tensor(1.0)).unwrap();
    assert_eq!(
        ex.supply(1, Some(vec![input_tensor(1.0)])),
        Err(ExtractError::NotRunnable { layer: 1 })
    );
    assert_eq!(ex.supply(0, None), Err(ExtractError::ComputeFailed { layer: 0 }));
    assert_eq!(
        ex.supply(0, Some(vec![])),
        Err(ExtractError::OutputCount { layer: 0, outputs: 1, handed: 0 })
    );
    assert_eq!(
        ex.supply(0, Some(vec![input_tensor(1.0), input_tensor(2.0)])),
        Err(ExtractError::OutputCount { layer: 0, outputs: 1, handed: 2 })
    );
    assert!(!ex.is_computed(0));
    assert!(matches!(ex.extract(1), Ok(Step::Compute { layer: 0, .. })));
    ex.supply(0, Some(vec![input_tensor(6.0)])).unwrap();
    assert!(ex.is_computed(0));
    assert_eq!(
        ex.supply(0, Some(vec![input_tensor(9.0)])),
        Err(ExtractError::AlreadyComputed { layer: 0 })
    );
    match ex.extract(1).unwrap() {
        Step::Ready { tensor } => assert_eq!(value_of(&tensor), 6.0),
        Step::Compute { .. } => panic!("the outputs were handed in"),
    }
}

#[test]
fn sessions_are_independent() {
    let net = build(two_layers(), vec![Mat::new(), scalar_tensor(4.0)]);
    let mut a = net.create_extractor();
    let mut b = net.create_extractor();
    a.set_input(0, input_tensor(1.0)).unwrap();
    b.set_input(0, input_tensor(2.0)).unwrap();
    let mut calls = vec![0, 0];
    assert_eq!(value_of(&run(&net, &mut a, 2, &mut calls).unwrap()), 4.0);
    assert_eq!(value_of(&run(&net, &mut b, 2, &mut calls).unwrap()), 8.0);
    assert_eq!(calls, vec![2, 2]);
}

#[test]
fn registry_makes_layers_by_name_and_index() {
    let r = registry();
    assert_eq!(r.len(), 4);
    assert_eq!(r.find("Scale").map(|id| id.index()), Some(1));
    assert!(r.find("scale").is_none());
    let l = Layer::create_by_type_name(&r, "Scale").unwrap();
    assert_eq!(l.kind_name(), "Scale");
    assert_eq!(l.id().index(), 1);
    assert_eq!(l.name(), "");
    assert!(l.one_blob_only() && l.support_inplace() && !l.support_vulkan());
    assert_eq!((l.bottom_len(), l.top_len()), (0, 0));
    assert_eq!(Layer::create_by_type_name(&r, "Conv").map(|_| ()), Err(LayerError::UnknownType));
    assert_eq!(Layer::create_by_type_name(&r, "Sca\0le").map(|_| ()), Err(LayerError::BadTypeName));
    assert_eq!(Layer::create_by_type_name(&r, "\0").map(|_| ()), Err(LayerError::BadTypeName));
    let l = Layer::create_by_type_id(&r, LayerId::new(2)).unwrap();
    assert_eq!(l.kind_name(), "Add");
    assert_eq!(l.id(), LayerId::new(2));
    assert_eq!(Layer::create_by_type_id(&r, LayerId::new(4)).map(|_| ()), Err(LayerError::UnknownType));
    assert_eq!(Layer::create_by_type_id(&r, LayerId::new(-1)).map(|_| ()), Err(LayerError::UnknownType));
    let mut r = LayerRegistry::new();
    assert_eq!(r.register("a\0", caps()).map(|_| ()), Err(LayerError::BadTypeName));
    assert_eq!(r.len(), 0);
    assert_eq!(r.register("a", caps()).map(|id| id.index()), Ok(0));
    // a second kind of the same name is made by its index alone
    assert_eq!(
        r.register("a", Capabilities { support_vulkan: true, ..caps() }).map(|id| id.index()),
        Ok(1)
    );
    assert!(!Layer::create_by_type_name(&r, "a").unwrap().support_vulkan());
    assert!(Layer::create_by_type_id(&r, LayerId::new(1)).unwrap().support_vulkan());
}

#[test]
fn empty_layer_shell() {
    let l = Layer::create();
    assert_eq!(l.id().index(), -1);
    assert_eq!(l.kind_name(), "");
    assert_eq!(l.name(), "");
    assert_eq!((l.bottom_len(), l.top_len()), (0, 0));
    assert_eq!(l.bottom(0), None);
    assert_eq!(l.top(0), None);
    assert_eq!(l.blob_bottom_shape(0), None);
    assert_eq!(l.blob_top_shape(0), None);
    assert_eq!(l.weight_shape(), LayerShape::default());
    assert_eq!(l.weights().dimensions(), 0);
    assert!(
        !(l.one_blob_only()
            || l.support_inplace()
            || l.support_vulkan()
            || l.support_packing()
            || l.support_bf16_storage()
            || l.support_fp16_storage()
            || l.support_image_storage())
    );
}

#[test]
fn capability_flags_are_set_one_by_one() {
    let mut l = Layer::create();
    l.set_one_blob_only(true);
    assert!(l.one_blob_only() && !l.support_inplace());
    l.set_support_inplace(true);
    l.set_support_vulkan(true);
    l.set_support_packing(true);
    l.set_support_bf16_storage(true);
    l.set_support_fp16_storage(true);
    l.set_support_image_storage(true);
    assert!(
        l.one_blob_only()
            && l.support_inplace()
            && l.support_vulkan()
            && l.support_packing()
            && l.support_bf16_storage()
            && l.support_fp16_storage()
            && l.support_image_storage()
    );
    l.set_support_packing(false);
    assert!(!l.support_packing() && l.support_vulkan() && l.support_bf16_storage());
    l.set_one_blob_only(false);
    l.set_support_inplace(false);
    l.set_support_vulkan(false);
    l.set_support_bf16_storage(false);
    l.set_support_fp16_storage(false);
    assert!(l.support_image_storage());
    l.set_support_image_storage(false);
    assert!(!l.support_image_storage() && !l.support_fp16_storage());
}

#[test]
fn layers_of_a_network_know_their_blobs() {
    let t = Topology {
        blobs: ["in", "a", "b"].iter().map(|s| s.to_string()).collect(),
        layers: vec![LayerDesc {
            kind_name: "Split".to_string(),
            name: "fork".to_string(),
            bottoms: vec![BlobSlot { index: 0, shape: LayerShape::new(3, 8, 4, 2) }],
            tops: vec![
                BlobSlot { index: 2, shape: LayerShape::new(3, 8, 4, 1) },
                BlobSlot { index: 1, shape: LayerShape::new(2, 8, 4, 1) },
            ],
            weight_shape: LayerShape::default(),
        }],
    };
    let net = build(t, vec![Mat::new()]);
    assert!(net.layer(1).is_none());
    let l = net.layer(0).unwrap();
    assert_eq!(l.name(), "fork");
    assert_eq!(l.kind_name(), "Split");
    assert_eq!(l.id().index(), 3);
    assert_eq!((l.bottom_len(), l.top_len()), (1, 2));
    assert_eq!(l.bottom(0), Some(0));
    assert_eq!(l.bottom(1), None);
    assert_eq!(l.bottom(0xffff_ffff), None);
    assert_eq!(l.top(0), Some(2));
    assert_eq!(l.top(1), Some(1));
    assert_eq!(l.top(2), None);
    assert_eq!(l.bottom_unchecked(0), 0);
    assert_eq!(l.top_unchecked(1), 1);
    assert_eq!(l.blob_bottom_shape(0), Some(LayerShape::new(3, 8, 4, 2)));
    assert_eq!(l.blob_bottom_shape(1), None);
    assert_eq!(l.blob_top_shape(1), Some(LayerShape::new(2, 8, 4, 1)));
    assert_eq!(l.blob_top_shape(2), None);
    assert_eq!(l.blob_bottom_shape_unchecked(0).channels, 2);
    assert_eq!(l.blob_top_shape_unchecked(0).dims, 3);
    let g = net.graph();
    assert_eq!(g.producer(0), None);
    assert_eq!(g.producer(1), Some(0));
    assert_eq!(g.producer(2), Some(0));
    assert_eq!(g.blob_name(2), "b");
    assert_eq!(g.rank_of(0), 0);
}

#[test]
fn layers_are_ranked_by_their_dependencies() {
    let t = Topology {
        blobs: ["in", "a", "b", "c", "d", "out"].iter().map(|s| s.to_string()).collect(),
        layers: vec![
            desc("Add", "add", &[3, 4], &[5], no_weights()),
            desc("Scale", "s1", &[1], &[3], one_scalar()),
            desc("Scale", "s2", &[2], &[4], one_scalar()),
            desc("Split", "split", &[0], &[1, 2], no_weights()),
        ],
    };
    let net = build(t, vec![Mat::new(), scalar_tensor(2.0), scalar_tensor(10.0), Mat::new()]);
    let g = net.graph();
    assert!(g.rank_of(3) < g.rank_of(1));
    assert!(g.rank_of(3) < g.rank_of(2));
    assert!(g.rank_of(1) < g.rank_of(0));
    assert!(g.rank_of(2) < g.rank_of(0));
}

#[test]
fn layer_shape_of_a_tensor() {
    let m = Mat::new_3d(4, 3, 2, None).unwrap();
    let s = LayerShape::of(&m);
    assert_eq!(s, LayerShape::new(3, 4, 3, 2));
    assert!(s.matches(&m));
    assert!(!LayerShape::new(3, 4, 3, 1).matches(&m));
    assert!(LayerShape::default().matches(&Mat::new()));
}

#[test]
fn data_reader_reads_front_to_back() {
    let mut r = DataReader::from_memory(vec![1, 2, 3, 4, 5]);
    assert_eq!(r.remaining(), 5);
    assert_eq!(r.read(2), vec![1, 2]);
    assert_eq!(r.remaining(), 3);
    assert_eq!(r.read(0), Vec::<u8>::new());
    assert_eq!(r.read(9), vec![3, 4, 5]);
    assert_eq!(r.remaining(), 0);
    assert_eq!(r.read(1), Vec::<u8>::new());
}

#[test]
fn sources_are_read_through_the_builder() {
    let mut b = NetBuilder::new()
        .unwrap()
        .set_param_datareader(DataReader::from_memory(vec![7, 8, 9]))
        .set_model_path("net.bin")
        .unwrap();
    assert_eq!(b.read_param(2), vec![7, 8]);
    assert_eq!(b.read_param(2), vec![9]);
    assert_eq!(b.read_param(2), Vec::<u8>::new());
    // a path has no bytes to hand out
    assert_eq!(b.read_model(4), Vec::<u8>::new());
    assert!(matches!(b.model(), LoadMethod::Path { path } if path == "net.bin"));
    let mut m = LoadMethod::DataReader { datareader: DataReader::from_memory(vec![1]) };
    assert_eq!(m.read(5), vec![1]);
    assert_eq!(LoadMethod::Unset.read(5), Vec::<u8>::new());
    assert_eq!(LoadMethod::Unset.kind(), None);
    assert_eq!(m.kind(), Some(SourceKind::DataReader));
}

#[test]
fn a_layer_without_inputs_can_be_computed_at_once() {
    let t = Topology {
        blobs: vec!["data".to_string(), "out".to_string()],
        layers: vec![
            desc("Scale", "scale", &[0], &[1], one_scalar()),
            desc("Input", "source", &[], &[0], no_weights()),
        ],
    };
    let net = build(t, vec![scalar_tensor(2.0), Mat::new()]);
    let mut ex = net.create_extractor();
    match ex.extract(1).unwrap() {
        Step::Compute { layer, inputs } => {
            assert_eq!(layer, 1);
            assert!(inputs.is_empty());
        }
        Step::Ready { .. } => panic!("nothing was computed yet"),
    }
    ex.supply(1, Some(vec![input_tensor(21.0)])).unwrap();
    match ex.extract(1).unwrap() {
        Step::Compute { layer, inputs } => {
            assert_eq!(layer, 0);
            assert_eq!(value_of(&inputs[0]), 21.0);
        }
        Step::Ready { .. } => panic!("the scale layer was not computed yet"),
    }
    // a supplied tensor replaces the computed one
    ex.set_input(0, input_tensor(4.0)).unwrap();
    let mut calls = vec![0, 0];
    assert_eq!(value_of(&run(&net, &mut ex, 1, &mut calls).unwrap()), 8.0);
    assert_eq!(calls, vec![1, 0]);
}

#[test]
fn an_empty_network_has_nothing_to_extract() {
    let net = build(Topology { blobs: vec![], layers: vec![] }, vec![]);
    assert_eq!((net.layer_count(), net.blob_count()), (0, 0));
    let mut ex = net.create_extractor();
    assert_eq!(ex.extract(0).map(|_| ()), Err(ExtractError::UnknownBlob));
    assert_eq!(ex.supply(0, Some(vec![])), Err(ExtractError::UnknownLayer));
    assert!(!ex.is_computed(0));
}
