use lib::{
    unpack_signed, FlatMaTreeNode, MaConfig, MaTreeLeaf, MaTreeNode, MaTreeParser, ModularError,
    Predictor, Properties,
};

fn leaf(ctx: u32, predictor: Predictor, offset: i32, multiplier: u32) -> FlatMaTreeNode {
    FlatMaTreeNode::Leaf(MaTreeLeaf { ctx, predictor, offset, multiplier })
}

#[test]
fn unpack_signed_zigzag() {
    assert_eq!(unpack_signed(0), 0);
    assert_eq!(unpack_signed(1), -1);
    assert_eq!(unpack_signed(2), 1);
    assert_eq!(unpack_signed(3), -2);
    assert_eq!(unpack_signed(4), 2);
    assert_eq!(unpack_signed(u32::MAX), i32::MIN);
    assert_eq!(unpack_signed(u32::MAX - 1), i32::MAX);
}

#[test]
fn predictor_numbers() {
    assert_eq!(Predictor::from_id(0), Ok(Predictor::Zero));
    assert_eq!(Predictor::from_id(6), Ok(Predictor::SelfCorrecting));
    assert_eq!(Predictor::from_id(13), Ok(Predictor::AvgAll));
    assert_eq!(Predictor::from_id(14), Err(ModularError::InvalidPredictor(14)));
}

#[test]
fn properties_lookup() {
    let props = Properties::new(vec![7, -3]);
    assert_eq!(props.len(), 2);
    assert_eq!(props.get(1), Ok(-3));
    assert_eq!(props.get(2), Err(ModularError::InvalidProperty(2)));
}

#[test]
fn parse_single_leaf() {
    // leaf: property 0, predictor 5 (gradient), offset 0, mul_log 0, mul_bits 0
    let (cfg, used) = MaConfig::parse(&[0, 5, 0, 0, 0, 99]).unwrap();
    assert_eq!(used, 5);
    assert_eq!(cfg.num_contexts(), 1);
    let flat = cfg.make_flat_tree(0, 0);
    assert_eq!(flat.nodes(), &vec![leaf(0, Predictor::Gradient, 0, 1)]);
    assert!(!flat.need_self_correcting());
}

fn two_leaf_symbols() -> Vec<u32> {
    vec![
        3, 4, // decision on property 2, threshold 2
        0, 1, 0, 0, 0, // left leaf: West, offset 0, multiplier 1
        0, 6, 1, 1, 3, // right leaf: self-correcting, offset -1, multiplier (3 + 1) << 1
    ]
}

#[test]
fn parse_decision_and_flatten() {
    let (cfg, used) = MaConfig::parse(&two_leaf_symbols()).unwrap();
    assert_eq!(used, 12);
    assert_eq!(cfg.num_contexts(), 2);
    let flat = cfg.make_flat_tree(0, 0);
    assert_eq!(
        flat.nodes(),
        &vec![
            FlatMaTreeNode::Decision { property: 2, value: 2, left_idx: 1, right_idx: 2 },
            leaf(0, Predictor::West, 0, 1),
            leaf(1, Predictor::SelfCorrecting, -1, 8),
        ]
    );
    assert!(flat.need_self_correcting());

    let greater = Properties::new(vec![0, 0, 5]);
    assert_eq!(flat.get_leaf(&greater).unwrap().ctx, 0);
    let not_greater = Properties::new(vec![0, 0, 2]);
    assert_eq!(flat.get_leaf(&not_greater).unwrap().ctx, 1);
    let missing = Properties::new(vec![0, 0]);
    assert_eq!(flat.get_leaf(&missing), Err(ModularError::InvalidProperty(2)));
}

#[test]
fn decode_sample_scales_residual() {
    let (cfg, _) = MaConfig::parse(&two_leaf_symbols()).unwrap();
    let flat = cfg.make_flat_tree(0, 0);
    let props = Properties::new(vec![0, 0, 0]);
    // right leaf: context 1, multiplier 8, offset -1; residual symbol 3 is -2
    let read = |ctx: u32, dist: u32| -> Result<u32, ModularError> {
        assert_eq!(ctx, 1);
        assert_eq!(dist, 77);
        Ok(3)
    };
    assert_eq!(flat.decode_sample(&props, 77, read), Ok((-17, Predictor::SelfCorrecting)));
    let fail = |_: u32, _: u32| -> Result<u32, ModularError> { Err(ModularError::UnexpectedEof) };
    assert_eq!(flat.decode_sample(&props, 0, fail), Err(ModularError::UnexpectedEof));
    let short = Properties::new(vec![0]);
    let never = |_: u32, _: u32| -> Result<u32, ModularError> { panic!("no read expected") };
    assert_eq!(flat.decode_sample(&short, 0, never), Err(ModularError::InvalidProperty(2)));
}

#[test]
fn flatten_prunes_channel_and_stream_decisions() {
    // decision on property 0 (channel) > 3: left leaf ctx 7, right leaf ctx 9
    let tree = MaTreeNode::decision(
        0,
        3,
        MaTreeNode::leaf(7, Predictor::Zero, 0, 1),
        MaTreeNode::decision(
            1,
            -1,
            MaTreeNode::leaf(8, Predictor::Zero, 0, 1),
            MaTreeNode::leaf(9, Predictor::Zero, 0, 1),
        ),
    );
    let mut out = Vec::new();
    tree.flatten(5, 0, &mut out);
    assert_eq!(out, vec![leaf(7, Predictor::Zero, 0, 1)]);
    let mut out = Vec::new();
    tree.flatten(2, 0, &mut out);
    assert_eq!(out, vec![leaf(8, Predictor::Zero, 0, 1)]);
    // stream index u32::MAX is -1 as i32: not greater than -1
    let mut out = Vec::new();
    tree.flatten(2, u32::MAX, &mut out);
    assert_eq!(out, vec![leaf(9, Predictor::Zero, 0, 1)]);
}

#[test]
fn flatten_appends_after_existing_nodes() {
    let tree = MaTreeNode::decision(
        4,
        0,
        MaTreeNode::leaf(0, Predictor::North, 2, 1),
        MaTreeNode::leaf(1, Predictor::North, 3, 1),
    );
    let mut out = vec![leaf(5, Predictor::Zero, 0, 1)];
    tree.flatten(0, 0, &mut out);
    assert_eq!(
        out,
        vec![
            leaf(5, Predictor::Zero, 0, 1),
            FlatMaTreeNode::Decision { property: 4, value: 0, left_idx: 2, right_idx: 3 },
            leaf(0, Predictor::North, 2, 1),
            leaf(1, Predictor::North, 3, 1),
        ]
    );
}

#[test]
fn parse_errors() {
    assert_eq!(MaConfig::parse(&[0, 14]).unwrap_err(), ModularError::InvalidPredictor(14));
    assert_eq!(MaConfig::parse(&[0, 0, 0, 31]).unwrap_err(), ModularError::InvalidMaTree);
    // mul_log 30 allows mul_bits up to 0
    assert_eq!(MaConfig::parse(&[0, 0, 0, 30, 1]).unwrap_err(), ModularError::InvalidMaTree);
    assert!(MaConfig::parse(&[0, 0, 0, 30, 0]).is_ok());
    // mul_log 0 allows mul_bits up to 2^31 - 2
    assert!(MaConfig::parse(&[0, 0, 0, 0, 0x7fff_fffe]).is_ok());
    assert_eq!(MaConfig::parse(&[0, 0, 0, 0, 0x7fff_ffff]).unwrap_err(), ModularError::InvalidMaTree);
    assert_eq!(MaConfig::parse(&[3, 4, 0, 1]).unwrap_err(), ModularError::UnexpectedEof);
    assert_eq!(MaConfig::parse(&[]).unwrap_err(), ModularError::UnexpectedEof);
}

#[test]
fn largest_multiplier() {
    let (cfg, _) = MaConfig::parse(&[0, 0, 0, 0, 0x7fff_fffe]).unwrap();
    let flat = cfg.make_flat_tree(0, 0);
    assert_eq!(flat.nodes(), &vec![leaf(0, Predictor::Zero, 0, 0x7fff_ffff)]);
    let (cfg, _) = MaConfig::parse(&[0, 0, 0, 30, 0]).unwrap();
    let flat = cfg.make_flat_tree(0, 0);
    assert_eq!(flat.nodes(), &vec![leaf(0, Predictor::Zero, 0, 1 << 30)]);
}

#[test]
fn parser_contexts_follow_node_fields() {
    let mut parser = MaTreeParser::new();
    let mut contexts = Vec::new();
    for &sym in two_leaf_symbols().iter() {
        contexts.push(parser.next_context().unwrap().unwrap());
        parser = parser.feed(sym).unwrap();
    }
    assert_eq!(parser.next_context(), Ok(None));
    assert_eq!(contexts, vec![1, 0, 1, 2, 3, 4, 5, 1, 2, 3, 4, 5]);
    let cfg = parser.finish();
    assert_eq!(cfg.num_contexts(), 2);
}

#[test]
fn breadth_first_children() {
    // root decides on property 2; its left child decides on property 3;
    // nodes come breadth first: root, left decision, right leaf, then the
    // left decision's two leaves.
    let symbols = vec![
        3, 0, // root: property 2, threshold 0
        4, 2, // left child: property 3, threshold 1
        0, 0, 0, 0, 0, // right child of root: ctx 0
        0, 0, 0, 0, 0, // left-left: ctx 1
        0, 0, 0, 0, 0, // left-right: ctx 2
    ];
    let (cfg, used) = MaConfig::parse(&symbols).unwrap();
    assert_eq!(used, symbols.len());
    let flat = cfg.make_flat_tree(0, 0);
    assert_eq!(
        flat.nodes(),
        &vec![
            FlatMaTreeNode::Decision { property: 2, value: 0, left_idx: 1, right_idx: 4 },
            FlatMaTreeNode::Decision { property: 3, value: 1, left_idx: 2, right_idx: 3 },
            leaf(1, Predictor::Zero, 0, 1),
            leaf(2, Predictor::Zero, 0, 1),
            leaf(0, Predictor::Zero, 0, 1),
        ]
    );
    assert_eq!(flat.get_leaf(&Properties::new(vec![0, 0, 1, 2])).unwrap().ctx, 1);
    assert_eq!(flat.get_leaf(&Properties::new(vec![0, 0, 1, 1])).unwrap().ctx, 2);
    assert_eq!(flat.get_leaf(&Properties::new(vec![0, 0, 0, 9])).unwrap().ctx, 0);
}

#[test]
fn flat_tree_for_each_channel() {
    // root decides on the channel (property 0) against 2: channels 3 and up
    // go left (a decision on property 5), the others to a leaf
    let symbols = vec![
        1, 4, // root: property 0, threshold 2
        6, 0, // left: property 5, threshold 0
        0, 0, 0, 0, 0, // right of root: ctx 0
        0, 1, 0, 0, 0, // left-left: ctx 1
        0, 2, 0, 0, 0, // left-right: ctx 2
    ];
    let (cfg, _) = MaConfig::parse(&symbols).unwrap();
    assert_eq!(cfg.num_contexts(), 3);
    let low = cfg.make_flat_tree(1, 0);
    assert_eq!(low.nodes(), &vec![leaf(0, Predictor::Zero, 0, 1)]);
    let high = cfg.make_flat_tree(3, 0);
    assert_eq!(
        high.nodes(),
        &vec![
            FlatMaTreeNode::Decision { property: 5, value: 0, left_idx: 1, right_idx: 2 },
            leaf(1, Predictor::West, 0, 1),
            leaf(2, Predictor::North, 0, 1),
        ]
    );
    // the flat tree answers as the tree does for samples of channel 3
    let props = |p5: i32| Properties::new(vec![3, 0, 0, 0, 0, p5]);
    assert_eq!(high.get_leaf(&props(1)).unwrap().ctx, 1);
    assert_eq!(high.get_leaf(&props(0)).unwrap().ctx, 2);
    // every context belongs to exactly one leaf
    let mut ctxs: Vec<u32> = Vec::new();
    for flat in [cfg.make_flat_tree(0, 0), cfg.make_flat_tree(9, 0)] {
        for node in flat.nodes() {
            if let FlatMaTreeNode::Leaf(l) = node {
                ctxs.push(l.ctx);
            }
        }
    }
    ctxs.sort();
    assert_eq!(ctxs, vec![0, 1, 2]);
}

#[test]
fn flat_tree_new_accepts_any_nodes() {
    // a node list that is not a walkable tree: the flag is still right
    let nodes = vec![
        FlatMaTreeNode::Decision { property: 15, value: 0, left_idx: 0, right_idx: 7 },
        leaf(0, Predictor::Zero, 0, 1),
    ];
    let flat = lib::FlatMaTree::new(nodes.clone());
    assert_eq!(flat.nodes(), &nodes);
    assert!(flat.need_self_correcting());
    let empty = lib::FlatMaTree::new(Vec::new());
    assert!(empty.nodes().is_empty());
    assert!(!empty.need_self_correcting());
    let plain = lib::FlatMaTree::new(vec![leaf(0, Predictor::Gradient, 0, 1)]);
    assert!(!plain.need_self_correcting());
}
