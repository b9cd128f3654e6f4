use dsp_stuff::devices::{
    bump_resync, downmix_stereo, duplicate_to_stereo, input_callback_step, output_callback_step,
    select_input_config, select_output_config, StreamConfigRange,
};
use dsp_stuff::ids::{IdGen, NodeId};
use dsp_stuff::node::{collect_and_average, step_block};
use dsp_stuff::nodes::{Gain, Mix, NodeCfg, Nodes, PortChoice};
use dsp_stuff::nodes::{ConfigError, NodeKind};
use dsp_stuff::ports::{capitalize, PortStorageInner};
use dsp_stuff::ring::{RingBuffer, RingError};
use dsp_stuff::runtime::Graph;

#[test]
fn ring_buffer_commit_then_read() {
    let mut rb = RingBuffer::new(8);
    assert_eq!(rb.readable(0), 0);
    rb.commit(&vec![1, 2, 3]);
    assert_eq!(rb.readable(0), 3);
    let seen = rb.peek(0, 3);
    assert_eq!(seen, vec![1, 2, 3]);
    rb.release(0, 2);
    assert_eq!(rb.readable(0), 1);
    assert_eq!(rb.peek(0, 1), vec![3]);
}

#[test]
fn ring_buffer_wraps_without_overwriting_unreleased() {
    let mut rb = RingBuffer::new(4);
    rb.commit(&vec![1, 2, 3, 4]);
    assert_eq!(rb.writable(), 0);
    rb.release(0, 3);
    assert_eq!(rb.writable(), 3);
    rb.commit(&vec![5, 6]);
    // the slowest (only) consumer still sees its unreleased sample first
    assert_eq!(rb.peek(0, 3), vec![4, 5, 6]);
}

#[test]
fn ring_buffer_broadcast_retains_for_slowest() {
    let mut rb = RingBuffer::new(4);
    let c2 = rb.split_consumer(0);
    rb.commit(&vec![7, 8]);
    rb.release(0, 2);
    // consumer c2 has not released anything, so only 2 slots are writable
    assert_eq!(rb.writable(), 2);
    assert_eq!(rb.peek(c2, 2), vec![7, 8]);
    rb.release(c2, 2);
    assert_eq!(rb.writable(), 4);
}

#[test]
fn ring_buffer_refuses_requests_beyond_capacity() {
    let rb = RingBuffer::new(4);
    assert_eq!(rb.try_request_write(5), Err(RingError::UnsatisfiableRequest));
    assert_eq!(rb.try_request_read(0, 5), Err(RingError::UnsatisfiableRequest));
    assert_eq!(rb.try_request_write(4), Ok(true));
    assert_eq!(rb.try_request_read(0, 1), Ok(false));
}

#[test]
fn fan_in_averaging_of_two_blocks() {
    let blocks = vec![vec![1, 1, 1], vec![3, 3, 3]];
    let (merged, present) = collect_and_average(&blocks, 3);
    assert_eq!(merged, vec![2, 2, 2]);
    assert!(present);
}

#[test]
fn fan_in_single_block_passes_through_and_absence_is_flagged() {
    let blocks = vec![vec![1, 1, 1]];
    let (merged, present) = collect_and_average(&blocks, 3);
    assert_eq!(merged, vec![1, 1, 1]);
    assert!(present);

    let none: Vec<Vec<i32>> = Vec::new();
    let (silent, present) = collect_and_average(&none, 3);
    assert_eq!(silent, vec![0, 0, 0]);
    assert!(!present);
}

#[test]
fn gain_scales_samples_fixed_point() {
    let mut gen = IdGen::new();
    let g = Gain::new(NodeId::new(0), &mut gen);
    // default level is unity
    assert_eq!(g.process(&vec![5, -7, 0]), vec![5, -7, 0]);
    let mut g2 = g;
    g2.level_milli = 2000;
    assert_eq!(g2.process(&vec![5, -7, 0]), vec![10, -14, 0]);
    g2.level_milli = 500;
    assert_eq!(g2.process(&vec![5, -7, 4]), vec![2, -4, 2]);
}

#[test]
fn mix_blends_by_ratio() {
    let mut gen = IdGen::new();
    let mut m = Mix::new(NodeId::new(0), &mut gen);
    m.ratio_milli = 0;
    assert_eq!(m.process(&vec![10, 10], &vec![90, 90]), vec![10, 10]);
    m.ratio_milli = 1000;
    assert_eq!(m.process(&vec![10, 10], &vec![90, 90]), vec![90, 90]);
    m.ratio_milli = 500;
    assert_eq!(m.process(&vec![10, 10], &vec![90, 90]), vec![50, 50]);
}

#[test]
fn node_process_dispatch_duplicates_and_routes() {
    let mut gen = IdGen::new();
    let mux = Nodes::new(
        dsp_stuff::nodes::NodeKind::Mux,
        NodeId::new(1),
        &mut gen,
    );
    let outs = mux.process(&vec![vec![4, 4], vec![9, 9]], 2);
    assert_eq!(outs, vec![vec![4, 4]]);

    let demux = Nodes::new(
        dsp_stuff::nodes::NodeKind::Demux,
        NodeId::new(2),
        &mut gen,
    );
    let outs = demux.process(&vec![vec![4, 4]], 2);
    assert_eq!(outs, vec![vec![4, 4], vec![0, 0]]);
}

#[test]
fn save_restore_round_trip_every_kind() {
    for kind in [
        NodeKind::Input,
        NodeKind::Output,
        NodeKind::Gain,
        NodeKind::Mix,
        NodeKind::Mux,
        NodeKind::Demux,
        NodeKind::Add,
    ] {
        let mut node_gen = IdGen::new();
        let mut port_gen = IdGen::new();
        let id = NodeId::generate(&mut node_gen);
        let n = Nodes::new(kind, id, &mut port_gen);
        let saved = n.save();
        let mut ng2 = IdGen::new();
        let mut pg2 = IdGen::new();
        let restored = match Nodes::restore(&saved, &mut ng2, &mut pg2) {
            Ok(n) => n,
            Err(_) => panic!("restore refused a saved configuration"),
        };
        let saved_again = restored.save();
        assert!(cfg_equal(&saved, &saved_again));
    }
}

fn port_map_equal(a: &Vec<(String, u64)>, b: &Vec<(String, u64)>) -> bool {
    a.len() == b.len() && a.iter().zip(b.iter()).all(|(x, y)| x.0 == y.0 && x.1 == y.1)
}

fn cfg_equal(a: &NodeCfg, b: &NodeCfg) -> bool {
    match (a, b) {
        (
            NodeCfg::Input { id: i1, host: h1, device: d1, outputs: o1 },
            NodeCfg::Input { id: i2, host: h2, device: d2, outputs: o2 },
        ) => i1 == i2 && h1 == h2 && d1 == d2 && port_map_equal(o1, o2),
        (
            NodeCfg::Output { id: i1, host: h1, device: d1, inputs: p1 },
            NodeCfg::Output { id: i2, host: h2, device: d2, inputs: p2 },
        ) => i1 == i2 && h1 == h2 && d1 == d2 && port_map_equal(p1, p2),
        (
            NodeCfg::Gain { id: i1, inputs: p1, outputs: o1, level_milli: l1 },
            NodeCfg::Gain { id: i2, inputs: p2, outputs: o2, level_milli: l2 },
        ) => i1 == i2 && port_map_equal(p1, p2) && port_map_equal(o1, o2) && l1 == l2,
        (
            NodeCfg::Mix { id: i1, inputs: p1, outputs: o1, ratio_milli: r1 },
            NodeCfg::Mix { id: i2, inputs: p2, outputs: o2, ratio_milli: r2 },
        ) => i1 == i2 && port_map_equal(p1, p2) && port_map_equal(o1, o2) && r1 == r2,
        (
            NodeCfg::Mux { id: i1, inputs: p1, outputs: o1, in_port: s1 },
            NodeCfg::Mux { id: i2, inputs: p2, outputs: o2, in_port: s2 },
        ) => i1 == i2 && port_map_equal(p1, p2) && port_map_equal(o1, o2) && s1 == s2,
        (
            NodeCfg::Demux { id: i1, inputs: p1, outputs: o1, out_port: s1 },
            NodeCfg::Demux { id: i2, inputs: p2, outputs: o2, out_port: s2 },
        ) => i1 == i2 && port_map_equal(p1, p2) && port_map_equal(o1, o2) && s1 == s2,
        (
            NodeCfg::Add { id: i1, inputs: p1, outputs: o1 },
            NodeCfg::Add { id: i2, inputs: p2, outputs: o2 },
        ) => i1 == i2 && port_map_equal(p1, p2) && port_map_equal(o1, o2),
        _ => false,
    }
}

#[test]
fn restore_rejects_bad_settings_and_ports() {
    let mut ng = IdGen::new();
    let mut pg = IdGen::new();
    let bad_level = NodeCfg::Gain {
        id: 7,
        inputs: vec![("in".to_string(), 0)],
        outputs: vec![("out".to_string(), 1)],
        level_milli: 10_001,
    };
    assert!(matches!(
        Nodes::restore(&bad_level, &mut ng, &mut pg),
        Err(ConfigError::InvalidSetting)
    ));
    let bad_ports = NodeCfg::Gain {
        id: 7,
        inputs: vec![("wrong".to_string(), 0)],
        outputs: vec![("out".to_string(), 1)],
        level_milli: 1000,
    };
    assert!(matches!(
        Nodes::restore(&bad_ports, &mut ng, &mut pg),
        Err(ConfigError::InvalidPorts)
    ));
    let bad_id = NodeCfg::Add {
        id: u64::MAX,
        inputs: vec![("a".to_string(), 0), ("b".to_string(), 1)],
        outputs: vec![("out".to_string(), 2)],
    };
    assert!(matches!(
        Nodes::restore(&bad_id, &mut ng, &mut pg),
        Err(ConfigError::InvalidId)
    ));
}

#[test]
fn drift_correction_collapses_backlog_once() {
    let mut buf = RingBuffer::new(64);
    // backlog of 2b samples with needed length b
    let block: Vec<i32> = (0..16).collect();
    buf.commit(&block);
    let mut counter: u8 = 1;
    let out = output_callback_step(&mut buf, 8, &mut counter);
    // the newest 8 samples are played, the whole backlog is released
    assert_eq!(out, (8..16).collect::<Vec<i32>>());
    assert_eq!(buf.readable(0), 0);
    assert_eq!(counter, 0);
}

#[test]
fn drift_correction_zero_counter_leaves_backlog() {
    let mut buf = RingBuffer::new(64);
    let block: Vec<i32> = (0..16).collect();
    buf.commit(&block);
    let mut counter: u8 = 0;
    let out = output_callback_step(&mut buf, 8, &mut counter);
    assert_eq!(out, (0..8).collect::<Vec<i32>>());
    assert_eq!(buf.readable(0), 8);
    assert_eq!(counter, 0);
}

#[test]
fn output_callback_emits_silence_on_underflow() {
    let mut buf = RingBuffer::new(64);
    buf.commit(&vec![1, 2, 3]);
    let mut counter: u8 = 2;
    let out = output_callback_step(&mut buf, 8, &mut counter);
    assert_eq!(out, vec![0; 8]);
    assert_eq!(buf.readable(0), 3);
    assert_eq!(counter, 2);
}

#[test]
fn input_callback_drops_block_when_full() {
    let mut buf = RingBuffer::new(4);
    assert!(input_callback_step(&mut buf, &vec![1, 2, 3]));
    assert!(!input_callback_step(&mut buf, &vec![4, 5]));
    assert_eq!(buf.peek(0, 3), vec![1, 2, 3]);
}

#[test]
fn resync_counter_saturates() {
    assert_eq!(bump_resync(0), 5);
    assert_eq!(bump_resync(252), 255);
    assert_eq!(bump_resync(255), 255);
}

#[test]
fn stereo_downmix_sums_pairs() {
    assert_eq!(downmix_stereo(&vec![1, 2, 3, 4]), vec![3, 7]);
    assert_eq!(downmix_stereo(&vec![i32::MAX, i32::MAX]), vec![i32::MAX]);
}

#[test]
fn input_config_picks_fewest_channels_covering_canonical_rate() {
    let cfgs = vec![
        StreamConfigRange { channels: 2, min_rate: 8000, max_rate: 96000 },
        StreamConfigRange { channels: 1, min_rate: 44100, max_rate: 48000 },
        StreamConfigRange { channels: 1, min_rate: 8000, max_rate: 16000 },
    ];
    assert_eq!(select_input_config(&cfgs), Some(1));
    let none = vec![StreamConfigRange { channels: 1, min_rate: 8000, max_rate: 16000 }];
    assert_eq!(select_input_config(&none), None);
}

#[test]
fn output_config_minimises_channels_then_rate_distance() {
    let cfgs = vec![
        StreamConfigRange { channels: 2, min_rate: 8000, max_rate: 48000 },
        StreamConfigRange { channels: 1, min_rate: 8000, max_rate: 44100 },
        StreamConfigRange { channels: 1, min_rate: 8000, max_rate: 48000 },
    ];
    assert_eq!(select_output_config(&cfgs), Some(2));
    assert_eq!(select_output_config(&Vec::new()), None);
}

#[test]
fn id_generator_never_reuses_and_restore_raises() {
    let mut gen = IdGen::new();
    let a = NodeId::generate(&mut gen);
    let b = NodeId::generate(&mut gen);
    assert_ne!(a.get(), b.get());
    let restored = NodeId::restore(&mut gen, 41);
    assert_eq!(restored.get(), 41);
    let c = NodeId::generate(&mut gen);
    assert_eq!(c.get(), 42);
}

#[test]
fn port_registry_maps_names_ids_and_ordinals() {
    let mut gen = IdGen::new();
    let mut reg = PortStorageInner::empty();
    let a = reg.add(&mut gen, "left".to_string());
    let b = reg.add(&mut gen, "right".to_string());
    assert_eq!(reg.get_id(&"left".to_string()), Some(a));
    assert_eq!(reg.get_idx(&"right".to_string()), Some(1));
    assert_eq!(reg.get_portid_idx(b), Some(1));
    assert_eq!(reg.get_id(&"middle".to_string()), None);
    let all = reg.get_all();
    assert_eq!(all.len(), 2);
    assert_eq!(all[0].0, "left");
    let restored = PortStorageInner::new(all);
    assert_eq!(restored.get_idx(&"left".to_string()), Some(0));
}

#[test]
fn capitalize_uppercases_ascii_labels() {
    assert_eq!(capitalize("level".to_string()), "Level");
    assert_eq!(capitalize("".to_string()), "");
    assert_eq!(capitalize("Amount".to_string()), "Amount");
    assert_eq!(capitalize("z".to_string()), "Z");
}

#[test]
fn graph_starts_empty() {
    let g = Graph::new();
    assert!(g.find_node(NodeId::new(0)).is_none());
}

#[test]
fn connect_rejects_mismatched_ends_and_links_matched_ones() {
    let mut g = Graph::new();
    let a = g.add_node(NodeKind::Gain);
    let b = g.add_node(NodeKind::Gain);
    let a_out = g.nodes[0].node.outputs().id_at(0);
    let a_in = g.nodes[0].node.inputs().id_at(0);
    let b_in = g.nodes[1].node.inputs().id_at(0);
    let b_out = g.nodes[1].node.outputs().id_at(0);
    // out-out and in-in attempts are rejected and change nothing
    assert!(!g.connect((a, a_out), (b, b_out)));
    assert!(!g.connect((a, a_in), (b, b_in)));
    assert_eq!(g.links.len(), 0);
    assert!(g.nodes[0].task.is_none());
    // whichever way round the user draws it, output feeds input
    assert!(g.connect((b, b_in), (a, a_out)));
    assert_eq!(g.links.len(), 1);
    assert_eq!(g.links[0].lhs, (a, a_out));
    assert_eq!(g.links[0].rhs, (b, b_in));
    assert!(g.nodes[0].task.is_some());
    assert!(g.nodes[1].task.is_some());
}

#[test]
fn connect_restarts_only_the_two_endpoints() {
    let mut g = Graph::new();
    let a = g.add_node(NodeKind::Gain);
    let b = g.add_node(NodeKind::Gain);
    let c = g.add_node(NodeKind::Gain);
    let a_out = g.nodes[0].node.outputs().id_at(0);
    let b_in = g.nodes[1].node.inputs().id_at(0);
    let b_out = g.nodes[1].node.outputs().id_at(0);
    let c_in = g.nodes[2].node.inputs().id_at(0);
    assert!(g.connect((a, a_out), (b, b_in)));
    let task_a = g.nodes[0].task;
    let task_b = g.nodes[1].task;
    assert!(g.nodes[2].task.is_none());
    // buffer some samples on the first link
    let pos = 0;
    g.links[pos].buffer.commit(&vec![7, 8, 9]);
    // a new link elsewhere restarts only its own endpoints
    assert!(g.connect((b, b_out), (c, c_in)));
    assert_eq!(g.nodes[0].task, task_a);
    assert_ne!(g.nodes[1].task, task_b);
    assert!(g.nodes[2].task.is_some());
    // the unrelated link's buffered-but-unconsumed data is untouched
    assert_eq!(g.links[pos].buffer.peek(0, 3), vec![7, 8, 9]);
}

#[test]
fn remove_link_stops_isolated_endpoints() {
    let mut g = Graph::new();
    let a = g.add_node(NodeKind::Gain);
    let b = g.add_node(NodeKind::Gain);
    let a_out = g.nodes[0].node.outputs().id_at(0);
    let b_in = g.nodes[1].node.inputs().id_at(0);
    assert!(g.connect((a, a_out), (b, b_in)));
    let lid = g.links[0].id;
    assert!(g.remove_link(lid));
    assert_eq!(g.links.len(), 0);
    assert!(g.nodes[0].task.is_none());
    assert!(g.nodes[1].task.is_none());
    assert!(!g.remove_link(lid));
}

#[test]
fn delete_node_with_two_links_restarts_exactly_the_neighbours() {
    let mut g = Graph::new();
    let a = g.add_node(NodeKind::Gain);
    let m = g.add_node(NodeKind::Mix);
    let b = g.add_node(NodeKind::Gain);
    let lone = g.add_node(NodeKind::Gain);
    let a_out = g.nodes[0].node.outputs().id_at(0);
    let m_in_a = g.nodes[1].node.inputs().id_at(0);
    let m_out = g.nodes[1].node.outputs().id_at(0);
    let b_in = g.nodes[2].node.inputs().id_at(0);
    assert!(g.connect((a, a_out), (m, m_in_a)));
    assert!(g.connect((m, m_out), (b, b_in)));
    let lid0 = g.links[0].id;
    let lid1 = g.links[1].id;
    assert!(g.delete_node(m));
    // the node and both its links are gone, from the link list and from
    // both routing indices
    assert!(g.find_node(m).is_none());
    assert!(g.find_link(lid0).is_none());
    assert!(g.find_link(lid1).is_none());
    assert!(g.inputs.get_links(m, m_in_a).is_empty());
    assert!(g.outputs.get_links(m, m_out).is_empty());
    assert!(g.outputs.get_links(a, a_out).is_empty());
    assert!(g.inputs.get_links(b, b_in).is_empty());
    // exactly the two former neighbours were restarted (now stopped), and
    // the unrelated node was left alone
    assert!(g.nodes.iter().all(|s| s.task.is_none()));
    assert!(g.find_node(lone).is_some());
    // the deleted identity never comes back
    let fresh = g.add_node(NodeKind::Add);
    assert_ne!(fresh.get(), m.get());
}

#[test]
fn step_block_runs_one_iteration_of_the_loop() {
    let mut gen = IdGen::new();
    let gain = Nodes::new(NodeKind::Gain, NodeId::new(0), &mut gen);
    // two links fan into the single input, two links fan out of the output
    let mut src_a = RingBuffer::new(512);
    let mut src_b = RingBuffer::new(512);
    src_a.commit(&vec![1; 128]);
    src_b.commit(&vec![3; 128]);
    let mut fan_in = vec![vec![src_a, src_b]];
    let mut fan_out = vec![vec![RingBuffer::new(512), RingBuffer::new(512)]];
    let (ran, present) = step_block(&gain, &mut fan_in, &mut fan_out);
    assert!(ran);
    assert_eq!(present, vec![true]);
    // fan-in averaging: (1 + 3) / 2 == 2, at unity gain
    // fan-out duplication: the block appears bit-identical on every link
    assert_eq!(fan_in[0][0].readable(0), 0);
    assert_eq!(fan_in[0][1].readable(0), 0);
    assert_eq!(fan_out[0][0].peek(0, 128), vec![2; 128]);
    assert_eq!(fan_out[0][1].peek(0, 128), vec![2; 128]);
}

#[test]
fn step_block_blocks_when_an_output_is_full() {
    let mut gen = IdGen::new();
    let gain = Nodes::new(NodeKind::Gain, NodeId::new(0), &mut gen);
    let mut src = RingBuffer::new(512);
    src.commit(&vec![5; 128]);
    let mut full = RingBuffer::new(128);
    full.commit(&vec![0; 128]);
    let mut fan_in = vec![vec![src]];
    let mut fan_out = vec![vec![full]];
    let (ran, _) = step_block(&gain, &mut fan_in, &mut fan_out);
    assert!(!ran);
    // nothing was consumed or written
    assert_eq!(fan_in[0][0].readable(0), 128);
    assert_eq!(fan_out[0][0].readable(0), 128);
}

#[test]
fn step_block_starved_input_yields_silence_and_absent_flag() {
    let mut gen = IdGen::new();
    let gain = Nodes::new(NodeKind::Gain, NodeId::new(0), &mut gen);
    let mut src = RingBuffer::new(512);
    src.commit(&vec![9; 64]); // less than one block
    let mut fan_in = vec![vec![src]];
    let mut fan_out = vec![vec![RingBuffer::new(512)]];
    let (ran, present) = step_block(&gain, &mut fan_in, &mut fan_out);
    assert!(ran);
    assert_eq!(present, vec![false]);
    assert_eq!(fan_out[0][0].peek(0, 128), vec![0; 128]);
    // the starved link's partial data was released (min(block, available))
    assert_eq!(fan_in[0][0].readable(0), 0);
}

#[test]
fn compute_handle_lists_follow_the_indices() {
    let mut g = Graph::new();
    let a = g.add_node(NodeKind::Gain);
    let m = g.add_node(NodeKind::Mix);
    let a_out = g.nodes[0].node.outputs().id_at(0);
    let m_in_b = g.nodes[1].node.inputs().id_at(1);
    assert!(g.connect((a, a_out), (m, m_in_b)));
    let lid = g.links[0].id;
    let ins = g.compute_inputs_for(m);
    assert_eq!(ins.len(), 2);
    assert!(ins[0].is_empty());
    assert_eq!(ins[1], vec![lid]);
    let outs = g.compute_outputs_for(a);
    assert_eq!(outs.len(), 1);
    assert_eq!(outs[0], vec![lid]);
}

#[test]
fn resync_flushes_every_link_backlog() {
    let mut g = Graph::new();
    let a = g.add_node(NodeKind::Gain);
    let b = g.add_node(NodeKind::Gain);
    let a_out = g.nodes[0].node.outputs().id_at(0);
    let b_in = g.nodes[1].node.inputs().id_at(0);
    assert!(g.connect((a, a_out), (b, b_in)));
    g.links[0].buffer.commit(&vec![1, 2, 3, 4]);
    let task_b = g.nodes[1].task;
    g.resync_links();
    assert_eq!(g.links[0].buffer.readable(0), 0);
    assert_eq!(g.nodes[1].task, task_b);
}

#[test]
fn save_config_records_nodes_positions_and_links() {
    let mut g = Graph::new();
    let a = g.add_node(NodeKind::Gain);
    let m = g.add_node(NodeKind::Mix);
    let a_out = g.nodes[0].node.outputs().id_at(0);
    let m_in = g.nodes[1].node.inputs().id_at(0);
    assert!(g.connect((a, a_out), (m, m_in)));
    g.nodes[0].position = (17, 23);
    let cfg = g.save_config();
    assert_eq!(cfg.nodes.len(), 2);
    assert_eq!(cfg.nodes[0].id, a.get());
    assert_eq!(cfg.nodes[0].position, (17, 23));
    assert!(cfg_equal(&cfg.nodes[1].cfg, &g.nodes[1].node.save()));
    assert_eq!(cfg.links.len(), 1);
    assert_eq!(cfg.links[0].lhs, (a.get(), a_out.get()));
    assert_eq!(cfg.links[0].rhs, (m.get(), m_in.get()));
}

#[test]
fn mono_duplicates_to_both_stereo_channels() {
    assert_eq!(duplicate_to_stereo(&vec![4, -5]), vec![4, 4, -5, -5]);
}

#[test]
fn capitalize_uses_full_unicode_uppercasing() {
    // the sharp s uppercases to two characters
    assert_eq!(capitalize("\u{df}x".to_string()), "SSx");
    assert_eq!(capitalize("\u{e9}tude".to_string()), "\u{c9}tude");
}

#[test]
fn mux_choice_routes_selected_input() {
    let mut gen = IdGen::new();
    let mut m = dsp_stuff::nodes::Mux::new(NodeId::new(3), &mut gen);
    m.in_port = PortChoice::B;
    assert_eq!(m.process(&vec![1, 1], &vec![2, 2]), vec![2, 2]);
}
