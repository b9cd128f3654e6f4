//! The closed set of node types the engine can run, their block transforms,
//! and the save/restore of their configurations.
//!
//! Simple nodes (gain, mix, mux, demux, add) are pure block transforms that
//! the execution loop drives; the input and output nodes bridge to an audio
//! device through a ring buffer of their own and run bespoke steps.

use crate::ids::{DeviceId, IdGen, NodeId, PortId};
use crate::node::{add_sample, gain_sample, mix_sample, zero_block, apply_add, apply_gain,
    apply_mix};
use crate::ports::PortStorageInner;
use crate::ring::RingBuffer;
use vstd::prelude::*;

verus! {

/// Which of the two signals a mux or demux is switched to.
#[derive(Clone, Copy, PartialEq, Eq, Structural, Debug)]
pub enum PortChoice {
    A,
    B,
}

/// Every registered identity is strictly below the identity-space limit, so
/// it can be persisted and restored through a generator.
pub open spec fn ids_bounded(r: PortStorageInner) -> bool {
    forall|i: int| 0 <= i < r.port_count() ==> (#[trigger] r.ids_seq()[i]).0 < u64::MAX
}

/// Copy a block of samples.
pub fn copy_block(src: &Vec<i32>) -> (out: Vec<i32>)
    ensures
        out@ == src@,
{
    let mut out: Vec<i32> = Vec::new();
    let mut i: usize = 0;
    while i < src.len()
        invariant
            i <= src@.len(),
            out@ == src@.subrange(0, i as int),
        decreases src@.len() - i,
    {
        out.push(src[i]);
        i = i + 1;
    }
    proof {
        assert(out@ =~= src@);
    }
    out
}

/// A block of silence.
pub fn silence_block(len: usize) -> (out: Vec<i32>)
    ensures
        out@ == zero_block(len as int),
{
    let mut out: Vec<i32> = Vec::new();
    let mut i: usize = 0;
    while i < len
        invariant
            i <= len,
            out@.len() == i,
            forall|j: int| 0 <= j < i ==> #[trigger] out@[j] == 0i32,
        decreases len - i,
    {
        out.push(0);
        i = i + 1;
    }
    proof {
        assert(out@ =~= zero_block(len as int));
    }
    out
}

/// Adjust the gain of a signal.
pub struct Gain {
    pub id: NodeId,
    pub inputs: PortStorageInner,
    pub outputs: PortStorageInner,
    /// Gain factor in thousandths; 1000 is unity, at most 10000 (tenfold).
    pub level_milli: u32,
}

/// Mix two signals together by a ratio.
pub struct Mix {
    pub id: NodeId,
    pub inputs: PortStorageInner,
    pub outputs: PortStorageInner,
    /// Ratio of the second input in thousandths, at most 1000.
    pub ratio_milli: u32,
}

/// Toggle between two input signals.
pub struct Mux {
    pub id: NodeId,
    pub inputs: PortStorageInner,
    pub outputs: PortStorageInner,
    pub in_port: PortChoice,
}

/// Toggle between two output signals.
pub struct Demux {
    pub id: NodeId,
    pub inputs: PortStorageInner,
    pub outputs: PortStorageInner,
    pub out_port: PortChoice,
}

/// Sum two signals.
pub struct Add {
    pub id: NodeId,
    pub inputs: PortStorageInner,
    pub outputs: PortStorageInner,
}

/// Stream audio from an input device into the graph.
pub struct Input {
    pub id: NodeId,
    pub inputs: PortStorageInner,
    pub outputs: PortStorageInner,
    /// The audio host the user chose, by name.
    pub selected_host: String,
    /// The device the user chose, by name; persisted across restarts.
    pub selected_device: Option<String>,
    /// The identity of the device while it is open.
    pub device: Option<DeviceId>,
    /// The buffer the hardware callback feeds; this node drains consumer 0.
    pub source: Option<RingBuffer>,
}

/// Stream audio from the graph to an output device.
pub struct Output {
    pub id: NodeId,
    pub inputs: PortStorageInner,
    pub outputs: PortStorageInner,
    /// The audio host the user chose, by name.
    pub selected_host: String,
    /// The device the user chose, by name; persisted across restarts.
    pub selected_device: Option<String>,
    /// The identity of the device while it is open.
    pub device: Option<DeviceId>,
    /// The buffer the hardware callback drains (as consumer 0); this node
    /// fills it.
    pub sink: Option<RingBuffer>,
    /// Saturating latency catch-up counter; nonzero after a resync request.
    pub resync: u8,
}

/// A registry holding exactly the given names, in that order.
pub open spec fn names_are(r: PortStorageInner, names: Seq<Seq<char>>) -> bool {
    &&& r.port_count() == names.len()
    &&& forall|i: int| 0 <= i < names.len() ==> r.names_seq()[i] == #[trigger] names[i]
}

impl Gain {
    pub open spec fn wf(self) -> bool {
        &&& self.inputs.wf()
        &&& self.outputs.wf()
        &&& names_are(self.inputs, seq!["in"@])
        &&& names_are(self.outputs, seq!["out"@])
        &&& ids_bounded(self.inputs)
        &&& ids_bounded(self.outputs)
        &&& self.id.0 < u64::MAX
        &&& self.level_milli <= 10000
    }

    pub fn new(id: NodeId, port_gen: &mut IdGen) -> (r: Gain)
        requires
            old(port_gen).wf(),
            old(port_gen).can_generate(),
            old(port_gen).next() + 2 <= u64::MAX,
            id.0 < u64::MAX,
        ensures
            final(port_gen).wf(),
            final(port_gen).next() <= old(port_gen).next() + 2,
            r.wf(),
            r.id == id,
            r.level_milli == 1000,
    {
        let mut inputs = PortStorageInner::empty();
        inputs.add(port_gen, String::from_str("in"));
        let mut outputs = PortStorageInner::empty();
        outputs.add(port_gen, String::from_str("out"));
        proof {
            assert(inputs.names_seq() =~= seq!["in"@]);
            assert(outputs.names_seq() =~= seq!["out"@]);
        }
        Gain { id, inputs, outputs, level_milli: 1000 }
    }

    /// One block: every sample scaled by the level control.
    pub fn process(&self, input: &Vec<i32>) -> (out: Vec<i32>)
        requires
            self.wf(),
        ensures
            out@.len() == input@.len(),
            forall|j: int|
                0 <= j < input@.len() ==> #[trigger] out@[j] as int == gain_sample(
                    input@[j] as int,
                    self.level_milli as int,
                ),
    {
        let mut out: Vec<i32> = Vec::new();
        let mut j: usize = 0;
        while j < input.len()
            invariant
                self.wf(),
                j <= input@.len(),
                out@.len() == j,
                forall|i: int|
                    0 <= i < j ==> #[trigger] out@[i] as int == gain_sample(
                        input@[i] as int,
                        self.level_milli as int,
                    ),
            decreases input@.len() - j,
        {
            out.push(apply_gain(input[j], self.level_milli));
            j = j + 1;
        }
        out
    }
}

impl Mix {
    pub open spec fn wf(self) -> bool {
        &&& self.inputs.wf()
        &&& self.outputs.wf()
        &&& names_are(self.inputs, seq!["a"@, "b"@])
        &&& names_are(self.outputs, seq!["out"@])
        &&& ids_bounded(self.inputs)
        &&& ids_bounded(self.outputs)
        &&& self.id.0 < u64::MAX
        &&& self.ratio_milli <= 1000
    }

    pub fn new(id: NodeId, port_gen: &mut IdGen) -> (r: Mix)
        requires
            old(port_gen).wf(),
            old(port_gen).next() + 3 <= u64::MAX,
            id.0 < u64::MAX,
        ensures
            final(port_gen).wf(),
            final(port_gen).next() <= old(port_gen).next() + 3,
            r.wf(),
            r.id == id,
            r.ratio_milli == 500,
    {
        proof {
            reveal_strlit("a");
            reveal_strlit("b");
            assert("a"@[0] == 'a');
            assert("b"@[0] == 'b');
            assert("a"@ != "b"@);
        }
        let mut inputs = PortStorageInner::empty();
        inputs.add(port_gen, String::from_str("a"));
        inputs.add(port_gen, String::from_str("b"));
        let mut outputs = PortStorageInner::empty();
        outputs.add(port_gen, String::from_str("out"));
        proof {
            assert(inputs.names_seq() =~= seq!["a"@, "b"@]);
            assert(outputs.names_seq() =~= seq!["out"@]);
        }
        Mix { id, inputs, outputs, ratio_milli: 500 }
    }

    /// One block: each pair of samples blended by the ratio control.
    pub fn process(&self, a: &Vec<i32>, b: &Vec<i32>) -> (out: Vec<i32>)
        requires
            self.wf(),
            a@.len() == b@.len(),
        ensures
            out@.len() == a@.len(),
            forall|j: int|
                0 <= j < a@.len() ==> #[trigger] out@[j] as int == mix_sample(
                    a@[j] as int,
                    b@[j] as int,
                    self.ratio_milli as int,
                ),
    {
        let mut out: Vec<i32> = Vec::new();
        let mut j: usize = 0;
        while j < a.len()
            invariant
                self.wf(),
                a@.len() == b@.len(),
                j <= a@.len(),
                out@.len() == j,
                forall|i: int|
                    0 <= i < j ==> #[trigger] out@[i] as int == mix_sample(
                        a@[i] as int,
                        b@[i] as int,
                        self.ratio_milli as int,
                    ),
            decreases a@.len() - j,
        {
            out.push(apply_mix(a[j], b[j], self.ratio_milli));
            j = j + 1;
        }
        out
    }
}

impl Mux {
    pub open spec fn wf(self) -> bool {
        &&& self.inputs.wf()
        &&& self.outputs.wf()
        &&& names_are(self.inputs, seq!["a"@, "b"@])
        &&& names_are(self.outputs, seq!["out"@])
        &&& ids_bounded(self.inputs)
        &&& ids_bounded(self.outputs)
        &&& self.id.0 < u64::MAX
    }

    pub fn new(id: NodeId, port_gen: &mut IdGen) -> (r: Mux)
        requires
            old(port_gen).wf(),
            old(port_gen).next() + 3 <= u64::MAX,
            id.0 < u64::MAX,
        ensures
            final(port_gen).wf(),
            final(port_gen).next() <= old(port_gen).next() + 3,
            r.wf(),
            r.id == id,
            r.in_port == PortChoice::A,
    {
        proof {
            reveal_strlit("a");
            reveal_strlit("b");
            assert("a"@[0] == 'a');
            assert("b"@[0] == 'b');
            assert("a"@ != "b"@);
        }
        let mut inputs = PortStorageInner::empty();
        inputs.add(port_gen, String::from_str("a"));
        inputs.add(port_gen, String::from_str("b"));
        let mut outputs = PortStorageInner::empty();
        outputs.add(port_gen, String::from_str("out"));
        proof {
            assert(inputs.names_seq() =~= seq!["a"@, "b"@]);
            assert(outputs.names_seq() =~= seq!["out"@]);
        }
        Mux { id, inputs, outputs, in_port: PortChoice::A }
    }

    /// One block: a copy of whichever input is selected.
    pub fn process(&self, a: &Vec<i32>, b: &Vec<i32>) -> (out: Vec<i32>)
        requires
            self.wf(),
        ensures
            out@ == if self.in_port == PortChoice::A {
                a@
            } else {
                b@
            },
    {
        match self.in_port {
            PortChoice::A => copy_block(a),
            PortChoice::B => copy_block(b),
        }
    }
}

impl Demux {
    pub open spec fn wf(self) -> bool {
        &&& self.inputs.wf()
        &&& self.outputs.wf()
        &&& names_are(self.inputs, seq!["in"@])
        &&& names_are(self.outputs, seq!["a"@, "b"@])
        &&& ids_bounded(self.inputs)
        &&& ids_bounded(self.outputs)
        &&& self.id.0 < u64::MAX
    }

    pub fn new(id: NodeId, port_gen: &mut IdGen) -> (r: Demux)
        requires
            old(port_gen).wf(),
            old(port_gen).next() + 3 <= u64::MAX,
            id.0 < u64::MAX,
        ensures
            final(port_gen).wf(),
            final(port_gen).next() <= old(port_gen).next() + 3,
            r.wf(),
            r.id == id,
            r.out_port == PortChoice::A,
    {
        proof {
            reveal_strlit("a");
            reveal_strlit("b");
            assert("a"@[0] == 'a');
            assert("b"@[0] == 'b');
            assert("a"@ != "b"@);
        }
        let mut inputs = PortStorageInner::empty();
        inputs.add(port_gen, String::from_str("in"));
        let mut outputs = PortStorageInner::empty();
        outputs.add(port_gen, String::from_str("a"));
        outputs.add(port_gen, String::from_str("b"));
        proof {
            assert(inputs.names_seq() =~= seq!["in"@]);
            assert(outputs.names_seq() =~= seq!["a"@, "b"@]);
        }
        Demux { id, inputs, outputs, out_port: PortChoice::A }
    }

    /// One block: the input copied to the selected output, silence on the
    /// other.
    pub fn process(&self, input: &Vec<i32>) -> (out: (Vec<i32>, Vec<i32>))
        requires
            self.wf(),
        ensures
            out.0@ == if self.out_port == PortChoice::A {
                input@
            } else {
                zero_block(input@.len() as int)
            },
            out.1@ == if self.out_port == PortChoice::B {
                input@
            } else {
                zero_block(input@.len() as int)
            },
    {
        match self.out_port {
            PortChoice::A => (copy_block(input), silence_block(input.len())),
            PortChoice::B => (silence_block(input.len()), copy_block(input)),
        }
    }
}

impl Add {
    pub open spec fn wf(self) -> bool {
        &&& self.inputs.wf()
        &&& self.outputs.wf()
        &&& names_are(self.inputs, seq!["a"@, "b"@])
        &&& names_are(self.outputs, seq!["out"@])
        &&& ids_bounded(self.inputs)
        &&& ids_bounded(self.outputs)
        &&& self.id.0 < u64::MAX
    }

    pub fn new(id: NodeId, port_gen: &mut IdGen) -> (r: Add)
        requires
            old(port_gen).wf(),
            old(port_gen).next() + 3 <= u64::MAX,
            id.0 < u64::MAX,
        ensures
            final(port_gen).wf(),
            final(port_gen).next() <= old(port_gen).next() + 3,
            r.wf(),
            r.id == id,
    {
        proof {
            reveal_strlit("a");
            reveal_strlit("b");
            assert("a"@[0] == 'a');
            assert("b"@[0] == 'b');
            assert("a"@ != "b"@);
        }
        let mut inputs = PortStorageInner::empty();
        inputs.add(port_gen, String::from_str("a"));
        inputs.add(port_gen, String::from_str("b"));
        let mut outputs = PortStorageInner::empty();
        outputs.add(port_gen, String::from_str("out"));
        proof {
            assert(inputs.names_seq() =~= seq!["a"@, "b"@]);
            assert(outputs.names_seq() =~= seq!["out"@]);
        }
        Add { id, inputs, outputs }
    }

    /// One block: the two inputs summed sample by sample, saturating.
    pub fn process(&self, a: &Vec<i32>, b: &Vec<i32>) -> (out: Vec<i32>)
        requires
            self.wf(),
            a@.len() == b@.len(),
        ensures
            out@.len() == a@.len(),
            forall|j: int|
                0 <= j < a@.len() ==> #[trigger] out@[j] as int == add_sample(
                    a@[j] as int,
                    b@[j] as int,
                ),
    {
        let mut out: Vec<i32> = Vec::new();
        let mut j: usize = 0;
        while j < a.len()
            invariant
                a@.len() == b@.len(),
                j <= a@.len(),
                out@.len() == j,
                forall|i: int|
                    0 <= i < j ==> #[trigger] out@[i] as int == add_sample(
                        a@[i] as int,
                        b@[i] as int,
                    ),
            decreases a@.len() - j,
        {
            out.push(apply_add(a[j], b[j]));
            j = j + 1;
        }
        out
    }
}

impl Input {
    pub open spec fn wf(self) -> bool {
        &&& self.inputs.wf()
        &&& self.outputs.wf()
        &&& names_are(self.inputs, Seq::empty())
        &&& names_are(self.outputs, seq!["out"@])
        &&& ids_bounded(self.inputs)
        &&& ids_bounded(self.outputs)
        &&& self.id.0 < u64::MAX
        &&& self.device.is_some() == self.source.is_some()
        &&& match self.source {
            Some(b) => b.wf() && b.num_consumers() == 1 && b.is_live(0) && b.capacity()
                >= crate::BLOCK_SIZE,
            None => true,
        }
    }

    pub fn new(id: NodeId, port_gen: &mut IdGen, host: String) -> (r: Input)
        requires
            old(port_gen).wf(),
            old(port_gen).next() + 2 <= u64::MAX,
            id.0 < u64::MAX,
        ensures
            final(port_gen).wf(),
            final(port_gen).next() <= old(port_gen).next() + 2,
            r.wf(),
            r.id == id,
            r.selected_host == host,
            r.selected_device.is_none(),
            r.device.is_none(),
    {
        let inputs = PortStorageInner::empty();
        let mut outputs = PortStorageInner::empty();
        outputs.add(port_gen, String::from_str("out"));
        proof {
            assert(outputs.names_seq() =~= seq!["out"@]);
        }
        Input {
            id,
            inputs,
            outputs,
            selected_host: host,
            selected_device: None,
            device: None,
            source: None,
        }
    }

    /// Bind an opened input device: its identity and the buffer its
    /// hardware callback fills.
    pub fn attach_device(&mut self, name: String, dev: DeviceId, buf: RingBuffer)
        requires
            old(self).wf(),
            buf.wf(),
            buf.num_consumers() == 1,
            buf.is_live(0),
            buf.capacity() >= crate::BLOCK_SIZE,
        ensures
            final(self).wf(),
            final(self).selected_device == Some(name),
            final(self).device == Some(dev),
            final(self).source == Some(buf),
            final(self).id == old(self).id,
            final(self).inputs == old(self).inputs,
            final(self).outputs == old(self).outputs,
            final(self).selected_host == old(self).selected_host,
    {
        self.selected_device = Some(name);
        self.device = Some(dev);
        self.source = Some(buf);
    }

    /// Drop the device binding, returning the identity that must be closed.
    pub fn detach_device(&mut self) -> (r: Option<DeviceId>)
        requires
            old(self).wf(),
        ensures
            final(self).wf(),
            r == old(self).device,
            final(self).selected_device.is_none(),
            final(self).device.is_none(),
            final(self).source.is_none(),
            final(self).id == old(self).id,
            final(self).inputs == old(self).inputs,
            final(self).outputs == old(self).outputs,
            final(self).selected_host == old(self).selected_host,
    {
        let r = self.device;
        self.selected_device = None;
        self.device = None;
        self.source = None;
        r
    }
}

impl Output {
    pub open spec fn wf(self) -> bool {
        &&& self.inputs.wf()
        &&& self.outputs.wf()
        &&& names_are(self.inputs, seq!["in"@])
        &&& names_are(self.outputs, Seq::empty())
        &&& ids_bounded(self.inputs)
        &&& ids_bounded(self.outputs)
        &&& self.id.0 < u64::MAX
        &&& self.device.is_some() == self.sink.is_some()
        &&& match self.sink {
            Some(b) => b.wf() && b.num_consumers() == 1 && b.is_live(0) && b.capacity()
                >= crate::BLOCK_SIZE,
            None => true,
        }
    }

    pub fn new(id: NodeId, port_gen: &mut IdGen, host: String) -> (r: Output)
        requires
            old(port_gen).wf(),
            old(port_gen).next() + 2 <= u64::MAX,
            id.0 < u64::MAX,
        ensures
            final(port_gen).wf(),
            final(port_gen).next() <= old(port_gen).next() + 2,
            r.wf(),
            r.id == id,
            r.selected_host == host,
            r.selected_device.is_none(),
            r.device.is_none(),
            r.resync == 0,
    {
        let mut inputs = PortStorageInner::empty();
        inputs.add(port_gen, String::from_str("in"));
        let outputs = PortStorageInner::empty();
        proof {
            assert(inputs.names_seq() =~= seq!["in"@]);
        }
        Output {
            id,
            inputs,
            outputs,
            selected_host: host,
            selected_device: None,
            device: None,
            sink: None,
            resync: 0,
        }
    }

    /// Bind an opened output device: its identity and the buffer its
    /// hardware callback drains.
    pub fn attach_device(&mut self, name: String, dev: DeviceId, buf: RingBuffer)
        requires
            old(self).wf(),
            buf.wf(),
            buf.num_consumers() == 1,
            buf.is_live(0),
            buf.capacity() >= crate::BLOCK_SIZE,
        ensures
            final(self).wf(),
            final(self).selected_device == Some(name),
            final(self).device == Some(dev),
            final(self).sink == Some(buf),
            final(self).id == old(self).id,
            final(self).inputs == old(self).inputs,
            final(self).outputs == old(self).outputs,
            final(self).selected_host == old(self).selected_host,
            final(self).resync == old(self).resync,
    {
        self.selected_device = Some(name);
        self.device = Some(dev);
        self.sink = Some(buf);
    }

    /// Drop the device binding, returning the identity that must be closed.
    pub fn detach_device(&mut self) -> (r: Option<DeviceId>)
        requires
            old(self).wf(),
        ensures
            final(self).wf(),
            r == old(self).device,
            final(self).selected_device.is_none(),
            final(self).device.is_none(),
            final(self).sink.is_none(),
            final(self).id == old(self).id,
            final(self).inputs == old(self).inputs,
            final(self).outputs == old(self).outputs,
            final(self).selected_host == old(self).selected_host,
            final(self).resync == old(self).resync,
    {
        let r = self.device;
        self.selected_device = None;
        self.device = None;
        self.sink = None;
        r
    }
}

/// Failure to rebuild a node from a persisted configuration.
#[derive(Clone, Copy, PartialEq, Eq, Structural, Debug)]
pub enum ConfigError {
    /// The persisted identity does not fit the identity space.
    InvalidId,
    /// The persisted port map does not match the node type's ports.
    InvalidPorts,
    /// A persisted control value is outside its range.
    InvalidSetting,
}

/// The persisted configuration of one node: everything its type needs to
/// reconstruct it.
pub enum NodeCfg {
    Input { id: u64, host: String, device: Option<String>, outputs: Vec<(String, u64)> },
    Output { id: u64, host: String, device: Option<String>, inputs: Vec<(String, u64)> },
    Gain { id: u64, inputs: Vec<(String, u64)>, outputs: Vec<(String, u64)>, level_milli: u32 },
    Mix { id: u64, inputs: Vec<(String, u64)>, outputs: Vec<(String, u64)>, ratio_milli: u32 },
    Mux { id: u64, inputs: Vec<(String, u64)>, outputs: Vec<(String, u64)>, in_port: PortChoice },
    Demux {
        id: u64,
        inputs: Vec<(String, u64)>,
        outputs: Vec<(String, u64)>,
        out_port: PortChoice,
    },
    Add { id: u64, inputs: Vec<(String, u64)>, outputs: Vec<(String, u64)> },
}

/// The mathematical content of a persisted configuration: what would be
/// written out, with strings as character sequences.
#[verifier::ext_equal]
pub enum CfgView {
    Input { id: u64, host: Seq<char>, device: Option<Seq<char>>, outputs: Seq<(Seq<char>, u64)> },
    Output { id: u64, host: Seq<char>, device: Option<Seq<char>>, inputs: Seq<(Seq<char>, u64)> },
    Gain { id: u64, inputs: Seq<(Seq<char>, u64)>, outputs: Seq<(Seq<char>, u64)>, level_milli: u32 },
    Mix { id: u64, inputs: Seq<(Seq<char>, u64)>, outputs: Seq<(Seq<char>, u64)>, ratio_milli: u32 },
    Mux {
        id: u64,
        inputs: Seq<(Seq<char>, u64)>,
        outputs: Seq<(Seq<char>, u64)>,
        in_port: PortChoice,
    },
    Demux {
        id: u64,
        inputs: Seq<(Seq<char>, u64)>,
        outputs: Seq<(Seq<char>, u64)>,
        out_port: PortChoice,
    },
    Add { id: u64, inputs: Seq<(Seq<char>, u64)>, outputs: Seq<(Seq<char>, u64)> },
}

/// The view of a persisted port map.
pub open spec fn port_map_view(v: Seq<(String, u64)>) -> Seq<(Seq<char>, u64)> {
    v.map_values(|p: (String, u64)| (p.0@, p.1))
}

/// What a registry looks like when persisted.
pub open spec fn registry_view(r: PortStorageInner) -> Seq<(Seq<char>, u64)> {
    Seq::new(r.port_count() as nat, |i: int| (r.names_seq()[i], r.ids_seq()[i].0))
}

/// The view of an optional device name.
pub open spec fn opt_str_view(v: Option<String>) -> Option<Seq<char>> {
    match v {
        Some(s) => Some(s@),
        None => None,
    }
}

/// The mathematical content of a configuration value.
pub open spec fn cfg_view(c: NodeCfg) -> CfgView {
    match c {
        NodeCfg::Input { id, host, device, outputs } => CfgView::Input {
            id,
            host: host@,
            device: opt_str_view(device),
            outputs: port_map_view(outputs@),
        },
        NodeCfg::Output { id, host, device, inputs } => CfgView::Output {
            id,
            host: host@,
            device: opt_str_view(device),
            inputs: port_map_view(inputs@),
        },
        NodeCfg::Gain { id, inputs, outputs, level_milli } => CfgView::Gain {
            id,
            inputs: port_map_view(inputs@),
            outputs: port_map_view(outputs@),
            level_milli,
        },
        NodeCfg::Mix { id, inputs, outputs, ratio_milli } => CfgView::Mix {
            id,
            inputs: port_map_view(inputs@),
            outputs: port_map_view(outputs@),
            ratio_milli,
        },
        NodeCfg::Mux { id, inputs, outputs, in_port } => CfgView::Mux {
            id,
            inputs: port_map_view(inputs@),
            outputs: port_map_view(outputs@),
            in_port,
        },
        NodeCfg::Demux { id, inputs, outputs, out_port } => CfgView::Demux {
            id,
            inputs: port_map_view(inputs@),
            outputs: port_map_view(outputs@),
            out_port,
        },
        NodeCfg::Add { id, inputs, outputs } => CfgView::Add {
            id,
            inputs: port_map_view(inputs@),
            outputs: port_map_view(outputs@),
        },
    }
}

/// A persisted port map holds exactly the given names, in order.
pub open spec fn map_names_are(m: Seq<(Seq<char>, u64)>, names: Seq<Seq<char>>) -> bool {
    &&& m.len() == names.len()
    &&& forall|i: int| 0 <= i < m.len() ==> (#[trigger] m[i]).0 == names[i]
}

/// A persisted port map's identities are pairwise distinct and restorable.
pub open spec fn map_ids_ok(m: Seq<(Seq<char>, u64)>) -> bool {
    &&& forall|i: int, j: int| 0 <= i < j < m.len() ==> m[i].1 != m[j].1
    &&& forall|i: int| 0 <= i < m.len() ==> (#[trigger] m[i]).1 < u64::MAX
}

/// The persisted identity a configuration carries.
pub open spec fn cfg_id(v: CfgView) -> u64 {
    match v {
        CfgView::Input { id, .. } => id,
        CfgView::Output { id, .. } => id,
        CfgView::Gain { id, .. } => id,
        CfgView::Mix { id, .. } => id,
        CfgView::Mux { id, .. } => id,
        CfgView::Demux { id, .. } => id,
        CfgView::Add { id, .. } => id,
    }
}

/// The persisted port maps match the node type's declared ports.
pub open spec fn cfg_ports_ok(v: CfgView) -> bool {
    match v {
        CfgView::Input { outputs, .. } => map_ids_ok(outputs) && map_names_are(
            outputs,
            seq!["out"@],
        ),
        CfgView::Output { inputs, .. } => map_ids_ok(inputs) && map_names_are(
            inputs,
            seq!["in"@],
        ),
        CfgView::Gain { inputs, outputs, .. } => map_ids_ok(inputs) && map_ids_ok(outputs)
            && map_names_are(inputs, seq!["in"@]) && map_names_are(outputs, seq!["out"@]),
        CfgView::Mix { inputs, outputs, .. } => map_ids_ok(inputs) && map_ids_ok(outputs)
            && map_names_are(inputs, seq!["a"@, "b"@]) && map_names_are(outputs, seq!["out"@]),
        CfgView::Mux { inputs, outputs, .. } => map_ids_ok(inputs) && map_ids_ok(outputs)
            && map_names_are(inputs, seq!["a"@, "b"@]) && map_names_are(outputs, seq!["out"@]),
        CfgView::Demux { inputs, outputs, .. } => map_ids_ok(inputs) && map_ids_ok(outputs)
            && map_names_are(inputs, seq!["in"@]) && map_names_are(outputs, seq!["a"@, "b"@]),
        CfgView::Add { inputs, outputs, .. } => map_ids_ok(inputs) && map_ids_ok(outputs)
            && map_names_are(inputs, seq!["a"@, "b"@]) && map_names_are(outputs, seq!["out"@]),
    }
}

/// The persisted control values are within their ranges.
pub open spec fn cfg_setting_ok(v: CfgView) -> bool {
    match v {
        CfgView::Gain { level_milli, .. } => level_milli <= 10000,
        CfgView::Mix { ratio_milli, .. } => ratio_milli <= 1000,
        _ => true,
    }
}

/// A configuration that `restore` accepts and rebuilds a node from.
pub open spec fn cfg_valid(v: CfgView) -> bool {
    cfg_id(v) < u64::MAX && cfg_ports_ok(v) && cfg_setting_ok(v)
}

/// Which error `restore` reports for an unacceptable configuration: the
/// identity is examined first, then the port maps, then the controls.
pub open spec fn restore_error(v: CfgView) -> ConfigError {
    if cfg_id(v) >= u64::MAX {
        ConfigError::InvalidId
    } else if !cfg_ports_ok(v) {
        ConfigError::InvalidPorts
    } else {
        ConfigError::InvalidSetting
    }
}

/// Every persisted port entry of a configuration: what must enter the
/// port identity generator on a restore.
pub open spec fn cfg_port_entries(v: CfgView) -> Seq<(Seq<char>, u64)> {
    match v {
        CfgView::Input { outputs, .. } => outputs,
        CfgView::Output { inputs, .. } => inputs,
        CfgView::Gain { inputs, outputs, .. } => inputs + outputs,
        CfgView::Mix { inputs, outputs, .. } => inputs + outputs,
        CfgView::Mux { inputs, outputs, .. } => inputs + outputs,
        CfgView::Demux { inputs, outputs, .. } => inputs + outputs,
        CfgView::Add { inputs, outputs, .. } => inputs + outputs,
    }
}

/// Identities from two restored port maps are all in the generator's
/// produced set.
proof fn lemma_maps_in_produced(g: IdGen, a: Seq<(String, u64)>, b: Seq<(String, u64)>)
    requires
        forall|i: int| 0 <= i < a.len() ==> g.produced().contains((#[trigger] a[i]).1),
        forall|i: int| 0 <= i < b.len() ==> g.produced().contains((#[trigger] b[i]).1),
    ensures
        forall|i: int|
            0 <= i < (port_map_view(a) + port_map_view(b)).len() ==> g.produced().contains(
                (#[trigger] (port_map_view(a) + port_map_view(b))[i]).1,
            ),
{
    assert forall|i: int|
        0 <= i < (port_map_view(a) + port_map_view(b)).len() implies g.produced().contains(
        (#[trigger] (port_map_view(a) + port_map_view(b))[i]).1,
    ) by {
        if i < a.len() {
            assert(port_map_view(a)[i] == (a[i].0@, a[i].1));
        } else {
            assert(port_map_view(b)[i - a.len()] == (b[i - a.len()].0@, b[i - a.len()].1));
        }
    }
}

/// Persist a registry as name/identity pairs.
fn save_ports(r: &PortStorageInner) -> (v: Vec<(String, u64)>)
    requires
        r.wf(),
    ensures
        port_map_view(v@) == registry_view(*r),
{
    proof {
        r.lemma_registry_facts();
    }
    let mut v: Vec<(String, u64)> = Vec::new();
    let mut i: usize = 0;
    while i < r.len()
        invariant
            r.wf(),
            i <= r.port_count(),
            v@.len() == i,
            forall|j: int|
                0 <= j < i ==> (#[trigger] v@[j]).0@ == r.names_seq()[j] && v@[j].1
                    == r.ids_seq()[j].0,
        decreases r.port_count() - i,
    {
        let name = r.name_at(i).clone();
        let id = r.id_at(i);
        v.push((name, id.get()));
        i = i + 1;
    }
    proof {
        assert(port_map_view(v@) =~= registry_view(*r));
    }
    v
}

/// Check that a persisted port map carries exactly the expected names, in
/// order, with distinct restorable identities.
fn check_port_map(v: &Vec<(String, u64)>, expected: &Vec<String>) -> (r: bool)
    ensures
        r <==> (map_names_are(port_map_view(v@), expected@.map_values(|s: String| s@))
            && map_ids_ok(port_map_view(v@))),
{
    if v.len() != expected.len() {
        proof {
            assert(port_map_view(v@).len() == v@.len());
            assert(expected@.map_values(|s: String| s@).len() == expected@.len());
        }
        return false;
    }
    let mut i: usize = 0;
    while i < v.len()
        invariant
            v@.len() == expected@.len(),
            i <= v@.len(),
            forall|j: int|
                0 <= j < i ==> (#[trigger] port_map_view(v@)[j]).0 == expected@.map_values(
                    |s: String| s@,
                )[j],
            forall|j: int| 0 <= j < i ==> (#[trigger] port_map_view(v@)[j]).1 < u64::MAX,
            forall|j: int, k: int| 0 <= j < k < i ==> v@[j].1 != v@[k].1,
        decreases v@.len() - i,
    {
        let entry = &v[i];
        proof {
            assert((#[trigger] port_map_view(v@)[i as int]).0 == v@[i as int].0@);
            assert(port_map_view(v@)[i as int].1 == v@[i as int].1);
            assert(expected@.map_values(|s: String| s@)[i as int] == expected@[i as int]@);
        }
        if !(entry.0 == expected[i]) {
            return false;
        }
        if entry.1 >= u64::MAX {
            return false;
        }
        let mut j: usize = 0;
        while j < i
            invariant
                v@.len() == expected@.len(),
                j <= i < v@.len(),
                forall|k: int| 0 <= k < j ==> v@[k].1 != v@[i as int].1,
            decreases i - j,
        {
            if v[j].1 == v[i].1 {
                proof {
                    assert(port_map_view(v@)[j as int].1 == v@[j as int].1);
                    assert(port_map_view(v@)[i as int].1 == v@[i as int].1);
                }
                return false;
            }
            j = j + 1;
        }
        i = i + 1;
    }
    true
}

/// Rebuild a registry from a persisted port map, raising the port identity
/// generator past every restored identity.
fn restore_ports(gen: &mut IdGen, v: &Vec<(String, u64)>) -> (r: PortStorageInner)
    requires
        old(gen).wf(),
        map_ids_ok(port_map_view(v@)),
        forall|i: int, j: int| 0 <= i < j < v@.len() ==> v@[i].0@ != v@[j].0@,
    ensures
        final(gen).wf(),
        forall|x: u64|
            old(gen).produced().contains(x) ==> final(gen).produced().contains(x),
        final(gen).next() >= old(gen).next(),
        r.wf(),
        registry_view(r) == port_map_view(v@),
        r.port_count() == v@.len(),
        ids_bounded(r),
        forall|i: int|
            0 <= i < v@.len() ==> final(gen).produced().contains((#[trigger] v@[i]).1),
{
    let mut pairs: Vec<(String, PortId)> = Vec::new();
    let mut i: usize = 0;
    while i < v.len()
        invariant
            gen.wf(),
            map_ids_ok(port_map_view(v@)),
            forall|a: int, b: int| 0 <= a < b < v@.len() ==> v@[a].0@ != v@[b].0@,
            i <= v@.len(),
            pairs@.len() == i,
            forall|j: int|
                0 <= j < i ==> (#[trigger] pairs@[j]).0@ == v@[j].0@ && pairs@[j].1.0 == v@[j].1,
            forall|x: u64|
                old(gen).produced().contains(x) ==> gen.produced().contains(x),
            gen.next() >= old(gen).next(),
            forall|j: int| 0 <= j < i ==> gen.produced().contains((#[trigger] v@[j]).1),
        decreases v@.len() - i,
    {
        let entry = &v[i];
        proof {
            assert((#[trigger] port_map_view(v@)[i as int]).1 == v@[i as int].1);
        }
        let pid = PortId::restore(gen, entry.1);
        pairs.push((entry.0.clone(), pid));
        i = i + 1;
    }
    proof {
        assert forall|a: int, b: int| 0 <= a < b < pairs@.len() implies pairs@[a].1
            != pairs@[b].1 by {
            assert(port_map_view(v@)[a].1 == v@[a].1);
            assert(port_map_view(v@)[b].1 == v@[b].1);
        }
    }
    let r = PortStorageInner::new(pairs);
    proof {
        assert forall|i: int| 0 <= i < r.port_count() implies (#[trigger] r.ids_seq()[i]).0
            < u64::MAX by {
            assert(port_map_view(v@)[i].1 == v@[i].1);
        }
        assert(registry_view(r) =~= port_map_view(v@));
    }
    r
}

/// A restored registry whose persisted view carries the expected names
/// carries them itself.
proof fn lemma_restored_names(r: PortStorageInner, m: Seq<(Seq<char>, u64)>, names: Seq<Seq<char>>)
    requires
        registry_view(r) == m,
        map_names_are(m, names),
        r.port_count() == m.len(),
    ensures
        names_are(r, names),
{
    assert forall|i: int| 0 <= i < names.len() implies r.names_seq()[i] == #[trigger] names[i] by {
        assert(registry_view(r)[i] == (r.names_seq()[i], r.ids_seq()[i].0));
        assert(m[i].0 == names[i]);
    }
}

/// A persisted map carrying pairwise distinct names has pairwise distinct
/// name strings.
proof fn lemma_map_names_distinct(v: Seq<(String, u64)>, names: Seq<Seq<char>>)
    requires
        map_names_are(port_map_view(v), names),
        forall|i: int, j: int| 0 <= i < j < names.len() ==> names[i] != names[j],
    ensures
        forall|i: int, j: int| 0 <= i < j < v.len() ==> v[i].0@ != v[j].0@,
{
    assert forall|i: int, j: int| 0 <= i < j < v.len() implies v[i].0@ != v[j].0@ by {
        assert((#[trigger] port_map_view(v)[i]).0 == v[i].0@);
        assert((#[trigger] port_map_view(v)[j]).0 == v[j].0@);
    }
}

/// A well-formed registry with the expected names persists to an acceptable
/// port map.
proof fn lemma_registry_map_ok(r: PortStorageInner, names: Seq<Seq<char>>)
    requires
        r.wf(),
        names_are(r, names),
        ids_bounded(r),
    ensures
        map_names_are(registry_view(r), names),
        map_ids_ok(registry_view(r)),
{
    r.lemma_registry_facts();
    assert forall|i: int| 0 <= i < registry_view(r).len() implies (#[trigger] registry_view(
        r,
    )[i]).0 == names[i] by {
        assert(registry_view(r)[i] == (r.names_seq()[i], r.ids_seq()[i].0));
    }
    assert forall|i: int, j: int|
        0 <= i < j < registry_view(r).len() implies registry_view(r)[i].1 != registry_view(
        r,
    )[j].1 by {
        assert(registry_view(r)[i] == (r.names_seq()[i], r.ids_seq()[i].0));
        assert(registry_view(r)[j] == (r.names_seq()[j], r.ids_seq()[j].0));
        assert(r.ids_seq()[i] != r.ids_seq()[j]);
    }
    assert forall|i: int| 0 <= i < registry_view(r).len() implies (#[trigger] registry_view(
        r,
    )[i]).1 < u64::MAX by {
        assert(registry_view(r)[i] == (r.names_seq()[i], r.ids_seq()[i].0));
        assert(r.ids_seq()[i].0 < u64::MAX);
    }
}

impl Gain {
    /// What this node persists.
    pub open spec fn save_view(self) -> CfgView {
        CfgView::Gain {
            id: self.id.0,
            inputs: registry_view(self.inputs),
            outputs: registry_view(self.outputs),
            level_milli: self.level_milli,
        }
    }
}

impl Mix {
    /// What this node persists.
    pub open spec fn save_view(self) -> CfgView {
        CfgView::Mix {
            id: self.id.0,
            inputs: registry_view(self.inputs),
            outputs: registry_view(self.outputs),
            ratio_milli: self.ratio_milli,
        }
    }
}

impl Mux {
    /// What this node persists.
    pub open spec fn save_view(self) -> CfgView {
        CfgView::Mux {
            id: self.id.0,
            inputs: registry_view(self.inputs),
            outputs: registry_view(self.outputs),
            in_port: self.in_port,
        }
    }
}

impl Demux {
    /// What this node persists.
    pub open spec fn save_view(self) -> CfgView {
        CfgView::Demux {
            id: self.id.0,
            inputs: registry_view(self.inputs),
            outputs: registry_view(self.outputs),
            out_port: self.out_port,
        }
    }
}

impl Add {
    /// What this node persists.
    pub open spec fn save_view(self) -> CfgView {
        CfgView::Add {
            id: self.id.0,
            inputs: registry_view(self.inputs),
            outputs: registry_view(self.outputs),
        }
    }
}

impl Input {
    /// What this node persists: the selection by name, never the live
    /// device binding.
    pub open spec fn save_view(self) -> CfgView {
        CfgView::Input {
            id: self.id.0,
            host: self.selected_host@,
            device: opt_str_view(self.selected_device),
            outputs: registry_view(self.outputs),
        }
    }
}

impl Output {
    /// What this node persists: the selection by name, never the live
    /// device binding.
    pub open spec fn save_view(self) -> CfgView {
        CfgView::Output {
            id: self.id.0,
            host: self.selected_host@,
            device: opt_str_view(self.selected_device),
            inputs: registry_view(self.inputs),
        }
    }
}

/// The kind of a node, used by the constructor registry.
#[derive(Clone, Copy, PartialEq, Eq, Structural, Debug)]
pub enum NodeKind {
    Input,
    Output,
    Gain,
    Mix,
    Mux,
    Demux,
    Add,
}

/// A node of any supported type.
pub enum Nodes {
    Input(Input),
    Output(Output),
    Gain(Gain),
    Mix(Mix),
    Mux(Mux),
    Demux(Demux),
    Add(Add),
}

impl Nodes {
    pub open spec fn wf(self) -> bool {
        match self {
            Nodes::Input(n) => n.wf(),
            Nodes::Output(n) => n.wf(),
            Nodes::Gain(n) => n.wf(),
            Nodes::Mix(n) => n.wf(),
            Nodes::Mux(n) => n.wf(),
            Nodes::Demux(n) => n.wf(),
            Nodes::Add(n) => n.wf(),
        }
    }

    pub open spec fn id_spec(self) -> NodeId {
        match self {
            Nodes::Input(n) => n.id,
            Nodes::Output(n) => n.id,
            Nodes::Gain(n) => n.id,
            Nodes::Mix(n) => n.id,
            Nodes::Mux(n) => n.id,
            Nodes::Demux(n) => n.id,
            Nodes::Add(n) => n.id,
        }
    }

    pub open spec fn inputs_spec(self) -> PortStorageInner {
        match self {
            Nodes::Input(n) => n.inputs,
            Nodes::Output(n) => n.inputs,
            Nodes::Gain(n) => n.inputs,
            Nodes::Mix(n) => n.inputs,
            Nodes::Mux(n) => n.inputs,
            Nodes::Demux(n) => n.inputs,
            Nodes::Add(n) => n.inputs,
        }
    }

    pub open spec fn outputs_spec(self) -> PortStorageInner {
        match self {
            Nodes::Input(n) => n.outputs,
            Nodes::Output(n) => n.outputs,
            Nodes::Gain(n) => n.outputs,
            Nodes::Mix(n) => n.outputs,
            Nodes::Mux(n) => n.outputs,
            Nodes::Demux(n) => n.outputs,
            Nodes::Add(n) => n.outputs,
        }
    }

    /// How many input ports this node declares.
    pub open spec fn input_count(self) -> int {
        self.inputs_spec().port_count()
    }

    /// How many output ports this node declares.
    pub open spec fn output_count(self) -> int {
        self.outputs_spec().port_count()
    }

    pub open spec fn kind_spec(self) -> NodeKind {
        match self {
            Nodes::Input(_) => NodeKind::Input,
            Nodes::Output(_) => NodeKind::Output,
            Nodes::Gain(_) => NodeKind::Gain,
            Nodes::Mix(_) => NodeKind::Mix,
            Nodes::Mux(_) => NodeKind::Mux,
            Nodes::Demux(_) => NodeKind::Demux,
            Nodes::Add(_) => NodeKind::Add,
        }
    }

    /// A simple node is a pure block transform the execution loop drives;
    /// the device-bridging nodes run bespoke steps instead.
    pub open spec fn is_simple(self) -> bool {
        !(self is Input || self is Output)
    }

    /// What this node persists.
    pub open spec fn save_view(self) -> CfgView {
        match self {
            Nodes::Input(n) => n.save_view(),
            Nodes::Output(n) => n.save_view(),
            Nodes::Gain(n) => n.save_view(),
            Nodes::Mix(n) => n.save_view(),
            Nodes::Mux(n) => n.save_view(),
            Nodes::Demux(n) => n.save_view(),
            Nodes::Add(n) => n.save_view(),
        }
    }

    /// The block transform of a simple node: one output block per output
    /// port, as a function of one merged input block per input port.
    pub open spec fn transform(self, ins: Seq<Seq<i32>>, len: int) -> Seq<Seq<i32>> {
        match self {
            Nodes::Gain(g) => seq![
                Seq::new(len as nat, |j: int| gain_sample(ins[0][j] as int, g.level_milli as int) as i32),
            ],
            Nodes::Mix(m) => seq![
                Seq::new(
                    len as nat,
                    |j: int| mix_sample(ins[0][j] as int, ins[1][j] as int, m.ratio_milli as int) as i32,
                ),
            ],
            Nodes::Mux(m) => seq![if m.in_port == PortChoice::A { ins[0] } else { ins[1] }],
            Nodes::Demux(d) => if d.out_port == PortChoice::A {
                seq![ins[0], zero_block(len)]
            } else {
                seq![zero_block(len), ins[0]]
            },
            Nodes::Add(_) => seq![
                Seq::new(len as nat, |j: int| add_sample(ins[0][j] as int, ins[1][j] as int) as i32),
            ],
            _ => Seq::empty(),
        }
    }

    pub fn id(&self) -> (r: NodeId)
        ensures
            r == self.id_spec(),
    {
        match self {
            Nodes::Input(n) => n.id,
            Nodes::Output(n) => n.id,
            Nodes::Gain(n) => n.id,
            Nodes::Mix(n) => n.id,
            Nodes::Mux(n) => n.id,
            Nodes::Demux(n) => n.id,
            Nodes::Add(n) => n.id,
        }
    }

    pub fn inputs(&self) -> (r: &PortStorageInner)
        ensures
            *r == self.inputs_spec(),
    {
        match self {
            Nodes::Input(n) => &n.inputs,
            Nodes::Output(n) => &n.inputs,
            Nodes::Gain(n) => &n.inputs,
            Nodes::Mix(n) => &n.inputs,
            Nodes::Mux(n) => &n.inputs,
            Nodes::Demux(n) => &n.inputs,
            Nodes::Add(n) => &n.inputs,
        }
    }

    pub fn outputs(&self) -> (r: &PortStorageInner)
        ensures
            *r == self.outputs_spec(),
    {
        match self {
            Nodes::Input(n) => &n.outputs,
            Nodes::Output(n) => &n.outputs,
            Nodes::Gain(n) => &n.outputs,
            Nodes::Mix(n) => &n.outputs,
            Nodes::Mux(n) => &n.outputs,
            Nodes::Demux(n) => &n.outputs,
            Nodes::Add(n) => &n.outputs,
        }
    }

    /// The user-facing name of this node type.
    pub fn title(&self) -> &'static str {
        match self {
            Nodes::Input(_) => "Input",
            Nodes::Output(_) => "Output",
            Nodes::Gain(_) => "Gain",
            Nodes::Mix(_) => "Mix",
            Nodes::Mux(_) => "mux",
            Nodes::Demux(_) => "demux",
            Nodes::Add(_) => "add",
        }
    }

    /// The name this node type is persisted under.
    pub fn cfg_name(&self) -> &'static str {
        match self {
            Nodes::Input(_) => "input",
            Nodes::Output(_) => "output",
            Nodes::Gain(_) => "gain",
            Nodes::Mix(_) => "mix",
            Nodes::Mux(_) => "mux",
            Nodes::Demux(_) => "demux",
            Nodes::Add(_) => "add",
        }
    }

    /// A short description of this node type.
    pub fn description(&self) -> &'static str {
        match self {
            Nodes::Input(_) => "Stream audio from an input device",
            Nodes::Output(_) => "Stream audio to an output device",
            Nodes::Gain(_) => "Adjust gain of a signal",
            Nodes::Mix(_) => "Mix two signals together",
            Nodes::Mux(_) => "Toggle between two input signals",
            Nodes::Demux(_) => "Toggle between two output signals",
            Nodes::Add(_) => "add two signals together",
        }
    }

    /// The constructor registry: build a fresh node of the given kind. The
    /// device-bridging kinds start with no host selected.
    pub fn new(kind: NodeKind, id: NodeId, port_gen: &mut IdGen) -> (r: Nodes)
        requires
            old(port_gen).wf(),
            old(port_gen).next() + 3 <= u64::MAX,
            id.0 < u64::MAX,
        ensures
            final(port_gen).wf(),
            final(port_gen).next() <= old(port_gen).next() + 3,
            r.wf(),
            r.id_spec() == id,
            r.kind_spec() == kind,
    {
        match kind {
            NodeKind::Input => Nodes::Input(Input::new(id, port_gen, String::new())),
            NodeKind::Output => Nodes::Output(Output::new(id, port_gen, String::new())),
            NodeKind::Gain => Nodes::Gain(Gain::new(id, port_gen)),
            NodeKind::Mix => Nodes::Mix(Mix::new(id, port_gen)),
            NodeKind::Mux => Nodes::Mux(Mux::new(id, port_gen)),
            NodeKind::Demux => Nodes::Demux(Demux::new(id, port_gen)),
            NodeKind::Add => Nodes::Add(Add::new(id, port_gen)),
        }
    }

    /// One iteration of a simple node's transform: one merged block per
    /// input port in, one block per output port out.
    pub fn process(&self, inputs: &Vec<Vec<i32>>, len: usize) -> (outs: Vec<Vec<i32>>)
        requires
            self.wf(),
            self.is_simple(),
            inputs@.len() == self.input_count(),
            forall|k: int| 0 <= k < inputs@.len() ==> (#[trigger] inputs@[k])@.len() == len,
        ensures
            outs@.len() == self.output_count(),
            forall|k: int| 0 <= k < outs@.len() ==> (#[trigger] outs@[k])@.len() == len,
            outs@.map_values(|b: Vec<i32>| b@) == self.transform(
                inputs@.map_values(|b: Vec<i32>| b@),
                len as int,
            ),
    {
        let ghost ins = inputs@.map_values(|b: Vec<i32>| b@);
        let mut outs: Vec<Vec<i32>> = Vec::new();
        match self {
            Nodes::Gain(g) => {
                outs.push(g.process(&inputs[0]));
            }
            Nodes::Mix(m) => {
                outs.push(m.process(&inputs[0], &inputs[1]));
            }
            Nodes::Mux(m) => {
                outs.push(m.process(&inputs[0], &inputs[1]));
            }
            Nodes::Demux(d) => {
                let (a, b) = d.process(&inputs[0]);
                outs.push(a);
                outs.push(b);
            }
            Nodes::Add(a) => {
                outs.push(a.process(&inputs[0], &inputs[1]));
            }
            Nodes::Input(_) => {
                proof {
                    assert(false);
                }
            }
            Nodes::Output(_) => {
                proof {
                    assert(false);
                }
            }
        }
        proof {
            assert(outs@.map_values(|b: Vec<i32>| b@) =~~= self.transform(ins, len as int));
        }
        outs
    }

    /// Persist this node's configuration.
    pub fn save(&self) -> (c: NodeCfg)
        requires
            self.wf(),
        ensures
            cfg_view(c) == self.save_view(),
    {
        let c = match self {
            Nodes::Input(n) => {
                let device = match &n.selected_device {
                    Some(d) => Some(d.clone()),
                    None => None,
                };
                NodeCfg::Input {
                    id: n.id.get(),
                    host: n.selected_host.clone(),
                    device,
                    outputs: save_ports(&n.outputs),
                }
            }
            Nodes::Output(n) => {
                let device = match &n.selected_device {
                    Some(d) => Some(d.clone()),
                    None => None,
                };
                NodeCfg::Output {
                    id: n.id.get(),
                    host: n.selected_host.clone(),
                    device,
                    inputs: save_ports(&n.inputs),
                }
            }
            Nodes::Gain(n) => NodeCfg::Gain {
                id: n.id.get(),
                inputs: save_ports(&n.inputs),
                outputs: save_ports(&n.outputs),
                level_milli: n.level_milli,
            },
            Nodes::Mix(n) => NodeCfg::Mix {
                id: n.id.get(),
                inputs: save_ports(&n.inputs),
                outputs: save_ports(&n.outputs),
                ratio_milli: n.ratio_milli,
            },
            Nodes::Mux(n) => NodeCfg::Mux {
                id: n.id.get(),
                inputs: save_ports(&n.inputs),
                outputs: save_ports(&n.outputs),
                in_port: n.in_port,
            },
            Nodes::Demux(n) => NodeCfg::Demux {
                id: n.id.get(),
                inputs: save_ports(&n.inputs),
                outputs: save_ports(&n.outputs),
                out_port: n.out_port,
            },
            Nodes::Add(n) => NodeCfg::Add {
                id: n.id.get(),
                inputs: save_ports(&n.inputs),
                outputs: save_ports(&n.outputs),
            },
        };
        proof {
            assert(cfg_view(c) =~~= self.save_view());
        }
        c
    }
    /// Rebuild a node from a persisted configuration, raising the identity
    /// generators past every restored identity. The restored node saves back
    /// to exactly the configuration it was built from. Device-bridging nodes
    /// come back with their device selection remembered but not yet opened.
    pub fn restore(c: &NodeCfg, node_gen: &mut IdGen, port_gen: &mut IdGen) -> (r: Result<
        Nodes,
        ConfigError,
    >)
        requires
            old(node_gen).wf(),
            old(port_gen).wf(),
        ensures
            final(node_gen).wf(),
            final(port_gen).wf(),
            forall|x: u64|
                old(node_gen).produced().contains(x) ==> final(node_gen).produced().contains(x),
            forall|x: u64|
                old(port_gen).produced().contains(x) ==> final(port_gen).produced().contains(x),
            final(node_gen).next() >= old(node_gen).next(),
            final(port_gen).next() >= old(port_gen).next(),
            match r {
                Ok(n) => cfg_valid(cfg_view(*c)) && n.wf() && n.save_view() == cfg_view(*c)
                    && n.id_spec().0 == cfg_id(cfg_view(*c)) && final(node_gen).produced()
                    .contains(n.id_spec().0) && forall|i: int|
                    0 <= i < cfg_port_entries(cfg_view(*c)).len() ==> final(port_gen).produced()
                        .contains((#[trigger] cfg_port_entries(cfg_view(*c))[i]).1),
                Err(e) => !cfg_valid(cfg_view(*c)) && e == restore_error(cfg_view(*c))
                    && *final(node_gen) == *old(node_gen) && *final(port_gen) == *old(port_gen),
            },
    {
        proof {
            reveal_strlit("a");
            reveal_strlit("b");
            assert("a"@[0] == 'a');
            assert("b"@[0] == 'b');
            assert("a"@ != "b"@);
        }
        match c {
            NodeCfg::Input { id, host, device, outputs } => {
                if *id >= u64::MAX {
                    return Err(ConfigError::InvalidId);
                }
                let mut exp_out: Vec<String> = Vec::new();
                exp_out.push(String::from_str("out"));
                proof {
                    assert(exp_out@.map_values(|s: String| s@) =~= seq!["out"@]);
                }
                if !check_port_map(outputs, &exp_out) {
                    return Err(ConfigError::InvalidPorts);
                }
                let nid = NodeId::restore(node_gen, *id);
                proof {
                    lemma_map_names_distinct(outputs@, seq!["out"@]);
                }
                let outs = restore_ports(port_gen, outputs);
                let selected_device = match device {
                    Some(d) => Some(d.clone()),
                    None => None,
                };
                let n = Input {
                    id: nid,
                    inputs: PortStorageInner::empty(),
                    outputs: outs,
                    selected_host: host.clone(),
                    selected_device,
                    device: None,
                    source: None,
                };
                proof {
                    lemma_restored_names(outs, port_map_view(outputs@), seq!["out"@]);
                    assert(names_are(n.inputs, Seq::empty()));
                    assert(n.save_view() =~~= cfg_view(*c));
                    assert forall|i: int|
                        0 <= i < cfg_port_entries(cfg_view(*c)).len() implies port_gen.produced()
                        .contains((#[trigger] cfg_port_entries(cfg_view(*c))[i]).1) by {
                        assert(port_map_view(outputs@)[i] == (outputs@[i].0@, outputs@[i].1));
                    }
                }
                Ok(Nodes::Input(n))
            }
            NodeCfg::Output { id, host, device, inputs } => {
                if *id >= u64::MAX {
                    return Err(ConfigError::InvalidId);
                }
                let mut exp_in: Vec<String> = Vec::new();
                exp_in.push(String::from_str("in"));
                proof {
                    assert(exp_in@.map_values(|s: String| s@) =~= seq!["in"@]);
                }
                if !check_port_map(inputs, &exp_in) {
                    return Err(ConfigError::InvalidPorts);
                }
                let nid = NodeId::restore(node_gen, *id);
                proof {
                    lemma_map_names_distinct(inputs@, seq!["in"@]);
                }
                let ins = restore_ports(port_gen, inputs);
                let selected_device = match device {
                    Some(d) => Some(d.clone()),
                    None => None,
                };
                let n = Output {
                    id: nid,
                    inputs: ins,
                    outputs: PortStorageInner::empty(),
                    selected_host: host.clone(),
                    selected_device,
                    device: None,
                    sink: None,
                    resync: 0,
                };
                proof {
                    lemma_restored_names(ins, port_map_view(inputs@), seq!["in"@]);
                    assert(names_are(n.outputs, Seq::empty()));
                    assert(n.save_view() =~~= cfg_view(*c));
                    assert forall|i: int|
                        0 <= i < cfg_port_entries(cfg_view(*c)).len() implies port_gen.produced()
                        .contains((#[trigger] cfg_port_entries(cfg_view(*c))[i]).1) by {
                        assert(port_map_view(inputs@)[i] == (inputs@[i].0@, inputs@[i].1));
                    }
                }
                Ok(Nodes::Output(n))
            }
            NodeCfg::Gain { id, inputs, outputs, level_milli } => {
                if *id >= u64::MAX {
                    return Err(ConfigError::InvalidId);
                }
                let mut exp_in: Vec<String> = Vec::new();
                exp_in.push(String::from_str("in"));
                let mut exp_out: Vec<String> = Vec::new();
                exp_out.push(String::from_str("out"));
                proof {
                    assert(exp_in@.map_values(|s: String| s@) =~= seq!["in"@]);
                    assert(exp_out@.map_values(|s: String| s@) =~= seq!["out"@]);
                }
                let ok_in = check_port_map(inputs, &exp_in);
                let ok_out = check_port_map(outputs, &exp_out);
                if !ok_in || !ok_out {
                    return Err(ConfigError::InvalidPorts);
                }
                if *level_milli > 10000 {
                    return Err(ConfigError::InvalidSetting);
                }
                let nid = NodeId::restore(node_gen, *id);
                proof {
                    lemma_map_names_distinct(inputs@, seq!["in"@]);
                    lemma_map_names_distinct(outputs@, seq!["out"@]);
                }
                let ins = restore_ports(port_gen, inputs);
                let outs = restore_ports(port_gen, outputs);
                let n = Gain { id: nid, inputs: ins, outputs: outs, level_milli: *level_milli };
                proof {
                    lemma_restored_names(ins, port_map_view(inputs@), seq!["in"@]);
                    lemma_restored_names(outs, port_map_view(outputs@), seq!["out"@]);
                    assert(n.save_view() =~~= cfg_view(*c));
                    lemma_maps_in_produced(*port_gen, inputs@, outputs@);
                    assert(cfg_port_entries(cfg_view(*c)) == port_map_view(inputs@)
                        + port_map_view(outputs@));
                }
                Ok(Nodes::Gain(n))
            }
            NodeCfg::Mix { id, inputs, outputs, ratio_milli } => {
                if *id >= u64::MAX {
                    return Err(ConfigError::InvalidId);
                }
                let mut exp_in: Vec<String> = Vec::new();
                exp_in.push(String::from_str("a"));
                exp_in.push(String::from_str("b"));
                let mut exp_out: Vec<String> = Vec::new();
                exp_out.push(String::from_str("out"));
                proof {
                    assert(exp_in@.map_values(|s: String| s@) =~= seq!["a"@, "b"@]);
                    assert(exp_out@.map_values(|s: String| s@) =~= seq!["out"@]);
                }
                let ok_in = check_port_map(inputs, &exp_in);
                let ok_out = check_port_map(outputs, &exp_out);
                if !ok_in || !ok_out {
                    return Err(ConfigError::InvalidPorts);
                }
                if *ratio_milli > 1000 {
                    return Err(ConfigError::InvalidSetting);
                }
                let nid = NodeId::restore(node_gen, *id);
                proof {
                    lemma_map_names_distinct(inputs@, seq!["a"@, "b"@]);
                    lemma_map_names_distinct(outputs@, seq!["out"@]);
                }
                let ins = restore_ports(port_gen, inputs);
                let outs = restore_ports(port_gen, outputs);
                let n = Mix { id: nid, inputs: ins, outputs: outs, ratio_milli: *ratio_milli };
                proof {
                    lemma_restored_names(ins, port_map_view(inputs@), seq!["a"@, "b"@]);
                    lemma_restored_names(outs, port_map_view(outputs@), seq!["out"@]);
                    assert(n.save_view() =~~= cfg_view(*c));
                    lemma_maps_in_produced(*port_gen, inputs@, outputs@);
                    assert(cfg_port_entries(cfg_view(*c)) == port_map_view(inputs@)
                        + port_map_view(outputs@));
                }
                Ok(Nodes::Mix(n))
            }
            NodeCfg::Mux { id, inputs, outputs, in_port } => {
                if *id >= u64::MAX {
                    return Err(ConfigError::InvalidId);
                }
                let mut exp_in: Vec<String> = Vec::new();
                exp_in.push(String::from_str("a"));
                exp_in.push(String::from_str("b"));
                let mut exp_out: Vec<String> = Vec::new();
                exp_out.push(String::from_str("out"));
                proof {
                    assert(exp_in@.map_values(|s: String| s@) =~= seq!["a"@, "b"@]);
                    assert(exp_out@.map_values(|s: String| s@) =~= seq!["out"@]);
                }
                let ok_in = check_port_map(inputs, &exp_in);
                let ok_out = check_port_map(outputs, &exp_out);
                if !ok_in || !ok_out {
                    return Err(ConfigError::InvalidPorts);
                }
                let nid = NodeId::restore(node_gen, *id);
                proof {
                    lemma_map_names_distinct(inputs@, seq!["a"@, "b"@]);
                    lemma_map_names_distinct(outputs@, seq!["out"@]);
                }
                let ins = restore_ports(port_gen, inputs);
                let outs = restore_ports(port_gen, outputs);
                let n = Mux { id: nid, inputs: ins, outputs: outs, in_port: *in_port };
                proof {
                    lemma_restored_names(ins, port_map_view(inputs@), seq!["a"@, "b"@]);
                    lemma_restored_names(outs, port_map_view(outputs@), seq!["out"@]);
                    assert(n.save_view() =~~= cfg_view(*c));
                    lemma_maps_in_produced(*port_gen, inputs@, outputs@);
                    assert(cfg_port_entries(cfg_view(*c)) == port_map_view(inputs@)
                        + port_map_view(outputs@));
                }
                Ok(Nodes::Mux(n))
            }
            NodeCfg::Demux { id, inputs, outputs, out_port } => {
                if *id >= u64::MAX {
                    return Err(ConfigError::InvalidId);
                }
                let mut exp_in: Vec<String> = Vec::new();
                exp_in.push(String::from_str("in"));
                let mut exp_out: Vec<String> = Vec::new();
                exp_out.push(String::from_str("a"));
                exp_out.push(String::from_str("b"));
                proof {
                    assert(exp_in@.map_values(|s: String| s@) =~= seq!["in"@]);
                    assert(exp_out@.map_values(|s: String| s@) =~= seq!["a"@, "b"@]);
                }
                let ok_in = check_port_map(inputs, &exp_in);
                let ok_out = check_port_map(outputs, &exp_out);
                if !ok_in || !ok_out {
                    return Err(ConfigError::InvalidPorts);
                }
                let nid = NodeId::restore(node_gen, *id);
                proof {
                    lemma_map_names_distinct(inputs@, seq!["in"@]);
                    lemma_map_names_distinct(outputs@, seq!["a"@, "b"@]);
                }
                let ins = restore_ports(port_gen, inputs);
                let outs = restore_ports(port_gen, outputs);
                let n = Demux { id: nid, inputs: ins, outputs: outs, out_port: *out_port };
                proof {
                    lemma_restored_names(ins, port_map_view(inputs@), seq!["in"@]);
                    lemma_restored_names(outs, port_map_view(outputs@), seq!["a"@, "b"@]);
                    assert(n.save_view() =~~= cfg_view(*c));
                    lemma_maps_in_produced(*port_gen, inputs@, outputs@);
                    assert(cfg_port_entries(cfg_view(*c)) == port_map_view(inputs@)
                        + port_map_view(outputs@));
                }
                Ok(Nodes::Demux(n))
            }
            NodeCfg::Add { id, inputs, outputs } => {
                if *id >= u64::MAX {
                    return Err(ConfigError::InvalidId);
                }
                let mut exp_in: Vec<String> = Vec::new();
                exp_in.push(String::from_str("a"));
                exp_in.push(String::from_str("b"));
                let mut exp_out: Vec<String> = Vec::new();
                exp_out.push(String::from_str("out"));
                proof {
                    assert(exp_in@.map_values(|s: String| s@) =~= seq!["a"@, "b"@]);
                    assert(exp_out@.map_values(|s: String| s@) =~= seq!["out"@]);
                }
                let ok_in = check_port_map(inputs, &exp_in);
                let ok_out = check_port_map(outputs, &exp_out);
                if !ok_in || !ok_out {
                    return Err(ConfigError::InvalidPorts);
                }
                let nid = NodeId::restore(node_gen, *id);
                proof {
                    lemma_map_names_distinct(inputs@, seq!["a"@, "b"@]);
                    lemma_map_names_distinct(outputs@, seq!["out"@]);
                }
                let ins = restore_ports(port_gen, inputs);
                let outs = restore_ports(port_gen, outputs);
                let n = Add { id: nid, inputs: ins, outputs: outs };
                proof {
                    lemma_restored_names(ins, port_map_view(inputs@), seq!["a"@, "b"@]);
                    lemma_restored_names(outs, port_map_view(outputs@), seq!["out"@]);
                    assert(n.save_view() =~~= cfg_view(*c));
                    lemma_maps_in_produced(*port_gen, inputs@, outputs@);
                    assert(cfg_port_entries(cfg_view(*c)) == port_map_view(inputs@)
                        + port_map_view(outputs@));
                }
                Ok(Nodes::Add(n))
            }
        }
    }
}

/// Saving any well-formed node yields a configuration that `restore`
/// accepts; together with `restore`'s contract — the rebuilt node saves to
/// exactly the configuration it was built from — a save, restore, save
/// sequence reproduces the first saved configuration identically.
pub proof fn lemma_save_restore_round_trip(n: Nodes)
    requires
        n.wf(),
    ensures
        cfg_valid(n.save_view()),
        cfg_id(n.save_view()) == n.id_spec().0,
{
    match n {
        Nodes::Input(v) => {
            lemma_registry_map_ok(v.outputs, seq!["out"@]);
        }
        Nodes::Output(v) => {
            lemma_registry_map_ok(v.inputs, seq!["in"@]);
        }
        Nodes::Gain(v) => {
            lemma_registry_map_ok(v.inputs, seq!["in"@]);
            lemma_registry_map_ok(v.outputs, seq!["out"@]);
        }
        Nodes::Mix(v) => {
            lemma_registry_map_ok(v.inputs, seq!["a"@, "b"@]);
            lemma_registry_map_ok(v.outputs, seq!["out"@]);
        }
        Nodes::Mux(v) => {
            lemma_registry_map_ok(v.inputs, seq!["a"@, "b"@]);
            lemma_registry_map_ok(v.outputs, seq!["out"@]);
        }
        Nodes::Demux(v) => {
            lemma_registry_map_ok(v.inputs, seq!["in"@]);
            lemma_registry_map_ok(v.outputs, seq!["a"@, "b"@]);
        }
        Nodes::Add(v) => {
            lemma_registry_map_ok(v.inputs, seq!["a"@, "b"@]);
            lemma_registry_map_ok(v.outputs, seq!["out"@]);
        }
    }
}

} // verus!