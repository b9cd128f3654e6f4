//! The device bridge's decision logic: the command protocol, the registry
//! of open devices, configuration selection, downmixing, and the hardware
//! callback steps with latency catch-up.
//!
//! The native driver calls themselves are performed by the surrounding
//! application; everything here works on plain values.

use crate::ids::{DeviceId, IdGen};
use crate::node::{add_sample, zero_block};
use crate::ring::RingBuffer;
use vstd::prelude::*;

verus! {

/// One supported stream configuration of a device, as reported by the
/// driver: a channel count and a sample-rate range.
#[derive(Clone, Copy, PartialEq, Eq, Structural, Debug)]
pub struct StreamConfigRange {
    pub channels: u16,
    pub min_rate: u32,
    pub max_rate: u32,
}

/// Whether a configuration's rate range covers the canonical rate.
pub open spec fn covers_canonical(c: StreamConfigRange) -> bool {
    c.min_rate <= crate::CANONICAL_RATE && crate::CANONICAL_RATE <= c.max_rate
}

/// How far a configuration's top rate is from the canonical rate.
pub open spec fn rate_distance(c: StreamConfigRange) -> int {
    if c.max_rate >= crate::CANONICAL_RATE {
        c.max_rate - crate::CANONICAL_RATE
    } else {
        crate::CANONICAL_RATE - c.max_rate
    }
}

/// Choose an input configuration: among those whose rate range covers the
/// canonical rate, the first one with the fewest channels. With no covering
/// configuration the device cannot be opened.
pub fn select_input_config(cfgs: &Vec<StreamConfigRange>) -> (r: Option<usize>)
    ensures
        match r {
            Some(i) => i < cfgs@.len() && covers_canonical(cfgs@[i as int]) && forall|j: int|
                0 <= j < cfgs@.len() && covers_canonical(#[trigger] cfgs@[j])
                    ==> (cfgs@[i as int].channels < cfgs@[j].channels || (cfgs@[i as int].channels
                    == cfgs@[j].channels && i <= j)),
            None => forall|j: int| 0 <= j < cfgs@.len() ==> !covers_canonical(#[trigger] cfgs@[j]),
        },
{
    let mut best: Option<usize> = None;
    let mut i: usize = 0;
    while i < cfgs.len()
        invariant
            i <= cfgs@.len(),
            match best {
                Some(b) => b < i && covers_canonical(cfgs@[b as int]) && forall|j: int|
                    0 <= j < i && covers_canonical(#[trigger] cfgs@[j]) ==> (cfgs@[b as int].channels
                        < cfgs@[j].channels || (cfgs@[b as int].channels == cfgs@[j].channels && b
                        <= j)),
                None => forall|j: int| 0 <= j < i ==> !covers_canonical(#[trigger] cfgs@[j]),
            },
        decreases cfgs@.len() - i,
    {
        let c = &cfgs[i];
        if c.min_rate <= crate::CANONICAL_RATE && crate::CANONICAL_RATE <= c.max_rate {
            match best {
                Some(b) => {
                    if c.channels < cfgs[b].channels {
                        best = Some(i);
                    }
                }
                None => {
                    best = Some(i);
                }
            }
        }
        i = i + 1;
    }
    best
}

/// Choose an output configuration: the first one minimising the channel
/// count and then the distance of its top rate from the canonical rate; a
/// resampler bridges whatever gap remains. Only an empty list fails.
pub fn select_output_config(cfgs: &Vec<StreamConfigRange>) -> (r: Option<usize>)
    ensures
        match r {
            Some(i) => i < cfgs@.len() && forall|j: int|
                0 <= j < cfgs@.len() ==> (cfgs@[i as int].channels < (#[trigger] cfgs@[j]).channels
                    || (cfgs@[i as int].channels == cfgs@[j].channels && (rate_distance(
                    cfgs@[i as int],
                ) < rate_distance(cfgs@[j]) || (rate_distance(cfgs@[i as int]) == rate_distance(
                    cfgs@[j],
                ) && i <= j)))),
            None => cfgs@.len() == 0,
        },
{
    if cfgs.len() == 0 {
        return None;
    }
    let mut best: usize = 0;
    let mut i: usize = 1;
    while i < cfgs.len()
        invariant
            cfgs@.len() > 0,
            best < i <= cfgs@.len(),
            forall|j: int|
                0 <= j < i ==> (cfgs@[best as int].channels < (#[trigger] cfgs@[j]).channels || (
                cfgs@[best as int].channels == cfgs@[j].channels && (rate_distance(
                    cfgs@[best as int],
                ) < rate_distance(cfgs@[j]) || (rate_distance(cfgs@[best as int]) == rate_distance(
                    cfgs@[j],
                ) && best <= j)))),
        decreases cfgs@.len() - i,
    {
        let c = &cfgs[i];
        let b = &cfgs[best];
        let cd = if c.max_rate >= crate::CANONICAL_RATE {
            c.max_rate - crate::CANONICAL_RATE
        } else {
            crate::CANONICAL_RATE - c.max_rate
        };
        let bd = if b.max_rate >= crate::CANONICAL_RATE {
            b.max_rate - crate::CANONICAL_RATE
        } else {
            crate::CANONICAL_RATE - b.max_rate
        };
        if c.channels < b.channels || (c.channels == b.channels && cd < bd) {
            best = i;
        }
        i = i + 1;
    }
    Some(best)
}

/// Downmix interleaved stereo samples to mono by summation (not averaging,
/// to preserve level), saturating.
pub fn downmix_stereo(data: &Vec<i32>) -> (out: Vec<i32>)
    ensures
        out@.len() == data@.len() / 2,
        forall|i: int|
            0 <= i < out@.len() ==> #[trigger] out@[i] as int == add_sample(
                data@[2 * i] as int,
                data@[2 * i + 1] as int,
            ),
{
    let mut out: Vec<i32> = Vec::new();
    let mut i: usize = 0;
    while i + 1 < data.len()
        invariant
            out@.len() * 2 == i,
            i <= data@.len(),
            forall|j: int|
                0 <= j < out@.len() ==> #[trigger] out@[j] as int == add_sample(
                    data@[2 * j] as int,
                    data@[2 * j + 1] as int,
                ),
        decreases data@.len() - i,
    {
        out.push(crate::node::apply_add(data[i], data[i + 1]));
        i = i + 2;
    }
    proof {
        let n = data@.len() as int;
        assert(out@.len() == n / 2) by (nonlinear_arith)
            requires
                out@.len() * 2 == i as int,
                i as int <= n,
                i as int + 2 > n,
                0 <= n,
        ;
    }
    out
}

/// Duplicate a mono block to interleaved stereo: the same sample on both
/// channels of each frame.
pub fn duplicate_to_stereo(data: &Vec<i32>) -> (out: Vec<i32>)
    requires
        data@.len() * 2 <= usize::MAX,
    ensures
        out@.len() == 2 * data@.len(),
        forall|i: int|
            0 <= i < data@.len() ==> out@[2 * i] == data@[i] && out@[2 * i + 1] == #[trigger] data@[i],
{
    let mut out: Vec<i32> = Vec::new();
    let mut i: usize = 0;
    while i < data.len()
        invariant
            data@.len() * 2 <= usize::MAX,
            i <= data@.len(),
            out@.len() == 2 * i,
            forall|j: int|
                0 <= j < i ==> out@[2 * j] == data@[j] && out@[2 * j + 1] == #[trigger] data@[j],
        decreases data@.len() - i,
    {
        out.push(data[i]);
        out.push(data[i]);
        i = i + 1;
    }
    out
}

/// How many canonical-rate samples one device callback of `frames` frames
/// consumes at the device's rate.
pub fn needed_input_len(frames: usize, device_rate: u32) -> (r: usize)
    requires
        device_rate > 0,
        frames * (crate::CANONICAL_RATE as int) <= u64::MAX,
        frames * (crate::CANONICAL_RATE as int) / (device_rate as int) <= usize::MAX,
    ensures
        r == frames * (crate::CANONICAL_RATE as int) / (device_rate as int),
{
    ((frames as u64 * crate::CANONICAL_RATE as u64) / (device_rate as u64)) as usize
}

/// One input hardware callback: push the converted block into the device's
/// ring buffer if there is room, else drop it whole — the input falls
/// behind but the callback never blocks.
pub fn input_callback_step(buf: &mut RingBuffer, data: &Vec<i32>) -> (accepted: bool)
    requires
        old(buf).wf(),
        data@.len() <= old(buf).capacity(),
    ensures
        final(buf).wf(),
        final(buf).capacity() == old(buf).capacity(),
        final(buf).num_consumers() == old(buf).num_consumers(),
        forall|c: int|
            0 <= c < old(buf).num_consumers() ==> final(buf).is_live(c) == old(buf).is_live(c),
        accepted <==> data@.len() <= old(buf).free_space(),
        accepted ==> final(buf).history() == old(buf).history() + data@,
        !accepted ==> *final(buf) == *old(buf),
    {
    let ok = match buf.try_request_write(data.len()) {
        Ok(b) => b,
        Err(_) => {
            proof {
                assert(false);
            }
            false
        }
    };
    if ok {
        buf.commit(data);
        true
    } else {
        false
    }
}

/// One output hardware callback with latency catch-up, on the device
/// buffer's consumer `0`.
///
/// With too little buffered, silence is emitted and nothing is consumed.
/// While the catch-up counter is nonzero and the backlog has reached twice
/// the needed length, the callback plays the newest `needed` samples,
/// releases the whole backlog in one step and decrements the counter by
/// one; with a zero counter the backlog is left untouched apart from the
/// normal consumption of `needed` samples.
pub fn output_callback_step(buf: &mut RingBuffer, needed: usize, counter: &mut u8) -> (out: Vec<
    i32,
>)
    requires
        old(buf).wf(),
        old(buf).num_consumers() >= 1,
        old(buf).is_live(0),
        needed <= old(buf).capacity(),
    ensures
        final(buf).wf(),
        final(buf).capacity() == old(buf).capacity(),
        final(buf).history() == old(buf).history(),
        final(buf).num_consumers() == old(buf).num_consumers(),
        out@.len() == needed,
        ({
            let avail = old(buf).avail_of(0);
            let tail = old(buf).tail_of(0);
            if avail < needed {
                out@ == zero_block(needed as int) && *final(buf) == *old(buf) && *final(counter)
                    == *old(counter)
            } else if *old(counter) > 0 && avail >= 2 * needed {
                out@ == old(buf).history().subrange(tail + avail - needed, tail + avail)
                    && final(buf).avail_of(0) == 0 && *final(counter) == *old(counter) - 1
            } else {
                out@ == old(buf).history().subrange(tail, tail + needed) && final(buf).avail_of(0)
                    == avail - needed && *final(counter) == *old(counter)
            }
        }),
        forall|c: int|
            1 <= c < old(buf).num_consumers() ==> final(buf).avail_of(c) == old(buf).avail_of(c)
                && final(buf).is_live(c) == old(buf).is_live(c),
        final(buf).is_live(0) == old(buf).is_live(0),
{
    let avail = buf.readable(0);
    if avail < needed {
        return crate::nodes::silence_block(needed);
    }
    let do_skip = *counter > 0 && avail / 2 >= needed;
    proof {
        assert((avail / 2 >= needed) == (avail >= 2 * needed)) by (nonlinear_arith)
            requires
                avail >= 0 && needed >= 0,
        ;
        old(buf).lemma_wf_bounds();
    }
    if do_skip {
        let window = buf.peek(0, avail);
        let mut out: Vec<i32> = Vec::new();
        let offs = avail - needed;
        let mut i: usize = 0;
        while i < needed
            invariant
                offs + needed <= window@.len(),
                window@.len() <= usize::MAX,
                i <= needed,
                out@ == window@.subrange(offs as int, offs as int + i),
            decreases needed - i,
        {
            out.push(window[offs + i]);
            i = i + 1;
            proof {
                assert(out@ =~= window@.subrange(offs as int, offs as int + i));
            }
        }
        buf.release(0, avail);
        *counter = *counter - 1;
        proof {
            assert(out@ =~= old(buf).history().subrange(
                old(buf).tail_of(0) + old(buf).avail_of(0) - needed,
                old(buf).tail_of(0) + old(buf).avail_of(0),
            ));
        }
        out
    } else {
        let out = buf.peek(0, needed);
        buf.release(0, needed);
        out
    }
}

/// Raise a latency catch-up counter by five, saturating: the next few
/// output callbacks will try to collapse their backlog.
pub fn bump_resync(counter: u8) -> (r: u8)
    ensures
        r == if counter + 5 > 255 {
            255int
        } else {
            counter + 5
        },
{
    if counter > 250 {
        255
    } else {
        counter + 5
    }
}

/// A command for the device worker: every native device call is serialised
/// through these.
pub enum DeviceCommand {
    ListHosts,
    ListInputs(String),
    ListOutputs(String),
    OpenInput(String, String),
    OpenOutput(String, String),
    CloseDevice(DeviceId),
    TriggerResync,
}

/// The worker's answer to one command.
pub enum DeviceResponse {
    Hosts(Vec<String>),
    Devices(Vec<String>),
    InputOpened(Option<DeviceId>),
    OutputOpened(Option<DeviceId>),
    DeviceClosed,
    Resynced,
}

impl DeviceResponse {
    /// The host list, if this response carries one.
    pub fn hosts(self) -> (r: Option<Vec<String>>)
        ensures
            match r {
                Some(v) => self == DeviceResponse::Hosts(v),
                None => !(self is Hosts),
            },
    {
        match self {
            DeviceResponse::Hosts(x) => Some(x),
            _ => None,
        }
    }

    /// The device list, if this response carries one.
    pub fn devices(self) -> (r: Option<Vec<String>>)
        ensures
            match r {
                Some(v) => self == DeviceResponse::Devices(v),
                None => !(self is Devices),
            },
    {
        match self {
            DeviceResponse::Devices(x) => Some(x),
            _ => None,
        }
    }

    /// The opened input device, if this response is one.
    pub fn input_opened(self) -> (r: Option<Option<DeviceId>>)
        ensures
            match r {
                Some(v) => self == DeviceResponse::InputOpened(v),
                None => !(self is InputOpened),
            },
    {
        match self {
            DeviceResponse::InputOpened(x) => Some(x),
            _ => None,
        }
    }

    /// The opened output device, if this response is one.
    pub fn output_opened(self) -> (r: Option<Option<DeviceId>>)
        ensures
            match r {
                Some(v) => self == DeviceResponse::OutputOpened(v),
                None => !(self is OutputOpened),
            },
    {
        match self {
            DeviceResponse::OutputOpened(x) => Some(x),
            _ => None,
        }
    }

    /// Whether this response confirms a close.
    pub fn device_closed(self) -> (r: Option<()>)
        ensures
            r.is_some() <==> self is DeviceClosed,
    {
        match self {
            DeviceResponse::DeviceClosed => Some(()),
            _ => None,
        }
    }
}

/// The bookkeeping of open devices: fresh identities, and which are open.
pub struct DeviceRegistry {
    gen: IdGen,
    open: Vec<DeviceId>,
}

impl DeviceRegistry {
    pub closed spec fn open_seq(self) -> Seq<DeviceId> {
        self.open@
    }

    pub open spec fn is_open(self, id: DeviceId) -> bool {
        self.open_seq().contains(id)
    }

    pub closed spec fn gen_spec(self) -> IdGen {
        self.gen
    }

    pub closed spec fn wf(self) -> bool {
        &&& self.gen.wf()
        &&& forall|i: int|
            0 <= i < self.open@.len() ==> self.gen.produced().contains(
                (#[trigger] self.open@[i]).0,
            )
        &&& forall|i: int, j: int| 0 <= i < j < self.open@.len() ==> self.open@[i] != self.open@[j]
    }

    pub fn new() -> (r: DeviceRegistry)
        ensures
            r.wf(),
            r.open_seq().len() == 0,
    {
        DeviceRegistry { gen: IdGen::new(), open: Vec::new() }
    }

    /// Record a newly opened device under a fresh identity.
    pub fn open_device(&mut self) -> (id: DeviceId)
        requires
            old(self).wf(),
            old(self).gen_spec().can_generate(),
        ensures
            final(self).wf(),
            !old(self).is_open(id),
            final(self).is_open(id),
            final(self).open_seq() == old(self).open_seq().push(id),
    {
        let id = DeviceId::generate(&mut self.gen);
        proof {
            if old(self).is_open(id) {
                let i = choose|i: int|
                    0 <= i < old(self).open@.len() && old(self).open@[i] == id;
                assert(old(self).gen.produced().contains(id.0));
                assert(false);
            }
        }
        self.open.push(id);
        proof {
            let n = self.open@.len() - 1;
            assert(self.open@[n] == id);
            assert forall|i: int, j: int|
                0 <= i < j < self.open@.len() implies self.open@[i] != self.open@[j] by {
                if j == n {
                    assert(old(self).gen.produced().contains(self.open@[i].0));
                }
            }
            assert(self.is_open(id));
        }
        id
    }

    /// Forget a device; reports whether it was open.
    pub fn close_device(&mut self, id: DeviceId) -> (was_open: bool)
        requires
            old(self).wf(),
        ensures
            final(self).wf(),
            was_open == old(self).is_open(id),
            !final(self).is_open(id),
            forall|d: DeviceId|
                d != id ==> (#[trigger] final(self).is_open(d) <==> old(self).is_open(d)),
    {
        let mut i: usize = 0;
        while i < self.open.len()
            invariant
                self.wf(),
                self.open@ == old(self).open@,
                i <= self.open@.len(),
                forall|j: int| 0 <= j < i ==> self.open@[j] != id,
            decreases self.open@.len() - i,
        {
            if self.open[i].get() == id.get() {
                let ghost before = self.open@;
                self.open.remove(i);
                proof {
                    assert(before[i as int] == id);
                    assert forall|d: DeviceId|
                        d != id implies (#[trigger] self.is_open(d) <==> old(self).is_open(
                        d,
                    )) by {
                        if self.open@.contains(d) {
                            let k = choose|k: int|
                                0 <= k < self.open@.len() && self.open@[k] == d;
                            if k < i {
                                assert(before[k] == d);
                            } else {
                                assert(before[k + 1] == d);
                            }
                            assert(before.contains(d));
                        }
                        if before.contains(d) {
                            let k = choose|k: int| 0 <= k < before.len() && before[k] == d;
                            if k < i {
                                assert(self.open@[k] == d);
                            } else if k > i {
                                assert(self.open@[k - 1] == d);
                            } else {
                                assert(false);
                            }
                            assert(self.open@.contains(d));
                        }
                    }
                    assert(!self.is_open(id)) by {
                        if self.open@.contains(id) {
                            let k = choose|k: int|
                                0 <= k < self.open@.len() && self.open@[k] == id;
                            if k < i {
                                assert(before[k] == id);
                                assert(false);
                            } else {
                                assert(before[k + 1] == id);
                                assert(false);
                            }
                        }
                    }
                    assert forall|x: int, y: int|
                        0 <= x < y < self.open@.len() implies self.open@[x] != self.open@[y] by {
                        let bx = if x < i {
                            x
                        } else {
                            x + 1
                        };
                        let by = if y < i {
                            y
                        } else {
                            y + 1
                        };
                        assert(self.open@[x] == before[bx] && self.open@[y] == before[by]);
                    }
                }
                return true;
            }
            i = i + 1;
        }
        proof {
            if old(self).is_open(id) {
                let k = choose|k: int|
                    0 <= k < self.open@.len() && self.open@[k] == id;
                assert(false);
            }
        }
        false
    }
}

} // verus!
