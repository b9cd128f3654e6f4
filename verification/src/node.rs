//! Sample arithmetic shared by the node transforms, the fan-in merge that
//! averages every buffer feeding one input port, and the execution-loop
//! step that drives a simple node's block transform against its buffer
//! rows: wait for room on every fan-out buffer, merge the fan-in, run the
//! transform, duplicate each output block to its whole fan-out, release.
//!
//! Samples are 32-bit signed integers; controls are fixed-point integers in
//! thousandths (1000 is unity). Where a transform could leave the sample
//! range it saturates.

use crate::nodes::Nodes;
use crate::ring::RingBuffer;
use vstd::arithmetic::div_mod::{lemma_div_is_ordered, lemma_div_multiples_vanish};
use vstd::prelude::*;

verus! {

/// Fixed-point denominator for node controls: 1000 is unity.
pub const CONTROL_ONE: i64 = 1000;

/// Saturate an arbitrary integer into the sample range.
pub open spec fn clamp_sample(x: int) -> int {
    if x < i32::MIN as int {
        i32::MIN as int
    } else if x > i32::MAX as int {
        i32::MAX as int
    } else {
        x
    }
}

/// The average of the samples at position `i` of the contributing blocks:
/// their sum divided by the number of blocks, zero when none contribute.
pub open spec fn average_at(blocks: Seq<Seq<i32>>, i: int) -> int {
    if blocks.len() == 0 {
        0
    } else {
        sum_at(blocks, i, blocks.len() as int) / (blocks.len() as int)
    }
}

/// The sum of the samples at position `i` of the first `n` blocks.
pub open spec fn sum_at(blocks: Seq<Seq<i32>>, i: int, n: int) -> int
    decreases n,
{
    if n <= 0 {
        0
    } else {
        sum_at(blocks, i, n - 1) + blocks[n - 1][i]
    }
}

/// A partial sum of samples stays within `n` times the sample range.
proof fn lemma_sum_at_bounds(blocks: Seq<Seq<i32>>, i: int, n: int)
    requires
        0 <= n,
    ensures
        n * (i32::MIN as int) <= sum_at(blocks, i, n) <= n * (i32::MAX as int),
    decreases n,
{
    if n > 0 {
        lemma_sum_at_bounds(blocks, i, n - 1);
        assert((n - 1) * (i32::MIN as int) + (i32::MIN as int) == n * (i32::MIN as int))
            by (nonlinear_arith);
        assert((n - 1) * (i32::MAX as int) + (i32::MAX as int) == n * (i32::MAX as int))
            by (nonlinear_arith);
    }
}

/// The average of samples stays within the sample range.
proof fn lemma_average_in_range(blocks: Seq<Seq<i32>>, i: int)
    ensures
        i32::MIN as int <= average_at(blocks, i) <= i32::MAX as int,
{
    let n = blocks.len() as int;
    if n > 0 {
        lemma_sum_at_bounds(blocks, i, n);
        let s = sum_at(blocks, i, n);
        lemma_div_is_ordered(n * (i32::MIN as int), s, n);
        lemma_div_is_ordered(s, n * (i32::MAX as int), n);
        assert(n * (i32::MIN as int) == (i32::MIN as int) * n) by (nonlinear_arith);
        assert(n * (i32::MAX as int) == (i32::MAX as int) * n) by (nonlinear_arith);
        lemma_div_multiples_vanish(i32::MIN as int, n);
        lemma_div_multiples_vanish(i32::MAX as int, n);
    }
}

/// Adjust a sample by a fixed-point gain factor, saturating.
pub open spec fn gain_sample(x: int, level_milli: int) -> int {
    clamp_sample((x * level_milli) / (CONTROL_ONE as int))
}

/// Blend two samples: `ratio_milli` of `b` against the rest of `a`,
/// saturating.
pub open spec fn mix_sample(a: int, b: int, ratio_milli: int) -> int {
    clamp_sample((b * ratio_milli + a * (CONTROL_ONE as int - ratio_milli)) / (CONTROL_ONE as int))
}

/// Sum two samples, saturating.
pub open spec fn add_sample(a: int, b: int) -> int {
    clamp_sample(a + b)
}

/// A block of silence.
pub open spec fn zero_block(len: int) -> Seq<i32> {
    Seq::new(len as nat, |j: int| 0i32)
}

/// Saturate a 64-bit intermediate value into the sample range.
fn clamp_i64(q: i64) -> (r: i32)
    ensures
        r as int == clamp_sample(q as int),
{
    if q < i32::MIN as i64 {
        i32::MIN
    } else if q > i32::MAX as i64 {
        i32::MAX
    } else {
        q as i32
    }
}

/// A fixed-point quotient by the control denominator stays within loose
/// 64-bit bounds when the numerator is a bounded product.
proof fn lemma_control_quotient_bounds(p: int)
    requires
        -(0x80000000000000i64 as int) <= p <= 0x80000000000000i64 as int,
    ensures
        i64::MIN as int <= p / (CONTROL_ONE as int) <= i64::MAX as int,
{
    let d = CONTROL_ONE as int;
    let lo = -(0x80000000000000i64 as int);
    let hi = 0x80000000000000i64 as int;
    lemma_div_is_ordered(lo, p, d);
    lemma_div_is_ordered(p, hi, d);
    assert(lo <= lo / d) by {
        assert(d * lo <= lo) by (nonlinear_arith)
            requires
                d == 1000 && lo < 0,
        ;
        lemma_div_is_ordered(d * lo, lo, d);
        lemma_div_multiples_vanish(lo, d);
    }
    assert(hi / d <= hi) by {
        assert(hi <= d * hi) by (nonlinear_arith)
            requires
                d == 1000 && hi > 0,
        ;
        lemma_div_is_ordered(hi, d * hi, d);
        lemma_div_multiples_vanish(hi, d);
    }
}

/// Apply a gain control to one sample.
pub fn apply_gain(x: i32, level_milli: u32) -> (r: i32)
    requires
        level_milli <= 10000,
    ensures
        r as int == gain_sample(x as int, level_milli as int),
{
    proof {
        assert(-(0x80000000000000i64 as int) <= (x as int) * (level_milli as int)
            <= 0x80000000000000i64 as int) by (nonlinear_arith)
            requires
                -(0x80000000i64 as int) <= x as int <= 0x7fffffffi64 as int,
                0 <= level_milli as int <= 10000,
        ;
    }
    let p: i64 = (x as i64) * (level_milli as i64);
    proof {
        lemma_control_quotient_bounds(p as int);
    }
    let q = p.checked_div_euclid(CONTROL_ONE).unwrap();
    clamp_i64(q)
}

/// Blend two samples by a ratio control.
pub fn apply_mix(a: i32, b: i32, ratio_milli: u32) -> (r: i32)
    requires
        ratio_milli <= 1000,
    ensures
        r as int == mix_sample(a as int, b as int, ratio_milli as int),
{
    proof {
        assert((-(0x80000000000000i64 as int) <= (b as int) * (ratio_milli as int) + (a as int) * (
        1000 - ratio_milli as int) <= 0x80000000000000i64 as int) && (-(0x80000000000000i64 as int)
            <= (b as int) * (ratio_milli as int) <= 0x80000000000000i64 as int) && (-(
        0x80000000000000i64 as int) <= (a as int) * (1000 - ratio_milli as int)
            <= 0x80000000000000i64 as int)) by (nonlinear_arith)
            requires
                -(0x80000000i64 as int) <= a as int <= 0x7fffffffi64 as int,
                -(0x80000000i64 as int) <= b as int <= 0x7fffffffi64 as int,
                0 <= ratio_milli as int <= 1000,
        ;
    }
    let p: i64 = (b as i64) * (ratio_milli as i64) + (a as i64) * (CONTROL_ONE
        - ratio_milli as i64);
    proof {
        lemma_control_quotient_bounds(p as int);
    }
    let q = p.checked_div_euclid(CONTROL_ONE).unwrap();
    clamp_i64(q)
}

/// Sum two samples, saturating.
pub fn apply_add(a: i32, b: i32) -> (r: i32)
    ensures
        r as int == add_sample(a as int, b as int),
{
    clamp_i64(a as i64 + b as i64)
}

/// Merge the links fanning into one input port: average the contributing
/// blocks sample by sample. Returns the merged block and whether any link
/// contributed at all; with no contributor the block is silence.
///
/// The division is Euclidean, so with inputs [1,1,1] and [3,3,3] the merged
/// block is exactly [2,2,2].
pub fn collect_and_average(blocks: &Vec<Vec<i32>>, len: usize) -> (r: (Vec<i32>, bool))
    requires
        forall|k: int| 0 <= k < blocks@.len() ==> #[trigger] blocks@[k]@.len() == len,
    ensures
        r.0@.len() == len,
        r.1 <==> blocks@.len() > 0,
        forall|i: int|
            0 <= i < len ==> #[trigger] r.0@[i] as int == average_at(
                blocks@.map_values(|b: Vec<i32>| b@),
                i,
            ),
{
    let ghost view = blocks@.map_values(|b: Vec<i32>| b@);
    let mut out: Vec<i32> = Vec::new();
    let count = blocks.len();
    let mut i: usize = 0;
    while i < len
        invariant
            forall|k: int| 0 <= k < blocks@.len() ==> #[trigger] blocks@[k]@.len() == len,
            view == blocks@.map_values(|b: Vec<i32>| b@),
            count == blocks@.len(),
            i <= len,
            out@.len() == i,
            forall|j: int| 0 <= j < i ==> #[trigger] out@[j] as int == average_at(view, j),
        decreases len - i,
    {
        if count == 0 {
            out.push(0);
        } else {
            let mut sum: i128 = 0;
            let mut k: usize = 0;
            while k < count
                invariant
                    forall|k2: int|
                        0 <= k2 < blocks@.len() ==> #[trigger] blocks@[k2]@.len() == len,
                    view == blocks@.map_values(|b: Vec<i32>| b@),
                    count == blocks@.len(),
                    i < len,
                    k <= count,
                    sum as int == sum_at(view, i as int, k as int),
                    (k as int) * (i32::MIN as int) <= sum as int <= (k as int) * (
                    i32::MAX as int),
                decreases count - k,
            {
                proof {
                    assert((k as int) * (i32::MIN as int) + (i32::MIN as int) == (k as int + 1) * (
                    i32::MIN as int)) by (nonlinear_arith);
                    assert((k as int) * (i32::MAX as int) + (i32::MAX as int) == (k as int + 1) * (
                    i32::MAX as int)) by (nonlinear_arith);
                    assert((k as int + 1) * (i32::MIN as int) >= (count as int) * (
                    i32::MIN as int)) by (nonlinear_arith)
                        requires
                            0 <= k as int + 1 <= count as int,
                    ;
                    assert((k as int + 1) * (i32::MAX as int) <= (count as int) * (
                    i32::MAX as int)) by (nonlinear_arith)
                        requires
                            0 <= k as int + 1 <= count as int,
                    ;
                    assert((count as int) * (i32::MIN as int) >= i128::MIN as int)
                        by (nonlinear_arith)
                        requires
                            0 <= count as int <= 0x1_0000_0000_0000_0000,
                    ;
                    assert((count as int) * (i32::MAX as int) <= i128::MAX as int)
                        by (nonlinear_arith)
                        requires
                            0 <= count as int <= 0x1_0000_0000_0000_0000,
                    ;
                }
                sum = sum + blocks[k][i] as i128;
                k = k + 1;
            }
            proof {
                lemma_average_in_range(view, i as int);
                let n = count as int;
                let s = sum as int;
                lemma_sum_at_bounds(view, i as int, n);
                lemma_div_is_ordered(n * (i32::MIN as int), s, n);
                lemma_div_is_ordered(s, n * (i32::MAX as int), n);
                assert(n * (i32::MIN as int) == (i32::MIN as int) * n) by (nonlinear_arith);
                assert(n * (i32::MAX as int) == (i32::MAX as int) * n) by (nonlinear_arith);
                lemma_div_multiples_vanish(i32::MIN as int, n);
                lemma_div_multiples_vanish(i32::MAX as int, n);
            }
            let q = sum.checked_div_euclid(count as i128).unwrap();
            out.push(q as i32);
        }
        i = i + 1;
    }
    (out, count > 0)
}

/// Every buffer in a handle row is well-formed with this node's end
/// attached as consumer 0.
pub open spec fn bufs_wf(bufs: Seq<RingBuffer>) -> bool {
    forall|q: int|
        0 <= q < bufs.len() ==> (#[trigger] bufs[q]).wf() && bufs[q].num_consumers() >= 1
            && bufs[q].is_live(0)
}

/// The blocks the contributing buffers of one input port offer: the first
/// `len` readable samples of every buffer that has at least `len` readable,
/// in row order.
pub open spec fn contributing(bufs: Seq<RingBuffer>, len: int) -> Seq<Seq<i32>>
    decreases bufs.len(),
{
    if bufs.len() == 0 {
        Seq::empty()
    } else {
        contributing(bufs.drop_last(), len) + if bufs.last().avail_of(0) >= len {
            seq![
                bufs.last().history().subrange(
                    bufs.last().tail_of(0),
                    bufs.last().tail_of(0) + len,
                ),
            ]
        } else {
            Seq::empty()
        }
    }
}

/// The merged block of one input port: the samplewise average of its
/// contributing buffers' blocks.
pub open spec fn merged_of(bufs: Seq<RingBuffer>, len: int) -> Seq<i32> {
    Seq::new(len as nat, |j: int| average_at(contributing(bufs, len), j) as i32)
}

/// Step 2 of the execution loop, for one input port: read the merged block
/// of the contributing buffers, without releasing anything yet, and note
/// how much each buffer will be released later — `min(len, available)`.
pub fn fan_in_collect(bufs: &Vec<RingBuffer>, len: usize) -> (r: (Vec<i32>, bool, Vec<usize>))
    requires
        bufs_wf(bufs@),
    ensures
        r.0@ == merged_of(bufs@, len as int),
        r.1 <==> contributing(bufs@, len as int).len() > 0,
        r.2@.len() == bufs@.len(),
        forall|q: int|
            0 <= q < bufs@.len() ==> #[trigger] r.2@[q] == if len <= bufs@[q].avail_of(0) {
                len as int
            } else {
                bufs@[q].avail_of(0)
            },
{
    let mut blocks: Vec<Vec<i32>> = Vec::new();
    let mut consumed: Vec<usize> = Vec::new();
    let mut q: usize = 0;
    while q < bufs.len()
        invariant
            bufs_wf(bufs@),
            q <= bufs@.len(),
            blocks@.map_values(|b: Vec<i32>| b@) == contributing(
                bufs@.subrange(0, q as int),
                len as int,
            ),
            forall|b: int| 0 <= b < blocks@.len() ==> (#[trigger] blocks@[b])@.len() == len,
            consumed@.len() == q,
            forall|q2: int|
                0 <= q2 < q ==> #[trigger] consumed@[q2] == if len <= bufs@[q2].avail_of(0) {
                    len as int
                } else {
                    bufs@[q2].avail_of(0)
                },
        decreases bufs@.len() - q,
    {
        proof {
            assert(bufs@.subrange(0, q as int + 1).drop_last() =~= bufs@.subrange(0, q as int));
            assert(bufs@.subrange(0, q as int + 1).last() == bufs@[q as int]);
        }
        let b = &bufs[q];
        let avail = b.readable(0);
        if avail >= len {
            proof {
                b.lemma_reads_within_history(0);
            }
            let w = b.peek(0, len);
            proof {
                assert(w@.len() == len);
            }
            blocks.push(w);
            consumed.push(len);
        } else {
            consumed.push(avail);
        }
        proof {
            assert(blocks@.map_values(|b2: Vec<i32>| b2@) =~= contributing(
                bufs@.subrange(0, q as int + 1),
                len as int,
            ));
        }
        q = q + 1;
    }
    proof {
        assert(bufs@.subrange(0, bufs@.len() as int) =~= bufs@);
    }
    let (merged, present) = collect_and_average(&blocks, len);
    proof {
        assert(merged@ =~= merged_of(bufs@, len as int));
    }
    (merged, present, consumed)
}

/// Step 4 of the execution loop, for one output port: copy the very same
/// block into every fan-out buffer — duplication, not splitting.
pub fn fan_out_commit(bufs: &mut Vec<RingBuffer>, block: &Vec<i32>)
    requires
        bufs_wf(old(bufs)@),
        forall|q: int|
            0 <= q < old(bufs)@.len() ==> block@.len() <= (#[trigger] old(bufs)@[q]).free_space(),
    ensures
        final(bufs)@.len() == old(bufs)@.len(),
        bufs_wf(final(bufs)@),
        forall|q: int|
            0 <= q < old(bufs)@.len() ==> (#[trigger] final(bufs)@[q]).history() == old(bufs)@[q].history() + block@,
        forall|q: int|
            0 <= q < old(bufs)@.len() ==> (#[trigger] final(bufs)@[q]).capacity() == old(bufs)@[q].capacity() && final(bufs)@[q].num_consumers() == old(bufs)@[q].num_consumers(),
        forall|q: int, c: int|
            0 <= q < old(bufs)@.len() && 0 <= c < old(bufs)@[q].num_consumers() ==> (
            #[trigger] final(bufs)@[q].is_live(c)) == old(bufs)@[q].is_live(c) && (old(bufs)@[q].is_live(c) ==> final(bufs)@[q].tail_of(c) == old(bufs)@[q].tail_of(c)),
{
    let mut q: usize = 0;
    while q < bufs.len()
        invariant
            bufs@.len() == old(bufs)@.len(),
            q <= bufs@.len(),
            forall|q2: int|
                0 <= q2 < bufs@.len() ==> block@.len() <= (#[trigger] old(bufs)@[q2]).free_space(),
            bufs_wf(old(bufs)@),
            forall|q2: int| q <= q2 < bufs@.len() ==> #[trigger] bufs@[q2] == old(bufs)@[q2],
            forall|q2: int|
                0 <= q2 < q ==> (#[trigger] bufs@[q2]).wf() && bufs@[q2].history() == old(bufs)@[q2].history() + block@ && bufs@[q2].capacity() == old(bufs)@[q2].capacity()
                    && bufs@[q2].num_consumers() == old(bufs)@[q2].num_consumers(),
            forall|q2: int, c: int|
                0 <= q2 < q && 0 <= c < old(bufs)@[q2].num_consumers() ==> (
                #[trigger] bufs@[q2].is_live(c)) == old(bufs)@[q2].is_live(c),
            forall|q2: int, c: int|
                0 <= q2 < q && 0 <= c < old(bufs)@[q2].num_consumers() && old(bufs)@[q2].is_live(c) ==> #[trigger] bufs@[q2].tail_of(c) == old(bufs)@[q2].tail_of(
                    c,
                ),
        decreases bufs@.len() - q,
    {
        let b = &mut bufs[q];
        b.commit(block);
        q = q + 1;
    }
    proof {
        assert forall|q2: int| 0 <= q2 < final(bufs)@.len() implies (
        #[trigger] final(bufs)@[q2]).wf() && final(bufs)@[q2].num_consumers() >= 1 && final(bufs)@[q2].is_live(0) by {
            assert(old(bufs)@[q2].is_live(0));
        }
    }
}

/// Step 5 of the execution loop, for one input port: release what was
/// consumed on every buffer — the whole block on contributors, everything
/// available on the rest.
pub fn fan_in_release(bufs: &mut Vec<RingBuffer>, consumed: &Vec<usize>)
    requires
        bufs_wf(old(bufs)@),
        consumed@.len() == old(bufs)@.len(),
        forall|q: int|
            0 <= q < old(bufs)@.len() ==> #[trigger] consumed@[q] <= old(bufs)@[q].avail_of(0),
    ensures
        final(bufs)@.len() == old(bufs)@.len(),
        bufs_wf(final(bufs)@),
        forall|q: int|
            0 <= q < old(bufs)@.len() ==> (#[trigger] final(bufs)@[q]).history() == old(bufs)@[q].history() && final(bufs)@[q].capacity() == old(bufs)@[q].capacity() && final(bufs)@[q].tail_of(0) == old(bufs)@[q].tail_of(0) + consumed@[q],
{
    let mut q: usize = 0;
    while q < bufs.len()
        invariant
            bufs@.len() == old(bufs)@.len(),
            consumed@.len() == old(bufs)@.len(),
            q <= bufs@.len(),
            bufs_wf(old(bufs)@),
            forall|q2: int|
                0 <= q2 < old(bufs)@.len() ==> #[trigger] consumed@[q2] <= old(bufs)@[q2].avail_of(0),
            forall|q2: int| q <= q2 < bufs@.len() ==> #[trigger] bufs@[q2] == old(bufs)@[q2],
            forall|q2: int|
                0 <= q2 < q ==> (#[trigger] bufs@[q2]).wf() && bufs@[q2].num_consumers() == old(bufs)@[q2].num_consumers() && bufs@[q2].is_live(0) && bufs@[q2].history() == old(bufs)@[q2].history() && bufs@[q2].capacity() == old(bufs)@[q2].capacity()
                    && bufs@[q2].tail_of(0) == old(bufs)@[q2].tail_of(0) + consumed@[q2],
        decreases bufs@.len() - q,
    {
        let b = &mut bufs[q];
        b.release(0, consumed[q]);
        q = q + 1;
    }
}

/// One iteration of a simple node's execution loop, against one row of
/// fan-in buffers per input port and one row of fan-out buffers per output
/// port.
///
/// When some fan-out buffer lacks room for a block, nothing happens (the
/// running task would suspend here). Otherwise the fan-in rows are merged
/// port by port, the node's transform runs once, each output block is
/// copied identically into every fan-out buffer of its port, and finally
/// `min(block, available)` samples are released on every fan-in buffer.
#[verifier::spinoff_prover]
#[verifier::rlimit(100)]
pub fn step_block(node: &Nodes, fan_in: &mut Vec<Vec<RingBuffer>>, fan_out: &mut Vec<
    Vec<RingBuffer>,
>) -> (r: (bool, Vec<bool>))
    requires
        node.wf(),
        node.is_simple(),
        old(fan_in)@.len() == node.input_count(),
        old(fan_out)@.len() == node.output_count(),
        forall|i: int|
            0 <= i < old(fan_in)@.len() ==> bufs_wf((#[trigger] old(fan_in)@[i])@),
        forall|p: int|
            0 <= p < old(fan_out)@.len() ==> bufs_wf((#[trigger] old(fan_out)@[p])@),
    ensures
        r.0 <==> (forall|p: int, q: int|
            0 <= p < old(fan_out)@.len() && 0 <= q < old(fan_out)@[p]@.len()
                ==> crate::BLOCK_SIZE <= (#[trigger] old(fan_out)@[p]@[q]).free_space()),
        !r.0 ==> *final(fan_in) == *old(fan_in) && *final(fan_out) == *old(fan_out),
        r.0 ==> ({
            let ins = Seq::new(
                old(fan_in)@.len() as nat,
                |i: int| merged_of(old(fan_in)@[i]@, crate::BLOCK_SIZE as int),
            );
            let outs = node.transform(ins, crate::BLOCK_SIZE as int);
            &&& r.1@.len() == old(fan_in)@.len()
            &&& forall|i: int|
                0 <= i < old(fan_in)@.len() ==> (#[trigger] r.1@[i] == (contributing(
                    old(fan_in)@[i]@,
                    crate::BLOCK_SIZE as int,
                ).len() > 0))
            &&& final(fan_out)@.len() == old(fan_out)@.len()
            &&& forall|p: int|
                0 <= p < old(fan_out)@.len() ==> (#[trigger] final(fan_out)@[p])@.len() == old(
                    fan_out,
                )@[p]@.len()
            &&& forall|p: int, q: int|
                0 <= p < old(fan_out)@.len() && 0 <= q < old(fan_out)@[p]@.len() ==> (
                #[trigger] final(fan_out)@[p]@[q]).history() == old(fan_out)@[p]@[q].history()
                    + outs[p]
            &&& final(fan_in)@.len() == old(fan_in)@.len()
            &&& forall|i: int|
                0 <= i < old(fan_in)@.len() ==> (#[trigger] final(fan_in)@[i])@.len() == old(
                    fan_in,
                )@[i]@.len()
            &&& forall|i: int, q: int|
                0 <= i < old(fan_in)@.len() && 0 <= q < old(fan_in)@[i]@.len() ==> (
                #[trigger] final(fan_in)@[i]@[q]).history() == old(fan_in)@[i]@[q].history()
                    && final(fan_in)@[i]@[q].tail_of(0) == old(fan_in)@[i]@[q].tail_of(0) + (
                if crate::BLOCK_SIZE as int <= old(fan_in)@[i]@[q].avail_of(0) {
                    crate::BLOCK_SIZE as int
                } else {
                    old(fan_in)@[i]@[q].avail_of(0)
                })
        }),
{
    // step 1: every fan-out buffer must have room for a whole block
    let mut p: usize = 0;
    while p < fan_out.len()
        invariant
            *fan_out == *old(fan_out),
            *fan_in == *old(fan_in),
            forall|p2: int|
                0 <= p2 < fan_out@.len() ==> bufs_wf((#[trigger] fan_out@[p2])@),
            p <= fan_out@.len(),
            forall|p2: int, q: int|
                0 <= p2 < p && 0 <= q < fan_out@[p2]@.len() ==> crate::BLOCK_SIZE <= (
                #[trigger] fan_out@[p2]@[q]).free_space(),
        decreases fan_out@.len() - p,
    {
        let ghost whole_in = *fan_in;
        let ghost whole = *fan_out;
        let ghost pp = p as int;
        let row = &fan_out[p];
        let mut q: usize = 0;
        while q < row.len()
            invariant
                bufs_wf(row@),
                q <= row@.len(),
                row@ == whole@[pp]@,
                0 <= pp < whole@.len(),
                *fan_out == whole,
                *fan_in == whole_in,
                forall|q2: int|
                    0 <= q2 < q ==> crate::BLOCK_SIZE <= (#[trigger] row@[q2]).free_space(),
            decreases row@.len() - q,
        {
            let free = row[q].writable();
            if free < crate::BLOCK_SIZE {
                proof {
                    assert(fan_out@[pp]@[q as int].free_space() < crate::BLOCK_SIZE);
                }
                return (false, Vec::new());
            }
            q = q + 1;
        }
        p = p + 1;
    }
    // step 2: merge every input port's fan-in, deferring the releases
    let mut merged: Vec<Vec<i32>> = Vec::new();
    let mut present: Vec<bool> = Vec::new();
    let mut consumed_rows: Vec<Vec<usize>> = Vec::new();
    let mut i: usize = 0;
    while i < fan_in.len()
        invariant
            forall|i2: int|
                0 <= i2 < fan_in@.len() ==> bufs_wf((#[trigger] fan_in@[i2])@),
            i <= fan_in@.len(),
            merged@.len() == i,
            present@.len() == i,
            consumed_rows@.len() == i,
            forall|i2: int|
                0 <= i2 < i ==> (#[trigger] merged@[i2])@ == merged_of(
                    fan_in@[i2]@,
                    crate::BLOCK_SIZE as int,
                ),
            forall|i2: int|
                0 <= i2 < i ==> (#[trigger] present@[i2] == (contributing(
                    fan_in@[i2]@,
                    crate::BLOCK_SIZE as int,
                ).len() > 0)),
            forall|i2: int|
                0 <= i2 < i ==> (#[trigger] consumed_rows@[i2])@.len() == fan_in@[i2]@.len(),
            forall|i2: int, q: int|
                0 <= i2 < i && 0 <= q < fan_in@[i2]@.len() ==> (
                #[trigger] consumed_rows@[i2]@[q]) == (if crate::BLOCK_SIZE as int
                    <= fan_in@[i2]@[q].avail_of(0) {
                    crate::BLOCK_SIZE as int
                } else {
                    fan_in@[i2]@[q].avail_of(0)
                }),
        decreases fan_in@.len() - i,
    {
        let row = &fan_in[i];
        let (m, pr, cons) = fan_in_collect(row, crate::BLOCK_SIZE);
        merged.push(m);
        present.push(pr);
        consumed_rows.push(cons);
        i = i + 1;
    }
    // step 3: the transform itself, once per block
    proof {
        assert(forall|i2: int|
            0 <= i2 < merged@.len() ==> (#[trigger] merged@[i2])@.len() == crate::BLOCK_SIZE);
    }
    let outs = node.process(&merged, crate::BLOCK_SIZE);
    let ghost ins = Seq::new(
        fan_in@.len() as nat,
        |i: int| merged_of(fan_in@[i]@, crate::BLOCK_SIZE as int),
    );
    proof {
        assert(merged@.map_values(|b: Vec<i32>| b@) =~= ins);
        assert(outs@.map_values(|b: Vec<i32>| b@) == node.transform(
            ins,
            crate::BLOCK_SIZE as int,
        ));
    }
    // step 4: duplicate each output block into every fan-out buffer
    let mut p2: usize = 0;
    while p2 < fan_out.len()
        invariant
            outs@.len() == fan_out@.len(),
            forall|k: int| 0 <= k < outs@.len() ==> (#[trigger] outs@[k])@.len()
                == crate::BLOCK_SIZE,
            fan_out@.len() == old(fan_out)@.len(),
            p2 <= fan_out@.len(),
            forall|p3: int|
                p2 <= p3 < fan_out@.len() ==> #[trigger] fan_out@[p3] == old(fan_out)@[p3],
            forall|p3: int|
                0 <= p3 < fan_out@.len() ==> bufs_wf((#[trigger] old(fan_out)@[p3])@),
            forall|p3: int, q: int|
                0 <= p3 < fan_out@.len() && 0 <= q < old(fan_out)@[p3]@.len()
                    ==> crate::BLOCK_SIZE <= (#[trigger] old(fan_out)@[p3]@[q]).free_space(),
            forall|p3: int|
                0 <= p3 < p2 ==> (#[trigger] fan_out@[p3])@.len() == old(fan_out)@[p3]@.len(),
            forall|p3: int, q: int|
                0 <= p3 < p2 && 0 <= q < old(fan_out)@[p3]@.len() ==> (
                #[trigger] fan_out@[p3]@[q]).history() == old(fan_out)@[p3]@[q].history()
                    + outs@[p3]@,
        decreases fan_out@.len() - p2,
    {
        let row = &mut fan_out[p2];
        fan_out_commit(row, &outs[p2]);
        p2 = p2 + 1;
    }
    // step 5: release what was consumed on every fan-in buffer
    let mut i2: usize = 0;
    while i2 < fan_in.len()
        invariant
            fan_in@.len() == old(fan_in)@.len(),
            consumed_rows@.len() == fan_in@.len(),
            i2 <= fan_in@.len(),
            forall|i3: int|
                i2 <= i3 < fan_in@.len() ==> #[trigger] fan_in@[i3] == old(fan_in)@[i3],
            forall|i3: int|
                0 <= i3 < fan_in@.len() ==> bufs_wf((#[trigger] old(fan_in)@[i3])@),
            forall|i3: int|
                0 <= i3 < fan_in@.len() ==> (#[trigger] consumed_rows@[i3])@.len() == old(
                    fan_in,
                )@[i3]@.len(),
            forall|i3: int, q: int|
                0 <= i3 < fan_in@.len() && 0 <= q < old(fan_in)@[i3]@.len() ==> (
                #[trigger] consumed_rows@[i3]@[q]) == (if crate::BLOCK_SIZE as int <= old(
                    fan_in,
                )@[i3]@[q].avail_of(0) {
                    crate::BLOCK_SIZE as int
                } else {
                    old(fan_in)@[i3]@[q].avail_of(0)
                }),
            forall|i3: int|
                0 <= i3 < i2 ==> (#[trigger] fan_in@[i3])@.len() == old(fan_in)@[i3]@.len(),
            forall|i3: int, q: int|
                0 <= i3 < i2 && 0 <= q < old(fan_in)@[i3]@.len() ==> (
                #[trigger] fan_in@[i3]@[q]).history() == old(fan_in)@[i3]@[q].history()
                    && fan_in@[i3]@[q].tail_of(0) == old(fan_in)@[i3]@[q].tail_of(0)
                    + consumed_rows@[i3]@[q],
        decreases fan_in@.len() - i2,
    {
        let row = &mut fan_in[i2];
        fan_in_release(row, &consumed_rows[i2]);
        i2 = i2 + 1;
    }
    (true, present)
}

} // verus!
