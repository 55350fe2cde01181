//! Output buffer engine: a caller-to-callback sample queue with monotonic
//! source/sink cursors and a signed backpressure metric.
//!
//! The caller enqueues samples with [`OutputStream::play_sample`]; the
//! real-time device callback drains the queue with
//! [`OutputStream::on_audio_callback`], writing each dequeued sample into one
//! chunk of `channels * downsample` interleaved hardware slots and stopping
//! as soon as the queue is empty (the underrun policy: the rest of the
//! hardware buffer is left untouched).

use vstd::prelude::*;
use vstd::arithmetic::div_mod::lemma_div_is_ordered;
use vstd::arithmetic::div_mod::lemma_fundamental_div_mod;
use vstd::arithmetic::div_mod::lemma_fundamental_div_mod_converse;
use vstd::arithmetic::div_mod::lemma_mod_division_less_than_divisor;
use crate::error::AudioError;

verus! {

/// The fixed configuration negotiated with the output device.
#[derive(Clone, Copy, Debug, PartialEq, Eq, Structural)]
pub struct DeviceConfig {
    /// Native sample rate of the device, in Hz.
    pub sample_rate_hz: u32,
    /// Number of interleaved channels.
    pub channels: u16,
}

/// Mathematical model of an output stream: the negotiated configuration,
/// the two monotonic cursors, the padding target and the pending queue.
#[verifier::ext_equal]
pub struct StreamModel<T> {
    pub sample_rate_hz: int,
    pub channels: int,
    pub downsample: int,
    pub buffer_padding: int,
    pub source_cursor: int,
    pub sink_cursor: int,
    pub queue: Seq<T>,
}

impl<T> StreamModel<T> {
    /// Structural invariant: the downsample factor is positive and the
    /// device has at least one channel.
    pub open spec fn wf(self) -> bool {
        &&& self.downsample >= 1
        &&& self.channels >= 1
    }
}

/// Effect of one `play_sample` call: the sample joins the queue and the
/// source cursor advances, unconditionally.
pub open spec fn play_spec<T>(m: StreamModel<T>, v: T) -> StreamModel<T> {
    StreamModel { source_cursor: m.source_cursor + 1, queue: m.queue.push(v), ..m }
}

/// Effect of a run of `play_sample` calls, first sample first.
pub open spec fn play_all_spec<T>(m: StreamModel<T>, vs: Seq<T>) -> StreamModel<T>
    decreases vs.len(),
{
    if vs.len() == 0 {
        m
    } else {
        play_all_spec(play_spec(m, vs[0]), vs.drop_first())
    }
}

/// Effect of replacing the padding target.
pub open spec fn with_padding<T>(m: StreamModel<T>, p: int) -> StreamModel<T> {
    StreamModel { buffer_padding: p, ..m }
}

/// The signed backpressure metric: how many samples the caller should still
/// enqueue to reach the padding target. Negative means the caller is ahead.
pub open spec fn samples_behind_spec<T>(m: StreamModel<T>) -> int {
    m.sink_cursor + m.buffer_padding - m.source_cursor
}

/// Number of interleaved hardware slots one queued sample fills.
pub open spec fn chunk_size<T>(m: StreamModel<T>) -> int {
    m.channels * m.downsample
}

/// Number of chunks a hardware buffer of `len` slots is partitioned into;
/// the last chunk may be partial.
pub open spec fn chunk_count(len: int, cs: int) -> int {
    (len + cs - 1) / cs
}

/// How many samples one callback invocation dequeues from a buffer of `len`
/// slots: one per chunk until the queue runs out.
pub open spec fn callback_consumed<T>(m: StreamModel<T>, len: int) -> int {
    if chunk_count(len, chunk_size(m)) <= m.queue.len() {
        chunk_count(len, chunk_size(m))
    } else {
        m.queue.len() as int
    }
}

/// Effect of one callback invocation on the stream state: the consumed
/// samples leave the queue and the sink cursor advances by their number.
pub open spec fn callback_spec<T>(m: StreamModel<T>, len: int) -> StreamModel<T> {
    let n = callback_consumed(m, len);
    StreamModel { sink_cursor: m.sink_cursor + n, queue: m.queue.skip(n), ..m }
}

/// Value of hardware slot `j` after one callback invocation: slots of the
/// first `callback_consumed` chunks hold the chunk's dequeued sample; the
/// rest of the buffer is left as it was.
pub open spec fn callback_slot<T>(m: StreamModel<T>, data: Seq<T>, j: int) -> T {
    if j / chunk_size(m) < callback_consumed(m, data.len() as int) {
        m.queue[j / chunk_size(m)]
    } else {
        data[j]
    }
}

/// Holds when every slot of chunk `i` that lies inside the buffer carries
/// the sample that chunk dequeued.
pub open spec fn chunk_filled<T>(data: Seq<T>, q: Seq<T>, i: int, cs: int) -> bool {
    forall|j: int| i * cs <= j < i * cs + cs && 0 <= j < data.len() ==> data[j] == q[i]
}

/// An output stream session: fixed device configuration, downsample factor,
/// padding target, the two cursors and the pending sample queue.
pub struct OutputStream<T> {
    config: DeviceConfig,
    downsample: u32,
    buffer_padding: u64,
    source_cursor: u64,
    sink_cursor: u64,
    queue: Vec<T>,
}

impl<T> View for OutputStream<T> {
    type V = StreamModel<T>;

    closed spec fn view(&self) -> StreamModel<T> {
        StreamModel {
            sample_rate_hz: self.config.sample_rate_hz as int,
            channels: self.config.channels as int,
            downsample: self.downsample as int,
            buffer_padding: self.buffer_padding as int,
            source_cursor: self.source_cursor as int,
            sink_cursor: self.sink_cursor as int,
            queue: self.queue@,
        }
    }
}

impl<T: Copy> OutputStream<T> {
    /// Creates a stream over an already negotiated device configuration.
    /// A non-positive downsample factor is rejected; so is a configuration
    /// without channels. The padding target defaults to one twentieth of
    /// the native sample rate.
    pub fn new_with_downsample(config: DeviceConfig, downsample: u32) -> (r: Result<
        Self,
        AudioError,
    >)
        ensures
            downsample == 0 ==> r is Err && r->Err_0 == AudioError::InvalidArgument,
            downsample >= 1 && config.channels == 0 ==> r is Err && r->Err_0
                == AudioError::UnsupportedConfig,
            downsample >= 1 && config.channels >= 1 ==> r is Ok && ({
                let m = r->Ok_0@;
                &&& m.wf()
                &&& m.sample_rate_hz == config.sample_rate_hz
                &&& m.channels == config.channels
                &&& m.downsample == downsample
                &&& m.buffer_padding == config.sample_rate_hz as int / 20
                &&& m.source_cursor == 0
                &&& m.sink_cursor == 0
                &&& m.queue == Seq::<T>::empty()
            }),
    {
        if downsample == 0 {
            return Err(AudioError::InvalidArgument);
        }
        if config.channels == 0 {
            return Err(AudioError::UnsupportedConfig);
        }
        let buffer_padding = (config.sample_rate_hz / 20) as u64;
        let r = OutputStream {
            config,
            downsample,
            buffer_padding,
            source_cursor: 0,
            sink_cursor: 0,
            queue: Vec::new(),
        };
        proof {
            assert(r@.queue =~= Seq::<T>::empty());
        }
        Ok(r)
    }

    /// The effective logical sample rate: the native rate divided by the
    /// downsample factor, rounded down.
    pub fn sample_rate_hz(&self) -> (r: u32)
        requires
            self@.wf(),
        ensures
            r == self@.sample_rate_hz / self@.downsample,
    {
        self.config.sample_rate_hz / self.downsample
    }

    /// The negotiated channel count.
    pub fn num_channels(&self) -> (r: u16)
        ensures
            r == self@.channels,
    {
        self.config.channels
    }

    /// Non-blocking enqueue: the sample joins the queue and the source
    /// cursor advances by one, whatever the consumer does.
    pub fn play_sample(&mut self, sample: T)
        requires
            old(self)@.source_cursor < u64::MAX,
        ensures
            final(self)@ == play_spec(old(self)@, sample),
    {
        self.queue.push(sample);
        self.source_cursor = self.source_cursor + 1;
        proof {
            assert(final(self)@ =~= play_spec(old(self)@, sample));
        }
    }

    /// Replaces the padding target. A negative target is rejected and the
    /// stream is left unchanged.
    pub fn set_buffer_padding(&mut self, buffer_padding: i64) -> (r: Result<(), AudioError>)
        ensures
            buffer_padding < 0 ==> r is Err && r->Err_0 == AudioError::InvalidArgument
                && *final(self) == *old(self),
            buffer_padding >= 0 ==> r is Ok && final(self)@ == with_padding(
                old(self)@,
                buffer_padding as int,
            ),
    {
        if buffer_padding < 0 {
            return Err(AudioError::InvalidArgument);
        }
        self.buffer_padding = buffer_padding as u64;
        proof {
            assert(final(self)@ =~= with_padding(old(self)@, buffer_padding as int));
        }
        Ok(())
    }

    /// Count of samples the caller has enqueued so far.
    pub fn source_cursor(&self) -> (r: u64)
        ensures
            r == self@.source_cursor,
    {
        self.source_cursor
    }

    /// Count of samples the callback has consumed so far.
    pub fn sink_cursor(&self) -> (r: u64)
        ensures
            r == self@.sink_cursor,
    {
        self.sink_cursor
    }

    /// Number of samples still queued for the callback.
    pub fn queue_len(&self) -> (r: usize)
        ensures
            r == self@.queue.len(),
    {
        self.queue.len()
    }

    /// The signed backpressure metric,
    /// `(sink_cursor + buffer_padding) - source_cursor`. Positive means the
    /// caller should enqueue more before the device starves.
    pub fn samples_behind(&self) -> (r: i128)
        ensures
            r == samples_behind_spec(self@),
    {
        self.sink_cursor as i128 + self.buffer_padding as i128 - self.source_cursor as i128
    }

    /// One real-time callback invocation: partitions the hardware buffer
    /// into chunks of `channels * downsample` slots, writes one dequeued
    /// sample into every slot of each chunk, and stops filling as soon as
    /// the queue is empty, leaving the remaining slots untouched.
    pub fn on_audio_callback(&mut self, data: &mut Vec<T>)
        requires
            old(self)@.wf(),
            old(self)@.sink_cursor + old(self)@.queue.len() <= u64::MAX,
            old(self)@.channels * old(self)@.downsample <= u64::MAX,
        ensures
            final(self)@ == callback_spec(old(self)@, old(data)@.len() as int),
            final(data)@.len() == old(data)@.len(),
            forall|j: int|
                0 <= j < old(data)@.len() ==> final(data)@[j] == callback_slot(
                    old(self)@,
                    old(data)@,
                    j,
                ),
    {
        let ghost m0 = self@;
        let ghost d0 = data@;
        let len: usize = data.len();
        proof {
            let ch = self.config.channels as int;
            let ds = self.downsample as int;
            assert(1 <= ch * ds <= 0xffff * 0xffff_ffff) by (nonlinear_arith)
                requires
                    1 <= ch <= 0xffff,
                    1 <= ds <= 0xffff_ffff,
            ;
        }
        let cs64: u64 = (self.config.channels as u64) * (self.downsample as u64);
        let ghost cs = cs64 as int;
        let mut pos: usize = 0;
        let ghost mut k: int = 0int;
        while pos < len && self.queue.len() > 0
            invariant
                self@.wf(),
                cs == m0.channels * m0.downsample,
                cs == cs64 as int,
                1 <= cs,
                len == d0.len(),
                data@.len() == d0.len(),
                0 <= k <= m0.queue.len(),
                m0.sink_cursor + m0.queue.len() <= u64::MAX,
                self@ == (StreamModel {
                    sink_cursor: m0.sink_cursor + k,
                    queue: m0.queue.skip(k),
                    ..m0
                }),
                pos as int == if k * cs <= len as int {
                    k * cs
                } else {
                    len as int
                },
                k == 0 || (k - 1) * cs < len as int,
                forall|i: int| 0 <= i < k ==> chunk_filled(data@, m0.queue, i, cs),
                forall|j: int| pos <= j < len ==> data@[j] == d0[j],
            decreases len - pos,
        {
            proof {
                assert(m0.queue.skip(k).len() > 0);
                assert(k < m0.queue.len());
                assert(k * cs <= len as int) by {
                    if k * cs > len as int {
                        assert(pos as int == len as int);
                    }
                };
                assert(pos as int == k * cs);
            }
            let v = self.queue.remove(0);
            proof {
                assert(m0.queue.skip(k)[0] == m0.queue[k]);
                assert(m0.queue.skip(k).remove(0) =~= m0.queue.skip(k + 1));
            }
            let end: usize = if cs64 < (len - pos) as u64 {
                pos + (cs64 as usize)
            } else {
                len
            };
            let ghost dpre = data@;
            let mut j: usize = pos;
            while j < end
                invariant
                    pos <= j <= end <= len,
                    data@.len() == dpre.len(),
                    len == dpre.len(),
                    forall|t: int| 0 <= t < data@.len() && !(pos <= t < j) ==> data@[t] == dpre[t],
                    forall|t: int| pos <= t < j ==> data@[t] == v,
                decreases end - j,
            {
                data[j] = v;
                j = j + 1;
            }
            self.sink_cursor = self.sink_cursor + 1;
            proof {
                let kk = k;
                k = k + 1;
                assert(v == m0.queue[kk]);
                assert((kk + 1) * cs == kk * cs + cs) by (nonlinear_arith);
                assert(end as int == if k * cs <= len as int {
                    k * cs
                } else {
                    len as int
                });
                assert forall|i: int| 0 <= i < k implies chunk_filled(data@, m0.queue, i, cs) by {
                    if i < kk {
                        // chunks already filled lie wholly below `pos` and were
                        // not touched by this pass
                        assert((i + 1) * cs <= kk * cs) by (nonlinear_arith)
                            requires
                                i + 1 <= kk,
                                cs >= 1,
                        ;
                        assert((i + 1) * cs == i * cs + cs) by (nonlinear_arith);
                        assert(chunk_filled(dpre, m0.queue, i, cs));
                        assert forall|t: int|
                            i * cs <= t < i * cs + cs && 0 <= t < data@.len() implies data@[t]
                            == m0.queue[i] by {
                            assert(t < pos as int);
                            assert(data@[t] == dpre[t]);
                        };
                    } else {
                        assert forall|t: int|
                            i * cs <= t < i * cs + cs && 0 <= t < data@.len() implies data@[t]
                            == m0.queue[i] by {
                            assert(pos as int <= t < end as int);
                            assert(data@[t] == v);
                        };
                    }
                };
            }
            pos = end;
        }
        proof {
            let leni = len as int;
            let n = callback_consumed(m0, leni);
            let cc = chunk_count(leni, cs);
            assert(n == k) by {
                if pos >= len {
                    // the buffer filled completely: exactly `chunk_count`
                    // chunks were consumed
                    assert(k * cs >= leni) by {
                        if k * cs < leni {
                            assert(pos as int == k * cs);
                        }
                    };
                    if k == 0 {
                        assert(leni <= 0);
                        lemma_fundamental_div_mod_converse(leni + cs - 1, cs, 0, leni + cs - 1);
                        assert(cc == 0);
                    } else {
                        assert((k - 1) * cs < leni);
                        assert(k * cs == (k - 1) * cs + cs) by (nonlinear_arith);
                        assert((k + 1) * cs == k * cs + cs) by (nonlinear_arith);
                        assert(k * cs <= leni + cs - 1 < (k + 1) * cs);
                        lemma_fundamental_div_mod_converse(
                            leni + cs - 1,
                            cs,
                            k,
                            leni + cs - 1 - k * cs,
                        );
                        assert(cc == k);
                    }
                    assert(cc <= m0.queue.len());
                    assert(n == cc);
                } else {
                    // the queue ran dry first: every queued sample was consumed
                    assert(self@.queue.len() == 0);
                    assert(m0.queue.skip(k).len() == 0);
                    assert(k == m0.queue.len());
                    assert(k * cs <= leni) by {
                        if k * cs > leni {
                            assert(pos as int == leni);
                        }
                    };
                    assert(pos as int == k * cs);
                    assert(k * cs < leni);
                    assert((k + 1) * cs == k * cs + cs) by (nonlinear_arith);
                    assert(leni + cs - 1 >= (k + 1) * cs);
                    lemma_fundamental_div_mod_converse((k + 1) * cs, cs, k + 1, 0);
                    lemma_div_is_ordered((k + 1) * cs, leni + cs - 1, cs);
                    assert(cc >= k + 1);
                    assert(n == m0.queue.len());
                }
            };
            assert(self@ =~= callback_spec(m0, leni));
            assert forall|j: int| 0 <= j < d0.len() implies data@[j] == callback_slot(m0, d0, j) by {
                let i = j / cs;
                let r = j % cs;
                lemma_fundamental_div_mod(j, cs);
                lemma_mod_division_less_than_divisor(j, cs);
                assert(j == cs * i + r);
                if i < k {
                    assert(i >= 0) by (nonlinear_arith)
                        requires
                            j == cs * i + r,
                            0 <= r < cs,
                            j >= 0,
                            cs >= 1,
                    ;
                    assert(i * cs <= j < i * cs + cs) by (nonlinear_arith)
                        requires
                            j == cs * i + r,
                            0 <= r < cs,
                    ;
                    assert(chunk_filled(data@, m0.queue, i, cs));
                    assert(data@[j] == m0.queue[i]);
                } else {
                    assert(j >= k * cs) by (nonlinear_arith)
                        requires
                            j == cs * i + r,
                            r >= 0,
                            i >= k,
                            cs >= 1,
                    ;
                    assert(pos as int <= j);
                    assert(data@[j] == d0[j]);
                }
            };
        }
    }
}

/// Law: a run of `play_sample` calls advances the source cursor by exactly
/// the number of samples played and appends them to the queue in order; the
/// sink cursor is untouched, however fast or slow the consumer drains.
pub proof fn lemma_play_run_advances_source_cursor<T>(m: StreamModel<T>, vs: Seq<T>)
    ensures
        play_all_spec(m, vs).source_cursor == m.source_cursor + vs.len(),
        play_all_spec(m, vs).sink_cursor == m.sink_cursor,
        play_all_spec(m, vs).buffer_padding == m.buffer_padding,
        play_all_spec(m, vs).queue == m.queue + vs,
    decreases vs.len(),
{
    if vs.len() == 0 {
        assert(m.queue + vs =~= m.queue);
    } else {
        lemma_play_run_advances_source_cursor(play_spec(m, vs[0]), vs.drop_first());
        assert(m.queue.push(vs[0]) + vs.drop_first() =~= m.queue + vs);
    }
}

/// Law: with the cursors held fixed, replacing the padding target by
/// another moves the backpressure metric by exactly their difference.
pub proof fn lemma_padding_shifts_backpressure<T>(m: StreamModel<T>, p1: int, p2: int)
    ensures
        samples_behind_spec(with_padding(m, p2)) - samples_behind_spec(with_padding(m, p1)) == p2
            - p1,
{
}

} // verus!
