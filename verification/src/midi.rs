//! MIDI port registry and capture session.
//!
//! A session holds a snapshot of the input ports visible at enumeration
//! time and a one-shot connection state machine: the input capability is
//! consumed by exactly one successful connection. Once connected, the
//! real-time driver callback appends event records — each the VLQ-encoded
//! millisecond delta to the previous event followed by the raw message
//! bytes — to a FIFO queue that the caller drains without blocking.

use vstd::prelude::*;
use crate::error::AudioError;
use crate::vlq::vlq_encode;
use crate::vlq::with_variable_length_encoding_bytes;

verus! {

/// Mathematical model of a MIDI input session.
#[verifier::ext_equal]
pub struct MidiModel {
    /// Names of the ports visible when the snapshot was taken.
    pub port_names: Seq<String>,
    /// Whether the input capability has been consumed by a connection.
    pub connected: bool,
    /// Timestamp of the previous captured event, if any.
    pub prev_timestamp_us: Option<u64>,
    /// Pending event records, oldest first.
    pub queue: Seq<Seq<u8>>,
}

/// The millisecond delta stored for an event at `ts`: zero for the first
/// event, otherwise the truncated difference to the previous timestamp.
pub open spec fn delta_ms_spec(prev: Option<u64>, ts: u64) -> int
    recommends
        prev is Some ==> prev->0 <= ts,
{
    match prev {
        Option::None => 0,
        Option::Some(p) => (ts - p) / 1000,
    }
}

/// One event record: the VLQ-encoded millisecond delta followed by the raw
/// MIDI message bytes, verbatim.
pub open spec fn event_record_spec(prev: Option<u64>, ts: u64, msg: Seq<u8>) -> Seq<u8> {
    vlq_encode(delta_ms_spec(prev, ts) as u64) + msg
}

/// Effect of capturing one event: its record joins the queue and its
/// timestamp becomes the new reference point.
pub open spec fn record_event_spec(m: MidiModel, ts: u64, msg: Seq<u8>) -> MidiModel {
    MidiModel {
        prev_timestamp_us: Some(ts),
        queue: m.queue.push(event_record_spec(m.prev_timestamp_us, ts, msg)),
        ..m
    }
}

/// The flat byte sequence a drain returns: the queued records concatenated
/// in arrival order.
pub open spec fn drained_bytes(q: Seq<Seq<u8>>) -> Seq<u8>
    decreases q.len(),
{
    if q.len() == 0 {
        Seq::empty()
    } else {
        q[0] + drained_bytes(q.drop_first())
    }
}

/// Effect of a drain on the session: the queue empties; nothing else moves.
pub open spec fn drain_spec(m: MidiModel) -> MidiModel {
    MidiModel { queue: Seq::empty(), ..m }
}

/// A MIDI input session: port snapshot, one-shot connection state, the
/// previous event timestamp and the pending record queue.
pub struct MidiSession {
    port_names: Vec<String>,
    connected: bool,
    prev_timestamp_us: Option<u64>,
    queue: Vec<Vec<u8>>,
}

impl View for MidiSession {
    type V = MidiModel;

    closed spec fn view(&self) -> MidiModel {
        MidiModel {
            port_names: self.port_names@,
            connected: self.connected,
            prev_timestamp_us: self.prev_timestamp_us,
            queue: self.queue@.map_values(|v: Vec<u8>| v@),
        }
    }
}

impl MidiSession {
    /// Creates a session over the port names visible at enumeration time.
    /// The snapshot is fixed: ports appearing later are invisible to it.
    pub fn new(port_names: Vec<String>) -> (r: Self)
        ensures
            r@ == (MidiModel {
                port_names: port_names@,
                connected: false,
                prev_timestamp_us: None,
                queue: Seq::empty(),
            }),
    {
        let r = MidiSession {
            port_names,
            connected: false,
            prev_timestamp_us: None,
            queue: Vec::new(),
        };
        proof {
            assert(r@.queue =~= Seq::<Seq<u8>>::empty());
            assert(r@ =~= (MidiModel {
                port_names: r.port_names@,
                connected: false,
                prev_timestamp_us: None,
                queue: Seq::empty(),
            }));
        }
        r
    }

    /// The port-name snapshot, in enumeration order.
    pub fn midi_port_names(&self) -> (r: &Vec<String>)
        ensures
            r@ == self@.port_names,
    {
        &self.port_names
    }

    /// Number of ports in the snapshot.
    pub fn get_num_midi_ports(&self) -> (r: usize)
        ensures
            r == self@.port_names.len(),
    {
        self.port_names.len()
    }

    /// Whether the input capability is still available for a connection.
    pub fn is_midi_input_available(&self) -> (r: bool)
        ensures
            r == !self@.connected,
    {
        !self.connected
    }

    /// One-shot connection. Exactly the indices into the snapshot are
    /// accepted, and only while the capability is unconsumed: an index out
    /// of range fails with `OutOfRange`, a second connection attempt with
    /// `InvalidState`, and neither leaves any partial state behind.
    pub fn midi_port_connect(&mut self, port_index: usize) -> (r: Result<(), AudioError>)
        ensures
            r is Ok <==> port_index < old(self)@.port_names.len() && !old(self)@.connected,
            port_index >= old(self)@.port_names.len() ==> r is Err && r->Err_0
                == AudioError::OutOfRange && *final(self) == *old(self),
            port_index < old(self)@.port_names.len() && old(self)@.connected ==> r is Err
                && r->Err_0 == AudioError::InvalidState && *final(self) == *old(self),
            r is Ok ==> final(self)@ == (MidiModel { connected: true, ..old(self)@ }),
    {
        if port_index >= self.port_names.len() {
            return Err(AudioError::OutOfRange);
        }
        if self.connected {
            return Err(AudioError::InvalidState);
        }
        self.connected = true;
        proof {
            assert(final(self)@ =~= (MidiModel { connected: true, ..old(self)@ }));
        }
        Ok(())
    }

    /// Timestamp of the previous captured event, if any.
    pub fn previous_timestamp_us(&self) -> (r: Option<u64>)
        ensures
            r == self@.prev_timestamp_us,
    {
        self.prev_timestamp_us
    }

    /// Real-time callback step: appends the record of one captured event
    /// and remembers its timestamp. Timestamps never run backwards within
    /// one connection.
    pub fn record_event(&mut self, timestamp_us: u64, message: &Vec<u8>)
        requires
            old(self)@.connected,
            old(self)@.prev_timestamp_us is Some ==> old(self)@.prev_timestamp_us->0
                <= timestamp_us,
        ensures
            final(self)@ == record_event_spec(old(self)@, timestamp_us, message@),
    {
        let delta_us: u64 = match self.prev_timestamp_us {
            None => 0,
            Some(p) => timestamp_us - p,
        };
        let delta_ms: u64 = delta_us / 1000;
        let mut record = with_variable_length_encoding_bytes(delta_ms);
        proof {
            assert(record@ == vlq_encode(delta_ms_spec(old(self)@.prev_timestamp_us, timestamp_us) as u64));
        }
        let mut i: usize = 0;
        while i < message.len()
            invariant
                i <= message.len(),
                record@ == vlq_encode(delta_ms_spec(old(self)@.prev_timestamp_us, timestamp_us) as u64)
                    + message@.subrange(0, i as int),
            decreases message.len() - i,
        {
            record.push(message[i]);
            proof {
                assert(message@.subrange(0, i as int).push(message@[i as int]) =~= message@.subrange(
                    0,
                    i as int + 1,
                ));
            }
            i = i + 1;
        }
        proof {
            assert(message@.subrange(0, message@.len() as int) =~= message@);
        }
        self.queue.push(record);
        self.prev_timestamp_us = Some(timestamp_us);
        proof {
            assert(final(self)@.queue =~= record_event_spec(old(self)@, timestamp_us, message@).queue);
            assert(final(self)@ =~= record_event_spec(old(self)@, timestamp_us, message@));
        }
    }

    /// Non-blocking poll: removes every queued record and returns their
    /// bytes concatenated in strict arrival order; an empty queue yields an
    /// empty sequence. Never waits for future events.
    pub fn midi_port_drain_messages(&mut self) -> (r: Vec<u8>)
        ensures
            r@ == drained_bytes(old(self)@.queue),
            final(self)@ == drain_spec(old(self)@),
    {
        let ghost m0 = self@;
        let mut out: Vec<u8> = Vec::new();
        while self.queue.len() > 0
            invariant
                self@ == (MidiModel { queue: self@.queue, ..m0 }),
                drained_bytes(m0.queue) == out@ + drained_bytes(self@.queue),
            decreases self.queue.len(),
        {
            let ghost qpre = self@.queue;
            let ghost outpre = out@;
            let record = self.queue.remove(0);
            proof {
                assert(self@.queue =~= qpre.drop_first());
                assert(record@ == qpre[0]);
            }
            let mut i: usize = 0;
            while i < record.len()
                invariant
                    i <= record.len(),
                    out@ == outpre + record@.subrange(0, i as int),
                decreases record.len() - i,
            {
                out.push(record[i]);
                proof {
                    assert(record@.subrange(0, i as int).push(record@[i as int])
                        =~= record@.subrange(0, i as int + 1));
                }
                i = i + 1;
            }
            proof {
                assert(record@.subrange(0, record@.len() as int) =~= record@);
                assert((outpre + qpre[0]) + drained_bytes(qpre.drop_first()) =~= outpre + (qpre[0]
                    + drained_bytes(qpre.drop_first())));
            }
        }
        proof {
            assert(self@.queue.len() == 0);
            assert(out@ + drained_bytes(self@.queue) =~= out@);
            assert(self@ =~= drain_spec(m0));
        }
        out
    }
}

/// Law: draining preserves strict arrival order: with one more record
/// queued, the drained bytes are the earlier concatenation followed by that
/// record's bytes.
pub proof fn lemma_drained_bytes_push(q: Seq<Seq<u8>>, e: Seq<u8>)
    ensures
        drained_bytes(q.push(e)) == drained_bytes(q) + e,
    decreases q.len(),
{
    if q.len() == 0 {
        assert(q.push(e)[0] == e);
        assert(q.push(e).drop_first() =~= Seq::<Seq<u8>>::empty());
        assert(drained_bytes(q.push(e)) == e + drained_bytes(Seq::<Seq<u8>>::empty()));
        assert(e + Seq::<u8>::empty() =~= e);
        assert(drained_bytes(q) == Seq::<u8>::empty());
        assert(drained_bytes(q) + e =~= e);
    } else {
        assert(drained_bytes(q) == q[0] + drained_bytes(q.drop_first()));
        assert(q.push(e).drop_first() =~= q.drop_first().push(e));
        lemma_drained_bytes_push(q.drop_first(), e);
        assert(q[0] + (drained_bytes(q.drop_first()) + e) =~= (q[0] + drained_bytes(
            q.drop_first(),
        )) + e);
        assert(q.push(e)[0] == q[0]);
    }
}

/// Law: a second drain immediately after a drain, with no event in
/// between, returns the empty sequence.
pub proof fn lemma_second_drain_empty(m: MidiModel)
    ensures
        drained_bytes(drain_spec(m).queue) == Seq::<u8>::empty(),
{
}

} // verus!
