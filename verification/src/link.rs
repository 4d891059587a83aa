//! Serial link handler: byte-at-a-time ingestion into a bounded receive
//! buffer, frame boundary detection, in-place decode, and response
//! composition.
//!
//! Bytes accumulate until the frame delimiter 0x00 arrives; the buffered
//! frame is then decoded, the payload echoed back, and a telemetry reply
//! appended, all to completion before the next byte can be serviced. A
//! malformed frame is dropped without a reply; a buffer that would exceed
//! its capacity before a delimiter arrives discards the partial frame and
//! resynchronizes at idle.

use crate::codec::decode_in_place;
use crate::codec::decode_spec;
use crate::codec::DecodeError;
use crate::telemetry::MotorCounts;
use crate::telemetry::TelemetryCell;
use vstd::prelude::*;

verus! {

/// Capacity of the receive buffer, in bytes, delimiter included.
pub const BUFFER_CAPACITY: usize = 1024;

/// Big-endian byte decomposition of a 32-bit tick count.
pub open spec fn u32_be_spec(x: u32) -> Seq<u8> {
    seq![
        ((x >> 24) & 0xff) as u8,
        ((x >> 16) & 0xff) as u8,
        ((x >> 8) & 0xff) as u8,
        (x & 0xff) as u8,
    ]
}

/// The bytes transmitted after a frame decodes: the payload echoed
/// verbatim, then the north-east tick count of the current telemetry
/// record as a fixed-width big-endian integer, then the terminator byte
/// 59 (ASCII ';').
pub open spec fn reply_spec(payload: Seq<u8>, counts: MotorCounts) -> Seq<u8> {
    payload + u32_be_spec(counts.north_east) + seq![59u8]
}

/// What one received byte led to.
pub enum LinkOutcome {
    /// The byte was buffered; the frame is not complete yet.
    Accumulated,
    /// The delimiter arrived and the frame decoded: these bytes are to be
    /// transmitted in reply.
    Frame(Vec<u8>),
    /// The delimiter arrived but the frame was malformed: it was dropped,
    /// nothing is transmitted.
    Malformed(DecodeError),
    /// The byte would have grown the buffer past its capacity: the partial
    /// frame was discarded and the handler resynchronized at idle.
    Overflow,
}

/// The serial link handler's state: the bounded receive buffer. An empty
/// buffer is the idle state; a non-empty one is accumulating a frame.
pub struct LinkHandler {
    buffer: Vec<u8>,
}

impl LinkHandler {
    /// The buffer never exceeds its fixed capacity.
    pub closed spec fn wf(self) -> bool {
        self.buffer@.len() <= BUFFER_CAPACITY
    }

    /// The bytes buffered so far for the frame in progress.
    pub closed spec fn pending(self) -> Seq<u8> {
        self.buffer@
    }

    /// A fresh handler, idle with an empty buffer.
    pub fn new() -> (h: Self)
        ensures
            h.wf(),
            h.pending() == Seq::<u8>::empty(),
    {
        LinkHandler { buffer: Vec::new() }
    }

    /// Service one received byte to completion. A non-delimiter byte is
    /// appended to the buffer; the delimiter 0x00 closes the frame, which
    /// is decoded in place and answered with the echoed payload followed
    /// by the telemetry reply, read from the shared cell under the
    /// priority-ceiling discipline. Every path that consumes the frame —
    /// success, malformed frame, or overflow — leaves the handler idle.
    pub fn on_byte(&mut self, byte: u8, telemetry: &TelemetryCell) -> (out: LinkOutcome)
        requires
            old(self).wf(),
            telemetry.wf(),
        ensures
            final(self).wf(),
            byte != 0 && old(self).pending().len() < BUFFER_CAPACITY ==> (out is Accumulated
                && final(self).pending() == old(self).pending().push(byte)),
            old(self).pending().len() >= BUFFER_CAPACITY ==> (out is Overflow && final(self).pending()
                == Seq::<u8>::empty()),
            byte == 0 && old(self).pending().len() < BUFFER_CAPACITY ==> {
                &&& final(self).pending() == Seq::<u8>::empty()
                &&& match decode_spec(old(self).pending().push(0)) {
                    Ok(payload) => out matches LinkOutcome::Frame(resp) && resp@ == reply_spec(
                        payload,
                        telemetry.passes().last(),
                    ),
                    Err(er) => out == LinkOutcome::Malformed(er),
                }
            },
    {
        if self.buffer.len() >= BUFFER_CAPACITY {
            // the byte would not fit below the delimiter: discard and resynchronize
            self.buffer.clear();
            return LinkOutcome::Overflow;
        }
        if byte != 0 {
            self.buffer.push(byte);
            return LinkOutcome::Accumulated;
        }
        self.buffer.push(0u8);
        let ghost framed = self.buffer@;
        match decode_in_place(&mut self.buffer) {
            Ok(n) => {
                let counts = telemetry.read();
                let mut resp: Vec<u8> = Vec::new();
                let ghost payload = decode_spec(framed)->Ok_0;
                let mut i: usize = 0;
                while i < n - 1
                    invariant
                        i <= n - 1,
                        n - 1 <= self.buffer@.len(),
                        payload.len() == n - 1,
                        forall|k: int| 0 <= k < n - 1 ==> self.buffer@[k] == payload[k],
                        resp@ == payload.subrange(0, i as int),
                    decreases n - 1 - i,
                {
                    let b = self.buffer[i];
                    resp.push(b);
                    assert(resp@ =~= payload.subrange(0, i as int + 1));
                    i = i + 1;
                }
                assert(resp@ =~= payload);
                let x = counts.north_east;
                proof {
                    assert(((x >> 24) & 0xff) < 256) by (bit_vector);
                    assert(((x >> 16) & 0xff) < 256) by (bit_vector);
                    assert(((x >> 8) & 0xff) < 256) by (bit_vector);
                    assert((x & 0xff) < 256) by (bit_vector);
                }
                resp.push(((x >> 24) & 0xff) as u8);
                resp.push(((x >> 16) & 0xff) as u8);
                resp.push(((x >> 8) & 0xff) as u8);
                resp.push((x & 0xff) as u8);
                resp.push(59u8);
                self.buffer.clear();
                proof {
                    assert(resp@ =~= reply_spec(payload, telemetry.passes().last()));
                }
                LinkOutcome::Frame(resp)
            },
            Err(er) => {
                self.buffer.clear();
                LinkOutcome::Malformed(er)
            },
        }
    }
}

} // verus!
