use vstd::prelude::*;
use vstd::slice::slice_subrange;

use crate::header::{header_flags_valid, qos_known, parse_fixed_header, read_packet_type, validate_header_flags};
use crate::strings::append_bytes;
use crate::types::{packet_type_of_code, DecodeError, PacketType};
use crate::vlq::{decode_vlq, vlq_field_len, vlq_overlong, vlq_value};

verus! {

/// What a frame assembler waits for.
#[derive(Debug, Clone, Copy, PartialEq, Eq, Structural)]
pub enum Progress {
    /// At most this many further bytes belong to the frame; read up to that
    /// many and feed them.
    NeedBytes(usize),
    /// The bytes fed so far hold one complete frame.
    FrameReady,
}

/// Where a stream stands after the bytes `s` of a frame: the first byte must
/// name a packet type, allowed flags and a QoS other than 3; the length field is read one byte at
/// a time and may take at most four; then exactly the stated number of body
/// bytes is wanted.
pub open spec fn frame_progress(s: Seq<u8>) -> Result<Progress, DecodeError> {
    if s.len() == 0 {
        Ok(Progress::NeedBytes(1))
    } else if packet_type_of_code(s[0] as int / 16) is Reserved {
        Err(DecodeError::InvalidPacketType)
    } else if !header_flags_valid(packet_type_of_code(s[0] as int / 16), s[0] as int % 16) {
        Err(DecodeError::InvalidHeaderFlags)
    } else if !qos_known(s[0] as int) {
        Err(DecodeError::InvalidHeaderFlags)
    } else {
        let field = s.subrange(1, s.len() as int);
        match vlq_field_len(field) {
            None => Ok(Progress::NeedBytes(1)),
            Some(_) if vlq_overlong(field) => Err(DecodeError::InvalidVlqEncoding),
            Some(k) => {
                let total = 1 + k + vlq_value(field.take(k as int));
                if s.len() < total {
                    Ok(Progress::NeedBytes((total - s.len()) as usize))
                } else {
                    Ok(Progress::FrameReady)
                }
            },
        }
    }
}

/// The length of the frame that `s` begins, once its length field is
/// complete: the first byte, the field, and the body that the field states.
pub open spec fn frame_total(s: Seq<u8>) -> Option<nat> {
    if s.len() == 0 {
        None
    } else {
        let field = s.subrange(1, s.len() as int);
        match vlq_field_len(field) {
            Some(k) => Some(1 + k + vlq_value(field.take(k as int))),
            None => None,
        }
    }
}

/// Gathers the bytes of one frame from a stream that delivers them in pieces.
/// The bytes already read stay here between reads, so a reader that has to
/// wait for the stream loses nothing.
pub struct FrameAssembler {
    buf: Vec<u8>,
}

impl FrameAssembler {
    /// The bytes of the current frame read so far.
    pub closed spec fn bytes(&self) -> Seq<u8> {
        self.buf@
    }

    pub fn new() -> (r: FrameAssembler)
        ensures
            r.bytes() == Seq::<u8>::empty(),
    {
        FrameAssembler { buf: Vec::new() }
    }

    /// What the assembler waits for, or why the bytes read so far cannot
    /// start a frame.
    pub fn progress(&self) -> (r: Result<Progress, DecodeError>)
        ensures
            r == frame_progress(self.bytes()),
    {
        let s = self.buf.as_slice();
        let n = s.len();
        if n == 0 {
            return Ok(Progress::NeedBytes(1));
        }
        let ptype = read_packet_type(s[0]);
        if ptype == PacketType::Reserved {
            return Err(DecodeError::InvalidPacketType);
        }
        let b0 = s[0];
        let flags: u8 = b0 & 0x0F;
        assert(flags == b0 % 16) by (bit_vector)
            requires
                flags == b0 & 0x0F,
        ;
        if !validate_header_flags(&ptype, flags) {
            return Err(DecodeError::InvalidHeaderFlags);
        }
        if (b0 / 2) % 4 == 3 {
            return Err(DecodeError::InvalidHeaderFlags);
        }
        let field = slice_subrange(s, 1, n);
        match decode_vlq(field) {
            Err(_) => Ok(Progress::NeedBytes(1)),
            Ok((len, k)) => {
                if k == 4 && field[3] >= 128 {
                    return Err(DecodeError::InvalidVlqEncoding);
                }
                let have = n - 1 - k;
                let want = len as usize;
                if have < want {
                    Ok(Progress::NeedBytes(want - have))
                } else {
                    Ok(Progress::FrameReady)
                }
            },
        }
    }

    /// Adds bytes read from the stream, no more than the assembler asked
    /// for, and tells what it waits for next.
    pub fn feed(&mut self, chunk: &[u8]) -> (r: Result<Progress, DecodeError>)
        requires
            frame_progress(old(self).bytes()) matches Ok(Progress::NeedBytes(n)) && chunk@.len() <= n,
        ensures
            final(self).bytes() == old(self).bytes() + chunk@,
            r == frame_progress(final(self).bytes()),
    {
        append_bytes(&mut self.buf, chunk);
        self.progress()
    }

    /// Hands out the complete frame and starts on the next one.
    pub fn take_frame(&mut self) -> (r: Vec<u8>)
        requires
            frame_progress(old(self).bytes()) == Ok::<Progress, DecodeError>(Progress::FrameReady),
        ensures
            r@ == old(self).bytes(),
            final(self).bytes() == Seq::<u8>::empty(),
    {
        let mut frame: Vec<u8> = Vec::new();
        frame.append(&mut self.buf);
        assert(frame@ =~= old(self).bytes());
        frame
    }

    /// Reports the end of the stream: nothing is lost when it comes between
    /// frames, and a frame that was begun is truncated.
    pub fn close(&self) -> (r: Result<(), DecodeError>)
        ensures
            r is Ok <==> self.bytes().len() == 0,
            r is Err ==> r == Err::<(), DecodeError>(DecodeError::TruncatedFrame),
    {
        if self.buf.len() == 0 {
            Ok(())
        } else {
            Err(DecodeError::TruncatedFrame)
        }
    }
}

/// The assembler calls a frame complete exactly when the fixed-header parser
/// accepts it and finds the whole body that it states: it never stops short
/// of a frame.
pub proof fn lemma_ready_iff_frame(s: Seq<u8>)
    ensures
        frame_progress(s) == Ok::<Progress, DecodeError>(Progress::FrameReady) <==> (parse_fixed_header(s) is Ok
            && parse_fixed_header(s)->Ok_0.payload.len() == parse_fixed_header(s)->Ok_0.remaining_bytes),
{
    vlq_bound_of(s);
}

/// Fed no more than it asks for, the assembler never holds a byte past the
/// end of the frame it reads, and a frame it calls complete ends exactly at
/// the last byte fed.
pub proof fn lemma_feed_stays_within_frame(s: Seq<u8>, chunk: Seq<u8>)
    requires
        frame_progress(s) matches Ok(Progress::NeedBytes(n)) && chunk.len() <= n,
    ensures
        frame_total(s + chunk) matches Some(t) ==> (s + chunk).len() <= t,
        frame_progress(s + chunk) == Ok::<Progress, DecodeError>(Progress::FrameReady) ==> frame_total(
            s + chunk,
        ) == Some((s + chunk).len()),
{
    let u = s + chunk;
    if s.len() > 0 {
        let field = s.subrange(1, s.len() as int);
        let ufield = u.subrange(1, u.len() as int);
        assert(ufield =~= field + chunk);
        assert(forall|i: int| 0 <= i < field.len() ==> ufield[i] == field[i]);
        if let Some(k) = vlq_field_len(field) {
            assert(vlq_field_len(ufield) == Some(k));
            assert(ufield.take(k as int) =~= field.take(k as int));
        }
    }
}

proof fn vlq_bound_of(s: Seq<u8>)
    ensures
        s.len() >= 1 ==> (vlq_field_len(s.subrange(1, s.len() as int)) matches Some(k) ==> vlq_value(
            s.subrange(1, s.len() as int).take(k as int),
        ) <= crate::vlq::MAX_REMAINING_LENGTH),
{
    if s.len() >= 1 {
        let field = s.subrange(1, s.len() as int);
        if let Some(k) = vlq_field_len(field) {
            crate::vlq::lemma_vlq_value_bound(field.take(k as int));
        }
    }
}

/// While the assembler waits for bytes, what it asks for never reaches past
/// the end of the frame that the bytes so far announce.
pub proof fn lemma_need_within_frame(s: Seq<u8>)
    ensures
        frame_progress(s) matches Ok(Progress::NeedBytes(n)) ==> n >= 1 && (parse_fixed_header(s) matches Ok(
            h,
        ) ==> h.payload.len() + n == h.remaining_bytes),
{
    vlq_bound_of(s);
}

} // verus!
