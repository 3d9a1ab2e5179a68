//! The framed channel's verified core: the length-prefixed frame header
//! with its encrypted bit, the outbound batch buffer with its segment
//! boundaries and oversize rollback, and the inbound frame reader that
//! refuses plaintext once a security context is installed.

use vstd::prelude::*;
use crate::codec::{spec_decode_value, spec_encode_value, PackError};
use crate::pack::{be4, get_u32_be, put_u32_be, u32_of_be};
use crate::value::{Value, ValueModel};

verus! {

/// The low 31 bits of a header give the payload length.
pub const LEN_MASK: u32 = 0x7FFF_FFFF;

/// The top bit of a header flags an encrypted frame.
pub const ENC_MASK: u32 = 0x8000_0000;

/// No outbound segment grows past this many bytes.
pub const MAX_BATCH: usize = 0x3FFF_FFFF;

/// The header word of a frame: its payload length with the encrypted bit.
pub open spec fn header_word(len: u32, encrypted: bool) -> u32 {
    if encrypted {
        len | ENC_MASK
    } else {
        len
    }
}

/// The full wire frame: four header bytes then the payload.
pub open spec fn frame_enc(payload: Seq<u8>, encrypted: bool) -> Seq<u8> {
    be4(header_word(payload.len() as u32, encrypted)) + payload
}

/// Frame a payload for the wire.
pub fn frame_bytes(payload: &Vec<u8>, encrypted: bool) -> (r: Vec<u8>)
    requires
        payload@.len() <= LEN_MASK,
    ensures
        r@ == frame_enc(payload@, encrypted),
{
    let mut out: Vec<u8> = Vec::new();
    let len = payload.len() as u32;
    let hdr = if encrypted {
        len | ENC_MASK
    } else {
        len
    };
    put_u32_be(hdr, &mut out);
    out.extend_from_slice(payload.as_slice());
    proof {
        assert(out@ =~= frame_enc(payload@, encrypted));
    }
    out
}

/// What the reader does with the front of its buffer.
#[derive(Debug, PartialEq, Eq, Structural)]
pub enum FrameStep {
    /// the buffer does not yet hold a whole frame
    NeedBytes,
    /// a complete plaintext frame of this payload length is at the front
    Plain { len: usize },
    /// a complete sealed frame of this payload length is at the front
    Encrypted { len: usize },
    /// a plaintext frame arrived after a security context was installed:
    /// the connection must fail with "encryption is required"
    RejectPlain,
}

/// The reader's decision on a buffer: every frame is a four-byte header
/// and a payload, and once a context is installed a plaintext frame is
/// refused.
pub open spec fn frame_step_model(buf: Seq<u8>, ctx_installed: bool) -> FrameStep {
    if buf.len() < 4 {
        FrameStep::NeedBytes
    } else {
        let hdr = u32_of_be(buf[0], buf[1], buf[2], buf[3]);
        let encrypted = hdr > LEN_MASK;
        let len = (hdr & LEN_MASK) as nat;
        if buf.len() - 4 < len {
            FrameStep::NeedBytes
        } else if !encrypted && ctx_installed {
            FrameStep::RejectPlain
        } else if !encrypted {
            FrameStep::Plain { len: len as usize }
        } else {
            FrameStep::Encrypted { len: len as usize }
        }
    }
}

/// Decide what the front of the read buffer holds.
pub fn frame_step(buf: &Vec<u8>, ctx_installed: bool) -> (r: FrameStep)
    ensures
        r == frame_step_model(buf@, ctx_installed),
        ctx_installed && (frame_step_model(buf@, false) matches FrameStep::Plain { .. })
            ==> r is RejectPlain,
{
    if buf.len() < 4 {
        return FrameStep::NeedBytes;
    }
    let hdr = get_u32_be(buf.as_slice(), 0);
    let encrypted = hdr > LEN_MASK;
    let len = (hdr & LEN_MASK) as usize;
    proof {
        assert(hdr & LEN_MASK <= LEN_MASK) by (bit_vector);
    }
    if buf.len() - 4 < len {
        FrameStep::NeedBytes
    } else if !encrypted && ctx_installed {
        FrameStep::RejectPlain
    } else if !encrypted {
        FrameStep::Plain { len }
    } else {
        FrameStep::Encrypted { len }
    }
}

/// Split the complete frame at the front of the buffer off, returning its
/// payload and leaving the rest.
pub fn take_payload(buf: &mut Vec<u8>, len: usize) -> (r: Vec<u8>)
    requires
        old(buf)@.len() >= 4 + len,
    ensures
        r@ == old(buf)@.subrange(4, 4 + len as int),
        final(buf)@ == old(buf)@.skip(4 + len as int),
{
    let _n = buf.len();
    let mut tail = buf.split_off(4 + len);
    let payload = buf.split_off(4);
    buf.clear();
    buf.append(&mut tail);
    proof {
        assert(buf@ =~= old(buf)@.skip(4 + len as int));
    }
    payload
}

/// A framed plaintext payload comes back out whole: the reader accepts
/// exactly the frame the writer made, consuming exactly its bytes.
#[verifier::rlimit(100)]
pub proof fn lemma_frame_roundtrip(payload: Seq<u8>, rest: Seq<u8>, encrypted: bool)
    requires
        payload.len() <= LEN_MASK,
    ensures
        ({
            let buf = frame_enc(payload, encrypted) + rest;
            &&& !encrypted ==> frame_step_model(buf, false) == (FrameStep::Plain {
                len: payload.len() as usize,
            })
            &&& !encrypted ==> frame_step_model(buf, true) == FrameStep::RejectPlain
            &&& encrypted ==> frame_step_model(buf, true) == (FrameStep::Encrypted {
                len: payload.len() as usize,
            })
            &&& buf.subrange(4, 4 + payload.len() as int) == payload
        }),
{
    let w = header_word(payload.len() as u32, encrypted);
    let buf = frame_enc(payload, encrypted) + rest;
    crate::pack::lemma_be4_roundtrip(w);
    assert(buf[0] == be4(w)[0]);
    assert(buf[1] == be4(w)[1]);
    assert(buf[2] == be4(w)[2]);
    assert(buf[3] == be4(w)[3]);
    let ln = payload.len() as u32;
    assert(ln <= LEN_MASK ==> ((ln | 0x8000_0000u32) & 0x7FFF_FFFFu32 == ln && (ln
        | 0x8000_0000u32) > 0x7FFF_FFFFu32 && ln & 0x7FFF_FFFFu32 == ln))
        by (bit_vector);
    assert(buf.subrange(4, 4 + payload.len() as int) =~= payload);
}

/// The outbound side of a channel: completed segments awaiting the
/// flusher, and the segment still being filled. A segment never exceeds
/// [`MAX_BATCH`] bytes.
pub struct WriteBuffer {
    /// closed segments, oldest first
    pub segments: Vec<Vec<u8>>,
    /// the segment still accepting messages
    pub cur: Vec<u8>,
}

impl WriteBuffer {
    /// Every segment, closed or open, fits the batch bound, and no closed
    /// segment is empty.
    pub open spec fn wf(self) -> bool {
        &&& forall|i: int| 0 <= i < self.segments@.len() ==> 0 < (
        #[trigger] self.segments@[i])@.len() <= MAX_BATCH
        &&& self.cur@.len() <= MAX_BATCH
    }

    /// Every byte queued so far, in order: the closed segments then the
    /// open one.
    pub open spec fn queued(self) -> Seq<u8>
        decreases self.segments@.len(),
    {
        Self::segs_bytes(self.segments@.map_values(|v: Vec<u8>| v@)) + self.cur@
    }

    pub open spec fn segs_bytes(segs: Seq<Seq<u8>>) -> Seq<u8>
        decreases segs.len(),
    {
        if segs.len() == 0 {
            Seq::empty()
        } else {
            segs[0] + Self::segs_bytes(segs.skip(1))
        }
    }

    pub fn new() -> (r: WriteBuffer)
        ensures
            r.wf(),
            r.queued() == Seq::<u8>::empty(),
            r.segments@.len() == 0,
            r.cur@.len() == 0,
    {
        let r = WriteBuffer { segments: Vec::new(), cur: Vec::new() };
        proof {
            assert(r.queued() =~= Seq::<u8>::empty());
        }
        r
    }

    /// Queue one message: encode it at the end of the open segment,
    /// closing that segment first where the message would push it past
    /// [`MAX_BATCH`]. An oversize message fails without changing the
    /// buffer.
    pub fn queue_send(&mut self, msg: &Value) -> (r: Result<(), ()>)
        requires
            old(self).wf(),
        ensures
            final(self).wf(),
            r is Ok ==> spec_encode_value(msg@).len() <= MAX_BATCH && final(self).queued()
                == old(self).queued() + spec_encode_value(msg@),
            r is Err ==> spec_encode_value(msg@).len() > MAX_BATCH && *final(self)
                == *old(self),
    {
        let el = match msg.encoded_len() {
            Some(l) => l,
            None => {
                return Err(());
            }
        };
        if el > MAX_BATCH {
            return Err(());
        }
        if self.cur.len() + el > MAX_BATCH {
            let mut closed: Vec<u8> = Vec::new();
            core::mem::swap(&mut closed, &mut self.cur);
            let ghost segs0 = self.segments@;
            self.segments.push(closed);
            proof {
                lemma_segs_bytes_push(
                    segs0.map_values(|v: Vec<u8>| v@),
                    closed@,
                );
                assert(self.segments@.map_values(|v: Vec<u8>| v@) =~= segs0.map_values(
                    |v: Vec<u8>| v@,
                ).push(closed@));
            }
        }
        let ghost mid = *self;
        msg.encode(&mut self.cur);
        proof {
            assert(self.queued() =~= old(self).queued() + spec_encode_value(msg@));
        }
        Ok(())
    }

    /// Drop everything queued and not yet handed to the flusher.
    pub fn clear(&mut self)
        ensures
            final(self).wf(),
            final(self).queued() == Seq::<u8>::empty(),
    {
        self.segments.clear();
        self.cur.clear();
        proof {
            assert(self.queued() =~= Seq::<u8>::empty());
        }
    }

    /// How many bytes are queued in all.
    pub fn bytes_queued(&self) -> (r: u128)
        requires
            self.wf(),
        ensures
            r == self.queued().len(),
    {
        let mut total: u128 = 0;
        let mut i: usize = 0;
        let n = self.segments.len();
        proof {
            assert(self.segments@.map_values(|v: Vec<u8>| v@).take(0) =~= Seq::<
                Seq<u8>,
            >::empty());
        }
        while i < n
            invariant
                0 <= i <= n,
                n == self.segments@.len(),
                self.wf(),
                total == Self::segs_bytes(
                    self.segments@.map_values(|v: Vec<u8>| v@).take(i as int),
                ).len(),
                total <= i * (MAX_BATCH as u128),
            decreases n - i,
        {
            proof {
                lemma_segs_bytes_take(
                    self.segments@.map_values(|v: Vec<u8>| v@),
                    i as int,
                );
                assert(self.segments@.map_values(|v: Vec<u8>| v@)[i as int]
                    == self.segments@[i as int]@);
                assert(self.segments@[i as int]@.len() <= MAX_BATCH);
                assert((i + 1) * (MAX_BATCH as u128) == i * (MAX_BATCH as u128) + (
                MAX_BATCH as u128)) by (nonlinear_arith);
            }
            total = total + self.segments[i].len() as u128;
            i += 1;
        }
        proof {
            assert(self.segments@.map_values(|v: Vec<u8>| v@).take(n as int)
                =~= self.segments@.map_values(|v: Vec<u8>| v@));
            assert(total <= n * (MAX_BATCH as u128));
            assert(n * (MAX_BATCH as u128) <= 0xFFFF_FFFF_FFFF_FFFFu128
                * 0x3FFF_FFFFu128) by (nonlinear_arith)
                requires
                    n <= 0xFFFF_FFFF_FFFF_FFFFu128,
            ;
        }
        total + self.cur.len() as u128
    }

    /// Hand out the oldest complete segment; where none is closed, the
    /// open one; where nothing is queued, nothing.
    pub fn take_segment(&mut self) -> (r: Option<Vec<u8>>)
        requires
            old(self).wf(),
        ensures
            final(self).wf(),
            r matches Some(seg) ==> seg@.len() > 0 && old(self).queued() == seg@
                + final(self).queued(),
            r is None ==> old(self).queued().len() == 0 && *final(self) == *old(self),
    {
        if self.segments.len() > 0 {
            let seg = self.segments.remove(0);
            proof {
                assert(self.segments@.map_values(|v: Vec<u8>| v@) =~= old(
                    self,
                ).segments@.map_values(|v: Vec<u8>| v@).skip(1));
            }
            Some(seg)
        } else if self.cur.len() > 0 {
            let mut seg: Vec<u8> = Vec::new();
            core::mem::swap(&mut seg, &mut self.cur);
            proof {
                assert(old(self).queued() =~= seg@ + self.queued());
            }
            Some(seg)
        } else {
            proof {
                assert(self.queued() =~= Seq::<u8>::empty());
            }
            None
        }
    }
}

proof fn lemma_segs_bytes_push(segs: Seq<Seq<u8>>, last: Seq<u8>)
    ensures
        WriteBuffer::segs_bytes(segs.push(last)) == WriteBuffer::segs_bytes(segs) + last,
    decreases segs.len(),
{
    if segs.len() == 0 {
        assert(segs.push(last)[0] == last);
        assert(segs.push(last).skip(1) =~= Seq::<Seq<u8>>::empty());
        assert(WriteBuffer::segs_bytes(Seq::<Seq<u8>>::empty()) == Seq::<u8>::empty());
        assert(WriteBuffer::segs_bytes(segs.push(last)) == last + Seq::<u8>::empty());
        assert(last + Seq::<u8>::empty() =~= last);
        assert(WriteBuffer::segs_bytes(segs) + last =~= last);
    } else {
        lemma_segs_bytes_push(segs.skip(1), last);
        assert(segs.push(last).skip(1) =~= segs.skip(1).push(last));
        assert(segs.push(last)[0] == segs[0]);
        assert(WriteBuffer::segs_bytes(segs.push(last)) == segs[0]
            + WriteBuffer::segs_bytes(segs.skip(1).push(last)));
        assert(WriteBuffer::segs_bytes(segs.push(last)) =~= WriteBuffer::segs_bytes(segs)
            + last);
    }
}

proof fn lemma_segs_bytes_take(segs: Seq<Seq<u8>>, i: int)
    requires
        0 <= i < segs.len(),
    ensures
        WriteBuffer::segs_bytes(segs.take(i + 1)).len() == WriteBuffer::segs_bytes(
            segs.take(i),
        ).len() + segs[i].len(),
{
    assert(segs.take(i + 1) =~= segs.take(i).push(segs[i]));
    lemma_segs_bytes_push(segs.take(i), segs[i]);
}

/// Why a batch fails to decode or queue.
pub type ChannelError = PackError;

/// Every message packed back to back in one frame, decoded in order until
/// the frame is exhausted.
pub open spec fn decode_all(s: Seq<u8>) -> Result<Seq<ValueModel>, PackError>
    decreases s.len() via decode_all_decreases
{
    if s.len() == 0 {
        Ok(Seq::empty())
    } else {
        match spec_decode_value(s) {
            Err(e) => Err(e),
            Ok((m, k)) => match decode_all(s.skip(k as int)) {
                Err(e) => Err(e),
                Ok(rest) => Ok(seq![m] + rest),
            },
        }
    }
}

#[via_fn]
proof fn decode_all_decreases(s: Seq<u8>) {
    if s.len() > 0 {
        lemma_decode_consumes(s);
    }
}

/// A successful decode always consumes at least one byte and never more
/// than the buffer.
proof fn lemma_decode_consumes(s: Seq<u8>)
    ensures
        spec_decode_value(s) matches Ok(p) ==> 1 <= p.1 <= s.len(),
{
    if s.len() > 0 {
        crate::pack::lemma_varint_dec_len(s.skip(1), 10);
    }
}

/// Decode a whole frame's worth of messages, in order.
pub fn decode_batch(frame: &[u8]) -> (r: Result<Vec<Value>, PackError>)
    ensures
        r matches Ok(vs) ==> decode_all(frame@) == Ok::<Seq<ValueModel>, PackError>(
            vs@.map_values(|v: Value| v@),
        ),
        r matches Err(e) ==> decode_all(frame@) == Err::<Seq<ValueModel>, PackError>(e),
{
    let n = frame.len();
    let mut out: Vec<Value> = Vec::new();
    let mut pos: usize = 0;
    proof {
        assert(frame@.skip(0) =~= frame@);
        assert(out@.map_values(|v: Value| v@) =~= Seq::<ValueModel>::empty());
        if let Ok(t) = decode_all(frame@) {
            assert(Seq::<ValueModel>::empty() + t =~= t);
        }
    }
    while pos < n
        invariant
            0 <= pos <= n,
            n == frame@.len(),
            decode_all(frame@) == (match decode_all(frame@.skip(pos as int)) {
                Ok(tail) => Ok::<Seq<ValueModel>, PackError>(
                    out@.map_values(|v: Value| v@) + tail,
                ),
                Err(e) => Err::<Seq<ValueModel>, PackError>(e),
            }),
        decreases n - pos,
    {
        let ghost suffix = frame@.skip(pos as int);
        match Value::decode(frame, pos) {
            Err(e) => {
                return Err(e);
            }
            Ok((v, np)) => {
                proof {
                    lemma_decode_consumes(suffix);
                    assert(suffix.skip((np - pos) as int) =~= frame@.skip(np as int));
                }
                let ghost done0 = out@.map_values(|w: Value| w@);
                out.push(v);
                proof {
                    assert(out@.map_values(|w: Value| w@) =~= done0.push(v@));
                    if let Ok(tail) = decode_all(frame@.skip(np as int)) {
                        assert(decode_all(suffix) == Ok::<Seq<ValueModel>, PackError>(
                            seq![v@] + tail,
                        ));
                        assert(done0 + (seq![v@] + tail) =~= done0.push(v@) + tail);
                    }
                }
                pos = np;
            }
        }
    }
    proof {
        assert(frame@.skip(n as int) =~= Seq::<u8>::empty());
        assert(decode_all(frame@.skip(n as int)) == Ok::<Seq<ValueModel>, PackError>(
            Seq::empty(),
        ));
        assert(out@.map_values(|v: Value| v@) + Seq::<ValueModel>::empty()
            =~= out@.map_values(|v: Value| v@));
    }
    Ok(out)
}

} // verus!
