//! The double-buffered frame exchange: a producer fills the inactive
//! buffer and raises a dirty flag; the consumer, before each send, swaps
//! the buffers by handle if the flag is up and clears it. The producer
//! never waits — an unconsumed frame is simply overwritten — and the
//! consumer may retransmit the same active frame while the producer is
//! slow.
//!
//! This module is the sequential model of the exchange: the operations
//! below are the atomic steps, and the never-tears lemma shows that no
//! interleaving of them hands the consumer a torn frame. The host binary
//! serialises the steps with its own lock and atomic flag.

use crate::linsn::Pixel;
use crate::panel::FRAME_PIXELS;
use vstd::prelude::*;

verus! {

/// The abstract state of the exchange.
pub struct ExchangeState {
    pub active: Seq<Pixel>,
    pub inactive: Seq<Pixel>,
    pub dirty: bool,
}

/// The atomic steps of the exchange: a producer writing a complete frame
/// into the inactive buffer, the producer raising the dirty flag, the
/// consumer polling (swap and clear if dirty).
pub enum ExchangeOp {
    Write(Seq<Pixel>),
    Mark,
    Poll,
}

/// One step of the exchange.
pub open spec fn step(s: ExchangeState, op: ExchangeOp) -> ExchangeState {
    match op {
        ExchangeOp::Write(frame) => ExchangeState { inactive: frame, ..s },
        ExchangeOp::Mark => ExchangeState { dirty: true, ..s },
        ExchangeOp::Poll => if s.dirty {
            ExchangeState { active: s.inactive, inactive: s.active, dirty: false }
        } else {
            s
        },
    }
}

/// A run of the exchange: the steps applied in order.
pub open spec fn run(s: ExchangeState, ops: Seq<ExchangeOp>) -> ExchangeState
    decreases ops.len(),
{
    if ops.len() == 0 {
        s
    } else {
        run(step(s, ops.first()), ops.drop_first())
    }
}

/// A full frame of one colour.
pub open spec fn uniform(buf: Seq<Pixel>, p: Pixel) -> bool {
    buf.len() == FRAME_PIXELS && forall|i: int| 0 <= i < buf.len() ==> buf[i] == p
}

/// A full frame that is some single colour.
pub open spec fn some_uniform(buf: Seq<Pixel>) -> bool {
    exists|p: Pixel| uniform(buf, p)
}

/// `buf` was handed over by one of the producer writes in `ops`.
pub open spec fn was_written(ops: Seq<ExchangeOp>, buf: Seq<Pixel>) -> bool {
    exists|i: int| 0 <= i < ops.len() && ops[i] == ExchangeOp::Write(buf)
}

/// `buf` is accounted for: one of the two frames the exchange started
/// with, or a frame the producer wrote whole.
pub open spec fn frame_accounted(s0: ExchangeState, ops: Seq<ExchangeOp>, buf: Seq<Pixel>) -> bool {
    buf == s0.active || buf == s0.inactive || was_written(ops, buf)
}

/// The exchange never tears a frame: however producer writes, flag marks
/// and consumer polls interleave, both buffers — in particular the one
/// the consumer reads — always hold an initial frame or a frame the
/// producer published whole, never a mixture of two frames.
pub proof fn lemma_exchange_never_tears(s0: ExchangeState, ops: Seq<ExchangeOp>)
    ensures
        frame_accounted(s0, ops, run(s0, ops).active),
        frame_accounted(s0, ops, run(s0, ops).inactive),
    decreases ops.len(),
{
    if ops.len() > 0 {
        let op = ops.first();
        let rest = ops.drop_first();
        let s1 = step(s0, op);
        lemma_exchange_never_tears(s1, rest);
        let fin = run(s0, ops);
        assert(fin == run(s1, rest));
        // anything written in the remaining steps was written in `ops` too,
        // and the buffers of the intermediate state are themselves
        // accounted for in `ops`
        assert forall|buf: Seq<Pixel>| frame_accounted(s1, rest, buf) implies frame_accounted(
            s0,
            ops,
            buf,
        ) by {
            if buf == s1.active || buf == s1.inactive {
                match op {
                    ExchangeOp::Write(frame) => {
                        if buf == frame {
                            assert(ops[0] == ExchangeOp::Write(buf));
                        }
                    },
                    ExchangeOp::Mark => {},
                    ExchangeOp::Poll => {},
                }
            } else {
                let i = choose|i: int|
                    0 <= i < rest.len() && rest[i] == ExchangeOp::Write(buf);
                assert(ops[i + 1] == ExchangeOp::Write(buf));
            }
        }
    }
}

/// A corollary in colours: if both buffers start out one-colour frames and
/// every producer write is a one-colour frame, the consumer only ever sees
/// one-colour frames.
pub proof fn lemma_uniform_frames_stay_uniform(s0: ExchangeState, ops: Seq<ExchangeOp>)
    requires
        some_uniform(s0.active),
        some_uniform(s0.inactive),
        forall|i: int|
            0 <= i < ops.len() ==> match #[trigger] ops[i] {
                ExchangeOp::Write(frame) => some_uniform(frame),
                ExchangeOp::Mark => true,
                ExchangeOp::Poll => true,
            },
    ensures
        some_uniform(run(s0, ops).active),
        some_uniform(run(s0, ops).inactive),
{
    lemma_exchange_never_tears(s0, ops);
    let fin = run(s0, ops);
    if was_written(ops, fin.active) {
        let i = choose|i: int| 0 <= i < ops.len() && ops[i] == ExchangeOp::Write(fin.active);
        assert(match ops[i] {
            ExchangeOp::Write(frame) => some_uniform(frame),
            ExchangeOp::Mark => true,
            ExchangeOp::Poll => true,
        });
    }
    if was_written(ops, fin.inactive) {
        let i = choose|i: int| 0 <= i < ops.len() && ops[i] == ExchangeOp::Write(fin.inactive);
        assert(match ops[i] {
            ExchangeOp::Write(frame) => some_uniform(frame),
            ExchangeOp::Mark => true,
            ExchangeOp::Poll => true,
        });
    }
}

/// The exchange itself: two owned full-frame buffers and the dirty flag.
#[derive(Debug)]
pub struct FrameExchange {
    pub active: Vec<Pixel>,
    pub inactive: Vec<Pixel>,
    pub dirty: bool,
}

impl FrameExchange {
    /// Both buffers hold a full frame.
    pub open spec fn wf(self) -> bool {
        self.active@.len() == FRAME_PIXELS && self.inactive@.len() == FRAME_PIXELS
    }

    /// The abstract state.
    pub open spec fn view_state(self) -> ExchangeState {
        ExchangeState { active: self.active@, inactive: self.inactive@, dirty: self.dirty }
    }

    /// A fresh exchange: two black frames, flag down.
    pub fn new() -> (ex: FrameExchange)
        ensures
            ex.wf(),
            !ex.dirty,
            forall|i: int| 0 <= i < FRAME_PIXELS ==> ex.active@[i] == (Pixel { r: 0, g: 0, b: 0 }),
            forall|i: int|
                0 <= i < FRAME_PIXELS ==> ex.inactive@[i] == (Pixel { r: 0, g: 0, b: 0 }),
    {
        FrameExchange {
            active: black_frame(),
            inactive: black_frame(),
            dirty: false,
        }
    }

    /// A producer step: copy a complete frame into the inactive buffer.
    /// The active buffer — whatever the consumer is sending — is
    /// untouched, and an unconsumed previous frame is overwritten without
    /// waiting.
    pub fn load_inactive(&mut self, frame: &Vec<Pixel>)
        requires
            old(self).wf(),
            frame@.len() == FRAME_PIXELS,
        ensures
            final(self).wf(),
            final(self).view_state() == step(old(self).view_state(), ExchangeOp::Write(frame@)),
    {
        let n = frame.len();
        for k in 0..n
            invariant
                n == FRAME_PIXELS,
                n == frame@.len(),
                self.inactive@.len() == FRAME_PIXELS,
                self.active@ == old(self).active@,
                self.dirty == old(self).dirty,
                forall|i: int| 0 <= i < k as int ==> self.inactive@[i] == frame@[i],
        {
            self.inactive[k] = frame[k];
        }
        proof {
            assert(self.inactive@ =~= frame@);
        }
    }

    /// A producer step: paint the whole inactive buffer one colour.
    pub fn fill_inactive(&mut self, p: Pixel)
        requires
            old(self).wf(),
        ensures
            final(self).wf(),
            final(self).view_state() == step(
                old(self).view_state(),
                ExchangeOp::Write(Seq::new(FRAME_PIXELS as nat, |i: int| p)),
            ),
            uniform(final(self).inactive@, p),
    {
        let n = self.inactive.len();
        for k in 0..n
            invariant
                n == FRAME_PIXELS,
                self.inactive@.len() == n,
                self.active@ == old(self).active@,
                self.dirty == old(self).dirty,
                forall|i: int| 0 <= i < k as int ==> self.inactive@[i] == p,
        {
            self.inactive[k] = p;
        }
        proof {
            assert(self.inactive@ =~= Seq::new(FRAME_PIXELS as nat, |i: int| p));
        }
    }

    /// The producer's publish step: raise the dirty flag once a frame is
    /// complete.
    pub fn set_dirty(&mut self)
        requires
            old(self).wf(),
        ensures
            final(self).wf(),
            final(self).view_state() == step(old(self).view_state(), ExchangeOp::Mark),
    {
        self.dirty = true;
    }

    /// The consumer's step before each send: if a fresh frame is
    /// published, exchange the two handles — no copy — and clear the flag.
    /// Returns whether a swap happened.
    pub fn poll_swap(&mut self) -> (swapped: bool)
        requires
            old(self).wf(),
        ensures
            final(self).wf(),
            swapped == old(self).dirty,
            final(self).view_state() == step(old(self).view_state(), ExchangeOp::Poll),
    {
        if self.dirty {
            core::mem::swap(&mut self.active, &mut self.inactive);
            self.dirty = false;
            true
        } else {
            false
        }
    }

    /// The frame the consumer transmits.
    pub fn active_frame(&self) -> (frame: &Vec<Pixel>)
        ensures
            frame@ == self.active@,
    {
        &self.active
    }
}

/// A full frame of black pixels.
fn black_frame() -> (buf: Vec<Pixel>)
    ensures
        buf@.len() == FRAME_PIXELS,
        forall|i: int| 0 <= i < FRAME_PIXELS ==> buf@[i] == (Pixel { r: 0, g: 0, b: 0 }),
{
    let mut buf: Vec<Pixel> = Vec::new();
    for k in 0..FRAME_PIXELS
        invariant
            buf@.len() == k,
            forall|i: int| 0 <= i < k as int ==> buf@[i] == (Pixel { r: 0, g: 0, b: 0 }),
    {
        buf.push(Pixel { r: 0, g: 0, b: 0 });
    }
    buf
}

} // verus!
