//! An in-memory reader fed by a sender, one buffer at a time: the sender
//! waits until the previous buffer was read whole, and the reader sees the
//! end (or a reset) once the sender is gone.
use vstd::prelude::*;

verus! {

/// Whether the sending side is still there.
#[derive(Debug, Clone, Copy, PartialEq, Eq, Structural)]
pub enum ChanReadState {
    Live,
    /// the sender is gone: after the buffered bytes, the reader sees the end
    Eof,
    /// the sender reset the channel: after the buffered bytes, reads fail
    Reset,
}

/// What a read gives.
#[derive(Debug, Clone, PartialEq, Eq)]
pub enum ChanReadStep {
    /// these bytes
    Data(Vec<u8>),
    /// nothing yet: wait for the sender
    Wait,
    /// the end
    Eof,
    /// the connection was reset
    Reset,
}

/// The state shared by the two sides.
pub struct ChanReadGuarded {
    pub state: ChanReadState,
    pub pos: usize,
    pub buf: Vec<u8>,
}

impl ChanReadGuarded {
    pub open spec fn wf(&self) -> bool {
        self.pos <= self.buf@.len()
    }

    /// The bytes not read yet.
    pub open spec fn remaining(&self) -> Seq<u8> {
        self.buf@.subrange(self.pos as int, self.buf@.len() as int)
    }

    /// A live channel with nothing in it.
    pub fn new() -> (r: ChanReadGuarded)
        ensures
            r.wf(),
            r.state == ChanReadState::Live,
            r.remaining().len() == 0,
    {
        ChanReadGuarded { state: ChanReadState::Live, pos: 0, buf: Vec::new() }
    }

    /// Offers the next buffer: taken when the previous one was read whole,
    /// handed back (to offer again later) otherwise.
    pub fn try_send(&mut self, next: Vec<u8>) -> (r: Result<(), Vec<u8>>)
        requires
            old(self).wf(),
            old(self).state == ChanReadState::Live,
        ensures
            final(self).wf(),
            final(self).state == ChanReadState::Live,
            old(self).remaining().len() == 0 ==> r is Ok && final(self).remaining() == next@,
            old(self).remaining().len() > 0 ==> r == Err::<(), Vec<u8>>(next)
                && final(self).remaining() == old(self).remaining(),
    {
        if self.pos == self.buf.len() {
            self.pos = 0;
            self.buf = next;
            assert(self.remaining() =~= next@);
            Ok(())
        } else {
            Err(next)
        }
    }

    /// The sender went away: the reader sees the end after the buffered
    /// bytes (unless it was reset).
    pub fn close_sender(&mut self)
        ensures
            final(self).pos == old(self).pos,
            final(self).buf == old(self).buf,
            final(self).state == if old(self).state == ChanReadState::Live {
                ChanReadState::Eof
            } else {
                old(self).state
            },
    {
        if self.state == ChanReadState::Live {
            self.state = ChanReadState::Eof;
        }
    }

    /// The sender resets the channel.
    pub fn reset(&mut self)
        ensures
            final(self).pos == old(self).pos,
            final(self).buf == old(self).buf,
            final(self).state == ChanReadState::Reset,
    {
        self.state = ChanReadState::Reset;
    }

    /// Reads at most `max` bytes: the buffered ones first; with none left,
    /// the end, a reset, or a wait for the sender.
    pub fn try_read(&mut self, max: usize) -> (r: ChanReadStep)
        requires
            old(self).wf(),
        ensures
            final(self).wf(),
            final(self).state == old(self).state,
            ({
                let rem = old(self).remaining();
                let n = if rem.len() < max { rem.len() } else { max as nat };
                if rem.len() > 0 {
                    &&& r matches ChanReadStep::Data(d) && d@ == rem.take(n as int)
                    &&& final(self).remaining() == rem.skip(n as int)
                } else {
                    &&& final(self).remaining() == rem
                    &&& r == match old(self).state {
                        ChanReadState::Live => ChanReadStep::Wait,
                        ChanReadState::Eof => ChanReadStep::Eof,
                        ChanReadState::Reset => ChanReadStep::Reset,
                    }
                }
            }),
    {
        let remain = self.buf.len() - self.pos;
        if remain > 0 {
            let n = if remain < max {
                remain
            } else {
                max
            };
            let mut out: Vec<u8> = Vec::new();
            let mut k: usize = 0;
            while k < n
                invariant
                    k <= n,
                    self.pos + n <= self.buf.len(),
                    out@ == self.buf@.subrange(self.pos as int, self.pos + k),
                decreases n - k,
            {
                out.push(self.buf[self.pos + k]);
                k = k + 1;
                assert(out@ =~= self.buf@.subrange(self.pos as int, self.pos + k));
            }
            let ghost rem = self.remaining();
            assert(out@ =~= rem.take(n as int));
            self.pos = self.pos + n;
            assert(self.remaining() =~= rem.skip(n as int));
            return ChanReadStep::Data(out);
        }
        assert(self.remaining() =~= Seq::<u8>::empty());
        match self.state {
            ChanReadState::Live => ChanReadStep::Wait,
            ChanReadState::Eof => ChanReadStep::Eof,
            ChanReadState::Reset => ChanReadStep::Reset,
        }
    }
}

} // verus!
