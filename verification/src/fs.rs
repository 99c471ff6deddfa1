//! The console input stream: a byte buffer filled from keyboard
//! interrupts, with a condition variable that parks readers while the
//! buffer is empty.

use std::collections::VecDeque;
use vstd::prelude::*;
use crate::kernel::condvar::Condvar;
use crate::process::processor::Processor;

verus! {

/// Console input: bytes arrive from the external-interrupt path and are
/// consumed by the read syscall.
pub struct Stdin {
    pub buffer: VecDeque<u8>,
    pub condvar: Condvar,
}

impl Stdin {
    /// The buffered bytes, oldest first.
    pub open spec fn bytes(&self) -> Seq<u8> {
        self.buffer@
    }

    /// An empty input stream.
    pub fn new() -> (r: Self)
        ensures
            r.bytes() == Seq::<u8>::empty(),
            r.condvar.watchers() == Seq::<crate::scheduler::ThreadID>::empty(),
    {
        Stdin { buffer: VecDeque::new(), condvar: Condvar::new() }
    }

    /// Queues one input byte and wakes one thread waiting for input.
    pub fn push(&mut self, c: u8, processor: &mut Processor)
        requires
            old(processor).wf(),
            old(self).condvar.wf_with(old(processor)),
        ensures
            final(processor).wf(),
            final(self).condvar.wf_with(final(processor)),
            final(self).bytes() == old(self).bytes().push(c),
            final(processor).current() == old(processor).current(),
            final(processor).idle() == old(processor).idle(),
            old(self).condvar.watchers().len() == 0 ==> final(self).condvar.watchers() == old(
                self,
            ).condvar.watchers() && *final(processor) == *old(processor),
            old(self).condvar.watchers().len() > 0 ==> {
                &&& final(self).condvar.watchers() == old(self).condvar.watchers().drop_first()
                &&& final(processor).pool() == old(processor).pool().push(
                    old(self).condvar.watchers()[0],
                )
                &&& final(processor).sleeping() == old(processor).sleeping().remove(
                    old(self).condvar.watchers()[0],
                )
            },
    {
        self.buffer.push_back(c);
        self.condvar.notify_one(processor);
    }

    /// Takes up to `len` bytes from the front of the buffer.
    pub fn take_bytes(&mut self, len: usize) -> (r: Vec<u8>)
        ensures
            r@.len() == vstd::math::min(len as int, old(self).bytes().len() as int),
            r@ == old(self).bytes().take(r@.len() as int),
            final(self).bytes() == old(self).bytes().skip(r@.len() as int),
            final(self).condvar == old(self).condvar,
    {
        let mut out: Vec<u8> = Vec::new();
        let mut i: usize = 0;
        while i < len
            invariant
                i <= len,
                out@.len() == i,
                self.condvar == old(self).condvar,
                i <= old(self).bytes().len(),
                out@ == old(self).bytes().take(i as int),
                self.bytes() == old(self).bytes().skip(i as int),
            decreases len - i,
        {
            match self.buffer.pop_front() {
                Some(b) => {
                    out.push(b);
                    proof {
                        assert(out@ =~= old(self).bytes().take(i + 1));
                        assert(self.bytes() =~= old(self).bytes().skip(i + 1));
                    }
                },
                None => {
                    proof {
                        assert(old(self).bytes().len() == i);
                    }
                    return out;
                },
            }
            i = i + 1;
        }
        out
    }

    /// How many bytes wait in the buffer.
    pub fn buffered(&self) -> (r: usize)
        ensures
            r == self.bytes().len(),
    {
        self.buffer.len()
    }
}

} // verus!
