//! The register snapshot saved at a trap and restored to resume a thread:
//! the 32 general-purpose registers, the supervisor status bits the kernel
//! manages, and the saved program counter.

use vstd::prelude::*;

verus! {

/// The supervisor status bits the kernel reads and writes when it builds
/// or hands back a context. The remaining bits of the hardware register
/// stay with the trap entry code.
#[derive(Clone, Copy, Debug, Default, PartialEq, Eq, Structural)]
pub struct Sstatus {
    /// Whether the context resumes in user mode (`SPP` = User).
    pub spp_user: bool,
    /// Whether interrupts are re-enabled on return (`SPIE`).
    pub spie: bool,
}

/// A thread's saved execution state. `x` holds the 32 general-purpose
/// registers; `x[2]` is the stack pointer, `x[1]` the return address and
/// `x[10]`..`x[17]` the first eight argument registers.
#[derive(Debug, PartialEq, Eq)]
pub struct Context {
    pub x: Vec<u64>,
    pub sstatus: Sstatus,
    pub sepc: u64,
}

impl Context {
    /// A context always carries exactly 32 registers.
    pub open spec fn wf(&self) -> bool {
        self.x@.len() == 32
    }

    /// An all-zero context.
    pub fn new_zeroed() -> (r: Self)
        ensures
            r.wf(),
            forall|i: int| 0 <= i < 32 ==> r.x@[i] == 0,
            r.sstatus == (Sstatus { spp_user: false, spie: false }),
            r.sepc == 0,
    {
        let mut x: Vec<u64> = Vec::new();
        let mut i: usize = 0;
        while i < 32
            invariant
                x@.len() == i,
                i <= 32,
                forall|j: int| 0 <= j < i ==> x@[j] == 0,
            decreases 32 - i,
        {
            x.push(0);
            i = i + 1;
        }
        Context { x, sstatus: Sstatus { spp_user: false, spie: false }, sepc: 0 }
    }

    /// An exact copy of this context.
    pub fn duplicate(&self) -> (r: Self)
        requires
            self.wf(),
        ensures
            r.wf(),
            r.x@ == self.x@,
            r.sstatus == self.sstatus,
            r.sepc == self.sepc,
    {
        let mut x: Vec<u64> = Vec::new();
        let mut i: usize = 0;
        while i < 32
            invariant
                self.wf(),
                x@.len() == i,
                i <= 32,
                forall|j: int| 0 <= j < i ==> x@[j] == self.x@[j],
            decreases 32 - i,
        {
            x.push(self.x[i]);
            i = i + 1;
        }
        proof {
            assert(x@ =~= self.x@);
        }
        Context { x, sstatus: self.sstatus, sepc: self.sepc }
    }

    /// The stack pointer.
    pub fn sp(&self) -> (r: u64)
        requires
            self.wf(),
        ensures
            r == self.x@[2],
    {
        self.x[2]
    }

    /// Sets the stack pointer.
    pub fn set_sp(&mut self, value: u64)
        requires
            old(self).wf(),
        ensures
            final(self).wf(),
            final(self).x@ == old(self).x@.update(2, value),
            final(self).sstatus == old(self).sstatus,
            final(self).sepc == old(self).sepc,
    {
        self.x[2] = value;
    }

    /// The return address.
    pub fn ra(&self) -> (r: u64)
        requires
            self.wf(),
        ensures
            r == self.x@[1],
    {
        self.x[1]
    }

    /// Sets the return address.
    pub fn set_ra(&mut self, value: u64)
        requires
            old(self).wf(),
        ensures
            final(self).wf(),
            final(self).x@ == old(self).x@.update(1, value),
            final(self).sstatus == old(self).sstatus,
            final(self).sepc == old(self).sepc,
    {
        self.x[1] = value;
    }

    /// Writes a syscall's return value into `x[10]`, the first argument
    /// register, where the calling convention returns it; negative values
    /// arrive as their two's-complement bit pattern.
    pub fn set_syscall_return(&mut self, value: isize)
        requires
            old(self).wf(),
        ensures
            final(self).wf(),
            final(self).x@ == old(self).x@.update(10, value as u64),
            final(self).sstatus == old(self).sstatus,
            final(self).sepc == old(self).sepc,
    {
        self.x[10] = value as u64;
    }

    /// Writes `arguments` into the argument registers `x[10]` on, per the
    /// calling convention; at most eight fit.
    pub fn set_arguments(&mut self, arguments: &Vec<u64>)
        requires
            old(self).wf(),
            arguments@.len() <= 8,
        ensures
            final(self).wf(),
            forall|i: int|
                0 <= i < arguments@.len() ==> final(self).x@[10 + i] == arguments@[i],
            forall|i: int|
                0 <= i < 32 && !(10 <= i < 10 + arguments@.len()) ==> final(self).x@[i] == old(
                    self,
                ).x@[i],
            final(self).sstatus == old(self).sstatus,
            final(self).sepc == old(self).sepc,
    {
        let n = arguments.len();
        let mut i: usize = 0;
        while i < n
            invariant
                self.wf(),
                n == arguments@.len() <= 8,
                i <= n,
                forall|j: int| 0 <= j < i ==> self.x@[10 + j] == arguments@[j],
                forall|j: int|
                    0 <= j < 32 && !(10 <= j < 10 + i) ==> self.x@[j] == old(self).x@[j],
                self.sstatus == old(self).sstatus,
                self.sepc == old(self).sepc,
            decreases n - i,
        {
            self.x[10 + i] = arguments[i];
            i = i + 1;
        }
    }

    /// Builds a thread's initial context: the stack pointer at the top of
    /// its stack, the program counter at its entry point, the arguments in
    /// place, resuming in user or supervisor mode with interrupts enabled
    /// on return.
    pub fn new(
        stack_top: u64,
        entry_point: u64,
        arguments: Option<&Vec<u64>>,
        is_user: bool,
    ) -> (r: Self)
        requires
            match arguments {
                Some(a) => a@.len() <= 8,
                None => true,
            },
        ensures
            r.wf(),
            r.x@[2] == stack_top,
            r.sepc == entry_point,
            r.sstatus == (Sstatus { spp_user: is_user, spie: true }),
            match arguments {
                Some(a) => {
                    &&& forall|i: int| 0 <= i < a@.len() ==> r.x@[10 + i] == a@[i]
                    &&& forall|i: int|
                        0 <= i < 32 && i != 2 && !(10 <= i < 10 + a@.len()) ==> r.x@[i] == 0
                },
                None => forall|i: int| 0 <= i < 32 && i != 2 ==> r.x@[i] == 0,
            },
    {
        let mut context = Context::new_zeroed();
        context.set_sp(stack_top);
        if let Some(args) = arguments {
            context.set_arguments(args);
        }
        context.sepc = entry_point;
        context.sstatus = Sstatus { spp_user: is_user, spie: true };
        context
    }
}

} // verus!
