//! Dispatch of interrupts and exceptions on RISC-V.
//!
//! The processor reports every trap with a cause: a number whose top bit
//! tells an interrupt from an exception. Each kind has a table of sixteen
//! handlers. This module keeps the tables and decides which handler a trap
//! goes to; jumping there is up to the caller.

use vstd::prelude::*;

verus! {

/// The bit of a cause that marks an interrupt.
pub const INT_MASK: usize = 0x80000000;

/// The cause of the machine timer interrupt.
pub const TIMER_INT: usize = 0x80000007;

/// How many handlers each table has.
pub const HANDLERS: usize = 16;

/// The number of a cause without the interrupt bit.
pub open spec fn cause_of(code: usize) -> usize {
    code & !INT_MASK
}

/// Whether a cause is that of an interrupt.
pub open spec fn is_interrupt(code: usize) -> bool {
    code & INT_MASK == INT_MASK
}

/// What the tables are, for contracts: the handler addresses, by cause.
pub struct InterruptTableView {
    pub interrupts: Seq<usize>,
    pub exceptions: Seq<usize>,
}

/// The handlers of interrupts and of exceptions.
pub struct InterruptTable {
    int_handler: Vec<usize>,
    exc_handler: Vec<usize>,
}

impl View for InterruptTable {
    type V = InterruptTableView;

    closed spec fn view(&self) -> InterruptTableView {
        InterruptTableView { interrupts: self.int_handler@, exceptions: self.exc_handler@ }
    }
}

/// Where a trap goes.
#[derive(Clone, Copy, PartialEq, Eq, Structural, Debug)]
pub struct Dispatch {
    /// The address of the handler to call.
    pub handler: usize,
    /// Whether the trap is the timer interrupt. Its handler forces a context
    /// switch, so the caller rearms the timer before the call and saves the
    /// exception program counter around it.
    pub timer: bool,
}

impl InterruptTable {
    /// Both tables have sixteen entries.
    pub open spec fn wf(&self) -> bool {
        self@.interrupts.len() == HANDLERS && self@.exceptions.len() == HANDLERS
    }

    /// Tables in which every cause goes to `default_handler`.
    pub fn new(default_handler: usize) -> (table: InterruptTable)
        ensures
            table.wf(),
            table@.interrupts == Seq::new(HANDLERS as nat, |i: int| default_handler),
            table@.exceptions == Seq::new(HANDLERS as nat, |i: int| default_handler),
    {
        let table = InterruptTable {
            int_handler: vec![default_handler; HANDLERS],
            exc_handler: vec![default_handler; HANDLERS],
        };
        assert(table@.interrupts =~= Seq::new(HANDLERS as nat, |i: int| default_handler));
        assert(table@.exceptions =~= Seq::new(HANDLERS as nat, |i: int| default_handler));
        table
    }

    /// Registers `int_handler` for the interrupt or exception `irqn`.
    pub fn int_register(&mut self, irqn: usize, int_handler: usize)
        requires
            old(self).wf(),
            cause_of(irqn) < HANDLERS,
        ensures
            final(self).wf(),
            final(self)@ == if is_interrupt(irqn) {
                InterruptTableView {
                    interrupts: old(self)@.interrupts.update(cause_of(irqn) as int, int_handler),
                    ..old(self)@
                }
            } else {
                InterruptTableView {
                    exceptions: old(self)@.exceptions.update(cause_of(irqn) as int, int_handler),
                    ..old(self)@
                }
            },
    {
        let cause: usize = irqn & !INT_MASK;
        if irqn & INT_MASK == INT_MASK {
            self.int_handler[cause] = int_handler;
        } else {
            self.exc_handler[cause] = int_handler;
        }
    }

    /// Decides where the trap with cause `mcause` goes.
    pub fn interrupt_switch(&self, mcause: usize) -> (dispatch: Dispatch)
        requires
            self.wf(),
            cause_of(mcause) < HANDLERS,
        ensures
            dispatch.handler == if is_interrupt(mcause) {
                self@.interrupts[cause_of(mcause) as int]
            } else {
                self@.exceptions[cause_of(mcause) as int]
            },
            dispatch.timer == (mcause == TIMER_INT),
    {
        let cause: usize = mcause & !INT_MASK;
        if mcause & INT_MASK == INT_MASK {
            Dispatch { handler: self.int_handler[cause], timer: mcause == TIMER_INT }
        } else {
            assert(mcause != TIMER_INT) by (bit_vector)
                requires
                    mcause & 0x80000000usize != 0x80000000usize,
            ;
            Dispatch { handler: self.exc_handler[cause], timer: false }
        }
    }

    /// Whether the tables have a handler for the cause `code`.
    pub fn in_range(code: usize) -> (known: bool)
        ensures
            known == (cause_of(code) < HANDLERS),
    {
        (code & !INT_MASK) < HANDLERS
    }
}

} // verus!
