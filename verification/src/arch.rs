//! What the processor expects to find on a stack before a task first runs.
//!
//! A task is started by "returning" into it: the context switch pops a frame
//! of saved registers off the task's stack. This module lays out that first
//! frame for the supported processors and plants the overflow sentinel.
//!
//! A stack is a vector of machine words, lowest address first. Positions
//! inside a stack, the stack pointer among them, are word offsets from the
//! stack's base.

use vstd::prelude::*;

verus! {

/// The sentinel kept in the lowest word of every stack. Stacks grow
/// downwards, so a task that overruns its stack overwrites it.
pub const STACK_CANARY: usize = 0xC0DE5AFE;

/// The program status word a task starts with on ARM: only the Thumb bit.
pub const INIT_XPSR: usize = 0x01000000;

/// The processors whose initial frame is known.
#[derive(Clone, Copy, PartialEq, Eq, Structural, Debug)]
pub enum Arch {
    Arm,
    Riscv32,
}

/// How many words the initial frame takes.
pub open spec fn frame_words(arch: Arch) -> nat {
    match arch {
        Arch::Arm => 16,
        Arch::Riscv32 => 32,
    }
}

/// The initial frame, lowest address first, for a frame that starts at word
/// offset `sp`.
///
/// ARM: thirteen general registers, each holding the parameter; the link
/// register, which sends a task that returns to `idle`; the program counter,
/// which is the entry point; and the status word.
///
/// RISC-V: the entry point in the slot of the exception program counter;
/// all registers zero except the first argument register, which holds the
/// parameter, the stack pointer, which holds `sp`, and the return address,
/// which is `idle`.
pub open spec fn initial_frame(arch: Arch, entry: usize, param: usize, idle: usize, sp: usize) -> Seq<
    usize,
> {
    match arch {
        Arch::Arm => Seq::new(
            16,
            |i: int|
                if i < 13 {
                    param
                } else if i == 13 {
                    idle
                } else if i == 14 {
                    entry
                } else {
                    INIT_XPSR
                },
        ),
        Arch::Riscv32 => Seq::new(
            32,
            |i: int|
                if i == 0 {
                    entry
                } else if i == 22 {
                    param
                } else if i == 30 {
                    sp
                } else if i == 31 {
                    idle
                } else {
                    0usize
                },
        ),
    }
}

/// How many words the initial frame takes.
pub fn frame_len(arch: Arch) -> (words: usize)
    ensures
        words == frame_words(arch),
{
    match arch {
        Arch::Arm => 16,
        Arch::Riscv32 => 32,
    }
}

/// Plants the sentinel in the lowest word of the stack and returns where it
/// was put.
pub fn set_canary(stack: &mut Vec<usize>) -> (canary: usize)
    requires
        old(stack).len() > 0,
    ensures
        canary == 0,
        final(stack)@ == old(stack)@.update(0, STACK_CANARY),
{
    stack[0] = STACK_CANARY;
    0
}

/// Writes the initial frame into the top of the stack and returns the stack
/// pointer to resume from. Everything below the frame is left as it was.
pub fn set_initial_stack(
    arch: Arch,
    stack: &mut Vec<usize>,
    entry_point: usize,
    param: usize,
    idle: usize,
) -> (sp: usize)
    requires
        old(stack).len() >= frame_words(arch),
    ensures
        sp == old(stack).len() - frame_words(arch),
        final(stack)@ == old(stack)@.subrange(0, sp as int) + initial_frame(
            arch,
            entry_point,
            param,
            idle,
            sp,
        ),
{
    let top: usize = stack.len();
    let words: usize = frame_len(arch);
    let sp: usize = top - words;
    let ghost before = stack@;
    let mut i: usize = 0;
    while i < words
        invariant
            words == frame_words(arch),
            top == stack.len(),
            sp + words == top,
            i <= words,
            stack@.subrange(0, sp as int) == before.subrange(0, sp as int),
            forall|j: int|
                0 <= j < i ==> stack@[sp + j] == initial_frame(arch, entry_point, param, idle, sp)[j],
        decreases words - i,
    {
        let word: usize = match arch {
            Arch::Arm => if i < 13 {
                param
            } else if i == 13 {
                idle
            } else if i == 14 {
                entry_point
            } else {
                INIT_XPSR
            },
            Arch::Riscv32 => if i == 0 {
                entry_point
            } else if i == 22 {
                param
            } else if i == 30 {
                sp
            } else if i == 31 {
                idle
            } else {
                0
            },
        };
        let ghost prev = stack@;
        stack[sp + i] = word;
        assert(stack@.subrange(0, sp as int) =~= prev.subrange(0, sp as int));
        i += 1;
    }
    assert(stack@ =~= before.subrange(0, sp as int) + initial_frame(
        arch,
        entry_point,
        param,
        idle,
        sp,
    ));
    sp
}

} // verus!
