//! Properties of the machine's semantics, proved over the abstract state that
//! `Machine::step`, `Machine::allocate`, `Machine::abandon` and
//! `Machine::supply_input` are specified against.
use vstd::prelude::*;

use crate::error::Error;
use crate::instruction::lemma_decoded_fields;
use crate::semantics::{cond_move, word_modulus, MachineView, Step};

verus! {

/// A step that succeeds fetched its instruction from inside array 0: the
/// program counter lies below the length of array 0 just before decoding.
pub proof fn lemma_fetch_in_bounds(s: MachineView)
    requires
        s.wf(),
    ensures
        s.next().1 is Ok ==> s.pc < s.program().len(),
        s.pc >= s.program().len() ==> s.next().1 == Err::<Step, Error>(
            Error::OutOfBounds {
                pc: s.pc,
                array: 0,
                offset: s.pc,
                len: s.program().len() as u32,
            },
        ),
{
}

/// Every word of a freshly allocated array reads as 0.
pub proof fn lemma_allocation_zeroed(s: MachineView, cap: u32, offset: u32)
    requires
        s.wf(),
        s.allocate(cap) is Ok,
        offset < cap,
    ensures
        ({
            let (t, id) = s.allocate(cap)->Ok_0;
            t.read(id, offset) == Ok::<u32, Error>(0u32)
        }),
{
    s.lemma_allocate_wf(cap);
}

/// After an abandonment, reads and writes through the abandoned identifier
/// fail with `InactiveArray`.
pub proof fn lemma_abandoned_inactive(s: MachineView, id: u32, offset: u32, val: u32)
    requires
        s.wf(),
        s.abandon(id) is Ok,
    ensures
        ({
            let t = s.abandon(id)->Ok_0;
            &&& t.read(id, offset) == Err::<u32, Error>(Error::InactiveArray { pc: t.pc, array: id })
            &&& t.write(id, offset, val) == Err::<MachineView, Error>(
                Error::InactiveArray { pc: t.pc, array: id },
            )
        }),
{
}

/// An inactive identifier stays inactive across a step, unless that step is
/// an allocation that hands out this very identifier.
pub proof fn lemma_inactive_until_reissued(s: MachineView, id: u32)
    requires
        s.wf(),
        !s.active(id),
    ensures
        s.next().0.active(id) ==> s.pc < s.program().len() && s.current().op == 8
            && s.next().0.reg(s.current().b) == id,
{
    if s.pc < s.program().len() {
        lemma_decoded_fields(s.program()[s.pc as int]);
    }
    if s.pc < s.program().len() && s.current().op == 8 {
        if s.allocate(s.reg(s.current().c)) is Ok {
            s.lemma_allocate_wf(s.reg(s.current().c));
        }
    }
}

/// An awaited input leaves every array as it was.
pub proof fn lemma_receive_keeps_arrays(s: MachineView, byte: Option<u8>)
    ensures
        s.receive(byte).arrays == s.arrays,
{
}

/// Addition, multiplication and not-and give the exact results modulo 2^32.
pub proof fn lemma_arithmetic(s: MachineView)
    requires
        s.wf(),
        s.pc < s.program().len(),
    ensures
        ({
            let i = s.current();
            let t = s.next().0;
            &&& i.op == 3 ==> t.reg(i.a) as int == (s.reg(i.b) as int + s.reg(i.c) as int)
                % word_modulus()
            &&& i.op == 4 ==> t.reg(i.a) as int == (s.reg(i.b) as int * s.reg(i.c) as int)
                % word_modulus()
            &&& i.op == 6 ==> t.reg(i.a) == !(s.reg(i.b) & s.reg(i.c))
            &&& (i.op == 3 || i.op == 4 || i.op == 6) ==> s.next().1 == Ok::<Step, Error>(
                Step::Ran,
            )
        }),
{
    lemma_decoded_fields(s.program()[s.pc as int]);
}

/// Division by a nonzero register gives the unsigned quotient; by zero it
/// fails with `DivisionByZero` and leaves the target register alone.
pub proof fn lemma_division(s: MachineView)
    requires
        s.wf(),
        s.pc < s.program().len(),
        s.current().op == 5,
    ensures
        ({
            let i = s.current();
            let (t, r) = s.next();
            &&& s.reg(i.c) != 0 ==> r == Ok::<Step, Error>(Step::Ran) && t.reg(i.a) == s.reg(i.b)
                / s.reg(i.c)
            &&& s.reg(i.c) == 0 ==> r == Err::<Step, Error>(Error::DivisionByZero { pc: s.pc })
                && t.reg(i.a) == s.reg(i.a)
        }),
{
    lemma_decoded_fields(s.program()[s.pc as int]);
}

/// Loading array 0 changes only the program counter: array 0 stays as it was.
pub proof fn lemma_self_load_keeps_program(s: MachineView)
    requires
        s.wf(),
        s.pc < s.program().len(),
        s.current().op == 12,
        s.reg(s.current().b) == 0,
    ensures
        s.next().0.program() == s.program(),
        s.next().1 is Ok ==> s.next().0.pc == s.reg(s.current().c),
{
}

/// Loading array `k` != 0 makes array 0 a copy of the contents array `k` had,
/// and leaves array `k` as it was.
pub proof fn lemma_load_copies(s: MachineView)
    requires
        s.wf(),
        s.pc < s.program().len(),
        s.current().op == 12,
        s.reg(s.current().b) != 0,
    ensures
        ({
            let k = s.reg(s.current().b);
            let (t, r) = s.next();
            &&& r is Ok <==> s.active(k)
            &&& r is Ok ==> t.program() == s.contents(k) && t.contents(k) == s.contents(k) && t.pc
                == s.reg(s.current().c)
        }),
{
}

/// End of input stores all ones in the input register.
pub proof fn lemma_end_of_input(s: MachineView)
    requires
        s.wf(),
        s.awaiting_input(),
    ensures
        s.receive(None).reg(s.current().c) == 0xFFFF_FFFFu32,
{
    lemma_decoded_fields(s.program()[s.pc as int]);
}

/// A conditional move done twice with the same registers leaves the same
/// registers as doing it once.
pub proof fn lemma_cond_move_idempotent(regs: Seq<u32>, a: u32, b: u32, c: u32)
    requires
        regs.len() == 8,
        a < 8,
        b < 8,
        c < 8,
    ensures
        cond_move(cond_move(regs, a, b, c), a, b, c) == cond_move(regs, a, b, c),
{
    let once = cond_move(regs, a, b, c);
    if regs[c as int] != 0 {
        assert(cond_move(once, a, b, c) =~= once);
    }
}

/// A byte read by an input instruction and then written out by an output
/// instruction on the same register comes out unchanged, whether it came from
/// the input source or from the pending queue.
pub proof fn lemma_input_then_output(s: MachineView, x: u8)
    requires
        s.wf(),
        s.pc < s.program().len(),
        s.current().op == 11,
        s.input.len() == 0 || s.input[0] == x as u32,
    ensures
        ({
            let t = if s.input.len() == 0 {
                s.receive(Some(x))
            } else {
                s.next().0
            };
            t.pc < t.program().len() && t.current().op == 10 && t.current().c == s.current().c
                ==> t.next().1 == Ok::<Step, Error>(Step::Output(x))
        }),
{
    lemma_decoded_fields(s.program()[s.pc as int]);
}

} // verus!
