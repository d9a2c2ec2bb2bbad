use vstd::prelude::*;

use std::collections::VecDeque;

use crate::error::Error;
use crate::image::{image_words, words_from_bytes};
use crate::instruction::decode;
use crate::semantics::{cond_move, zeros, MachineView, Step};

verus! {

/// A Universal Machine: program counter, eight registers, a heap of word
/// arrays with a free list of abandoned identifiers, and a queue of pending
/// input.
pub struct Machine {
    pc: u32,
    registers: Vec<u32>,
    arrays: Vec<Option<Vec<u32>>>,
    free_arrays: Vec<(u32, Vec<u32>)>,
    input: VecDeque<u32>,
    spin_check: bool,
}

pub open spec fn slot_view(slot: Option<Vec<u32>>) -> Option<Seq<u32>> {
    match slot {
        Some(a) => Some(a@),
        None => None,
    }
}

impl View for Machine {
    type V = MachineView;

    closed spec fn view(&self) -> MachineView {
        MachineView {
            pc: self.pc,
            regs: self.registers@,
            arrays: self.arrays@.map_values(|s: Option<Vec<u32>>| slot_view(s)),
            free: self.free_arrays@.map_values(|e: (u32, Vec<u32>)| e.0),
            input: self.input@,
            spin_check: self.spin_check,
        }
    }
}

impl Default for Machine {
    fn default() -> (m: Machine)
        ensures
            m.wf(),
            m@.pc == 0,
            m@.regs == Seq::new(8, |i: int| 0u32),
            m@.arrays == seq![Some(Seq::<u32>::empty())],
            m@.free.len() == 0,
            m@.input.len() == 0,
            !m@.spin_check,
    {
        Machine::new()
    }
}

impl Machine {
    pub open spec fn wf(&self) -> bool {
        self@.wf()
    }

    /// A machine with an empty array 0, zeroed registers, the program counter
    /// at 0, no pending input, and self-load spin detection off.
    pub fn new() -> (m: Machine)
        ensures
            m.wf(),
            m@.pc == 0,
            m@.regs == Seq::new(8, |i: int| 0u32),
            m@.arrays == seq![Some(Seq::<u32>::empty())],
            m@.free.len() == 0,
            m@.input.len() == 0,
            !m@.spin_check,
    {
        let mut arrays: Vec<Option<Vec<u32>>> = Vec::new();
        arrays.push(Some(Vec::new()));
        let m = Machine {
            pc: 0,
            registers: vec![0u32, 0, 0, 0, 0, 0, 0, 0],
            arrays,
            free_arrays: Vec::new(),
            input: VecDeque::new(),
            spin_check: false,
        };
        assert(m@.regs =~= Seq::new(8, |i: int| 0u32));
        assert(m@.arrays =~= seq![Some(Seq::<u32>::empty())]);
        m
    }

    /// Turns on or off the `InfiniteLoop` error for a load of array 0 that
    /// jumps to the instruction doing the load.
    pub fn set_spin_check(&mut self, on: bool)
        requires
            old(self).wf(),
        ensures
            final(self).wf(),
            final(self)@ == (MachineView { spin_check: on, ..old(self)@ }),
    {
        self.spin_check = on;
        proof {
            old(self)@.lemma_wf_frame(self@);
        }
    }

    /// Appends code points to the pending input queue.
    pub fn add_input(&mut self, input: &str)
        requires
            old(self).wf(),
        ensures
            final(self).wf(),
            final(self)@ == (MachineView {
                input: old(self)@.input + input@.map_values(|ch: char| ch as u32),
                ..old(self)@
            }),
    {
        let n = input.unicode_len();
        let mut i: usize = 0;
        while i < n
            invariant
                n == input@.len(),
                i <= n,
                old(self).wf(),
                self.wf(),
                self@ == (MachineView {
                    input: old(self)@.input + input@.subrange(0, i as int).map_values(
                        |ch: char| ch as u32,
                    ),
                    ..old(self)@
                }),
            decreases n - i,
        {
            let ch = input.get_char(i);
            self.input.push_back(ch as u32);
            proof {
                assert(input@.subrange(0, i + 1) =~= input@.subrange(0, i as int).push(ch));
            }
            i = i + 1;
            proof {
                old(self)@.lemma_wf_frame(self@);
            }
            assert(self@.input =~= old(self)@.input + input@.subrange(0, i as int).map_values(
                |ch: char| ch as u32,
            ));
        }
        assert(input@.subrange(0, n as int) =~= input@);
    }

    /// Appends a program image, read as big-endian words (a short final group
    /// padded with zero bytes), to array 0.
    pub fn extend_from(&mut self, bytes: &[u8])
        requires
            old(self).wf(),
            old(self)@.program().len() + image_words(bytes@).len() <= u32::MAX,
        ensures
            final(self).wf(),
            final(self)@ == (MachineView {
                arrays: old(self)@.arrays.update(0, Some(old(self)@.program() + image_words(bytes@))),
                ..old(self)@
            }),
    {
        let mut words = words_from_bytes(bytes);
        let slot = self.arrays[0].take();
        assert(slot is Some);
        match slot {
            Some(mut a) => {
                a.append(&mut words);
                self.arrays.set(0, Some(a));
            },
            None => {},
        }
        assert(self@.arrays =~= old(self)@.arrays.update(
            0,
            Some(old(self)@.program() + image_words(bytes@)),
        ));
        assert(forall|id: u32| #[trigger] self@.active(id) && id != 0 ==> old(self)@.active(id));
    }

    /// The word at `offset` in array `array`.
    pub fn read_value(&self, array: u32, offset: u32) -> (r: Result<u32, Error>)
        requires
            self.wf(),
        ensures
            r == self@.read(array, offset),
    {
        let id = array as usize;
        if id >= self.arrays.len() {
            return Err(Error::InactiveArray { pc: self.pc, array });
        }
        match &self.arrays[id] {
            Some(a) => {
                assert(self@.active(array));
                if (offset as usize) < a.len() {
                    Ok(a[offset as usize])
                } else {
                    Err(Error::OutOfBounds { pc: self.pc, array, offset, len: a.len() as u32 })
                }
            },
            None => Err(Error::InactiveArray { pc: self.pc, array }),
        }
    }

    /// Stores `val` at `offset` in array `array`; on an error nothing changes.
    pub fn write_value(&mut self, array: u32, offset: u32, val: u32) -> (r: Result<(), Error>)
        requires
            old(self).wf(),
        ensures
            final(self).wf(),
            match old(self)@.write(array, offset, val) {
                Ok(s) => r is Ok && final(self)@ == s,
                Err(e) => r == Err::<(), Error>(e) && final(self)@ == old(self)@,
            },
    {
        let id = array as usize;
        if id >= self.arrays.len() {
            return Err(Error::InactiveArray { pc: self.pc, array });
        }
        let slot = self.arrays[id].take();
        match slot {
            Some(mut a) => {
                assert(old(self)@.active(array));
                if (offset as usize) < a.len() {
                    a.set(offset as usize, val);
                    self.arrays.set(id, Some(a));
                    assert(self@.arrays =~= old(self)@.write(array, offset, val)->Ok_0.arrays);
                    proof {
                        self.lemma_wf_after_write(old(self)@, array, offset, val);
                    }
                    Ok(())
                } else {
                    let len = a.len() as u32;
                    self.arrays.set(id, Some(a));
                    assert(self@.arrays =~= old(self)@.arrays);
                    Err(Error::OutOfBounds { pc: self.pc, array, offset, len })
                }
            },
            None => {
                self.arrays.set(id, None);
                assert(self@.arrays =~= old(self)@.arrays);
                Err(Error::InactiveArray { pc: self.pc, array })
            },
        }
    }

    proof fn lemma_wf_after_write(&self, s: MachineView, array: u32, offset: u32, val: u32)
        requires
            s.wf(),
            s.write(array, offset, val) is Ok,
            self@ == s.write(array, offset, val)->Ok_0,
        ensures
            self.wf(),
    {
        let t = self@;
        assert forall|id: u32| #[trigger] t.active(id) implies t.contents(id).len() <= u32::MAX by {
            assert(s.active(id));
        }
    }

    /// Creates an all-zero array of `cap` words under the most recently
    /// abandoned identifier, else under a fresh one.
    pub fn allocate(&mut self, cap: u32) -> (r: Result<u32, Error>)
        requires
            old(self).wf(),
        ensures
            final(self).wf(),
            match old(self)@.allocate(cap) {
                Ok((s, id)) => r == Ok::<u32, Error>(id) && final(self)@ == s,
                Err(e) => r == Err::<u32, Error>(e) && final(self)@ == old(self)@,
            },
    {
        proof {
            if old(self)@.allocate(cap) is Ok {
                old(self)@.lemma_allocate_wf(cap);
            }
        }
        match self.free_arrays.pop() {
            Some((id, mut mem)) => {
                zero_fill(&mut mem, cap);
                self.arrays.set(id as usize, Some(mem));
                assert(self@.arrays =~= old(self)@.allocate(cap)->Ok_0.0.arrays);
                assert(self@.free =~= old(self)@.allocate(cap)->Ok_0.0.free);
                Ok(id)
            },
            None => {
                assert(old(self)@.free.len() == 0);
                if (self.arrays.len() as u64) < 0x1_0000_0000u64 {
                    let id = self.arrays.len() as u32;
                    let mut mem: Vec<u32> = Vec::new();
                    zero_fill(&mut mem, cap);
                    self.arrays.push(Some(mem));
                    assert(self@.arrays =~= old(self)@.allocate(cap)->Ok_0.0.arrays);
                    Ok(id)
                } else {
                    Err(Error::OutOfIdentifiers { pc: self.pc })
                }
            },
        }
    }

    /// Releases an active array other than array 0; its identifier goes on
    /// the free list.
    pub fn abandon(&mut self, array: u32) -> (r: Result<(), Error>)
        requires
            old(self).wf(),
        ensures
            final(self).wf(),
            match old(self)@.abandon(array) {
                Ok(s) => r is Ok && final(self)@ == s,
                Err(e) => r == Err::<(), Error>(e) && final(self)@ == old(self)@,
            },
    {
        let id = array as usize;
        if array == 0 || id >= self.arrays.len() {
            return Err(Error::InactiveArray { pc: self.pc, array });
        }
        match self.arrays[id].take() {
            Some(mem) => {
                self.free_arrays.push((array, mem));
                proof {
                    old(self)@.lemma_abandon_wf(array);
                }
                assert(self@.arrays =~= old(self)@.abandon(array)->Ok_0.arrays);
                assert(self@.free =~= old(self)@.abandon(array)->Ok_0.free);
                Ok(())
            },
            None => {
                self.arrays.set(id, None);
                assert(self@.arrays =~= old(self)@.arrays);
                Err(Error::InactiveArray { pc: self.pc, array })
            },
        }
    }

    fn read_reg(&self, r: u32) -> (v: u32)
        requires
            self.wf(),
            r < 8,
        ensures
            v == self@.reg(r),
    {
        self.registers[r as usize]
    }

    fn write_reg(&mut self, r: u32, v: u32)
        requires
            old(self).wf(),
            r < 8,
        ensures
            final(self).wf(),
            final(self)@ == old(self)@.set_reg(r, v),
    {
        self.registers.set(r as usize, v);
        proof {
            old(self)@.lemma_wf_frame(self@);
        }
        assert(self@ == old(self)@.set_reg(r, v));
    }

    fn advance(&mut self)
        requires
            old(self).wf(),
            old(self)@.pc < u32::MAX,
        ensures
            final(self).wf(),
            final(self)@ == old(self)@.advance(),
    {
        self.pc = self.pc + 1;
        proof {
            old(self)@.lemma_wf_frame(self@);
        }
    }

    /// Fetches, decodes and executes the instruction at the program counter.
    /// On an error, and when the input instruction must wait for a byte from
    /// the input source, the machine is left as it was.
    pub fn step(&mut self) -> (r: Result<Step, Error>)
        requires
            old(self).wf(),
        ensures
            final(self).wf(),
            (final(self)@, r) == old(self)@.next(),
    {
        let pc = self.pc;
        let word = match self.read_value(0, pc) {
            Ok(w) => w,
            Err(e) => {
                return Err(e);
            },
        };
        let i = decode(word);
        assert(i == old(self)@.current());
        assert(pc < old(self)@.program().len());
        let (a, b, c) = (i.a, i.b, i.c);
        let op = i.op;
        if op == 0 {
            if self.read_reg(c) != 0 {
                let v = self.read_reg(b);
                self.write_reg(a, v);
            }
            self.advance();
            assert(self@.regs =~= cond_move(old(self)@.regs, a, b, c));
            Ok(Step::Ran)
        } else if op == 1 {
            let id = self.read_reg(b);
            let offset = self.read_reg(c);
            let v = match self.read_value(id, offset) {
                Ok(v) => v,
                Err(e) => {
                    return Err(e);
                },
            };
            self.write_reg(a, v);
            self.advance();
            Ok(Step::Ran)
        } else if op == 2 {
            let id = self.read_reg(a);
            let offset = self.read_reg(b);
            let v = self.read_reg(c);
            match self.write_value(id, offset, v) {
                Ok(()) => {},
                Err(e) => {
                    return Err(e);
                },
            }
            self.advance();
            Ok(Step::Ran)
        } else if op == 3 {
            let v = self.read_reg(b).wrapping_add(self.read_reg(c));
            self.write_reg(a, v);
            self.advance();
            Ok(Step::Ran)
        } else if op == 4 {
            let v = self.read_reg(b).wrapping_mul(self.read_reg(c));
            self.write_reg(a, v);
            self.advance();
            Ok(Step::Ran)
        } else if op == 5 {
            let divisor = self.read_reg(c);
            if divisor == 0 {
                return Err(Error::DivisionByZero { pc });
            }
            let v = self.read_reg(b) / divisor;
            self.write_reg(a, v);
            self.advance();
            Ok(Step::Ran)
        } else if op == 6 {
            let v = !(self.read_reg(b) & self.read_reg(c));
            self.write_reg(a, v);
            self.advance();
            Ok(Step::Ran)
        } else if op == 7 {
            Ok(Step::Halted)
        } else if op == 8 {
            let cap = self.read_reg(c);
            let id = match self.allocate(cap) {
                Ok(id) => id,
                Err(e) => {
                    return Err(e);
                },
            };
            self.write_reg(b, id);
            self.advance();
            Ok(Step::Ran)
        } else if op == 9 {
            let id = self.read_reg(c);
            match self.abandon(id) {
                Ok(()) => {},
                Err(e) => {
                    return Err(e);
                },
            }
            self.advance();
            Ok(Step::Ran)
        } else if op == 10 {
            let ch = self.read_reg(c);
            if ch > 255 {
                return Err(Error::InvalidChar { pc, ch });
            }
            self.advance();
            Ok(Step::Output(ch as u8))
        } else if op == 11 {
            match self.input.pop_front() {
                Some(ch) => {
                    proof {
                        old(self)@.lemma_wf_frame(self@);
                    }
                    self.write_reg(c, ch);
                    self.advance();
                    assert(self@.input =~= old(self)@.input.drop_first());
                    Ok(Step::Ran)
                },
                None => Ok(Step::AwaitInput),
            }
        } else if op == 12 {
            let src = self.read_reg(b);
            let target = self.read_reg(c);
            if src == 0 {
                if self.spin_check && target == pc {
                    return Err(Error::InfiniteLoop { pc });
                }
            } else {
                let copy = match self.copy_of(src) {
                    Some(v) => v,
                    None => {
                        return Err(Error::InactiveArray { pc, array: src });
                    },
                };
                self.arrays.set(0, Some(copy));
                assert(self@.arrays =~= old(self)@.arrays.update(0, Some(old(self)@.contents(src))));
                proof {
                    old(self)@.lemma_load_wf(src, self@);
                }
            }
            let ghost before = self@;
            self.pc = target;
            proof {
                before.lemma_wf_frame(self@);
            }
            Ok(Step::Ran)
        } else if op == 13 {
            self.write_reg(a, b);
            self.advance();
            Ok(Step::Ran)
        } else {
            Err(Error::InvalidOp { pc, op })
        }
    }

    /// A fresh copy of the contents of array `id`, if it is active.
    fn copy_of(&self, id: u32) -> (r: Option<Vec<u32>>)
        requires
            self.wf(),
        ensures
            self@.active(id) <==> r is Some,
            r is Some ==> r->Some_0@ == self@.contents(id),
    {
        if id as usize >= self.arrays.len() {
            return None;
        }
        match &self.arrays[id as usize] {
            Some(src) => {
                let mut copy: Vec<u32> = Vec::with_capacity(src.len());
                let mut k: usize = 0;
                while k < src.len()
                    invariant
                        k <= src@.len(),
                        copy@ == src@.subrange(0, k as int),
                    decreases src@.len() - k,
                {
                    copy.push(src[k]);
                    k = k + 1;
                    assert(copy@ =~= src@.subrange(0, k as int));
                }
                assert(copy@ =~= src@);
                Some(copy)
            },
            None => None,
        }
    }

    /// Whether the machine stands at an input instruction with no pending
    /// input, so that a byte from the input source is due.
    pub fn is_awaiting_input(&self) -> (r: bool)
        requires
            self.wf(),
        ensures
            r == self@.awaiting_input(),
    {
        if self.input.len() != 0 {
            return false;
        }
        match self.read_value(0, self.pc) {
            Ok(w) => decode(w).op == 11,
            Err(_) => false,
        }
    }

    /// Completes an awaited input instruction with a byte from the input
    /// source, or with end of input (`None`), which stores all ones.
    pub fn supply_input(&mut self, byte: Option<u8>)
        requires
            old(self).wf(),
            old(self)@.awaiting_input(),
        ensures
            final(self).wf(),
            final(self)@ == old(self)@.receive(byte),
    {
        let word = match self.read_value(0, self.pc) {
            Ok(w) => w,
            Err(_) => 0,
        };
        let c = decode(word).c;
        match byte {
            Some(x) => {
                self.write_reg(c, x as u32);
                self.advance();
            },
            None => {
                self.write_reg(c, u32::MAX);
                self.advance();
            },
        }
    }

    /// The program counter.
    pub fn pc(&self) -> (r: u32)
        ensures
            r == self@.pc,
    {
        self.pc
    }

    /// The value of register `r`.
    pub fn register(&self, r: u32) -> (v: u32)
        requires
            self.wf(),
            r < 8,
        ensures
            v == self@.reg(r),
    {
        self.read_reg(r)
    }
}

/// Replaces the contents of `mem` with `cap` zero words, keeping its storage.
fn zero_fill(mem: &mut Vec<u32>, cap: u32)
    ensures
        final(mem)@ == zeros(cap),
{
    mem.clear();
    let mut i: u32 = 0;
    while i < cap
        invariant
            i <= cap,
            mem@ == zeros(i),
        decreases cap - i,
    {
        mem.push(0);
        i = i + 1;
        assert(mem@ =~= zeros(i));
    }
}

} // verus!
