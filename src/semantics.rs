use vstd::prelude::*;

use crate::error::Error;
use crate::instruction::{decoded, Instruction};

verus! {

/// What one step of the machine asks of the world around it.
#[derive(Debug, Clone, Copy, PartialEq, Eq, Structural)]
pub enum Step {
    /// An instruction ran; nothing to send or receive.
    Ran,
    /// The halt instruction was reached.
    Halted,
    /// A byte for the output sink.
    Output(u8),
    /// The input instruction found the pending queue empty: one byte (or end
    /// of input) is to be read from the input source.
    AwaitInput,
}

/// The abstract state of a machine.
pub struct MachineView {
    pub pc: u32,
    pub regs: Seq<u32>,
    /// For each identifier below `arrays.len()`, its contents if active.
    pub arrays: Seq<Option<Seq<u32>>>,
    /// Abandoned identifiers, reissued last in, first out.
    pub free: Seq<u32>,
    /// Pending input code points, read before the input source.
    pub input: Seq<u32>,
    /// Whether a self-load of array 0 onto its own program counter is an error.
    pub spin_check: bool,
}

pub open spec fn word_modulus() -> int {
    0x1_0000_0000
}

pub open spec fn add_word(x: u32, y: u32) -> u32 {
    ((x as int + y as int) % word_modulus()) as u32
}

pub open spec fn mul_word(x: u32, y: u32) -> u32 {
    ((x as int * y as int) % word_modulus()) as u32
}

pub open spec fn nand_word(x: u32, y: u32) -> u32 {
    !(x & y)
}

/// The registers after a conditional move: `a` takes `b` unless `c` holds 0.
pub open spec fn cond_move(regs: Seq<u32>, a: u32, b: u32, c: u32) -> Seq<u32> {
    if regs[c as int] != 0 {
        regs.update(a as int, regs[b as int])
    } else {
        regs
    }
}

/// The contents of a fresh array of `cap` words.
pub open spec fn zeros(cap: u32) -> Seq<u32> {
    Seq::new(cap as nat, |i: int| 0u32)
}

pub open spec fn distinct(s: Seq<u32>) -> bool {
    forall|i: int, j: int| 0 <= i < j < s.len() ==> s[i] != s[j]
}

impl MachineView {
    pub open spec fn active(self, id: u32) -> bool {
        id < self.arrays.len() && self.arrays[id as int] is Some
    }

    pub open spec fn contents(self, id: u32) -> Seq<u32> {
        self.arrays[id as int].unwrap()
    }

    pub open spec fn program(self) -> Seq<u32> {
        self.contents(0)
    }

    pub open spec fn reg(self, r: u32) -> u32 {
        self.regs[r as int]
    }

    /// The invariant every machine keeps.
    pub open spec fn wf(self) -> bool {
        &&& self.regs.len() == 8
        &&& 1 <= self.arrays.len() <= word_modulus()
        &&& self.arrays[0] is Some
        &&& forall|id: u32| #[trigger] self.active(id) ==> self.contents(id).len() <= u32::MAX
        &&& forall|k: int|
            0 <= k < self.free.len() ==> 0 < #[trigger] self.free[k] < self.arrays.len()
                && self.arrays[self.free[k] as int] is None
        &&& distinct(self.free)
    }

    /// The invariant speaks only of the number of registers, the arrays and the
    /// free list.
    pub proof fn lemma_wf_frame(self, t: MachineView)
        requires
            self.wf(),
            t.regs.len() == self.regs.len(),
            t.arrays == self.arrays,
            t.free == self.free,
        ensures
            t.wf(),
    {
        assert forall|id: u32| #[trigger] t.active(id) implies t.contents(id).len() <= u32::MAX by {
            assert(self.active(id));
        }
    }

    pub open spec fn set_reg(self, r: u32, v: u32) -> MachineView {
        MachineView { regs: self.regs.update(r as int, v), ..self }
    }

    pub open spec fn advance(self) -> MachineView {
        MachineView { pc: (self.pc + 1) as u32, ..self }
    }

    pub open spec fn read(self, id: u32, offset: u32) -> Result<u32, Error> {
        if !self.active(id) {
            Err(Error::InactiveArray { pc: self.pc, array: id })
        } else if offset >= self.contents(id).len() {
            Err(
                Error::OutOfBounds {
                    pc: self.pc,
                    array: id,
                    offset,
                    len: self.contents(id).len() as u32,
                },
            )
        } else {
            Ok(self.contents(id)[offset as int])
        }
    }

    pub open spec fn write(self, id: u32, offset: u32, val: u32) -> Result<MachineView, Error> {
        if !self.active(id) {
            Err(Error::InactiveArray { pc: self.pc, array: id })
        } else if offset >= self.contents(id).len() {
            Err(
                Error::OutOfBounds {
                    pc: self.pc,
                    array: id,
                    offset,
                    len: self.contents(id).len() as u32,
                },
            )
        } else {
            Ok(
                MachineView {
                    arrays: self.arrays.update(
                        id as int,
                        Some(self.contents(id).update(offset as int, val)),
                    ),
                    ..self
                },
            )
        }
    }

    /// The identifier the next allocation hands out: the most recently
    /// abandoned one, else a fresh one.
    pub open spec fn next_id(self) -> u32 {
        if self.free.len() > 0 {
            self.free.last()
        } else {
            self.arrays.len() as u32
        }
    }

    pub open spec fn allocate(self, cap: u32) -> Result<(MachineView, u32), Error> {
        if self.free.len() > 0 {
            let id = self.free.last();
            Ok(
                (
                    MachineView {
                        arrays: self.arrays.update(id as int, Some(zeros(cap))),
                        free: self.free.drop_last(),
                        ..self
                    },
                    id,
                ),
            )
        } else if self.arrays.len() < word_modulus() {
            Ok(
                (
                    MachineView { arrays: self.arrays.push(Some(zeros(cap))), ..self },
                    self.arrays.len() as u32,
                ),
            )
        } else {
            Err(Error::OutOfIdentifiers { pc: self.pc })
        }
    }

    pub open spec fn abandon(self, id: u32) -> Result<MachineView, Error> {
        if id == 0 || !self.active(id) {
            Err(Error::InactiveArray { pc: self.pc, array: id })
        } else {
            Ok(
                MachineView {
                    arrays: self.arrays.update(id as int, None),
                    free: self.free.push(id),
                    ..self
                },
            )
        }
    }

    /// The instruction at the program counter, which must lie inside array 0.
    pub open spec fn current(self) -> Instruction {
        decoded(self.program()[self.pc as int])
    }

    /// The machine stands at an input instruction with no pending input.
    pub open spec fn awaiting_input(self) -> bool {
        &&& self.pc < self.program().len()
        &&& self.current().op == 11
        &&& self.input.len() == 0
    }

    /// One step: the state after it and what it asks of the world. On an
    /// error, and when input is awaited, the state is unchanged.
    pub open spec fn next(self) -> (MachineView, Result<Step, Error>) {
        if self.pc >= self.program().len() {
            (
                self,
                Err(
                    Error::OutOfBounds {
                        pc: self.pc,
                        array: 0,
                        offset: self.pc,
                        len: self.program().len() as u32,
                    },
                ),
            )
        } else {
            self.execute(self.current())
        }
    }

    pub open spec fn execute(self, i: Instruction) -> (MachineView, Result<Step, Error>) {
        let (a, b, c) = (i.a, i.b, i.c);
        if i.op == 0 {
            (MachineView { regs: cond_move(self.regs, a, b, c), ..self }.advance(), Ok(Step::Ran))
        } else if i.op == 1 {
            match self.read(self.reg(b), self.reg(c)) {
                Ok(v) => (self.set_reg(a, v).advance(), Ok(Step::Ran)),
                Err(e) => (self, Err(e)),
            }
        } else if i.op == 2 {
            match self.write(self.reg(a), self.reg(b), self.reg(c)) {
                Ok(s) => (s.advance(), Ok(Step::Ran)),
                Err(e) => (self, Err(e)),
            }
        } else if i.op == 3 {
            (self.set_reg(a, add_word(self.reg(b), self.reg(c))).advance(), Ok(Step::Ran))
        } else if i.op == 4 {
            (self.set_reg(a, mul_word(self.reg(b), self.reg(c))).advance(), Ok(Step::Ran))
        } else if i.op == 5 {
            if self.reg(c) == 0 {
                (self, Err(Error::DivisionByZero { pc: self.pc }))
            } else {
                (self.set_reg(a, self.reg(b) / self.reg(c)).advance(), Ok(Step::Ran))
            }
        } else if i.op == 6 {
            (self.set_reg(a, nand_word(self.reg(b), self.reg(c))).advance(), Ok(Step::Ran))
        } else if i.op == 7 {
            (self, Ok(Step::Halted))
        } else if i.op == 8 {
            match self.allocate(self.reg(c)) {
                Ok((s, id)) => (s.set_reg(b, id).advance(), Ok(Step::Ran)),
                Err(e) => (self, Err(e)),
            }
        } else if i.op == 9 {
            match self.abandon(self.reg(c)) {
                Ok(s) => (s.advance(), Ok(Step::Ran)),
                Err(e) => (self, Err(e)),
            }
        } else if i.op == 10 {
            if self.reg(c) > 255 {
                (self, Err(Error::InvalidChar { pc: self.pc, ch: self.reg(c) }))
            } else {
                (self.advance(), Ok(Step::Output(self.reg(c) as u8)))
            }
        } else if i.op == 11 {
            if self.input.len() == 0 {
                (self, Ok(Step::AwaitInput))
            } else {
                let ch = self.input[0];
                (
                    MachineView { input: self.input.drop_first(), ..self.set_reg(c, ch) }.advance(),
                    Ok(Step::Ran),
                )
            }
        } else if i.op == 12 {
            let src = self.reg(b);
            if src == 0 {
                if self.spin_check && self.reg(c) == self.pc {
                    (self, Err(Error::InfiniteLoop { pc: self.pc }))
                } else {
                    (MachineView { pc: self.reg(c), ..self }, Ok(Step::Ran))
                }
            } else if !self.active(src) {
                (self, Err(Error::InactiveArray { pc: self.pc, array: src }))
            } else {
                (
                    MachineView {
                        pc: self.reg(c),
                        arrays: self.arrays.update(0, Some(self.contents(src))),
                        ..self
                    },
                    Ok(Step::Ran),
                )
            }
        } else if i.op == 13 {
            (self.set_reg(a, b).advance(), Ok(Step::Ran))
        } else {
            (self, Err(Error::InvalidOp { pc: self.pc, op: i.op }))
        }
    }

    /// The state after an awaited input byte arrives (`None`: end of input).
    pub open spec fn receive(self, byte: Option<u8>) -> MachineView {
        let c = self.current().c;
        match byte {
            Some(x) => self.set_reg(c, x as u32).advance(),
            None => self.set_reg(c, u32::MAX).advance(),
        }
    }

    /// An allocation keeps the invariant and hands out a nonzero identifier
    /// that named no active array.
    pub proof fn lemma_allocate_wf(self, cap: u32)
        requires
            self.wf(),
            self.allocate(cap) is Ok,
        ensures
            ({
                let (t, id) = self.allocate(cap)->Ok_0;
                &&& t.wf()
                &&& id != 0
                &&& !self.active(id)
                &&& id == self.next_id()
                &&& t.active(id)
                &&& t.contents(id) == zeros(cap)
                &&& forall|j: u32|
                    j != id ==> (#[trigger] t.active(j) == self.active(j) && (self.active(j)
                        ==> t.contents(j) == self.contents(j)))
            }),
    {
        let (t, id) = self.allocate(cap)->Ok_0;
        if self.free.len() > 0 {
            assert(0 < self.free[self.free.len() - 1]);
        }
        assert forall|j: u32| #[trigger] t.active(j) implies t.contents(j).len() <= u32::MAX by {
            if j != id {
                assert(self.active(j));
            }
        }
        assert forall|k: int| 0 <= k < t.free.len() implies 0 < #[trigger] t.free[k] < t.arrays.len()
            && t.arrays[t.free[k] as int] is None by {
            assert(self.free[k] == t.free[k]);
            if self.free.len() > 0 {
                assert(self.free[k] != self.free[self.free.len() - 1]);
            }
        }
    }

    /// Abandonment keeps the invariant.
    pub proof fn lemma_abandon_wf(self, id: u32)
        requires
            self.wf(),
            self.abandon(id) is Ok,
        ensures
            self.abandon(id)->Ok_0.wf(),
    {
        let t = self.abandon(id)->Ok_0;
        assert forall|j: u32| #[trigger] t.active(j) implies t.contents(j).len() <= u32::MAX by {
            assert(self.active(j));
        }
        assert forall|k: int| 0 <= k < t.free.len() implies 0 < #[trigger] t.free[k] < t.arrays.len()
            && t.arrays[t.free[k] as int] is None by {
            if k < self.free.len() {
                assert(self.free[k] == t.free[k]);
            }
        }
        assert forall|i: int, j: int| 0 <= i < j < t.free.len() implies t.free[i] != t.free[j] by {
            if j == self.free.len() {
                assert(self.arrays[self.free[i] as int] is None);
            } else {
                assert(self.free[i] != self.free[j]);
            }
        }
    }

    /// Loading an active array over array 0 keeps the invariant.
    pub proof fn lemma_load_wf(self, src: u32, t: MachineView)
        requires
            self.wf(),
            self.active(src),
            t.regs == self.regs,
            t.free == self.free,
            t.arrays == self.arrays.update(0, Some(self.contents(src))),
        ensures
            t.wf(),
    {
        assert forall|j: u32| #[trigger] t.active(j) implies t.contents(j).len() <= u32::MAX by {
            if j != 0 {
                assert(self.active(j));
            }
        }
        assert forall|k: int| 0 <= k < t.free.len() implies 0 < #[trigger] t.free[k] < t.arrays.len()
            && t.arrays[t.free[k] as int] is None by {
            assert(0 < self.free[k]);
        }
    }
}

} // verus!
