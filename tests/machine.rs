use universal_machine::error::Error;
use universal_machine::image::words_from_bytes;
use universal_machine::instruction::{decode, Instruction};
use universal_machine::machine::Machine;
use universal_machine::semantics::Step;

fn std_op(op: u32, a: u32, b: u32, c: u32) -> u32 {
    (op << 28) | (a << 6) | (b << 3) | c
}

fn ortho(a: u32, value: u32) -> u32 {
    (13 << 28) | (a << 25) | value
}

fn image(words: &[u32]) -> Vec<u8> {
    let mut bytes = Vec::new();
    for w in words {
        bytes.extend_from_slice(&w.to_be_bytes());
    }
    bytes
}

fn load(words: &[u32]) -> Machine {
    let mut m = Machine::new();
    m.extend_from(&image(words));
    m
}

/// Runs until halt or error, feeding `input` to awaited input instructions and
/// signalling end of input after it.
fn run(m: &mut Machine, input: &[u8]) -> (Result<(), Error>, Vec<u8>) {
    let mut out = Vec::new();
    let mut next = 0;
    for _ in 0..100_000 {
        match m.step() {
            Ok(Step::Ran) => {}
            Ok(Step::Halted) => return (Ok(()), out),
            Ok(Step::Output(b)) => out.push(b),
            Ok(Step::AwaitInput) => {
                assert!(m.is_awaiting_input());
                m.supply_input(input.get(next).copied());
                next += 1;
            }
            Err(e) => return (Err(e), out),
        }
    }
    panic!("program did not halt");
}

#[test]
fn orthography_and_addition() {
    let mut m = load(&[ortho(0, 7), ortho(1, 8), std_op(3, 2, 0, 1), std_op(7, 0, 0, 0)]);
    assert_eq!(run(&mut m, &[]).0, Ok(()));
    assert_eq!(m.register(2), 15);
}

#[test]
fn allocation_reads_zero() {
    let mut m = load(&[
        ortho(0, 4),
        std_op(8, 0, 1, 0),
        ortho(2, 2),
        std_op(1, 3, 1, 2),
        std_op(7, 0, 0, 0),
    ]);
    assert_eq!(run(&mut m, &[]).0, Ok(()));
    assert_ne!(m.register(1), 0);
    assert_eq!(m.register(3), 0);
}

#[test]
fn abandon_and_reuse() {
    let mut m = Machine::new();
    let first = m.allocate(3).unwrap();
    let second = m.allocate(5).unwrap();
    assert_ne!(first, 0);
    assert_ne!(second, 0);
    assert_ne!(first, second);
    m.abandon(first).unwrap();
    assert_eq!(m.allocate(2).unwrap(), first);
}

#[test]
fn division_by_zero() {
    let mut m = load(&[ortho(0, 10), ortho(1, 0), std_op(5, 2, 0, 1)]);
    assert_eq!(run(&mut m, &[]).0, Err(Error::DivisionByZero { pc: 2 }));
    assert_eq!(m.register(2), 0);
}

#[test]
fn self_load_spin_detected() {
    // At pc 1: R[b] = R1 = 0 and R[c] = R0 = 1, a jump onto itself.
    let mut m = load(&[ortho(0, 1), std_op(12, 0, 1, 0)]);
    m.set_spin_check(true);
    assert_eq!(run(&mut m, &[]).0, Err(Error::InfiniteLoop { pc: 1 }));
}

#[test]
fn self_load_two_instruction_loop_not_flagged() {
    // The jump at pc 1 targets pc 0, not itself, so the check stays silent
    // and the two instructions repeat.
    let mut m = load(&[ortho(0, 0), std_op(12, 0, 0, 0)]);
    m.set_spin_check(true);
    for _ in 0..1000 {
        assert_eq!(m.step(), Ok(Step::Ran));
    }
    assert!(m.pc() <= 1);
}

#[test]
fn self_load_spin_unchecked_keeps_running() {
    let mut m = load(&[ortho(0, 1), std_op(12, 0, 1, 0)]);
    // R[0] = 1 is the jump target, R[1] = 0 the source array.
    for _ in 0..1000 {
        assert_eq!(m.step(), Ok(Step::Ran));
    }
    assert_eq!(m.pc(), 1);
}

fn echo_program() -> Vec<u32> {
    vec![
        // 0: R0 <- input
        std_op(11, 0, 0, 0),
        // 1..3: R1 <- all ones
        ortho(1, 0),
        std_op(6, 1, 1, 1),
        // 3: R2 <- not-and(R0, R0) = !R0, zero only on end of input
        std_op(6, 2, 0, 0),
        // 4,5: R3 <- 9 (halt), R4 <- 10 (output)
        ortho(3, 9),
        ortho(4, 10),
        // 6: if R2 != 0 then R3 <- R4
        std_op(0, 3, 4, 2),
        // 7: R5 <- 0; 8: jump to R3 in array 0
        ortho(5, 0),
        std_op(12, 0, 5, 3),
        // 9: halt
        std_op(7, 0, 0, 0),
        // 10: output R0; 11: R6 <- 0; 12: jump to 0
        std_op(10, 0, 0, 0),
        ortho(6, 0),
        std_op(12, 0, 5, 6),
    ]
}

#[test]
fn echo_hi() {
    let mut m = load(&echo_program());
    let (r, out) = run(&mut m, b"HI");
    assert_eq!(r, Ok(()));
    assert_eq!(out, b"HI".to_vec());
}

#[test]
fn echo_round_trip_many_lengths() {
    for n in 0..40u32 {
        let input: Vec<u8> = (0..n).map(|i| (i * 37 % 256) as u8).collect();
        let mut m = load(&echo_program());
        let (r, out) = run(&mut m, &input);
        assert_eq!(r, Ok(()));
        assert_eq!(out, input);
    }
}

#[test]
fn echo_from_pending_input() {
    let mut m = load(&echo_program());
    m.add_input("ok");
    let (r, out) = run(&mut m, b"!");
    assert_eq!(r, Ok(()));
    assert_eq!(out, b"ok!".to_vec());
}

#[test]
fn end_of_input_stores_all_ones() {
    let mut m = load(&[std_op(11, 0, 0, 5), std_op(7, 0, 0, 0)]);
    assert_eq!(m.step(), Ok(Step::AwaitInput));
    assert!(m.is_awaiting_input());
    assert_eq!(m.pc(), 0);
    m.supply_input(None);
    assert_eq!(m.register(5), 0xFFFF_FFFF);
    assert_eq!(m.pc(), 1);
}

#[test]
fn input_byte_stored() {
    let mut m = load(&[std_op(11, 0, 0, 3), std_op(7, 0, 0, 0)]);
    assert_eq!(m.step(), Ok(Step::AwaitInput));
    m.supply_input(Some(200));
    assert_eq!(m.register(3), 200);
}

#[test]
fn pending_input_read_first() {
    let mut m = load(&[std_op(11, 0, 0, 1), std_op(11, 0, 0, 2), std_op(7, 0, 0, 0)]);
    m.add_input("A");
    assert_eq!(m.step(), Ok(Step::Ran));
    assert_eq!(m.register(1), 65);
    assert!(m.is_awaiting_input());
    assert_eq!(m.step(), Ok(Step::AwaitInput));
}

#[test]
fn arithmetic_wraps() {
    // R0 <- 0x1ffffff; R1 <- R0 * R0; R2 <- R1 + R1; R3 <- nand(R0, R0)
    let mut m = load(&[
        ortho(0, 0x1ff_ffff),
        std_op(4, 1, 0, 0),
        std_op(3, 2, 1, 1),
        std_op(6, 3, 0, 0),
        std_op(7, 0, 0, 0),
    ]);
    assert_eq!(run(&mut m, &[]).0, Ok(()));
    let r0: u32 = 0x1ff_ffff;
    assert_eq!(m.register(1), r0.wrapping_mul(r0));
    assert_eq!(m.register(1), 0xfc00_0001);
    assert_eq!(m.register(2), 0xf800_0002);
    assert_eq!(m.register(3), !r0);
    assert_eq!(m.register(3), 0xfe00_0000);
}

#[test]
fn division_unsigned_quotient() {
    // R0 <- all ones (nand of zeros), R1 <- 7, R2 <- R0 / R1
    let mut m = load(&[
        std_op(6, 0, 5, 5),
        ortho(1, 7),
        std_op(5, 2, 0, 1),
        std_op(7, 0, 0, 0),
    ]);
    assert_eq!(run(&mut m, &[]).0, Ok(()));
    assert_eq!(m.register(0), 0xFFFF_FFFF);
    assert_eq!(m.register(2), 0xFFFF_FFFF / 7);
}

#[test]
fn conditional_move_taken_and_not() {
    let mut m = load(&[
        ortho(1, 42),
        ortho(2, 1),
        std_op(0, 0, 1, 2),
        std_op(0, 3, 1, 4),
        std_op(0, 3, 1, 4),
        std_op(0, 5, 1, 2),
        std_op(0, 5, 1, 2),
        std_op(7, 0, 0, 0),
    ]);
    assert_eq!(run(&mut m, &[]).0, Ok(()));
    assert_eq!(m.register(0), 42);
    assert_eq!(m.register(3), 0);
    assert_eq!(m.register(5), 42);
}

#[test]
fn output_bytes_and_invalid_char() {
    let mut m = load(&[ortho(0, 72), std_op(10, 0, 0, 0), ortho(0, 256), std_op(10, 0, 0, 0)]);
    let (r, out) = run(&mut m, &[]);
    assert_eq!(out, b"H".to_vec());
    assert_eq!(r, Err(Error::InvalidChar { pc: 3, ch: 256 }));
}

#[test]
fn invalid_opcodes() {
    let mut m = load(&[14 << 28]);
    assert_eq!(m.step(), Err(Error::InvalidOp { pc: 0, op: 14 }));
    let mut m = load(&[0xF000_0000]);
    assert_eq!(m.step(), Err(Error::InvalidOp { pc: 0, op: 15 }));
}

#[test]
fn running_off_the_end() {
    let mut m = load(&[ortho(0, 1)]);
    assert_eq!(run(&mut m, &[]).0, Err(Error::OutOfBounds { pc: 1, array: 0, offset: 1, len: 1 }));
    let mut empty = Machine::new();
    assert_eq!(empty.step(), Err(Error::OutOfBounds { pc: 0, array: 0, offset: 0, len: 0 }));
}

#[test]
fn heap_errors() {
    let mut m = Machine::new();
    assert_eq!(m.read_value(1, 0), Err(Error::InactiveArray { pc: 0, array: 1 }));
    let id = m.allocate(2).unwrap();
    assert_eq!(m.read_value(id, 1), Ok(0));
    assert_eq!(m.read_value(id, 2), Err(Error::OutOfBounds { pc: 0, array: id, offset: 2, len: 2 }));
    assert_eq!(m.write_value(id, 1, 9), Ok(()));
    assert_eq!(m.read_value(id, 1), Ok(9));
    assert_eq!(m.write_value(id, 5, 9), Err(Error::OutOfBounds { pc: 0, array: id, offset: 5, len: 2 }));
    m.abandon(id).unwrap();
    assert_eq!(m.read_value(id, 0), Err(Error::InactiveArray { pc: 0, array: id }));
    assert_eq!(m.write_value(id, 0, 1), Err(Error::InactiveArray { pc: 0, array: id }));
    assert_eq!(m.abandon(id), Err(Error::InactiveArray { pc: 0, array: id }));
    assert_eq!(m.abandon(0), Err(Error::InactiveArray { pc: 0, array: 0 }));
}

#[test]
fn reissued_array_is_zeroed() {
    let mut m = Machine::new();
    let id = m.allocate(4).unwrap();
    m.write_value(id, 3, 77).unwrap();
    m.abandon(id).unwrap();
    assert_eq!(m.allocate(4).unwrap(), id);
    for k in 0..4 {
        assert_eq!(m.read_value(id, k), Ok(0));
    }
    m.abandon(id).unwrap();
    assert_eq!(m.allocate(1).unwrap(), id);
    assert_eq!(m.read_value(id, 1), Err(Error::OutOfBounds { pc: 0, array: id, offset: 1, len: 1 }));
}

#[test]
fn abandon_through_program_then_read_fails() {
    // R1 <- allocate(R0 = 3); abandon R1; read R1[0]
    let mut m = load(&[
        ortho(0, 3),
        std_op(8, 0, 1, 0),
        std_op(9, 0, 0, 1),
        std_op(1, 2, 1, 3),
    ]);
    let (r, _) = run(&mut m, &[]);
    assert_eq!(r, Err(Error::InactiveArray { pc: 3, array: 1 }));
}

#[test]
fn load_program_copies_array() {
    // Build array k = [halt] and jump to it, after storing 5 in R7.
    let halt = std_op(7, 0, 0, 0);
    let mut m = load(&[
        ortho(0, 1),
        std_op(8, 0, 1, 0),     // R1 <- allocate(1)
        ortho(2, halt >> 16),   // R2 <- halt >> 16
        ortho(3, 0x1_0000),     // R3 <- 65536
        std_op(4, 2, 2, 3),     // R2 <- R2 * 65536 = halt
        ortho(4, 0),
        std_op(2, 1, 4, 2),     // array R1 [0] <- halt
        ortho(7, 5),
        std_op(12, 0, 1, 4),    // load array R1, pc <- 0
    ]);
    assert_eq!(run(&mut m, &[]).0, Ok(()));
    assert_eq!(m.pc(), 0);
    assert_eq!(m.register(7), 5);
    assert_eq!(m.read_value(0, 0), Ok(halt));
    assert_eq!(m.read_value(0, 1), Err(Error::OutOfBounds { pc: 0, array: 0, offset: 1, len: 1 }));
    // The source array is still active and unchanged.
    assert_eq!(m.read_value(m.register(1), 0), Ok(halt));
}

#[test]
fn load_from_inactive_array() {
    let mut m = load(&[ortho(1, 3), std_op(12, 0, 1, 0)]);
    assert_eq!(run(&mut m, &[]).0, Err(Error::InactiveArray { pc: 1, array: 3 }));
}

#[test]
fn self_load_keeps_program() {
    let words = [ortho(0, 3), ortho(1, 0), std_op(12, 0, 1, 0), std_op(7, 0, 0, 0)];
    let mut m = load(&words);
    assert_eq!(run(&mut m, &[]).0, Ok(()));
    for (k, w) in words.iter().enumerate() {
        assert_eq!(m.read_value(0, k as u32), Ok(*w));
    }
}

#[test]
fn image_big_endian_and_padding() {
    assert_eq!(words_from_bytes(&[1, 2, 3, 4, 0xAA, 0xBB]), vec![0x0102_0304, 0xAABB_0000]);
    assert_eq!(words_from_bytes(&[]), Vec::<u32>::new());
    let mut m = Machine::new();
    m.extend_from(&[0xD0, 0, 0, 0x2A]);
    m.extend_from(&[0x70, 0, 0, 0]);
    assert_eq!(m.read_value(0, 0), Ok(0xD000_002A));
    assert_eq!(m.read_value(0, 1), Ok(0x7000_0000));
    assert_eq!(run(&mut m, &[]).0, Ok(()));
    assert_eq!(m.register(0), 0x2A);
}

#[test]
fn decode_fields() {
    assert_eq!(decode(std_op(3, 2, 0, 1)), Instruction { op: 3, a: 2, b: 0, c: 1 });
    assert_eq!(decode(0x3FFF_FE00 | 0b101_011_110), Instruction { op: 3, a: 5, b: 3, c: 6 });
    assert_eq!(decode(ortho(6, 0x1AB_CDEF)), Instruction { op: 13, a: 6, b: 0x1AB_CDEF, c: 0 });
}

#[test]
fn default_machine_is_empty() {
    let mut m = Machine::default();
    assert_eq!(m.pc(), 0);
    for r in 0..8 {
        assert_eq!(m.register(r), 0);
    }
    assert!(!m.is_awaiting_input());
    assert_eq!(m.step(), Err(Error::OutOfBounds { pc: 0, array: 0, offset: 0, len: 0 }));
    assert_eq!(m.allocate(0), Ok(1));
    assert_eq!(m.read_value(1, 0), Err(Error::OutOfBounds { pc: 0, array: 1, offset: 0, len: 0 }));
}
