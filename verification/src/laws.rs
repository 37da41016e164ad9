use vstd::prelude::*;
use crate::cycle::cycle_spec;
use crate::cycle::fetch_spec;
use crate::cycle::op_spec;
use crate::ops::Op;
use crate::ops::decode_spec;
use crate::ops::op_wf;
use crate::state::Chip8Error;
use crate::state::MachineView;
use crate::state::view_wf;

verus! {

/// The opcodes that never touch `PC` themselves: everything except jumps,
/// calls, returns, conditional skips, the key wait, and undefined words.
pub open spec fn pc_neutral(op: Op) -> bool {
    match op {
        Op::Jump(_) => false,
        Op::Call(_) => false,
        Op::Return => false,
        Op::JumpPlusV0(_) => false,
        Op::SkipEqImm(_, _) => false,
        Op::SkipNeImm(_, _) => false,
        Op::SkipEqReg(_, _) => false,
        Op::SkipNeReg(_, _) => false,
        Op::SkipKeyPressed(_) => false,
        Op::SkipKeyNotPressed(_) => false,
        Op::WaitKey(_) => false,
        Op::Unknown(_) => false,
        _ => true,
    }
}

/// Every opcode that does not touch `PC` directly moves `PC` forward by
/// exactly two in one step.
pub proof fn lemma_pc_advances_by_two(v: MachineView, op: Op, rand: u8)
    requires
        view_wf(v),
        op_wf(op),
        v.pc + 2 <= 4096,
        pc_neutral(op),
        op_spec(v, op, rand).1 is Ok,
    ensures
        op_spec(v, op, rand).0.pc == v.pc + 2,
{
}

/// `7XNN` wraps modulo 256 and never writes the carry flag: `VF` keeps its
/// value whenever it is not itself the destination register.
pub proof fn lemma_add_imm_no_flag(v: MachineView, x: u8, nn: u8, rand: u8)
    requires
        view_wf(v),
        x < 16,
        v.pc + 2 <= 4096,
    ensures
        op_spec(v, Op::AddImm(x, nn), rand).0.regs[x as int] == (v.regs[x as int] + nn) % 256,
        x != 15 ==> op_spec(v, Op::AddImm(x, nn), rand).0.regs[15] == v.regs[15],
{
}

/// `8XY4` sets `VF` to 1 exactly when the unsigned sum exceeds 255, and the
/// destination receives the sum modulo 256.
pub proof fn lemma_add_reg_carry(v: MachineView, x: u8, y: u8, rand: u8)
    requires
        view_wf(v),
        x < 16,
        y < 16,
        v.pc + 2 <= 4096,
    ensures
        op_spec(v, Op::AddReg(x, y), rand).0.regs[15] == (if v.regs[x as int] + v.regs[y as int]
            > 255 {
            1u8
        } else {
            0u8
        }),
        x != 15 ==> op_spec(v, Op::AddReg(x, y), rand).0.regs[x as int] == (v.regs[x as int]
            + v.regs[y as int]) % 256,
{
}

/// `8XY5` sets `VF` to 1 exactly when `VX >= VY` before the subtraction (no
/// borrow), and the difference wraps modulo 256.
pub proof fn lemma_sub_reg_borrow(v: MachineView, x: u8, y: u8, rand: u8)
    requires
        view_wf(v),
        x < 16,
        y < 16,
        v.pc + 2 <= 4096,
    ensures
        op_spec(v, Op::SubReg(x, y), rand).0.regs[15] == (if v.regs[x as int] >= v.regs[y as int] {
            1u8
        } else {
            0u8
        }),
        x != 15 ==> op_spec(v, Op::SubReg(x, y), rand).0.regs[x as int] == (v.regs[x as int]
            - v.regs[y as int]) % 256,
{
}

/// `00E0` turns every one of the 2048 pixels off and raises the redraw flag.
pub proof fn lemma_clear_screen(v: MachineView, rand: u8)
    requires
        view_wf(v),
        v.pc + 2 <= 4096,
    ensures
        op_spec(v, Op::ClearScreen, rand).0.display.len() == 2048,
        forall|i: int| 0 <= i < 2048 ==> !op_spec(v, Op::ClearScreen, rand).0.display[i],
        op_spec(v, Op::ClearScreen, rand).0.draw_flag,
{
}

/// A `2NNN` call followed by `00EE` brings `PC` to the address of the call
/// plus two: the pushed return address points just past the call.
pub proof fn lemma_call_return_round_trip(v: MachineView, nnn: u16, rand: u8)
    requires
        view_wf(v),
        nnn < 4096,
        v.sp < 16,
        v.pc + 2 <= 4096,
    ensures
        ({
            let call = op_spec(v, Op::Call(nnn), rand);
            let ret = op_spec(call.0, Op::Return, rand);
            &&& call.1 is Ok
            &&& ret.1 is Ok
            &&& ret.0.pc == v.pc + 2
            &&& ret.0.sp == v.sp
        }),
{
}

/// `2NNN` fails with `StackOverflow` exactly when 16 calls are already
/// outstanding, and `00EE` fails with `StackUnderflow` exactly when none is;
/// neither failure changes the machine.
pub proof fn lemma_stack_limits(v: MachineView, nnn: u16, rand: u8)
    requires
        view_wf(v),
    ensures
        op_spec(v, Op::Call(nnn), rand).1 == (if v.sp == 16 {
            Err::<(), Chip8Error>(Chip8Error::StackOverflow)
        } else {
            Ok(())
        }),
        op_spec(v, Op::Return, rand).1 == (if v.sp == 0 {
            Err::<(), Chip8Error>(Chip8Error::StackUnderflow)
        } else {
            Ok(())
        }),
        v.sp == 16 ==> op_spec(v, Op::Call(nnn), rand).0 == v,
        v.sp == 0 ==> op_spec(v, Op::Return, rand).0 == v,
{
}

/// Every instruction except `CXNN` ignores the random byte: whenever the
/// word at `PC` does not decode to `CXNN`, a cycle is a function of the
/// machine alone.
pub proof fn lemma_cycle_rand_independent(v: MachineView, b1: u8, b2: u8)
    requires
        view_wf(v),
        !(decode_spec(fetch_spec(v)) matches Op::Random(_, _)),
    ensures
        cycle_spec(v, b1) == cycle_spec(v, b2),
{
}

} // verus!
