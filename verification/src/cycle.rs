use vstd::prelude::*;
use vstd::wrapping::u16_specs;
use vstd::wrapping::u8_specs;
use crate::draw::draw_row;
use crate::draw::draw_rows;
use crate::draw::pixel_index;
use crate::draw::sprite_bit;
use crate::ops::Op;
use crate::ops::decode;
use crate::ops::decode_spec;
use crate::ops::op_wf;
use crate::rng::random_byte;
use crate::state::Chip8Error;
use crate::state::ChipEight;
use crate::state::MachineView;
use crate::state::repeat_value;

verus! {

/// The machine with `PC` moved past the instruction just executed.
pub open spec fn advance_pc(v: MachineView) -> MachineView {
    MachineView { pc: (v.pc + 2) as u16, ..v }
}

/// The machine after a conditional skip: `PC` moves by 4 when the condition
/// holds (skipping the next instruction), by 2 otherwise.
pub open spec fn skip_if(v: MachineView, cond: bool) -> MachineView {
    MachineView {
        pc: if cond {
            (v.pc + 4) as u16
        } else {
            (v.pc + 2) as u16
        },
        ..v
    }
}

/// The machine with register `x` set to `val`.
pub open spec fn with_reg(v: MachineView, x: int, val: u8) -> MachineView {
    MachineView { regs: v.regs.update(x, val), ..v }
}

/// The lowest-numbered pressed key at or above `i`, or -1 when none of the
/// keys `i` through 15 is pressed.
pub open spec fn first_pressed(keys: Seq<bool>, i: int) -> int
    decreases 16 - i,
{
    if i < 0 || i >= 16 {
        -1
    } else if keys[i] {
        i
    } else {
        first_pressed(keys, i + 1)
    }
}

/// The big-endian 16-bit instruction word at `PC`.
pub open spec fn fetch_spec(v: MachineView) -> u16 {
    (v.memory[v.pc as int] * 256 + v.memory[v.pc as int + 1]) as u16
}

/// The complete semantics of one decoded instruction: the machine after it and
/// the outcome. `rand` is the byte the random source supplied this cycle; only
/// `CXNN` reads it. On a fatal error the machine is unchanged; on
/// `UnknownOpcode` only `PC` has advanced.
pub open spec fn op_spec(v: MachineView, op: Op, rand: u8) -> (MachineView, Result<
    (),
    Chip8Error,
>) {
    match op {
        Op::ClearScreen => (
            MachineView {
                display: Seq::new(2048, |i: int| false),
                draw_flag: true,
                ..advance_pc(v)
            },
            Ok(()),
        ),
        Op::Return => if v.sp == 0 {
            (v, Err(Chip8Error::StackUnderflow))
        } else {
            (MachineView { sp: v.sp - 1, pc: v.stack[v.sp - 1], ..v }, Ok(()))
        },
        Op::Jump(nnn) => (MachineView { pc: nnn, ..v }, Ok(())),
        Op::Call(nnn) => if v.sp == 16 {
            (v, Err(Chip8Error::StackOverflow))
        } else {
            (
                MachineView {
                    stack: v.stack.update(v.sp, (v.pc + 2) as u16),
                    sp: v.sp + 1,
                    pc: nnn,
                    ..v
                },
                Ok(()),
            )
        },
        Op::SkipEqImm(x, nn) => (skip_if(v, v.regs[x as int] == nn), Ok(())),
        Op::SkipNeImm(x, nn) => (skip_if(v, v.regs[x as int] != nn), Ok(())),
        Op::SkipEqReg(x, y) => (skip_if(v, v.regs[x as int] == v.regs[y as int]), Ok(())),
        Op::SetImm(x, nn) => (advance_pc(with_reg(v, x as int, nn)), Ok(())),
        Op::AddImm(x, nn) => (
            advance_pc(with_reg(v, x as int, u8_specs::wrapping_add(v.regs[x as int], nn))),
            Ok(()),
        ),
        Op::Assign(x, y) => (advance_pc(with_reg(v, x as int, v.regs[y as int])), Ok(())),
        Op::OrReg(x, y) => (
            advance_pc(with_reg(v, x as int, v.regs[x as int] | v.regs[y as int])),
            Ok(()),
        ),
        Op::AndReg(x, y) => (
            advance_pc(with_reg(v, x as int, v.regs[x as int] & v.regs[y as int])),
            Ok(()),
        ),
        Op::XorReg(x, y) => (
            advance_pc(with_reg(v, x as int, v.regs[x as int] ^ v.regs[y as int])),
            Ok(()),
        ),
        Op::AddReg(x, y) => {
            let vx = v.regs[x as int];
            let vy = v.regs[y as int];
            let flag: u8 = if vx + vy > 255 {
                1
            } else {
                0
            };
            (
                advance_pc(
                    MachineView {
                        regs: v.regs.update(x as int, u8_specs::wrapping_add(vx, vy)).update(
                            15,
                            flag,
                        ),
                        ..v
                    },
                ),
                Ok(()),
            )
        },
        Op::SubReg(x, y) => {
            let vx = v.regs[x as int];
            let vy = v.regs[y as int];
            let flag: u8 = if vx >= vy {
                1
            } else {
                0
            };
            (
                advance_pc(
                    MachineView {
                        regs: v.regs.update(x as int, u8_specs::wrapping_sub(vx, vy)).update(
                            15,
                            flag,
                        ),
                        ..v
                    },
                ),
                Ok(()),
            )
        },
        Op::ShiftRight(x) => {
            let vx = v.regs[x as int];
            (
                advance_pc(
                    MachineView {
                        regs: v.regs.update(x as int, (vx / 2) as u8).update(15, (vx % 2) as u8),
                        ..v
                    },
                ),
                Ok(()),
            )
        },
        Op::SubFrom(x, y) => {
            let vx = v.regs[x as int];
            let vy = v.regs[y as int];
            let flag: u8 = if vy >= vx {
                1
            } else {
                0
            };
            (
                advance_pc(
                    MachineView {
                        regs: v.regs.update(x as int, u8_specs::wrapping_sub(vy, vx)).update(
                            15,
                            flag,
                        ),
                        ..v
                    },
                ),
                Ok(()),
            )
        },
        Op::ShiftLeft(x) => {
            let vx = v.regs[x as int];
            (
                advance_pc(
                    MachineView {
                        regs: v.regs.update(x as int, ((vx * 2) % 256) as u8).update(
                            15,
                            (vx / 128) as u8,
                        ),
                        ..v
                    },
                ),
                Ok(()),
            )
        },
        Op::SkipNeReg(x, y) => (skip_if(v, v.regs[x as int] != v.regs[y as int]), Ok(())),
        Op::SetIndex(nnn) => (advance_pc(MachineView { index_reg: nnn, ..v }), Ok(())),
        Op::JumpPlusV0(nnn) => (MachineView { pc: (nnn + v.regs[0]) as u16, ..v }, Ok(())),
        Op::Random(x, nn) => (advance_pc(with_reg(v, x as int, rand & nn)), Ok(())),
        Op::Draw(x, y, n) => {
            let addr = v.index_reg as int;
            if addr + n > 4096 {
                (v, Err(Chip8Error::OutOfBoundsAccess))
            } else {
                let res = draw_rows(
                    v.display,
                    v.memory,
                    addr,
                    v.regs[x as int] as int,
                    v.regs[y as int] as int,
                    n as int,
                );
                (
                    advance_pc(
                        MachineView {
                            display: res.0,
                            regs: v.regs.update(
                                15,
                                if res.1 {
                                    1u8
                                } else {
                                    0u8
                                },
                            ),
                            draw_flag: true,
                            ..v
                        },
                    ),
                    Ok(()),
                )
            }
        },
        Op::SkipKeyPressed(x) => (skip_if(v, v.keypad[v.regs[x as int] as int % 16]), Ok(())),
        Op::SkipKeyNotPressed(x) => (skip_if(v, !v.keypad[v.regs[x as int] as int % 16]), Ok(())),
        Op::ReadDelay(x) => (advance_pc(with_reg(v, x as int, v.delay_timer)), Ok(())),
        Op::WaitKey(x) => {
            let k = first_pressed(v.keypad, 0);
            if k < 0 {
                (v, Ok(()))
            } else {
                (advance_pc(with_reg(v, x as int, k as u8)), Ok(()))
            }
        },
        Op::SetDelay(x) => (advance_pc(MachineView { delay_timer: v.regs[x as int], ..v }), Ok(())),
        Op::SetSound(x) => (advance_pc(MachineView { sound_timer: v.regs[x as int], ..v }), Ok(())),
        Op::AddIndex(x) => (
            advance_pc(
                MachineView {
                    index_reg: u16_specs::wrapping_add(v.index_reg, v.regs[x as int] as u16),
                    ..v
                },
            ),
            Ok(()),
        ),
        Op::FontChar(x) => (
            advance_pc(MachineView { index_reg: (v.regs[x as int] * 5) as u16, ..v }),
            Ok(()),
        ),
        Op::StoreBcd(x) => {
            let addr = v.index_reg as int;
            if addr + 3 > 4096 {
                (v, Err(Chip8Error::OutOfBoundsAccess))
            } else {
                let vx = v.regs[x as int];
                (
                    advance_pc(
                        MachineView {
                            memory: v.memory.update(addr, (vx / 100) as u8).update(
                                addr + 1,
                                ((vx / 10) % 10) as u8,
                            ).update(addr + 2, (vx % 10) as u8),
                            ..v
                        },
                    ),
                    Ok(()),
                )
            }
        },
        Op::StoreRegs(x) => {
            let addr = v.index_reg as int;
            if addr + x + 1 > 4096 {
                (v, Err(Chip8Error::OutOfBoundsAccess))
            } else {
                (
                    advance_pc(
                        MachineView {
                            memory: Seq::new(
                                4096,
                                |i: int|
                                    if addr <= i <= addr + x {
                                        v.regs[i - addr]
                                    } else {
                                        v.memory[i]
                                    },
                            ),
                            ..v
                        },
                    ),
                    Ok(()),
                )
            }
        },
        Op::LoadRegs(x) => {
            let addr = v.index_reg as int;
            if addr + x + 1 > 4096 {
                (v, Err(Chip8Error::OutOfBoundsAccess))
            } else {
                (
                    advance_pc(
                        MachineView {
                            regs: Seq::new(
                                16,
                                |i: int|
                                    if 0 <= i <= x {
                                        v.memory[addr + i]
                                    } else {
                                        v.regs[i]
                                    },
                            ),
                            ..v
                        },
                    ),
                    Ok(()),
                )
            }
        },
        Op::Unknown(code) => (advance_pc(v), Err(Chip8Error::UnknownOpcode(code))),
    }
}

/// One whole cycle from a machine `v`, given the random byte drawn this
/// cycle: fatal when even the instruction word cannot be fetched in bounds,
/// otherwise fetch, decode and execute.
pub open spec fn cycle_spec(v: MachineView, rand: u8) -> (MachineView, Result<(), Chip8Error>) {
    if v.pc + 1 >= 4096 {
        (v, Err(Chip8Error::OutOfBoundsAccess))
    } else {
        op_spec(v, decode_spec(fetch_spec(v)), rand)
    }
}

impl ChipEight {
    /// Read the two instruction bytes at `PC`, big-endian.
    fn fetch(&self) -> (r: u16)
        requires
            self.wf(),
            self@.pc + 1 < 4096,
        ensures
            r == fetch_spec(self@),
    {
        let hi = self.memory[self.pc as usize] as u16;
        let lo = self.memory[self.pc as usize + 1] as u16;
        hi * 256 + lo
    }

    /// The lowest-numbered pressed key, if any key is pressed at all.
    fn scan_keypad(&self) -> (r: Option<u8>)
        requires
            self.wf(),
        ensures
            match r {
                Some(k) => k < 16 && first_pressed(self@.keypad, 0) == k as int,
                None => first_pressed(self@.keypad, 0) == -1,
            },
    {
        let mut i: usize = 0;
        while i < 16
            invariant
                self.wf(),
                i <= 16,
                first_pressed(self@.keypad, 0) == first_pressed(self@.keypad, i as int),
            decreases 16 - i,
        {
            if self.keypad[i] {
                return Some(i as u8);
            }
            i += 1;
        }
        None
    }

    /// `00E0`: clear the display and request a redraw.
    fn op_clear(&mut self)
        requires
            old(self).wf(),
            old(self)@.pc + 2 <= 4096,
        ensures
            final(self).wf(),
            final(self)@ == op_spec(old(self)@, Op::ClearScreen, 0).0,
    {
        self.display = repeat_value(false, 2048);
        self.draw_flag = true;
        self.pc = self.pc + 2;
        proof {
            assert(self@ =~= op_spec(old(self)@, Op::ClearScreen, 0).0);
        }
    }

    /// `DXYN`: toggle the `n`-row sprite stored at `I` onto the display at
    /// `(VX, VY)`, recording in `VF` whether any pixel was turned off.
    fn op_draw(&mut self, x: u8, y: u8, n: u8) -> (r: Result<(), Chip8Error>)
        requires
            old(self).wf(),
            x < 16,
            y < 16,
            n < 16,
            old(self)@.pc + 2 <= 4096,
        ensures
            final(self).wf(),
            (final(self)@, r) == op_spec(old(self)@, Op::Draw(x, y, n), 0),
    {
        let addr = self.index_reg as usize;
        if addr + n as usize > 4096 {
            return Err(Chip8Error::OutOfBoundsAccess);
        }
        let sx = self.regs[x as usize];
        let sy = self.regs[y as usize];
        let mut coll = false;
        let mut row: usize = 0;
        while row < n as usize
            invariant
                old(self).wf(),
                x < 16,
                y < 16,
                n < 16,
                addr == old(self)@.index_reg as int,
                addr + n <= 4096,
                row <= n as int,
                sx == old(self)@.regs[x as int],
                sy == old(self)@.regs[y as int],
                self@.memory == old(self)@.memory,
                self@.regs == old(self)@.regs,
                self@.index_reg == old(self)@.index_reg,
                self@.pc == old(self)@.pc,
                self@.delay_timer == old(self)@.delay_timer,
                self@.sound_timer == old(self)@.sound_timer,
                self@.stack == old(self)@.stack,
                self@.sp == old(self)@.sp,
                self@.keypad == old(self)@.keypad,
                self@.draw_flag == old(self)@.draw_flag,
                self@.display.len() == 2048,
                (self@.display, coll) == draw_rows(
                    old(self)@.display,
                    old(self)@.memory,
                    addr as int,
                    sx as int,
                    sy as int,
                    row as int,
                ),
            decreases n as int - row,
        {
            let byte = self.memory[addr + row];
            let ghost row_start = self@.display;
            let ghost coll_start = coll;
            let mut col: usize = 0;
            while col < 8
                invariant
                    old(self).wf(),
                    col <= 8,
                    n < 16,
                    row < n as int,
                    self@.memory == old(self)@.memory,
                    self@.regs == old(self)@.regs,
                    self@.index_reg == old(self)@.index_reg,
                    self@.pc == old(self)@.pc,
                    self@.delay_timer == old(self)@.delay_timer,
                    self@.sound_timer == old(self)@.sound_timer,
                    self@.stack == old(self)@.stack,
                    self@.sp == old(self)@.sp,
                    self@.keypad == old(self)@.keypad,
                    self@.draw_flag == old(self)@.draw_flag,
                    self@.display.len() == 2048,
                    ({
                        let res = draw_row(
                            row_start,
                            byte,
                            sx as int,
                            sy as int + row as int,
                            col as int,
                        );
                        self@.display == res.0 && coll == (coll_start || res.1)
                    }),
                decreases 8 - col,
            {
                let bit = (byte >> ((7 - col) as u8)) & 1u8;
                proof {
                    assert((bit == 1) == sprite_bit(byte, col as int));
                }
                if bit == 1 {
                    let px = (sy as usize + row) % 32 * 64 + (sx as usize + col) % 64;
                    proof {
                        assert(px < 2048);
                        assert(px as int == pixel_index(
                            (sx as int + col as int) % 64,
                            (sy as int + row as int) % 32,
                        ));
                    }
                    let prev_pix = self.display[px];
                    if prev_pix {
                        coll = true;
                    }
                    self.display.set(px, !prev_pix);
                }
                col += 1;
                proof {
                    let res_prev = draw_row(
                        row_start,
                        byte,
                        sx as int,
                        sy as int + row as int,
                        col as int - 1,
                    );
                    let res_next = draw_row(
                        row_start,
                        byte,
                        sx as int,
                        sy as int + row as int,
                        col as int,
                    );
                    assert(self@.display == res_next.0 && coll == (coll_start || res_next.1));
                }
            }
            row += 1;
            proof {
                let prev = draw_rows(
                    old(self)@.display,
                    old(self)@.memory,
                    addr as int,
                    sx as int,
                    sy as int,
                    row as int - 1,
                );
                assert((self@.display, coll) == draw_rows(
                    old(self)@.display,
                    old(self)@.memory,
                    addr as int,
                    sx as int,
                    sy as int,
                    row as int,
                ));
            }
        }
        self.regs.set(
            15,
            if coll {
                1
            } else {
                0
            },
        );
        self.draw_flag = true;
        self.pc = self.pc + 2;
        proof {
            assert(self@ =~= op_spec(old(self)@, Op::Draw(x, y, n), 0).0);
        }
        Ok(())
    }

    /// `FX33`: write the hundreds, tens and units digits of `VX` to memory at
    /// `I`, `I + 1`, `I + 2`.
    fn op_store_bcd(&mut self, x: u8) -> (r: Result<(), Chip8Error>)
        requires
            old(self).wf(),
            x < 16,
            old(self)@.pc + 2 <= 4096,
        ensures
            final(self).wf(),
            (final(self)@, r) == op_spec(old(self)@, Op::StoreBcd(x), 0),
    {
        let addr = self.index_reg as usize;
        if addr + 3 > 4096 {
            return Err(Chip8Error::OutOfBoundsAccess);
        }
        let vx = self.regs[x as usize];
        self.memory.set(addr, vx / 100);
        self.memory.set(addr + 1, (vx / 10) % 10);
        self.memory.set(addr + 2, vx % 10);
        self.pc = self.pc + 2;
        proof {
            assert(self@ =~= op_spec(old(self)@, Op::StoreBcd(x), 0).0);
        }
        Ok(())
    }

    /// `FX55`: copy registers `V0` through `VX` to memory starting at `I`.
    fn op_store_regs(&mut self, x: u8) -> (r: Result<(), Chip8Error>)
        requires
            old(self).wf(),
            x < 16,
            old(self)@.pc + 2 <= 4096,
        ensures
            final(self).wf(),
            (final(self)@, r) == op_spec(old(self)@, Op::StoreRegs(x), 0),
    {
        let addr = self.index_reg as usize;
        if addr + x as usize + 1 > 4096 {
            return Err(Chip8Error::OutOfBoundsAccess);
        }
        let mut i: usize = 0;
        while i < x as usize + 1
            invariant
                old(self).wf(),
                x < 16,
                i <= x + 1,
                addr == old(self)@.index_reg as int,
                addr + x + 1 <= 4096,
                self@.regs == old(self)@.regs,
                self@.index_reg == old(self)@.index_reg,
                self@.pc == old(self)@.pc,
                self@.display == old(self)@.display,
                self@.delay_timer == old(self)@.delay_timer,
                self@.sound_timer == old(self)@.sound_timer,
                self@.stack == old(self)@.stack,
                self@.sp == old(self)@.sp,
                self@.keypad == old(self)@.keypad,
                self@.draw_flag == old(self)@.draw_flag,
                self@.memory.len() == 4096,
                forall|j: int|
                    0 <= j < 4096 ==> self@.memory[j] == (if addr <= j < addr + i {
                        old(self)@.regs[j - addr]
                    } else {
                        old(self)@.memory[j]
                    }),
            decreases x as int + 1 - i,
        {
            self.memory.set(addr + i, self.regs[i]);
            i += 1;
        }
        self.pc = self.pc + 2;
        proof {
            assert(self@ =~= op_spec(old(self)@, Op::StoreRegs(x), 0).0);
        }
        Ok(())
    }

    /// `FX65`: fill registers `V0` through `VX` from memory starting at `I`.
    fn op_load_regs(&mut self, x: u8) -> (r: Result<(), Chip8Error>)
        requires
            old(self).wf(),
            x < 16,
            old(self)@.pc + 2 <= 4096,
        ensures
            final(self).wf(),
            (final(self)@, r) == op_spec(old(self)@, Op::LoadRegs(x), 0),
    {
        let addr = self.index_reg as usize;
        if addr + x as usize + 1 > 4096 {
            return Err(Chip8Error::OutOfBoundsAccess);
        }
        let mut i: usize = 0;
        while i < x as usize + 1
            invariant
                old(self).wf(),
                x < 16,
                i <= x + 1,
                addr == old(self)@.index_reg as int,
                addr + x + 1 <= 4096,
                self@.memory == old(self)@.memory,
                self@.index_reg == old(self)@.index_reg,
                self@.pc == old(self)@.pc,
                self@.display == old(self)@.display,
                self@.delay_timer == old(self)@.delay_timer,
                self@.sound_timer == old(self)@.sound_timer,
                self@.stack == old(self)@.stack,
                self@.sp == old(self)@.sp,
                self@.keypad == old(self)@.keypad,
                self@.draw_flag == old(self)@.draw_flag,
                self@.regs.len() == 16,
                forall|j: int|
                    0 <= j < 16 ==> self@.regs[j] == (if 0 <= j < i {
                        old(self)@.memory[addr + j]
                    } else {
                        old(self)@.regs[j]
                    }),
            decreases x as int + 1 - i,
        {
            self.regs.set(i, self.memory[addr + i]);
            i += 1;
        }
        self.pc = self.pc + 2;
        proof {
            assert(self@ =~= op_spec(old(self)@, Op::LoadRegs(x), 0).0);
        }
        Ok(())
    }

    /// `FX0A`: store the lowest pressed key in `VX`; when no key is pressed,
    /// leave the machine exactly as it was, so the same instruction is
    /// retried on the next cycle.
    fn op_wait_key(&mut self, x: u8)
        requires
            old(self).wf(),
            x < 16,
            old(self)@.pc + 2 <= 4096,
        ensures
            final(self).wf(),
            final(self)@ == op_spec(old(self)@, Op::WaitKey(x), 0).0,
    {
        match self.scan_keypad() {
            Some(k) => {
                self.regs.set(x as usize, k);
                self.pc = self.pc + 2;
                proof {
                    assert(self@ =~= op_spec(old(self)@, Op::WaitKey(x), 0).0);
                }
            },
            None => {
                proof {
                    assert(self@ =~= op_spec(old(self)@, Op::WaitKey(x), 0).0);
                }
            },
        }
    }

    /// Run one already-decoded instruction against the machine, with `rand`
    /// standing in for whatever byte the random source produced this cycle.
    /// The outcome and the new machine are exactly `op_spec`.
    pub fn execute_op(&mut self, op: Op, rand: u8) -> (r: Result<(), Chip8Error>)
        requires
            old(self).wf(),
            op_wf(op),
            old(self)@.pc + 2 <= 4096,
        ensures
            final(self).wf(),
            (final(self)@, r) == op_spec(old(self)@, op, rand),
    {
        match op {
            Op::ClearScreen => {
                self.op_clear();
                Ok(())
            },
            Op::Return => {
                if self.sp == 0 {
                    return Err(Chip8Error::StackUnderflow);
                }
                self.sp = self.sp - 1;
                self.pc = self.stack[self.sp];
                proof {
                    assert(self@ =~= op_spec(old(self)@, op, rand).0);
                }
                Ok(())
            },
            Op::Jump(nnn) => {
                self.pc = nnn;
                proof {
                    assert(self@ =~= op_spec(old(self)@, op, rand).0);
                }
                Ok(())
            },
            Op::Call(nnn) => {
                if self.sp == 16 {
                    return Err(Chip8Error::StackOverflow);
                }
                self.stack.set(self.sp, self.pc + 2);
                self.sp = self.sp + 1;
                self.pc = nnn;
                proof {
                    assert(self@ =~= op_spec(old(self)@, op, rand).0);
                }
                Ok(())
            },
            Op::SkipEqImm(x, nn) => {
                if self.regs[x as usize] == nn {
                    self.pc = self.pc + 4;
                } else {
                    self.pc = self.pc + 2;
                }
                proof {
                    assert(self@ =~= op_spec(old(self)@, op, rand).0);
                }
                Ok(())
            },
            Op::SkipNeImm(x, nn) => {
                if self.regs[x as usize] != nn {
                    self.pc = self.pc + 4;
                } else {
                    self.pc = self.pc + 2;
                }
                proof {
                    assert(self@ =~= op_spec(old(self)@, op, rand).0);
                }
                Ok(())
            },
            Op::SkipEqReg(x, y) => {
                if self.regs[x as usize] == self.regs[y as usize] {
                    self.pc = self.pc + 4;
                } else {
                    self.pc = self.pc + 2;
                }
                proof {
                    assert(self@ =~= op_spec(old(self)@, op, rand).0);
                }
                Ok(())
            },
            Op::SetImm(x, nn) => {
                self.regs.set(x as usize, nn);
                self.pc = self.pc + 2;
                proof {
                    assert(self@ =~= op_spec(old(self)@, op, rand).0);
                }
                Ok(())
            },
            Op::AddImm(x, nn) => {
                let vx = self.regs[x as usize];
                self.regs.set(x as usize, vx.wrapping_add(nn));
                self.pc = self.pc + 2;
                proof {
                    assert(self@ =~= op_spec(old(self)@, op, rand).0);
                }
                Ok(())
            },
            Op::Assign(x, y) => {
                let vy = self.regs[y as usize];
                self.regs.set(x as usize, vy);
                self.pc = self.pc + 2;
                proof {
                    assert(self@ =~= op_spec(old(self)@, op, rand).0);
                }
                Ok(())
            },
            Op::OrReg(x, y) => {
                let vx = self.regs[x as usize];
                let vy = self.regs[y as usize];
                self.regs.set(x as usize, vx | vy);
                self.pc = self.pc + 2;
                proof {
                    assert(self@ =~= op_spec(old(self)@, op, rand).0);
                }
                Ok(())
            },
            Op::AndReg(x, y) => {
                let vx = self.regs[x as usize];
                let vy = self.regs[y as usize];
                self.regs.set(x as usize, vx & vy);
                self.pc = self.pc + 2;
                proof {
                    assert(self@ =~= op_spec(old(self)@, op, rand).0);
                }
                Ok(())
            },
            Op::XorReg(x, y) => {
                let vx = self.regs[x as usize];
                let vy = self.regs[y as usize];
                self.regs.set(x as usize, vx ^ vy);
                self.pc = self.pc + 2;
                proof {
                    assert(self@ =~= op_spec(old(self)@, op, rand).0);
                }
                Ok(())
            },
            Op::AddReg(x, y) => {
                let vx = self.regs[x as usize];
                let vy = self.regs[y as usize];
                let flag: u8 = if vx as u16 + vy as u16 > 255 {
                    1
                } else {
                    0
                };
                self.regs.set(x as usize, vx.wrapping_add(vy));
                self.regs.set(15, flag);
                self.pc = self.pc + 2;
                proof {
                    assert(self@ =~= op_spec(old(self)@, op, rand).0);
                }
                Ok(())
            },
            Op::SubReg(x, y) => {
                let vx = self.regs[x as usize];
                let vy = self.regs[y as usize];
                let flag: u8 = if vx >= vy {
                    1
                } else {
                    0
                };
                self.regs.set(x as usize, vx.wrapping_sub(vy));
                self.regs.set(15, flag);
                self.pc = self.pc + 2;
                proof {
                    assert(self@ =~= op_spec(old(self)@, op, rand).0);
                }
                Ok(())
            },
            Op::ShiftRight(x) => {
                let vx = self.regs[x as usize];
                self.regs.set(x as usize, vx / 2);
                self.regs.set(15, vx % 2);
                self.pc = self.pc + 2;
                proof {
                    assert(self@ =~= op_spec(old(self)@, op, rand).0);
                }
                Ok(())
            },
            Op::SubFrom(x, y) => {
                let vx = self.regs[x as usize];
                let vy = self.regs[y as usize];
                let flag: u8 = if vy >= vx {
                    1
                } else {
                    0
                };
                self.regs.set(x as usize, vy.wrapping_sub(vx));
                self.regs.set(15, flag);
                self.pc = self.pc + 2;
                proof {
                    assert(self@ =~= op_spec(old(self)@, op, rand).0);
                }
                Ok(())
            },
            Op::ShiftLeft(x) => {
                let vx = self.regs[x as usize];
                self.regs.set(x as usize, ((vx as u16 * 2) % 256) as u8);
                self.regs.set(15, vx / 128);
                self.pc = self.pc + 2;
                proof {
                    assert(self@ =~= op_spec(old(self)@, op, rand).0);
                }
                Ok(())
            },
            Op::SkipNeReg(x, y) => {
                if self.regs[x as usize] != self.regs[y as usize] {
                    self.pc = self.pc + 4;
                } else {
                    self.pc = self.pc + 2;
                }
                proof {
                    assert(self@ =~= op_spec(old(self)@, op, rand).0);
                }
                Ok(())
            },
            Op::SetIndex(nnn) => {
                self.index_reg = nnn;
                self.pc = self.pc + 2;
                proof {
                    assert(self@ =~= op_spec(old(self)@, op, rand).0);
                }
                Ok(())
            },
            Op::JumpPlusV0(nnn) => {
                self.pc = nnn + self.regs[0] as u16;
                proof {
                    assert(self@ =~= op_spec(old(self)@, op, rand).0);
                }
                Ok(())
            },
            Op::Random(x, nn) => {
                self.regs.set(x as usize, rand & nn);
                self.pc = self.pc + 2;
                proof {
                    assert(self@ =~= op_spec(old(self)@, op, rand).0);
                }
                Ok(())
            },
            Op::Draw(x, y, n) => self.op_draw(x, y, n),
            Op::SkipKeyPressed(x) => {
                let k = (self.regs[x as usize] % 16) as usize;
                if self.keypad[k] {
                    self.pc = self.pc + 4;
                } else {
                    self.pc = self.pc + 2;
                }
                proof {
                    assert(self@ =~= op_spec(old(self)@, op, rand).0);
                }
                Ok(())
            },
            Op::SkipKeyNotPressed(x) => {
                let k = (self.regs[x as usize] % 16) as usize;
                if !self.keypad[k] {
                    self.pc = self.pc + 4;
                } else {
                    self.pc = self.pc + 2;
                }
                proof {
                    assert(self@ =~= op_spec(old(self)@, op, rand).0);
                }
                Ok(())
            },
            Op::ReadDelay(x) => {
                let d = self.delay_timer;
                self.regs.set(x as usize, d);
                self.pc = self.pc + 2;
                proof {
                    assert(self@ =~= op_spec(old(self)@, op, rand).0);
                }
                Ok(())
            },
            Op::WaitKey(x) => {
                self.op_wait_key(x);
                Ok(())
            },
            Op::SetDelay(x) => {
                self.delay_timer = self.regs[x as usize];
                self.pc = self.pc + 2;
                proof {
                    assert(self@ =~= op_spec(old(self)@, op, rand).0);
                }
                Ok(())
            },
            Op::SetSound(x) => {
                self.sound_timer = self.regs[x as usize];
                self.pc = self.pc + 2;
                proof {
                    assert(self@ =~= op_spec(old(self)@, op, rand).0);
                }
                Ok(())
            },
            Op::AddIndex(x) => {
                let vx = self.regs[x as usize];
                self.index_reg = self.index_reg.wrapping_add(vx as u16);
                self.pc = self.pc + 2;
                proof {
                    assert(self@ =~= op_spec(old(self)@, op, rand).0);
                }
                Ok(())
            },
            Op::FontChar(x) => {
                let vx = self.regs[x as usize];
                self.index_reg = vx as u16 * 5;
                self.pc = self.pc + 2;
                proof {
                    assert(self@ =~= op_spec(old(self)@, op, rand).0);
                }
                Ok(())
            },
            Op::StoreBcd(x) => self.op_store_bcd(x),
            Op::StoreRegs(x) => self.op_store_regs(x),
            Op::LoadRegs(x) => self.op_load_regs(x),
            Op::Unknown(code) => {
                self.pc = self.pc + 2;
                proof {
                    assert(self@ =~= op_spec(old(self)@, op, rand).0);
                }
                Err(Chip8Error::UnknownOpcode(code))
            },
        }
    }

    /// One full fetch-decode-execute cycle. The machine and the outcome are
    /// `cycle_spec` for whichever byte the random source produced.
    pub fn emulate_cycle(&mut self) -> (r: Result<(), Chip8Error>)
        requires
            old(self).wf(),
        ensures
            final(self).wf(),
            exists|b: u8| (final(self)@, r) == #[trigger] cycle_spec(old(self)@, b),
    {
        if self.pc >= 4095 {
            proof {
                assert((self@, Err::<(), Chip8Error>(Chip8Error::OutOfBoundsAccess))
                    == cycle_spec(old(self)@, 0u8));
            }
            return Err(Chip8Error::OutOfBoundsAccess);
        }
        let code = self.fetch();
        let op = decode(code);
        let b = random_byte();
        let r = self.execute_op(op, b);
        proof {
            assert((self@, r) == cycle_spec(old(self)@, b));
        }
        r
    }
}

} // verus!
