use vstd::prelude::*;

verus! {

/// One decoded instruction. Each variant is one semantic operation; the
/// operands are the nibble and byte fields cut out of the 16-bit word:
/// `x` and `y` index the register file, `n`/`nn`/`nnn` are immediates.
#[derive(Clone, Copy, PartialEq, Eq, Structural, Debug)]
pub enum Op {
    /// `00E0`: clear the display and request a redraw.
    ClearScreen,
    /// `00EE`: pop the stack into `PC`.
    Return,
    /// `1NNN`: `PC := NNN`.
    Jump(u16),
    /// `2NNN`: push `PC + 2`, then `PC := NNN`.
    Call(u16),
    /// `3XNN`: skip the next instruction when `VX == NN`.
    SkipEqImm(u8, u8),
    /// `4XNN`: skip the next instruction when `VX != NN`.
    SkipNeImm(u8, u8),
    /// `5XY0`: skip the next instruction when `VX == VY`.
    SkipEqReg(u8, u8),
    /// `6XNN`: `VX := NN`.
    SetImm(u8, u8),
    /// `7XNN`: `VX := VX + NN` modulo 256, no flag.
    AddImm(u8, u8),
    /// `8XY0`: `VX := VY`.
    Assign(u8, u8),
    /// `8XY1`: `VX := VX | VY`.
    OrReg(u8, u8),
    /// `8XY2`: `VX := VX & VY`.
    AndReg(u8, u8),
    /// `8XY3`: `VX := VX ^ VY`.
    XorReg(u8, u8),
    /// `8XY4`: `VX := VX + VY` modulo 256; `VF` := carry.
    AddReg(u8, u8),
    /// `8XY5`: `VX := VX - VY` modulo 256; `VF` := 1 when no borrow.
    SubReg(u8, u8),
    /// `8XY6`: `VX := VX >> 1`; `VF` := the bit shifted out.
    ShiftRight(u8),
    /// `8XY7`: `VX := VY - VX` modulo 256; `VF` := 1 when no borrow.
    SubFrom(u8, u8),
    /// `8XYE`: `VX := VX << 1` modulo 256; `VF` := the bit shifted out.
    ShiftLeft(u8),
    /// `9XY0`: skip the next instruction when `VX != VY`.
    SkipNeReg(u8, u8),
    /// `ANNN`: `I := NNN`.
    SetIndex(u16),
    /// `BNNN`: `PC := NNN + V0`.
    JumpPlusV0(u16),
    /// `CXNN`: `VX := random byte & NN`.
    Random(u8, u8),
    /// `DXYN`: draw the `N`-row sprite at `I` to `(VX, VY)`; `VF` := collision.
    Draw(u8, u8, u8),
    /// `EX9E`: skip the next instruction when key `VX` is pressed.
    SkipKeyPressed(u8),
    /// `EXA1`: skip the next instruction when key `VX` is not pressed.
    SkipKeyNotPressed(u8),
    /// `FX07`: `VX := delay timer`.
    ReadDelay(u8),
    /// `FX0A`: wait for a key press; retried until one arrives.
    WaitKey(u8),
    /// `FX15`: `delay timer := VX`.
    SetDelay(u8),
    /// `FX18`: `sound timer := VX`.
    SetSound(u8),
    /// `FX1E`: `I := I + VX` modulo 2^16.
    AddIndex(u8),
    /// `FX29`: `I` := address of the font glyph for `VX`.
    FontChar(u8),
    /// `FX33`: store the decimal digits of `VX` at `I`, `I+1`, `I+2`.
    StoreBcd(u8),
    /// `FX55`: copy `V0..=VX` to memory at `I`.
    StoreRegs(u8),
    /// `FX65`: copy memory at `I` into `V0..=VX`.
    LoadRegs(u8),
    /// Any bit pattern matching no defined instruction.
    Unknown(u16),
}

/// Every operand a decoded instruction carries is in range: register indices
/// below 16, addresses below 4096, sprite heights below 16.
pub open spec fn op_wf(op: Op) -> bool {
    match op {
        Op::ClearScreen => true,
        Op::Return => true,
        Op::Jump(nnn) => nnn < 4096,
        Op::Call(nnn) => nnn < 4096,
        Op::SkipEqImm(x, nn) => x < 16,
        Op::SkipNeImm(x, nn) => x < 16,
        Op::SkipEqReg(x, y) => x < 16 && y < 16,
        Op::SetImm(x, nn) => x < 16,
        Op::AddImm(x, nn) => x < 16,
        Op::Assign(x, y) => x < 16 && y < 16,
        Op::OrReg(x, y) => x < 16 && y < 16,
        Op::AndReg(x, y) => x < 16 && y < 16,
        Op::XorReg(x, y) => x < 16 && y < 16,
        Op::AddReg(x, y) => x < 16 && y < 16,
        Op::SubReg(x, y) => x < 16 && y < 16,
        Op::ShiftRight(x) => x < 16,
        Op::SubFrom(x, y) => x < 16 && y < 16,
        Op::ShiftLeft(x) => x < 16,
        Op::SkipNeReg(x, y) => x < 16 && y < 16,
        Op::SetIndex(nnn) => nnn < 4096,
        Op::JumpPlusV0(nnn) => nnn < 4096,
        Op::Random(x, nn) => x < 16,
        Op::Draw(x, y, n) => x < 16 && y < 16 && n < 16,
        Op::SkipKeyPressed(x) => x < 16,
        Op::SkipKeyNotPressed(x) => x < 16,
        Op::ReadDelay(x) => x < 16,
        Op::WaitKey(x) => x < 16,
        Op::SetDelay(x) => x < 16,
        Op::SetSound(x) => x < 16,
        Op::AddIndex(x) => x < 16,
        Op::FontChar(x) => x < 16,
        Op::StoreBcd(x) => x < 16,
        Op::StoreRegs(x) => x < 16,
        Op::LoadRegs(x) => x < 16,
        Op::Unknown(code) => true,
    }
}

/// What the 16 bits of `code` mean. Fields are cut out arithmetically: the
/// top nibble selects the family, `X` is bits 8..12, `Y` bits 4..8, and the
/// low 4, 8 or 12 bits form the immediate.
pub open spec fn decode_spec(code: u16) -> Op {
    let top = code / 0x1000;
    let x = ((code / 0x100) % 16) as u8;
    let y = ((code / 16) % 16) as u8;
    let n = (code % 16) as u8;
    let nn = (code % 256) as u8;
    let nnn = code % 0x1000;
    if top == 0x0 {
        if code == 0x00E0 {
            Op::ClearScreen
        } else if code == 0x00EE {
            Op::Return
        } else {
            Op::Unknown(code)
        }
    } else if top == 0x1 {
        Op::Jump(nnn)
    } else if top == 0x2 {
        Op::Call(nnn)
    } else if top == 0x3 {
        Op::SkipEqImm(x, nn)
    } else if top == 0x4 {
        Op::SkipNeImm(x, nn)
    } else if top == 0x5 {
        if n == 0 {
            Op::SkipEqReg(x, y)
        } else {
            Op::Unknown(code)
        }
    } else if top == 0x6 {
        Op::SetImm(x, nn)
    } else if top == 0x7 {
        Op::AddImm(x, nn)
    } else if top == 0x8 {
        if n == 0x0 {
            Op::Assign(x, y)
        } else if n == 0x1 {
            Op::OrReg(x, y)
        } else if n == 0x2 {
            Op::AndReg(x, y)
        } else if n == 0x3 {
            Op::XorReg(x, y)
        } else if n == 0x4 {
            Op::AddReg(x, y)
        } else if n == 0x5 {
            Op::SubReg(x, y)
        } else if n == 0x6 {
            Op::ShiftRight(x)
        } else if n == 0x7 {
            Op::SubFrom(x, y)
        } else if n == 0xE {
            Op::ShiftLeft(x)
        } else {
            Op::Unknown(code)
        }
    } else if top == 0x9 {
        if n == 0 {
            Op::SkipNeReg(x, y)
        } else {
            Op::Unknown(code)
        }
    } else if top == 0xA {
        Op::SetIndex(nnn)
    } else if top == 0xB {
        Op::JumpPlusV0(nnn)
    } else if top == 0xC {
        Op::Random(x, nn)
    } else if top == 0xD {
        Op::Draw(x, y, n)
    } else if top == 0xE {
        if nn == 0x9E {
            Op::SkipKeyPressed(x)
        } else if nn == 0xA1 {
            Op::SkipKeyNotPressed(x)
        } else {
            Op::Unknown(code)
        }
    } else {
        if nn == 0x07 {
            Op::ReadDelay(x)
        } else if nn == 0x0A {
            Op::WaitKey(x)
        } else if nn == 0x15 {
            Op::SetDelay(x)
        } else if nn == 0x18 {
            Op::SetSound(x)
        } else if nn == 0x1E {
            Op::AddIndex(x)
        } else if nn == 0x29 {
            Op::FontChar(x)
        } else if nn == 0x33 {
            Op::StoreBcd(x)
        } else if nn == 0x55 {
            Op::StoreRegs(x)
        } else if nn == 0x65 {
            Op::LoadRegs(x)
        } else {
            Op::Unknown(code)
        }
    }
}

/// Decode one instruction word.
pub fn decode(code: u16) -> (r: Op)
    ensures
        r == decode_spec(code),
        op_wf(r),
{
    let top = code / 0x1000;
    let x = ((code / 0x100) % 16) as u8;
    let y = ((code / 16) % 16) as u8;
    let n = (code % 16) as u8;
    let nn = (code % 256) as u8;
    let nnn = code % 0x1000;
    if top == 0x0 {
        if code == 0x00E0 {
            Op::ClearScreen
        } else if code == 0x00EE {
            Op::Return
        } else {
            Op::Unknown(code)
        }
    } else if top == 0x1 {
        Op::Jump(nnn)
    } else if top == 0x2 {
        Op::Call(nnn)
    } else if top == 0x3 {
        Op::SkipEqImm(x, nn)
    } else if top == 0x4 {
        Op::SkipNeImm(x, nn)
    } else if top == 0x5 {
        if n == 0 {
            Op::SkipEqReg(x, y)
        } else {
            Op::Unknown(code)
        }
    } else if top == 0x6 {
        Op::SetImm(x, nn)
    } else if top == 0x7 {
        Op::AddImm(x, nn)
    } else if top == 0x8 {
        if n == 0x0 {
            Op::Assign(x, y)
        } else if n == 0x1 {
            Op::OrReg(x, y)
        } else if n == 0x2 {
            Op::AndReg(x, y)
        } else if n == 0x3 {
            Op::XorReg(x, y)
        } else if n == 0x4 {
            Op::AddReg(x, y)
        } else if n == 0x5 {
            Op::SubReg(x, y)
        } else if n == 0x6 {
            Op::ShiftRight(x)
        } else if n == 0x7 {
            Op::SubFrom(x, y)
        } else if n == 0xE {
            Op::ShiftLeft(x)
        } else {
            Op::Unknown(code)
        }
    } else if top == 0x9 {
        if n == 0 {
            Op::SkipNeReg(x, y)
        } else {
            Op::Unknown(code)
        }
    } else if top == 0xA {
        Op::SetIndex(nnn)
    } else if top == 0xB {
        Op::JumpPlusV0(nnn)
    } else if top == 0xC {
        Op::Random(x, nn)
    } else if top == 0xD {
        Op::Draw(x, y, n)
    } else if top == 0xE {
        if nn == 0x9E {
            Op::SkipKeyPressed(x)
        } else if nn == 0xA1 {
            Op::SkipKeyNotPressed(x)
        } else {
            Op::Unknown(code)
        }
    } else {
        if nn == 0x07 {
            Op::ReadDelay(x)
        } else if nn == 0x0A {
            Op::WaitKey(x)
        } else if nn == 0x15 {
            Op::SetDelay(x)
        } else if nn == 0x18 {
            Op::SetSound(x)
        } else if nn == 0x1E {
            Op::AddIndex(x)
        } else if nn == 0x29 {
            Op::FontChar(x)
        } else if nn == 0x33 {
            Op::StoreBcd(x)
        } else if nn == 0x55 {
            Op::StoreRegs(x)
        } else if nn == 0x65 {
            Op::LoadRegs(x)
        } else {
            Op::Unknown(code)
        }
    }
}

} // verus!
