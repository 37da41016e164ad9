use vstd::prelude::*;

verus! {

/// A failure raised by the interpreter core.
#[derive(Clone, Copy, PartialEq, Eq, Structural, Debug)]
pub enum Chip8Error {
    /// A program image would run past the end of the 4096-byte memory; nothing
    /// was copied.
    OutOfMemory,
    /// A seventeenth nested subroutine call was attempted; fatal.
    StackOverflow,
    /// A subroutine return was attempted with no call outstanding; fatal.
    StackUnderflow,
    /// A computed address fell outside the 4096-byte memory space; fatal.
    OutOfBoundsAccess,
    /// The fetched word matches no defined instruction. Not fatal: the program
    /// counter has already advanced past the offending word.
    UnknownOpcode(u16),
}

/// Mathematical snapshot of the whole machine, the value that every contract
/// speaks about.
#[verifier::ext_equal]
pub ghost struct MachineView {
    pub memory: Seq<u8>,
    pub regs: Seq<u8>,
    pub index_reg: u16,
    pub pc: u16,
    pub display: Seq<bool>,
    pub delay_timer: u8,
    pub sound_timer: u8,
    pub stack: Seq<u16>,
    pub sp: int,
    pub keypad: Seq<bool>,
    pub draw_flag: bool,
}

/// Shape of a valid machine: 4096 memory bytes, 16 registers, a 64x32 display,
/// a 16-level stack whose pointer never leaves [0, 16], and 16 keys.
pub open spec fn view_wf(v: MachineView) -> bool {
    &&& v.memory.len() == 4096
    &&& v.regs.len() == 16
    &&& v.display.len() == 2048
    &&& v.stack.len() == 16
    &&& 0 <= v.sp <= 16
    &&& v.keypad.len() == 16
}

/// The built-in font: 16 glyphs of 5 rows each, one byte per row, the
/// most-significant bit being the leftmost pixel.
pub open spec fn font_seq() -> Seq<u8> {
    seq![
        0xF0u8, 0x90, 0x90, 0x90, 0xF0, // 0
        0x20, 0x60, 0x20, 0x20, 0x70, // 1
        0xF0, 0x10, 0xF0, 0x80, 0xF0, // 2
        0xF0, 0x10, 0xF0, 0x10, 0xF0, // 3
        0x90, 0x90, 0xF0, 0x10, 0x10, // 4
        0xF0, 0x80, 0xF0, 0x10, 0xF0, // 5
        0xF0, 0x80, 0xF0, 0x90, 0xF0, // 6
        0xF0, 0x10, 0x20, 0x40, 0x40, // 7
        0xF0, 0x90, 0xF0, 0x90, 0xF0, // 8
        0xF0, 0x90, 0xF0, 0x10, 0xF0, // 9
        0xF0, 0x90, 0xF0, 0x90, 0x90, // A
        0xE0, 0x90, 0xE0, 0x90, 0xE0, // B
        0xF0, 0x80, 0x80, 0x80, 0xF0, // C
        0xE0, 0x90, 0x90, 0x90, 0xE0, // D
        0xF0, 0x80, 0xF0, 0x80, 0xF0, // E
        0xF0, 0x80, 0xF0, 0x80, 0x80, // F
    ]
}

/// Memory at power-on: the font in the first 80 bytes, zero everywhere else.
pub open spec fn initial_memory() -> Seq<u8> {
    Seq::new(4096, |i: int| if i < 80 { font_seq()[i] } else { 0u8 })
}

/// The machine as `new` hands it out: font preloaded, `PC` at 0x200, all
/// other state zeroed.
pub open spec fn initial_machine() -> MachineView {
    MachineView {
        memory: initial_memory(),
        regs: Seq::new(16, |i: int| 0u8),
        index_reg: 0,
        pc: 0x200,
        display: Seq::new(2048, |i: int| false),
        delay_timer: 0,
        sound_timer: 0,
        stack: Seq::new(16, |i: int| 0u16),
        sp: 0,
        keypad: Seq::new(16, |i: int| false),
        draw_flag: false,
    }
}

/// Copying `prog` into memory at `base`: refused outright when it would run
/// past the 4096-byte space, otherwise written verbatim with all other state
/// untouched.
pub open spec fn load_spec(v: MachineView, prog: Seq<u8>, base: int) -> (MachineView, Result<
    (),
    Chip8Error,
>) {
    if base + prog.len() > 4096 {
        (v, Err(Chip8Error::OutOfMemory))
    } else {
        (
            MachineView {
                memory: Seq::new(
                    4096,
                    |i: int|
                        if base <= i < base + prog.len() {
                            prog[i - base]
                        } else {
                            v.memory[i]
                        },
                ),
                ..v
            },
            Ok(()),
        )
    }
}

/// One 60 Hz tick: each timer steps down by one when non-zero and stays at
/// zero otherwise.
pub open spec fn tick_spec(v: MachineView) -> MachineView {
    MachineView {
        delay_timer: if v.delay_timer > 0 {
            (v.delay_timer - 1) as u8
        } else {
            0u8
        },
        sound_timer: if v.sound_timer > 0 {
            (v.sound_timer - 1) as u8
        } else {
            0u8
        },
        ..v
    }
}

/// The CHIP-8 machine: memory, register file, index register, program
/// counter, display, timers, call stack, and keypad.
pub struct ChipEight {
    pub(crate) memory: Vec<u8>,
    pub(crate) regs: Vec<u8>,
    pub(crate) index_reg: u16,
    pub(crate) pc: u16,
    pub(crate) display: Vec<bool>,
    pub(crate) delay_timer: u8,
    pub(crate) sound_timer: u8,
    pub(crate) stack: Vec<u16>,
    pub(crate) sp: usize,
    pub(crate) keypad: Vec<bool>,
    pub(crate) draw_flag: bool,
}

impl View for ChipEight {
    type V = MachineView;

    open(crate) spec fn view(&self) -> MachineView {
        MachineView {
            memory: self.memory@,
            regs: self.regs@,
            index_reg: self.index_reg,
            pc: self.pc,
            display: self.display@,
            delay_timer: self.delay_timer,
            sound_timer: self.sound_timer,
            stack: self.stack@,
            sp: self.sp as int,
            keypad: self.keypad@,
            draw_flag: self.draw_flag,
        }
    }
}

/// A vector holding `n` copies of `val`.
pub(crate) fn repeat_value<T: Copy>(val: T, n: usize) -> (r: Vec<T>)
    ensures
        r@ == Seq::new(n as nat, |i: int| val),
{
    let mut r: Vec<T> = Vec::new();
    let mut i: usize = 0;
    while i < n
        invariant
            i <= n,
            r@ == Seq::new(i as nat, |j: int| val),
        decreases n - i,
    {
        r.push(val);
        i += 1;
        proof {
            assert(r@ =~= Seq::new(i as nat, |j: int| val));
        }
    }
    r
}

/// The 80 font bytes, in glyph order.
fn font_vec() -> (r: Vec<u8>)
    ensures
        r@ == font_seq(),
{
    let mut r: Vec<u8> = Vec::new();
    r.push(0xF0); r.push(0x90); r.push(0x90); r.push(0x90); r.push(0xF0);
    r.push(0x20); r.push(0x60); r.push(0x20); r.push(0x20); r.push(0x70);
    r.push(0xF0); r.push(0x10); r.push(0xF0); r.push(0x80); r.push(0xF0);
    r.push(0xF0); r.push(0x10); r.push(0xF0); r.push(0x10); r.push(0xF0);
    r.push(0x90); r.push(0x90); r.push(0xF0); r.push(0x10); r.push(0x10);
    r.push(0xF0); r.push(0x80); r.push(0xF0); r.push(0x10); r.push(0xF0);
    r.push(0xF0); r.push(0x80); r.push(0xF0); r.push(0x90); r.push(0xF0);
    r.push(0xF0); r.push(0x10); r.push(0x20); r.push(0x40); r.push(0x40);
    r.push(0xF0); r.push(0x90); r.push(0xF0); r.push(0x90); r.push(0xF0);
    r.push(0xF0); r.push(0x90); r.push(0xF0); r.push(0x10); r.push(0xF0);
    r.push(0xF0); r.push(0x90); r.push(0xF0); r.push(0x90); r.push(0x90);
    r.push(0xE0); r.push(0x90); r.push(0xE0); r.push(0x90); r.push(0xE0);
    r.push(0xF0); r.push(0x80); r.push(0x80); r.push(0x80); r.push(0xF0);
    r.push(0xE0); r.push(0x90); r.push(0x90); r.push(0x90); r.push(0xE0);
    r.push(0xF0); r.push(0x80); r.push(0xF0); r.push(0x80); r.push(0xF0);
    r.push(0xF0); r.push(0x80); r.push(0xF0); r.push(0x80); r.push(0x80);
    proof {
        assert(r@ =~= font_seq());
    }
    r
}

/// The full 4096-byte power-on memory image.
fn build_initial_memory() -> (r: Vec<u8>)
    ensures
        r@ == initial_memory(),
{
    let mut m = font_vec();
    proof {
        assert(m@.len() == 80);
    }
    while m.len() < 4096
        invariant
            80 <= m@.len() <= 4096,
            forall|i: int| 0 <= i < m@.len() ==> m@[i] == initial_memory()[i],
        decreases 4096 - m@.len(),
    {
        m.push(0u8);
    }
    proof {
        assert(m@ =~= initial_memory());
    }
    m
}

impl ChipEight {
    /// Every machine this module hands out satisfies this shape; every method
    /// preserves it.
    pub open spec fn wf(&self) -> bool {
        view_wf(self@)
    }

    /// A fresh machine: font preloaded, `PC = 0x200`, everything else zero.
    pub fn new() -> (r: ChipEight)
        ensures
            r.wf(),
            r@ == initial_machine(),
    {
        let r = ChipEight {
            memory: build_initial_memory(),
            regs: repeat_value(0u8, 16),
            index_reg: 0,
            pc: 0x200,
            display: repeat_value(false, 2048),
            delay_timer: 0,
            sound_timer: 0,
            stack: repeat_value(0u16, 16),
            sp: 0,
            keypad: repeat_value(false, 16),
            draw_flag: false,
        };
        proof {
            assert(r@ =~= initial_machine());
        }
        r
    }

    /// Copy a program image verbatim into memory starting at `base`.
    pub fn load_memory_at(&mut self, program: &Vec<u8>, base: usize) -> (r: Result<
        (),
        Chip8Error,
    >)
        requires
            old(self).wf(),
        ensures
            final(self).wf(),
            (final(self)@, r) == load_spec(old(self)@, program@, base as int),
    {
        if program.len() > 4096 {
            return Err(Chip8Error::OutOfMemory);
        }
        if base > 4096 - program.len() {
            return Err(Chip8Error::OutOfMemory);
        }
        let mut i: usize = 0;
        while i < program.len()
            invariant
                old(self).wf(),
                i <= program.len(),
                base + program.len() <= 4096,
                self@ == (MachineView {
                    memory: self@.memory,
                    ..old(self)@
                }),
                self@.memory.len() == 4096,
                forall|j: int|
                    0 <= j < 4096 ==> self@.memory[j] == (if base <= j < base + i {
                        program@[j - base]
                    } else {
                        old(self)@.memory[j]
                    }),
            decreases program.len() - i,
        {
            self.memory.set(base + i, program[i]);
            i += 1;
        }
        proof {
            assert(self@ =~= load_spec(old(self)@, program@, base as int).0);
        }
        Ok(())
    }

    /// Copy a program image to the default program start, address 0x200.
    pub fn load_memory(&mut self, program: &Vec<u8>) -> (r: Result<(), Chip8Error>)
        requires
            old(self).wf(),
        ensures
            final(self).wf(),
            (final(self)@, r) == load_spec(old(self)@, program@, 0x200),
    {
        self.load_memory_at(program, 0x200)
    }

    /// One 60 Hz tick: decrement each timer that is non-zero.
    pub fn tick_timers(&mut self)
        requires
            old(self).wf(),
        ensures
            final(self).wf(),
            final(self)@ == tick_spec(old(self)@),
    {
        if self.delay_timer > 0 {
            self.delay_timer = self.delay_timer - 1;
        }
        if self.sound_timer > 0 {
            self.sound_timer = self.sound_timer - 1;
        }
        proof {
            assert(self@ =~= tick_spec(old(self)@));
        }
    }

    /// Record whether key `key` (0 to 15) is currently pressed.
    pub fn set_key(&mut self, key: usize, pressed: bool)
        requires
            old(self).wf(),
            key < 16,
        ensures
            final(self).wf(),
            final(self)@ == (MachineView {
                keypad: old(self)@.keypad.update(key as int, pressed),
                ..old(self)@
            }),
    {
        self.keypad.set(key, pressed);
        proof {
            assert(self@ =~= (MachineView {
                keypad: old(self)@.keypad.update(key as int, pressed),
                ..old(self)@
            }));
        }
    }

    /// Read and clear the redraw flag in one step.
    pub fn take_redraw_flag(&mut self) -> (r: bool)
        requires
            old(self).wf(),
        ensures
            final(self).wf(),
            r == old(self)@.draw_flag,
            final(self)@ == (MachineView { draw_flag: false, ..old(self)@ }),
    {
        let r = self.draw_flag;
        self.draw_flag = false;
        proof {
            assert(self@ =~= (MachineView { draw_flag: false, ..old(self)@ }));
        }
        r
    }

    /// Read-only view of the 2048-pixel framebuffer, row-major, 64 per row.
    pub fn framebuffer(&self) -> (r: &Vec<bool>)
        ensures
            r@ == self@.display,
    {
        &self.display
    }

    /// The pixel at column `x`, row `y`.
    pub fn pixel(&self, x: usize, y: usize) -> (r: bool)
        requires
            self.wf(),
            x < 64,
            y < 32,
        ensures
            r == self@.display[y * 64 + x],
    {
        self.display[y * 64 + x]
    }

    /// Force the pixel at column `x`, row `y` on or off, for a front end or a
    /// test that seeds the display.
    pub fn set_pixel(&mut self, x: usize, y: usize, on: bool)
        requires
            old(self).wf(),
            x < 64,
            y < 32,
        ensures
            final(self).wf(),
            final(self)@ == (MachineView {
                display: old(self)@.display.update(y * 64 + x, on),
                ..old(self)@
            }),
    {
        self.display.set(y * 64 + x, on);
        proof {
            assert(self@ =~= (MachineView {
                display: old(self)@.display.update(y as int * 64 + x as int, on),
                ..old(self)@
            }));
        }
    }

    /// General-purpose register `x`.
    pub fn register(&self, x: usize) -> (r: u8)
        requires
            self.wf(),
            x < 16,
        ensures
            r == self@.regs[x as int],
    {
        self.regs[x]
    }

    /// The program counter.
    pub fn program_counter(&self) -> (r: u16)
        ensures
            r == self@.pc,
    {
        self.pc
    }

    /// The index register `I`.
    pub fn index_register(&self) -> (r: u16)
        ensures
            r == self@.index_reg,
    {
        self.index_reg
    }

    /// The delay timer's current value.
    pub fn delay_value(&self) -> (r: u8)
        ensures
            r == self@.delay_timer,
    {
        self.delay_timer
    }

    /// The sound timer's current value.
    pub fn sound_value(&self) -> (r: u8)
        ensures
            r == self@.sound_timer,
    {
        self.sound_timer
    }

    /// True while the sound timer is running, the cue for an audible tone.
    pub fn sound_active(&self) -> (r: bool)
        ensures
            r == (self@.sound_timer > 0),
    {
        self.sound_timer > 0
    }

    /// How many subroutine calls are outstanding.
    pub fn stack_depth(&self) -> (r: usize)
        ensures
            r == self@.sp,
    {
        self.sp
    }

    /// The byte at `addr`, for inspecting loaded images and `FX33`/`FX55`
    /// output.
    pub fn memory_at(&self, addr: usize) -> (r: u8)
        requires
            self.wf(),
            addr < 4096,
        ensures
            r == self@.memory[addr as int],
    {
        self.memory[addr]
    }
}

} // verus!
