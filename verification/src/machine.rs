//! The execution engine: memory, registers, call stack, timers and the
//! display, together with the dispatcher that applies one decoded
//! instruction per step.
//!
//! The whole machine is modelled by the ghost [`State`]; one execution
//! step is the mathematical function [`step_spec`], and the executable
//! [`Machine::step`] is proved to implement it exactly: fetch the two
//! bytes at the program counter (big-endian), decode, advance the
//! program counter by two, then dispatch on the nibble pattern.  A jump
//! replaces the program counter instead of advancing it; an instruction
//! word with no dispatcher entry leaves the state untouched (beyond the
//! advance) and is reported, so execution can continue over gaps in
//! instruction coverage.

use vstd::prelude::*;
use crate::decoder::{hi_nib, lo_nib, word_of, addr_of, Instr};
use crate::display::{blank, draw_disp, draw_collides, Display};

verus! {

/// The ghost model of the whole engine: 4096 memory bytes, sixteen
/// 8-bit registers, the 16-bit index register and program counter, the
/// two 8-bit timers, the bounded call stack and the 64x32 display.
#[verifier::ext_equal]
pub ghost struct State {
    /// Memory contents, 4096 bytes.
    pub mem: Seq<u8>,
    /// General-purpose registers V0..VF; VF doubles as the flag register.
    pub v: Seq<u8>,
    /// Index register.
    pub i: u16,
    /// Program counter.
    pub pc: u16,
    /// Delay timer, decremented at 60 Hz, clamped at 0.
    pub delay: u8,
    /// Sound timer, decremented at 60 Hz, clamped at 0.
    pub sound: u8,
    /// Return addresses of active subroutine calls, at most 16.
    pub stack: Seq<u16>,
    /// Display contents, row-major, 64 * 32 pixels.
    pub disp: Seq<bool>,
}

/// What one step reports besides its state change.
#[derive(Clone, Copy, Debug, PartialEq, Eq, Structural)]
pub enum Outcome {
    /// The instruction had a dispatcher entry and was applied.
    Executed,
    /// The instruction word has no dispatcher entry; the program counter
    /// advanced normally and the rest of the state is untouched.
    Unimplemented(u16),
}

/// Fatal conditions: the step performs no state change and execution
/// should halt.
#[derive(Clone, Copy, Debug, PartialEq, Eq, Structural)]
pub enum Fault {
    /// The program counter does not leave room for a two-byte fetch
    /// inside the 4096-byte memory.
    FetchOutOfBounds { addr: u16 },
    /// A sprite row would be read outside memory; carries the first
    /// offending address and the instruction word.
    SpriteOutOfBounds { addr: u16, opcode: u16 },
}

/// Rejections at program-image load time.
#[derive(Clone, Copy, Debug, PartialEq, Eq, Structural)]
pub enum LoadError {
    /// The image does not fit in memory from 0x200 onward.
    TooLarge,
}

/// Addition modulo 256, the wrap rule of the add-immediate instruction.
pub open spec fn wrap_add(a: u8, b: u8) -> u8 {
    ((a + b) % 256) as u8
}

/// One 60 Hz timer decrement: down by one, clamped at zero.
pub open spec fn dec_toward_zero(t: u8) -> u8 {
    if t > 0 {
        (t - 1) as u8
    } else {
        0
    }
}

/// The first out-of-memory address a sprite read starting at `i` would
/// touch.
pub open spec fn sprite_fault_addr(i: u16) -> u16 {
    if i >= 4096 {
        i
    } else {
        4096
    }
}

/// The sprite rows read from memory: `h` bytes starting at address `i`.
pub open spec fn sprite_rows(mem: Seq<u8>, i: u16, h: int) -> Seq<u8> {
    Seq::new(h as nat, |k: int| mem[i + k])
}

/// One execution step as a mathematical function: the state after the
/// step and what the step reports.  Fetch the bytes at `pc` and `pc+1`,
/// decode, and dispatch on the nibble pattern; a fault leaves the state
/// exactly as it was.
pub open spec fn step_spec(pre: State) -> (State, Result<Outcome, Fault>) {
    if pre.pc >= 4095 {
        (pre, Err(Fault::FetchOutOfBounds { addr: pre.pc }))
    } else {
        let b1 = pre.mem[pre.pc as int];
        let b2 = pre.mem[pre.pc as int + 1];
        let nxt = State { pc: (pre.pc + 2) as u16, ..pre };
        if hi_nib(b1) == 0x0 && lo_nib(b1) == 0x0 && hi_nib(b2) == 0xE && lo_nib(b2) == 0x0 {
            // 00E0: clear the display.
            (State { disp: blank(), ..nxt }, Ok(Outcome::Executed))
        } else if hi_nib(b1) == 0x1 {
            // 1nnn: jump; the program counter becomes exactly nnn.
            (State { pc: addr_of(b1, b2), ..pre }, Ok(Outcome::Executed))
        } else if hi_nib(b1) == 0x6 {
            // 6xnn: load immediate.
            (State { v: pre.v.update(lo_nib(b1) as int, b2), ..nxt }, Ok(Outcome::Executed))
        } else if hi_nib(b1) == 0x7 {
            // 7xnn: add immediate, wrapping modulo 256, no flag change.
            (
                State {
                    v: pre.v.update(lo_nib(b1) as int, wrap_add(pre.v[lo_nib(b1) as int], b2)),
                    ..nxt
                },
                Ok(Outcome::Executed),
            )
        } else if hi_nib(b1) == 0xA {
            // Annn: load the index register.
            (State { i: addr_of(b1, b2), ..nxt }, Ok(Outcome::Executed))
        } else if hi_nib(b1) == 0xD {
            // Dxyn: draw an 8-wide, n-high sprite read from memory at I.
            let h = lo_nib(b2) as int;
            if h > 0 && pre.i + h > 4096 {
                (
                    pre,
                    Err(
                        Fault::SpriteOutOfBounds {
                            addr: sprite_fault_addr(pre.i),
                            opcode: word_of(b1, b2),
                        },
                    ),
                )
            } else {
                let x0 = (pre.v[lo_nib(b1) as int] % 64) as int;
                let y0 = (pre.v[hi_nib(b2) as int] % 32) as int;
                let rows = sprite_rows(pre.mem, pre.i, h);
                let coll = draw_collides(pre.disp, rows, x0, y0);
                (
                    State {
                        v: pre.v.update(15, if coll { 1u8 } else { 0u8 }),
                        disp: draw_disp(pre.disp, rows, x0, y0),
                        ..nxt
                    },
                    Ok(Outcome::Executed),
                )
            }
        } else {
            (nxt, Ok(Outcome::Unimplemented(word_of(b1, b2))))
        }
    }
}

/// The engine.  All state is owned here and mutated only by the
/// methods below, on the calling thread.
pub struct Machine {
    mem: Vec<u8>,
    v: Vec<u8>,
    i: u16,
    pc: u16,
    delay: u8,
    sound: u8,
    stack: Vec<u16>,
    display: Display,
}

impl View for Machine {
    type V = State;

    closed spec fn view(&self) -> State {
        State {
            mem: self.mem@,
            v: self.v@,
            i: self.i,
            pc: self.pc,
            delay: self.delay,
            sound: self.sound,
            stack: self.stack@,
            disp: self.display@,
        }
    }
}

/// The fixed font table: 16 glyphs of 5 bytes each.
pub open spec fn font_seq() -> Seq<u8> {
    seq![
        0xF0u8, 0x90u8, 0x90u8, 0x90u8, 0xF0u8,  // 0
        0x20u8, 0x60u8, 0x20u8, 0x20u8, 0x70u8,  // 1
        0xF0u8, 0x10u8, 0xF0u8, 0x80u8, 0xF0u8,  // 2
        0xF0u8, 0x10u8, 0xF0u8, 0x10u8, 0xF0u8,  // 3
        0x90u8, 0x90u8, 0xF0u8, 0x10u8, 0x10u8,  // 4
        0xF0u8, 0x80u8, 0xF0u8, 0x10u8, 0xF0u8,  // 5
        0xF0u8, 0x80u8, 0xF0u8, 0x90u8, 0xF0u8,  // 6
        0xF0u8, 0x10u8, 0x20u8, 0x40u8, 0x40u8,  // 7
        0xF0u8, 0x90u8, 0xF0u8, 0x90u8, 0xF0u8,  // 8
        0xF0u8, 0x90u8, 0xF0u8, 0x10u8, 0xF0u8,  // 9
        0xF0u8, 0x90u8, 0xF0u8, 0x90u8, 0x90u8,  // A
        0xE0u8, 0x90u8, 0xE0u8, 0x90u8, 0xE0u8,  // B
        0xF0u8, 0x80u8, 0x80u8, 0x80u8, 0xF0u8,  // C
        0xE0u8, 0x90u8, 0x90u8, 0x90u8, 0xE0u8,  // D
        0xF0u8, 0x80u8, 0xF0u8, 0x80u8, 0xF0u8,  // E
        0xF0u8, 0x80u8, 0xF0u8, 0x80u8, 0x80u8,  // F
    ]
}

/// Memory at construction time: zeroed, with the font table in the
/// reserved region at 0x050..0x0A0.
pub open spec fn initial_mem() -> Seq<u8> {
    Seq::new(4096, |j: int| if 0x50 <= j < 0xA0 { font_seq()[j - 0x50] } else { 0u8 })
}

/// The whole engine at construction time: initial memory, zeroed
/// registers and timers, empty stack, program counter at 0x200, blank
/// display.
pub open spec fn initial_state() -> State {
    State {
        mem: initial_mem(),
        v: Seq::new(16, |k: int| 0u8),
        i: 0,
        pc: 0x200,
        delay: 0,
        sound: 0,
        stack: Seq::empty(),
        disp: blank(),
    }
}

/// Memory after loading a program image at 0x200: image bytes there,
/// everything else untouched.
pub open spec fn loaded_mem(mem: Seq<u8>, image: Seq<u8>) -> Seq<u8> {
    Seq::new(4096, |j: int| if 0x200 <= j < 0x200 + image.len() { image[j - 0x200] } else { mem[j] })
}

/// The font table as bytes.
fn font_table() -> (f: Vec<u8>)
    ensures
        f@ == font_seq(),
{
    let f: Vec<u8> = vec![
        0xF0u8, 0x90u8, 0x90u8, 0x90u8, 0xF0u8,  // 0
        0x20u8, 0x60u8, 0x20u8, 0x20u8, 0x70u8,  // 1
        0xF0u8, 0x10u8, 0xF0u8, 0x80u8, 0xF0u8,  // 2
        0xF0u8, 0x10u8, 0xF0u8, 0x10u8, 0xF0u8,  // 3
        0x90u8, 0x90u8, 0xF0u8, 0x10u8, 0x10u8,  // 4
        0xF0u8, 0x80u8, 0xF0u8, 0x10u8, 0xF0u8,  // 5
        0xF0u8, 0x80u8, 0xF0u8, 0x90u8, 0xF0u8,  // 6
        0xF0u8, 0x10u8, 0x20u8, 0x40u8, 0x40u8,  // 7
        0xF0u8, 0x90u8, 0xF0u8, 0x90u8, 0xF0u8,  // 8
        0xF0u8, 0x90u8, 0xF0u8, 0x10u8, 0xF0u8,  // 9
        0xF0u8, 0x90u8, 0xF0u8, 0x90u8, 0x90u8,  // A
        0xE0u8, 0x90u8, 0xE0u8, 0x90u8, 0xE0u8,  // B
        0xF0u8, 0x80u8, 0x80u8, 0x80u8, 0xF0u8,  // C
        0xE0u8, 0x90u8, 0x90u8, 0x90u8, 0xE0u8,  // D
        0xF0u8, 0x80u8, 0xF0u8, 0x80u8, 0xF0u8,  // E
        0xF0u8, 0x80u8, 0xF0u8, 0x80u8, 0x80u8,  // F
    ];
    proof {
        assert(f@ =~= font_seq());
    }
    f
}

impl Machine {
    /// Structural invariant: the component sizes of the data model.
    pub open spec fn wf(self) -> bool {
        &&& self@.mem.len() == 4096
        &&& self@.v.len() == 16
        &&& self@.stack.len() <= 16
        &&& self@.disp.len() == 2048
    }

    /// Construct the engine: memory zeroed and the font table copied
    /// into its reserved region, registers and timers zeroed, empty
    /// stack, program counter at 0x200, blank display.
    pub fn new() -> (m: Machine)
        ensures
            m.wf(),
            m@ == initial_state(),
    {
        let mut mem: Vec<u8> = Vec::new();
        let mut j: usize = 0;
        while j < 4096
            invariant
                j <= 4096,
                mem@.len() == j,
                forall|k: int| 0 <= k < j ==> mem@[k] == 0u8,
            decreases 4096 - j,
        {
            mem.push(0);
            j += 1;
        }
        let font = font_table();
        let mut k: usize = 0;
        while k < 80
            invariant
                k <= 80,
                mem@.len() == 4096,
                font@ == font_seq(),
                forall|t: int| 0x50 <= t < 0x50 + k ==> mem@[t] == font_seq()[t - 0x50],
                forall|t: int| 0 <= t < 4096 && !(0x50 <= t < 0x50 + k) ==> mem@[t] == 0u8,
            decreases 80 - k,
        {
            let b = font[k];
            mem.set(0x50 + k, b);
            k += 1;
        }
        let mut v: Vec<u8> = Vec::new();
        let mut n: usize = 0;
        while n < 16
            invariant
                n <= 16,
                v@.len() == n,
                forall|t: int| 0 <= t < n ==> v@[t] == 0u8,
            decreases 16 - n,
        {
            v.push(0);
            n += 1;
        }
        let m = Machine {
            mem,
            v,
            i: 0,
            pc: 0x200,
            delay: 0,
            sound: 0,
            stack: Vec::new(),
            display: Display::new(),
        };
        proof {
            assert(m@.mem =~= initial_mem());
            assert(m@.v =~= Seq::new(16, |t: int| 0u8));
            assert(m@.stack =~= Seq::<u16>::empty());
            assert(m@ =~= initial_state());
        }
        m
    }

    /// Load a program image at 0x200.  An image longer than the 3584
    /// bytes available from 0x200 onward is rejected and nothing
    /// changes; otherwise the image is copied verbatim and everything
    /// else is left untouched.
    pub fn load(&mut self, image: &Vec<u8>) -> (r: Result<(), LoadError>)
        requires
            old(self).wf(),
        ensures
            final(self).wf(),
            image@.len() > 3584 ==> r == Err::<(), LoadError>(LoadError::TooLarge) && final(self)@
                == old(self)@,
            image@.len() <= 3584 ==> r == Ok::<(), LoadError>(()) && final(self)@ == (State {
                mem: loaded_mem(old(self)@.mem, image@),
                ..old(self)@
            }),
    {
        if image.len() > 3584 {
            return Err(LoadError::TooLarge);
        }
        let mut k: usize = 0;
        while k < image.len()
            invariant
                k <= image@.len(),
                image@.len() <= 3584,
                self.mem@.len() == 4096,
                self.v@ == old(self)@.v,
                self.i == old(self)@.i,
                self.pc == old(self)@.pc,
                self.delay == old(self)@.delay,
                self.sound == old(self)@.sound,
                self.stack@ == old(self)@.stack,
                self.display@ == old(self)@.disp,
                forall|t: int| 0x200 <= t < 0x200 + k ==> self.mem@[t] == image@[t - 0x200],
                forall|t: int|
                    0 <= t < 4096 && !(0x200 <= t < 0x200 + k) ==> self.mem@[t] == old(
                        self,
                    )@.mem[t],
            decreases image@.len() - k,
        {
            let b = image[k];
            self.mem.set(0x200 + k, b);
            k += 1;
        }
        proof {
            assert(self@.mem =~= loaded_mem(old(self)@.mem, image@));
            assert(self@ =~= (State { mem: loaded_mem(old(self)@.mem, image@), ..old(self)@ }));
        }
        Ok(())
    }

    /// Execute one instruction: exactly the transition of [`step_spec`]
    /// on the current state.
    pub fn step(&mut self) -> (r: Result<Outcome, Fault>)
        requires
            old(self).wf(),
        ensures
            final(self).wf(),
            final(self)@ == step_spec(old(self)@).0,
            r == step_spec(old(self)@).1,
    {
        if self.pc >= 4095 {
            return Err(Fault::FetchOutOfBounds { addr: self.pc });
        }
        let b1 = self.mem[self.pc as usize];
        let b2 = self.mem[self.pc as usize + 1];
        let ins = Instr::decode(b1, b2);
        match (ins.n1, ins.n2, ins.n3, ins.n4) {
            (0x0, 0x0, 0xE, 0x0) => {
                self.pc = self.pc + 2;
                self.display.clear();
                proof {
                    assert(self@ =~= step_spec(old(self)@).0);
                }
                Ok(Outcome::Executed)
            },
            (0x1, _, _, _) => {
                self.pc = ins.nnn;
                proof {
                    assert(self@ =~= step_spec(old(self)@).0);
                }
                Ok(Outcome::Executed)
            },
            (0x6, _, _, _) => {
                self.pc = self.pc + 2;
                self.v.set(ins.n2 as usize, ins.nn);
                proof {
                    assert(self@ =~= step_spec(old(self)@).0);
                }
                Ok(Outcome::Executed)
            },
            (0x7, _, _, _) => {
                self.pc = self.pc + 2;
                let cur = self.v[ins.n2 as usize];
                let sum = cur.wrapping_add(ins.nn);
                self.v.set(ins.n2 as usize, sum);
                proof {
                    assert(sum == wrap_add(cur, ins.nn));
                    assert(self@ =~= step_spec(old(self)@).0);
                }
                Ok(Outcome::Executed)
            },
            (0xA, _, _, _) => {
                self.pc = self.pc + 2;
                self.i = ins.nnn;
                proof {
                    assert(self@ =~= step_spec(old(self)@).0);
                }
                Ok(Outcome::Executed)
            },
            (0xD, _, _, _) => {
                let h: usize = ins.n4 as usize;
                let i0: usize = self.i as usize;
                if h > 0 && i0 + h > 4096 {
                    let addr: u16 = if self.i >= 4096 {
                        self.i
                    } else {
                        4096
                    };
                    let w: u16 = ((b1 as u16) << 8) | (b2 as u16);
                    return Err(Fault::SpriteOutOfBounds { addr, opcode: w });
                }
                let mut rows: Vec<u8> = Vec::new();
                let mut k: usize = 0;
                while k < h
                    invariant
                        k <= h,
                        h > 0 ==> i0 + h <= 4096,
                        i0 == self.i as usize,
                        self.mem@.len() == 4096,
                        rows@.len() == k,
                        forall|t: int| 0 <= t < k ==> rows@[t] == self.mem@[i0 + t],
                    decreases h - k,
                {
                    let b = self.mem[i0 + k];
                    rows.push(b);
                    k += 1;
                }
                proof {
                    assert(rows@ =~= sprite_rows(old(self)@.mem, old(self)@.i, h as int));
                }
                let x0: u8 = self.v[ins.n2 as usize] % 64;
                let y0: u8 = self.v[ins.n3 as usize] % 32;
                self.pc = self.pc + 2;
                let coll = self.display.draw_sprite(x0, y0, &rows);
                let flag: u8 = if coll {
                    1
                } else {
                    0
                };
                self.v.set(15, flag);
                proof {
                    assert(self@ =~= step_spec(old(self)@).0);
                }
                Ok(Outcome::Executed)
            },
            _ => {
                self.pc = self.pc + 2;
                let w: u16 = ((b1 as u16) << 8) | (b2 as u16);
                proof {
                    assert(self@ =~= step_spec(old(self)@).0);
                }
                Ok(Outcome::Unimplemented(w))
            },
        }
    }

    /// One tick of the fixed 60 Hz timer clock: each timer goes down by
    /// one if it is nonzero, and sticks at zero otherwise.  Nothing else
    /// changes.
    pub fn tick_timers(&mut self)
        requires
            old(self).wf(),
        ensures
            final(self).wf(),
            final(self)@ == (State {
                delay: dec_toward_zero(old(self)@.delay),
                sound: dec_toward_zero(old(self)@.sound),
                ..old(self)@
            }),
    {
        if self.delay > 0 {
            self.delay = self.delay - 1;
        }
        if self.sound > 0 {
            self.sound = self.sound - 1;
        }
        proof {
            assert(self@ =~= (State {
                delay: dec_toward_zero(old(self)@.delay),
                sound: dec_toward_zero(old(self)@.sound),
                ..old(self)@
            }));
        }
    }

    /// The program counter.
    pub fn pc(&self) -> (r: u16)
        ensures
            r == self@.pc,
    {
        self.pc
    }

    /// The index register.
    pub fn index_reg(&self) -> (r: u16)
        ensures
            r == self@.i,
    {
        self.i
    }

    /// Register V[x].
    pub fn reg(&self, x: u8) -> (r: u8)
        requires
            self.wf(),
            x < 16,
        ensures
            r == self@.v[x as int],
    {
        self.v[x as usize]
    }

    /// The delay timer.
    pub fn delay_timer(&self) -> (r: u8)
        ensures
            r == self@.delay,
    {
        self.delay
    }

    /// The sound timer.  A host sounds its tone while this is nonzero.
    pub fn sound_timer(&self) -> (r: u8)
        ensures
            r == self@.sound,
    {
        self.sound
    }

    /// Set the delay timer; the mutation point used by the
    /// timer-setting instruction of the full instruction set.
    pub fn set_delay_timer(&mut self, t: u8)
        requires
            old(self).wf(),
        ensures
            final(self).wf(),
            final(self)@ == (State { delay: t, ..old(self)@ }),
    {
        self.delay = t;
        proof {
            assert(self@ =~= (State { delay: t, ..old(self)@ }));
        }
    }

    /// Set the sound timer; the mutation point used by the
    /// timer-setting instruction of the full instruction set.
    pub fn set_sound_timer(&mut self, t: u8)
        requires
            old(self).wf(),
        ensures
            final(self).wf(),
            final(self)@ == (State { sound: t, ..old(self)@ }),
    {
        self.sound = t;
        proof {
            assert(self@ =~= (State { sound: t, ..old(self)@ }));
        }
    }

    /// How many return addresses the call stack holds.
    pub fn stack_depth(&self) -> (r: usize)
        ensures
            r == self@.stack.len(),
    {
        self.stack.len()
    }

    /// Read one display pixel.
    pub fn pixel(&self, px: usize, py: usize) -> (on: bool)
        requires
            self.wf(),
            px < 64,
            py < 32,
        ensures
            on == self@.disp[py * 64 + px],
    {
        self.display.get(px, py)
    }

    /// A read-only copy of the display contents, row-major, for a host
    /// renderer; the renderer never receives a handle that could mutate
    /// the buffer.
    pub fn frame(&self) -> (f: Vec<bool>)
        requires
            self.wf(),
        ensures
            f@ == self@.disp,
    {
        let mut f: Vec<bool> = Vec::new();
        let mut py: usize = 0;
        while py < 32
            invariant
                self.wf(),
                py <= 32,
                f@.len() == py * 64,
                forall|t: int| 0 <= t < py * 64 ==> f@[t] == self@.disp[t],
            decreases 32 - py,
        {
            let mut px: usize = 0;
            while px < 64
                invariant
                    self.wf(),
                    py < 32,
                    px <= 64,
                    f@.len() == py * 64 + px,
                    forall|t: int| 0 <= t < py * 64 + px ==> f@[t] == self@.disp[t],
                decreases 64 - px,
            {
                let b = self.display.get(px, py);
                f.push(b);
                px += 1;
            }
            py += 1;
        }
        proof {
            assert(f@ =~= self@.disp);
        }
        f
    }
}

/// Clearing is history independent: whatever draws came before, once
/// the engine executes a clear instruction the display is all-off
/// again.
pub proof fn lemma_clear_yields_blank(pre: State)
    requires
        pre.pc < 4095,
        hi_nib(pre.mem[pre.pc as int]) == 0x0,
        lo_nib(pre.mem[pre.pc as int]) == 0x0,
        hi_nib(pre.mem[pre.pc as int + 1]) == 0xE,
        lo_nib(pre.mem[pre.pc as int + 1]) == 0x0,
    ensures
        step_spec(pre).0.disp == blank(),
{
}

/// Two identical draw instructions in a row, with no intervening state
/// change, cancel: the display returns to its content before the first
/// draw, and the flag register reports whether the second draw collided
/// with what the first left behind.  The sprite's coordinate registers
/// must not be the flag register itself, which the first draw
/// overwrites.
pub proof fn lemma_double_draw_restores_display(pre: State)
    requires
        pre.pc < 4093,
        pre.v.len() == 16,
        pre.disp.len() == 2048,
        hi_nib(pre.mem[pre.pc as int]) == 0xD,
        lo_nib(pre.mem[pre.pc as int]) != 15,
        hi_nib(pre.mem[pre.pc as int + 1]) != 15,
        pre.mem[pre.pc as int + 2] == pre.mem[pre.pc as int],
        pre.mem[pre.pc as int + 3] == pre.mem[pre.pc as int + 1],
        !(lo_nib(pre.mem[pre.pc as int + 1]) > 0 && pre.i + lo_nib(pre.mem[pre.pc as int + 1])
            > 4096),
    ensures
        ({
            let b1 = pre.mem[pre.pc as int];
            let b2 = pre.mem[pre.pc as int + 1];
            let x0 = (pre.v[lo_nib(b1) as int] % 64) as int;
            let y0 = (pre.v[hi_nib(b2) as int] % 32) as int;
            let rows = sprite_rows(pre.mem, pre.i, lo_nib(b2) as int);
            let mid = step_spec(pre).0;
            let post = step_spec(mid).0;
            post.disp == pre.disp && post.v[15] == (if draw_collides(mid.disp, rows, x0, y0) {
                1u8
            } else {
                0u8
            })
        }),
{
    let b1 = pre.mem[pre.pc as int];
    let b2 = pre.mem[pre.pc as int + 1];
    assert(b1 & 0x0F < 16) by (bit_vector);
    assert(b2 >> 4 < 16) by (bit_vector);
    assert(b2 & 0x0F < 16) by (bit_vector);
    let x = lo_nib(b1) as int;
    let y = hi_nib(b2) as int;
    let h = lo_nib(b2) as int;
    let x0 = (pre.v[x] % 64) as int;
    let y0 = (pre.v[y] % 32) as int;
    let rows = sprite_rows(pre.mem, pre.i, h);
    let mid = step_spec(pre).0;
    assert(mid.v[x] == pre.v[x] && mid.v[y] == pre.v[y]);
    assert(sprite_rows(mid.mem, mid.i, h) =~= rows);
    crate::display::lemma_draw_twice_restores(pre.disp, rows, x0, y0);
}

/// Add-immediate wraps modulo 256 and has no carry side effect: the
/// flag register keeps its value (unless it is itself the target), and
/// neither the display nor the stack moves.
pub proof fn lemma_add_immediate_wraps(pre: State)
    requires
        pre.pc < 4095,
        hi_nib(pre.mem[pre.pc as int]) == 0x7,
        pre.v.len() == 16,
    ensures
        step_spec(pre).0.v[lo_nib(pre.mem[pre.pc as int]) as int] == wrap_add(
            pre.v[lo_nib(pre.mem[pre.pc as int]) as int],
            pre.mem[pre.pc as int + 1],
        ),
        lo_nib(pre.mem[pre.pc as int]) != 15 ==> step_spec(pre).0.v[15] == pre.v[15],
        step_spec(pre).0.disp == pre.disp,
        step_spec(pre).0.stack == pre.stack,
{
    let b1 = pre.mem[pre.pc as int];
    assert(b1 & 0x0F < 16) by (bit_vector);
}

/// A jump sets the program counter to exactly its 12-bit target; no
/// auto-advance is applied afterward.
pub proof fn lemma_jump_sets_pc(pre: State)
    requires
        pre.pc < 4095,
        hi_nib(pre.mem[pre.pc as int]) == 0x1,
    ensures
        step_spec(pre).0.pc == addr_of(pre.mem[pre.pc as int], pre.mem[pre.pc as int + 1]),
        step_spec(pre).0 == (State {
            pc: addr_of(pre.mem[pre.pc as int], pre.mem[pre.pc as int + 1]),
            ..pre
        }),
{
}

} // verus!
