use vstd::prelude::*;

verus! {

/// Number of bytes of addressable memory.
pub const MEMORY_SIZE: usize = 4096;

/// Address at which programs are loaded and execution starts.
pub const PROGRAM_START: usize = 512;

/// Address at which the built-in hexadecimal font is stored.
pub const FONT_START: usize = 80;

/// Largest ROM that fits between `PROGRAM_START` and the end of memory.
pub const MAX_ROM_SIZE: usize = 3584;

/// Sprites for the hexadecimal digits 0 to F, five bytes each.
pub const FONTSET: [u8; 80] = [
    0xF0, 0x90, 0x90, 0x90, 0xF0, // 0
    0x20, 0x60, 0x20, 0x20, 0x70, // 1
    0xF0, 0x10, 0xF0, 0x80, 0xF0, // 2
    0xF0, 0x10, 0xF0, 0x10, 0xF0, // 3
    0x90, 0x90, 0xF0, 0x10, 0x10, // 4
    0xF0, 0x80, 0xF0, 0x10, 0xF0, // 5
    0xF0, 0x80, 0xF0, 0x90, 0xF0, // 6
    0xF0, 0x10, 0x20, 0x40, 0x40, // 7
    0xF0, 0x90, 0xF0, 0x90, 0xF0, // 8
    0xF0, 0x90, 0xF0, 0x10, 0xF0, // 9
    0xF0, 0x90, 0xF0, 0x90, 0x90, // A
    0xE0, 0x90, 0xE0, 0x90, 0xE0, // B
    0xF0, 0x80, 0x80, 0x80, 0xF0, // C
    0xE0, 0x90, 0x90, 0x90, 0xE0, // D
    0xF0, 0x80, 0xF0, 0x80, 0xF0, // E
    0xF0, 0x80, 0xF0, 0x80, 0x80, // F
];

/// The machine state as mathematical values.
#[verifier::ext_equal]
pub struct CpuView {
    pub memory: Seq<u8>,
    pub display: Seq<u8>,
    pub v: Seq<u8>,
    pub index: u16,
    pub pc: u16,
    pub stack: Seq<u16>,
    pub sp: u8,
    pub delay: u8,
    pub sound: u8,
}

impl CpuView {
    /// Sizes of the banks, and a stack pointer within the stack.
    pub open spec fn well_formed(self) -> bool {
        &&& self.memory.len() == MEMORY_SIZE
        &&& self.display.len() == 2048
        &&& self.v.len() == 16
        &&& self.stack.len() == 16
        &&& self.sp <= 16
    }
}

/// Why executing the next instruction would abort the machine.
#[derive(Clone, Copy, Debug, PartialEq, Eq, Structural)]
pub enum Fault {
    /// `00EE` with an empty stack.
    StackUnderflow,
    /// `2NNN` with all sixteen stack slots in use.
    StackOverflow,
    /// The program counter leaves no room for a two-byte instruction.
    ProgramCounterOutOfRange,
}

/// What an executed instruction turned out to be.
#[derive(Clone, Copy, Debug, PartialEq, Eq, Structural)]
pub enum Outcome {
    /// A known instruction (or `9XY0`, which does nothing yet).
    Executed,
    /// A `0NNN` other than `00E0` and `00EE`.
    UnknownSystemOpcode,
    /// An `8XYN` with an `N` that has no meaning.
    UnknownArithmeticOpcode,
    /// Any `ANNN` to `FNNN`.
    UnknownOpcode,
}

/// The opcode that was fetched by one step, and how it was handled.
#[derive(Clone, Copy, Debug, PartialEq, Eq, Structural)]
pub struct StepReport {
    pub opcode: u16,
    pub outcome: Outcome,
}

/// Why a ROM was refused.
#[derive(Clone, Copy, Debug, PartialEq, Eq, Structural)]
pub enum RomError {
    /// The ROM has more than `MAX_ROM_SIZE` bytes.
    TooLarge { size: usize },
}

/// The character of a decimal digit.
pub open spec fn digit_char(d: nat) -> char {
    if d == 0 {
        '0'
    } else if d == 1 {
        '1'
    } else if d == 2 {
        '2'
    } else if d == 3 {
        '3'
    } else if d == 4 {
        '4'
    } else if d == 5 {
        '5'
    } else if d == 6 {
        '6'
    } else if d == 7 {
        '7'
    } else if d == 8 {
        '8'
    } else {
        '9'
    }
}

/// The decimal digits of `n`, most significant first, without leading zeros.
pub open spec fn decimal(n: nat) -> Seq<char>
    decreases n,
{
    if n < 10 {
        seq![digit_char(n)]
    } else {
        decimal(n / 10).push(digit_char(n % 10))
    }
}

/// A one-character string holding the digit `d`.
fn digit_str(d: usize) -> (s: &'static str)
    requires
        d < 10,
    ensures
        s@ == seq![digit_char(d as nat)],
{
    if d == 0 {
        proof { reveal_strlit("0"); }
        "0"
    } else if d == 1 {
        proof { reveal_strlit("1"); }
        "1"
    } else if d == 2 {
        proof { reveal_strlit("2"); }
        "2"
    } else if d == 3 {
        proof { reveal_strlit("3"); }
        "3"
    } else if d == 4 {
        proof { reveal_strlit("4"); }
        "4"
    } else if d == 5 {
        proof { reveal_strlit("5"); }
        "5"
    } else if d == 6 {
        proof { reveal_strlit("6"); }
        "6"
    } else if d == 7 {
        proof { reveal_strlit("7"); }
        "7"
    } else if d == 8 {
        proof { reveal_strlit("8"); }
        "8"
    } else {
        proof { reveal_strlit("9"); }
        "9"
    }
}

/// Appends the decimal digits of `n` to `out`.
fn push_decimal(out: &mut String, n: usize)
    ensures
        final(out)@ == old(out)@ + decimal(n as nat),
    decreases n,
{
    if n >= 10 {
        push_decimal(out, n / 10);
    }
    out.append(digit_str(n % 10));
    assert(decimal(n as nat) == if n < 10 {
        seq![digit_char(n as nat)]
    } else {
        decimal((n / 10) as nat).push(digit_char((n % 10) as nat))
    });
    assert(out@ =~= old(out)@ + decimal(n as nat));
}

impl RomError {
    /// The message shown to the user.
    pub fn message(&self) -> (msg: String)
        ensures
            match self {
                RomError::TooLarge { size } => msg@ == "ROM too large. Maximum of 3584 bytes, current file is "@
                    + decimal(*size as nat) + " bytes"@,
            },
    {
        match self {
            RomError::TooLarge { size } => {
                let mut msg = String::new();
                msg.append("ROM too large. Maximum of 3584 bytes, current file is ");
                push_decimal(&mut msg, *size);
                msg.append(" bytes");
                msg
            },
        }
    }
}

/// The top nibble of an opcode.
pub open spec fn op_class(op: u16) -> int {
    op as int / 4096
}

/// The `X` nibble of an opcode.
pub open spec fn op_x(op: u16) -> int {
    (op as int / 256) % 16
}

/// The `Y` nibble of an opcode.
pub open spec fn op_y(op: u16) -> int {
    (op as int / 16) % 16
}

/// The low nibble of an opcode.
pub open spec fn op_n(op: u16) -> int {
    op as int % 16
}

/// The low byte of an opcode.
pub open spec fn op_kk(op: u16) -> u8 {
    (op as int % 256) as u8
}

/// The low twelve bits of an opcode.
pub open spec fn op_nnn(op: u16) -> u16 {
    (op as int % 4096) as u16
}

/// Addition modulo 256.
pub open spec fn add8(a: u8, b: u8) -> u8 {
    ((a + b) % 256) as u8
}

/// Subtraction modulo 256.
pub open spec fn sub8(a: u8, b: u8) -> u8 {
    ((a - b + 256) % 256) as u8
}

/// The registers after an `8XYN` instruction; `VF` is written after `VX` where both change,
/// except for the shifts, which write `VF` (the bit shifted out) first.
pub open spec fn alu(v: Seq<u8>, op: u16) -> Seq<u8> {
    let x = op_x(op);
    let y = op_y(op);
    let vx = v[x];
    let vy = v[y];
    if op_n(op) == 0 {
        v.update(x, vy)
    } else if op_n(op) == 1 {
        v.update(x, vx | vy)
    } else if op_n(op) == 2 {
        v.update(x, vx & vy)
    } else if op_n(op) == 3 {
        v.update(x, vx ^ vy)
    } else if op_n(op) == 4 {
        v.update(x, add8(vx, vy)).update(15, if vx + vy > 255 { 1u8 } else { 0u8 })
    } else if op_n(op) == 5 {
        v.update(x, sub8(vx, vy)).update(15, if vx < vy { 0u8 } else { 1u8 })
    } else if op_n(op) == 6 {
        let w = v.update(15, vx % 2);
        w.update(x, w[x] / 2)
    } else if op_n(op) == 7 {
        v.update(x, sub8(vy, vx)).update(15, if vy < vx { 0u8 } else { 1u8 })
    } else if op_n(op) == 14 {
        let w = v.update(15, if vx >= 128 { 1u8 } else { 0u8 });
        w.update(x, ((w[x] * 2) % 256) as u8)
    } else {
        v
    }
}

/// Whether executing `op` in state `s` aborts the machine, and why.
pub open spec fn execute_fault(s: CpuView, op: u16) -> Option<Fault> {
    if op == 0x00EE && s.sp == 0 {
        Some(Fault::StackUnderflow)
    } else if op_class(op) == 2 && s.sp >= 16 {
        Some(Fault::StackOverflow)
    } else {
        None
    }
}

/// How `op` is classified when it is executed.
pub open spec fn execute_outcome(op: u16) -> Outcome {
    if op_class(op) == 0 {
        if op == 0x00E0 || op == 0x00EE {
            Outcome::Executed
        } else {
            Outcome::UnknownSystemOpcode
        }
    } else if op_class(op) == 8 {
        if op_n(op) <= 7 || op_n(op) == 14 {
            Outcome::Executed
        } else {
            Outcome::UnknownArithmeticOpcode
        }
    } else if op_class(op) <= 9 {
        Outcome::Executed
    } else {
        Outcome::UnknownOpcode
    }
}

/// The state after executing `op` in state `s`.
pub open spec fn execute_state(s: CpuView, op: u16) -> CpuView {
    let x = op_x(op);
    let y = op_y(op);
    let kk = op_kk(op);
    let skipped = CpuView { pc: (s.pc + 2) as u16, ..s };
    if op_class(op) == 0 {
        if op == 0x00E0 {
            CpuView { display: Seq::new(2048, |_i: int| 0u8), ..s }
        } else if op == 0x00EE {
            CpuView { sp: (s.sp - 1) as u8, pc: s.stack[s.sp - 1], ..s }
        } else {
            s
        }
    } else if op_class(op) == 1 {
        CpuView { pc: op_nnn(op), ..s }
    } else if op_class(op) == 2 {
        CpuView { sp: (s.sp + 1) as u8, stack: s.stack.update(s.sp as int, s.pc), pc: op_nnn(op), ..s }
    } else if op_class(op) == 3 {
        if s.v[x] == kk { skipped } else { s }
    } else if op_class(op) == 4 {
        if s.v[x] != kk { skipped } else { s }
    } else if op_class(op) == 5 {
        if s.v[x] == s.v[y] { skipped } else { s }
    } else if op_class(op) == 6 {
        CpuView { v: s.v.update(x, kk), ..s }
    } else if op_class(op) == 7 {
        CpuView { v: s.v.update(x, add8(s.v[x], kk)), ..s }
    } else if op_class(op) == 8 {
        CpuView { v: alu(s.v, op), ..s }
    } else {
        s
    }
}

/// The big-endian opcode stored at the program counter.
pub open spec fn fetch_opcode(s: CpuView) -> u16 {
    (s.memory[s.pc as int] * 256 + s.memory[s.pc + 1]) as u16
}

/// The state once the opcode has been fetched and the program counter moved past it.
pub open spec fn after_fetch(s: CpuView) -> CpuView {
    CpuView { pc: (s.pc + 2) as u16, ..s }
}

/// Whether the next step aborts the machine, and why.
pub open spec fn step_fault(s: CpuView) -> Option<Fault> {
    if s.pc >= 4095 {
        Some(Fault::ProgramCounterOutOfRange)
    } else {
        execute_fault(after_fetch(s), fetch_opcode(s))
    }
}

/// The state after one fetch-and-execute step.
pub open spec fn step_state(s: CpuView) -> CpuView {
    execute_state(after_fetch(s), fetch_opcode(s))
}

/// Memory with the hexadecimal font in place and zeros elsewhere.
pub open spec fn initial_memory() -> Seq<u8> {
    Seq::new(
        4096,
        |i: int|
            if FONT_START <= i < FONT_START + 80 {
                FONTSET@[i - FONT_START]
            } else {
                0u8
            },
    )
}

/// `memory` with `rom` copied to `PROGRAM_START`.
pub open spec fn with_rom(memory: Seq<u8>, rom: Seq<u8>) -> Seq<u8> {
    Seq::new(
        memory.len(),
        |i: int|
            if PROGRAM_START <= i < PROGRAM_START + rom.len() {
                rom[i - PROGRAM_START]
            } else {
                memory[i]
            },
    )
}

/// A CHIP-8 interpreter: memory, registers, stack and timers.
#[derive(Debug)]
pub struct Cpu {
    memory: [u8; 4096],
    display: [u8; 2048],
    v_regs: [u8; 16],
    index_reg: u16,
    pc_reg: u16,
    stack: [u16; 16],
    sp_reg: u8,
    delayt_reg: u8,
    soundt_reg: u8,
}

impl Cpu {
    /// The stack pointer never passes the end of the stack.
    #[verifier::type_invariant]
    spec fn stack_pointer_in_range(self) -> bool {
        self.sp_reg <= 16
    }
}

impl View for Cpu {
    type V = CpuView;

    closed spec fn view(&self) -> CpuView {
        CpuView {
            memory: self.memory@,
            display: self.display@,
            v: self.v_regs@,
            index: self.index_reg,
            pc: self.pc_reg,
            stack: self.stack@,
            sp: self.sp_reg,
            delay: self.delayt_reg,
            sound: self.soundt_reg,
        }
    }
}

impl Default for Cpu {
    /// Everything zero, with the program counter at `PROGRAM_START`.
    fn default() -> (cpu: Self)
        ensures
            cpu@.well_formed(),
            cpu@.memory == Seq::new(4096, |_i: int| 0u8),
            cpu@.display == Seq::new(2048, |_i: int| 0u8),
            cpu@.v == Seq::new(16, |_i: int| 0u8),
            cpu@.stack == Seq::new(16, |_i: int| 0u16),
            cpu@.index == 0,
            cpu@.pc == PROGRAM_START,
            cpu@.sp == 0,
            cpu@.delay == 0,
            cpu@.sound == 0,
    {
        Cpu {
            memory: [0u8; 4096],
            display: [0u8; 2048],
            v_regs: [0u8; 16],
            index_reg: 0,
            pc_reg: 0x200,
            stack: [0u16; 16],
            sp_reg: 0,
            delayt_reg: 0,
            soundt_reg: 0,
        }
    }
}

impl Cpu {
    /// A reset machine with the font stored at `FONT_START`.
    pub fn new() -> (cpu: Self)
        ensures
            cpu@.well_formed(),
            cpu@.memory == initial_memory(),
            cpu@.display == Seq::new(2048, |_i: int| 0u8),
            cpu@.v == Seq::new(16, |_i: int| 0u8),
            cpu@.stack == Seq::new(16, |_i: int| 0u16),
            cpu@.index == 0,
            cpu@.pc == PROGRAM_START,
            cpu@.sp == 0,
            cpu@.delay == 0,
            cpu@.sound == 0,
    {
        let mut cpu = Cpu::default();
        let mut i: usize = 0;
        while i < 80
            invariant
                i <= 80,
                cpu@.well_formed(),
                forall|j: int|
                    0 <= j < 4096 ==> #[trigger] cpu.memory@[j] == if FONT_START <= j < FONT_START + i {
                        FONTSET@[j - FONT_START]
                    } else {
                        0u8
                    },
                cpu.display@ == Seq::new(2048, |_i: int| 0u8),
                cpu.v_regs@ == Seq::new(16, |_i: int| 0u8),
                cpu.stack@ == Seq::new(16, |_i: int| 0u16),
                cpu.index_reg == 0,
                cpu.pc_reg == PROGRAM_START,
                cpu.sp_reg == 0,
                cpu.delayt_reg == 0,
                cpu.soundt_reg == 0,
            decreases 80 - i,
        {
            cpu.memory[0x50 + i] = FONTSET[i];
            i = i + 1;
        }
        assert(cpu@.memory =~= initial_memory());
        cpu
    }
}

/// Field extraction by masks and shifts agrees with the arithmetic definitions.
proof fn lemma_opcode_fields(op: u16)
    ensures
        (op & 0xF000) as int == op_class(op) * 4096,
        ((op & 0x0F00) >> 8) as int == op_x(op),
        ((op & 0x00F0) >> 4) as int == op_y(op),
        (op & 0x000F) as int == op_n(op),
        (op & 0x00FF) as int == op_kk(op),
        (op & 0x0FFF) as int == op_nnn(op),
        0 <= op_class(op) < 16,
{
    assert(op & 0xF000 == (op / 4096) * 4096) by (bit_vector);
    assert((op & 0x0F00) >> 8 == (op / 256) % 16) by (bit_vector);
    assert((op & 0x00F0) >> 4 == (op / 16) % 16) by (bit_vector);
    assert(op & 0x000F == op % 16) by (bit_vector);
    assert(op & 0x00FF == op % 256) by (bit_vector);
    assert(op & 0x0FFF == op % 4096) by (bit_vector);
}

/// Byte-level shift and mask facts used by the `8XY6` and `8XYE` instructions.
proof fn lemma_byte_ops(a: u8)
    ensures
        a & 1 == a % 2,
        a >> 1 == a / 2,
        (a << 1) as int == (a as int * 2) % 256,
        a >> 7 == (if a >= 128 { 1u8 } else { 0u8 }),
{
    assert(a & 1 == a % 2) by (bit_vector);
    assert(a >> 1 == a / 2) by (bit_vector);
    assert((a << 1) == ((a as u16 * 2) % 256) as u8) by (bit_vector);
    assert(a >> 7 == (if a >= 128 { 1u8 } else { 0u8 })) by (bit_vector);
}

/// Two bytes joined by a shift and an OR form the big-endian word.
proof fn lemma_join_bytes(high: u16, low: u16)
    requires
        high < 256,
        low < 256,
    ensures
        ((high << 8) | low) as int == high * 256 + low,
{
    assert(((high << 8) | low) == high * 256 + low) by (bit_vector)
        requires
            high < 256,
            low < 256,
    ;
}

impl Cpu {
    /// Splits an opcode into its `X` nibble and low byte.
    fn grab_xkk(opcode: u16) -> (res: (usize, u8))
        ensures
            res.0 == op_x(opcode),
            res.1 == op_kk(opcode),
            res.0 < 16,
    {
        proof {
            lemma_opcode_fields(opcode);
        }
        let x = ((opcode & 0x0F00) >> 8) as usize;
        let kk = (opcode & 0x00FF) as u8;
        (x, kk)
    }

    /// Splits an opcode into its `X` and `Y` nibbles.
    fn grab_xy(opcode: u16) -> (res: (usize, usize))
        ensures
            res.0 == op_x(opcode),
            res.1 == op_y(opcode),
            res.0 < 16,
            res.1 < 16,
    {
        proof {
            lemma_opcode_fields(opcode);
        }
        let x = ((opcode & 0x0F00) >> 8) as usize;
        let y = ((opcode & 0x00F0) >> 4) as usize;
        (x, y)
    }

    /// The big-endian opcode at the program counter, without moving it.
    fn peek_opcode(&self) -> (opcode: u16)
        requires
            self@.well_formed(),
            self@.pc < 4095,
        ensures
            opcode == fetch_opcode(self@),
    {
        let high = self.memory[self.pc_reg as usize] as u16;
        let low = self.memory[(self.pc_reg + 1) as usize] as u16;
        proof {
            lemma_join_bytes(high, low);
        }
        (high << 8) | low
    }

    /// Reads the opcode at the program counter and moves past it.
    fn fetch(&mut self) -> (opcode: u16)
        requires
            old(self)@.well_formed(),
            old(self)@.pc < 4095,
        ensures
            opcode == fetch_opcode(old(self)@),
            final(self)@ == after_fetch(old(self)@),
    {
        let opcode = self.peek_opcode();
        self.pc_reg = self.pc_reg + 2;
        opcode
    }

    /// Runs one opcode; the caller rules out the inputs on which it would abort.
    fn execute(&mut self, opcode: u16) -> (outcome: Outcome)
        requires
            old(self)@.well_formed(),
            old(self)@.pc <= 4096,
            execute_fault(old(self)@, opcode) is None,
        ensures
            final(self)@ == execute_state(old(self)@, opcode),
            outcome == execute_outcome(opcode),
    {
        proof {
            lemma_opcode_fields(opcode);
        }
        let class = opcode & 0xF000;
        if class == 0x0000 {
            if opcode == 0x00E0 {
                // 00E0: clear the display
                self.display = [0u8; 2048];
                assert(self@.display =~= Seq::new(2048, |_i: int| 0u8));
                Outcome::Executed
            } else if opcode == 0x00EE {
                // 00EE: return from a subroutine
                self.sp_reg = self.sp_reg - 1;
                self.pc_reg = self.stack[self.sp_reg as usize];
                Outcome::Executed
            } else {
                Outcome::UnknownSystemOpcode
            }
        } else if class == 0x1000 {
            // 1NNN: jump to NNN
            self.pc_reg = opcode & 0x0FFF;
            Outcome::Executed
        } else if class == 0x2000 {
            // 2NNN: call the subroutine at NNN
            let addr = opcode & 0x0FFF;
            self.stack[self.sp_reg as usize] = self.pc_reg;
            self.sp_reg = self.sp_reg + 1;
            self.pc_reg = addr;
            Outcome::Executed
        } else if class == 0x3000 {
            // 3XKK: skip the next instruction if VX == KK
            let (x, kk) = Self::grab_xkk(opcode);
            if self.v_regs[x] == kk {
                self.pc_reg = self.pc_reg + 2;
            }
            Outcome::Executed
        } else if class == 0x4000 {
            // 4XKK: skip the next instruction if VX != KK
            let (x, kk) = Self::grab_xkk(opcode);
            if self.v_regs[x] != kk {
                self.pc_reg = self.pc_reg + 2;
            }
            Outcome::Executed
        } else if class == 0x5000 {
            // 5XY0: skip the next instruction if VX == VY
            let (x, y) = Self::grab_xy(opcode);
            if self.v_regs[x] == self.v_regs[y] {
                self.pc_reg = self.pc_reg + 2;
            }
            Outcome::Executed
        } else if class == 0x6000 {
            // 6XKK: VX = KK
            let (x, kk) = Self::grab_xkk(opcode);
            self.v_regs[x] = kk;
            Outcome::Executed
        } else if class == 0x7000 {
            // 7XKK: VX = VX + KK, wrapping
            let (x, kk) = Self::grab_xkk(opcode);
            self.v_regs[x] = self.v_regs[x].wrapping_add(kk);
            Outcome::Executed
        } else if class == 0x8000 {
            self.execute_arithmetic(opcode)
        } else if class == 0x9000 {
            // 9XY0: not implemented yet
            Outcome::Executed
        } else {
            Outcome::UnknownOpcode
        }
    }

    /// Runs an `8XYN` opcode on the registers.
    fn execute_arithmetic(&mut self, opcode: u16) -> (outcome: Outcome)
        requires
            old(self)@.well_formed(),
            op_class(opcode) == 8,
        ensures
            final(self)@ == (CpuView { v: alu(old(self)@.v, opcode), ..old(self)@ }),
            outcome == execute_outcome(opcode),
    {
        proof {
            lemma_opcode_fields(opcode);
        }
        let (x, y) = Self::grab_xy(opcode);
        let vx = self.v_regs[x];
        let vy = self.v_regs[y];
        let n = opcode & 0x000F;
        if n == 0x0 {
            // 8XY0: VX = VY
            self.v_regs[x] = vy;
        } else if n == 0x1 {
            // 8XY1: VX = VX OR VY
            self.v_regs[x] = vx | vy;
        } else if n == 0x2 {
            // 8XY2: VX = VX AND VY
            self.v_regs[x] = vx & vy;
        } else if n == 0x3 {
            // 8XY3: VX = VX XOR VY
            self.v_regs[x] = vx ^ vy;
        } else if n == 0x4 {
            // 8XY4: VX = VX + VY, VF = carry
            let sum: u16 = vx as u16 + vy as u16;
            self.v_regs[x] = (sum % 256) as u8;
            self.v_regs[15] = if sum > 0xFF { 1 } else { 0 };
        } else if n == 0x5 {
            // 8XY5: VX = VX - VY, VF = NOT borrow
            let borrow = vx < vy;
            self.v_regs[x] = vx.wrapping_sub(vy);
            self.v_regs[15] = if borrow { 0 } else { 1 };
        } else if n == 0x6 {
            // 8XY6: VF = least significant bit of VX, VX = VX / 2
            proof {
                lemma_byte_ops(vx);
            }
            self.v_regs[15] = vx & 0x1;
            let shifted = self.v_regs[x];
            proof {
                lemma_byte_ops(shifted);
            }
            self.v_regs[x] = shifted >> 1;
        } else if n == 0x7 {
            // 8XY7: VX = VY - VX, VF = NOT borrow
            let borrow = vy < vx;
            self.v_regs[x] = vy.wrapping_sub(vx);
            self.v_regs[15] = if borrow { 0 } else { 1 };
        } else if n == 0xE {
            // 8XYE: VF = most significant bit of VX, VX = VX * 2
            proof {
                lemma_byte_ops(vx);
            }
            self.v_regs[15] = vx >> 7;
            let shifted = self.v_regs[x];
            proof {
                lemma_byte_ops(shifted);
            }
            self.v_regs[x] = shifted << 1;
        } else {
            assert(self@ =~= CpuView { v: alu(old(self)@.v, opcode), ..old(self)@ });
            return Outcome::UnknownArithmeticOpcode;
        }
        assert(self@.v =~= alu(old(self)@.v, opcode));
        Outcome::Executed
    }
}

/// The delay timer or sound timer after one tick of the 60 Hz clock.
pub open spec fn timer_tick(t: u8) -> u8 {
    if t > 0 { (t - 1) as u8 } else { 0 }
}

impl Cpu {
    /// Fetches and executes one instruction.
    ///
    /// The inputs on which the machine aborts are those for which `pending_fault`
    /// returns a fault; the caller checks that first.
    pub fn step(&mut self) -> (report: StepReport)
        requires
            step_fault(old(self)@) is None,
        ensures
            final(self)@ == step_state(old(self)@),
            final(self)@.well_formed(),
            report.opcode == fetch_opcode(old(self)@),
            report.outcome == execute_outcome(report.opcode),
    {
        proof {
            use_type_invariant(&*self);
        }
        let opcode = self.fetch();
        let outcome = self.execute(opcode);
        proof {
            lemma_step_well_formed(old(self)@);
        }
        StepReport { opcode, outcome }
    }

    /// The fault that the next `step` would abort with, if any.
    pub fn pending_fault(&self) -> (fault: Option<Fault>)
        ensures
            self@.well_formed(),
            fault == step_fault(self@),
    {
        proof {
            use_type_invariant(self);
        }
        if self.pc_reg >= 4095 {
            return Some(Fault::ProgramCounterOutOfRange);
        }
        let opcode = self.peek_opcode();
        proof {
            lemma_opcode_fields(opcode);
        }
        if opcode == 0x00EE && self.sp_reg == 0 {
            Some(Fault::StackUnderflow)
        } else if opcode & 0xF000 == 0x2000 && self.sp_reg as usize >= self.stack.len() {
            Some(Fault::StackOverflow)
        } else {
            None
        }
    }

    /// Copies `rom_buffer` into memory at `PROGRAM_START`, or refuses a ROM that does not fit.
    pub fn load_rom(&mut self, rom_buffer: &[u8]) -> (res: Result<(), RomError>)
        ensures
            final(self)@.well_formed(),
            rom_buffer@.len() > MAX_ROM_SIZE ==> res == Err::<(), RomError>(
                RomError::TooLarge { size: rom_buffer@.len() as usize },
            ) && final(self)@ == old(self)@,
            rom_buffer@.len() <= MAX_ROM_SIZE ==> res is Ok && final(self)@ == (CpuView {
                memory: with_rom(old(self)@.memory, rom_buffer@),
                ..old(self)@
            }),
    {
        proof {
            use_type_invariant(&*self);
        }
        let rom_size = rom_buffer.len();
        if rom_size > 4096 - 512 {
            return Err(RomError::TooLarge { size: rom_size });
        }
        let mut i: usize = 0;
        while i < rom_size
            invariant
                i <= rom_size,
                rom_size == rom_buffer@.len(),
                rom_size <= MAX_ROM_SIZE,
                old(self)@.well_formed(),
                self@ == (CpuView { memory: self@.memory, ..old(self)@ }),
                self@.memory.len() == 4096,
                forall|j: int|
                    0 <= j < 4096 ==> #[trigger] self@.memory[j] == if PROGRAM_START <= j
                        < PROGRAM_START + i {
                        rom_buffer@[j - PROGRAM_START]
                    } else {
                        old(self)@.memory[j]
                    },
            decreases rom_size - i,
        {
            self.memory[512 + i] = rom_buffer[i];
            i = i + 1;
        }
        assert(self@.memory =~= with_rom(old(self)@.memory, rom_buffer@));
        Ok(())
    }

    /// Counts both timers down by one, stopping at zero.
    pub fn tick_timers(&mut self)
        ensures
            final(self)@.well_formed(),
            final(self)@ == (CpuView {
                delay: timer_tick(old(self)@.delay),
                sound: timer_tick(old(self)@.sound),
                ..old(self)@
            }),
    {
        proof {
            use_type_invariant(&*self);
        }
        if self.delayt_reg > 0 {
            self.delayt_reg = self.delayt_reg - 1;
        }
        if self.soundt_reg > 0 {
            self.soundt_reg = self.soundt_reg - 1;
        }
    }

    /// Whether the buzzer sounds: the sound timer is still running.
    pub fn sound_active(&self) -> (active: bool)
        ensures
            active == (self@.sound > 0),
    {
        self.soundt_reg > 0
    }

    /// All of memory.
    pub fn memory(&self) -> (mem: &[u8; 4096])
        ensures
            mem@ == self@.memory,
    {
        &self.memory
    }

    /// The interpreter's own display memory, cleared by `00E0`.
    pub fn display(&self) -> (display: &[u8; 2048])
        ensures
            display@ == self@.display,
    {
        &self.display
    }

    /// The registers `V0` to `VF`.
    pub fn v_regs(&self) -> (v: [u8; 16])
        ensures
            v@ == self@.v,
    {
        self.v_regs
    }

    /// The return-address stack.
    pub fn stack(&self) -> (stack: [u16; 16])
        ensures
            stack@ == self@.stack,
    {
        self.stack
    }

    /// The program counter.
    pub fn pc(&self) -> (pc: u16)
        ensures
            pc == self@.pc,
    {
        self.pc_reg
    }

    /// The stack pointer: how many return addresses are stored.
    pub fn sp(&self) -> (sp: u8)
        ensures
            sp == self@.sp,
    {
        self.sp_reg
    }

    /// The index register `I`.
    pub fn index_reg(&self) -> (index: u16)
        ensures
            index == self@.index,
    {
        self.index_reg
    }

    /// The delay timer.
    pub fn delay_timer(&self) -> (delay: u8)
        ensures
            delay == self@.delay,
    {
        self.delayt_reg
    }

    /// The sound timer.
    pub fn sound_timer(&self) -> (sound: u8)
        ensures
            sound == self@.sound,
    {
        self.soundt_reg
    }
}

/// A step from a well-formed state that does not abort leads to a well-formed state.
pub proof fn lemma_step_well_formed(s: CpuView)
    requires
        s.well_formed(),
        step_fault(s) is None,
    ensures
        step_state(s).well_formed(),
{
}

/// A timer after `n` ticks of the 60 Hz clock.
pub open spec fn timer_after(t: u8, n: nat) -> u8
    decreases n,
{
    if n == 0 {
        t
    } else {
        timer_tick(timer_after(t, (n - 1) as nat))
    }
}

/// A timer counts down by one per tick and then stays at zero.
pub proof fn lemma_timer_runs_down(t: u8, n: nat)
    ensures
        timer_after(t, n) == if n >= t { 0 } else { t - n },
    decreases n,
{
    if n > 0 {
        lemma_timer_runs_down(t, (n - 1) as nat);
    }
}

/// No instruction writes memory, the index register or the timers.
pub proof fn lemma_step_keeps_memory_index_and_timers(s: CpuView)
    requires
        s.well_formed(),
        step_fault(s) is None,
    ensures
        step_state(s).memory == s.memory,
        step_state(s).index == s.index,
        step_state(s).delay == s.delay,
        step_state(s).sound == s.sound,
{
}

/// An opcode that is not recognised changes nothing.
pub proof fn lemma_unknown_opcode_changes_nothing(s: CpuView, op: u16)
    requires
        execute_outcome(op) != Outcome::Executed,
    ensures
        execute_state(s, op) == s,
{
}

/// `1NNN` sets the program counter to `NNN` and changes nothing else.
pub proof fn lemma_jump(s: CpuView, op: u16)
    requires
        op_class(op) == 1,
    ensures
        execute_state(s, op) == (CpuView { pc: (op as int % 4096) as u16, ..s }),
{
}

/// `3XKK` and `4XKK` with the same `X` and `KK` skip in exactly opposite cases.
pub proof fn lemma_skips_are_complementary(s: CpuView, x: u16, kk: u16)
    requires
        s.well_formed(),
        x < 16,
        kk < 256,
        s.pc <= 4096,
    ensures
        execute_state(s, (0x3000 + x * 256 + kk) as u16).pc + execute_state(
            s,
            (0x4000 + x * 256 + kk) as u16,
        ).pc == 2 * s.pc + 2,
{
    let op3 = (0x3000 + x * 256 + kk) as u16;
    let op4 = (0x4000 + x * 256 + kk) as u16;
    assert(op_class(op3) == 3 && op_x(op3) == x && op_kk(op3) == kk);
    assert(op_class(op4) == 4 && op_x(op4) == x && op_kk(op4) == kk);
}

/// `8XY4` with `X` other than `F`: the new `VX` plus 256 times the carry is the true sum.
pub proof fn lemma_add_carry(v: Seq<u8>, op: u16)
    requires
        v.len() == 16,
        op_class(op) == 8,
        op_n(op) == 4,
        op_x(op) != 15,
    ensures
        alu(v, op)[op_x(op)] + 256 * alu(v, op)[15] == v[op_x(op)] + v[op_y(op)],
{
}

/// `8XY5` with `X` other than `F`: `VF` is 1 exactly when no borrow was needed, and
/// the new `VX` is the difference corrected by the borrow.
pub proof fn lemma_sub_borrow(v: Seq<u8>, op: u16)
    requires
        v.len() == 16,
        op_class(op) == 8,
        op_n(op) == 5,
        op_x(op) != 15,
    ensures
        (alu(v, op)[15] == 1) == (v[op_x(op)] >= v[op_y(op)]),
        alu(v, op)[op_x(op)] == v[op_x(op)] - v[op_y(op)] + 256 * (1 - alu(v, op)[15]),
{
}

/// `00E0` turns every pixel of the interpreter's display off and changes nothing else.
pub proof fn lemma_clear_display(s: CpuView)
    requires
        s.well_formed(),
    ensures
        execute_state(s, 0x00E0) == (CpuView { display: Seq::new(2048, |_i: int| 0u8), ..s }),
        forall|i: int| 0 <= i < 2048 ==> execute_state(s, 0x00E0).display[i] == 0,
{
}

/// A call with room on the stack pushes the return address and jumps; the `00EE` that
/// follows pops it again, giving back the caller's program counter and stack pointer.
pub proof fn lemma_call_then_return(s: CpuView, op: u16)
    requires
        s.well_formed(),
        s.sp < 16,
        op_class(op) == 2,
    ensures
        execute_fault(s, op) is None,
        execute_state(s, op) == (CpuView {
            sp: (s.sp + 1) as u8,
            stack: s.stack.update(s.sp as int, s.pc),
            pc: (op as int % 4096) as u16,
            ..s
        }),
        execute_state(s, op).well_formed(),
        execute_fault(execute_state(s, op), 0x00EE) is None,
        execute_state(execute_state(s, op), 0x00EE) == (CpuView {
            stack: s.stack.update(s.sp as int, s.pc),
            ..s
        }),
{
}

/// Stepping over a call whose target holds `00EE` comes back to the instruction after
/// the call, with the stack pointer restored and the return address left in its slot.
pub proof fn lemma_step_call_then_return(s: CpuView)
    requires
        s.well_formed(),
        s.pc < 4095,
        s.sp < 16,
        op_class(fetch_opcode(s)) == 2,
        step_state(s).pc < 4095,
        fetch_opcode(step_state(s)) == 0x00EE,
    ensures
        step_fault(s) is None,
        step_state(s).well_formed(),
        step_fault(step_state(s)) is None,
        step_state(step_state(s)) == (CpuView {
            pc: (s.pc + 2) as u16,
            stack: s.stack.update(s.sp as int, (s.pc + 2) as u16),
            ..s
        }),
{
    lemma_call_then_return(after_fetch(s), fetch_opcode(s));
}

/// Loading a ROM touches only memory from `PROGRAM_START` on, so the font survives.
pub proof fn lemma_rom_keeps_low_memory(memory: Seq<u8>, rom: Seq<u8>, i: int)
    requires
        memory.len() == MEMORY_SIZE,
        rom.len() <= MAX_ROM_SIZE,
        0 <= i < PROGRAM_START,
    ensures
        with_rom(memory, rom)[i] == memory[i],
{
}

/// Right after a ROM is loaded at the program counter, the first step fetches its
/// first two bytes as one big-endian opcode.
pub proof fn lemma_first_fetch_reads_rom(s: CpuView, rom: Seq<u8>)
    requires
        s.well_formed(),
        s.pc == PROGRAM_START,
        2 <= rom.len() <= MAX_ROM_SIZE,
    ensures
        fetch_opcode(CpuView { memory: with_rom(s.memory, rom), ..s }) == rom[0] * 256 + rom[1],
{
}

/// The opcode with top nibble `c`, `X` nibble `x` and low byte `kk`.
pub open spec fn opcode_of(c: int, x: int, kk: int) -> u16 {
    (c * 4096 + x * 256 + kk) as u16
}

/// The fields of an assembled opcode are the parts it was assembled from.
proof fn lemma_opcode_of_fields(c: int, x: int, kk: int)
    requires
        0 <= c < 16,
        0 <= x < 16,
        0 <= kk < 256,
    ensures
        op_class(opcode_of(c, x, kk)) == c,
        op_x(opcode_of(c, x, kk)) == x,
        op_kk(opcode_of(c, x, kk)) == kk,
        op_y(opcode_of(c, x, kk)) == kk / 16,
        op_n(opcode_of(c, x, kk)) == kk % 16,
{
    let op = c * 4096 + x * 256 + kk;
    assert(op / 4096 == c) by (nonlinear_arith)
        requires
            op == c * 4096 + x * 256 + kk,
            0 <= x < 16,
            0 <= kk < 256,
            c < 16,
    ;
    assert(op / 256 == c * 16 + x) by (nonlinear_arith)
        requires
            op == c * 4096 + x * 256 + kk,
            0 <= x < 16,
            0 <= kk < 256,
            c < 16,
    ;
    assert((c * 16 + x) % 16 == x) by (nonlinear_arith)
        requires
            0 <= x < 16,
            c < 16,
    ;
    assert(op % 256 == kk) by (nonlinear_arith)
        requires
            op == c * 4096 + x * 256 + kk,
            0 <= kk < 256,
    ;
    assert(op / 16 == c * 256 + x * 16 + kk / 16) by (nonlinear_arith)
        requires
            op == c * 4096 + x * 256 + kk,
            0 <= kk < 256,
    ;
    assert((c * 256 + x * 16 + kk / 16) % 16 == kk / 16) by (nonlinear_arith)
        requires
            0 <= kk < 256,
    ;
    assert(op % 16 == kk % 16) by (nonlinear_arith)
        requires
            op == c * 4096 + x * 256 + kk,
    ;
}

/// `t` differs from `s` at most in the registers.
pub open spec fn only_registers_differ(s: CpuView, t: CpuView) -> bool {
    &&& t.memory == s.memory
    &&& t.display == s.display
    &&& t.index == s.index
    &&& t.pc == s.pc
    &&& t.stack == s.stack
    &&& t.sp == s.sp
    &&& t.delay == s.delay
    &&& t.sound == s.sound
    &&& t.v.len() == 16
}

/// `t` differs from `s` at most in the program counter.
pub open spec fn only_pc_differs(s: CpuView, t: CpuView) -> bool {
    &&& t.memory == s.memory
    &&& t.display == s.display
    &&& t.index == s.index
    &&& t.v == s.v
    &&& t.stack == s.stack
    &&& t.sp == s.sp
    &&& t.delay == s.delay
    &&& t.sound == s.sound
}

/// Registers other than those listed keep their values.
pub open spec fn other_registers_kept(s: CpuView, t: CpuView, a: int, b: int) -> bool {
    forall|j: int| 0 <= j < 16 && j != a && j != b ==> #[trigger] t.v[j] == s.v[j]
}

/// `3XKK` moves the program counter on by 2 exactly when `VX` equals `KK`, and changes
/// nothing else.
pub proof fn lemma_skip_if_equal_immediate(s: CpuView, x: int, kk: int)
    requires
        s.well_formed(),
        s.pc <= 4096,
        0 <= x < 16,
        0 <= kk < 256,
    ensures
        only_pc_differs(s, execute_state(s, opcode_of(3, x, kk))),
        execute_state(s, opcode_of(3, x, kk)).pc == if s.v[x] == kk { s.pc + 2 } else { s.pc as int },
{
    lemma_opcode_of_fields(3, x, kk);
}

/// `4XKK` moves the program counter on by 2 exactly when `VX` differs from `KK`, and
/// changes nothing else.
pub proof fn lemma_skip_if_not_equal_immediate(s: CpuView, x: int, kk: int)
    requires
        s.well_formed(),
        s.pc <= 4096,
        0 <= x < 16,
        0 <= kk < 256,
    ensures
        only_pc_differs(s, execute_state(s, opcode_of(4, x, kk))),
        execute_state(s, opcode_of(4, x, kk)).pc == if s.v[x] != kk { s.pc + 2 } else { s.pc as int },
{
    lemma_opcode_of_fields(4, x, kk);
}

/// `5XYN` moves the program counter on by 2 exactly when `VX` equals `VY`, whatever the
/// low nibble, and changes nothing else.
pub proof fn lemma_skip_if_registers_equal(s: CpuView, x: int, y: int, n: int)
    requires
        s.well_formed(),
        s.pc <= 4096,
        0 <= x < 16,
        0 <= y < 16,
        0 <= n < 16,
    ensures
        only_pc_differs(s, execute_state(s, opcode_of(5, x, y * 16 + n))),
        execute_state(s, opcode_of(5, x, y * 16 + n)).pc == if s.v[x] == s.v[y] {
            s.pc + 2
        } else {
            s.pc as int
        },
{
    lemma_opcode_of_fields(5, x, y * 16 + n);
}

/// `6XKK` puts `KK` in `VX` and changes nothing else.
pub proof fn lemma_load_immediate(s: CpuView, x: int, kk: int)
    requires
        s.well_formed(),
        0 <= x < 16,
        0 <= kk < 256,
    ensures
        only_registers_differ(s, execute_state(s, opcode_of(6, x, kk))),
        other_registers_kept(s, execute_state(s, opcode_of(6, x, kk)), x, x),
        execute_state(s, opcode_of(6, x, kk)).v[x] == kk,
{
    lemma_opcode_of_fields(6, x, kk);
}

/// `7XKK` adds `KK` to `VX` modulo 256, leaves `VF` and every other register alone, and
/// changes nothing else.
pub proof fn lemma_add_immediate(s: CpuView, x: int, kk: int)
    requires
        s.well_formed(),
        0 <= x < 16,
        0 <= kk < 256,
    ensures
        only_registers_differ(s, execute_state(s, opcode_of(7, x, kk))),
        other_registers_kept(s, execute_state(s, opcode_of(7, x, kk)), x, x),
        execute_state(s, opcode_of(7, x, kk)).v[x] == (s.v[x] + kk) % 256,
{
    lemma_opcode_of_fields(7, x, kk);
}

/// `8XY0` to `8XY3` put `VY`, `VX | VY`, `VX & VY` or `VX ^ VY` in `VX`, and change
/// nothing else.
pub proof fn lemma_copy_and_logic(s: CpuView, x: int, y: int, n: int)
    requires
        s.well_formed(),
        0 <= x < 16,
        0 <= y < 16,
        0 <= n <= 3,
    ensures
        only_registers_differ(s, execute_state(s, opcode_of(8, x, y * 16 + n))),
        other_registers_kept(s, execute_state(s, opcode_of(8, x, y * 16 + n)), x, x),
        execute_state(s, opcode_of(8, x, y * 16 + n)).v[x] == if n == 0 {
            s.v[y]
        } else if n == 1 {
            s.v[x] | s.v[y]
        } else if n == 2 {
            s.v[x] & s.v[y]
        } else {
            s.v[x] ^ s.v[y]
        },
{
    lemma_opcode_of_fields(8, x, y * 16 + n);
}

/// `8XY4` with `X` other than `F`: `VF` is the carry (0 or 1), the new `VX` plus 256 times
/// the carry is the true sum, and nothing else changes.
pub proof fn lemma_add_registers(s: CpuView, x: int, y: int)
    requires
        s.well_formed(),
        0 <= x < 15,
        0 <= y < 16,
    ensures
        only_registers_differ(s, execute_state(s, opcode_of(8, x, y * 16 + 4))),
        other_registers_kept(s, execute_state(s, opcode_of(8, x, y * 16 + 4)), x, 15),
        execute_state(s, opcode_of(8, x, y * 16 + 4)).v[15] <= 1,
        execute_state(s, opcode_of(8, x, y * 16 + 4)).v[x] + 256 * execute_state(
            s,
            opcode_of(8, x, y * 16 + 4),
        ).v[15] == s.v[x] + s.v[y],
{
    lemma_opcode_of_fields(8, x, y * 16 + 4);
}

/// `8XY5` with `X` other than `F`: `VF` is 1 exactly when `VX >= VY` (no borrow), the new
/// `VX` is `VX - VY` corrected by the borrow, and nothing else changes.
pub proof fn lemma_subtract_registers(s: CpuView, x: int, y: int)
    requires
        s.well_formed(),
        0 <= x < 15,
        0 <= y < 16,
    ensures
        only_registers_differ(s, execute_state(s, opcode_of(8, x, y * 16 + 5))),
        other_registers_kept(s, execute_state(s, opcode_of(8, x, y * 16 + 5)), x, 15),
        execute_state(s, opcode_of(8, x, y * 16 + 5)).v[15] <= 1,
        (execute_state(s, opcode_of(8, x, y * 16 + 5)).v[15] == 1) == (s.v[x] >= s.v[y]),
        execute_state(s, opcode_of(8, x, y * 16 + 5)).v[x] == s.v[x] - s.v[y]
            + 256 * (1 - execute_state(s, opcode_of(8, x, y * 16 + 5)).v[15]),
{
    lemma_opcode_of_fields(8, x, y * 16 + 5);
}

/// `8XY7` with `X` other than `F`: `VF` is 1 exactly when `VY >= VX` (no borrow), the new
/// `VX` is `VY - VX` corrected by the borrow, and nothing else changes.
pub proof fn lemma_reverse_subtract_registers(s: CpuView, x: int, y: int)
    requires
        s.well_formed(),
        0 <= x < 15,
        0 <= y < 16,
    ensures
        only_registers_differ(s, execute_state(s, opcode_of(8, x, y * 16 + 7))),
        other_registers_kept(s, execute_state(s, opcode_of(8, x, y * 16 + 7)), x, 15),
        execute_state(s, opcode_of(8, x, y * 16 + 7)).v[15] <= 1,
        (execute_state(s, opcode_of(8, x, y * 16 + 7)).v[15] == 1) == (s.v[y] >= s.v[x]),
        execute_state(s, opcode_of(8, x, y * 16 + 7)).v[x] == s.v[y] - s.v[x]
            + 256 * (1 - execute_state(s, opcode_of(8, x, y * 16 + 7)).v[15]),
{
    lemma_opcode_of_fields(8, x, y * 16 + 7);
}

/// `8XY6` with `X` other than `F`: `VF` gets the bit shifted out (`VX` mod 2), `VX` is
/// halved, `VY` is not read, and nothing else changes.
pub proof fn lemma_shift_right(s: CpuView, x: int, y: int)
    requires
        s.well_formed(),
        0 <= x < 15,
        0 <= y < 16,
    ensures
        only_registers_differ(s, execute_state(s, opcode_of(8, x, y * 16 + 6))),
        other_registers_kept(s, execute_state(s, opcode_of(8, x, y * 16 + 6)), x, 15),
        execute_state(s, opcode_of(8, x, y * 16 + 6)).v[15] == s.v[x] % 2,
        execute_state(s, opcode_of(8, x, y * 16 + 6)).v[x] == s.v[x] / 2,
        execute_state(s, opcode_of(8, x, y * 16 + 6)) == execute_state(s, opcode_of(8, x, 6)),
{
    lemma_opcode_of_fields(8, x, y * 16 + 6);
    lemma_opcode_of_fields(8, x, 6);
}

/// `8XYE` with `X` other than `F`: `VF` gets the bit shifted out (1 when `VX >= 128`),
/// `VX` is doubled modulo 256, `VY` is not read, and nothing else changes.
pub proof fn lemma_shift_left(s: CpuView, x: int, y: int)
    requires
        s.well_formed(),
        0 <= x < 15,
        0 <= y < 16,
    ensures
        only_registers_differ(s, execute_state(s, opcode_of(8, x, y * 16 + 14))),
        other_registers_kept(s, execute_state(s, opcode_of(8, x, y * 16 + 14)), x, 15),
        execute_state(s, opcode_of(8, x, y * 16 + 14)).v[15] == s.v[x] / 128,
        execute_state(s, opcode_of(8, x, y * 16 + 14)).v[x] == (s.v[x] * 2) % 256,
        execute_state(s, opcode_of(8, x, y * 16 + 14)) == execute_state(s, opcode_of(8, x, 14)),
{
    lemma_opcode_of_fields(8, x, y * 16 + 14);
    lemma_opcode_of_fields(8, x, 14);
}

/// Every instruction other than a jump, a call, a return or a skip leaves the program
/// counter just past itself.
pub proof fn lemma_step_moves_to_next_instruction(s: CpuView)
    requires
        s.well_formed(),
        step_fault(s) is None,
        !(1 <= op_class(fetch_opcode(s)) <= 5),
        fetch_opcode(s) != 0x00EE,
    ensures
        step_state(s).pc == s.pc + 2,
{
}

/// Loading puts byte `k` of the ROM at `PROGRAM_START + k` and leaves every byte outside
/// the ROM's range as it was.
pub proof fn lemma_rom_placement(memory: Seq<u8>, rom: Seq<u8>)
    requires
        memory.len() == MEMORY_SIZE,
        rom.len() <= MAX_ROM_SIZE,
    ensures
        with_rom(memory, rom).len() == MEMORY_SIZE,
        forall|k: int| 0 <= k < rom.len() ==> #[trigger] with_rom(memory, rom)[PROGRAM_START + k] == rom[k],
        forall|i: int|
            0 <= i < MEMORY_SIZE && !(PROGRAM_START <= i < PROGRAM_START + rom.len())
                ==> #[trigger] with_rom(memory, rom)[i] == memory[i],
{
    assert forall|k: int| 0 <= k < rom.len() implies #[trigger] with_rom(memory, rom)[PROGRAM_START + k] == rom[k] by {
        assert(rom[(PROGRAM_START + k) - PROGRAM_START] == rom[k]);
    }
}

/// The number that a string of decimal digits denotes.
pub open spec fn digits_value(digits: Seq<char>) -> int
    decreases digits.len(),
{
    if digits.len() == 0 {
        0
    } else {
        digits_value(digits.drop_last()) * 10 + (digits.last() as int - '0' as int)
    }
}

/// The character of digit `d` stands `d` places after `0`.
proof fn lemma_digit_char(d: nat)
    requires
        d < 10,
    ensures
        digit_char(d) as int - '0' as int == d,
        '0' <= digit_char(d) <= '9',
{
    assert('1' as int == '0' as int + 1 && '2' as int == '0' as int + 2 && '3' as int == '0' as int + 3
        && '4' as int == '0' as int + 4 && '5' as int == '0' as int + 5 && '6' as int == '0' as int
        + 6 && '7' as int == '0' as int + 7 && '8' as int == '0' as int + 8 && '9' as int == '0' as int
        + 9);
}

/// The digits of `n` denote `n`, and each is one of `0` to `9`.
pub proof fn lemma_decimal_value(n: nat)
    ensures
        digits_value(decimal(n)) == n,
        decimal(n).len() >= 1,
        forall|i: int| 0 <= i < decimal(n).len() ==> '0' <= #[trigger] decimal(n)[i] <= '9',
        decimal(n)[0] != '0' || n == 0,
    decreases n,
{
    lemma_digit_char(n % 10);
    if n >= 10 {
        lemma_decimal_value(n / 10);
        let d = decimal(n);
        assert(d.drop_last() =~= decimal(n / 10));
        assert(d.last() == digit_char(n % 10));
        assert(digits_value(d) == digits_value(decimal(n / 10)) * 10 + (digit_char(n % 10) as int - '0' as int));
        assert((n / 10) * 10 + n % 10 == n);
        assert forall|i: int| 0 <= i < d.len() implies '0' <= #[trigger] d[i] <= '9' by {
            if i < d.len() - 1 {
                assert(d[i] == decimal(n / 10)[i]);
            }
        }
    } else {
        let d = decimal(n);
        assert(n % 10 == n);
        assert(d.drop_last() =~= Seq::<char>::empty());
        assert(digits_value(d.drop_last()) == 0);
        assert(d.last() == digit_char(n));
    }
}

/// On a well-formed state the only instructions that abort are a return with an empty
/// stack and a call with all sixteen slots in use.
pub proof fn lemma_faults_only_at_stack_edges(s: CpuView, op: u16)
    requires
        s.well_formed(),
    ensures
        (execute_fault(s, op) == Some(Fault::StackUnderflow)) == (op == 0x00EE && s.sp == 0),
        (execute_fault(s, op) == Some(Fault::StackOverflow)) == (op as int / 4096 == 2 && s.sp == 16),
        execute_fault(s, op) is None || execute_fault(s, op) == Some(Fault::StackUnderflow)
            || execute_fault(s, op) == Some(Fault::StackOverflow),
{
}

/// A step aborts for want of memory exactly when the second byte of the instruction at
/// the program counter lies past the end of memory.
pub proof fn lemma_fetch_fault_at_end_of_memory(s: CpuView)
    requires
        s.well_formed(),
    ensures
        (step_fault(s) == Some(Fault::ProgramCounterOutOfRange)) == (s.pc + 1 >= MEMORY_SIZE),
{
}

/// `9XYN` and `ANNN` to `FNNN` change nothing.
pub proof fn lemma_unimplemented_opcodes_change_nothing(s: CpuView, op: u16)
    requires
        op as int >= 0x9000,
    ensures
        execute_state(s, op) == s,
{
}

} // verus!
