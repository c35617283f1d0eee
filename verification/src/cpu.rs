//! A 4-bit virtual processor driven by redstone.
//!
//! Eight registers, sixteen cells of RAM, a 4-bit program counter and the
//! flags Z (zero) and C (carry). Each instruction byte holds the instruction
//! in its high nibble and the operand `N` in its low nibble:
//!
//! | nibble | effect |
//! |---|---|
//! | 0 | no operation |
//! | 1 | `R[N]` takes the low nibble of the next byte |
//! | 2 | `R[N] = R[(N+1)%8]` |
//! | 3 | `R[N] = (R[N] + R[(N+1)%8]) mod 16`, sets Z and C |
//! | 4 | `R[N] = (R[N] - R[(N+1)%8]) mod 16`, sets Z and C |
//! | 5, 6, 7 | `R[N]` and, or, xor `R[(N+1)%8]`, sets Z |
//! | 8 | jump to `N` |
//! | 9 | jump to `N` if Z |
//! | A | jump to `N` unless Z |
//! | B | `RAM[R[N] mod 16] = R[(N+1)%8]` |
//! | C | `R[N] = RAM[R[N] mod 16]` |
//! | D | output `R[N] mod 16` as the redstone signal |
//! | E | `R[N] = 0` (external input, not wired) |
//! | F | halt |
use vstd::prelude::*;

verus! {

/// The processor: registers, RAM, program and control state.
#[derive(Debug, Clone)]
pub struct RedstoneCPU {
    pub registers: [u8; 8],
    pub ram: [u8; 16],
    pub pc: u8,
    pub flags_z: bool,
    pub flags_c: bool,
    pub program: Vec<u8>,
    pub output: u8,
    pub running: bool,
    pub cycle_count: u64,
}

/// The mathematical state of a processor.
pub struct CpuState {
    pub registers: Seq<u8>,
    pub ram: Seq<u8>,
    pub pc: u8,
    pub flags_z: bool,
    pub flags_c: bool,
    pub program: Seq<u8>,
    pub output: u8,
    pub running: bool,
    pub cycle_count: u64,
}

impl View for RedstoneCPU {
    type V = CpuState;

    open spec fn view(&self) -> CpuState {
        CpuState {
            registers: self.registers@,
            ram: self.ram@,
            pc: self.pc,
            flags_z: self.flags_z,
            flags_c: self.flags_c,
            program: self.program@,
            output: self.output,
            running: self.running,
            cycle_count: self.cycle_count,
        }
    }
}

/// Instruction nibble of an instruction byte.
pub open spec fn instr_of(op: u8) -> u8 {
    op / 16
}

/// Operand nibble of an instruction byte.
pub open spec fn operand_of(op: u8) -> u8 {
    op % 16
}

/// Instructions that read or write the register named by their operand.
pub open spec fn uses_register(instr: u8) -> bool {
    (1 <= instr <= 7) || (0xB <= instr <= 0xE)
}

/// Whether the processor executes an instruction on its next tick.
pub open spec fn executes(s: CpuState) -> bool {
    s.running && s.pc < s.program.len()
}

/// The effect of instruction `i` with operand `n` on a state whose program
/// counter already points past the instruction byte.
pub open spec fn execute(t: CpuState, i: u8, n: u8) -> CpuState {
    let n = n as int;
    let m = (n + 1) % 8;
    let regs = t.registers;
    if i == 0 {
        t
    } else if i == 1 {
        let imm: u8 = if t.pc < t.program.len() { t.program[t.pc as int] % 16 } else { 0 };
        CpuState { registers: regs.update(n, imm), pc: ((t.pc + 1) % 16) as u8, ..t }
    } else if i == 2 {
        CpuState { registers: regs.update(n, regs[m]), ..t }
    } else if i == 3 {
        let sum = regs[n] + regs[m];
        CpuState {
            registers: regs.update(n, (sum % 16) as u8),
            flags_c: sum > 15,
            flags_z: sum % 16 == 0,
            ..t
        }
    } else if i == 4 {
        let diff = regs[n] - regs[m];
        CpuState {
            registers: regs.update(n, (diff % 16) as u8),
            flags_c: regs[m] > regs[n],
            flags_z: diff % 16 == 0,
            ..t
        }
    } else if i == 5 {
        let v = regs[n] & regs[m];
        CpuState { registers: regs.update(n, v), flags_z: v == 0, ..t }
    } else if i == 6 {
        let v = regs[n] | regs[m];
        CpuState { registers: regs.update(n, v), flags_z: v == 0, ..t }
    } else if i == 7 {
        let v = regs[n] ^ regs[m];
        CpuState { registers: regs.update(n, v), flags_z: v == 0, ..t }
    } else if i == 8 {
        CpuState { pc: n as u8, ..t }
    } else if i == 9 {
        CpuState { pc: if t.flags_z { n as u8 } else { t.pc }, ..t }
    } else if i == 0xA {
        CpuState { pc: if !t.flags_z { n as u8 } else { t.pc }, ..t }
    } else if i == 0xB {
        CpuState { ram: t.ram.update((regs[n] % 16) as int, regs[m]), ..t }
    } else if i == 0xC {
        CpuState { registers: regs.update(n, t.ram[(regs[n] % 16) as int]), ..t }
    } else if i == 0xD {
        CpuState { output: regs[n] % 16, ..t }
    } else if i == 0xE {
        CpuState { registers: regs.update(n, 0), ..t }
    } else {
        CpuState { running: false, ..t }
    }
}

/// The state after one clock cycle: a processor that is stopped, or whose
/// program counter has run off the program, stops; otherwise it fetches the
/// instruction byte, advances the program counter modulo 16, executes the
/// instruction and counts the cycle.
pub open spec fn step(s: CpuState) -> CpuState {
    if !executes(s) {
        CpuState { running: false, ..s }
    } else {
        let op = s.program[s.pc as int];
        let t = CpuState { pc: ((s.pc + 1) % 16) as u8, ..s };
        let u = execute(t, instr_of(op), operand_of(op));
        CpuState { cycle_count: (s.cycle_count + 1) as u64, ..u }
    }
}

/// One tick from this state runs without fault: the program counter can
/// advance, the cycle counter can count, and a register operand names one of
/// the eight registers.
pub open spec fn tick_safe(s: CpuState) -> bool {
    executes(s) ==> {
        let op = s.program[s.pc as int];
        &&& s.pc < 255
        &&& s.cycle_count < u64::MAX
        &&& uses_register(instr_of(op)) ==> operand_of(op) < 8
    }
}

/// The state after at most `n` cycles, stopping early on halt.
pub open spec fn run_spec(s: CpuState, n: nat) -> CpuState
    decreases n,
{
    if n == 0 || !s.running {
        s
    } else {
        run_spec(step(s), (n - 1) as nat)
    }
}

/// Every tick of a run of at most `n` cycles is safe.
pub open spec fn run_safe(s: CpuState, n: nat) -> bool
    decreases n,
{
    if n == 0 || !s.running {
        true
    } else {
        tick_safe(s) && run_safe(step(s), (n - 1) as nat)
    }
}

/// A program whose reachable instruction bytes (the first sixteen, as the
/// program counter is four bits wide) never name a register beyond R7.
pub open spec fn program_safe(program: Seq<u8>) -> bool {
    forall|p: int|
        0 <= p < program.len() && p < 16 && #[trigger] uses_register(instr_of(program[p]))
            ==> operand_of(program[p]) < 8
}

/// All registers and RAM cells hold 4-bit values.
pub open spec fn nibbles(s: CpuState) -> bool {
    &&& forall|i: int| 0 <= i < s.registers.len() ==> #[trigger] s.registers[i] < 16
    &&& forall|i: int| 0 <= i < s.ram.len() ==> #[trigger] s.ram[i] < 16
}

/// Addition: with an add instruction `0x3N` next, the cycle puts the sum of
/// `R[N]` and `R[(N+1)%8]` modulo 16 into `R[N]`, sets the carry flag
/// exactly when the sum exceeds 15 (the result wrapped) and the zero flag
/// exactly when the result is 0, leaves the other registers alone and moves
/// to the next byte.
pub proof fn lemma_add_instruction(s: CpuState)
    requires
        s.running,
        s.pc < s.program.len(),
        s.registers.len() == 8,
        s.program[s.pc as int] / 16 == 3,
        s.program[s.pc as int] % 16 < 8,
    ensures
        ({
            let n = (s.program[s.pc as int] % 16) as int;
            let a = s.registers[n] as int;
            let b = s.registers[(n + 1) % 8] as int;
            &&& step(s).registers[n] == (a + b) % 16
            &&& step(s).flags_c <==> a + b >= 16
            &&& step(s).flags_z <==> (a + b) % 16 == 0
            &&& forall|k: int| 0 <= k < 8 && k != n ==> step(s).registers[k] == s.registers[k]
            &&& step(s).pc == (s.pc + 1) % 16
            &&& step(s).running
        }),
{
}

/// Subtraction: with a subtract instruction `0x4N` next, `R[N]` becomes
/// `R[N] - R[(N+1)%8]` modulo 16, the carry flag tells whether a borrow was
/// needed (the subtrahend was larger) and the zero flag whether the result is 0.
pub proof fn lemma_sub_instruction(s: CpuState)
    requires
        s.running,
        s.pc < s.program.len(),
        s.registers.len() == 8,
        s.program[s.pc as int] / 16 == 4,
        s.program[s.pc as int] % 16 < 8,
        forall|k: int| 0 <= k < 8 ==> s.registers[k] < 16,
    ensures
        ({
            let n = (s.program[s.pc as int] % 16) as int;
            let a = s.registers[n] as int;
            let b = s.registers[(n + 1) % 8] as int;
            &&& step(s).registers[n] == if a >= b { a - b } else { a - b + 16 }
            &&& step(s).flags_c <==> b > a
            &&& step(s).flags_z <==> a == b
            &&& forall|k: int| 0 <= k < 8 && k != n ==> step(s).registers[k] == s.registers[k]
        }),
{
    let n = (s.program[s.pc as int] % 16) as int;
    let a = s.registers[n] as int;
    let b = s.registers[(n + 1) % 8] as int;
    assert((a - b) % 16 == if a >= b { a - b } else { a - b + 16 }) by (nonlinear_arith)
        requires 0 <= a < 16, 0 <= b < 16;
}

/// Bitwise instructions: `0x5N`, `0x6N` and `0x7N` put `R[N]` and, or, xor
/// `R[(N+1)%8]` into `R[N]`; the zero flag tells whether the result is 0
/// and the carry flag stays as it was.
pub proof fn lemma_bitwise_instructions(s: CpuState)
    requires
        s.running,
        s.pc < s.program.len(),
        s.registers.len() == 8,
        5 <= s.program[s.pc as int] / 16 <= 7,
        s.program[s.pc as int] % 16 < 8,
    ensures
        ({
            let i = s.program[s.pc as int] / 16;
            let n = (s.program[s.pc as int] % 16) as int;
            let a = s.registers[n];
            let b = s.registers[(n + 1) % 8];
            let v = if i == 5 { a & b } else if i == 6 { a | b } else { a ^ b };
            &&& step(s).registers[n] == v
            &&& step(s).flags_z <==> v == 0
            &&& step(s).flags_c == s.flags_c
            &&& forall|k: int| 0 <= k < 8 && k != n ==> step(s).registers[k] == s.registers[k]
        }),
{
}

/// Loading: `0x1N` puts the low nibble of the following byte into `R[N]`
/// (0 past the end of the program) and skips that byte; `0x2N` copies
/// `R[(N+1)%8]` into `R[N]`. Neither touches the flags.
pub proof fn lemma_load_instructions(s: CpuState)
    requires
        s.running,
        s.pc < s.program.len(),
        s.pc < 255,
        s.registers.len() == 8,
        1 <= s.program[s.pc as int] / 16 <= 2,
        s.program[s.pc as int] % 16 < 8,
    ensures
        ({
            let i = s.program[s.pc as int] / 16;
            let n = (s.program[s.pc as int] % 16) as int;
            let next = (s.pc + 1) % 16;
            &&& i == 1 ==> step(s).registers[n] == (if next < s.program.len() { s.program[next] % 16 } else { 0 })
                && step(s).pc == (next + 1) % 16
            &&& i == 2 ==> step(s).registers[n] == s.registers[(n + 1) % 8] && step(s).pc == next
            &&& step(s).flags_z == s.flags_z && step(s).flags_c == s.flags_c
            &&& forall|k: int| 0 <= k < 8 && k != n ==> step(s).registers[k] == s.registers[k]
        }),
{
}

/// Memory: `0xBN` stores `R[(N+1)%8]` at the RAM cell `R[N] mod 16`, and
/// `0xCN` loads `R[N]` from the RAM cell `R[N] mod 16`.
pub proof fn lemma_memory_instructions(s: CpuState)
    requires
        s.running,
        s.pc < s.program.len(),
        s.registers.len() == 8,
        s.ram.len() == 16,
        0xB <= s.program[s.pc as int] / 16 <= 0xC,
        s.program[s.pc as int] % 16 < 8,
    ensures
        ({
            let i = s.program[s.pc as int] / 16;
            let n = (s.program[s.pc as int] % 16) as int;
            let addr = (s.registers[n] % 16) as int;
            &&& i == 0xB ==> step(s).ram == s.ram.update(addr, s.registers[(n + 1) % 8]) && step(s).registers
                == s.registers
            &&& i == 0xC ==> step(s).registers == s.registers.update(n, s.ram[addr]) && step(s).ram == s.ram
        }),
{
}

/// Halting: `0xF_` stops the processor, and a stopped processor, or one
/// whose program counter has run past the program, stays stopped.
pub proof fn lemma_halt_instruction(s: CpuState)
    ensures
        executes(s) && s.program[s.pc as int] / 16 == 15 ==> !step(s).running,
        !executes(s) ==> !step(s).running && step(s).registers == s.registers && step(s).pc == s.pc,
{
}

/// Jumps: `0x8N` always goes to `N`, `0x9N` goes to `N` when the zero flag
/// is set and `0xAN` when it is clear; otherwise the next byte follows.
/// Registers and flags stay as they are.
pub proof fn lemma_jump_instructions(s: CpuState)
    requires
        s.running,
        s.pc < s.program.len(),
        8 <= s.program[s.pc as int] / 16 <= 10,
    ensures
        ({
            let i = s.program[s.pc as int] / 16;
            let n = s.program[s.pc as int] % 16;
            let taken = i == 8 || (i == 9 && s.flags_z) || (i == 10 && !s.flags_z);
            &&& step(s).pc == if taken { n as int } else { (s.pc + 1) % 16 }
            &&& step(s).registers == s.registers
            &&& step(s).flags_z == s.flags_z
            &&& step(s).flags_c == s.flags_c
        }),
{
}

/// Output: `0xDN` makes the low four bits of `R[N]` the redstone signal.
pub proof fn lemma_output_instruction(s: CpuState)
    requires
        s.running,
        s.pc < s.program.len(),
        s.registers.len() == 8,
        s.program[s.pc as int] / 16 == 13,
        s.program[s.pc as int] % 16 < 8,
    ensures
        step(s).output == s.registers[(s.program[s.pc as int] % 16) as int] % 16,
        step(s).registers == s.registers,
{
}

/// A cycle keeps the program counter within four bits and leaves the program as it is.
pub proof fn lemma_step_keeps_pc_and_program(s: CpuState)
    requires
        s.pc < 16,
    ensures
        step(s).pc < 16,
        step(s).program == s.program,
{
}

/// The output always stays a redstone signal strength (0 to 15): a run
/// started with a valid signal ends with one.
pub proof fn lemma_output_is_signal(s: CpuState, n: nat)
    requires
        s.output < 16,
    ensures
        run_spec(s, n).output < 16,
    decreases n,
{
    if n > 0 && s.running {
        lemma_output_is_signal(step(s), (n - 1) as nat);
    }
}

/// A cycle that runs without fault keeps every register and RAM cell within four bits.
pub proof fn lemma_step_keeps_nibbles(s: CpuState)
    requires
        nibbles(s),
        tick_safe(s),
        s.registers.len() == 8,
        s.ram.len() == 16,
    ensures
        nibbles(step(s)),
        step(s).registers.len() == 8,
        step(s).ram.len() == 16,
{
    if executes(s) {
        let op = s.program[s.pc as int];
        let n = operand_of(op) as int;
        let m = (n + 1) % 8;
        let a = s.registers[n];
        let b = s.registers[m];
        if 0 <= n < 8 {
            assert(a < 16 && b < 16 ==> (a & b) < 16 && (a | b) < 16 && (a ^ b) < 16)
                by (bit_vector);
        }
    }
}

/// A halted processor stays exactly as it is, however long it runs.
pub proof fn lemma_halted_is_stable(s: CpuState, n: nat)
    requires
        !s.running,
    ensures
        run_spec(s, n) == s,
{
}

/// A program that never names a register beyond R7 in its first sixteen
/// bytes runs without fault from any address within four bits, for as many
/// cycles as the cycle counter can still count.
pub proof fn lemma_safe_program_runs(s: CpuState, n: nat)
    requires
        program_safe(s.program),
        s.pc < 16,
        s.cycle_count + n <= u64::MAX,
    ensures
        run_safe(s, n),
    decreases n,
{
    if n > 0 && s.running {
        if executes(s) {
            let op = s.program[s.pc as int];
            assert(uses_register(instr_of(op)) ==> operand_of(op) < 8);
        }
        lemma_step_keeps_pc_and_program(s);
        lemma_safe_program_runs(step(s), (n - 1) as nat);
    }
}

impl RedstoneCPU {
    /// A stopped processor with cleared registers, RAM and output.
    pub fn new() -> (cpu: Self)
        ensures
            cpu@.registers == Seq::new(8, |_i: int| 0u8),
            cpu@.ram == Seq::new(16, |_i: int| 0u8),
            cpu@.pc == 0,
            !cpu@.flags_z,
            !cpu@.flags_c,
            cpu@.program == Seq::<u8>::empty(),
            cpu@.output == 0,
            !cpu@.running,
            cpu@.cycle_count == 0,
    {
        let cpu = RedstoneCPU {
            registers: [0; 8],
            ram: [0; 16],
            pc: 0,
            flags_z: false,
            flags_c: false,
            program: Vec::new(),
            output: 0,
            running: false,
            cycle_count: 0,
        };
        assert(cpu@.registers =~= Seq::new(8, |_i: int| 0u8));
        assert(cpu@.ram =~= Seq::new(16, |_i: int| 0u8));
        cpu
    }

    /// Load a program and start it from address 0.
    pub fn load_program(&mut self, program: &[u8])
        ensures
            final(self)@ == (CpuState {
                program: program@,
                pc: 0,
                running: true,
                cycle_count: 0,
                ..old(self)@
            }),
    {
        let mut copy: Vec<u8> = Vec::with_capacity(program.len());
        let mut k: usize = 0;
        while k < program.len()
            invariant
                k <= program@.len(),
                copy@ == program@.subrange(0, k as int),
            decreases program@.len() - k,
        {
            copy.push(program[k]);
            k += 1;
            assert(copy@ =~= program@.subrange(0, k as int));
        }
        assert(copy@ =~= program@);
        self.program = copy;
        self.pc = 0;
        self.running = true;
        self.cycle_count = 0;
    }

    /// Execute one clock cycle.
    pub fn tick(&mut self)
        requires
            tick_safe(old(self)@),
        ensures
            final(self)@ == step(old(self)@),
    {
        if !self.running || self.pc as usize >= self.program.len() {
            self.running = false;
            return;
        }
        let opcode = self.program[self.pc as usize];
        assert(((opcode >> 4) & 0xF) == opcode / 16 && (opcode & 0xF) == opcode % 16)
            by (bit_vector);
        let instruction = (opcode >> 4) & 0xF;
        let operand = opcode & 0xF;
        let p0 = self.pc + 1;
        assert((p0 & 0xF) == p0 % 16) by (bit_vector);
        self.pc = p0 & 0xF;
        if instruction <= 7 {
            self.execute_data(instruction, operand);
        } else {
            self.execute_control(instruction, operand);
        }
        self.cycle_count += 1;
    }

    /// Instructions 0 to 7: loads and register arithmetic.
    #[verifier::spinoff_prover]
    #[verifier::rlimit(40)]
    fn execute_data(&mut self, instruction: u8, operand: u8)
        requires
            instruction <= 7,
            operand < 16,
            uses_register(instruction) ==> operand < 8,
            old(self).pc < 16,
        ensures
            final(self)@ == execute(old(self)@, instruction, operand),
    {
        let ghost t = self@;
        match instruction {
            0x0 => {},
            0x1 => {
                let immediate = if (self.pc as usize) < self.program.len() {
                    let b = self.program[self.pc as usize];
                    assert(b & 0xF == b % 16) by (bit_vector);
                    b & 0xF
                } else {
                    0
                };
                let p1 = self.pc + 1;
                assert((p1 & 0xF) == p1 % 16) by (bit_vector);
                self.pc = p1 & 0xF;
                self.registers[operand as usize] = immediate;
            },
            0x2 => {
                self.registers[operand as usize] = self.registers[((operand + 1) % 8) as usize];
            },
            0x3 => {
                let a = self.registers[operand as usize];
                let b = self.registers[((operand + 1) % 8) as usize];
                let result = a.wrapping_add(b);
                assert(result & 0xF == result % 16) by (bit_vector);
                self.flags_c = a as u16 + b as u16 > 0xF;
                self.flags_z = (result & 0xF) == 0;
                self.registers[operand as usize] = result & 0xF;
            },
            0x4 => {
                let a = self.registers[operand as usize];
                let b = self.registers[((operand + 1) % 8) as usize];
                let result = a.wrapping_sub(b);
                assert(result & 0xF == result % 16) by (bit_vector);
                self.flags_c = b > a;
                self.flags_z = (result & 0xF) == 0;
                self.registers[operand as usize] = result & 0xF;
            },
            0x5 => {
                let val = self.registers[operand as usize] & self.registers[((operand + 1)
                    % 8) as usize];
                self.flags_z = val == 0;
                self.registers[operand as usize] = val;
            },
            0x6 => {
                let val = self.registers[operand as usize] | self.registers[((operand + 1)
                    % 8) as usize];
                self.flags_z = val == 0;
                self.registers[operand as usize] = val;
            },
            _ => {
                let val = self.registers[operand as usize] ^ self.registers[((operand + 1)
                    % 8) as usize];
                self.flags_z = val == 0;
                self.registers[operand as usize] = val;
            },
        }
        assert(self@.registers =~= execute(t, instruction, operand).registers);
    }

    /// Instructions 8 to 15: jumps, memory, input and output, halt.
    #[verifier::spinoff_prover]
    #[verifier::rlimit(40)]
    fn execute_control(&mut self, instruction: u8, operand: u8)
        requires
            8 <= instruction <= 15,
            operand < 16,
            uses_register(instruction) ==> operand < 8,
        ensures
            final(self)@ == execute(old(self)@, instruction, operand),
    {
        let ghost t = self@;
        match instruction {
            0x8 => {
                self.pc = operand;
            },
            0x9 => {
                if self.flags_z {
                    self.pc = operand;
                }
            },
            0xA => {
                if !self.flags_z {
                    self.pc = operand;
                }
            },
            0xB => {
                let r = self.registers[operand as usize];
                assert(r & 0xF == r % 16) by (bit_vector);
                let addr = r & 0xF;
                let val = self.registers[((operand + 1) % 8) as usize];
                self.ram[addr as usize] = val;
            },
            0xC => {
                let r = self.registers[operand as usize];
                assert(r & 0xF == r % 16) by (bit_vector);
                let addr = r & 0xF;
                self.registers[operand as usize] = self.ram[addr as usize];
            },
            0xD => {
                let r = self.registers[operand as usize];
                assert(r & 0xF == r % 16) by (bit_vector);
                self.output = r & 0xF;
            },
            0xE => {
                self.registers[operand as usize] = 0;
            },
            _ => {
                self.running = false;
            },
        }
        assert(self@.registers =~= execute(t, instruction, operand).registers);
        assert(self@.ram =~= execute(t, instruction, operand).ram);
    }

    /// Run until the program halts or `max_cycles` cycles have passed.
    pub fn run(&mut self, max_cycles: u64)
        requires
            run_safe(old(self)@, max_cycles as nat),
        ensures
            final(self)@ == run_spec(old(self)@, max_cycles as nat),
    {
        let mut i: u64 = 0;
        while i < max_cycles && self.running
            invariant
                i <= max_cycles,
                run_spec(old(self)@, max_cycles as nat) == run_spec(self@, (max_cycles - i) as nat),
                run_safe(self@, (max_cycles - i) as nat),
            decreases max_cycles - i,
        {
            self.tick();
            i += 1;
        }
    }

    /// The output as a redstone signal strength.
    pub fn signal_output(&self) -> (r: u8)
        ensures
            r == self.output,
    {
        self.output
    }
}

/// A program that counts from 0 to 15, putting out each value.
pub fn example_counter() -> (p: Vec<u8>)
    ensures
        p@ == seq![0x10u8, 0x00, 0x11, 0x01, 0xD0, 0x30, 0x90, 0x84, 0xF0],
{
    vec![
        0x10, 0x00,  // R0 = 0
        0x11, 0x01,  // R1 = 1
        0xD0,  // output R0
        0x30,  // R0 += R1
        0x90,  // back to 0 once R0 wraps to 0
        0x84,  // back to the output
        0xF0,  // halt
    ]
}

/// A program that puts out the Fibonacci numbers mod 16.
///
/// A move or an addition into a register reads the register just above it
/// (R7 reads R0), so the new number is passed down the ring of registers
/// from R7 to R1.
pub fn example_fibonacci() -> (p: Vec<u8>)
    ensures
        p@ == seq![0x11u8, 0x01, 0xD0, 0x27, 0x20, 0x37, 0x26, 0x25, 0x24, 0x23, 0x22, 0x21, 0x82, 0xF0],
{
    vec![
        0x11, 0x01,  // R1 = 1 (b); R0 = 0 (a)
        0xD0,  // output a
        0x27,  // R7 = a
        0x20,  // a = b
        0x37,  // R7 = a + b (the old a plus the old b)
        0x26, 0x25, 0x24, 0x23, 0x22, 0x21,  // pass R7 down to R1: b = the sum
        0x82,  // loop
        0xF0,  // halt
    ]
}

} // verus!
