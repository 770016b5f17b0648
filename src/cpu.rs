//! The DCPU-16 processor: registers, operand resolution and instruction execution.
use vstd::prelude::*;

use crate::alu;
use crate::alu::{
    add_spec, adx_spec, asr_spec, div_spec, dvi_spec, mdi_spec, mli_spec, mod_spec, mul_spec,
    sbx_spec, shl_spec, shr_spec, signed, sub_spec, word, wrap_add, wrap_sub,
};
use crate::error::CpuError;
use crate::instruction::{
    a_field, b_field, decode, is_basic, lemma_encode_decode, op_field, operand_a, operand_b,
    Instruction, Opcode,
};
use crate::memory::{Memory, MemoryView};

verus! {

/// Index of register A; INT and RFI save and restore it.
pub const REG_A: usize = 0;

/// Index of register I, which STI and STD step.
pub const REG_I: usize = 6;

/// Index of register J, which STI and STD step.
pub const REG_J: usize = 7;

/// How many steps `run` makes at most.
pub const STEP_LIMIT: u64 = 0xffff_ffff_ffff_ffff;

/// How many further conditionals a failed conditional skips at most, after the
/// instruction right behind it.
pub const SKIP_CHAIN_LIMIT: u32 = 0xffff;

/// Where an operand reads from and writes to.
#[derive(Debug, Clone, Copy, PartialEq, Eq, Structural)]
pub enum Location {
    /// One of the eight general registers, by index.
    Register(u8),
    /// The memory cell at this address.
    Memory(u16),
    StackPointer,
    ProgramCounter,
    Extra,
    /// A constant; writes to it are dropped.
    Literal(u16),
}

/// Whether a location names one of the eight registers, if it names one at all.
pub open spec fn location_valid(loc: Location) -> bool {
    match loc {
        Location::Register(r) => r < 8,
        _ => true,
    }
}

/// Whether an operand field takes the word after the instruction.
pub open spec fn takes_next_word(n: u8) -> bool {
    (0x10 <= n < 0x18) || n == 0x1a || n == 0x1e || n == 0x1f
}

/// How many words the instruction that starts with word `w` occupies.
pub open spec fn instruction_words(w: u16) -> int {
    1 + (if takes_next_word(a_field(w)) { 1int } else { 0 }) + (if op_field(w) != 0
        && takes_next_word(b_field(w)) {
        1int
    } else {
        0
    })
}

/// Whether an instruction is one of the eight conditionals.
pub open spec fn is_conditional(op: Opcode) -> bool {
    match op {
        Opcode::IFB(..) | Opcode::IFC(..) | Opcode::IFE(..) | Opcode::IFN(..) | Opcode::IFG(..)
        | Opcode::IFA(..) | Opcode::IFL(..) | Opcode::IFU(..) => true,
        _ => false,
    }
}

/// Whether the conditional `op` holds for the operand values `b` and `a`.
pub open spec fn condition_holds(op: Opcode, b: u16, a: u16) -> bool {
    match op {
        Opcode::IFB(..) => b & a != 0,
        Opcode::IFC(..) => b & a == 0,
        Opcode::IFE(..) => b == a,
        Opcode::IFN(..) => b != a,
        Opcode::IFG(..) => b > a,
        Opcode::IFA(..) => signed(b) > signed(a),
        Opcode::IFL(..) => b < a,
        Opcode::IFU(..) => signed(b) < signed(a),
        _ => true,
    }
}

/// The processor state as a mathematical value.
pub struct CpuState {
    /// A, B, C, X, Y, Z, I, J.
    pub registers: Seq<u16>,
    pub pc: u16,
    pub sp: u16,
    pub ex: u16,
    pub ia: u16,
    pub memory: MemoryView,
}

impl CpuState {
    /// The state of a fresh processor: everything zero, nothing loaded.
    pub open spec fn initial() -> CpuState {
        CpuState {
            registers: Seq::new(8, |i: int| 0u16),
            pc: 0,
            sp: 0,
            ex: 0,
            ia: 0,
            memory: MemoryView::empty(),
        }
    }

    pub open spec fn read(self, addr: u16) -> u16 {
        self.memory.cells[addr as int]
    }

    /// The word at PC, and PC moved past it.
    pub open spec fn next_word(self) -> (CpuState, u16) {
        (CpuState { pc: word(self.pc + 1), ..self }, self.read(self.pc))
    }

    /// SP moved down one word, and `v` written where it then points.
    pub open spec fn push(self, v: u16) -> CpuState {
        let sp = word(self.sp - 1);
        CpuState { sp: sp, memory: self.memory.set(sp as int, v), ..self }
    }

    /// The word at SP, and SP moved up one word.
    pub open spec fn pop(self) -> (CpuState, u16) {
        (CpuState { sp: word(self.sp + 1), ..self }, self.read(self.sp))
    }

    /// Where operand field `n` points, and the state after any word it takes or any
    /// stack move it makes. Field 0x18 pops as an a operand and pushes as a b operand.
    pub open spec fn locate(self, n: u8, is_a: bool) -> (CpuState, Location) {
        if n < 0x08 {
            (self, Location::Register(n))
        } else if n < 0x10 {
            (self, Location::Memory(self.registers[n - 0x08]))
        } else if n < 0x18 {
            let (s, w) = self.next_word();
            (s, Location::Memory(word(self.registers[n - 0x10] + w)))
        } else if n == 0x18 {
            if is_a {
                (CpuState { sp: word(self.sp + 1), ..self }, Location::Memory(self.sp))
            } else {
                (CpuState { sp: word(self.sp - 1), ..self }, Location::Memory(word(self.sp - 1)))
            }
        } else if n == 0x19 {
            (self, Location::Memory(self.sp))
        } else if n == 0x1a {
            let (s, w) = self.next_word();
            (s, Location::Memory(word(self.sp + w)))
        } else if n == 0x1b {
            (self, Location::StackPointer)
        } else if n == 0x1c {
            (self, Location::ProgramCounter)
        } else if n == 0x1d {
            (self, Location::Extra)
        } else if n == 0x1e {
            let (s, w) = self.next_word();
            (s, Location::Memory(w))
        } else if n == 0x1f {
            let (s, w) = self.next_word();
            (s, Location::Literal(w))
        } else {
            (self, Location::Literal(word(n - 0x21)))
        }
    }

    /// The value at a location.
    pub open spec fn load(self, loc: Location) -> u16 {
        match loc {
            Location::Register(r) => self.registers[r as int],
            Location::Memory(addr) => self.read(addr),
            Location::StackPointer => self.sp,
            Location::ProgramCounter => self.pc,
            Location::Extra => self.ex,
            Location::Literal(v) => v,
        }
    }

    /// `v` written to a location; a literal takes no write.
    pub open spec fn store(self, loc: Location, v: u16) -> CpuState {
        match loc {
            Location::Register(r) => CpuState { registers: self.registers.update(r as int, v), ..self },
            Location::Memory(addr) => CpuState { memory: self.memory.set(addr as int, v), ..self },
            Location::StackPointer => CpuState { sp: v, ..self },
            Location::ProgramCounter => CpuState { pc: v, ..self },
            Location::Extra => CpuState { ex: v, ..self },
            Location::Literal(_) => self,
        }
    }

    pub open spec fn with_ex(self, ex: u16) -> CpuState {
        CpuState { ex: ex, ..self }
    }

    /// PC moved past the instruction it points at; when that one is a conditional
    /// too, the one behind it is skipped as well, up to `fuel` more times.
    pub open spec fn skip_chain(self, fuel: nat) -> CpuState
        decreases fuel,
    {
        let w = self.read(self.pc);
        let s = CpuState { pc: word(self.pc + instruction_words(w)), ..self };
        if is_conditional(decode(w)) && fuel > 0 {
            s.skip_chain((fuel - 1) as nat)
        } else {
            s
        }
    }

    /// What a failed conditional does: skip the next instruction, and the chain of
    /// conditionals it starts.
    pub open spec fn skip(self) -> CpuState {
        self.skip_chain(SKIP_CHAIN_LIMIT as nat)
    }

    /// Executes a two-operand instruction whose word has been fetched.
    pub open spec fn basic_step(self, op: Opcode) -> CpuState {
        let (s1, la) = self.locate(operand_a(op), true);
        let va = s1.load(la);
        let (s, lb) = s1.locate(operand_b(op), false);
        let vb = s.load(lb);
        match op {
            Opcode::SET(..) => s.store(lb, va),
            Opcode::ADD(..) => s.store(lb, add_spec(vb, va).0).with_ex(add_spec(vb, va).1),
            Opcode::SUB(..) => s.store(lb, sub_spec(vb, va).0).with_ex(sub_spec(vb, va).1),
            Opcode::MUL(..) => s.store(lb, mul_spec(vb, va).0).with_ex(mul_spec(vb, va).1),
            Opcode::MLI(..) => s.store(lb, mli_spec(vb, va).0).with_ex(mli_spec(vb, va).1),
            Opcode::DIV(..) => s.store(lb, div_spec(vb, va).0).with_ex(div_spec(vb, va).1),
            Opcode::DVI(..) => s.store(lb, dvi_spec(vb, va).0).with_ex(dvi_spec(vb, va).1),
            Opcode::MOD(..) => s.store(lb, mod_spec(vb, va)),
            Opcode::MDI(..) => s.store(lb, mdi_spec(vb, va)),
            Opcode::AND(..) => s.store(lb, vb & va),
            Opcode::BOR(..) => s.store(lb, vb | va),
            Opcode::XOR(..) => s.store(lb, vb ^ va),
            Opcode::SHR(..) => s.store(lb, shr_spec(vb, va).0).with_ex(shr_spec(vb, va).1),
            Opcode::ASR(..) => s.store(lb, asr_spec(vb, va).0).with_ex(asr_spec(vb, va).1),
            Opcode::SHL(..) => s.store(lb, shl_spec(vb, va).0).with_ex(shl_spec(vb, va).1),
            Opcode::ADX(..) => s.store(lb, adx_spec(vb, va, s.ex).0).with_ex(
                adx_spec(vb, va, s.ex).1,
            ),
            Opcode::SBX(..) => s.store(lb, sbx_spec(vb, va, s.ex).0).with_ex(
                sbx_spec(vb, va, s.ex).1,
            ),
            Opcode::STI(..) => {
                let t = s.store(lb, va);
                CpuState {
                    registers: t.registers.update(6, word(t.registers[6] + 1)).update(
                        7,
                        word(t.registers[7] + 1),
                    ),
                    ..t
                }
            },
            Opcode::STD(..) => {
                let t = s.store(lb, va);
                CpuState {
                    registers: t.registers.update(6, word(t.registers[6] - 1)).update(
                        7,
                        word(t.registers[7] - 1),
                    ),
                    ..t
                }
            },
            _ => if condition_holds(op, vb, va) {
                s
            } else {
                s.skip()
            },
        }
    }

    /// Executes a one-operand instruction whose word has been fetched.
    pub open spec fn special_step(self, op: Opcode) -> CpuState {
        let (s, la) = self.locate(operand_a(op), true);
        let va = s.load(la);
        match op {
            Opcode::JSR(..) => CpuState { pc: va, ..s.push(s.pc) },
            Opcode::INT(..) => if s.ia == 0 {
                s
            } else {
                let t = s.push(s.pc).push(s.registers[0]);
                CpuState { pc: s.ia, registers: t.registers.update(0, va), ..t }
            },
            Opcode::IAG(..) => s.store(la, s.ia),
            Opcode::IAS(..) => CpuState { ia: va, ..s },
            Opcode::RFI(..) => {
                let (t, a) = s.pop();
                let (u, pc) = t.pop();
                CpuState { pc: pc, registers: u.registers.update(0, a), ..u }
            },
            _ => s,
        }
    }

    /// One instruction: fetch the word at PC, decode it, execute it. A word that
    /// decodes to no instruction is an error, and the state stays as it was.
    pub open spec fn step(self) -> Result<CpuState, CpuError> {
        let w = self.read(self.pc);
        let op = decode(w);
        if op is NULL {
            Err(CpuError::InvalidInstruction { word: w, pc: self.pc })
        } else {
            let s = CpuState { pc: word(self.pc + 1), ..self };
            Ok(
                if is_basic(op) {
                    s.basic_step(op)
                } else {
                    s.special_step(op)
                },
            )
        }
    }

    /// Whether PC lies inside the loaded program.
    pub open spec fn running(self) -> bool {
        self.memory.is_readable(self.pc as int)
    }

    /// Steps until PC leaves the loaded program, a step fails, or `fuel` steps are
    /// made with PC still inside the program.
    pub open spec fn run(self, fuel: nat) -> Result<CpuState, CpuError>
        decreases fuel,
    {
        if !self.running() {
            Ok(self)
        } else if fuel == 0 {
            Err(CpuError::StepLimitReached)
        } else {
            match self.step() {
                Ok(t) => t.run((fuel - 1) as nat),
                Err(e) => Err(e),
            }
        }
    }
}

impl CpuState {
    /// The values of `vs` pushed in order, first to last.
    pub open spec fn push_all(self, vs: Seq<u16>) -> CpuState
        decreases vs.len(),
    {
        if vs.len() == 0 {
            self
        } else {
            self.push_all(vs.drop_last()).push(vs.last())
        }
    }

    /// `n` pops: the state after them and the values popped, in the order popped.
    pub open spec fn pop_n(self, n: nat) -> (CpuState, Seq<u16>)
        decreases n,
    {
        if n == 0 {
            (self, Seq::empty())
        } else {
            let (t, v) = self.pop();
            let (u, rest) = t.pop_n((n - 1) as nat);
            (u, seq![v] + rest)
        }
    }
}

/// After `vs` are pushed, SP has moved down by their number and the `k`-th value
/// pushed sits `k + 1` words below where SP started; nothing else changes.
proof fn lemma_push_all(s: CpuState, vs: Seq<u16>)
    requires
        s.memory.wf(),
        vs.len() <= 0x10000,
    ensures
        s.push_all(vs).sp == word(s.sp - vs.len()),
        s.push_all(vs).memory.wf(),
        s.push_all(vs).memory.loaded == s.memory.loaded,
        s.push_all(vs).registers == s.registers,
        s.push_all(vs).pc == s.pc,
        s.push_all(vs).ex == s.ex,
        s.push_all(vs).ia == s.ia,
        forall|k: int| 0 <= k < vs.len() ==> #[trigger] s.push_all(vs).memory.cells[word(s.sp - k - 1) as int] == vs[k],
    decreases vs.len(),
{
    if vs.len() > 0 {
        let prev = s.push_all(vs.drop_last());
        lemma_push_all(s, vs.drop_last());
        let n = vs.len() as int;
        assert(word(prev.sp - 1) == word(s.sp - n));
        assert forall|k: int| 0 <= k < vs.len() implies #[trigger] s.push_all(vs).memory.cells[word(s.sp - k - 1) as int] == vs[k] by {
            if k < n - 1 {
                assert(word(s.sp - k - 1) != word(s.sp - n));
                assert(prev.memory.cells[word(s.sp - k - 1) as int] == vs.drop_last()[k]);
            }
        }
    }
}

/// Popping `m` values off a stack whose `k`-th pushed value sits `k + 1` words below
/// `base`, with SP `m` words below `base`, gives them back last first and leaves SP
/// at `base`.
proof fn lemma_pop_n(t: CpuState, vs: Seq<u16>, base: u16, m: nat)
    requires
        m <= vs.len(),
        vs.len() <= 0x10000,
        t.sp == word(base - m),
        forall|k: int| 0 <= k < vs.len() ==> #[trigger] t.memory.cells[word(base - k - 1) as int] == vs[k],
    ensures
        t.pop_n(m).0.sp == base,
        t.pop_n(m).1 == vs.subrange(0, m as int).reverse(),
    decreases m,
{
    if m > 0 {
        let (u, v) = t.pop();
        assert(word(base - (m - 1) - 1) == t.sp);
        assert(v == vs[m - 1]);
        assert(u.sp == word(base - (m - 1)));
        lemma_pop_n(u, vs, base, (m - 1) as nat);
        assert(seq![v] + vs.subrange(0, m - 1).reverse() =~= vs.subrange(0, m as int).reverse());
    }
}

/// Push and pop are inverse: after `n <= 65,536` pushes of `v1 .. vn`, `n` pops
/// return `vn .. v1` and SP is back where it started.
pub proof fn lemma_push_pop_round_trip(s: CpuState, vs: Seq<u16>)
    requires
        s.memory.wf(),
        vs.len() <= 0x10000,
    ensures
        s.push_all(vs).pop_n(vs.len()).1 == vs.reverse(),
        s.push_all(vs).pop_n(vs.len()).0.sp == s.sp,
{
    lemma_push_all(s, vs);
    lemma_pop_n(s.push_all(vs), vs, s.sp, vs.len());
    assert(vs.subrange(0, vs.len() as int) =~= vs);
}

impl CpuState {
    /// `k` steps in a row, or the error of the first that fails.
    pub open spec fn steps(self, k: nat) -> Result<CpuState, CpuError>
        decreases k,
    {
        if k == 0 {
            Ok(self)
        } else {
            match self.step() {
                Ok(t) => t.steps((k - 1) as nat),
                Err(e) => Err(e),
            }
        }
    }

    /// After `k` steps PC leaves the loaded program for the first time, in state `t`.
    pub open spec fn leaves_after(self, k: nat, t: CpuState) -> bool {
        &&& self.steps(k) == Ok::<CpuState, CpuError>(t)
        &&& !t.running()
        &&& forall|j: nat| j < k ==> (#[trigger] self.steps(j) matches Ok(u) && u.running())
    }
}

/// `run` ends without error exactly when PC leaves the loaded program within its
/// budget of steps, and it ends in the state where PC first leaves it.
pub proof fn lemma_run_halts_iff_pc_leaves(s: CpuState, fuel: nat, t: CpuState)
    ensures
        s.run(fuel) == Ok::<CpuState, CpuError>(t) <==> exists|k: nat|
            k <= fuel && #[trigger] s.leaves_after(k, t),
    decreases fuel,
{
    if !s.running() {
        if s.run(fuel) == Ok::<CpuState, CpuError>(t) {
            assert(s.leaves_after(0, t));
        }
        assert forall|k: nat| k <= fuel && #[trigger] s.leaves_after(k, t) implies s.run(fuel)
            == Ok::<CpuState, CpuError>(t) by {
            if k > 0 {
                assert(s.steps(0) matches Ok(u) && u.running());
            }
        }
    } else if fuel == 0 {
        assert forall|k: nat| k <= fuel implies !#[trigger] s.leaves_after(k, t) by {
        }
    } else {
        match s.step() {
            Err(e) => {
                assert forall|k: nat| k <= fuel implies !#[trigger] s.leaves_after(k, t) by {
                    if k > 0 {
                        assert(s.steps(k) == Err::<CpuState, CpuError>(e));
                    }
                }
            },
            Ok(u) => {
                lemma_run_halts_iff_pc_leaves(u, (fuel - 1) as nat, t);
                if s.run(fuel) == Ok::<CpuState, CpuError>(t) {
                    let k = choose|k: nat| k <= fuel - 1 && #[trigger] u.leaves_after(k, t);
                    assert forall|j: nat| j < k + 1 implies (#[trigger] s.steps(j) matches Ok(w)
                        && w.running()) by {
                        if j > 0 {
                            assert(s.steps(j) == u.steps((j - 1) as nat));
                            assert(u.steps((j - 1) as nat) matches Ok(w) && w.running());
                        }
                    }
                    assert(s.leaves_after(k + 1, t));
                }
                assert forall|k: nat| k <= fuel && #[trigger] s.leaves_after(k, t) implies s.run(
                    fuel,
                ) == Ok::<CpuState, CpuError>(t) by {
                    if k == 0 {
                        assert(s.steps(0) == Ok::<CpuState, CpuError>(s));
                    } else {
                        let k1 = (k - 1) as nat;
                        assert forall|j: nat| j < k1 implies (#[trigger] u.steps(j) matches Ok(w)
                            && w.running()) by {
                            assert(s.steps(j + 1) == u.steps(j));
                            assert(s.steps(j + 1) matches Ok(w) && w.running());
                        }
                        assert(u.leaves_after(k1, t));
                    }
                }
            },
        }
    }
}

/// A DCPU-16: memory, the eight general registers and PC, SP, EX and IA.
pub struct Cpu {
    pub memory: Memory,
    /// A, B, C, X, Y, Z, I, J.
    pub registers: [u16; 8],
    /// Program counter.
    pub pc: u16,
    /// Stack pointer.
    pub sp: u16,
    /// Extra: overflow, carry and remainder.
    pub ex: u16,
    /// Interrupt address.
    pub ia: u16,
}

impl View for Cpu {
    type V = CpuState;

    open spec fn view(&self) -> CpuState {
        CpuState {
            registers: self.registers@,
            pc: self.pc,
            sp: self.sp,
            ex: self.ex,
            ia: self.ia,
            memory: self.memory@,
        }
    }
}

impl Default for Cpu {
    fn default() -> (r: Cpu)
        ensures
            r@ == CpuState::initial(),
    {
        Cpu::new()
    }
}

impl Cpu {
    /// A processor with all registers and memory zero and no program loaded.
    pub fn new() -> (r: Cpu)
        ensures
            r@ == CpuState::initial(),
    {
        let cpu = Cpu { memory: Memory::new(), registers: [0u16; 8], pc: 0, sp: 0, ex: 0, ia: 0 };
        assert(cpu.registers@ =~= Seq::new(8, |i: int| 0u16));
        cpu
    }

    /// Appends `words` to the loaded program; fails, changing nothing, when they do
    /// not fit in memory.
    pub fn load_program(&mut self, words: &[u16]) -> (r: Result<(), CpuError>)
        ensures
            old(self)@.memory.fits(words@.len()) ==> r is Ok && final(self)@ == (CpuState {
                memory: old(self)@.memory.load(words@),
                ..old(self)@
            }),
            !old(self)@.memory.fits(words@.len()) ==> r == Err::<(), CpuError>(
                CpuError::ProgramTooLarge,
            ) && final(self)@ == old(self)@,
    {
        self.memory.load(words)
    }

    /// Register A.
    pub fn a(&self) -> (r: u16)
        ensures
            r == self@.registers[0],
    {
        self.registers[0]
    }

    /// Register B.
    pub fn b(&self) -> (r: u16)
        ensures
            r == self@.registers[1],
    {
        self.registers[1]
    }

    /// Register C.
    pub fn c(&self) -> (r: u16)
        ensures
            r == self@.registers[2],
    {
        self.registers[2]
    }

    /// Register X.
    pub fn x(&self) -> (r: u16)
        ensures
            r == self@.registers[3],
    {
        self.registers[3]
    }

    /// Register Y.
    pub fn y(&self) -> (r: u16)
        ensures
            r == self@.registers[4],
    {
        self.registers[4]
    }

    /// Register Z.
    pub fn z(&self) -> (r: u16)
        ensures
            r == self@.registers[5],
    {
        self.registers[5]
    }

    /// Register I.
    pub fn i(&self) -> (r: u16)
        ensures
            r == self@.registers[6],
    {
        self.registers[6]
    }

    /// Register J.
    pub fn j(&self) -> (r: u16)
        ensures
            r == self@.registers[7],
    {
        self.registers[7]
    }

    fn read_word(&mut self) -> (r: u16)
        ensures
            (final(self)@, r) == old(self)@.next_word(),
    {
        let res = self.memory.get(self.pc as usize);
        self.pc = wrap_add(self.pc, 1);
        res
    }

    fn push(&mut self, word: u16)
        ensures
            final(self)@ == old(self)@.push(word),
    {
        self.sp = wrap_sub(self.sp, 1);
        self.memory.set(self.sp as usize, word);
    }

    fn pop(&mut self) -> (r: u16)
        ensures
            (final(self)@, r) == old(self)@.pop(),
    {
        let res = self.memory.get(self.sp as usize);
        self.sp = wrap_add(self.sp, 1);
        res
    }

    /// Resolves operand field `n`, taking its next word or moving SP as it says.
    fn locate(&mut self, n: u8, is_a: bool) -> (r: Location)
        ensures
            (final(self)@, r) == old(self)@.locate(n, is_a),
            location_valid(r),
    {
        if n < 0x08 {
            Location::Register(n)
        } else if n < 0x10 {
            Location::Memory(self.registers[(n - 0x08) as usize])
        } else if n < 0x18 {
            let base = self.registers[(n - 0x10) as usize];
            let w = self.read_word();
            Location::Memory(wrap_add(base, w))
        } else if n == 0x18 {
            if is_a {
                let top = self.sp;
                self.sp = wrap_add(self.sp, 1);
                Location::Memory(top)
            } else {
                self.sp = wrap_sub(self.sp, 1);
                Location::Memory(self.sp)
            }
        } else if n == 0x19 {
            Location::Memory(self.sp)
        } else if n == 0x1a {
            let sp = self.sp;
            let w = self.read_word();
            Location::Memory(wrap_add(sp, w))
        } else if n == 0x1b {
            Location::StackPointer
        } else if n == 0x1c {
            Location::ProgramCounter
        } else if n == 0x1d {
            Location::Extra
        } else if n == 0x1e {
            let w = self.read_word();
            Location::Memory(w)
        } else if n == 0x1f {
            let w = self.read_word();
            Location::Literal(w)
        } else {
            Location::Literal(wrap_sub(n as u16, 0x21))
        }
    }

    /// The value at a location.
    fn get_value(&self, loc: Location) -> (r: u16)
        requires
            location_valid(loc),
        ensures
            r == self@.load(loc),
    {
        match loc {
            Location::Register(r) => self.registers[r as usize],
            Location::Memory(addr) => self.memory.get(addr as usize),
            Location::StackPointer => self.sp,
            Location::ProgramCounter => self.pc,
            Location::Extra => self.ex,
            Location::Literal(v) => v,
        }
    }

    /// Whether operand field `n` takes the word after the instruction.
    fn takes_next_word(n: u8) -> (r: bool)
        ensures
            r == takes_next_word(n),
    {
        (0x10 <= n && n < 0x18) || n == 0x1a || n == 0x1e || n == 0x1f
    }

    /// What a failed conditional does: moves PC past the next instruction, and past
    /// each further one while the skipped one was a conditional.
    fn skip(&mut self)
        ensures
            final(self)@ == old(self)@.skip(),
    {
        let ghost target = old(self)@.skip();
        let mut fuel: u32 = SKIP_CHAIN_LIMIT;
        loop
            invariant_except_break
                self@.skip_chain(fuel as nat) == target,
            ensures
                self@ == target,
            decreases fuel,
        {
            let w = self.memory.get(self.pc as usize);
            let instruction = Instruction(w);
            let a_words: u16 = if Cpu::takes_next_word(instruction.a()) { 1 } else { 0 };
            let b_words: u16 = if !instruction.is_special() && Cpu::takes_next_word(instruction.b()) {
                1
            } else {
                0
            };
            let op = instruction.opcode();
            self.pc = wrap_add(self.pc, 1 + a_words + b_words);
            let conditional = match op {
                Opcode::IFB(..) | Opcode::IFC(..) | Opcode::IFE(..) | Opcode::IFN(..)
                | Opcode::IFG(..) | Opcode::IFA(..) | Opcode::IFL(..) | Opcode::IFU(..) => true,
                _ => false,
            };
            if !conditional || fuel == 0 {
                break ;
            }
            fuel = fuel - 1;
        }
    }

    /// Whether a conditional holds for the operand values `b` and `a`.
    fn condition_holds(op: Opcode, b: u16, a: u16) -> (r: bool)
        ensures
            r == condition_holds(op, b, a),
    {
        match op {
            Opcode::IFB(..) => b & a != 0,
            Opcode::IFC(..) => b & a == 0,
            Opcode::IFE(..) => b == a,
            Opcode::IFN(..) => b != a,
            Opcode::IFG(..) => b > a,
            Opcode::IFA(..) => (b as i32 - if b < 0x8000 { 0 } else { 0x10000 }) > (a as i32
                - if a < 0x8000 { 0 } else { 0x10000 }),
            Opcode::IFL(..) => b < a,
            Opcode::IFU(..) => (b as i32 - if b < 0x8000 { 0 } else { 0x10000 }) < (a as i32
                - if a < 0x8000 { 0 } else { 0x10000 }),
            _ => true,
        }
    }

    /// Executes a two-operand instruction whose word has been fetched.
    fn execute_basic(&mut self, op: Opcode, a: u8, b: u8)
        requires
            is_basic(op),
            a == operand_a(op),
            b == operand_b(op),
        ensures
            final(self)@ == old(self)@.basic_step(op),
    {
        let la = self.locate(a, true);
        let va = self.get_value(la);
        let lb = self.locate(b, false);
        let vb = self.get_value(lb);
        match op {
            Opcode::SET(..) => self.set_value(lb, va),
            Opcode::ADD(..) => {
                let (r, e) = alu::add(vb, va);
                self.set_value(lb, r);
                self.ex = e;
            },
            Opcode::SUB(..) => {
                let (r, e) = alu::sub(vb, va);
                self.set_value(lb, r);
                self.ex = e;
            },
            Opcode::MUL(..) => {
                let (r, e) = alu::mul(vb, va);
                self.set_value(lb, r);
                self.ex = e;
            },
            Opcode::MLI(..) => {
                let (r, e) = alu::mli(vb, va);
                self.set_value(lb, r);
                self.ex = e;
            },
            Opcode::DIV(..) => {
                let (r, e) = alu::div(vb, va);
                self.set_value(lb, r);
                self.ex = e;
            },
            Opcode::DVI(..) => {
                let (r, e) = alu::dvi(vb, va);
                self.set_value(lb, r);
                self.ex = e;
            },
            Opcode::MOD(..) => self.set_value(lb, alu::rem(vb, va)),
            Opcode::MDI(..) => self.set_value(lb, alu::mdi(vb, va)),
            Opcode::AND(..) => self.set_value(lb, vb & va),
            Opcode::BOR(..) => self.set_value(lb, vb | va),
            Opcode::XOR(..) => self.set_value(lb, vb ^ va),
            Opcode::SHR(..) => {
                let (r, e) = alu::shr(vb, va);
                self.set_value(lb, r);
                self.ex = e;
            },
            Opcode::ASR(..) => {
                let (r, e) = alu::asr(vb, va);
                self.set_value(lb, r);
                self.ex = e;
            },
            Opcode::SHL(..) => {
                let (r, e) = alu::shl(vb, va);
                self.set_value(lb, r);
                self.ex = e;
            },
            Opcode::ADX(..) => {
                let (r, e) = alu::adx(vb, va, self.ex);
                self.set_value(lb, r);
                self.ex = e;
            },
            Opcode::SBX(..) => {
                let (r, e) = alu::sbx(vb, va, self.ex);
                self.set_value(lb, r);
                self.ex = e;
            },
            Opcode::STI(..) => {
                self.set_value(lb, va);
                self.registers[REG_I] = wrap_add(self.registers[REG_I], 1);
                self.registers[REG_J] = wrap_add(self.registers[REG_J], 1);
            },
            Opcode::STD(..) => {
                self.set_value(lb, va);
                self.registers[REG_I] = wrap_sub(self.registers[REG_I], 1);
                self.registers[REG_J] = wrap_sub(self.registers[REG_J], 1);
            },
            _ => {
                if !Cpu::condition_holds(op, vb, va) {
                    self.skip();
                }
            },
        }
        assert(self@.registers =~= old(self)@.basic_step(op).registers);
    }

    /// Executes a one-operand instruction whose word has been fetched.
    fn execute_special(&mut self, op: Opcode, a: u8)
        requires
            !is_basic(op),
            !(op is NULL),
            a == operand_a(op),
        ensures
            final(self)@ == old(self)@.special_step(op),
    {
        let la = self.locate(a, true);
        let va = self.get_value(la);
        match op {
            Opcode::JSR(..) => {
                let pc = self.pc;
                self.push(pc);
                self.pc = va;
            },
            Opcode::INT(..) => {
                if self.ia != 0 {
                    let pc = self.pc;
                    self.push(pc);
                    let reg_a = self.registers[REG_A];
                    self.push(reg_a);
                    self.pc = self.ia;
                    self.registers[REG_A] = va;
                }
            },
            Opcode::IAG(..) => {
                let ia = self.ia;
                self.set_value(la, ia);
            },
            Opcode::IAS(..) => {
                self.ia = va;
            },
            Opcode::RFI(..) => {
                let reg_a = self.pop();
                let pc = self.pop();
                self.registers[REG_A] = reg_a;
                self.pc = pc;
            },
            _ => {},
        }
        assert(self@.registers =~= old(self)@.special_step(op).registers);
    }

    /// Executes the instruction at PC. A word that decodes to no instruction gives
    /// `InvalidInstruction` and leaves the processor as it was.
    pub fn run_step(&mut self) -> (r: Result<(), CpuError>)
        ensures
            match old(self)@.step() {
                Ok(t) => r is Ok && final(self)@ == t,
                Err(e) => r == Err::<(), CpuError>(e) && final(self)@ == old(self)@,
            },
    {
        let pc = self.pc;
        let word = self.memory.get(pc as usize);
        let instruction = Instruction(word);
        let op = instruction.opcode();
        let a = instruction.a();
        let b = instruction.b();
        proof {
            lemma_encode_decode(word);
        }
        match op {
            Opcode::NULL => {
                return Err(CpuError::InvalidInstruction { word, pc });
            },
            _ => {},
        }
        self.pc = wrap_add(pc, 1);
        match op {
            Opcode::JSR(..) | Opcode::INT(..) | Opcode::IAG(..) | Opcode::IAS(..) | Opcode::RFI(..)
            | Opcode::IAQ(..) | Opcode::HWN(..) | Opcode::HWQ(..) | Opcode::HWI(..) => {
                self.execute_special(op, a);
            },
            _ => {
                self.execute_basic(op, a, b);
            },
        }
        Ok(())
    }

    /// Executes instructions while PC lies inside the loaded program. Stops with the
    /// error of a step that fails, or with `StepLimitReached` after `STEP_LIMIT`
    /// steps.
    pub fn run(&mut self) -> (r: Result<(), CpuError>)
        ensures
            match old(self)@.run(STEP_LIMIT as nat) {
                Ok(t) => r is Ok && final(self)@ == t,
                Err(e) => r == Err::<(), CpuError>(e),
            },
    {
        self.run_for(STEP_LIMIT)
    }

    /// Executes instructions while PC lies inside the loaded program, at most
    /// `max_steps` of them. Stops with the error of a step that fails, or with
    /// `StepLimitReached` when PC is still inside after `max_steps` steps.
    pub fn run_for(&mut self, max_steps: u64) -> (r: Result<(), CpuError>)
        ensures
            match old(self)@.run(max_steps as nat) {
                Ok(t) => r is Ok && final(self)@ == t,
                Err(e) => r == Err::<(), CpuError>(e),
            },
    {
        let mut fuel: u64 = max_steps;
        while self.memory.is_readable(self.pc as usize)
            invariant
                self@.run(fuel as nat) == old(self)@.run(max_steps as nat),
            decreases fuel,
        {
            if fuel == 0 {
                return Err(CpuError::StepLimitReached);
            }
            match self.run_step() {
                Ok(()) => {},
                Err(e) => {
                    return Err(e);
                },
            }
            fuel = fuel - 1;
        }
        Ok(())
    }

    /// Writes `value` to a location; a literal drops it.
    fn set_value(&mut self, loc: Location, value: u16)
        requires
            location_valid(loc),
        ensures
            final(self)@ == old(self)@.store(loc, value),
    {
        match loc {
            Location::Register(r) => {
                self.registers[r as usize] = value;
                assert(self.registers@ =~= old(self)@.registers.update(r as int, value));
            },
            Location::Memory(addr) => self.memory.set(addr as usize, value),
            Location::StackPointer => self.sp = value,
            Location::ProgramCounter => self.pc = value,
            Location::Extra => self.ex = value,
            Location::Literal(_) => {},
        }
    }
}

} // verus!
