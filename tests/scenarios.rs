use dcpu::cpu::Cpu;
use dcpu::error::CpuError;
use dcpu::memory::Memory;
use dcpu::parser::assemble;

fn run_words(words: &[u16]) -> Cpu {
    let mut cpu = Cpu::new();
    cpu.load_program(words).unwrap();
    cpu.run().unwrap();
    cpu
}

fn run_source(source: &str) -> Cpu {
    run_words(&assemble(source).unwrap())
}

#[test]
fn scenario_set_short_literal() {
    assert_eq!(assemble("SET A, 30"), Ok(vec![0xfc01]));
    let cpu = run_source("SET A, 30");
    assert_eq!(cpu.a(), 30);
    assert_eq!(cpu.pc, 1);
}

#[test]
fn scenario_set_long_literal() {
    let cpu = run_words(&[0x7c01, 0x001e]);
    assert_eq!(cpu.a(), 30);
    assert_eq!(cpu.pc, 2);
}

#[test]
fn scenario_add_overflow() {
    assert_eq!(assemble("SET A, 0xFFFF\n ADD A, 2"), Ok(vec![0x7c01, 0xffff, 0x8c02]));
    let cpu = run_source("SET A, 0xFFFF\n ADD A, 2");
    assert_eq!(cpu.a(), 1);
    assert_eq!(cpu.ex, 1);
    assert_eq!(cpu.pc, 3);
}

#[test]
fn scenario_sub_underflow() {
    let cpu = run_source("SET A, 2\n SUB A, 4");
    assert_eq!(cpu.a(), 0xfffe);
    assert_eq!(cpu.ex, 0xffff);
    assert_eq!(cpu.pc, 2);
}

#[test]
fn scenario_push_pop_peek() {
    let cpu = run_words(&[0x8f01, 0x7f01, 0x0023, 0x8b01, 0x6001, 0x6002, 0x6421]);
    assert_eq!(cpu.a(), 36);
    assert_eq!(cpu.b(), 2);
    assert_eq!(cpu.sp, 0xffff);
    assert_eq!(cpu.pc, 7);
}

#[test]
fn scenario_interrupt() {
    let cpu = run_words(&[0x9401, 0x7d40, 0x0006, 0x7d00, 0x0008, 0x9021, 0xa041]);
    assert_eq!(cpu.a(), 8);
    assert_eq!(cpu.b(), 0);
    assert_eq!(cpu.c(), 7);
    assert_eq!(cpu.pc, 7);
    assert_eq!(cpu.sp, 0xfffe);
    assert_eq!(cpu.ia, 6);
}

#[test]
fn scenario_signed_division() {
    let cpu = run_words(&[0x9801, 0x7c07, 0xfffe]);
    assert_eq!(cpu.a(), 0xfffe);
    assert_eq!(cpu.ex, 0x8000);
    assert_eq!(cpu.pc, 3);
}

#[test]
fn loaded_prefix_marks_readable_addresses() {
    let mut cpu = Cpu::new();
    assert!(!cpu.memory.is_readable(0));
    cpu.load_program(&[7, 8, 9]).unwrap();
    assert!(cpu.memory.is_readable(0));
    assert!(cpu.memory.is_readable(2));
    assert!(!cpu.memory.is_readable(3));
    assert_eq!(cpu.memory.get(1), 8);
    cpu.memory.set(10, 5);
    assert!(!cpu.memory.is_readable(10));
    cpu.load_program(&[1]).unwrap();
    assert_eq!(cpu.memory.get(3), 1);
    assert!(cpu.memory.is_readable(3));
    assert!(!cpu.memory.is_readable(4));
}

#[test]
fn program_too_large_is_refused() {
    let mut cpu = Cpu::new();
    let all = vec![0u16; 0x10000];
    assert_eq!(cpu.load_program(&all), Ok(()));
    assert!(cpu.memory.is_readable(0xffff));
    assert_eq!(cpu.load_program(&[1]), Err(CpuError::ProgramTooLarge));
    let mut fresh = Cpu::new();
    let too_many = vec![0u16; 0x10001];
    assert_eq!(fresh.load_program(&too_many), Err(CpuError::ProgramTooLarge));
    assert!(!fresh.memory.is_readable(0));
}

#[test]
fn invalid_instruction_stops_the_run() {
    let mut cpu = Cpu::new();
    cpu.load_program(&[0x8801, 0x0018]).unwrap();
    assert_eq!(cpu.run(), Err(CpuError::InvalidInstruction { word: 0x0018, pc: 1 }));
    assert_eq!(cpu.a(), 1);
    assert_eq!(cpu.pc, 1);
}

#[test]
fn endless_loop_reaches_the_step_limit() {
    // SET PC, 0
    let mut cpu = Cpu::new();
    cpu.load_program(&[0x8781]).unwrap();
    assert_eq!(cpu.run_for(100), Err(CpuError::StepLimitReached));
    assert_eq!(cpu.pc, 0);
}

#[test]
fn run_halts_when_pc_leaves_the_program() {
    let mut cpu = Cpu::new();
    assert_eq!(cpu.run(), Ok(()));
    assert_eq!(cpu.pc, 0);
    // SET PC, 3 jumps over SET A, 1 and leaves the three-word program
    let mut cpu = Cpu::new();
    cpu.load_program(&[0x9381, 0x8801, 0x8801]).unwrap();
    assert_eq!(cpu.run_for(1), Ok(()));
    assert_eq!(cpu.pc, 3);
    assert_eq!(cpu.a(), 0);
}

#[test]
fn run_step_executes_one_instruction() {
    let mut cpu = Cpu::new();
    cpu.load_program(&assemble("SET A, 3\nSET B, 4").unwrap()).unwrap();
    cpu.run_step().unwrap();
    assert_eq!(cpu.a(), 3);
    assert_eq!(cpu.b(), 0);
    assert_eq!(cpu.pc, 1);
}

#[test]
fn division_and_remainder_rebuild_the_dividend() {
    let cpu = run_source("SET A, 7\nSET B, 7\nDIV A, 3\nMOD B, 3");
    assert_eq!(cpu.a(), 2);
    assert_eq!(cpu.b(), 1);
    assert_eq!(cpu.a() * 3 + cpu.b(), 7);
    // -7 / 2 and -7 % 2, truncating toward zero
    let cpu = run_words(&[0x7c01, 0xfff9, 0x7c21, 0xfff9, 0x8c07, 0x8c29]);
    assert_eq!(cpu.a(), 0xfffd);
    assert_eq!(cpu.b(), 0xffff);
    assert_eq!((cpu.a() as i16) * 2 + cpu.b() as i16, -7);
}

#[test]
fn pushes_come_back_in_reverse() {
    // SET PUSH, 1; SET PUSH, 2; SET PUSH, 3; SET A, POP; SET B, POP; SET C, POP
    let cpu = run_words(&[0x8b01, 0x8f01, 0x9301, 0x6001, 0x6021, 0x6041]);
    assert_eq!(cpu.a(), 3);
    assert_eq!(cpu.b(), 2);
    assert_eq!(cpu.c(), 1);
    assert_eq!(cpu.sp, 0);
}

#[test]
fn writes_to_literals_are_dropped() {
    // SET 100, 1: b is a next-word literal
    let cpu = run_words(&[0x8be1, 100]);
    assert_eq!(cpu.pc, 2);
    assert_eq!(cpu.registers, [0; 8]);
    assert_eq!(cpu.sp, 0);
}

#[test]
fn failed_conditional_skips_a_chain() {
    // IFE A, 1; IFE A, 0; SET B, 5; SET C, 7
    let cpu = run_words(&[0x8812, 0x8412, 0x9821, 0xa041]);
    assert_eq!(cpu.b(), 0);
    assert_eq!(cpu.c(), 7);
    assert_eq!(cpu.pc, 4);
}

#[test]
fn failed_conditional_skips_next_words_too() {
    // SET A, 1; IFE A, 2; SET B, 0x1234; SET C, 7
    let cpu = run_words(&[0x8801, 0x8c12, 0x7c21, 0x1234, 0xa041]);
    assert_eq!(cpu.b(), 0);
    assert_eq!(cpu.c(), 7);
    assert_eq!(cpu.pc, 5);
}

#[test]
fn register_indirect_write() {
    let cpu = run_source("SET A, 0x100\nSET B, 5");
    assert_eq!(cpu.a(), 0x100);
    // SET A, 0x100; SET [A], 5
    let cpu = run_words(&[0x7c01, 0x0100, 0x9901]);
    assert_eq!(cpu.memory.get(0x100), 5);
}

#[test]
fn register_plus_next_word_addressing() {
    // SET A, 0x10; SET [A + 2], 9; SET B, [0x12]
    let cpu = run_words(&[0x7c01, 0x0010, 0xaa01, 0x0002, 0x7821, 0x0012]);
    assert_eq!(cpu.memory.get(0x12), 9);
    assert_eq!(cpu.b(), 9);
    assert_eq!(cpu.pc, 6);
}

#[test]
fn wide_shifts() {
    // SET A, 7; SHL A, 40
    let cpu = run_words(&[0xa001, 0x7c0f, 40]);
    assert_eq!(cpu.a(), 0);
    assert_eq!(cpu.ex, 0);
    // SET A, 7; SHR A, 40
    let cpu = run_words(&[0xa001, 0x7c0d, 40]);
    assert_eq!(cpu.a(), 0);
    assert_eq!(cpu.ex, 0);
    // SET A, -16; ASR A, 40
    let cpu = run_words(&[0x7c01, 0xfff0, 0x7c0e, 40]);
    assert_eq!(cpu.a(), 0xffff);
    assert_eq!(cpu.ex, 0xffff);
}

#[test]
fn arithmetic_shift_of_a_negative_word() {
    // SET A, -7; ASR A, 1
    let cpu = run_words(&[0x7c01, 0xfff9, 0x880e]);
    assert_eq!(cpu.a(), 0xfffc);
    assert_eq!(cpu.ex, 0x8000);
}

#[test]
fn division_by_zero_gives_zero() {
    let cpu = run_source("SET A, 5\nDIV A, 0\nSET B, 5\nMOD B, 0\nSET C, 5\nDVI C, 0\nSET X, 5\nMDI X, 0");
    assert_eq!(cpu.a(), 0);
    assert_eq!(cpu.b(), 0);
    assert_eq!(cpu.c(), 0);
    assert_eq!(cpu.x(), 0);
    assert_eq!(cpu.ex, 0);
}

#[test]
fn most_negative_over_minus_one_wraps() {
    // SET A, 0x8000; DVI A, -1
    let cpu = run_words(&[0x7c01, 0x8000, 0x7c07, 0xffff]);
    assert_eq!(cpu.a(), 0x8000);
    assert_eq!(cpu.ex, 0);
}

#[test]
fn carries_through_ex() {
    let cpu = run_source("SET A, 0xffff\nADD A, 1\nADX B, 0");
    assert_eq!(cpu.a(), 0);
    assert_eq!(cpu.b(), 1);
    assert_eq!(cpu.ex, 0);
    let cpu = run_source("SET A, 1\nSUB A, 2\nSBX B, 0");
    assert_eq!(cpu.a(), 0xffff);
    assert_eq!(cpu.b(), 0xffff);
    assert_eq!(cpu.ex, 0);
}

#[test]
fn interrupt_address_round_trip() {
    let cpu = run_source("IAS 6\nIAG B\nINT 3");
    assert_eq!(cpu.ia, 6);
    assert_eq!(cpu.b(), 6);
    assert_eq!(cpu.a(), 3);
    assert_eq!(cpu.pc, 6);
    // INT with IA zero does nothing
    let cpu = run_source("INT 3\nSET Y, 1");
    assert_eq!(cpu.a(), 0);
    assert_eq!(cpu.y(), 1);
    assert_eq!(cpu.sp, 0);
}

#[test]
fn jsr_pushes_the_next_address() {
    // SET A, 1; JSR 3; SET B, 2; SET C, POP
    let cpu = run_words(&[0x8801, 0x9020, 0x8c21, 0x6041]);
    assert_eq!(cpu.b(), 0);
    assert_eq!(cpu.c(), 2);
    assert_eq!(cpu.sp, 0);
    assert_eq!(cpu.pc, 4);
}

#[test]
fn hardware_instructions_do_nothing() {
    let cpu = run_source("SET A, 9\nHWN A\nHWQ A\nHWI A\nIAQ A");
    assert_eq!(cpu.a(), 9);
    assert_eq!(cpu.pc, 5);
    assert_eq!(cpu.z(), 0);
}

#[test]
fn default_is_all_zero() {
    let cpu: Cpu = Default::default();
    assert_eq!(cpu.registers, [0; 8]);
    assert_eq!((cpu.pc, cpu.sp, cpu.ex, cpu.ia), (0, 0, 0, 0));
    assert!(!cpu.memory.is_readable(0));
    assert_eq!(cpu.memory.get(0xffff), 0);
}

#[test]
fn memory_on_its_own() {
    let mut m = Memory::default();
    assert!(!m.is_readable(0));
    assert_eq!(m.load(&[4, 5]), Ok(()));
    assert_eq!(m.load(&[6]), Ok(()));
    assert_eq!((m.get(0), m.get(1), m.get(2)), (4, 5, 6));
    assert!(m.is_readable(2) && !m.is_readable(3));
    m.set(0xffff, 9);
    assert_eq!(m.get(0xffff), 9);
    assert!(!m.is_readable(0xffff));
    let fresh = Memory::new();
    assert_eq!(fresh.get(7), 0);
}
