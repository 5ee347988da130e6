use plate_machine::error::MachineError;
use plate_machine::machine::Machine;
use plate_machine::plate::Plate;
use plate_machine::semantics::{Effect, RunOutcome};

fn plates(words: &[u32]) -> Vec<Plate> {
    let mut v = Vec::new();
    for &w in words {
        v.push(Plate::from(w));
    }
    v
}

fn run_machine(words: &[u32], input: &[u8]) -> (Machine, RunOutcome, Vec<u8>) {
    let mut bytes: Vec<u8> = Vec::new();
    for &b in input {
        bytes.push(b);
    }
    let mut machine = Machine::new(plates(words));
    let (outcome, output) = machine.run(&bytes, 10_000);
    (machine, outcome, output)
}

#[test]
fn machine_halt() {
    let halt_program = vec![Plate::from(0x70000000)];
    let mut machine = Machine::new(halt_program);
    let (outcome, output) = machine.run(&Vec::new(), 10_000);
    assert_eq!(machine.pc(), 0);
    assert_eq!(outcome, RunOutcome::Halted);
    assert!(output.is_empty());
}

#[test]
fn scenario_prints_h_and_newline() {
    // reg0 := 72; reg1 := 10; emit reg0; emit reg1; halt
    let (_, outcome, output) = run_machine(
        &[0xD0000048, 0xD200000A, 0xA0000000, 0xA0000001, 0x70000000],
        &[],
    );
    assert_eq!(outcome, RunOutcome::Halted);
    assert_eq!(output, vec![72u8, 10u8]);
}

#[test]
fn scenario_allocate_write_read_back() {
    // reg3 := 4; allocate size reg3, handle into reg1;
    // reg2 := 2; reg4 := 99; mem[reg1][reg2] := reg4; reg5 := mem[reg1][reg2]; halt
    let (machine, outcome, _) = run_machine(
        &[
            0xD6000004, 0x8000000B, 0xD4000002, 0xD8000063, 0x20000054, 0x1000014A, 0x70000000,
        ],
        &[],
    );
    assert_eq!(outcome, RunOutcome::Halted);
    assert_eq!(machine.reg_get(1).unwrap(), 1);
    assert_eq!(machine.reg_get(5).unwrap(), 99);
}

#[test]
fn scenario_fresh_segment_is_zeroed() {
    // reg3 := 4; allocate; read cell 0 of the new segment into reg5; halt
    let (machine, outcome, _) = run_machine(
        &[0xD6000004, 0x8000000B, 0x1000014A, 0x70000000],
        &[],
    );
    assert_eq!(outcome, RunOutcome::Halted);
    assert_eq!(machine.reg_get(5).unwrap(), 0);
}

#[test]
fn scenario_abandon_then_allocate_reuses_handle_zeroed() {
    // reg3 := 4; allocate (handle 1 in reg1); reg2 := 2; reg4 := 99;
    // mem[reg1][reg2] := reg4; abandon reg1; allocate again into reg6;
    // then read back cell 2 of the reused segment into reg6
    let (machine, outcome, _) = run_machine(
        &[
            0xD6000004, // reg3 := 4
            0x8000000B, // alloc: reg1 := handle (1)
            0xD4000002, // reg2 := 2
            0xD8000063, // reg4 := 99
            0x20000054, // mem[reg1][reg2] := reg4
            0x90000001, // abandon reg1
            0x80000033, // alloc: reg6 := handle, size reg3
            0x100001B2, // reg6 := mem[reg6][reg2]
            0x70000000,
        ],
        &[],
    );
    assert_eq!(outcome, RunOutcome::Halted);
    // the reused cell must be freshly zeroed, not 99
    assert_eq!(machine.reg_get(6).unwrap(), 0);
}

#[test]
fn scenario_input_exhausted_sets_sentinel() {
    let (machine, outcome, _) = run_machine(&[0xB0000000, 0x70000000], &[]);
    assert_eq!(outcome, RunOutcome::Halted);
    assert_eq!(machine.reg_get(0).unwrap(), 0xFFFFFFFF);
}

#[test]
fn scenario_input_reads_bytes_in_order() {
    // read two bytes into reg0 and reg1
    let (machine, outcome, _) = run_machine(&[0xB0000000, 0xB0000001, 0x70000000], &[65, 66]);
    assert_eq!(outcome, RunOutcome::Halted);
    assert_eq!(machine.reg_get(0).unwrap(), 65);
    assert_eq!(machine.reg_get(1).unwrap(), 66);
}

#[test]
fn conditional_move_taken_and_not_taken() {
    // reg1 := 7; reg2 := 1; if reg2 != 0 then reg0 := reg1
    let (machine, outcome, _) = run_machine(&[0xD2000007, 0xD4000001, 0x0000000A, 0x70000000], &[]);
    assert_eq!(outcome, RunOutcome::Halted);
    assert_eq!(machine.reg_get(0).unwrap(), 7);
    // reg2 stays 0: the move must not happen
    let (machine, outcome, _) = run_machine(&[0xD2000007, 0x0000000A, 0x70000000], &[]);
    assert_eq!(outcome, RunOutcome::Halted);
    assert_eq!(machine.reg_get(0).unwrap(), 0);
}

#[test]
fn addition_wraps_in_the_machine() {
    // reg0 := 3; reg1 := 4; reg2 := reg0 + reg1
    let (machine, outcome, _) = run_machine(&[0xD0000003, 0xD2000004, 0x30000081, 0x70000000], &[]);
    assert_eq!(outcome, RunOutcome::Halted);
    assert_eq!(machine.reg_get(2).unwrap(), 7);
}

#[test]
fn output_truncates_to_low_byte() {
    // reg0 := 0x1FF; emit reg0
    let (_, outcome, output) = run_machine(&[0xD00001FF, 0xA0000000, 0x70000000], &[]);
    assert_eq!(outcome, RunOutcome::Halted);
    assert_eq!(output, vec![0xFFu8]);
}

#[test]
fn load_program_jumps_without_increment() {
    // reg1 := 3; pc := reg1 (no segment swap since reg0 == 0)
    let (machine, outcome, _) = run_machine(&[0xD2000003, 0xC0000001, 0x70000000, 0x70000000], &[]);
    assert_eq!(outcome, RunOutcome::Halted);
    assert_eq!(machine.pc(), 3);
}

#[test]
fn load_program_swaps_segment_zero() {
    // Build the halt word 0x70000000 = 0x700000 * 0x100 in reg2, allocate a
    // one-cell segment, store the halt word in it, and swap it in as the
    // program with pc := 0.
    let (machine, outcome, _) = run_machine(
        &[
            0xD0700000, // reg0 := 0x700000
            0xD2000100, // reg1 := 0x100
            0x40000081, // reg2 := reg0 * reg1 == 0x70000000
            0xD6000001, // reg3 := 1
            0x80000023, // alloc: reg4 := handle, size reg3
            0x2000012A, // mem[reg4][reg5 == 0] := reg2
            0xC0000025, // load program: segment reg4, pc := reg5 == 0
        ],
        &[],
    );
    assert_eq!(outcome, RunOutcome::Halted);
    assert_eq!(machine.pc(), 0);
}

#[test]
fn fault_pc_runs_past_program() {
    let (machine, outcome, _) = run_machine(&[0xD0000048], &[]);
    assert_eq!(outcome, RunOutcome::Failed(MachineError::OutOfBounds { addr: 1 }));
    assert_eq!(machine.pc(), 1);
}

#[test]
fn fault_illegal_instruction() {
    let (_, outcome, _) = run_machine(&[0xE0000012], &[]);
    assert_eq!(
        outcome,
        RunOutcome::Failed(MachineError::Decode { word: 0xE0000012, pc: 0 })
    );
}

#[test]
fn fault_divide_by_zero() {
    // reg1 == 0; reg2 := reg0 / reg1
    let (_, outcome, _) = run_machine(&[0x50000081], &[]);
    assert_eq!(outcome, RunOutcome::Failed(MachineError::DivideByZero));
}

#[test]
fn fault_unallocated_segment() {
    // reg1 := 5; reg0 := mem[reg1][reg2]
    let (_, outcome, _) = run_machine(&[0xD2000005, 0x1000000A], &[]);
    assert_eq!(outcome, RunOutcome::Failed(MachineError::OutOfBounds { addr: 5 }));
}

#[test]
fn fault_cell_out_of_bounds() {
    // reg2 := 99; reg0 := mem[reg1=0][reg2=99], beyond segment 0's length
    let (_, outcome, _) = run_machine(&[0xD4000063, 0x1000000A], &[]);
    assert_eq!(outcome, RunOutcome::Failed(MachineError::OutOfBounds { addr: 99 }));
}

#[test]
fn fault_abandon_segment_zero() {
    // reg1 == 0: abandoning the program segment is a fault
    let (_, outcome, _) = run_machine(&[0x90000001], &[]);
    assert_eq!(outcome, RunOutcome::Failed(MachineError::OutOfBounds { addr: 0 }));
}

#[test]
fn spin_runs_out_of_fuel() {
    // pc := reg0 == 0 forever
    let mut machine = Machine::new(plates(&[0xC0000000]));
    let (outcome, output) = machine.run(&Vec::new(), 10);
    assert_eq!(outcome, RunOutcome::OutOfFuel);
    assert!(output.is_empty());
}

#[test]
fn step_reports_effects() {
    let mut machine = Machine::new(plates(&[0xD0000048, 0xA0000000, 0x70000000]));
    assert!(!machine.needs_input());
    assert_eq!(machine.step(None), Ok(Effect::Continue));
    assert_eq!(machine.pc(), 1);
    assert_eq!(machine.step(None), Ok(Effect::Output(72)));
    assert_eq!(machine.step(None), Ok(Effect::Halted));
    assert_eq!(machine.pc(), 2);
}

#[test]
fn needs_input_flags_input_instruction() {
    let machine = Machine::new(plates(&[0xB0000000]));
    assert!(machine.needs_input());
    let mut machine = Machine::new(plates(&[0xB0000002, 0x70000000]));
    assert_eq!(machine.step(Some(9)), Ok(Effect::Continue));
    assert_eq!(machine.reg_get(2).unwrap(), 9);
}
