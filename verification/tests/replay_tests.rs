use rauk::breakpoints::{Breakpoint, EntryBreakpoint, OtherBreakpoint};
use rauk::dwarf::{ObjectLocationMap, Subprogram, Subroutine};
use rauk::ktest::{KTest, KTestObject};
use rauk::objdump::{parse_objdump_output, Objdump, ObjdumpError};
use rauk::replay::{
    breakpoint_immediate, get_output_reg_from_breakpoint_addr, handle_breakpoint,
    is_replay_start, is_software_breakpoint, parse_reg_from_load_instruction, plan_replay_writes,
    record_sample, vcell_register_value, LoopAction, MeasurementError,
};

#[test]
fn objdump_lines_are_parsed_into_the_index() {
    let output = "\nbinary: file format elf32\n\n80001f4: push {r7, lr}\n 80001f6:\tldr r3, [pc, #0x10]\nnot an address\n".to_string();
    let dump = parse_objdump_output(&output).unwrap();
    assert_eq!(
        dump.get_instruction(&0x80001f4),
        Some("push {r7, lr}".to_string())
    );
    assert_eq!(
        dump.get_instruction(&0x80001f6),
        Some("ldr r3, [pc, #0x10]".to_string())
    );
    assert_eq!(dump.get_instruction(&0x1234), None);
}

#[test]
fn bad_address_lines_are_an_error() {
    let output = "8000zzz: nop\n".to_string();
    assert_eq!(parse_objdump_output(&output), Err(ObjdumpError::BadAddress));
}

#[test]
fn load_register_parsing_reads_the_destination() {
    assert_eq!(
        parse_reg_from_load_instruction(&"ldr r3, [pc, #0x10]".to_string()),
        Some(3)
    );
    assert_eq!(
        parse_reg_from_load_instruction(&"ldrb r0, [r1]".to_string()),
        Some(0)
    );
    assert_eq!(
        parse_reg_from_load_instruction(&"ldr r8, [r1]".to_string()),
        None
    );
    assert_eq!(
        parse_reg_from_load_instruction(&"mov r0, r1".to_string()),
        None
    );
}

#[test]
fn output_register_comes_from_the_preceding_load() {
    let output = "80001f6: ldr r5, [pc, #0x10]\n".to_string();
    let dump = parse_objdump_output(&output).unwrap();
    assert_eq!(
        get_output_reg_from_breakpoint_addr(&dump, true, 0x80001f8),
        Ok(5)
    );
    // Debug builds always use register zero.
    assert_eq!(get_output_reg_from_breakpoint_addr(&dump, false, 0x1234), Ok(0));
    assert_eq!(
        get_output_reg_from_breakpoint_addr(&dump, true, 0x9999),
        Err(MeasurementError::NoInstruction)
    );
}

#[test]
fn vcell_values_decode_little_endian() {
    let four = KTestObject {
        name: "vcell_read".to_string(),
        num_bytes: 4,
        bytes: vec![0x78, 0x56, 0x34, 0x12],
    };
    assert_eq!(vcell_register_value(&four), Some(0x12345678));
    let short = KTestObject {
        name: "vcell_read".to_string(),
        num_bytes: 2,
        bytes: vec![1, 2],
    };
    assert_eq!(vcell_register_value(&short), None);
}

#[test]
fn breakpoint_opcode_decisions() {
    assert!(is_software_breakpoint(0x02, 0b1011_1110));
    assert!(!is_software_breakpoint(0x02, 0b1011_1111));
    assert_eq!(breakpoint_immediate(0x03, 0b1011_1110), Some(3));
    assert_eq!(breakpoint_immediate(0x03, 0x00), None);
    assert!(is_replay_start(255));
    assert!(!is_replay_start(254));
}

#[test]
fn halts_refine_names_and_finish_on_replay_start() {
    let subprograms = vec![Subprogram {
        name: "task_one".to_string(),
        linkage_name: String::new(),
        low_pc: 0x8000_0000,
        high_pc: 0x8000_0100,
    }];
    let resource_locks: Vec<Subroutine> = Vec::new();
    let vcells: Vec<Subroutine> = Vec::new();

    let mut measurements = Vec::new();
    record_sample(
        &mut measurements,
        Breakpoint::Entry(EntryBreakpoint::HardwareTaskStart),
        17,
    );
    assert_eq!(measurements[0].1, "<unknown>");
    assert_eq!(measurements[0].2, 17);

    let action = handle_breakpoint(
        &Breakpoint::Other(OtherBreakpoint::InsideTask),
        0x8000_0010,
        &mut measurements,
        &subprograms,
        &resource_locks,
        &vcells,
        true,
    );
    assert_eq!(action, Ok(LoopAction::Continue));
    assert_eq!(measurements[0].1, "task_one");

    let action = handle_breakpoint(
        &Breakpoint::Other(OtherBreakpoint::ReplayStart),
        1,
        &mut measurements,
        &subprograms,
        &resource_locks,
        &vcells,
        true,
    );
    assert_eq!(action, Ok(LoopAction::Break));
}

#[test]
fn hardware_reads_plant_a_breakpoint_past_the_accessor() {
    let subprograms: Vec<Subprogram> = Vec::new();
    let resource_locks: Vec<Subroutine> = Vec::new();
    let vcells = vec![Subroutine {
        name: "vcell::VolatileCell<u32>::get".to_string(),
        ranges: vec![(0x8000_0020, 0x8000_0030)],
    }];
    let mut measurements = Vec::new();
    let action = handle_breakpoint(
        &Breakpoint::Other(OtherBreakpoint::InsideHardwareRead),
        0x8000_0025,
        &mut measurements,
        &subprograms,
        &resource_locks,
        &vcells,
        true,
    );
    // In release mode the breakpoint lands two bytes past the accessor,
    // stepping over its final load.
    assert_eq!(action, Ok(LoopAction::SetHwBreakpoint(0x8000_0032)));

    let action = handle_breakpoint(
        &Breakpoint::Other(OtherBreakpoint::InsideHardwareRead),
        0x8000_0025,
        &mut measurements,
        &subprograms,
        &resource_locks,
        &vcells,
        false,
    );
    assert_eq!(action, Ok(LoopAction::SetHwBreakpoint(0x8000_0030)));
}

#[test]
fn replay_writes_are_planned_and_missing_names_reported() {
    let mut locations = ObjectLocationMap::new();
    locations.insert("input_0".to_string(), Some(0x2000_0000));
    let ktest = KTest {
        version: 3,
        args: vec![],
        sym_argvs: 0,
        sym_argv_len: 0,
        num_objects: 2,
        objects: vec![
            KTestObject {
                name: "input_0".to_string(),
                num_bytes: 2,
                bytes: vec![7, 8],
            },
            KTestObject {
                name: "unmapped".to_string(),
                num_bytes: 1,
                bytes: vec![9],
            },
        ],
    };
    let (writes, skipped) = plan_replay_writes(&locations, &ktest);
    assert_eq!(writes.len(), 1);
    assert_eq!(writes[0].address, 0x2000_0000);
    assert_eq!(writes[0].bytes, vec![7, 8]);
    assert_eq!(skipped, vec!["unmapped".to_string()]);
}
