use syncrim::common::{Fault, Input, OutputType, Ports};
use syncrim::component::{Component, ComponentStore};
use syncrim::components::constant::Constant;
use syncrim::components::mem::{Mem, MemCtrl, Memory};
use syncrim::components::mux::Mux;
use syncrim::components::probe::Probe;
use syncrim::components::probe_out::ProbeOut;
use syncrim::components::reg_file::{RegFile, RegHistory, RegStore};
use syncrim::components::register::Register;
use syncrim::components::sext::Sext;
use syncrim::netlist::{first_repeat_of, layout, position_of, ModelError};
use syncrim::simulator::Simulator;

#[test]
fn memory_reads_zero_where_nothing_was_written() {
    let memory = Memory::new();
    assert_eq!(memory.read(0, 4, false, true), 0);
    assert_eq!(memory.read(1234, 2, true, false), 0);
    assert_eq!(memory.byte(7), 0);
    assert_eq!(Memory::default().read(3, 1, true, true), 0);
}

#[test]
fn memory_word_big_endian() {
    let mut memory = Memory::new();
    memory.write(8, 4, true, 0x1234_5678);
    assert_eq!(memory.byte(8), 0x12);
    assert_eq!(memory.byte(9), 0x34);
    assert_eq!(memory.byte(10), 0x56);
    assert_eq!(memory.byte(11), 0x78);
    assert_eq!(memory.read(8, 4, false, true), 0x1234_5678);
    assert_eq!(memory.read(8, 4, false, false), 0x7856_3412);
    assert_eq!(memory.read(8, 2, false, true), 0x1234);
    assert_eq!(memory.read(10, 2, false, false), 0x7856);
}

#[test]
fn memory_word_little_endian() {
    let mut memory = Memory::new();
    memory.write(8, 4, false, 0x1234_5678);
    assert_eq!(memory.byte(8), 0x78);
    assert_eq!(memory.byte(9), 0x56);
    assert_eq!(memory.byte(10), 0x34);
    assert_eq!(memory.byte(11), 0x12);
    assert_eq!(memory.read(8, 4, false, false), 0x1234_5678);
}

#[test]
fn memory_half_word_round_trip_both_orders() {
    for big_endian in [false, true] {
        let mut memory = Memory::new();
        memory.write(10, 2, big_endian, 0xabcd_1234);
        assert_eq!(memory.read(10, 2, false, big_endian), 0x1234);
        let (first, second) = if big_endian { (0x12, 0x34) } else { (0x34, 0x12) };
        assert_eq!(memory.byte(10), first);
        assert_eq!(memory.byte(11), second);
        assert_eq!(memory.byte(12), 0);
    }
}

#[test]
fn memory_write_masks_to_size() {
    for big_endian in [false, true] {
        let mut memory = Memory::new();
        memory.write(3, 1, big_endian, 0xdead_beef);
        assert_eq!(memory.read(3, 1, false, big_endian), 0xef);
        memory.write(5, 4, big_endian, 0xdead_beef);
        assert_eq!(memory.read(5, 4, false, big_endian), 0xdead_beef);
    }
}

#[test]
fn memory_sign_extension() {
    let mut memory = Memory::new();
    memory.write(0, 1, false, 0x80);
    assert_eq!(memory.read(0, 1, true, false), 0xffff_ff80);
    assert_eq!(memory.read(0, 1, false, false), 0x80);
    memory.write(0, 1, false, 0x7f);
    assert_eq!(memory.read(0, 1, true, false), 0x7f);
    memory.write(4, 2, true, 0x8001);
    assert_eq!(memory.read(4, 2, true, true), 0xffff_8001);
    memory.write(8, 4, true, 0x8000_0001);
    assert_eq!(memory.read(8, 4, true, true), 0x8000_0001);
}

#[test]
fn memory_later_write_wins() {
    let mut memory = Memory::new();
    memory.write(0, 4, true, 0x1111_1111);
    memory.write(1, 2, true, 0xaabb);
    assert_eq!(memory.read(0, 4, false, true), 0x11aa_bb11);
}

#[test]
fn memory_alignment() {
    let memory = Memory::new();
    assert_eq!(memory.align(8, 4), 0);
    assert_eq!(memory.align(5, 4), 1);
    assert_eq!(memory.align(6, 4), 1);
    assert_eq!(memory.align(7, 4), 1);
    assert_eq!(memory.align(9, 2), 1);
    assert_eq!(memory.align(9, 1), 0);
}

#[test]
fn mem_ctrl_codes() {
    assert_eq!(MemCtrl::try_from_signal(0), Some(MemCtrl::Idle));
    assert_eq!(MemCtrl::try_from_signal(1), Some(MemCtrl::Read));
    assert_eq!(MemCtrl::try_from_signal(2), Some(MemCtrl::Write));
    assert_eq!(MemCtrl::try_from_signal(3), None);
    assert_eq!(MemCtrl::try_from_signal(256), None);
    assert_eq!(MemCtrl::Idle.signal(), 0);
    assert_eq!(MemCtrl::Read.signal(), 1);
    assert_eq!(MemCtrl::Write.signal(), 2);
}

fn mem_model(big_endian: bool) -> ComponentStore {
    ComponentStore {
        store: vec![
            Component::ProbeOut(ProbeOut::new("data")),
            Component::ProbeOut(ProbeOut::new("addr")),
            Component::ProbeOut(ProbeOut::new("ctrl")),
            Component::ProbeOut(ProbeOut::new("size")),
            Component::ProbeOut(ProbeOut::new("sign")),
            Component::Mem(Mem {
                id: "mem".to_string(),
                big_endian,
                data: Input::new("data", "out"),
                addr: Input::new("addr", "out"),
                ctrl: Input::new("ctrl", "out"),
                size: Input::new("size", "out"),
                sign: Input::new("sign", "out"),
                memory: Memory::new(),
            }),
        ],
    }
}

#[test]
fn mem_ports_in_order() {
    let store = mem_model(true);
    let (id, ports) = store.store[5].get_id_ports();
    assert_eq!(id, "mem");
    let inputs: Vec<&str> = ports.inputs.iter().map(|i| i.id.as_str()).collect();
    assert_eq!(inputs, vec!["data", "addr", "ctrl", "size", "sign"]);
    assert_eq!(ports.outputs, vec!["data", "err"]);
    assert_eq!(ports.out_type, OutputType::Combinatorial);
}

#[test]
fn mem_illegal_control_code_is_a_fault() {
    let mut clock = 0;
    let mut simulator = Simulator::new(mem_model(true), &mut clock).unwrap();
    simulator.set_out_val("ctrl", "out", 3);
    simulator.set_out_val("size", "out", 4);
    assert_eq!(simulator.cycle_fault(), Some((5, Fault::IllegalMemCtrl)));
}

#[test]
fn mem_illegal_size_is_a_fault_of_an_access() {
    let mut clock = 0;
    let mut simulator = Simulator::new(mem_model(true), &mut clock).unwrap();
    simulator.set_out_val("size", "out", 3);
    assert_eq!(simulator.cycle_fault(), None);
    simulator.set_out_val("ctrl", "out", MemCtrl::Read.signal());
    assert_eq!(simulator.cycle_fault(), Some((5, Fault::IllegalMemSize)));
    simulator.set_out_val("ctrl", "out", MemCtrl::Write.signal());
    assert_eq!(simulator.cycle_fault(), Some((5, Fault::IllegalMemSize)));
}

#[test]
fn mem_publishes_alignment_without_access() {
    let mut clock = 0;
    let mut simulator = Simulator::new(mem_model(false), &mut clock).unwrap();
    let err = &Input::new("mem", "err");
    simulator.set_out_val("addr", "out", 6);
    simulator.set_out_val("size", "out", 4);
    simulator.clock(&mut clock);
    assert_eq!(simulator.get_input_val(err), 1);
    simulator.set_out_val("addr", "out", 8);
    simulator.clock(&mut clock);
    assert_eq!(simulator.get_input_val(err), 0);
}

#[test]
fn step_back_keeps_what_memory_wrote() {
    let mut clock = 0;
    let mut simulator = Simulator::new(mem_model(false), &mut clock).unwrap();
    let out = &Input::new("mem", "data");
    simulator.set_out_val("data", "out", 0x55);
    simulator.set_out_val("addr", "out", 4);
    simulator.set_out_val("size", "out", 1);
    simulator.set_out_val("ctrl", "out", MemCtrl::Write.signal());
    simulator.clock(&mut clock);
    simulator.un_clock(&mut clock);
    assert_eq!(clock, 1);
    simulator.set_out_val("addr", "out", 4);
    simulator.set_out_val("size", "out", 1);
    simulator.set_out_val("ctrl", "out", MemCtrl::Read.signal());
    simulator.clock(&mut clock);
    assert_eq!(simulator.get_input_val(out), 0x55);
}

fn sext_model(in_size: u8, out_size: u8) -> ComponentStore {
    ComponentStore {
        store: vec![
            Component::ProbeOut(ProbeOut::new("in")),
            Component::Sext(Sext::new("sext", Input::new("in", "out"), in_size, out_size)),
        ],
    }
}

fn sext_of(value: u32, in_size: u8, out_size: u8) -> u32 {
    let mut clock = 0;
    let mut simulator = Simulator::new(sext_model(in_size, out_size), &mut clock).unwrap();
    simulator.set_out_val("in", "out", value);
    assert_eq!(simulator.cycle_fault(), None);
    simulator.clock(&mut clock);
    simulator.get_input_val(&Input::new("sext", "out"))
}

#[test]
fn sext_extends_the_sign() {
    assert_eq!(sext_of(0x8000, 16, 32), 0xffff_8000);
    assert_eq!(sext_of(0x7fff, 16, 32), 0x7fff);
    assert_eq!(sext_of(0xff, 8, 16), 0xffff);
    assert_eq!(sext_of(0x1, 1, 4), 0xf);
    assert_eq!(sext_of(0x0, 1, 4), 0x0);
    assert_eq!(sext_of(0x8000_0000, 32, 32), 0x8000_0000);
    assert_eq!(sext_of(0x80, 8, 8), 0x80);
    assert_eq!(sext_of(0x80, 8, 40), 0xffff_ff80);
}

#[test]
fn sext_keeps_the_number() {
    for value in 0u32..256 {
        let extended = sext_of(value, 8, 32);
        assert_eq!(extended as i32, value as u8 as i8 as i32);
    }
}

#[test]
fn sext_input_too_large_is_a_fault() {
    let mut clock = 0;
    let mut simulator = Simulator::new(sext_model(8, 16), &mut clock).unwrap();
    simulator.set_out_val("in", "out", 0xff);
    assert_eq!(simulator.cycle_fault(), None);
    simulator.set_out_val("in", "out", 0x100);
    assert_eq!(simulator.cycle_fault(), Some((1, Fault::SextInputTooLarge)));
}

fn reg_file_model() -> ComponentStore {
    ComponentStore {
        store: vec![
            Component::ProbeOut(ProbeOut::new("read_reg_1")),
            Component::ProbeOut(ProbeOut::new("read_reg_2")),
            Component::ProbeOut(ProbeOut::new("write_data")),
            Component::ProbeOut(ProbeOut::new("write_addr")),
            Component::ProbeOut(ProbeOut::new("write_enable")),
            Component::RegFile(RegFile {
                id: "reg_file".to_string(),
                read_addr1: Input::new("read_reg_1", "out"),
                read_addr2: Input::new("read_reg_2", "out"),
                write_data: Input::new("write_data", "out"),
                write_addr: Input::new("write_addr", "out"),
                write_enable: Input::new("write_enable", "out"),
                registers: RegStore::new(),
                history: RegHistory::new(),
            }),
        ],
    }
}

#[test]
fn reg_file_step_back_takes_the_write_back() {
    let mut clock = 0;
    let mut simulator = Simulator::new(reg_file_model(), &mut clock).unwrap();
    let reg_b = &Input::new("reg_file", "reg_b");
    simulator.set_out_val("read_reg_2", "out", 5);
    simulator.set_out_val("write_data", "out", 77);
    simulator.set_out_val("write_addr", "out", 5);
    simulator.set_out_val("write_enable", "out", 1);
    simulator.clock(&mut clock);
    assert_eq!(simulator.get_input_val(reg_b), 77);
    simulator.set_out_val("write_data", "out", 99);
    simulator.clock(&mut clock);
    assert_eq!(simulator.get_input_val(reg_b), 99);
    simulator.un_clock(&mut clock);
    // the signals are those before the second cycle: the stimulus too
    assert_eq!(simulator.get_input_val(reg_b), 77);
    simulator.set_out_val("write_enable", "out", 0);
    simulator.clock(&mut clock);
    assert_eq!(simulator.get_input_val(reg_b), 77);
    simulator.un_clock(&mut clock);
    simulator.un_clock(&mut clock);
    assert_eq!(clock, 1);
    // the stimulus of the first cycle is back with the signals
    simulator.set_out_val("write_enable", "out", 0);
    simulator.clock(&mut clock);
    assert_eq!(simulator.get_input_val(reg_b), 0);
}

#[test]
fn reg_file_write_enable_is_any_nonzero_value() {
    let mut clock = 0;
    let mut simulator = Simulator::new(reg_file_model(), &mut clock).unwrap();
    simulator.set_out_val("read_reg_1", "out", 31);
    simulator.set_out_val("write_data", "out", 5);
    simulator.set_out_val("write_addr", "out", 31);
    simulator.set_out_val("write_enable", "out", 2);
    simulator.clock(&mut clock);
    assert_eq!(simulator.get_input_val(&Input::new("reg_file", "reg_a")), 5);
}

#[test]
fn reg_file_address_out_of_range_is_a_fault() {
    let mut clock = 0;
    let mut simulator = Simulator::new(reg_file_model(), &mut clock).unwrap();
    simulator.set_out_val("read_reg_1", "out", 32);
    assert_eq!(simulator.cycle_fault(), Some((5, Fault::RegisterOutOfRange)));
    simulator.set_out_val("read_reg_1", "out", 0);
    simulator.set_out_val("write_addr", "out", 40);
    assert_eq!(simulator.cycle_fault(), None);
    simulator.set_out_val("write_enable", "out", 1);
    assert_eq!(simulator.cycle_fault(), Some((5, Fault::RegisterOutOfRange)));
}

#[test]
fn ports_of_the_components() {
    let reg = Register::new("reg", Input::new("c", "out"));
    let (id, ports) = reg.get_id_ports();
    assert_eq!(id, "reg");
    assert_eq!(ports.out_type, OutputType::Sequential);
    assert_eq!(ports.outputs, vec!["out"]);
    assert_eq!(ports.inputs.len(), 1);

    let mux = Mux::new(
        "mux",
        Input::new("s", "out"),
        vec![Input::new("a", "out"), Input::new("b", "x")],
    );
    let (_, ports) = mux.get_id_ports();
    let inputs: Vec<(&str, &str)> = ports.inputs.iter().map(|i| (i.id.as_str(), i.field.as_str())).collect();
    assert_eq!(inputs, vec![("s", "out"), ("a", "out"), ("b", "x")]);

    let probe = Probe::rc_new("p", Input::new("reg", "out"));
    let (id, ports) = probe.get_id_ports();
    assert_eq!(id, "p");
    assert!(ports.outputs.is_empty());

    let (_, ports) = Constant::new("c", 1).get_id_ports();
    assert!(ports.inputs.is_empty());
    assert_eq!(ports.outputs, vec!["out"]);
}

#[test]
fn names_are_found_by_first_occurrence() {
    let ids: Vec<String> = vec!["a".into(), "b".into(), "a".into(), "c".into(), "b".into()];
    assert_eq!(position_of(&ids, &"a".to_string()), 0);
    assert_eq!(position_of(&ids, &"c".to_string()), 3);
    assert_eq!(position_of(&ids, &"z".to_string()), 5);
    assert_eq!(first_repeat_of(&ids), 2);
    assert_eq!(first_repeat_of(&ids[..2].to_vec()), 2);
}

#[test]
fn repeated_field_is_refused() {
    let ids: Vec<String> = vec!["a".into(), "b".into()];
    let ports = vec![
        Ports { inputs: vec![], out_type: OutputType::Combinatorial, outputs: vec!["x".into(), "y".into()] },
        Ports {
            inputs: vec![],
            out_type: OutputType::Combinatorial,
            outputs: vec!["x".into(), "y".into(), "x".into()],
        },
    ];
    assert_eq!(layout(&ids, &ports).err(), Some(ModelError::DuplicateField(1, 2)));
}

#[test]
fn layout_places_outputs_one_after_another() {
    let ids: Vec<String> = vec!["a".into(), "b".into(), "c".into()];
    let ports = vec![
        Ports { inputs: vec![], out_type: OutputType::Combinatorial, outputs: vec!["x".into(), "y".into()] },
        Ports { inputs: vec![], out_type: OutputType::Combinatorial, outputs: vec![] },
        Ports { inputs: vec![], out_type: OutputType::Sequential, outputs: vec!["out".into()] },
    ];
    assert_eq!(layout(&ids, &ports).ok(), Some((vec![0, 2, 2], vec![0, 0, 0])));
}
