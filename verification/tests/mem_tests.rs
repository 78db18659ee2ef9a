use syncrim::common::{Input, Signal};
use syncrim::component::{Component, ComponentStore};
use syncrim::components::mem::{Mem, MemCtrl, Memory};
use syncrim::components::probe_out::ProbeOut;
use syncrim::simulator::Simulator;

#[test]
fn test_mem_be() {
    let cs = ComponentStore {
        store: vec![
            Component::ProbeOut(ProbeOut::new("data")),
            Component::ProbeOut(ProbeOut::new("addr")),
            Component::ProbeOut(ProbeOut::new("ctrl")),
            Component::ProbeOut(ProbeOut::new("size")),
            Component::ProbeOut(ProbeOut::new("sign")),
            Component::Mem(Mem {
                id: "mem".into(),

                // configuration
                big_endian: true,

                // ports
                data: Input::new("data", "out"),
                addr: Input::new("addr", "out"),
                ctrl: Input::new("ctrl", "out"),
                size: Input::new("size", "out"),
                sign: Input::new("sign", "out"),

                // memory
                memory: Memory::new(),
            }),
        ],
    };

    let mut clock = 0;
    let mut simulator = Simulator::new(cs, &mut clock).unwrap();

    assert_eq!(clock, 1);

    // outputs
    let out = &Input::new("mem", "data");
    let err = &Input::new("mem", "err");

    // reset
    assert_eq!(simulator.get_input_val(out), 0);
    assert_eq!(simulator.get_input_val(err), false as Signal);

    println!("<setup for write 42 to addr 4>");

    simulator.set_out_val("data", "out", 0xf0);
    simulator.set_out_val("addr", "out", 4);
    simulator.set_out_val("ctrl", "out", MemCtrl::Write as Signal);
    simulator.set_out_val("size", "out", 1);
    println!("sim_state {:?}", simulator.sim_state);

    println!("<clock>");
    simulator.clock(&mut clock);
    println!("sim_state {:?}", simulator.sim_state);

    assert_eq!(clock, 2);
    assert_eq!(simulator.get_input_val(out), 0);
    assert_eq!(simulator.get_input_val(err), false as Signal);

    println!("<setup for read byte from addr 4>");

    simulator.set_out_val("ctrl", "out", MemCtrl::Read as Signal);
    simulator.set_out_val("size", "out", 1);

    simulator.clock(&mut clock);

    assert_eq!(clock, 3);
    assert_eq!(simulator.get_input_val(out), 0xf0);
    assert_eq!(simulator.get_input_val(err), false as Signal);

    println!("<setup for read byte from addr 4>");
    simulator.set_out_val("size", "out", 1);
    simulator.set_out_val("sign", "out", true as Signal);

    simulator.clock(&mut clock);
    assert_eq!(clock, 4);
    assert_eq!(simulator.get_input_val(out), 0xffff_fff0);
    assert_eq!(simulator.get_input_val(err), false as Signal);

    println!("<setup for read half-word from addr 4>");
    simulator.set_out_val("size", "out", 2);
    simulator.set_out_val("sign", "out", true as Signal);

    simulator.clock(&mut clock);
    assert_eq!(clock, 5);
    assert_eq!(simulator.get_input_val(out), 0xffff_f000);
    assert_eq!(simulator.get_input_val(err), false as Signal);

    println!("<setup for read word from addr 4>");
    simulator.set_out_val("size", "out", 4);
    simulator.set_out_val("sign", "out", true as Signal);

    simulator.clock(&mut clock);
    assert_eq!(clock, 6);
    assert_eq!(simulator.get_input_val(out), 0xf000_0000);
    assert_eq!(simulator.get_input_val(err), false as Signal);

    println!("<setup for read word from addr 5>");
    simulator.set_out_val("addr", "out", 5);

    simulator.clock(&mut clock);
    assert_eq!(clock, 7);
    assert_eq!(simulator.get_input_val(err), true as Signal);

    println!("<setup for read word from addr 6>");
    simulator.set_out_val("addr", "out", 6);

    simulator.clock(&mut clock);
    assert_eq!(clock, 8);
    assert_eq!(simulator.get_input_val(err), true as Signal);

    println!("<setup for read word from addr 7>");
    simulator.set_out_val("addr", "out", 7);

    simulator.clock(&mut clock);
    assert_eq!(clock, 9);
    assert_eq!(simulator.get_input_val(err), true as Signal);

    println!("<setup for read word from addr 8>");
    simulator.set_out_val("addr", "out", 8);

    simulator.clock(&mut clock);
    assert_eq!(clock, 10);
    assert_eq!(simulator.get_input_val(err), false as Signal);

    println!("<setup for read half-word from addr 9>");
    simulator.set_out_val("addr", "out", 9);
    simulator.set_out_val("size", "out", 2);
    simulator.clock(&mut clock);
    assert_eq!(clock, 11);
    assert_eq!(simulator.get_input_val(err), true as Signal);

    println!("<setup for read half-word from addr 10>");
    simulator.set_out_val("addr", "out", 10);

    simulator.clock(&mut clock);
    assert_eq!(clock, 12);
    assert_eq!(simulator.get_input_val(err), false as Signal);

    println!("<setup for write half-word at add 10>");
    simulator.set_out_val("addr", "out", 10);
    simulator.set_out_val("data", "out", 0x1234);
    simulator.set_out_val("ctrl", "out", MemCtrl::Write as Signal);
    simulator.clock(&mut clock);
    assert_eq!(clock, 13);
    assert_eq!(simulator.get_input_val(err), false as Signal);

    println!("<setup for read byte at add 10>");
    simulator.set_out_val("ctrl", "out", MemCtrl::Read as Signal);
    simulator.set_out_val("size", "out", 1);
    simulator.clock(&mut clock);
    assert_eq!(clock, 14);
    assert_eq!(simulator.get_input_val(out), 0x12 as Signal);

    println!("<setup for read byte at add 11>");
    simulator.set_out_val("addr", "out", 11);
    simulator.clock(&mut clock);
    assert_eq!(clock, 15);
    assert_eq!(simulator.get_input_val(out), 0x34 as Signal);

    println!("test done")
}

#[test]
fn test_mem_le() {
    let cs = ComponentStore {
        store: vec![
            Component::ProbeOut(ProbeOut::new("data")),
            Component::ProbeOut(ProbeOut::new("addr")),
            Component::ProbeOut(ProbeOut::new("ctrl")),
            Component::ProbeOut(ProbeOut::new("size")),
            Component::ProbeOut(ProbeOut::new("sign")),
            Component::Mem(Mem {
                id: "mem".into(),

                // configuration
                big_endian: false,

                // ports
                data: Input::new("data", "out"),
                addr: Input::new("addr", "out"),
                ctrl: Input::new("ctrl", "out"),
                size: Input::new("size", "out"),
                sign: Input::new("sign", "out"),

                // memory
                memory: Memory::new(),
            }),
        ],
    };

    let mut clock = 0;
    let mut simulator = Simulator::new(cs, &mut clock).unwrap();

    assert_eq!(clock, 1);

    // outputs
    let out = &Input::new("mem", "data");
    let err = &Input::new("mem", "err");

    // reset
    assert_eq!(simulator.get_input_val(out), 0);
    assert_eq!(simulator.get_input_val(err), false as Signal);

    // println!("<setup for write 42 to addr 4>");

    simulator.set_out_val("data", "out", 0xf0);
    simulator.set_out_val("addr", "out", 4);
    simulator.set_out_val("ctrl", "out", MemCtrl::Write as Signal);
    simulator.set_out_val("size", "out", 1); // byte

    println!("sim_state {:?}", simulator.sim_state);

    println!("<clock>");
    simulator.clock(&mut clock);
    println!("sim_state {:?}", simulator.sim_state);

    assert_eq!(clock, 2);
    assert_eq!(simulator.get_input_val(out), 0);
    assert_eq!(simulator.get_input_val(err), false as Signal);

    println!("<setup for read byte from addr 4>");

    simulator.set_out_val("ctrl", "out", MemCtrl::Read as Signal);
    simulator.set_out_val("size", "out", 1);

    simulator.clock(&mut clock);

    assert_eq!(clock, 3);
    assert_eq!(simulator.get_input_val(out), 0xf0);
    assert_eq!(simulator.get_input_val(err), false as Signal);

    println!("<setup for read byte from addr 4>");
    simulator.set_out_val("size", "out", 1);
    simulator.set_out_val("sign", "out", true as Signal);

    simulator.clock(&mut clock);
    assert_eq!(clock, 4);
    assert_eq!(simulator.get_input_val(out), 0xffff_fff0);
    assert_eq!(simulator.get_input_val(err), false as Signal);

    println!("<setup for read half-word from addr 4>");
    simulator.set_out_val("size", "out", 2);
    simulator.set_out_val("sign", "out", true as Signal);

    simulator.clock(&mut clock);
    assert_eq!(clock, 5);
    assert_eq!(simulator.get_input_val(out), 0x0000_00f0);
    assert_eq!(simulator.get_input_val(err), false as Signal);

    println!("<setup for read word from addr 4>");
    simulator.set_out_val("size", "out", 4);
    simulator.set_out_val("sign", "out", true as Signal);
    simulator.clock(&mut clock);
    assert_eq!(clock, 6);
    assert_eq!(simulator.get_input_val(out), 0x0000_00f0);
    assert_eq!(simulator.get_input_val(err), false as Signal);

    println!("<setup for write half-word at add 10>");
    simulator.set_out_val("addr", "out", 10); // b
    simulator.set_out_val("data", "out", 0x1234);
    simulator.set_out_val("ctrl", "out", MemCtrl::Write as Signal);
    simulator.set_out_val("size", "out", 2);

    simulator.clock(&mut clock);
    assert_eq!(clock, 7);
    assert_eq!(simulator.get_input_val(err), false as Signal);

    println!("<setup for read byte at add 10>");
    simulator.set_out_val("ctrl", "out", MemCtrl::Read as Signal);
    simulator.set_out_val("size", "out", 1);
    simulator.clock(&mut clock);
    assert_eq!(clock, 8);
    assert_eq!(simulator.get_input_val(out), 0x34 as Signal);

    println!("<setup for read byte at add 11>");
    simulator.set_out_val("addr", "out", 11);
    simulator.clock(&mut clock);
    assert_eq!(clock, 9);
    assert_eq!(simulator.get_input_val(out), 0x12 as Signal);
}
