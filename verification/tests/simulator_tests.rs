use syncrim::common::{Fault, Input};
use syncrim::component::{Component, ComponentStore};
use syncrim::components::add::Add;
use syncrim::components::constant::Constant;
use syncrim::components::mux::Mux;
use syncrim::components::probe::Probe;
use syncrim::components::probe_out::ProbeOut;
use syncrim::components::register::Register;
use syncrim::components::wire::Wire;
use syncrim::netlist::ModelError;
use syncrim::simulator::Simulator;

#[test]
fn test_define() {
    let cs = ComponentStore {
        store: vec![Component::ProbeOut(ProbeOut::new("po1"))],
    };

    let mut clock = 0;
    let _simulator = Simulator::new(cs, &mut clock).unwrap();

    assert_eq!(clock, 1);
}

#[test]
fn test_get_input_val() {
    let cs = ComponentStore {
        store: vec![Component::ProbeOut(ProbeOut::new("po1"))],
    };

    let mut clock = 0;
    let simulator = Simulator::new(cs, &mut clock).unwrap();

    assert_eq!(clock, 1);
    let _ = simulator.get_input_val(&Input::new("po1", "out"));
}

#[test]
fn redefined_id_is_refused() {
    let cs = ComponentStore {
        store: vec![
            Component::ProbeOut(ProbeOut::new("po1")),
            Component::ProbeOut(ProbeOut::new("po1")),
        ],
    };

    let mut clock = 0;
    let r = Simulator::new(cs, &mut clock);

    assert_eq!(r.err(), Some(ModelError::DuplicateId(1)));
    assert_eq!(clock, 0);
}

#[test]
fn missing_field_does_not_resolve() {
    let cs = ComponentStore {
        store: vec![Component::ProbeOut(ProbeOut::new("po1"))],
    };

    let mut clock = 0;
    let simulator = Simulator::new(cs, &mut clock).unwrap();

    assert_eq!(simulator.resolve(&Input::new("po1", "missing")), None);
    assert_eq!(simulator.resolve(&Input::new("po2", "out")), None);
    assert_eq!(simulator.resolve(&Input::new("po1", "out")), Some(0));
}

#[test]
fn unresolved_input_is_refused() {
    let cs = ComponentStore {
        store: vec![
            Component::ProbeOut(ProbeOut::new("po1")),
            Component::Add(Add::new("add", Input::new("po1", "out"), Input::new("po1", "nope"))),
        ],
    };

    let mut clock = 7;
    let r = Simulator::new(cs, &mut clock);

    assert_eq!(r.err(), Some(ModelError::UnresolvedInput(1, 1)));
    assert_eq!(clock, 7);
}

fn pc_loop() -> ComponentStore {
    ComponentStore {
        store: vec![
            Component::Add(Add::new("add", Input::new("c1", "out"), Input::new("reg", "out"))),
            Component::Constant(Constant::new("c1", 4)),
            Component::Register(Register::new("reg", Input::new("add", "out"))),
            Component::Wire(Wire::new("c1_to_add_a", Input::new("c1", "out"))),
            Component::Probe(Probe::new("p1", Input::new("reg", "out"))),
        ],
    }
}

#[test]
fn pc_plus_four_loop() {
    let mut clock = 0;
    let mut simulator = Simulator::new(pc_loop(), &mut clock).unwrap();
    let reg = &Input::new("reg", "out");

    assert_eq!(clock, 1);
    assert_eq!(simulator.get_input_val(reg), 0);

    simulator.clock(&mut clock);
    assert_eq!(clock, 2);
    assert_eq!(simulator.get_input_val(reg), 4);

    for _ in 0..4 {
        simulator.clock(&mut clock);
    }
    assert_eq!(simulator.get_input_val(reg), 20);

    simulator.un_clock(&mut clock);
    assert_eq!(simulator.get_input_val(reg), 16);
    assert_eq!(clock, 5);
}

#[test]
fn schedule_respects_dependencies() {
    let mut clock = 0;
    let simulator = Simulator::new(pc_loop(), &mut clock).unwrap();
    let order = &simulator.ordered_components;

    let place = |c: usize| order.iter().position(|x| *x == c).unwrap();
    assert_eq!(order.len(), 5);
    // the adder reads the constant and the register
    assert!(place(1) < place(0));
    assert!(place(2) < place(0));
    // the wire reads the constant, the probe the register
    assert!(place(1) < place(3));
    assert!(place(2) < place(4));
}

#[test]
fn clock_then_un_clock_restores_signals() {
    let mut clock = 0;
    let mut simulator = Simulator::new(pc_loop(), &mut clock).unwrap();
    let first = simulator.sim_state.clone();

    for _ in 0..7 {
        simulator.clock(&mut clock);
    }
    assert_eq!(clock, 8);
    for _ in 0..7 {
        simulator.un_clock(&mut clock);
    }

    assert_eq!(clock, 1);
    assert_eq!(simulator.sim_state, first);
    assert_eq!(simulator.history.len(), 1);
}

#[test]
fn un_clock_at_one_does_nothing() {
    let mut clock = 0;
    let mut simulator = Simulator::new(pc_loop(), &mut clock).unwrap();
    let first = simulator.sim_state.clone();

    simulator.un_clock(&mut clock);

    assert_eq!(clock, 1);
    assert_eq!(simulator.sim_state, first);
    assert_eq!(simulator.history.len(), 1);
}

#[test]
fn reset_starts_over() {
    let mut clock = 0;
    let mut simulator = Simulator::new(pc_loop(), &mut clock).unwrap();
    let first = simulator.sim_state.clone();

    simulator.clock(&mut clock);
    simulator.clock(&mut clock);
    assert_eq!(simulator.reset_fault(), None);
    simulator.reset(&mut clock);

    assert_eq!(clock, 1);
    assert_eq!(simulator.sim_state, first);
    assert_eq!(simulator.history, vec![vec![0; 3]]);
}

#[test]
fn combinatorial_cycle_is_refused() {
    let cs = ComponentStore {
        store: vec![
            Component::Add(Add::new("a1", Input::new("a2", "out"), Input::new("a2", "out"))),
            Component::Add(Add::new("a2", Input::new("a1", "out"), Input::new("a1", "out"))),
        ],
    };

    let mut clock = 0;
    let r = Simulator::new(cs, &mut clock);

    assert!(matches!(r.err(), Some(ModelError::CombinatorialCycle(c)) if c < 2));
    assert_eq!(clock, 0);
}

#[test]
fn self_loop_is_a_cycle() {
    let cs = ComponentStore {
        store: vec![
            Component::Constant(Constant::new("c", 1)),
            Component::Add(Add::new("a", Input::new("a", "out"), Input::new("c", "out"))),
        ],
    };

    let mut clock = 0;
    let r = Simulator::new(cs, &mut clock);

    assert_eq!(r.err(), Some(ModelError::CombinatorialCycle(1)));
}

#[test]
fn register_breaks_the_cycle() {
    let cs = ComponentStore {
        store: vec![
            Component::Add(Add::new("a1", Input::new("reg", "out"), Input::new("reg", "out"))),
            Component::Add(Add::new("a2", Input::new("a1", "out"), Input::new("a1", "out"))),
            Component::Register(Register::new("reg", Input::new("a2", "out"))),
        ],
    };

    let mut clock = 0;
    let r = Simulator::new(cs, &mut clock);

    assert!(r.is_ok());
    assert_eq!(clock, 1);
}

#[test]
fn add_wraps_at_32_bits() {
    let cs = ComponentStore {
        store: vec![
            Component::Constant(Constant::new("a", 0xffff_fffe)),
            Component::Constant(Constant::new("b", 5)),
            Component::Add(Add::new("sum", Input::new("a", "out"), Input::new("b", "out"))),
        ],
    };

    let mut clock = 0;
    let simulator = Simulator::new(cs, &mut clock).unwrap();

    assert_eq!(simulator.get_input_val(&Input::new("sum", "out")), 3);
}

fn mux_model() -> ComponentStore {
    ComponentStore {
        store: vec![
            Component::ProbeOut(ProbeOut::new("select")),
            Component::Constant(Constant::new("c0", 10)),
            Component::Constant(Constant::new("c1", 11)),
            Component::Mux(Mux::new(
                "mux",
                Input::new("select", "out"),
                vec![Input::new("c0", "out"), Input::new("c1", "out")],
            )),
        ],
    }
}

#[test]
fn mux_selects_its_input() {
    let mut clock = 0;
    let mut simulator = Simulator::new(mux_model(), &mut clock).unwrap();
    let out = &Input::new("mux", "out");

    assert_eq!(simulator.get_input_val(out), 10);
    simulator.set_out_val("select", "out", 1);
    assert_eq!(simulator.cycle_fault(), None);
    simulator.clock(&mut clock);
    assert_eq!(simulator.get_input_val(out), 11);
}

#[test]
fn mux_select_out_of_range_is_a_fault() {
    let mut clock = 0;
    let mut simulator = Simulator::new(mux_model(), &mut clock).unwrap();

    simulator.set_out_val("select", "out", 2);

    assert_eq!(simulator.cycle_fault(), Some((3, Fault::MuxSelectOutOfRange)));
}

#[test]
fn fault_in_first_cycle_is_refused() {
    let cs = ComponentStore {
        store: vec![
            Component::Constant(Constant::new("two", 2)),
            Component::Constant(Constant::new("c0", 10)),
            Component::Mux(Mux::new("mux", Input::new("two", "out"), vec![Input::new("c0", "out")])),
        ],
    };

    let mut clock = 0;
    let r = Simulator::new(cs, &mut clock);

    assert_eq!(r.err(), Some(ModelError::Fault(2, Fault::MuxSelectOutOfRange)));
    assert_eq!(clock, 0);
}

#[test]
fn signals_by_index() {
    let mut clock = 0;
    let mut simulator = Simulator::new(mux_model(), &mut clock).unwrap();

    assert_eq!(simulator.get_id_start_index("c1"), 2);
    assert_eq!(simulator.get(2), 11);
    simulator.set(0, 1);
    assert_eq!(simulator.get_input_val(&Input::new("select", "out")), 1);
}

#[test]
fn dot_lists_nodes_and_edges() {
    let cs = ComponentStore {
        store: vec![
            Component::Constant(Constant::new("c", 3)),
            Component::Register(Register::new("reg", Input::new("c", "out"))),
            Component::Probe(Probe::new("p_reg", Input::new("reg", "out"))),
        ],
    };

    let mut clock = 0;
    let simulator = Simulator::new(cs, &mut clock).unwrap();

    let expected = "digraph {\n    0 [ label = \"\\\"c\\\"\" ]\n    1 [ label = \"\\\"reg\\\"\" ]\n    2 [ label = \"\\\"p_reg\\\"\" ]\n    1 -> 2 [ ]\n}\n";
    assert_eq!(simulator.dot(), expected);
}
