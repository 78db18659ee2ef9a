//! A 32-bit adder.

use vstd::prelude::*;
use crate::common::{Fault, Id, Input, OutputType, Ports, Signal};
use crate::model::{clocks, ComponentView, Kind, State};

verus! {

/// Drives the sum of its two inputs, modulo 2^32, on its output `out`.
#[derive(Debug)]
pub struct Add {
    pub id: Id,
    pub a_in: Input,
    pub b_in: Input,
}

impl View for Add {
    type V = ComponentView;

    open spec fn view(&self) -> ComponentView {
        ComponentView {
            id: self.id@,
            kind: Kind::Add,
            inputs: seq![self.a_in@, self.b_in@],
            state: State::Stateless,
        }
    }
}

impl Add {
    pub fn new(id: &str, a_in: Input, b_in: Input) -> (c: Add)
        ensures
            c.id@ == id@,
            c.a_in == a_in,
            c.b_in == b_in,
    {
        Add { id: id.to_owned(), a_in, b_in }
    }

    /// The id and the ports: the inputs `a_in` and `b_in`, the output `out`.
    pub fn get_id_ports(&self) -> (r: (Id, Ports))
        ensures
            r.0@ == self@.id,
            r.1@ == self@.ports(),
    {
        let ports = Ports {
            inputs: vec![self.a_in.duplicate(), self.b_in.duplicate()],
            out_type: OutputType::Combinatorial,
            outputs: vec!["out".to_owned()],
        };
        assert(ports@.inputs =~= self@.ports().inputs);
        assert(ports@.outputs =~= self@.ports().outputs);
        (self.id.clone(), ports)
    }

    /// Adds the two input values.
    pub fn clock(&self, ins: &Vec<Signal>, outs: &mut Vec<Signal>) -> (r: Result<(), Fault>)
        requires
            ins@.len() == 2,
            old(outs)@.len() == 1,
        ensures
            clocks(self@, self@, ins@, old(outs)@, final(outs)@, r),
    {
        let sum: Signal = ins[0].wrapping_add(ins[1]);
        outs.set(0, sum);
        assert(outs@ =~= seq![sum]);
        Ok(())
    }
}

} // verus!
