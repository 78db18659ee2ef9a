//! A register: the one sequential component.

use vstd::prelude::*;
use crate::common::{Fault, Id, Input, OutputType, Ports, Signal};
use crate::model::{clocks, ComponentView, Kind, State};

verus! {

/// Drives on its output `out` what its input `r_in` held when the cycle
/// began.
#[derive(Debug)]
pub struct Register {
    pub id: Id,
    pub r_in: Input,
}

impl View for Register {
    type V = ComponentView;

    open spec fn view(&self) -> ComponentView {
        ComponentView {
            id: self.id@,
            kind: Kind::Register,
            inputs: seq![self.r_in@],
            state: State::Stateless,
        }
    }
}

impl Register {
    pub fn new(id: &str, r_in: Input) -> (c: Register)
        ensures
            c.id@ == id@,
            c.r_in == r_in,
    {
        Register { id: id.to_owned(), r_in }
    }

    /// The id and the ports: the input `r_in`, the output `out`; sequential.
    pub fn get_id_ports(&self) -> (r: (Id, Ports))
        ensures
            r.0@ == self@.id,
            r.1@ == self@.ports(),
    {
        let ports = Ports {
            inputs: vec![self.r_in.duplicate()],
            out_type: OutputType::Sequential,
            outputs: vec!["out".to_owned()],
        };
        assert(ports@.inputs =~= self@.ports().inputs);
        assert(ports@.outputs =~= self@.ports().outputs);
        (self.id.clone(), ports)
    }

    /// Latches the input value.
    pub fn clock(&self, ins: &Vec<Signal>, outs: &mut Vec<Signal>) -> (r: Result<(), Fault>)
        requires
            ins@.len() == 1,
            old(outs)@.len() == 1,
        ensures
            clocks(self@, self@, ins@, old(outs)@, final(outs)@, r),
    {
        let value: Signal = ins[0];
        outs.set(0, value);
        assert(outs@ =~= seq![value]);
        Ok(())
    }
}

} // verus!
