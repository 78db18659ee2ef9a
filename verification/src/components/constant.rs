//! A component that drives a fixed value.

use vstd::prelude::*;
use crate::common::{Fault, Id, OutputType, Ports, Signal};
use crate::model::{clocks, ComponentView, Kind, State};

verus! {

/// Drives `value` on its output `out`.
#[derive(Debug)]
pub struct Constant {
    pub id: Id,
    pub value: Signal,
}

impl View for Constant {
    type V = ComponentView;

    open spec fn view(&self) -> ComponentView {
        ComponentView {
            id: self.id@,
            kind: Kind::Constant { value: self.value },
            inputs: seq![],
            state: State::Stateless,
        }
    }
}

impl Constant {
    pub fn new(id: &str, value: Signal) -> (c: Constant)
        ensures
            c.id@ == id@,
            c.value == value,
    {
        Constant { id: id.to_owned(), value }
    }

    /// The id and the ports: no input, the output `out`.
    pub fn get_id_ports(&self) -> (r: (Id, Ports))
        ensures
            r.0@ == self@.id,
            r.1@ == self@.ports(),
    {
        let ports = Ports {
            inputs: Vec::new(),
            out_type: OutputType::Combinatorial,
            outputs: vec!["out".to_owned()],
        };
        assert(ports@.inputs =~= self@.ports().inputs);
        assert(ports@.outputs =~= self@.ports().outputs);
        (self.id.clone(), ports)
    }

    /// Drives the value.
    pub fn clock(&self, ins: &Vec<Signal>, outs: &mut Vec<Signal>) -> (r: Result<(), Fault>)
        requires
            ins@.len() == 0,
            old(outs)@.len() == 1,
        ensures
            clocks(self@, self@, ins@, old(outs)@, final(outs)@, r),
    {
        outs.set(0, self.value);
        assert(outs@ =~= seq![self.value]);
        Ok(())
    }
}

} // verus!
