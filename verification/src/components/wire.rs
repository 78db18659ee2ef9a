//! A wire: a connection drawn between two ports.

use vstd::prelude::*;
use crate::common::{Id, Input, OutputType, Ports};
use crate::model::{ComponentView, Kind, State};

verus! {

/// Shows that `input` is connected; it drives nothing.
#[derive(Debug)]
pub struct Wire {
    pub id: Id,
    pub input: Input,
}

impl View for Wire {
    type V = ComponentView;

    open spec fn view(&self) -> ComponentView {
        ComponentView {
            id: self.id@,
            kind: Kind::Wire,
            inputs: seq![self.input@],
            state: State::Stateless,
        }
    }
}

impl Wire {
    pub fn new(id: &str, input: Input) -> (c: Wire)
        ensures
            c.id@ == id@,
            c.input == input,
    {
        Wire { id: id.to_owned(), input }
    }

    /// The id and the ports: one input, no output.
    pub fn get_id_ports(&self) -> (r: (Id, Ports))
        ensures
            r.0@ == self@.id,
            r.1@ == self@.ports(),
    {
        let ports = Ports {
            inputs: vec![self.input.duplicate()],
            out_type: OutputType::Combinatorial,
            outputs: Vec::new(),
        };
        assert(ports@.inputs =~= self@.ports().inputs);
        assert(ports@.outputs =~= self@.ports().outputs);
        (self.id.clone(), ports)
    }
}

} // verus!
