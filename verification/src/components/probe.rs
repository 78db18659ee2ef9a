//! A probe: a place where a signal is shown.

use std::rc::Rc;
use vstd::prelude::*;
use crate::common::{Id, Input, OutputType, Ports};
use crate::model::{ComponentView, Kind, State};

verus! {

/// Shows the value of `input`; it drives nothing.
#[derive(Debug)]
pub struct Probe {
    pub id: Id,
    pub input: Input,
}

impl View for Probe {
    type V = ComponentView;

    open spec fn view(&self) -> ComponentView {
        ComponentView {
            id: self.id@,
            kind: Kind::Probe,
            inputs: seq![self.input@],
            state: State::Stateless,
        }
    }
}

impl Probe {
    pub fn new(id: &str, input: Input) -> (c: Probe)
        ensures
            c.id@ == id@,
            c.input == input,
    {
        Probe { id: id.to_owned(), input }
    }

    pub fn rc_new(id: &str, input: Input) -> (c: Rc<Probe>)
        ensures
            c.id@ == id@,
            c.input == input,
    {
        Rc::new(Probe::new(id, input))
    }

    /// The id and the ports: one input, no output.
    pub fn get_id_ports(&self) -> (r: (Id, Ports))
        ensures
            r.0@ == self@.id,
            r.1@ == self@.ports(),
    {
        let ports = Ports {
            inputs: vec![self.input.duplicate()],
            out_type: OutputType::Combinatorial,
            outputs: Vec::new(),
        };
        assert(ports@.inputs =~= self@.ports().inputs);
        assert(ports@.outputs =~= self@.ports().outputs);
        (self.id.clone(), ports)
    }
}

} // verus!
