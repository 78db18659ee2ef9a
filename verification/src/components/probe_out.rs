//! An output that is driven from outside the model.

use vstd::prelude::*;
use crate::common::{Id, OutputType, Ports};
use crate::model::{ComponentView, Kind, State};

verus! {

/// Holds on its output `out` the value that the host last set there: the
/// stimulus of a test or of a user interface.
#[derive(Debug)]
pub struct ProbeOut {
    pub id: Id,
}

impl View for ProbeOut {
    type V = ComponentView;

    open spec fn view(&self) -> ComponentView {
        ComponentView {
            id: self.id@,
            kind: Kind::ProbeOut,
            inputs: seq![],
            state: State::Stateless,
        }
    }
}

impl ProbeOut {
    pub fn new(id: &str) -> (c: ProbeOut)
        ensures
            c.id@ == id@,
    {
        ProbeOut { id: id.to_owned() }
    }

    /// The id and the ports: no input, the output `out`.
    pub fn get_id_ports(&self) -> (r: (Id, Ports))
        ensures
            r.0@ == self@.id,
            r.1@ == self@.ports(),
    {
        let ports = Ports {
            inputs: Vec::new(),
            out_type: OutputType::Combinatorial,
            outputs: vec!["out".to_owned()],
        };
        assert(ports@.inputs =~= self@.ports().inputs);
        assert(ports@.outputs =~= self@.ports().outputs);
        (self.id.clone(), ports)
    }
}

} // verus!
