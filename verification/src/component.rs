//! The components of a model as one type, and the store that holds a model.

use vstd::prelude::*;
use crate::common::{Fault, Id, Ports, Signal};
use crate::components::add::Add;
use crate::components::constant::Constant;
use crate::components::mem::Mem;
use crate::components::mux::Mux;
use crate::components::probe::Probe;
use crate::components::probe_out::ProbeOut;
use crate::components::reg_file::RegFile;
use crate::components::register::Register;
use crate::components::sext::Sext;
use crate::components::wire::Wire;
use crate::model::{clocks, ComponentView};

verus! {

/// A component of any kind.
#[derive(Debug)]
pub enum Component {
    Add(Add),
    Constant(Constant),
    Mem(Mem),
    Mux(Mux),
    Probe(Probe),
    ProbeOut(ProbeOut),
    RegFile(RegFile),
    Register(Register),
    Sext(Sext),
    Wire(Wire),
}

impl View for Component {
    type V = ComponentView;

    open spec fn view(&self) -> ComponentView {
        match self {
            Component::Add(c) => c@,
            Component::Constant(c) => c@,
            Component::Mem(c) => c@,
            Component::Mux(c) => c@,
            Component::Probe(c) => c@,
            Component::ProbeOut(c) => c@,
            Component::RegFile(c) => c@,
            Component::Register(c) => c@,
            Component::Sext(c) => c@,
            Component::Wire(c) => c@,
        }
    }
}

impl Component {
    /// A component is well formed as it is built: it has the inputs and
    /// the state of its kind.
    pub proof fn lemma_wf(self)
        ensures
            self@.wf(),
    {
    }

    /// The component's id and ports.
    pub fn get_id_ports(&self) -> (r: (Id, Ports))
        ensures
            r.0@ == self@.id,
            r.1@ == self@.ports(),
    {
        match self {
            Component::Add(c) => c.get_id_ports(),
            Component::Constant(c) => c.get_id_ports(),
            Component::Mem(c) => c.get_id_ports(),
            Component::Mux(c) => c.get_id_ports(),
            Component::Probe(c) => c.get_id_ports(),
            Component::ProbeOut(c) => c.get_id_ports(),
            Component::RegFile(c) => c.get_id_ports(),
            Component::Register(c) => c.get_id_ports(),
            Component::Sext(c) => c.get_id_ports(),
            Component::Wire(c) => c.get_id_ports(),
        }
    }

    /// What `clock` would drive for the input values `ins`, with nothing
    /// written to the component: `outs` holds the component's outputs before
    /// the call and after it. On a fault `outs` keeps its values.
    pub fn peek(&self, ins: &Vec<Signal>, outs: &mut Vec<Signal>) -> (r: Result<(), Fault>)
        requires
            ins@.len() == self@.inputs.len(),
            old(outs)@.len() == self@.kind.outputs(),
        ensures
            match self@.fault(ins@) {
                Some(fault) => r == Err::<(), Fault>(fault) && final(outs)@ == old(outs)@,
                None => r is Ok && final(outs)@ == self@.outputs(ins@, old(outs)@),
            },
    {
        match self {
            Component::Add(c) => c.clock(ins, outs),
            Component::Constant(c) => c.clock(ins, outs),
            Component::Mem(c) => c.peek(ins, outs),
            Component::Mux(c) => c.clock(ins, outs),
            Component::RegFile(c) => c.peek(ins, outs),
            Component::Register(c) => c.clock(ins, outs),
            Component::Sext(c) => c.clock(ins, outs),
            Component::Probe(_) | Component::ProbeOut(_) | Component::Wire(_) => Ok(()),
        }
    }

    /// Runs the component for one cycle with the input values `ins`:
    /// `outs` holds the component's outputs before the call and after it. On
    /// a fault nothing changes.
    pub fn clock(&mut self, ins: &Vec<Signal>, outs: &mut Vec<Signal>) -> (r: Result<(), Fault>)
        requires
            ins@.len() == old(self)@.inputs.len(),
            old(outs)@.len() == old(self)@.kind.outputs(),
        ensures
            clocks(old(self)@, final(self)@, ins@, old(outs)@, final(outs)@, r),
    {
        match self {
            Component::Add(c) => c.clock(ins, outs),
            Component::Constant(c) => c.clock(ins, outs),
            Component::Mem(c) => c.clock(ins, outs),
            Component::Mux(c) => c.clock(ins, outs),
            Component::RegFile(c) => c.clock(ins, outs),
            Component::Register(c) => c.clock(ins, outs),
            Component::Sext(c) => c.clock(ins, outs),
            Component::Probe(_) | Component::ProbeOut(_) | Component::Wire(_) => Ok(()),
        }
    }

    /// Takes back what the last cycle did to the component's own state.
    pub fn un_clock(&mut self)
        requires
            old(self)@.can_un_clock(),
        ensures
            final(self)@ == old(self)@.un_clocked(),
    {
        match self {
            Component::RegFile(c) => c.un_clock(),
            _ => {},
        }
    }
}

/// A model: its components, in the order in which they were placed.
#[derive(Debug)]
pub struct ComponentStore {
    pub store: Vec<Component>,
}

/// The components of a store as the simulator sees them.
pub open spec fn views(components: Seq<Component>) -> Seq<ComponentView> {
    Seq::new(components.len(), |i: int| components[i]@)
}

impl View for ComponentStore {
    type V = Seq<ComponentView>;

    open spec fn view(&self) -> Seq<ComponentView> {
        views(self.store@)
    }
}

} // verus!
