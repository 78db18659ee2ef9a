//! A multiplexer.

use vstd::prelude::*;
use crate::common::{Fault, Id, Input, OutputType, Ports, Signal};
use crate::model::{clocks, ComponentView, Kind, State};

verus! {

/// Drives on its output `out` the value of the data input `m_in[select]`.
#[derive(Debug)]
pub struct Mux {
    pub id: Id,
    pub select: Input,
    pub m_in: Vec<Input>,
}

impl View for Mux {
    type V = ComponentView;

    open spec fn view(&self) -> ComponentView {
        ComponentView {
            id: self.id@,
            kind: Kind::Mux,
            inputs: Seq::new(
                self.m_in@.len() + 1,
                |i: int|
                    if i == 0 {
                        self.select@
                    } else {
                        self.m_in@[i - 1]@
                    },
            ),
            state: State::Stateless,
        }
    }
}

impl Mux {
    pub fn new(id: &str, select: Input, m_in: Vec<Input>) -> (c: Mux)
        ensures
            c.id@ == id@,
            c.select == select,
            c.m_in == m_in,
    {
        Mux { id: id.to_owned(), select, m_in }
    }

    /// The id and the ports: the input `select`, then the data inputs in
    /// their order; the output `out`.
    pub fn get_id_ports(&self) -> (r: (Id, Ports))
        ensures
            r.0@ == self@.id,
            r.1@ == self@.ports(),
    {
        let mut inputs: Vec<Input> = vec![self.select.duplicate()];
        let mut i: usize = 0;
        while i < self.m_in.len()
            invariant
                0 <= i <= self.m_in@.len(),
                inputs@.len() == i + 1,
                forall|k: int| 0 <= k <= i ==> (#[trigger] inputs@[k])@ == self@.inputs[k],
            decreases self.m_in@.len() - i,
        {
            inputs.push(self.m_in[i].duplicate());
            i += 1;
        }
        let ports = Ports { inputs, out_type: OutputType::Combinatorial, outputs: vec!["out".to_owned()] };
        assert(ports@.inputs =~= self@.ports().inputs);
        assert(ports@.outputs =~= self@.ports().outputs);
        (self.id.clone(), ports)
    }

    /// Hands on the selected data input. The fault
    /// `Fault::MuxSelectOutOfRange` comes when the select value names none.
    pub fn clock(&self, ins: &Vec<Signal>, outs: &mut Vec<Signal>) -> (r: Result<(), Fault>)
        requires
            ins@.len() == self@.inputs.len(),
            old(outs)@.len() == 1,
        ensures
            clocks(self@, self@, ins@, old(outs)@, final(outs)@, r),
    {
        let select: Signal = ins[0];
        if select as usize >= ins.len() - 1 {
            return Err(Fault::MuxSelectOutOfRange);
        }
        let value: Signal = ins[select as usize + 1];
        outs.set(0, value);
        assert(outs@ =~= seq![value]);
        Ok(())
    }
}

} // verus!
