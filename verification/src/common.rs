//! Signals, port references and port descriptors shared by all components.

use vstd::prelude::*;

verus! {

/// The value carried by one wire: 32 bits, read as an unsigned number, a
/// two's-complement number or a small control code.
pub type Signal = u32;

/// The name of a component, or of one of its output ports.
pub type Id = String;

/// A reference to an output port of a component, by the component's id and
/// the port's field name.
#[derive(Debug)]
pub struct Input {
    pub id: Id,
    pub field: Id,
}

/// The mathematical value of an [`Input`].
pub struct InputView {
    pub id: Seq<char>,
    pub field: Seq<char>,
}

impl View for Input {
    type V = InputView;

    open spec fn view(&self) -> InputView {
        InputView { id: self.id@, field: self.field@ }
    }
}

impl Input {
    /// A reference to the port `field` of the component `id`.
    pub fn new(id: &str, field: &str) -> (r: Input)
        ensures
            r@ == (InputView { id: id@, field: field@ }),
    {
        Input { id: id.to_owned(), field: field.to_owned() }
    }

    /// A copy of this reference.
    pub fn duplicate(&self) -> (r: Input)
        ensures
            r@ == self@,
    {
        Input { id: self.id.clone(), field: self.field.clone() }
    }
}

/// How a component's outputs follow from its inputs.
#[derive(Clone, Copy, Debug, PartialEq, Eq, Structural)]
pub enum OutputType {
    /// The outputs are a function of the inputs of the same cycle: the
    /// component is evaluated after the components that drive its inputs.
    Combinatorial,
    /// The outputs are the inputs as they were at the last clock edge: the
    /// component breaks combinatorial cycles.
    Sequential,
}

/// The ports of a component: the outputs that it reads, how it is
/// classified, and the names of its own outputs in declaration order.
#[derive(Debug)]
pub struct Ports {
    pub inputs: Vec<Input>,
    pub out_type: OutputType,
    pub outputs: Vec<Id>,
}

/// The mathematical value of a [`Ports`].
pub struct PortsView {
    pub inputs: Seq<InputView>,
    pub out_type: OutputType,
    pub outputs: Seq<Seq<char>>,
}

impl View for Ports {
    type V = PortsView;

    open spec fn view(&self) -> PortsView {
        PortsView {
            inputs: Seq::new(self.inputs@.len(), |i: int| self.inputs@[i]@),
            out_type: self.out_type,
            outputs: Seq::new(self.outputs@.len(), |i: int| self.outputs@[i]@),
        }
    }
}

/// What stops a cycle: a component met input values for which it has no
/// result.
#[derive(Clone, Copy, Debug, PartialEq, Eq, Structural)]
pub enum Fault {
    /// The select input of a multiplexer names no data input.
    MuxSelectOutOfRange,
    /// The control input of a memory is none of the codes of `MemCtrl`.
    IllegalMemCtrl,
    /// A memory was asked to read or write other than 1, 2 or 4 bytes.
    IllegalMemSize,
    /// The input of a sign extension does not fit in its declared width.
    SextInputTooLarge,
    /// A register file was given a register number of 32 or more.
    RegisterOutOfRange,
}

} // verus!
