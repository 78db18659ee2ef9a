//! The mathematical model of a component: what it is, what it reads, what
//! it holds, and what one clock cycle makes of it.

use vstd::prelude::*;
use crate::common::{Fault, InputView, OutputType, PortsView, Signal};
use crate::components::mem::{misaligned, read_value, written};
use crate::components::mem::MemCtrl;
use crate::components::reg_file::{reg_fault, reg_read, reg_entry, regs_after, regs_restored};
use crate::components::sext::{sext_fits, sext_value};

verus! {

/// The kind of a component, with its configuration.
pub enum Kind {
    /// Adds its two inputs, wrapping at 32 bits.
    Add,
    /// Drives a fixed value.
    Constant { value: Signal },
    /// A memory; `big_endian` tells which byte of a number it stores first.
    Mem { big_endian: bool },
    /// Hands on the data input that its first input selects.
    Mux,
    /// Shows a signal; drives nothing.
    Probe,
    /// An output that is driven from outside the model.
    ProbeOut,
    /// 32 registers with two read ports and one write port.
    RegFile,
    /// Delays its input by one cycle.
    Register,
    /// Extends the sign of a number of `in_size` bits to `out_size` bits.
    Sext { in_size: u8, out_size: u8 },
    /// Draws a connection; drives nothing.
    Wire,
}

/// What a component holds besides its outputs.
pub enum State {
    /// Nothing.
    Stateless,
    /// The bytes of a memory, by address.
    Bytes(Map<u64, u8>),
    /// The registers of a register file, and for each cycle that it has
    /// run, most recent last, the register that the cycle overwrote with the
    /// value that it held before.
    Registers { regs: Seq<Signal>, history: Seq<Option<(int, Signal)>> },
}

/// A component as the simulator sees it.
pub struct ComponentView {
    /// The component's name.
    pub id: Seq<char>,
    pub kind: Kind,
    /// The outputs that it reads, in the order of its input ports.
    pub inputs: Seq<InputView>,
    pub state: State,
}

impl Kind {
    /// The names of the outputs, in declaration order.
    pub open spec fn output_names(self) -> Seq<Seq<char>> {
        match self {
            Kind::Probe | Kind::Wire => seq![],
            Kind::Mem { .. } => seq!["data"@, "err"@],
            Kind::RegFile => seq!["reg_a"@, "reg_b"@],
            _ => seq!["out"@],
        }
    }

    /// The number of outputs.
    pub open spec fn outputs(self) -> int {
        match self {
            Kind::Probe | Kind::Wire => 0,
            Kind::Mem { .. } | Kind::RegFile => 2,
            _ => 1,
        }
    }

    /// Only a register is sequential.
    pub open spec fn out_type(self) -> OutputType {
        match self {
            Kind::Register => OutputType::Sequential,
            _ => OutputType::Combinatorial,
        }
    }

    /// Whether a component of this kind can have `n` inputs.
    pub open spec fn takes(self, n: int) -> bool {
        match self {
            Kind::Constant { .. } | Kind::ProbeOut => n == 0,
            Kind::Probe | Kind::Wire | Kind::Register | Kind::Sext { .. } => n == 1,
            Kind::Add => n == 2,
            Kind::Mem { .. } | Kind::RegFile => n == 5,
            Kind::Mux => n >= 1,
        }
    }
}

impl ComponentView {
    /// The component's port descriptor.
    pub open spec fn ports(self) -> PortsView {
        PortsView {
            inputs: self.inputs,
            out_type: self.kind.out_type(),
            outputs: self.kind.output_names(),
        }
    }

    /// The state fits the kind, and the inputs are as many as the kind
    /// takes.
    pub open spec fn wf(self) -> bool {
        &&& self.kind.takes(self.inputs.len() as int)
        &&& self.kind.output_names().len() == self.kind.outputs()
        &&& match self.kind {
            Kind::Mem { .. } => self.state is Bytes,
            Kind::RegFile => self.state matches State::Registers { regs, history } && regs.len() == 32,
            _ => self.state is Stateless,
        }
    }

    /// The fault, if any, that the input values `ins` cause.
    pub open spec fn fault(self, ins: Seq<Signal>) -> Option<Fault> {
        match self.kind {
            Kind::Mux => if ins[0] < ins.len() - 1 {
                None
            } else {
                Some(Fault::MuxSelectOutOfRange)
            },
            Kind::Sext { in_size, out_size } => if sext_fits(ins[0], in_size) {
                None
            } else {
                Some(Fault::SextInputTooLarge)
            },
            Kind::Mem { big_endian } => match MemCtrl::of(ins[2]) {
                None => Some(Fault::IllegalMemCtrl),
                Some(MemCtrl::Idle) => None,
                Some(_) => if ins[3] == 1 || ins[3] == 2 || ins[3] == 4 {
                    None
                } else {
                    Some(Fault::IllegalMemSize)
                },
            },
            Kind::RegFile => reg_fault(ins),
            _ => None,
        }
    }

    /// The output values after a cycle with the input values `ins`, where
    /// `outs` are the output values before it.
    pub open spec fn outputs(self, ins: Seq<Signal>, outs: Seq<Signal>) -> Seq<Signal> {
        match self.kind {
            Kind::Add => seq![((ins[0] + ins[1]) % 0x1_0000_0000) as Signal],
            Kind::Constant { value } => seq![value],
            Kind::Mux => seq![ins[1 + ins[0]]],
            Kind::Register => seq![ins[0]],
            Kind::Sext { in_size, out_size } => seq![sext_value(ins[0], in_size, out_size)],
            Kind::Mem { big_endian } => seq![
                if MemCtrl::of(ins[2]) == Some(MemCtrl::Read) {
                    read_value(self.state->Bytes_0, ins[1] as int, ins[3] as int, ins[4] != 0, big_endian) as Signal
                } else {
                    outs[0]
                },
                misaligned(ins[1] as int, ins[3] as int),
            ],
            Kind::RegFile => seq![
                reg_read(regs_after(self.state->regs, ins), ins[0] as int),
                reg_read(regs_after(self.state->regs, ins), ins[1] as int),
            ],
            Kind::Probe | Kind::ProbeOut | Kind::Wire => outs,
        }
    }

    /// The component after a cycle with the input values `ins`.
    pub open spec fn next(self, ins: Seq<Signal>) -> ComponentView {
        match self.kind {
            Kind::Mem { big_endian } => if MemCtrl::of(ins[2]) == Some(MemCtrl::Write) {
                ComponentView {
                    state: State::Bytes(written(self.state->Bytes_0, ins[1] as int, ins[3] as int, big_endian, ins[0])),
                    ..self
                }
            } else {
                self
            },
            Kind::RegFile => ComponentView {
                state: State::Registers {
                    regs: regs_after(self.state->regs, ins),
                    history: self.state->history.push(reg_entry(self.state->regs, ins)),
                },
                ..self
            },
            _ => self,
        }
    }

    /// Whether the component can step back: a register file needs a cycle
    /// to take back.
    pub open spec fn can_un_clock(self) -> bool {
        self.kind is RegFile ==> self.state->history.len() > 0
    }

    /// The component after stepping back one cycle. A register file takes
    /// back its last write; a memory keeps what was written.
    pub open spec fn un_clocked(self) -> ComponentView {
        match self.kind {
            Kind::RegFile => ComponentView {
                state: State::Registers {
                    regs: regs_restored(self.state->regs, self.state->history.last()),
                    history: self.state->history.drop_last(),
                },
                ..self
            },
            _ => self,
        }
    }
}

/// What a component's `clock` does to it and to its outputs: on a fault it
/// reports the fault and changes nothing.
pub open spec fn clocks(
    before: ComponentView,
    after: ComponentView,
    ins: Seq<Signal>,
    outs_before: Seq<Signal>,
    outs_after: Seq<Signal>,
    result: Result<(), Fault>,
) -> bool {
    match before.fault(ins) {
        Some(fault) => result == Err::<(), Fault>(fault) && after == before && outs_after == outs_before,
        None => result is Ok && after == before.next(ins) && outs_after == before.outputs(ins, outs_before),
    }
}

} // verus!
