//! Sign extension.

use vstd::prelude::*;
use crate::common::{Fault, Id, Input, OutputType, Ports, Signal};
use crate::model::{clocks, ComponentView, Kind, State};

verus! {

/// Whether `value` is a number of `in_size` bits: below 2 to the power
/// `in_size`.
pub open spec fn sext_fits(value: Signal, in_size: u8) -> bool {
    in_size >= 32 || (value as u64) < (1u64 << (in_size as u64))
}

/// The `n` lowest of 32 bits, set.
pub open spec fn low_bits(n: u8) -> u64 {
    if n >= 32 {
        0xffff_ffff
    } else {
        ((1u64 << (n as u64)) - 1) as u64
    }
}

/// Whether bit `in_size - 1` of `value`, the sign of a number of `in_size`
/// bits, is set.
pub open spec fn sext_negative(value: Signal, in_size: u8) -> bool {
    1 <= in_size <= 32 && ((value as u64) >> ((in_size - 1) as u64)) & 1 == 1
}

/// `value` with the bits from `in_size` up to, not including, `out_size`
/// set if its sign bit is set, and as it is otherwise. Bits from 32 up do
/// not exist.
pub open spec fn sext_value(value: Signal, in_size: u8, out_size: u8) -> Signal {
    if sext_negative(value, in_size) {
        ((value as u64) | (low_bits(out_size) & !low_bits(in_size))) as Signal
    } else {
        value
    }
}

/// Drives on its output `out` the input, a number of `in_size` bits,
/// extended by its sign to `out_size` bits.
#[derive(Debug)]
pub struct Sext {
    pub id: Id,
    pub sext_in: Input,
    pub in_size: u8,
    pub out_size: u8,
}

impl View for Sext {
    type V = ComponentView;

    open spec fn view(&self) -> ComponentView {
        ComponentView {
            id: self.id@,
            kind: Kind::Sext { in_size: self.in_size, out_size: self.out_size },
            inputs: seq![self.sext_in@],
            state: State::Stateless,
        }
    }
}

/// The `n` lowest of 32 bits, set.
fn mask(n: u8) -> (m: u64)
    ensures
        m == low_bits(n),
        m <= 0xffff_ffff,
{
    if n >= 32 {
        0xffff_ffff
    } else {
        let n: u64 = n as u64;
        assert(1 <= (1u64 << n) <= 0x8000_0000) by (bit_vector)
            requires
                n < 32,
        ;
        (1u64 << n) - 1
    }
}

impl Sext {
    pub fn new(id: &str, sext_in: Input, in_size: u8, out_size: u8) -> (c: Sext)
        ensures
            c.id@ == id@,
            c.sext_in == sext_in,
            c.in_size == in_size,
            c.out_size == out_size,
    {
        Sext { id: id.to_owned(), sext_in, in_size, out_size }
    }

    /// The id and the ports: the input `sext_in`, the output `out`.
    pub fn get_id_ports(&self) -> (r: (Id, Ports))
        ensures
            r.0@ == self@.id,
            r.1@ == self@.ports(),
    {
        let ports = Ports {
            inputs: vec![self.sext_in.duplicate()],
            out_type: OutputType::Combinatorial,
            outputs: vec!["out".to_owned()],
        };
        assert(ports@.inputs =~= self@.ports().inputs);
        assert(ports@.outputs =~= self@.ports().outputs);
        (self.id.clone(), ports)
    }

    /// Extends the sign of the input value. The fault
    /// `Fault::SextInputTooLarge` comes when the value is 2 to the power
    /// `in_size` or more.
    pub fn clock(&self, ins: &Vec<Signal>, outs: &mut Vec<Signal>) -> (r: Result<(), Fault>)
        requires
            ins@.len() == 1,
            old(outs)@.len() == 1,
        ensures
            clocks(self@, self@, ins@, old(outs)@, final(outs)@, r),
    {
        let value: u64 = ins[0] as u64;
        if self.in_size < 32 && value >= (1u64 << (self.in_size as u64)) {
            return Err(Fault::SextInputTooLarge);
        }
        let negative: bool = 1 <= self.in_size && self.in_size <= 32 && (value >> ((self.in_size - 1) as u64)) & 1 == 1;
        let extended: Signal = if negative {
            let high: u64 = mask(self.out_size) & !mask(self.in_size);
            let low_in: u64 = mask(self.in_size);
            let low_out: u64 = mask(self.out_size);
            assert(value | (low_out & !low_in) <= 0xffff_ffff) by (bit_vector)
                requires
                    value <= 0xffff_ffff,
                    low_out <= 0xffff_ffff,
            ;
            (value | high) as Signal
        } else {
            ins[0]
        };
        outs.set(0, extended);
        assert(outs@ =~= seq![extended]);
        Ok(())
    }
}

} // verus!
