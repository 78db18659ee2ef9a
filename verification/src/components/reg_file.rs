//! A register file of 32 registers, of which register 0 always reads 0.

use vstd::prelude::*;
use crate::common::{Fault, Id, Input, OutputType, Ports, Signal};
use crate::model::{clocks, ComponentView, Kind, State};

verus! {

/// The fault of a cycle with the input values `ins`: a read address, or
/// the write address of an enabled write, that names no register.
pub open spec fn reg_fault(ins: Seq<Signal>) -> Option<Fault> {
    if ins[0] >= 32 || ins[1] >= 32 || (ins[4] != 0 && ins[3] >= 32) {
        Some(Fault::RegisterOutOfRange)
    } else {
        None
    }
}

/// Whether the cycle writes: the write is enabled and goes to a register
/// other than register 0.
pub open spec fn reg_writes(ins: Seq<Signal>) -> bool {
    ins[4] != 0 && 0 < ins[3] < 32
}

/// The registers after the cycle's write.
pub open spec fn regs_after(regs: Seq<Signal>, ins: Seq<Signal>) -> Seq<Signal> {
    if reg_writes(ins) {
        regs.update(ins[3] as int, ins[2])
    } else {
        regs
    }
}

/// What the cycle records: the register that it overwrites and the value
/// that the register held.
pub open spec fn reg_entry(regs: Seq<Signal>, ins: Seq<Signal>) -> Option<(int, Signal)> {
    if reg_writes(ins) {
        Some((ins[3] as int, regs[ins[3] as int]))
    } else {
        None
    }
}

/// The registers with the recorded write taken back.
pub open spec fn regs_restored(regs: Seq<Signal>, entry: Option<(int, Signal)>) -> Seq<Signal> {
    match entry {
        Some((addr, old_data)) => if 0 <= addr < regs.len() {
            regs.update(addr, old_data)
        } else {
            regs
        },
        None => regs,
    }
}

/// What a read of register `addr` returns: register 0 reads 0 whatever it
/// holds.
pub open spec fn reg_read(regs: Seq<Signal>, addr: int) -> Signal {
    if addr == 0 {
        0
    } else {
        regs[addr]
    }
}

/// The 32 registers.
#[derive(Debug)]
pub struct RegStore {
    pub regs: [Signal; 32],
}

impl RegStore {
    /// 32 registers that hold 0.
    pub fn new() -> (store: RegStore)
        ensures
            store.regs@ == Seq::new(32, |i: int| 0u32),
    {
        let store = RegStore { regs: [0u32; 32] };
        assert(store.regs@ =~= Seq::new(32, |i: int| 0u32));
        store
    }
}

/// One write that a cycle made: the register and the value that it held
/// before.
#[derive(Clone, Copy, Debug)]
pub struct RegOp {
    pub addr: u8,
    pub old_data: Signal,
}

/// What each cycle overwrote, most recent last.
#[derive(Debug)]
pub struct RegHistory {
    pub ops: Vec<Option<RegOp>>,
}

impl View for RegHistory {
    type V = Seq<Option<(int, Signal)>>;

    open spec fn view(&self) -> Seq<Option<(int, Signal)>> {
        Seq::new(
            self.ops@.len(),
            |i: int|
                match self.ops@[i] {
                    Some(op) => Some((op.addr as int, op.old_data)),
                    None => None,
                },
        )
    }
}

impl RegHistory {
    /// The history of a register file that has not run.
    pub fn new() -> (history: RegHistory)
        ensures
            history@ == Seq::<Option<(int, Signal)>>::empty(),
    {
        let history = RegHistory { ops: Vec::new() };
        assert(history@ =~= Seq::<Option<(int, Signal)>>::empty());
        history
    }
}

/// Drives on `reg_a` and `reg_b` the registers that `read_addr1` and
/// `read_addr2` name, after it has written `write_data` to the register that
/// `write_addr` names if `write_enable` is not 0.
#[derive(Debug)]
pub struct RegFile {
    pub id: Id,
    pub read_addr1: Input,
    pub read_addr2: Input,
    pub write_data: Input,
    pub write_addr: Input,
    pub write_enable: Input,
    pub registers: RegStore,
    pub history: RegHistory,
}

impl View for RegFile {
    type V = ComponentView;

    open spec fn view(&self) -> ComponentView {
        ComponentView {
            id: self.id@,
            kind: Kind::RegFile,
            inputs: seq![
                self.read_addr1@,
                self.read_addr2@,
                self.write_data@,
                self.write_addr@,
                self.write_enable@,
            ],
            state: State::Registers { regs: self.registers.regs@, history: self.history@ },
        }
    }
}

impl RegFile {
    /// The id and the ports: the inputs `read_addr1`, `read_addr2`,
    /// `write_data`, `write_addr` and `write_enable`; the outputs `reg_a`
    /// and `reg_b`.
    pub fn get_id_ports(&self) -> (r: (Id, Ports))
        ensures
            r.0@ == self@.id,
            r.1@ == self@.ports(),
    {
        let ports = Ports {
            inputs: vec![
                self.read_addr1.duplicate(),
                self.read_addr2.duplicate(),
                self.write_data.duplicate(),
                self.write_addr.duplicate(),
                self.write_enable.duplicate(),
            ],
            out_type: OutputType::Combinatorial,
            outputs: vec!["reg_a".to_owned(), "reg_b".to_owned()],
        };
        assert(ports@.inputs =~= self@.ports().inputs);
        assert(ports@.outputs =~= self@.ports().outputs);
        (self.id.clone(), ports)
    }

    /// What `clock` would drive, without writing. Register 0 reads 0; a
    /// register that this cycle writes reads as written.
    pub fn peek(&self, ins: &Vec<Signal>, outs: &mut Vec<Signal>) -> (r: Result<(), Fault>)
        requires
            ins@.len() == 5,
            old(outs)@.len() == 2,
        ensures
            match self@.fault(ins@) {
                Some(fault) => r == Err::<(), Fault>(fault) && final(outs)@ == old(outs)@,
                None => r is Ok && final(outs)@ == self@.outputs(ins@, old(outs)@),
            },
            r is Ok && ins@[0] == 0 ==> final(outs)@[0] == 0,
            r is Ok && ins@[1] == 0 ==> final(outs)@[1] == 0,
    {
        let writes: bool = ins[4] != 0;
        if ins[0] >= 32 || ins[1] >= 32 || (writes && ins[3] >= 32) {
            return Err(Fault::RegisterOutOfRange);
        }
        let reg_a: Signal = self.read_after(ins, ins[0] as usize);
        let reg_b: Signal = self.read_after(ins, ins[1] as usize);
        outs.set(0, reg_a);
        outs.set(1, reg_b);
        assert(outs@ =~= seq![reg_a, reg_b]);
        Ok(())
    }

    /// What register `addr` reads as once this cycle's write is done.
    fn read_after(&self, ins: &Vec<Signal>, addr: usize) -> (value: Signal)
        requires
            ins@.len() == 5,
            addr < 32,
            ins@[4] != 0 ==> ins@[3] < 32,
        ensures
            value == reg_read(regs_after(self.registers.regs@, ins@), addr as int),
    {
        if addr == 0 {
            0
        } else if ins[4] != 0 && ins[3] as usize == addr {
            ins[2]
        } else {
            self.registers.regs[addr]
        }
    }

    /// Writes, records what the write replaced, then reads: a register
    /// written and read in one cycle reads as written, but register 0 is
    /// never written and reads 0. The fault `Fault::RegisterOutOfRange`
    /// comes when an address names no register.
    pub fn clock(&mut self, ins: &Vec<Signal>, outs: &mut Vec<Signal>) -> (r: Result<(), Fault>)
        requires
            ins@.len() == 5,
            old(outs)@.len() == 2,
        ensures
            clocks(old(self)@, final(self)@, ins@, old(outs)@, final(outs)@, r),
            r is Ok && ins@[0] == 0 ==> final(outs)@[0] == 0,
            r is Ok && ins@[1] == 0 ==> final(outs)@[1] == 0,
    {
        match self.peek(ins, outs) {
            Err(fault) => Err(fault),
            Ok(()) => {
                let entry: Option<RegOp> = if ins[4] != 0 && ins[3] != 0 {
                    let addr: usize = ins[3] as usize;
                    let old_data: Signal = self.registers.regs[addr];
                    self.registers.regs[addr] = ins[2];
                    Some(RegOp { addr: ins[3] as u8, old_data })
                } else {
                    None
                };
                self.history.ops.push(entry);
                assert(self.history@ =~= old(self).history@.push(reg_entry(old(self).registers.regs@, ins@)));
                assert(self.registers.regs@ =~= regs_after(old(self).registers.regs@, ins@));
                Ok(())
            },
        }
    }

    /// Takes back the last cycle: the register that it wrote holds again
    /// what it held before.
    pub fn un_clock(&mut self)
        requires
            old(self)@.can_un_clock(),
        ensures
            final(self)@ == old(self)@.un_clocked(),
    {
        let entry: Option<Option<RegOp>> = self.history.ops.pop();
        match entry {
            Some(Some(op)) => {
                if (op.addr as usize) < 32 {
                    self.registers.regs[op.addr as usize] = op.old_data;
                }
            },
            _ => {},
        }
        assert(self.history@ =~= old(self).history@.drop_last());
        assert(self.registers.regs@ =~= regs_restored(old(self).registers.regs@, old(self).history@.last()));
    }
}

} // verus!
