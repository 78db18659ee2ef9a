//! A byte-addressable memory with selectable endianness, access size and
//! sign extension.

use std::collections::HashMap;
use vstd::prelude::*;
use vstd::std_specs::hash::*;
use crate::common::{Fault, Id, Input, OutputType, Ports, Signal};
use crate::model::{clocks, ComponentView, Kind, State};

verus! {

broadcast use vstd::std_specs::hash::group_hash_axioms;

/// The byte stored at `addr`: bytes that were never written read as 0.
pub open spec fn byte_at(bytes: Map<u64, u8>, addr: int) -> u8 {
    if 0 <= addr <= u64::MAX && bytes.dom().contains(addr as u64) {
        bytes[addr as u64]
    } else {
        0
    }
}

/// The `size` bytes that start at `addr`, lowest address first.
pub open spec fn bytes_from(bytes: Map<u64, u8>, addr: int, size: int) -> Seq<u8> {
    Seq::new(size as nat, |i: int| byte_at(bytes, addr + i))
}

/// The number whose digits to base 256 are `digits`, most significant
/// first.
pub open spec fn number_of(digits: Seq<u8>) -> int
    decreases digits.len(),
{
    if digits.len() == 0 {
        0
    } else {
        256 * number_of(digits.drop_last()) + digits.last()
    }
}

/// 256 to the power `size`: the number of values of `size` bytes.
pub open spec fn span(size: int) -> int
    decreases size,
{
    if size <= 0 {
        1
    } else {
        256 * span(size - 1)
    }
}

/// The bytes `digits` as they lie in memory, read as one unsigned number.
pub open spec fn unsigned_value(digits: Seq<u8>, big_endian: bool) -> int {
    if big_endian {
        number_of(digits)
    } else {
        number_of(digits.reverse())
    }
}

/// The 32-bit pattern of the two's-complement number that the unsigned
/// `value` of `size` bytes stands for.
pub open spec fn sign_extended(value: int, size: int) -> int {
    if 2 * value >= span(size) {
        value + span(4) - span(size)
    } else {
        value
    }
}

/// What a read of `size` bytes at `addr` returns.
pub open spec fn read_value(bytes: Map<u64, u8>, addr: int, size: int, sign: bool, big_endian: bool) -> int {
    let value = unsigned_value(bytes_from(bytes, addr, size), big_endian);
    if sign {
        sign_extended(value, size)
    } else {
        value
    }
}

/// Byte `k` of `data`, counted from the least significant byte.
pub open spec fn data_byte(data: Signal, k: int) -> u8
    decreases k,
{
    if k <= 0 {
        (data % 256) as u8
    } else {
        data_byte(data / 256, k - 1)
    }
}

/// The byte of `data` that a write of `size` bytes stores at offset `i`.
pub open spec fn stored_byte(data: Signal, size: int, big_endian: bool, i: int) -> u8 {
    if big_endian {
        data_byte(data, size - 1 - i)
    } else {
        data_byte(data, i)
    }
}

/// The memory after a write of the low `size` bytes of `data` at `addr`.
pub open spec fn written(bytes: Map<u64, u8>, addr: int, size: int, big_endian: bool, data: Signal) -> Map<u64, u8> {
    Map::new(
        |a: u64| bytes.dom().contains(a) || addr <= a < addr + size,
        |a: u64|
            if addr <= a < addr + size {
                stored_byte(data, size, big_endian, a - addr)
            } else {
                bytes[a]
            },
    )
}

/// The alignment flag of an access: 1 when `addr` is no multiple of `size`.
/// A size of 0 is never misaligned.
pub open spec fn misaligned(addr: int, size: int) -> Signal {
    if size != 0 && addr % size != 0 {
        1
    } else {
        0
    }
}

/// The bytes of a memory, by address.
#[derive(Debug)]
pub struct Memory {
    pub bytes: HashMap<u64, u8>,
}

impl View for Memory {
    type V = Map<u64, u8>;

    open spec fn view(&self) -> Map<u64, u8> {
        self.bytes@
    }
}

impl Default for Memory {
    fn default() -> (memory: Memory)
        ensures
            memory@ == Map::<u64, u8>::empty(),
    {
        Memory::new()
    }
}

impl Memory {
    /// A memory in which every byte is 0.
    pub fn new() -> (memory: Memory)
        ensures
            memory@ == Map::<u64, u8>::empty(),
    {
        Memory { bytes: HashMap::new() }
    }

    /// 1 when `addr` is no multiple of `size`, else 0.
    pub fn align(&self, addr: usize, size: usize) -> (err: Signal)
        requires
            size != 0,
        ensures
            err == misaligned(addr as int, size as int),
    {
        if addr % size != 0 {
            1
        } else {
            0
        }
    }

    /// The byte at `addr`.
    pub fn byte(&self, addr: u64) -> (b: u8)
        ensures
            b == byte_at(self@, addr as int),
    {
        match self.bytes.get(&addr) {
            Some(b) => *b,
            None => 0,
        }
    }

    /// Reads `size` bytes at `addr` as one number, the byte at `addr` most
    /// significant if `big_endian`, and sign-extends it to 32 bits if
    /// `sign`.
    pub fn read(&self, addr: usize, size: usize, sign: bool, big_endian: bool) -> (value: Signal)
        requires
            size == 1 || size == 2 || size == 4,
            addr + size - 1 <= u64::MAX,
        ensures
            value == read_value(self@, addr as int, size as int, sign, big_endian),
    {
        let ghost digits = bytes_from(self@, addr as int, size as int);
        let base: u64 = addr as u64;
        if size == 1 {
            let b0: u32 = self.byte(base) as u32;
            proof {
                lemma_number_of_one(digits);
                lemma_number_of_one(digits.reverse());
                reveal_with_fuel(span, 5);
            }
            if sign && b0 >= 0x80 {
                b0 + 0xffff_ff00
            } else {
                b0
            }
        } else if size == 2 {
            let b0: u32 = self.byte(base) as u32;
            let b1: u32 = self.byte(base + 1) as u32;
            let value: u32 = if big_endian {
                256 * b0 + b1
            } else {
                256 * b1 + b0
            };
            proof {
                lemma_number_of_two(digits);
                lemma_number_of_two(digits.reverse());
                reveal_with_fuel(span, 5);
            }
            if sign && value >= 0x8000 {
                value + 0xffff_0000
            } else {
                value
            }
        } else {
            let b0: u32 = self.byte(base) as u32;
            let b1: u32 = self.byte(base + 1) as u32;
            let b2: u32 = self.byte(base + 2) as u32;
            let b3: u32 = self.byte(base + 3) as u32;
            proof {
                lemma_number_of_four(digits);
                lemma_number_of_four(digits.reverse());
                reveal_with_fuel(span, 5);
            }
            if big_endian {
                256 * (256 * (256 * b0 + b1) + b2) + b3
            } else {
                256 * (256 * (256 * b3 + b2) + b1) + b0
            }
        }
    }

    /// Stores the low `size` bytes of `data` at `addr`, the most
    /// significant of them first if `big_endian`.
    pub fn write(&mut self, addr: usize, size: usize, big_endian: bool, data: Signal)
        requires
            size == 1 || size == 2 || size == 4,
            addr + size - 1 <= u64::MAX,
        ensures
            final(self)@ == written(old(self)@, addr as int, size as int, big_endian, data),
    {
        let base: u64 = addr as u64;
        let d0: u8 = (data % 256) as u8;
        let d1: u8 = (data / 0x100 % 256) as u8;
        let d2: u8 = (data / 0x1_0000 % 256) as u8;
        let d3: u8 = (data / 0x100_0000 % 256) as u8;
        proof {
            reveal_with_fuel(data_byte, 5);
            assert(d0 == data_byte(data, 0));
            assert(d1 == data_byte(data, 1));
            assert(data / 256 / 256 == data / 0x1_0000);
            assert(d2 == data_byte(data, 2));
            assert(data / 256 / 256 / 256 == data / 0x100_0000);
            assert(d3 == data_byte(data, 3));
        }
        if size == 1 {
            self.bytes.insert(base, d0);
        } else if size == 2 {
            if big_endian {
                self.bytes.insert(base, d1);
                self.bytes.insert(base + 1, d0);
            } else {
                self.bytes.insert(base, d0);
                self.bytes.insert(base + 1, d1);
            }
        } else {
            if big_endian {
                self.bytes.insert(base, d3);
                self.bytes.insert(base + 1, d2);
                self.bytes.insert(base + 2, d1);
                self.bytes.insert(base + 3, d0);
            } else {
                self.bytes.insert(base, d0);
                self.bytes.insert(base + 1, d1);
                self.bytes.insert(base + 2, d2);
                self.bytes.insert(base + 3, d3);
            }
        }
        assert(self@ =~= written(old(self)@, addr as int, size as int, big_endian, data));
    }
}

/// The codes of the control input of a memory.
#[derive(Clone, Copy, Debug, PartialEq, Eq, Structural)]
pub enum MemCtrl {
    /// No access.
    Idle,
    /// Read at the address.
    Read,
    /// Write the data at the address.
    Write,
}

impl MemCtrl {
    /// The access that the control value `code` asks for: 0 none, 1 a read,
    /// 2 a write. Any other value asks for nothing that a memory can do.
    pub open spec fn of(code: Signal) -> Option<MemCtrl> {
        if code == 0 {
            Some(MemCtrl::Idle)
        } else if code == 1 {
            Some(MemCtrl::Read)
        } else if code == 2 {
            Some(MemCtrl::Write)
        } else {
            None
        }
    }

    /// The access that the control value `code` asks for.
    pub fn try_from_signal(code: Signal) -> (ctrl: Option<MemCtrl>)
        ensures
            ctrl == MemCtrl::of(code),
    {
        if code == 0 {
            Some(MemCtrl::Idle)
        } else if code == 1 {
            Some(MemCtrl::Read)
        } else if code == 2 {
            Some(MemCtrl::Write)
        } else {
            None
        }
    }

    /// The control value that asks for this access.
    pub fn signal(self) -> (code: Signal)
        ensures
            MemCtrl::of(code) == Some(self),
    {
        match self {
            MemCtrl::Idle => 0,
            MemCtrl::Read => 1,
            MemCtrl::Write => 2,
        }
    }
}

/// A memory component. Its inputs are the data to write, the address, the
/// control code, the access size in bytes and the sign flag of a read; its
/// outputs are `data`, what the last read returned, and `err`, the
/// alignment flag of the cycle's address and size.
#[derive(Debug)]
pub struct Mem {
    pub id: Id,
    /// Whether a number's most significant byte lies at its lowest
    /// address.
    pub big_endian: bool,
    pub data: Input,
    pub addr: Input,
    pub ctrl: Input,
    pub sign: Input,
    pub size: Input,
    pub memory: Memory,
}

impl View for Mem {
    type V = ComponentView;

    open spec fn view(&self) -> ComponentView {
        ComponentView {
            id: self.id@,
            kind: Kind::Mem { big_endian: self.big_endian },
            inputs: seq![self.data@, self.addr@, self.ctrl@, self.size@, self.sign@],
            state: State::Bytes(self.memory@),
        }
    }
}

impl Mem {
    /// The id and the ports: the inputs `data`, `addr`, `ctrl`, `size` and
    /// `sign`; the outputs `data` and `err`.
    pub fn get_id_ports(&self) -> (r: (Id, Ports))
        ensures
            r.0@ == self@.id,
            r.1@ == self@.ports(),
    {
        let ports = Ports {
            inputs: vec![
                self.data.duplicate(),
                self.addr.duplicate(),
                self.ctrl.duplicate(),
                self.size.duplicate(),
                self.sign.duplicate(),
            ],
            out_type: OutputType::Combinatorial,
            outputs: vec!["data".to_owned(), "err".to_owned()],
        };
        assert(ports@.inputs =~= self@.ports().inputs);
        assert(ports@.outputs =~= self@.ports().outputs);
        (self.id.clone(), ports)
    }

    /// What `clock` would drive, without writing to the memory.
    pub fn peek(&self, ins: &Vec<Signal>, outs: &mut Vec<Signal>) -> (r: Result<(), Fault>)
        requires
            ins@.len() == 5,
            old(outs)@.len() == 2,
        ensures
            match self@.fault(ins@) {
                Some(fault) => r == Err::<(), Fault>(fault) && final(outs)@ == old(outs)@,
                None => r is Ok && final(outs)@ == self@.outputs(ins@, old(outs)@),
            },
    {
        let addr: usize = ins[1] as usize;
        let size: usize = ins[3] as usize;
        let sign: bool = ins[4] != 0;
        match MemCtrl::try_from_signal(ins[2]) {
            None => Err(Fault::IllegalMemCtrl),
            Some(MemCtrl::Idle) => {
                let err: Signal = if size != 0 {
                    self.memory.align(addr, size)
                } else {
                    0
                };
                outs.set(1, err);
                assert(outs@ =~= self@.outputs(ins@, old(outs)@));
                Ok(())
            },
            Some(ctrl) => {
                if size != 1 && size != 2 && size != 4 {
                    return Err(Fault::IllegalMemSize);
                }
                match ctrl {
                    MemCtrl::Read => {
                        let value: Signal = self.memory.read(addr, size, sign, self.big_endian);
                        outs.set(0, value);
                    },
                    _ => {},
                }
                let err: Signal = self.memory.align(addr, size);
                outs.set(1, err);
                assert(outs@ =~= self@.outputs(ins@, old(outs)@));
                Ok(())
            },
        }
    }

    /// Runs one cycle: decodes the control code; a read drives `data` with
    /// what the memory holds at the address, a write stores the data
    /// there; `err` tells whether the address is a multiple of the size.
    /// The fault `Fault::IllegalMemCtrl` comes for a control code above 2,
    /// `Fault::IllegalMemSize` for a read or write of other than 1, 2 or 4
    /// bytes.
    pub fn clock(&mut self, ins: &Vec<Signal>, outs: &mut Vec<Signal>) -> (r: Result<(), Fault>)
        requires
            ins@.len() == 5,
            old(outs)@.len() == 2,
        ensures
            clocks(old(self)@, final(self)@, ins@, old(outs)@, final(outs)@, r),
    {
        match self.peek(ins, outs) {
            Err(fault) => Err(fault),
            Ok(()) => {
                if ins[2] == 2 {
                    self.memory.write(ins[1] as usize, ins[3] as usize, self.big_endian, ins[0]);
                }
                Ok(())
            },
        }
    }
}

/// A read of one byte: the number of a single digit is that digit.
proof fn lemma_number_of_one(digits: Seq<u8>)
    requires
        digits.len() == 1,
    ensures
        number_of(digits) == digits[0],
{
    reveal_with_fuel(number_of, 2);
}

proof fn lemma_number_of_two(digits: Seq<u8>)
    requires
        digits.len() == 2,
    ensures
        number_of(digits) == 256 * digits[0] + digits[1],
{
    lemma_number_of_one(digits.drop_last());
}

proof fn lemma_number_of_four(digits: Seq<u8>)
    requires
        digits.len() == 4,
    ensures
        number_of(digits) == 256 * (256 * (256 * digits[0] + digits[1]) + digits[2]) + digits[3],
{
    lemma_number_of_two(digits.drop_last().drop_last());
    assert(digits.drop_last().last() == digits[2]);
    assert(digits.drop_last().drop_last().len() == 2);
    assert(number_of(digits.drop_last()) == 256 * number_of(digits.drop_last().drop_last()) + digits[2]);
}

} // verus!
