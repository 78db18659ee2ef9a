//! Laws that hold of the components and of the simulator, for all inputs.

use vstd::prelude::*;
use vstd::arithmetic::div_mod::{lemma_breakdown, lemma_small_mod};
use vstd::arithmetic::power2::{lemma2_to64, lemma_pow2_pos, lemma_pow2_strictly_increases, lemma_pow2_unfold, pow2};
use vstd::bits::lemma_u64_shl_is_mul;
use crate::common::Signal;
use crate::components::mem::{byte_at, bytes_from, data_byte, number_of, read_value, span, stored_byte, unsigned_value, written};
use crate::components::reg_file::{reg_read, regs_after};
use crate::components::sext::{low_bits, sext_fits, sext_negative, sext_value};
use crate::model::ComponentView;
use crate::simulator::{lemma_clocked_wf, lemma_scheduled, SimView};

verus! {

/// Register 0 of a register file reads 0 in every cycle, whatever the
/// registers hold and whatever the cycle writes.
pub proof fn lemma_register_zero_reads_zero(file: ComponentView, ins: Seq<Signal>, outs: Seq<Signal>)
    requires
        file.kind is RegFile,
    ensures
        reg_read(regs_after(file.state->regs, ins), 0) == 0,
        ins[0] == 0 ==> file.outputs(ins, outs)[0] == 0,
        ins[1] == 0 ==> file.outputs(ins, outs)[1] == 0,
{
}

/// A register written and read in one cycle reads as written, unless it is
/// register 0.
pub proof fn lemma_register_write_before_read(file: ComponentView, ins: Seq<Signal>, outs: Seq<Signal>)
    requires
        file.wf(),
        file.kind is RegFile,
        ins[4] != 0,
        0 < ins[3] < 32,
    ensures
        ins[0] == ins[3] ==> file.outputs(ins, outs)[0] == ins[2],
        ins[1] == ins[3] ==> file.outputs(ins, outs)[1] == ins[2],
{
}

/// The bytes of a write lie in memory as the write put them.
pub proof fn lemma_written_bytes(bytes: Map<u64, u8>, addr: int, size: int, big_endian: bool, data: Signal, i: int)
    requires
        0 <= addr,
        addr + size - 1 <= u64::MAX,
        0 <= i < size,
    ensures
        byte_at(written(bytes, addr, size, big_endian, data), addr + i) == stored_byte(data, size, big_endian, i),
{
}

/// The low `size` bytes of `data`, most significant first, are the digits
/// of `data` modulo 256 to the power `size`.
pub proof fn lemma_number_of_data(data: Signal, size: int)
    requires
        0 <= size,
    ensures
        number_of(Seq::new(size as nat, |i: int| data_byte(data, size - 1 - i))) == (data as int) % span(size),
        span(size) > 0,
    decreases size,
{
    let digits = Seq::new(size as nat, |i: int| data_byte(data, size - 1 - i));
    if size > 0 {
        let high = (data / 256) as Signal;
        let rest = Seq::new((size - 1) as nat, |i: int| data_byte(high, size - 2 - i));
        lemma_number_of_data(high, size - 1);
        assert(digits.drop_last() =~= rest) by {
            assert forall|i: int| 0 <= i < size - 1 implies digits.drop_last()[i] == rest[i] by {
                assert(data_byte(data, size - 1 - i) == data_byte(high, size - 2 - i));
            }
        }
        assert(digits.last() == data_byte(data, 0));
        let m = span(size - 1);
        let d = data as int;
        assert(high == d / 256);
        lemma_breakdown(d, 256, m);
    }
}

/// The mask of the low `size` bytes of a signal.
pub open spec fn size_mask(size: int) -> Signal {
    if size == 1 {
        0xff
    } else if size == 2 {
        0xffff
    } else {
        0xffff_ffff
    }
}

/// A write of the value `data` of `size` bytes, followed by an unsigned
/// read of the same size at the same address, returns `data` masked to
/// `size` bytes, in either byte order and at any address, aligned or not.
pub proof fn lemma_write_then_read(bytes: Map<u64, u8>, addr: int, size: int, big_endian: bool, data: Signal)
    requires
        0 <= addr,
        addr + size - 1 <= u64::MAX,
        size == 1 || size == 2 || size == 4,
    ensures
        read_value(written(bytes, addr, size, big_endian, data), addr, size, false, big_endian) == data & size_mask(
            size,
        ),
{
    let after = written(bytes, addr, size, big_endian, data);
    let read = bytes_from(after, addr, size);
    let digits = Seq::new(size as nat, |i: int| data_byte(data, size - 1 - i));
    lemma_number_of_data(data, size);
    assert forall|i: int| 0 <= i < size implies read[i] == stored_byte(data, size, big_endian, i) by {
        lemma_written_bytes(bytes, addr, size, big_endian, data, i);
    }
    if big_endian {
        assert(read =~= digits);
    } else {
        assert(read.reverse() =~= digits);
    }
    assert(unsigned_value(read, big_endian) == number_of(digits));
    assert(span(1) == 0x100 && span(2) == 0x1_0000 && span(4) == 0x1_0000_0000) by {
        reveal_with_fuel(span, 5);
    }
    assert(data % 0x100 == data & 0xff) by (bit_vector);
    assert(data % 0x1_0000 == data & 0xffff) by (bit_vector);
    assert(data == data & 0xffff_ffff) by (bit_vector);
}

/// `s` after `n` cycles.
pub open spec fn clocked_times(s: SimView, n: nat) -> SimView
    decreases n,
{
    if n == 0 {
        s
    } else {
        clocked_times(s, (n - 1) as nat).clocked()
    }
}

/// `s` after `n` steps back.
pub open spec fn un_clocked_times(s: SimView, n: nat) -> SimView
    decreases n,
{
    if n == 0 {
        s
    } else {
        un_clocked_times(s.un_clocked(), (n - 1) as nat)
    }
}

/// `s` with what its memories hold taken from `t`. A memory keeps no
/// history: a step back leaves its bytes as the cycles wrote them.
pub open spec fn with_bytes_of(s: SimView, t: SimView) -> SimView {
    SimView {
        components: Seq::new(
            s.components.len(),
            |c: int|
                if s.components[c].kind is Mem {
                    ComponentView { state: t.components[c].state, ..s.components[c] }
                } else {
                    s.components[c]
                },
        ),
        ..s
    }
}

/// Whether the model has a memory.
pub open spec fn has_memory(s: SimView) -> bool {
    exists|c: int| 0 <= c < s.components.len() && (#[trigger] s.components[c]).kind is Mem
}

/// A cycle followed by a step back gives the simulation before the cycle:
/// the same signals, the same history, and the same state of every
/// component but for the bytes that memories wrote.
pub proof fn lemma_clock_then_un_clock(s: SimView)
    requires
        s.wf(),
    ensures
        s.clocked().un_clocked() == with_bytes_of(s, s.clocked()),
        !has_memory(s) ==> s.clocked().un_clocked() == s,
{
    let t = s.clocked();
    let u = t.un_clocked();
    let v = with_bytes_of(s, t);
    assert(u.history =~= s.history);
    assert forall|c: int| 0 <= c < s.components.len() implies u.components[c] == v.components[c] by {
        lemma_scheduled(s, c);
        assert(s.components[c].wf());
        let before = s.components[c];
        let after = before.next(s.inputs_of(c));
        if before.kind is RegFile {
            assert(after.un_clocked().state->regs =~= before.state->regs);
            assert(after.un_clocked().state->history =~= before.state->history);
        }
    }
    assert(u.components =~= v.components);
    if !has_memory(s) {
        assert(v.components =~= s.components);
    }
}

/// `n` cycles leave a consistent simulation consistent.
pub proof fn lemma_clocked_times_wf(s: SimView, n: nat)
    requires
        s.wf(),
    ensures
        clocked_times(s, n).wf(),
        clocked_times(s, n).components.len() == s.components.len(),
        forall|c: int| 0 <= c < s.components.len() ==> (#[trigger] clocked_times(s, n).components[c]).kind == s.components[c].kind,
    decreases n,
{
    if n > 0 {
        lemma_clocked_times_wf(s, (n - 1) as nat);
        lemma_clocked_wf(clocked_times(s, (n - 1) as nat));
    }
}

/// Steps back do not look at what memories hold.
proof fn lemma_un_clocked_times_bytes(s: SimView, t: SimView, n: nat)
    requires
        s.components.len() == t.components.len(),
    ensures
        un_clocked_times(with_bytes_of(s, t), n) == with_bytes_of(un_clocked_times(s, n), t),
    decreases n,
{
    if n > 0 {
        assert(with_bytes_of(s, t).un_clocked().components =~= with_bytes_of(s.un_clocked(), t).components);
        assert(with_bytes_of(s, t).un_clocked() == with_bytes_of(s.un_clocked(), t));
        lemma_un_clocked_times_bytes(s.un_clocked(), t, (n - 1) as nat);
    }
}

/// `n` cycles followed by `n` steps back give the simulation before the
/// cycles: the same signals, the same history, and the same state of every
/// component but for the bytes that memories wrote. Of a model without
/// memory nothing at all has changed.
pub proof fn lemma_clocks_then_un_clocks(s: SimView, n: nat)
    requires
        s.wf(),
    ensures
        un_clocked_times(clocked_times(s, n), n) == with_bytes_of(s, clocked_times(s, n)),
        un_clocked_times(clocked_times(s, n), n).signals == s.signals,
        un_clocked_times(clocked_times(s, n), n).history == s.history,
        !has_memory(s) ==> un_clocked_times(clocked_times(s, n), n) == s,
    decreases n,
{
    let t = clocked_times(s, n);
    if n == 0 {
        assert(with_bytes_of(s, s).components =~= s.components);
    } else {
        let m = (n - 1) as nat;
        let before = clocked_times(s, m);
        lemma_clocked_times_wf(s, m);
        lemma_clock_then_un_clock(before);
        lemma_un_clocked_times_bytes(before, t, m);
        lemma_clocks_then_un_clocks(s, m);
        assert(with_bytes_of(with_bytes_of(s, before), t).components =~= with_bytes_of(s, t).components);
    }
    if !has_memory(s) {
        assert(with_bytes_of(s, t).components =~= s.components);
    }
}

/// `value`, of which the low `bits` bits count, read as a number in two's
/// complement.
pub open spec fn signed_value(value: Signal, bits: nat) -> int {
    let low = (value as int) % (pow2(bits) as int);
    if 2 * low >= pow2(bits) {
        low - pow2(bits)
    } else {
        low
    }
}

/// For widths up to 32, a shift of 1 is a power of 2.
proof fn lemma_shift_is_pow2(k: u64)
    requires
        k <= 32,
    ensures
        (1u64 << k) == pow2(k as nat),
        1 <= pow2(k as nat) <= 0x1_0000_0000,
        k == 32 ==> pow2(k as nat) == 0x1_0000_0000,
{
    lemma2_to64();
    lemma_pow2_pos(k as nat);
    if k < 32 {
        lemma_pow2_strictly_increases(k as nat, 32);
    }
    lemma_u64_shl_is_mul(1, k);
}

/// What sign extension does, in numbers: to a value with its sign bit set
/// it adds the weights of the bits from `in_size` up to `out_size`.
proof fn lemma_sext_in_numbers(value: Signal, in_size: u8, out_size: u8)
    requires
        1 <= in_size <= out_size <= 32,
        value < pow2(in_size as nat),
    ensures
        sext_fits(value, in_size),
        sext_negative(value, in_size) <==> value >= pow2((in_size - 1) as nat),
        sext_negative(value, in_size) ==> sext_value(value, in_size, out_size) == value + pow2(out_size as nat) - pow2(
            in_size as nat,
        ),
        !sext_negative(value, in_size) ==> sext_value(value, in_size, out_size) == value,
{
    let v: u64 = value as u64;
    let i: u64 = in_size as u64;
    let o: u64 = out_size as u64;
    let below: u64 = (in_size - 1) as u64;
    lemma_shift_is_pow2(i);
    lemma_shift_is_pow2(o);
    lemma_shift_is_pow2(below);
    let wi: u64 = 1u64 << i;
    let wo: u64 = 1u64 << o;
    let wb: u64 = 1u64 << below;
    assert(low_bits(in_size) == (wi - 1) as u64);
    assert(low_bits(out_size) == (wo - 1) as u64);
    let li: u64 = low_bits(in_size);
    let lo: u64 = low_bits(out_size);
    assert(((v >> below) & 1 == 1) <==> v >= wb) by (bit_vector)
        requires
            1 <= i <= 32,
            below == i - 1,
            wb == 1u64 << below,
            v < (1u64 << i),
    ;
    assert(v >= wb ==> (v | (lo & !li)) == v + wo - wi) by (bit_vector)
        requires
            1 <= i <= o <= 32,
            below == i - 1,
            wb == 1u64 << below,
            wi == 1u64 << i,
            wo == 1u64 << o,
            li == wi - 1,
            lo == wo - 1,
            v < wi,
    ;
}

/// Sign extension keeps the number: the result, read as a number of
/// `out_size` bits in two's complement, is the input read as a number of
/// `in_size` bits.
pub proof fn lemma_sext_keeps_the_number(value: Signal, in_size: u8, out_size: u8)
    requires
        1 <= in_size <= out_size <= 32,
        value < pow2(in_size as nat),
    ensures
        sext_fits(value, in_size),
        signed_value(sext_value(value, in_size, out_size), out_size as nat) == signed_value(value, in_size as nat),
{
    lemma_sext_in_numbers(value, in_size, out_size);
    let wi = pow2(in_size as nat) as int;
    let wo = pow2(out_size as nat) as int;
    let wb = pow2((in_size - 1) as nat) as int;
    lemma_shift_is_pow2(in_size as u64);
    lemma_shift_is_pow2(out_size as u64);
    lemma_pow2_unfold(in_size as nat);
    lemma_pow2_unfold(out_size as nat);
    lemma_pow2_pos((in_size - 1) as nat);
    if in_size < out_size {
        lemma_pow2_strictly_increases(in_size as nat, out_size as nat);
        lemma_pow2_strictly_increases((in_size - 1) as nat, (out_size - 1) as nat);
    }
    assert(wi == 2 * wb);
    assert(wi <= wo);
    let extended = sext_value(value, in_size, out_size);
    lemma_small_mod(value as nat, wi as nat);
    lemma_small_mod(extended as nat, wo as nat);
}

} // verus!
