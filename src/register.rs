//! A fault-injectable 64-bit register.
//!
//! A register stores the IEEE-754 binary64 bit pattern of a value together with
//! a fault descriptor. Writes store the raw pattern unchanged; every read applies
//! the fault to the pattern it hands out.
use vstd::prelude::*;

use crate::arith::FloatUnit;

verus! {

/// Number of bits of a register.
pub const REGISTER_BITS: usize = 64;

/// The fault that a register can carry.
#[derive(Clone, Copy, Debug, PartialEq, Eq, Structural)]
pub enum Damage {
    /// The bit at `bit_position` reads as 0.
    StuckAt0 { bit_position: usize },
    /// The bit at `bit_position` reads as 1.
    StuckAt1 { bit_position: usize },
    /// The bit at `bit_position` is inverted on reads made at `time_step` only.
    TransientBitFlip { bit_position: usize, time_step: usize },
    /// Every bit works.
    Working,
}

impl Damage {
    /// The fault names a bit of a 64-bit pattern.
    pub open spec fn wf(self) -> bool {
        match self {
            Damage::StuckAt0 { bit_position } => bit_position < 64,
            Damage::StuckAt1 { bit_position } => bit_position < 64,
            Damage::TransientBitFlip { bit_position, .. } => bit_position < 64,
            Damage::Working => true,
        }
    }
}

/// The pattern with only bit `b` set.
pub open spec fn bit_mask(b: usize) -> u64 {
    1u64 << (b as u64)
}

/// Whether bit `i` of `x` is set.
pub open spec fn bit_of(x: u64, i: u64) -> bool {
    (x >> i) & 1u64 == 1u64
}

/// What a read of the raw pattern `raw` under `damage` returns, made at `step`
/// (`None` when the caller gives no time step).
pub open spec fn damaged_read(raw: u64, damage: Damage, step: Option<usize>) -> Option<u64> {
    match damage {
        Damage::Working => Some(raw),
        Damage::StuckAt0 { bit_position } => Some(raw & !bit_mask(bit_position)),
        Damage::StuckAt1 { bit_position } => Some(raw | bit_mask(bit_position)),
        Damage::TransientBitFlip { bit_position, time_step } => match step {
            None => None,
            Some(s) => if s == time_step {
                Some(raw ^ bit_mask(bit_position))
            } else {
                Some(raw)
            },
        },
    }
}

/// The register `r`, holding `v` instead, with its fault.
pub open spec fn with_value(r: Register, v: u64) -> Register {
    Register { value: v, damage: r.damage }
}

/// The pattern a read at step `step` returns; the damage must not fail there.
pub open spec fn read_at(r: Register, step: usize) -> u64 {
    damaged_read(r.value, r.damage, Some(step)).unwrap()
}

/// A register: a raw 64-bit pattern and the fault that acts on its reads.
#[derive(Clone, Copy, Debug, PartialEq, Eq, Structural)]
pub struct Register {
    pub value: u64,
    pub damage: Damage,
}

impl Register {
    pub open spec fn wf(self) -> bool {
        self.damage.wf()
    }

    /// The working register that holds `value`.
    pub open spec fn new_spec(value: u64) -> Register {
        Register { value, damage: Damage::Working }
    }

    /// A working register that holds `value`.
    pub fn new(value: u64) -> (r: Register)
        ensures
            r == Register::new_spec(value),
    {
        Register { value, damage: Damage::Working }
    }

    /// Replaces the fault that the register carries.
    pub fn apply_damage(&mut self, damage: Damage)
        ensures
            final(self).value == old(self).value,
            final(self).damage == damage,
    {
        self.damage = damage;
    }

    /// Stores `value` as it is: faults act on reads only.
    pub fn write_value(&mut self, value: u64)
        ensures
            final(self).value == value,
            final(self).damage == old(self).damage,
    {
        self.value = value;
    }

    /// Reads the register, applying its fault. A transient fault needs the
    /// time step of the read; without one the read fails with `None`.
    pub fn read_value(&self, current_time_step: Option<usize>) -> (r: Option<u64>)
        requires
            self.wf(),
        ensures
            r == damaged_read(self.value, self.damage, current_time_step),
    {
        match self.damage {
            Damage::Working => Some(self.value),
            Damage::StuckAt0 { bit_position } => {
                let mask: u64 = !(1u64 << (bit_position as u64));
                Some(Self::bitwise_and(self.value, mask))
            },
            Damage::StuckAt1 { bit_position } => {
                let mask: u64 = 1u64 << (bit_position as u64);
                Some(Self::bitwise_or(self.value, mask))
            },
            Damage::TransientBitFlip { bit_position, time_step } => match current_time_step {
                None => None,
                Some(curr_step) => {
                    if curr_step != time_step {
                        Some(self.value)
                    } else {
                        let mask: u64 = 1u64 << (bit_position as u64);
                        Some(Self::bitwise_xor(self.value, mask))
                    }
                },
            },
        }
    }

    /// Reads the register at a time step; such a read never fails.
    pub fn read_at_step(&self, time_step: usize) -> (r: u64)
        requires
            self.wf(),
        ensures
            r == read_at(*self, time_step),
    {
        match self.read_value(Some(time_step)) {
            Some(v) => v,
            None => 0,
        }
    }

    fn bitwise_and(value: u64, mask: u64) -> (r: u64)
        ensures
            r == value & mask,
    {
        value & mask
    }

    fn bitwise_or(value: u64, mask: u64) -> (r: u64)
        ensures
            r == value | mask,
    {
        value | mask
    }

    fn bitwise_xor(value: u64, mask: u64) -> (r: u64)
        ensures
            r == value ^ mask,
    {
        value ^ mask
    }

    /// `res_reg <- read(r1) - read(r2)`: the comparator's output line.
    pub fn cmp<U: FloatUnit>(
        unit: &U,
        r1: Register,
        r2: Register,
        res_reg: &mut Register,
        current_time_step: usize,
    )
        requires
            r1.wf(),
            r2.wf(),
        ensures
            final(res_reg).damage == old(res_reg).damage,
            final(res_reg).value == unit.sub_spec(
                read_at(r1, current_time_step),
                read_at(r2, current_time_step),
            ),
    {
        let n1 = r1.read_at_step(current_time_step);
        let n2 = r2.read_at_step(current_time_step);
        res_reg.write_value(unit.sub(n1, n2));
    }

    /// `res_reg <- read(r1) + read(r2)`: the adder's output line.
    pub fn add<U: FloatUnit>(
        unit: &U,
        r1: Register,
        r2: Register,
        res_reg: &mut Register,
        current_time_step: usize,
    )
        requires
            r1.wf(),
            r2.wf(),
        ensures
            final(res_reg).damage == old(res_reg).damage,
            final(res_reg).value == unit.add_spec(
                read_at(r1, current_time_step),
                read_at(r2, current_time_step),
            ),
    {
        let n1 = r1.read_at_step(current_time_step);
        let n2 = r2.read_at_step(current_time_step);
        res_reg.write_value(unit.add(n1, n2));
    }

    /// `res_reg <- read(r1) - read(r2)`.
    pub fn sub<U: FloatUnit>(
        unit: &U,
        r1: Register,
        r2: Register,
        res_reg: &mut Register,
        current_time_step: usize,
    )
        requires
            r1.wf(),
            r2.wf(),
        ensures
            final(res_reg).damage == old(res_reg).damage,
            final(res_reg).value == unit.sub_spec(
                read_at(r1, current_time_step),
                read_at(r2, current_time_step),
            ),
    {
        let n1 = r1.read_at_step(current_time_step);
        let n2 = r2.read_at_step(current_time_step);
        res_reg.write_value(unit.sub(n1, n2));
    }

    /// `res_reg <- read(r1) * read(r2)`: the multiplier's output line.
    pub fn mult<U: FloatUnit>(
        unit: &U,
        r1: Register,
        r2: Register,
        res_reg: &mut Register,
        current_time_step: usize,
    )
        requires
            r1.wf(),
            r2.wf(),
        ensures
            final(res_reg).damage == old(res_reg).damage,
            final(res_reg).value == unit.mul_spec(
                read_at(r1, current_time_step),
                read_at(r2, current_time_step),
            ),
    {
        let n1 = r1.read_at_step(current_time_step);
        let n2 = r2.read_at_step(current_time_step);
        res_reg.write_value(unit.mul(n1, n2));
    }

    /// `res_reg <- read(r1) / read(r2)`: the divider's output line.
    pub fn div<U: FloatUnit>(
        unit: &U,
        r1: Register,
        r2: Register,
        res_reg: &mut Register,
        current_time_step: usize,
    )
        requires
            r1.wf(),
            r2.wf(),
        ensures
            final(res_reg).damage == old(res_reg).damage,
            final(res_reg).value == unit.div_spec(
                read_at(r1, current_time_step),
                read_at(r2, current_time_step),
            ),
    {
        let n1 = r1.read_at_step(current_time_step);
        let n2 = r2.read_at_step(current_time_step);
        res_reg.write_value(unit.div(n1, n2));
    }

    /// Copies what this register reads at `current_time_step` into `dest_reg`.
    pub fn copy_to(&self, dest_reg: &mut Register, current_time_step: usize)
        requires
            self.wf(),
        ensures
            final(dest_reg).value == read_at(*self, current_time_step),
            final(dest_reg).damage == old(dest_reg).damage,
    {
        dest_reg.write_value(self.read_at_step(current_time_step));
    }
}

/// A working register reads back exactly the last pattern written, whatever it
/// is (NaN, either zero and subnormal patterns included), with or without a
/// time step.
pub proof fn lemma_working_read_returns_write(v: u64, step: Option<usize>)
    ensures
        damaged_read(v, Damage::Working, step) == Some(v),
{
}

/// A stuck-at-0 fault on bit `b` reads that bit as 0 and every other bit as
/// stored; a stuck-at-1 fault reads it as 1 and every other bit as stored.
pub proof fn lemma_stuck_at_mask(raw: u64, b: usize, step: Option<usize>)
    requires
        b < 64,
    ensures
        !bit_of(damaged_read(raw, Damage::StuckAt0 { bit_position: b }, step).unwrap(), b as u64),
        bit_of(damaged_read(raw, Damage::StuckAt1 { bit_position: b }, step).unwrap(), b as u64),
        forall|i: u64|
            i < 64 && i != b as u64 ==> (#[trigger] bit_of(
                damaged_read(raw, Damage::StuckAt0 { bit_position: b }, step).unwrap(),
                i,
            ) == bit_of(raw, i)),
        forall|i: u64|
            i < 64 && i != b as u64 ==> (#[trigger] bit_of(
                damaged_read(raw, Damage::StuckAt1 { bit_position: b }, step).unwrap(),
                i,
            ) == bit_of(raw, i)),
{
    let bb = b as u64;
    let z = raw & !(1u64 << bb);
    let o = raw | (1u64 << bb);
    assert(!bit_of(z, bb)) by (bit_vector)
        requires
            bb < 64,
            z == raw & !(1u64 << bb),
    ;
    assert(bit_of(o, bb)) by (bit_vector)
        requires
            bb < 64,
            o == raw | (1u64 << bb),
    ;
    assert forall|i: u64| i < 64 && i != bb implies bit_of(z, i) == bit_of(raw, i) by {
        assert(bit_of(z, i) == bit_of(raw, i)) by (bit_vector)
            requires
                bb < 64,
                i < 64,
                i != bb,
                z == raw & !(1u64 << bb),
        ;
    }
    assert forall|i: u64| i < 64 && i != bb implies bit_of(o, i) == bit_of(raw, i) by {
        assert(bit_of(o, i) == bit_of(raw, i)) by (bit_vector)
            requires
                bb < 64,
                i < 64,
                i != bb,
                o == raw | (1u64 << bb),
        ;
    }
}

/// A transient flip of bit `b` at step `s` reads the stored pattern with bit
/// `b` inverted at step `s`, and the stored pattern at every other step.
pub proof fn lemma_transient_locality(raw: u64, b: usize, s: usize, step: usize)
    requires
        b < 64,
    ensures
        step == s ==> damaged_read(
            raw,
            Damage::TransientBitFlip { bit_position: b, time_step: s },
            Some(step),
        ) == Some(raw ^ (1u64 << (b as u64))),
        step != s ==> damaged_read(
            raw,
            Damage::TransientBitFlip { bit_position: b, time_step: s },
            Some(step),
        ) == Some(raw),
        damaged_read(raw, Damage::TransientBitFlip { bit_position: b, time_step: s }, None)
            == None::<u64>,
{
}

} // verus!
