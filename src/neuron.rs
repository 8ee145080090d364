//! A neuron whose every stored quantity and arithmetic result sits in a
//! fault-injectable register.
use vstd::prelude::*;

use crate::arith::{at_least_zero, is_at_least_zero, FloatUnit, ZERO_BITS};
use crate::register::{read_at, with_value, Register};

verus! {

/// The pattern of -55.0 mV, the default threshold.
pub const DEFAULT_V_TH_BITS: u64 = 0xc04b_8000_0000_0000;

/// The pattern of -70.0 mV, the default rest and reset potential.
pub const DEFAULT_V_REST_BITS: u64 = 0xc051_8000_0000_0000;

/// The pattern of 10.0 ms, the default time constant.
pub const DEFAULT_TAU_BITS: u64 = 0x4024_0000_0000_0000;

/// How the membrane potential evolves between updates.
#[derive(Clone, Copy, Debug, PartialEq, Eq, Structural)]
pub enum NeuronModel {
    /// The potential decays exponentially towards `v_rest` with time constant `tau`.
    LeakyIntegrateAndFire,
    /// The potential only accumulates.
    IntegrateAndFire,
}

/// An event on the channel between two adjacent layers.
#[derive(Clone, Copy, Debug, PartialEq, Eq, Structural)]
pub enum Message {
    /// A spike, carrying the index of the neuron (or input) that emitted it.
    Pulse(usize),
    /// All the pulses of the current time step have been delivered.
    GoAhead,
}

/// Which synapses a pulse update goes through.
enum PulseContributionMode {
    /// Synapses from the previous layer.
    Excitatory,
    /// Synapses from neurons of the same layer.
    Inhibitive,
}

/// Every register of the sequence carries a fault that names a valid bit.
pub open spec fn all_wf(regs: Seq<Register>) -> bool {
    forall|i: int| 0 <= i < regs.len() ==> (#[trigger] regs[i]).wf()
}

/// Every index of the sequence is below `n`.
pub open spec fn sources_below(sources: Seq<usize>, n: int) -> bool {
    forall|k: int| 0 <= k < sources.len() ==> #[trigger] sources[k] < n
}

/// The sum, through a copy `acc0` of the adder, of the synapses that
/// `sources` selects, in order, starting from +0.0.
pub open spec fn contribution_spec<U: FloatUnit>(
    unit: &U,
    acc0: Register,
    synapses: Seq<Register>,
    sources: Seq<usize>,
    step: usize,
) -> Register
    decreases sources.len(),
{
    if sources.len() == 0 {
        with_value(acc0, ZERO_BITS)
    } else {
        let acc = contribution_spec(unit, acc0, synapses, sources.drop_last(), step);
        with_value(
            acc0,
            unit.add_spec(read_at(acc, step), read_at(synapses[sources.last() as int], step)),
        )
    }
}

/// The leaky update of `n` with contribution `c`:
/// `v_rest + (v_mem - v_rest) * exp((last - step) * dt / tau) + c`, each
/// operation going through the operator register that holds its result.
pub open spec fn leaky_update<U: FloatUnit>(
    n: Neuron,
    unit: &U,
    c: Register,
    step: usize,
    dt: u64,
) -> Neuron {
    let sub1 = with_value(n.add_reg, unit.sub_spec(read_at(n.v_mem, step), read_at(n.v_rest, step)));
    let diff = unit.sub_spec(
        unit.from_count_spec(n.last_received_pulse_step),
        unit.from_count_spec(step),
    );
    let mul1 = with_value(n.mul_reg, unit.mul_spec(diff, dt));
    let div1 = with_value(n.div_reg, unit.div_spec(read_at(mul1, step), read_at(n.tau, step)));
    let decay = unit.exp_spec(read_at(div1, step));
    let mul2 = with_value(n.mul_reg, unit.mul_spec(decay, read_at(sub1, step)));
    let add1 = with_value(n.add_reg, unit.add_spec(read_at(n.v_rest, step), read_at(mul2, step)));
    let add2 = with_value(n.add_reg, unit.add_spec(read_at(add1, step), read_at(c, step)));
    Neuron {
        v_mem: with_value(n.v_mem, read_at(add2, step)),
        add_reg: add2,
        mul_reg: mul2,
        div_reg: div1,
        ..n
    }
}

/// The integrate-and-fire update of `n` with contribution `c`: `v_mem + c`
/// through the adder.
pub open spec fn integrating_update<U: FloatUnit>(
    n: Neuron,
    unit: &U,
    c: Register,
    step: usize,
) -> Neuron {
    let add1 = with_value(n.add_reg, unit.add_spec(read_at(n.v_mem, step), read_at(c, step)));
    Neuron { v_mem: with_value(n.v_mem, read_at(add1, step)), add_reg: add1, ..n }
}

/// `n` after the membrane update for the pulses from `sources` at `step`,
/// weighed by the lateral synapses when `lateral`, else by those from
/// upstream. `last_received_pulse_step` is left as it was.
pub open spec fn membrane_update<U: FloatUnit>(
    n: Neuron,
    unit: &U,
    sources: Seq<usize>,
    step: usize,
    dt: u64,
    model: NeuronModel,
    lateral: bool,
) -> Neuron {
    let synapses = if lateral {
        n.internal_weights@
    } else {
        n.weights@
    };
    let c = contribution_spec(unit, n.add_reg, synapses, sources, step);
    match model {
        NeuronModel::LeakyIntegrateAndFire => leaky_update(n, unit, c, step, dt),
        NeuronModel::IntegrateAndFire => integrating_update(n, unit, c, step),
    }
}

/// `n` after the inhibition from the neurons `sources` of its layer at `step`.
pub open spec fn inhibit_spec<U: FloatUnit>(
    n: Neuron,
    unit: &U,
    sources: Seq<usize>,
    step: usize,
    dt: u64,
    model: NeuronModel,
) -> Neuron {
    Neuron {
        last_received_pulse_step: step,
        ..membrane_update(n, unit, sources, step, dt, model, true)
    }
}

/// `n` after integrating the pulses from `sources` at `step` and comparing
/// `v_mem` with `v_th`: the comparator holds `v_mem - v_th` (both as read at
/// `step`), and when it reads `>= 0` the neuron fires and `v_mem` takes what
/// `v_reset` reads.
pub open spec fn feed_spec<U: FloatUnit>(
    n: Neuron,
    unit: &U,
    sources: Seq<usize>,
    step: usize,
    dt: u64,
    model: NeuronModel,
) -> Neuron {
    let u = Neuron {
        last_received_pulse_step: step,
        ..membrane_update(n, unit, sources, step, dt, model, false)
    };
    let c = with_value(u.cmp_reg, unit.sub_spec(read_at(u.v_mem, step), read_at(u.v_th, step)));
    if at_least_zero(read_at(c, step)) {
        Neuron { cmp_reg: c, v_mem: with_value(u.v_mem, read_at(u.v_reset, step)), ..u }
    } else {
        Neuron { cmp_reg: c, ..u }
    }
}

/// A neuron of the network. Potentials are in mV, `tau` in ms; each value is
/// held as a binary64 bit pattern in its own register.
#[derive(Clone, Debug)]
pub struct Neuron {
    /// Threshold: the neuron fires when `v_mem` reaches it.
    pub v_th: Register,
    /// The potential `v_mem` decays towards.
    pub v_rest: Register,
    /// The potential `v_mem` is set to after firing.
    pub v_reset: Register,
    /// Time constant of the decay.
    pub tau: Register,
    /// Membrane potential.
    pub v_mem: Register,
    /// The time step of the last update of `v_mem`.
    pub last_received_pulse_step: usize,
    /// `weights[i]` weighs pulses from neuron `i` of the previous layer (or input `i`).
    pub weights: Vec<Register>,
    /// `internal_weights[i]` weighs pulses from neuron `i` of the same layer.
    pub internal_weights: Vec<Register>,
    /// Output of the adder.
    pub add_reg: Register,
    /// Output of the multiplier.
    pub mul_reg: Register,
    /// Output of the comparator.
    pub cmp_reg: Register,
    /// Output of the divider.
    pub div_reg: Register,
}

impl Neuron {
    /// Every register of the neuron carries a valid fault.
    pub open spec fn wf(&self) -> bool {
        &&& self.v_th.wf()
        &&& self.v_rest.wf()
        &&& self.v_reset.wf()
        &&& self.tau.wf()
        &&& self.v_mem.wf()
        &&& self.add_reg.wf()
        &&& self.mul_reg.wf()
        &&& self.cmp_reg.wf()
        &&& self.div_reg.wf()
        &&& all_wf(self.weights@)
        &&& all_wf(self.internal_weights@)
    }

    /// The electrical parameters and the synapses are those of `other`.
    pub open spec fn same_parameters(&self, other: &Neuron) -> bool {
        &&& self.v_th == other.v_th
        &&& self.v_rest == other.v_rest
        &&& self.v_reset == other.v_reset
        &&& self.tau == other.tau
        &&& self.weights@ == other.weights@
        &&& self.internal_weights@ == other.internal_weights@
    }

    /// The state registers carry the faults of those of `other`.
    pub open spec fn same_faults(&self, other: &Neuron) -> bool {
        &&& self.v_mem.damage == other.v_mem.damage
        &&& self.add_reg.damage == other.add_reg.damage
        &&& self.mul_reg.damage == other.mul_reg.damage
        &&& self.cmp_reg.damage == other.cmp_reg.damage
        &&& self.div_reg.damage == other.div_reg.damage
    }

    /// The comparator's output, read at `step`, says that `v_mem` reached `v_th`.
    pub open spec fn fires_at(&self, step: usize) -> bool {
        at_least_zero(read_at(self.cmp_reg, step))
    }

    /// Every register and counter of the neuron equals that of `other`.
    pub open spec fn same_state(&self, other: &Neuron) -> bool {
        &&& self.same_parameters(other)
        &&& self.v_mem == other.v_mem
        &&& self.last_received_pulse_step == other.last_received_pulse_step
        &&& self.add_reg == other.add_reg
        &&& self.mul_reg == other.mul_reg
        &&& self.cmp_reg == other.cmp_reg
        &&& self.div_reg == other.div_reg
    }

    /// An independent copy of the neuron.
    pub fn deep_copy(&self) -> (r: Neuron)
        ensures
            r.same_state(self),
    {
        Neuron {
            v_th: self.v_th,
            v_rest: self.v_rest,
            v_reset: self.v_reset,
            tau: self.tau,
            v_mem: self.v_mem,
            last_received_pulse_step: self.last_received_pulse_step,
            weights: copy_registers(&self.weights),
            internal_weights: copy_registers(&self.internal_weights),
            add_reg: self.add_reg,
            mul_reg: self.mul_reg,
            cmp_reg: self.cmp_reg,
            div_reg: self.div_reg,
        }
    }

    /// A neuron with the given parameters (bit patterns), `v_mem` at rest,
    /// no synapses, and every register working.
    pub fn new(v_th: u64, v_rest: u64, v_reset: u64, tau: u64) -> (r: Neuron)
        ensures
            r.wf(),
            r.v_th == Register::new_spec(v_th),
            r.v_rest == Register::new_spec(v_rest),
            r.v_reset == Register::new_spec(v_reset),
            r.tau == Register::new_spec(tau),
            r.v_mem == Register::new_spec(v_rest),
            r.last_received_pulse_step == 0,
            r.weights@.len() == 0,
            r.internal_weights@.len() == 0,
            r.add_reg == Register::new_spec(ZERO_BITS),
            r.mul_reg == Register::new_spec(ZERO_BITS),
            r.cmp_reg == Register::new_spec(ZERO_BITS),
            r.div_reg == Register::new_spec(ZERO_BITS),
    {
        Neuron {
            v_th: Register::new(v_th),
            v_rest: Register::new(v_rest),
            v_reset: Register::new(v_reset),
            tau: Register::new(tau),
            v_mem: Register::new(v_rest),
            last_received_pulse_step: 0,
            weights: Vec::new(),
            internal_weights: Vec::new(),
            add_reg: Register::new(ZERO_BITS),
            mul_reg: Register::new(ZERO_BITS),
            cmp_reg: Register::new(ZERO_BITS),
            div_reg: Register::new(ZERO_BITS),
        }
    }

    /// Sets the synapses from the previous layer: `weights[i]` (a bit pattern)
    /// weighs pulses from its neuron `i`.
    pub fn set_weights(&mut self, weights: Vec<u64>)
        ensures
            final(self).weights@ == weights@.map_values(|w: u64| Register::new_spec(w)),
            final(self).internal_weights@ == old(self).internal_weights@,
            final(self).v_th == old(self).v_th,
            final(self).v_rest == old(self).v_rest,
            final(self).v_reset == old(self).v_reset,
            final(self).tau == old(self).tau,
            final(self).v_mem == old(self).v_mem,
            final(self).last_received_pulse_step == old(self).last_received_pulse_step,
            final(self).add_reg == old(self).add_reg,
            final(self).mul_reg == old(self).mul_reg,
            final(self).cmp_reg == old(self).cmp_reg,
            final(self).div_reg == old(self).div_reg,
    {
        self.weights = registers_of(&weights);
    }

    /// Sets the synapses within the layer: `internal_weights[i]` (a bit
    /// pattern) weighs pulses from neuron `i` of the same layer.
    pub fn set_internal_weights(&mut self, internal_weights: Vec<u64>)
        ensures
            final(self).internal_weights@ == internal_weights@.map_values(
                |w: u64| Register::new_spec(w),
            ),
            final(self).weights@ == old(self).weights@,
            final(self).v_th == old(self).v_th,
            final(self).v_rest == old(self).v_rest,
            final(self).v_reset == old(self).v_reset,
            final(self).tau == old(self).tau,
            final(self).v_mem == old(self).v_mem,
            final(self).last_received_pulse_step == old(self).last_received_pulse_step,
            final(self).add_reg == old(self).add_reg,
            final(self).mul_reg == old(self).mul_reg,
            final(self).cmp_reg == old(self).cmp_reg,
            final(self).div_reg == old(self).div_reg,
    {
        self.internal_weights = registers_of(&internal_weights);
    }

    /// Integrates the pulses that arrived at `time_step` from the previous
    /// layer's neurons `pulse_sources`, then compares `v_mem` with `v_th`
    /// through the comparator. Returns whether the neuron fires; when it does,
    /// `v_mem` takes what `v_reset` reads.
    pub fn feed_pulses<U: FloatUnit>(
        &mut self,
        unit: &U,
        pulse_sources: &Vec<usize>,
        time_step: usize,
        time_step_duration_ms: u64,
        neuron_model: NeuronModel,
    ) -> (fired: bool)
        requires
            old(self).wf(),
            sources_below(pulse_sources@, old(self).weights@.len() as int),
        ensures
            final(self).wf(),
            *final(self) == feed_spec(
                *old(self),
                unit,
                pulse_sources@,
                time_step,
                time_step_duration_ms,
                neuron_model,
            ),
            fired == final(self).fires_at(time_step),
    {
        self.update_membrane_potential(
            unit,
            pulse_sources,
            time_step,
            time_step_duration_ms,
            neuron_model,
            PulseContributionMode::Excitatory,
        );
        self.last_received_pulse_step = time_step;

        Register::cmp(unit, self.v_mem, self.v_th, &mut self.cmp_reg, time_step);
        if is_at_least_zero(self.cmp_reg.read_at_step(time_step)) {
            self.v_reset.copy_to(&mut self.v_mem, time_step);
            true
        } else {
            false
        }
    }

    /// Applies the inhibition from the neurons `pulse_sources` of the same
    /// layer that fired at the previous step. Never fires.
    pub fn inhibite_after_pulses_emission<U: FloatUnit>(
        &mut self,
        unit: &U,
        pulse_sources: &Vec<usize>,
        time_step: usize,
        time_step_duration_ms: u64,
        neuron_model: NeuronModel,
    )
        requires
            old(self).wf(),
            sources_below(pulse_sources@, old(self).internal_weights@.len() as int),
        ensures
            final(self).wf(),
            *final(self) == inhibit_spec(
                *old(self),
                unit,
                pulse_sources@,
                time_step,
                time_step_duration_ms,
                neuron_model,
            ),
    {
        self.update_membrane_potential(
            unit,
            pulse_sources,
            time_step,
            time_step_duration_ms,
            neuron_model,
            PulseContributionMode::Inhibitive,
        );
        self.last_received_pulse_step = time_step;
    }

    /// Sums, through a copy of the adder, the weights that `pulse_sources`
    /// select among `synapses`.
    fn contribution<U: FloatUnit>(
        &self,
        unit: &U,
        synapses: &Vec<Register>,
        pulse_sources: &Vec<usize>,
        time_step: usize,
    ) -> (r: Register)
        requires
            self.wf(),
            all_wf(synapses@),
            sources_below(pulse_sources@, synapses@.len() as int),
        ensures
            r == contribution_spec(unit, self.add_reg, synapses@, pulse_sources@, time_step),
    {
        let mut acc = self.add_reg;
        acc.write_value(ZERO_BITS);
        assert(pulse_sources@.take(0) =~= Seq::<usize>::empty());
        let mut k: usize = 0;
        while k < pulse_sources.len()
            invariant
                self.wf(),
                all_wf(synapses@),
                sources_below(pulse_sources@, synapses@.len() as int),
                k <= pulse_sources@.len(),
                acc == contribution_spec(
                    unit,
                    self.add_reg,
                    synapses@,
                    pulse_sources@.take(k as int),
                    time_step,
                ),
            decreases pulse_sources@.len() - k,
        {
            assert(pulse_sources@.take(k + 1).drop_last() =~= pulse_sources@.take(k as int));
            let w = synapses[pulse_sources[k]];
            let sum = acc;
            Register::add(unit, sum, w, &mut acc, time_step);
            k = k + 1;
        }
        assert(pulse_sources@.take(k as int) =~= pulse_sources@);
        acc
    }

    /// Updates `v_mem` for the pulses from `pulse_sources` at `time_step`:
    /// `v_rest + (v_mem - v_rest) * exp(dt / tau) + contribution` for the
    /// leaky model, `v_mem + contribution` otherwise, every operation going
    /// through the neuron's operator registers.
    fn update_membrane_potential<U: FloatUnit>(
        &mut self,
        unit: &U,
        pulse_sources: &Vec<usize>,
        time_step: usize,
        time_step_duration_ms: u64,
        neuron_model: NeuronModel,
        pulse_contribution_mode: PulseContributionMode,
    )
        requires
            old(self).wf(),
            match pulse_contribution_mode {
                PulseContributionMode::Excitatory => sources_below(
                    pulse_sources@,
                    old(self).weights@.len() as int,
                ),
                PulseContributionMode::Inhibitive => sources_below(
                    pulse_sources@,
                    old(self).internal_weights@.len() as int,
                ),
            },
        ensures
            final(self).wf(),
            *final(self) == membrane_update(
                *old(self),
                unit,
                pulse_sources@,
                time_step,
                time_step_duration_ms,
                neuron_model,
                pulse_contribution_mode is Inhibitive,
            ),
    {
        let contribution = match pulse_contribution_mode {
            PulseContributionMode::Excitatory => self.contribution(
                unit,
                &self.weights,
                pulse_sources,
                time_step,
            ),
            PulseContributionMode::Inhibitive => self.contribution(
                unit,
                &self.internal_weights,
                pulse_sources,
                time_step,
            ),
        };

        match neuron_model {
            NeuronModel::LeakyIntegrateAndFire => {
                // v_mem - v_rest
                let mut vm_vr = Register::new(ZERO_BITS);
                Register::sub(unit, self.v_mem, self.v_rest, &mut self.add_reg, time_step);
                self.add_reg.copy_to(&mut vm_vr, time_step);

                // (last_received_pulse_step - time_step) * time_step_duration_ms / tau
                let diff_steps = Register::new(
                    unit.sub(
                        unit.from_count(self.last_received_pulse_step),
                        unit.from_count(time_step),
                    ),
                );
                let mut exp_arg = Register::new(ZERO_BITS);
                Register::mult(
                    unit,
                    diff_steps,
                    Register::new(time_step_duration_ms),
                    &mut self.mul_reg,
                    time_step,
                );
                Register::div(unit, self.mul_reg, self.tau, &mut self.div_reg, time_step);
                self.div_reg.copy_to(&mut exp_arg, time_step);
                let decay = Register::new(unit.exp(exp_arg.read_at_step(time_step)));

                // (v_mem - v_rest) * decay
                let mut decay_part = Register::new(ZERO_BITS);
                Register::mult(unit, decay, vm_vr, &mut self.mul_reg, time_step);
                self.mul_reg.copy_to(&mut decay_part, time_step);

                // v_rest + decay_part + contribution
                let mut base = Register::new(ZERO_BITS);
                Register::add(unit, self.v_rest, decay_part, &mut self.add_reg, time_step);
                self.add_reg.copy_to(&mut base, time_step);
                Register::add(unit, base, contribution, &mut self.add_reg, time_step);
                let result = self.add_reg;
                result.copy_to(&mut self.v_mem, time_step);
            },
            NeuronModel::IntegrateAndFire => {
                Register::add(unit, self.v_mem, contribution, &mut self.add_reg, time_step);
                let result = self.add_reg;
                result.copy_to(&mut self.v_mem, time_step);
            },
        }
    }
}

impl Default for Neuron {
    /// A neuron with threshold -55 mV, rest and reset at -70 mV, `tau` 10 ms.
    fn default() -> (r: Neuron)
        ensures
            r.wf(),
            r.v_th == Register::new_spec(DEFAULT_V_TH_BITS),
            r.v_rest == Register::new_spec(DEFAULT_V_REST_BITS),
            r.v_reset == Register::new_spec(DEFAULT_V_REST_BITS),
            r.tau == Register::new_spec(DEFAULT_TAU_BITS),
            r.v_mem == Register::new_spec(DEFAULT_V_REST_BITS),
            r.last_received_pulse_step == 0,
            r.weights@.len() == 0,
            r.internal_weights@.len() == 0,
            r.add_reg == Register::new_spec(ZERO_BITS),
            r.mul_reg == Register::new_spec(ZERO_BITS),
            r.cmp_reg == Register::new_spec(ZERO_BITS),
            r.div_reg == Register::new_spec(ZERO_BITS),
    {
        Neuron::new(DEFAULT_V_TH_BITS, DEFAULT_V_REST_BITS, DEFAULT_V_REST_BITS, DEFAULT_TAU_BITS)
    }
}

/// A copy of the registers, in order.
pub fn copy_registers(regs: &Vec<Register>) -> (r: Vec<Register>)
    ensures
        r@ == regs@,
{
    let mut r: Vec<Register> = Vec::new();
    let mut i: usize = 0;
    while i < regs.len()
        invariant
            i <= regs@.len(),
            r@ == regs@.take(i as int),
        decreases regs@.len() - i,
    {
        r.push(regs[i]);
        i = i + 1;
        assert(r@ =~= regs@.take(i as int));
    }
    assert(regs@.take(i as int) =~= regs@);
    r
}

/// One working register for each pattern of `values`, in order.
pub fn registers_of(values: &Vec<u64>) -> (r: Vec<Register>)
    ensures
        r@ == values@.map_values(|w: u64| Register::new_spec(w)),
{
    let mut r: Vec<Register> = Vec::new();
    let mut i: usize = 0;
    while i < values.len()
        invariant
            i <= values@.len(),
            r@ == values@.take(i as int).map_values(|w: u64| Register::new_spec(w)),
        decreases values@.len() - i,
    {
        r.push(Register::new(values[i]));
        i = i + 1;
        assert(values@.take(i as int) =~= values@.take(i - 1).push(values@[i - 1]));
        assert(r@ =~= values@.take(i as int).map_values(|w: u64| Register::new_spec(w)));
    }
    assert(values@.take(i as int) =~= values@);
    r
}

} // verus!
