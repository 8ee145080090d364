//! Monte-Carlo fault campaigns: a golden run, then independent runs of copies
//! of the network that each carry one single-bit fault, with the divergences
//! from the golden output counted per output and time step.
use vstd::prelude::*;

use crate::arith::FloatUnit;
use crate::network::{
    layer_wf, lemma_stream_steps_agree, matrix_has_shape, matrix_is_rectangular, run_spec, Network,
};
use crate::neuron::Neuron;
use crate::register::{Damage, Register, REGISTER_BITS};

verus! {

#[verifier::external_type_specification]
#[verifier::external_body]
pub struct ExStdRng(rand::rngs::StdRng);

/// Relies on `rand::SeedableRng::from_entropy` for `StdRng`: a generator
/// seeded from the operating system's entropy source (it panics only when
/// that source fails). Nothing is promised of the seed.
#[verifier::external_body]
fn fresh_rng() -> rand::rngs::StdRng {
    <rand::rngs::StdRng as rand::SeedableRng>::from_entropy()
}

/// Relies on `rand::Rng::gen_range`: a value drawn uniformly from `0..n`
/// (it panics on an empty range, which `n > 0` excludes).
#[verifier::external_body]
fn draw_below(rng: &mut rand::rngs::StdRng, n: usize) -> (r: usize)
    requires
        n > 0,
    ensures
        r < n,
{
    rand::Rng::gen_range(rng, 0..n)
}

/// The kinds of network elements that a fault can hit.
#[derive(Clone, Copy, Debug, PartialEq, Eq, Structural)]
pub enum FaultyElement {
    Weights,
    Thresholds,
    MembranePotentials,
    ResetPotentials,
    PotentialsAtRest,
    Comparator,
    Adder,
    Multiplier,
    Divider,
}

/// The kind of fault that a campaign injects.
#[derive(Clone, Copy, Debug, PartialEq, Eq, Structural)]
pub enum DamageModel {
    StuckAt0,
    StuckAt1,
    TransientBitFlip,
}

/// Where a fault was placed.
#[derive(Clone, Copy, Debug, PartialEq, Eq, Structural)]
pub struct DamageDetail {
    pub at_iteration: usize,
    pub damage_type: FaultyElement,
    pub at_layer: usize,
    pub at_neuron: usize,
    pub at_bit: usize,
}

/// The coordinates of one fault: the element kind, the neuron, the bit, the
/// time step of a transient flip and, for a weight, which vector and entry.
#[derive(Clone, Copy, Debug, PartialEq, Eq, Structural)]
pub struct FaultSite {
    pub element: FaultyElement,
    pub layer: usize,
    pub neuron: usize,
    pub bit: usize,
    pub time_step: usize,
    /// For a weight: the lateral vector rather than the one from upstream.
    pub internal: bool,
    /// For a weight: its index in the chosen vector.
    pub weight_index: usize,
}

/// Every register of the neuron works.
pub open spec fn neuron_working(n: Neuron) -> bool {
    &&& n.v_th.damage == Damage::Working
    &&& n.v_rest.damage == Damage::Working
    &&& n.v_reset.damage == Damage::Working
    &&& n.tau.damage == Damage::Working
    &&& n.v_mem.damage == Damage::Working
    &&& n.add_reg.damage == Damage::Working
    &&& n.mul_reg.damage == Damage::Working
    &&& n.cmp_reg.damage == Damage::Working
    &&& n.div_reg.damage == Damage::Working
    &&& forall|w: int| 0 <= w < n.weights@.len() ==> (#[trigger] n.weights@[w]).damage == Damage::Working
    &&& forall|w: int|
        0 <= w < n.internal_weights@.len() ==> (#[trigger] n.internal_weights@[w]).damage
            == Damage::Working
}

/// Placing the `Working` fault on a register of a neuron whose registers all
/// work leaves the network as it was, so the damaged run outputs exactly what
/// the golden run outputs, on every input.
pub proof fn lemma_working_fault_is_identity<U: FloatUnit>(
    after: &Network,
    before: &Network,
    site: FaultSite,
    unit: &U,
    input: Seq<Vec<bool>>,
)
    requires
        site_in(before, site),
        neuron_working(before.layers@[site.layer as int]@[site.neuron as int]),
        network_hit(after, before, site, Damage::Working),
        input.len() > 0,
    ensures
        after.same_as(before),
        run_spec(after, unit, input) == run_spec(before, unit, input),
{
    let a = after.layers@[site.layer as int]@[site.neuron as int];
    let b = before.layers@[site.layer as int]@[site.neuron as int];
    if site.element == FaultyElement::Weights {
        if site.internal {
            assert(b.internal_weights@[site.weight_index as int].damage == Damage::Working);
            assert(a.internal_weights@ =~= b.internal_weights@);
        } else {
            assert(b.weights@[site.weight_index as int].damage == Damage::Working);
            assert(a.weights@ =~= b.weights@);
        }
    }
    assert(a.same_state(&b));
    lemma_stream_steps_agree(after, before, unit, input, input, after.layers@.len());
}

/// The result for one output neuron at one time step.
#[derive(Clone, Debug)]
pub struct SimulationResultCell {
    pub output_index: usize,
    pub time_step: usize,
    /// The golden value, inverted when any trial disagreed with it.
    pub actual_value: bool,
    /// Number of trials whose output disagreed with the golden value.
    pub diff_count: usize,
    /// The faults of those trials, in trial order.
    pub damage_details: Vec<DamageDetail>,
}

/// The outcome of a campaign.
#[derive(Clone, Debug)]
pub struct SimulationResult {
    pub number_of_iterations: usize,
    pub type_of_damage: DamageModel,
    pub output_without_damages: Vec<Vec<bool>>,
    pub diffs: Vec<Vec<SimulationResultCell>>,
}

/// The fault descriptor that `model` gives for `bit` and `time_step`.
pub open spec fn damage_of(model: DamageModel, bit: usize, time_step: usize) -> Damage {
    match model {
        DamageModel::StuckAt0 => Damage::StuckAt0 { bit_position: bit },
        DamageModel::StuckAt1 => Damage::StuckAt1 { bit_position: bit },
        DamageModel::TransientBitFlip => Damage::TransientBitFlip {
            bit_position: bit,
            time_step,
        },
    }
}

/// The register `r` with its fault replaced by `d`.
pub open spec fn with_damage(r: Register, d: Damage) -> Register {
    Register { value: r.value, damage: d }
}

/// `r` if the site's element is not `e`, else `r` carrying `d`.
pub open spec fn hit_if(r: Register, site: FaultSite, e: FaultyElement, d: Damage) -> Register {
    if site.element == e {
        with_damage(r, d)
    } else {
        r
    }
}

/// `regs` with entry `site.weight_index` carrying `d` if the site hits this
/// weight vector (`internal` tells which one `regs` is), else `regs`.
pub open spec fn weights_hit(
    regs: Seq<Register>,
    site: FaultSite,
    internal: bool,
    d: Damage,
) -> Seq<Register> {
    if site.element == FaultyElement::Weights && site.internal == internal {
        regs.update(site.weight_index as int, with_damage(regs[site.weight_index as int], d))
    } else {
        regs
    }
}

/// `after` is `before` with the register that `site` names carrying `d`.
pub open spec fn neuron_hit(after: Neuron, before: Neuron, site: FaultSite, d: Damage) -> bool {
    &&& after.v_th == hit_if(before.v_th, site, FaultyElement::Thresholds, d)
    &&& after.v_mem == hit_if(before.v_mem, site, FaultyElement::MembranePotentials, d)
    &&& after.v_reset == hit_if(before.v_reset, site, FaultyElement::ResetPotentials, d)
    &&& after.v_rest == hit_if(before.v_rest, site, FaultyElement::PotentialsAtRest, d)
    &&& after.cmp_reg == hit_if(before.cmp_reg, site, FaultyElement::Comparator, d)
    &&& after.add_reg == hit_if(before.add_reg, site, FaultyElement::Adder, d)
    &&& after.mul_reg == hit_if(before.mul_reg, site, FaultyElement::Multiplier, d)
    &&& after.div_reg == hit_if(before.div_reg, site, FaultyElement::Divider, d)
    &&& after.tau == before.tau
    &&& after.last_received_pulse_step == before.last_received_pulse_step
    &&& after.weights@ == weights_hit(before.weights@, site, false, d)
    &&& after.internal_weights@ == weights_hit(before.internal_weights@, site, true, d)
}

/// The site names a neuron of the network, a register bit and, for a weight,
/// an entry of the chosen vector.
pub open spec fn site_in(net: &Network, site: FaultSite) -> bool {
    &&& site.layer < net.layers@.len()
    &&& site.neuron < net.layers@[site.layer as int]@.len()
    &&& site.bit < 64
    &&& site.element == FaultyElement::Weights ==> {
        let n = net.layers@[site.layer as int]@[site.neuron as int];
        if site.internal {
            site.weight_index < n.internal_weights@.len()
        } else {
            site.weight_index < n.weights@.len()
        }
    }
}

/// `after` is `before` with the one register that `site` names carrying `d`.
pub open spec fn network_hit(after: &Network, before: &Network, site: FaultSite, d: Damage) -> bool {
    &&& after.nr_inputs == before.nr_inputs
    &&& after.nr_outputs == before.nr_outputs
    &&& after.time_step_duration_us == before.time_step_duration_us
    &&& after.model == before.model
    &&& after.layers@.len() == before.layers@.len()
    &&& forall|k: int|
        0 <= k < after.layers@.len() ==> (#[trigger] after.layers@[k])@.len()
            == before.layers@[k]@.len()
    &&& forall|k: int, n: int|
        0 <= k < after.layers@.len() && 0 <= n < after.layers@[k]@.len() && (k != site.layer
            || n != site.neuron) ==> (#[trigger] after.layers@[k]@[n]).same_state(
            &before.layers@[k]@[n],
        )
    &&& neuron_hit(
        after.layers@[site.layer as int]@[site.neuron as int],
        before.layers@[site.layer as int]@[site.neuron as int],
        site,
        d,
    )
}

/// The record of a fault placed at `site` in trial `iteration`.
pub open spec fn detail_of(site: FaultSite, iteration: usize) -> DamageDetail {
    DamageDetail {
        at_iteration: iteration,
        damage_type: site.element,
        at_layer: site.layer,
        at_neuron: site.neuron,
        at_bit: site.bit,
    }
}

/// The faults of the trials whose output disagrees with `golden` at `(i, j)`,
/// in trial order; each trial is its output and its fault.
pub open spec fn diverging(
    golden: Seq<Vec<bool>>,
    trials: Seq<(Vec<Vec<bool>>, DamageDetail)>,
    i: int,
    j: int,
) -> Seq<DamageDetail>
    decreases trials.len(),
{
    if trials.len() == 0 {
        Seq::empty()
    } else {
        let prev = diverging(golden, trials.drop_last(), i, j);
        if trials.last().0@[i]@[j] != golden[i]@[j] {
            prev.push(trials.last().1)
        } else {
            prev
        }
    }
}

/// The cell at `(i, j)` accounts for `trials` against `golden`.
pub open spec fn cell_accounts(
    cell: SimulationResultCell,
    golden: Seq<Vec<bool>>,
    trials: Seq<(Vec<Vec<bool>>, DamageDetail)>,
    i: int,
    j: int,
) -> bool {
    &&& cell.output_index == i
    &&& cell.time_step == j
    &&& cell.damage_details@ == diverging(golden, trials, i, j)
    &&& cell.diff_count == cell.damage_details@.len()
}

/// The result matrix has the golden output's shape and every cell accounts for
/// `trials`; `finished` says whether the actual values have been set.
pub open spec fn matrix_accounts(
    diffs: Seq<Vec<SimulationResultCell>>,
    golden: Seq<Vec<bool>>,
    trials: Seq<(Vec<Vec<bool>>, DamageDetail)>,
    rows: int,
    cols: int,
    finished: bool,
) -> bool {
    &&& diffs.len() == rows
    &&& forall|i: int| 0 <= i < rows ==> (#[trigger] diffs[i])@.len() == cols
    &&& forall|i: int, j: int|
        0 <= i < rows && 0 <= j < cols ==> cell_accounts(
            #[trigger] diffs[i]@[j],
            golden,
            trials,
            i,
            j,
        )
    &&& finished ==> forall|i: int, j: int|
        0 <= i < rows && 0 <= j < cols ==> (#[trigger] diffs[i]@[j]).actual_value == (golden[i]@[j]
            != (diffs[i]@[j].diff_count > 0))
}

/// The matrix is silent at every step at which the input is silent.
pub open spec fn silent_where_input_is(out: Seq<Vec<bool>>, input: Seq<Vec<bool>>) -> bool {
    forall|i: int, t: int|
        0 <= i < out.len() && 0 <= t < out[i]@.len() && #[trigger] out[i]@[t] ==> exists|j: int|
            0 <= j < input.len() && #[trigger] input[j]@[t]
}

/// The matrix is what `net` outputs on `input`: entry `[i][t]` tells whether
/// output neuron `i` fires at step `t`.
pub open spec fn output_of<U: FloatUnit>(
    out: Seq<Vec<bool>>,
    net: &Network,
    unit: &U,
    input: Seq<Vec<bool>>,
    rows: int,
    cols: int,
) -> bool {
    forall|i: int, t: int|
        0 <= i < rows && 0 <= t < cols ==> (#[trigger] out[i]@[t] == run_spec(net, unit, input)[t].contains(
            i as usize,
        ))
}

/// Each trial's output is what a copy of `net` outputs on `input` once the
/// fault that its record describes is placed, with `model`, at a site of `net`.
pub open spec fn trials_are_runs<U: FloatUnit>(
    trials: Seq<(Vec<Vec<bool>>, DamageDetail)>,
    net: &Network,
    unit: &U,
    input: Seq<Vec<bool>>,
    model: DamageModel,
    rows: int,
    cols: int,
) -> bool {
    forall|k: int|
        0 <= k < trials.len() ==> exists|d: Network, site: FaultSite|
            {
                &&& site_in(net, site)
                &&& #[trigger] network_hit(&d, net, site, damage_of(model, site.bit, site.time_step))
                &&& (#[trigger] trials[k]).1 == detail_of(site, k as usize)
                &&& output_of(trials[k].0@, &d, unit, input, rows, cols)
            }
}

/// A fault placed on a copy is placed on the network copied.
pub proof fn lemma_hit_through_copy(
    after: &Network,
    copy: &Network,
    orig: &Network,
    site: FaultSite,
    d: Damage,
)
    requires
        network_hit(after, copy, site, d),
        copy.same_as(orig),
        site_in(copy, site),
    ensures
        network_hit(after, orig, site, d),
        site_in(orig, site),
{
    let a = copy.layers@[site.layer as int]@[site.neuron as int];
    let b = orig.layers@[site.layer as int]@[site.neuron as int];
    assert(a.same_state(&b));
    assert(copy.layers@[site.layer as int]@.len() == orig.layers@[site.layer as int]@.len());
    assert forall|k: int, n: int|
        0 <= k < after.layers@.len() && 0 <= n < after.layers@[k]@.len() && (k != site.layer
            || n != site.neuron) implies (#[trigger] after.layers@[k]@[n]).same_state(
        &orig.layers@[k]@[n],
    ) by {
        assert(copy.layers@[k]@[n].same_state(&orig.layers@[k]@[n]));
    }
}

/// Every trial has the golden output's shape, and its fault record names the
/// trial, an element kind of `elements`, a neuron of `net` and a register bit.
pub open spec fn trials_valid(
    trials: Seq<(Vec<Vec<bool>>, DamageDetail)>,
    net: &Network,
    elements: Seq<FaultyElement>,
    rows: int,
    cols: int,
) -> bool {
    forall|k: int|
        0 <= k < trials.len() ==> {
            let d = (#[trigger] trials[k]).1;
            &&& matrix_has_shape(trials[k].0@, rows, cols)
            &&& d.at_iteration == k
            &&& elements.contains(d.damage_type)
            &&& d.at_layer < net.layers@.len()
            &&& d.at_neuron < net.layers@[d.at_layer as int]@.len()
            &&& d.at_bit < 64
        }
}

impl SimulationResultCell {
    /// The cell of output `row_id` at time step `col_id`, with no divergence.
    pub fn new(row_id: usize, col_id: usize) -> (r: SimulationResultCell)
        ensures
            r.output_index == row_id,
            r.time_step == col_id,
            !r.actual_value,
            r.diff_count == 0,
            r.damage_details@.len() == 0,
    {
        SimulationResultCell {
            output_index: row_id,
            time_step: col_id,
            actual_value: false,
            diff_count: 0,
            damage_details: Vec::new(),
        }
    }
}

impl Network {
    /// Places the fault that `damage_type` gives for the site's bit and time
    /// step on the register that `site` names, and returns its record.
    pub fn apply_fault(&mut self, damage_type: DamageModel, site: FaultSite) -> (r: DamageDetail)
        requires
            site_in(old(self), site),
        ensures
            network_hit(final(self), old(self), site, damage_of(damage_type, site.bit, site.time_step)),
            r == detail_of(site, 0),
    {
        let damage = match damage_type {
            DamageModel::StuckAt0 => Damage::StuckAt0 { bit_position: site.bit },
            DamageModel::StuckAt1 => Damage::StuckAt1 { bit_position: site.bit },
            DamageModel::TransientBitFlip => Damage::TransientBitFlip {
                bit_position: site.bit,
                time_step: site.time_step,
            },
        };
        let l = site.layer;
        let n = site.neuron;
        let ghost before = *self;
        let mut neuron = self.layers[l][n].deep_copy();
        match site.element {
            FaultyElement::Weights => {
                if site.internal {
                    neuron.internal_weights.set(
                        site.weight_index,
                        Register { value: neuron.internal_weights[site.weight_index].value, damage },
                    );
                } else {
                    neuron.weights.set(
                        site.weight_index,
                        Register { value: neuron.weights[site.weight_index].value, damage },
                    );
                }
            },
            FaultyElement::Thresholds => neuron.v_th.apply_damage(damage),
            FaultyElement::MembranePotentials => neuron.v_mem.apply_damage(damage),
            FaultyElement::ResetPotentials => neuron.v_reset.apply_damage(damage),
            FaultyElement::PotentialsAtRest => neuron.v_rest.apply_damage(damage),
            FaultyElement::Comparator => neuron.cmp_reg.apply_damage(damage),
            FaultyElement::Adder => neuron.add_reg.apply_damage(damage),
            FaultyElement::Multiplier => neuron.mul_reg.apply_damage(damage),
            FaultyElement::Divider => neuron.div_reg.apply_damage(damage),
        }
        self.layers[l].set(n, neuron);
        DamageDetail {
            at_iteration: 0,
            damage_type: site.element,
            at_layer: site.layer,
            at_neuron: site.neuron,
            at_bit: site.bit,
        }
    }
    /// Draws one fault at random and places it: an element kind of
    /// `faulty_elements`, a layer, a neuron of it, a bit and, for a transient
    /// flip, a time step below `number_of_time_steps`; for a weight a fair
    /// coin picks the upstream or the lateral vector, then an entry of it.
    /// Returns `None`, leaving the network alone, when there is no kind to draw.
    pub fn apply_damage_to_snn(
        &mut self,
        damage_type: DamageModel,
        faulty_elements: &Vec<FaultyElement>,
        number_of_time_steps: usize,
        rng: &mut rand::rngs::StdRng,
    ) -> (r: Option<DamageDetail>)
        requires
            old(self).wf(),
        ensures
            r is None <==> faulty_elements@.len() == 0,
            r is None ==> *final(self) == *old(self),
            r is Some ==> exists|site: FaultSite|
                {
                    &&& site_in(old(self), site)
                    &&& faulty_elements@.contains(site.element)
                    &&& (number_of_time_steps > 0 ==> site.time_step < number_of_time_steps)
                    &&& network_hit(
                        final(self),
                        old(self),
                        site,
                        damage_of(damage_type, site.bit, site.time_step),
                    )
                    &&& r->Some_0 == detail_of(site, 0)
                },
    {
        if faulty_elements.len() == 0 {
            return None;
        }
        let e = draw_below(rng, faulty_elements.len());
        let element = faulty_elements[e];
        let layer = draw_below(rng, self.layers.len());
        assert(layer_wf(self.layers@[layer as int]@, self.fan_in(layer as int)));
        let neuron = draw_below(rng, self.layers[layer].len());
        let bit = draw_below(rng, REGISTER_BITS);
        let time_step = if damage_type == DamageModel::TransientBitFlip && number_of_time_steps > 0 {
            draw_below(rng, number_of_time_steps)
        } else {
            0
        };
        let mut internal = false;
        let mut weight_index: usize = 0;
        if element == FaultyElement::Weights {
            internal = draw_below(rng, 2) == 1;
            let len = if internal {
                self.layers[layer][neuron].internal_weights.len()
            } else {
                self.layers[layer][neuron].weights.len()
            };
            if layer > 0 {
                assert(layer_wf(
                    self.layers@[layer - 1]@,
                    self.fan_in(layer - 1),
                ));
            }
            weight_index = draw_below(rng, len);
        }
        let site = FaultSite { element, layer, neuron, bit, time_step, internal, weight_index };
        assert(faulty_elements@[e as int] == element);
        let detail = self.apply_fault(damage_type, site);
        Some(detail)
    }

    /// Compares a trial's output with the golden one: each cell where they
    /// differ counts one more divergence and records `damage_detail` for
    /// trial `iteration_number`.
    pub fn compare_outputs(
        output_without_damages: &Vec<Vec<bool>>,
        output_with_damage: &Vec<Vec<bool>>,
        simulation_result_matrix: &mut Vec<Vec<SimulationResultCell>>,
        iteration_number: usize,
        damage_detail: DamageDetail,
    )
        requires
            output_with_damage@.len() == output_without_damages@.len(),
            old(simulation_result_matrix)@.len() == output_without_damages@.len(),
            forall|i: int|
                0 <= i < output_without_damages@.len() ==> {
                    &&& (#[trigger] output_with_damage@[i])@.len()
                        == output_without_damages@[i]@.len()
                    &&& old(simulation_result_matrix)@[i]@.len()
                        == output_without_damages@[i]@.len()
                },
            forall|i: int, j: int|
                0 <= i < old(simulation_result_matrix)@.len() && 0 <= j < old(simulation_result_matrix)@[i]@.len() ==> (#[trigger] old(simulation_result_matrix)@[i]@[j]).diff_count
                    < usize::MAX,
        ensures
            final(simulation_result_matrix)@.len() == old(simulation_result_matrix)@.len(),
            forall|i: int|
                0 <= i < old(simulation_result_matrix)@.len() ==> (#[trigger] final(simulation_result_matrix)@[i])@.len() == old(simulation_result_matrix)@[i]@.len(),
            forall|i: int, j: int|
                0 <= i < old(simulation_result_matrix)@.len() && 0 <= j < old(simulation_result_matrix)@[i]@.len() ==> {
                    let before = old(simulation_result_matrix)@[i]@[j];
                    let after = #[trigger] final(simulation_result_matrix)@[i]@[j];
                    let differs = output_with_damage@[i]@[j] != output_without_damages@[i]@[j];
                    &&& after.output_index == before.output_index
                    &&& after.time_step == before.time_step
                    &&& after.actual_value == before.actual_value
                    &&& after.diff_count == before.diff_count + if differs {
                        1int
                    } else {
                        0int
                    }
                    &&& after.damage_details@ == if differs {
                        before.damage_details@.push(
                            DamageDetail { at_iteration: iteration_number, ..damage_detail },
                        )
                    } else {
                        before.damage_details@
                    }
                },
    {
        let ghost start = simulation_result_matrix@;
        let mut detail = damage_detail;
        detail.at_iteration = iteration_number;
        let rows = output_with_damage.len();
        assert forall|a: int| 0 <= a < rows implies (#[trigger] start[a])@.len()
            == output_without_damages@[a]@.len() by {
            assert(output_with_damage@[a]@.len() == output_without_damages@[a]@.len());
        }
        let mut i: usize = 0;
        while i < rows
            invariant
                rows == output_with_damage@.len(),
                rows == output_without_damages@.len(),
                start.len() == rows,
                i <= rows,
                detail == (DamageDetail { at_iteration: iteration_number, ..damage_detail }),
                simulation_result_matrix@.len() == rows,
                forall|a: int|
                    0 <= a < rows ==> (#[trigger] output_with_damage@[a])@.len()
                        == output_without_damages@[a]@.len(),
                forall|a: int|
                    0 <= a < rows ==> (#[trigger] start[a])@.len() == output_without_damages@[a]@.len(),
                forall|a: int|
                    0 <= a < rows ==> (#[trigger] simulation_result_matrix@[a])@.len() == start[a]@.len(),
                forall|a: int, b: int|
                    0 <= a < rows && 0 <= b < start[a]@.len() ==> (#[trigger] start[a]@[b]).diff_count
                        < usize::MAX,
                forall|a: int| i <= a < rows ==> #[trigger] simulation_result_matrix@[a] == start[a],
                forall|a: int, b: int|
                    0 <= a < i && 0 <= b < start[a]@.len() ==> {
                        let before = start[a]@[b];
                        let after = #[trigger] simulation_result_matrix@[a]@[b];
                        let differs = output_with_damage@[a]@[b] != output_without_damages@[a]@[b];
                        &&& after.output_index == before.output_index
                        &&& after.time_step == before.time_step
                        &&& after.actual_value == before.actual_value
                        &&& after.diff_count == before.diff_count + if differs {
                            1int
                        } else {
                            0int
                        }
                        &&& after.damage_details@ == if differs {
                            before.damage_details@.push(detail)
                        } else {
                            before.damage_details@
                        }
                    },
            decreases rows - i,
        {
            let cols = output_with_damage[i].len();
            let mut j: usize = 0;
            while j < cols
                invariant
                    rows == output_with_damage@.len(),
                    rows == output_without_damages@.len(),
                    start.len() == rows,
                    i < rows,
                    j <= cols,
                    cols == output_with_damage@[i as int]@.len(),
                    simulation_result_matrix@.len() == rows,
                    forall|a: int|
                        0 <= a < rows ==> (#[trigger] output_with_damage@[a])@.len()
                            == output_without_damages@[a]@.len(),
                    forall|a: int|
                        0 <= a < rows ==> (#[trigger] start[a])@.len() == output_without_damages@[a]@.len(),
                    forall|a: int|
                        0 <= a < rows ==> (#[trigger] simulation_result_matrix@[a])@.len() == start[a]@.len(),
                    forall|a: int, b: int|
                        0 <= a < rows && 0 <= b < start[a]@.len() ==> (#[trigger] start[a]@[b]).diff_count
                            < usize::MAX,
                    forall|a: int| i < a < rows ==> #[trigger] simulation_result_matrix@[a] == start[a],
                    forall|b: int|
                        j <= b < cols ==> #[trigger] simulation_result_matrix@[i as int]@[b]
                            == start[i as int]@[b],
                    forall|a: int, b: int|
                        0 <= a < i && 0 <= b < start[a]@.len() ==> {
                            let before = start[a]@[b];
                            let after = #[trigger] simulation_result_matrix@[a]@[b];
                            let differs = output_with_damage@[a]@[b]
                                != output_without_damages@[a]@[b];
                            &&& after.output_index == before.output_index
                            &&& after.time_step == before.time_step
                            &&& after.actual_value == before.actual_value
                            &&& after.diff_count == before.diff_count + if differs {
                                1int
                            } else {
                                0int
                            }
                            &&& after.damage_details@ == if differs {
                                before.damage_details@.push(detail)
                            } else {
                                before.damage_details@
                            }
                        },
                    forall|b: int|
                        0 <= b < j ==> {
                            let before = start[i as int]@[b];
                            let after = #[trigger] simulation_result_matrix@[i as int]@[b];
                            let differs = output_with_damage@[i as int]@[b]
                                != output_without_damages@[i as int]@[b];
                            &&& after.output_index == before.output_index
                            &&& after.time_step == before.time_step
                            &&& after.actual_value == before.actual_value
                            &&& after.diff_count == before.diff_count + if differs {
                                1int
                            } else {
                                0int
                            }
                            &&& after.damage_details@ == if differs {
                                before.damage_details@.push(detail)
                            } else {
                                before.damage_details@
                            }
                        },
                decreases cols - j,
            {
                if output_with_damage[i][j] != output_without_damages[i][j] {
                    let count = simulation_result_matrix[i][j].diff_count;
                    simulation_result_matrix[i][j].diff_count = count + 1;
                    simulation_result_matrix[i][j].damage_details.push(detail);
                }
                j = j + 1;
            }
            i = i + 1;
        }
    }
    /// Placing a fault with a valid bit keeps a network well formed.
    pub proof fn lemma_hit_wf(&self, before: &Network, site: FaultSite, d: Damage)
        requires
            before.wf(),
            site_in(before, site),
            d.wf(),
            network_hit(self, before, site, d),
        ensures
            self.wf(),
    {
        assert forall|k: int| 0 <= k < self.layers@.len() implies layer_wf(
            #[trigger] self.layers@[k]@,
            self.fan_in(k),
        ) by {
            assert(layer_wf(before.layers@[k]@, before.fan_in(k)));
            if k > 0 {
                assert(self.layers@[k - 1]@.len() == before.layers@[k - 1]@.len());
            }
            assert forall|n: int| 0 <= n < self.layers@[k]@.len() implies {
                &&& (#[trigger] self.layers@[k]@[n]).wf()
                &&& self.layers@[k]@[n].weights@.len() == self.fan_in(k)
                &&& self.layers@[k]@[n].internal_weights@.len() == self.layers@[k]@.len()
            } by {
                let a = self.layers@[k]@[n];
                let b = before.layers@[k]@[n];
                assert(b.wf());
                if k == site.layer && n == site.neuron {
                    assert(neuron_hit(a, b, site, d));
                    assert forall|w: int| 0 <= w < a.weights@.len() implies (
                    #[trigger] a.weights@[w]).wf() by {
                        assert(b.weights@[w].wf());
                    }
                    assert forall|w: int| 0 <= w < a.internal_weights@.len() implies (
                    #[trigger] a.internal_weights@[w]).wf() by {
                        assert(b.internal_weights@[w].wf());
                    }
                } else {
                    assert(a.same_state(&b));
                }
            }
        }
        let last = self.layers@.len() - 1;
        assert(self.layers@[last]@.len() == before.layers@[last]@.len());
    }

    /// Runs a fault campaign on `input`, drawing the faults from `rng`: one
    /// golden run of the network as it is, then `iterations` trials, each on a
    /// fresh copy carrying one fault drawn by
    /// [`Network::apply_damage_to_snn`] with `damage_type` among
    /// `faulty_elements`.
    ///
    /// Fails when the network does not accept `input`, or when trials are
    /// asked for but `faulty_elements` is empty. Otherwise the result holds the
    /// golden output and, for every output `i` and step `j`, the number and
    /// the faults of the trials whose output differs there from the golden
    /// one, and the golden value inverted when that number is not zero.
    pub fn simulate_with_rng<U: FloatUnit>(
        &self,
        unit: &U,
        faulty_elements: Vec<FaultyElement>,
        damage_type: DamageModel,
        iterations: usize,
        input: Vec<Vec<bool>>,
        rng: &mut rand::rngs::StdRng,
    ) -> (r: Option<SimulationResult>)
        requires
            self.wf(),
        ensures
            r is None <==> (!self.accepts(input@) || (iterations > 0
                && faulty_elements@.len() == 0)),
            r is Some ==> ({
                let res = r->Some_0;
                let rows = self.nr_outputs as int;
                let cols = input@[0]@.len() as int;
                &&& res.number_of_iterations == iterations
                &&& res.type_of_damage == damage_type
                &&& matrix_has_shape(res.output_without_damages@, rows, cols)
                &&& silent_where_input_is(res.output_without_damages@, input@)
                &&& output_of(res.output_without_damages@, self, unit, input@, rows, cols)
                &&& exists|trials: Seq<(Vec<Vec<bool>>, DamageDetail)>|
                    {
                        &&& trials.len() == iterations
                        &&& trials_valid(trials, self, faulty_elements@, rows, cols)
                        &&& trials_are_runs(trials, self, unit, input@, damage_type, rows, cols)
                        &&& #[trigger] matrix_accounts(
                            res.diffs@,
                            res.output_without_damages@,
                            trials,
                            rows,
                            cols,
                            true,
                        )
                    }
            }),
    {
        if !self.accepts_input(&input) {
            return None;
        }
        if iterations > 0 && faulty_elements.len() == 0 {
            return None;
        }
        let time_steps = input[0].len();
        let rows = self.nr_outputs;

        let mut diffs: Vec<Vec<SimulationResultCell>> = Vec::new();
        let mut i: usize = 0;
        while i < rows
            invariant
                i <= rows,
                matrix_accounts(diffs@, Seq::empty(), Seq::empty(), i as int, time_steps as int, false),
            decreases rows - i,
        {
            let mut row: Vec<SimulationResultCell> = Vec::new();
            let mut j: usize = 0;
            while j < time_steps
                invariant
                    j <= time_steps,
                    row@.len() == j,
                    forall|b: int|
                        0 <= b < j ==> cell_accounts(
                            #[trigger] row@[b],
                            Seq::empty(),
                            Seq::empty(),
                            i as int,
                            b,
                        ),
                decreases time_steps - j,
            {
                let cell = SimulationResultCell::new(i, j);
                assert(cell.damage_details@ =~= Seq::<DamageDetail>::empty());
                row.push(cell);
                j = j + 1;
            }
            diffs.push(row);
            i = i + 1;
        }

        let reference = self.deep_copy();
        proof {
            reference.lemma_same_as_wf(self);
        }
        let input_copy = copy_matrix(&input);
        let ghost copied = input_copy@;
        let ghost reference_net = reference;
        let golden = match reference.run(unit, input_copy) {
            Some(o) => o,
            None => return None,
        };
        proof {
            lemma_stream_steps_agree(
                &reference_net,
                self,
                unit,
                copied,
                input@,
                self.layers@.len(),
            );
        }
        assert forall|i: int, t: int|
            0 <= i < golden@.len() && 0 <= t < golden@[i]@.len() && #[trigger] golden@[i]@[t]
            implies exists|j: int| 0 <= j < input@.len() && #[trigger] input@[j]@[t] by {
            let j = choose|j: int| 0 <= j < copied.len() && #[trigger] copied[j]@[t];
            assert(input@[j]@[t]);
        }
        let ghost mut trials: Seq<(Vec<Vec<bool>>, DamageDetail)> = Seq::empty();
        proof {
            assert forall|a: int, b: int|
                0 <= a < rows && 0 <= b < time_steps implies cell_accounts(
                #[trigger] diffs@[a]@[b],
                golden@,
                trials,
                a,
                b,
            ) by {
                assert(cell_accounts(diffs@[a]@[b], Seq::empty(), Seq::empty(), a, b));
            }
        }

        let mut k: usize = 0;
        while k < iterations
            invariant
                self.wf(),
                self.accepts(input@),
                iterations > 0 ==> faulty_elements@.len() > 0,
                time_steps == input@[0]@.len(),
                rows == self.nr_outputs,
                k <= iterations,
                trials.len() == k,
                matrix_has_shape(golden@, rows as int, time_steps as int),
                silent_where_input_is(golden@, input@),
                trials_valid(trials, self, faulty_elements@, rows as int, time_steps as int),
                output_of(golden@, self, unit, input@, rows as int, time_steps as int),
                trials_are_runs(trials, self, unit, input@, damage_type, rows as int, time_steps as int),
                matrix_accounts(diffs@, golden@, trials, rows as int, time_steps as int, false),
                forall|a: int, b: int|
                    0 <= a < rows && 0 <= b < time_steps ==> (#[trigger] diffs@[a]@[b]).diff_count
                        <= k,
            decreases iterations - k,
        {
            let mut snn = self.deep_copy();
            proof {
                snn.lemma_same_as_wf(self);
            }
            let ghost copy = snn;
            let detail = match snn.apply_damage_to_snn(
                damage_type,
                &faulty_elements,
                time_steps,
                rng,
            ) {
                Some(d) => d,
                None => return None,
            };
            let ghost site = choose|site: FaultSite|
                    {
                        &&& site_in(&copy, site)
                        &&& faulty_elements@.contains(site.element)
                        &&& (time_steps > 0 ==> site.time_step < time_steps)
                        &&& network_hit(
                            &snn,
                            &copy,
                            site,
                            damage_of(damage_type, site.bit, site.time_step),
                        )
                        &&& detail == detail_of(site, 0)
                    };
            let ghost dmg = damage_of(damage_type, site.bit, site.time_step);
            proof {
                snn.lemma_hit_wf(&copy, site, damage_of(damage_type, site.bit, site.time_step));
                assert(copy.layers@[site.layer as int]@.len() == self.layers@[site.layer as int]@.len());
            }
            let ghost hit = snn;
            let trial_input = copy_matrix(&input);
            let ghost trial_copied = trial_input@;
            let damaged = match snn.run(unit, trial_input) {
                Some(o) => o,
                None => return None,
            };
            proof {
                lemma_hit_through_copy(&hit, &copy, self, site, dmg);
                assert(hit.same_as(&hit));
                lemma_stream_steps_agree(&hit, &hit, unit, trial_copied, input@, hit.layers@.len());
                assert(output_of(damaged@, &hit, unit, input@, rows as int, time_steps as int));
            }
            Self::compare_outputs(&golden, &damaged, &mut diffs, k, detail);
            let ghost record = DamageDetail { at_iteration: k, ..detail };
            let ghost before = trials;
            proof {
                trials = trials.push((damaged, record));
                assert(trials.drop_last() =~= before);
                assert forall|a: int, b: int|
                    0 <= a < rows && 0 <= b < time_steps implies cell_accounts(
                    #[trigger] diffs@[a]@[b],
                    golden@,
                    trials,
                    a,
                    b,
                ) by {}
                assert forall|t: int| 0 <= t < trials.len() implies {
                    let d = (#[trigger] trials[t]).1;
                    &&& matrix_has_shape(trials[t].0@, rows as int, time_steps as int)
                    &&& d.at_iteration == t
                    &&& faulty_elements@.contains(d.damage_type)
                    &&& d.at_layer < self.layers@.len()
                    &&& d.at_neuron < self.layers@[d.at_layer as int]@.len()
                    &&& d.at_bit < 64
                } by {
                    if t < k {
                        assert(trials[t] == before[t]);
                    }
                }
                assert forall|t: int| 0 <= t < trials.len() implies exists|d: Network, s: FaultSite|
                    {
                        &&& site_in(self, s)
                        &&& #[trigger] network_hit(&d, self, s, damage_of(damage_type, s.bit, s.time_step))
                        &&& (#[trigger] trials[t]).1 == detail_of(s, t as usize)
                        &&& output_of(trials[t].0@, &d, unit, input@, rows as int, time_steps as int)
                    } by {
                    if t < k {
                        assert(trials[t] == before[t]);
                    } else {
                        assert(trials[t] == (damaged, record));
                        assert(network_hit(&hit, self, site, damage_of(damage_type, site.bit, site.time_step)));
                    }
                }
            }
            k = k + 1;
        }

        let mut i: usize = 0;
        while i < rows
            invariant
                rows == self.nr_outputs,
                i <= rows,
                matrix_has_shape(golden@, rows as int, time_steps as int),
                silent_where_input_is(golden@, input@),
                trials.len() == iterations,
                trials_valid(trials, self, faulty_elements@, rows as int, time_steps as int),
                output_of(golden@, self, unit, input@, rows as int, time_steps as int),
                trials_are_runs(trials, self, unit, input@, damage_type, rows as int, time_steps as int),
                matrix_accounts(diffs@, golden@, trials, rows as int, time_steps as int, false),
                forall|a: int, b: int|
                    0 <= a < i && 0 <= b < time_steps ==> (#[trigger] diffs@[a]@[b]).actual_value
                        == (golden@[a]@[b] != (diffs@[a]@[b].diff_count > 0)),
            decreases rows - i,
        {
            let mut j: usize = 0;
            while j < time_steps
                invariant
                    rows == self.nr_outputs,
                    i < rows,
                    j <= time_steps,
                    matrix_has_shape(golden@, rows as int, time_steps as int),
                    trials.len() == iterations,
                    trials_valid(trials, self, faulty_elements@, rows as int, time_steps as int),
                    output_of(golden@, self, unit, input@, rows as int, time_steps as int),
                    trials_are_runs(trials, self, unit, input@, damage_type, rows as int, time_steps as int),
                    matrix_accounts(diffs@, golden@, trials, rows as int, time_steps as int, false),
                    forall|a: int, b: int|
                        0 <= a < i && 0 <= b < time_steps ==> (#[trigger] diffs@[a]@[b]).actual_value
                            == (golden@[a]@[b] != (diffs@[a]@[b].diff_count > 0)),
                    forall|b: int|
                        0 <= b < j ==> (#[trigger] diffs@[i as int]@[b]).actual_value == (
                        golden@[i as int]@[b] != (diffs@[i as int]@[b].diff_count > 0)),
                decreases time_steps - j,
            {
                let value = golden[i][j] != (diffs[i][j].diff_count > 0);
                diffs[i][j].actual_value = value;
                j = j + 1;
            }
            i = i + 1;
        }

        let res = SimulationResult {
            number_of_iterations: iterations,
            type_of_damage: damage_type,
            output_without_damages: golden,
            diffs,
        };
        assert(matrix_accounts(res.diffs@, res.output_without_damages@, trials, rows as int, time_steps as int, true));
        Some(res)
    }

    /// [`Network::simulate_with_rng`] with a generator seeded by the operating
    /// system.
    pub fn simulate<U: FloatUnit>(
        &self,
        unit: &U,
        faulty_elements: Vec<FaultyElement>,
        damage_type: DamageModel,
        iterations: usize,
        input: Vec<Vec<bool>>,
    ) -> (r: Option<SimulationResult>)
        requires
            self.wf(),
        ensures
            r is None <==> (!self.accepts(input@) || (iterations > 0
                && faulty_elements@.len() == 0)),
            r is Some ==> ({
                let res = r->Some_0;
                let rows = self.nr_outputs as int;
                let cols = input@[0]@.len() as int;
                &&& res.number_of_iterations == iterations
                &&& res.type_of_damage == damage_type
                &&& matrix_has_shape(res.output_without_damages@, rows, cols)
                &&& silent_where_input_is(res.output_without_damages@, input@)
                &&& output_of(res.output_without_damages@, self, unit, input@, rows, cols)
                &&& exists|trials: Seq<(Vec<Vec<bool>>, DamageDetail)>|
                    {
                        &&& trials.len() == iterations
                        &&& trials_valid(trials, self, faulty_elements@, rows, cols)
                        &&& trials_are_runs(trials, self, unit, input@, damage_type, rows, cols)
                        &&& #[trigger] matrix_accounts(
                            res.diffs@,
                            res.output_without_damages@,
                            trials,
                            rows,
                            cols,
                            true,
                        )
                    }
            }),
    {
        let mut rng = fresh_rng();
        self.simulate_with_rng(unit, faulty_elements, damage_type, iterations, input, &mut rng)
    }
}

/// A copy of the matrix, row by row.
pub fn copy_matrix(m: &Vec<Vec<bool>>) -> (r: Vec<Vec<bool>>)
    ensures
        r@.len() == m@.len(),
        forall|i: int| 0 <= i < m@.len() ==> (#[trigger] r@[i])@ == m@[i]@,
{
    let mut r: Vec<Vec<bool>> = Vec::new();
    let mut i: usize = 0;
    while i < m.len()
        invariant
            i <= m@.len(),
            r@.len() == i,
            forall|a: int| 0 <= a < i ==> (#[trigger] r@[a])@ == m@[a]@,
        decreases m@.len() - i,
    {
        let mut row: Vec<bool> = Vec::new();
        let mut j: usize = 0;
        while j < m[i].len()
            invariant
                i < m@.len(),
                j <= m@[i as int]@.len(),
                row@ == m@[i as int]@.take(j as int),
            decreases m@[i as int]@.len() - j,
        {
            row.push(m[i][j]);
            j = j + 1;
            assert(row@ =~= m@[i as int]@.take(j as int));
        }
        assert(row@ =~= m@[i as int]@);
        r.push(row);
        i = i + 1;
    }
    r
}

} // verus!
