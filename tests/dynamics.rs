use rand::SeedableRng;
use snn::arith::FloatUnit;
use snn::campaign::{DamageModel, FaultSite, FaultyElement};
use snn::network::{LayerData, Network, NetworkData, NeuronData, SnnError};
use snn::neuron::NeuronModel;
use snn::register::Damage;

struct F64Unit;

impl FloatUnit for F64Unit {
    fn add_spec(&self, a: u64, b: u64) -> u64 {
        self.add(a, b)
    }
    fn sub_spec(&self, a: u64, b: u64) -> u64 {
        self.sub(a, b)
    }
    fn mul_spec(&self, a: u64, b: u64) -> u64 {
        self.mul(a, b)
    }
    fn div_spec(&self, a: u64, b: u64) -> u64 {
        self.div(a, b)
    }
    fn exp_spec(&self, a: u64) -> u64 {
        self.exp(a)
    }
    fn from_count_spec(&self, n: usize) -> u64 {
        self.from_count(n)
    }
    fn add(&self, a: u64, b: u64) -> u64 {
        (f64::from_bits(a) + f64::from_bits(b)).to_bits()
    }
    fn sub(&self, a: u64, b: u64) -> u64 {
        (f64::from_bits(a) - f64::from_bits(b)).to_bits()
    }
    fn mul(&self, a: u64, b: u64) -> u64 {
        (f64::from_bits(a) * f64::from_bits(b)).to_bits()
    }
    fn div(&self, a: u64, b: u64) -> u64 {
        (f64::from_bits(a) / f64::from_bits(b)).to_bits()
    }
    fn exp(&self, a: u64) -> u64 {
        f64::from_bits(a).exp().to_bits()
    }
    fn from_count(&self, n: usize) -> u64 {
        (n as f64).to_bits()
    }
}

fn bits(v: f64) -> u64 {
    v.to_bits()
}

fn neuron(weights: &[f64], internal: &[f64]) -> NeuronData {
    NeuronData {
        weights: weights.iter().map(|w| bits(*w)).collect(),
        internal_weights: internal.iter().map(|w| bits(*w)).collect(),
        v_th: bits(-55.0),
        v_rest: bits(-70.0),
        v_reset: bits(-70.0),
        tau: bits(10.0),
    }
}

fn network(nr_inputs: usize, layers: Vec<Vec<NeuronData>>) -> Network {
    let nr_outputs = layers.last().unwrap().len();
    let data = NetworkData {
        time_step_duration_us: bits(1000.0),
        nr_inputs,
        nr_outputs,
        model: NeuronModel::LeakyIntegrateAndFire,
        layers: layers.into_iter().map(|neurons| LayerData { neurons }).collect(),
    };
    Network::from_data(&data).expect("valid topology")
}

fn single(weight: f64) -> Network {
    network(1, vec![vec![neuron(&[weight], &[0.0])]])
}

fn with_fault(net: &Network, element: FaultyElement, model: DamageModel, bit: usize, step: usize) -> Network {
    let mut damaged = net.clone();
    damaged.apply_fault(
        model,
        FaultSite {
            element,
            layer: 0,
            neuron: 0,
            bit,
            time_step: step,
            internal: false,
            weight_index: 0,
        },
    );
    damaged
}

#[test]
fn single_neuron_single_step_fires() {
    let out = single(20.0).run(&F64Unit, vec![vec![true]]).unwrap();
    assert_eq!(out, vec![vec![true]]);
}

#[test]
fn sub_threshold_does_not_fire() {
    let out = single(10.0).run(&F64Unit, vec![vec![true]]).unwrap();
    assert_eq!(out, vec![vec![false]]);
}

#[test]
fn sub_threshold_membrane_potential() {
    let mut n = single(10.0).layers[0][0].clone();
    let fired = n.feed_pulses(&F64Unit, &vec![0], 0, bits(1.0), NeuronModel::LeakyIntegrateAndFire);
    assert!(!fired);
    assert_eq!(f64::from_bits(n.v_mem.value), -60.0);
    assert_eq!(n.last_received_pulse_step, 0);
}

#[test]
fn firing_resets_membrane_potential() {
    let mut n = single(20.0).layers[0][0].clone();
    let fired = n.feed_pulses(&F64Unit, &vec![0], 0, bits(1.0), NeuronModel::IntegrateAndFire);
    assert!(fired);
    assert_eq!(f64::from_bits(n.v_mem.value), -70.0);
}

#[test]
fn integrate_and_fire_accumulates() {
    let mut n = single(10.0).layers[0][0].clone();
    assert!(!n.feed_pulses(&F64Unit, &vec![0], 0, bits(1.0), NeuronModel::IntegrateAndFire));
    assert!(n.feed_pulses(&F64Unit, &vec![0], 5, bits(1.0), NeuronModel::IntegrateAndFire));
    assert_eq!(n.last_received_pulse_step, 5);
}

#[test]
fn leaky_potential_decays_between_steps() {
    let mut n = single(10.0).layers[0][0].clone();
    n.feed_pulses(&F64Unit, &vec![0], 0, bits(1.0), NeuronModel::LeakyIntegrateAndFire);
    n.inhibite_after_pulses_emission(&F64Unit, &vec![], 10, bits(1.0), NeuronModel::LeakyIntegrateAndFire);
    let expected = -70.0 + 10.0 * (-1.0f64).exp();
    assert!((f64::from_bits(n.v_mem.value) - expected).abs() < 1e-9);
}

#[test]
fn lateral_inhibition_silences_step_one() {
    let net = network(
        2,
        vec![vec![neuron(&[20.0, 0.0], &[0.0, -100.0]), neuron(&[0.0, 20.0], &[-100.0, 0.0])]],
    );
    let out = net.run(&F64Unit, vec![vec![true, true], vec![true, true]]).unwrap();
    assert_eq!(out, vec![vec![true, false], vec![true, false]]);
}

#[test]
fn without_inhibition_step_one_fires() {
    let net = network(
        2,
        vec![vec![neuron(&[20.0, 0.0], &[0.0, 0.0]), neuron(&[0.0, 20.0], &[0.0, 0.0])]],
    );
    let out = net.run(&F64Unit, vec![vec![true, true], vec![true, true]]).unwrap();
    assert_eq!(out, vec![vec![true, true], vec![true, true]]);
}

#[test]
fn sign_bit_stuck_at_0_makes_threshold_unreachable() {
    let net = single(20.0);
    let damaged = with_fault(&net, FaultyElement::Thresholds, DamageModel::StuckAt0, 63, 0);
    assert_eq!(damaged.layers[0][0].v_th.read_value(Some(0)), Some(bits(55.0)));
    let golden = net.run(&F64Unit, vec![vec![true]]).unwrap();
    let out = damaged.run(&F64Unit, vec![vec![true]]).unwrap();
    assert_eq!(golden, vec![vec![true]]);
    assert_eq!(out, vec![vec![false]]);

    let mut diffs = vec![vec![snn::campaign::SimulationResultCell::new(0, 0)]];
    let detail = snn::campaign::DamageDetail {
        at_iteration: 0,
        damage_type: FaultyElement::Thresholds,
        at_layer: 0,
        at_neuron: 0,
        at_bit: 63,
    };
    Network::compare_outputs(&golden, &out, &mut diffs, 0, detail);
    assert_eq!(diffs[0][0].diff_count, 1);
    assert_eq!(diffs[0][0].damage_details, vec![detail]);
}

#[test]
fn sign_bit_stuck_at_1_keeps_negative_threshold() {
    let net = single(20.0);
    let damaged = with_fault(&net, FaultyElement::Thresholds, DamageModel::StuckAt1, 63, 0);
    assert_eq!(damaged.layers[0][0].v_th.read_value(Some(0)), Some(bits(-55.0)));
    let out = damaged.run(&F64Unit, vec![vec![true]]).unwrap();
    assert_eq!(out, vec![vec![true]]);
}

#[test]
fn transient_flip_on_adder_affects_only_its_step() {
    let net = single(20.0);
    let golden = net.clone().run(&F64Unit, vec![vec![true, true]]).unwrap();
    assert_eq!(golden, vec![vec![true, true]]);
    let damaged = with_fault(&net, FaultyElement::Adder, DamageModel::TransientBitFlip, 0, 0);
    assert_eq!(damaged.layers[0][0].add_reg.damage, Damage::TransientBitFlip { bit_position: 0, time_step: 0 });
    let out = damaged.run(&F64Unit, vec![vec![true, true]]).unwrap();
    assert_eq!(out[0][1], golden[0][1]);
}

#[test]
fn seeded_campaigns_are_identical() {
    let net = network(
        2,
        vec![
            vec![neuron(&[20.0, 5.0], &[0.0, -3.0]), neuron(&[8.0, 20.0], &[-3.0, 0.0])],
            vec![neuron(&[20.0, 20.0], &[0.0])],
        ],
    );
    let input = vec![vec![true, false, true, true], vec![true, true, false, true]];
    let elements = vec![
        FaultyElement::Weights,
        FaultyElement::Thresholds,
        FaultyElement::MembranePotentials,
        FaultyElement::ResetPotentials,
        FaultyElement::PotentialsAtRest,
        FaultyElement::Comparator,
        FaultyElement::Adder,
        FaultyElement::Multiplier,
        FaultyElement::Divider,
    ];
    let mut rng1 = rand::rngs::StdRng::seed_from_u64(42);
    let mut rng2 = rand::rngs::StdRng::seed_from_u64(42);
    let a = net
        .simulate_with_rng(&F64Unit, elements.clone(), DamageModel::StuckAt1, 200, input.clone(), &mut rng1)
        .unwrap();
    let b = net
        .simulate_with_rng(&F64Unit, elements, DamageModel::StuckAt1, 200, input, &mut rng2)
        .unwrap();
    assert_eq!(a.output_without_damages, b.output_without_damages);
    for i in 0..a.diffs.len() {
        for j in 0..a.diffs[i].len() {
            assert_eq!(a.diffs[i][j].diff_count, b.diffs[i][j].diff_count);
            assert_eq!(a.diffs[i][j].actual_value, b.diffs[i][j].actual_value);
            assert_eq!(a.diffs[i][j].damage_details, b.diffs[i][j].damage_details);
        }
    }
}

#[test]
fn campaign_accounts_for_every_divergence() {
    let net = single(20.0);
    let input = vec![vec![true, true, false]];
    let mut rng = rand::rngs::StdRng::seed_from_u64(7);
    let res = net
        .simulate_with_rng(
            &F64Unit,
            vec![FaultyElement::Thresholds],
            DamageModel::StuckAt0,
            64,
            input,
            &mut rng,
        )
        .unwrap();
    assert_eq!(res.number_of_iterations, 64);
    assert_eq!(res.output_without_damages, vec![vec![true, true, false]]);
    for (j, cell) in res.diffs[0].iter().enumerate() {
        assert_eq!(cell.output_index, 0);
        assert_eq!(cell.time_step, j);
        assert_eq!(cell.diff_count, cell.damage_details.len());
        assert_eq!(cell.actual_value, res.output_without_damages[0][j] != (cell.diff_count > 0));
        for d in &cell.damage_details {
            assert_eq!(d.damage_type, FaultyElement::Thresholds);
            assert!(d.at_bit < 64);
            assert!(d.at_iteration < 64);
        }
        for w in cell.damage_details.windows(2) {
            assert!(w[0].at_iteration < w[1].at_iteration);
        }
    }
    // Without input at step 2 no trial can fire there.
    assert_eq!(res.diffs[0][2].diff_count, 0);
    assert!(!res.diffs[0][2].actual_value);
    // Clearing the sign bit always silences steps 0 and 1.
    for d in &res.diffs[0][0].damage_details {
        assert!(res.diffs[0][1].damage_details.contains(d));
    }
}

#[test]
fn working_fault_gives_golden_output() {
    let net = network(
        2,
        vec![vec![neuron(&[20.0, 0.0], &[0.0, -100.0]), neuron(&[0.0, 20.0], &[-100.0, 0.0])]],
    );
    let input = vec![vec![true, false, true], vec![true, true, true]];
    let mut damaged = net.clone();
    damaged.layers[0][1].v_th.apply_damage(Damage::Working);
    let golden = net.run(&F64Unit, input.clone()).unwrap();
    let out = damaged.run(&F64Unit, input).unwrap();
    assert_eq!(golden, out);
}

#[test]
fn campaign_rejects_ragged_input() {
    let net = single(20.0);
    let r = net.simulate(
        &F64Unit,
        vec![FaultyElement::Weights],
        DamageModel::StuckAt0,
        3,
        vec![vec![true, false], vec![true]],
    );
    assert!(r.is_none());
}

#[test]
fn campaign_rejects_empty_element_list() {
    let net = single(20.0);
    assert!(net.simulate(&F64Unit, vec![], DamageModel::StuckAt0, 1, vec![vec![true]]).is_none());
    let r = net.simulate(&F64Unit, vec![], DamageModel::StuckAt0, 0, vec![vec![true]]).unwrap();
    assert_eq!(r.diffs[0][0].diff_count, 0);
    assert!(r.diffs[0][0].actual_value);
}

#[test]
fn run_rejects_wrong_row_count() {
    assert!(single(20.0).run(&F64Unit, vec![vec![true], vec![true]]).is_none());
    assert!(single(20.0).run(&F64Unit, vec![]).is_none());
}

#[test]
fn two_layers_propagate_within_a_step() {
    let net = network(1, vec![vec![neuron(&[20.0], &[0.0])], vec![neuron(&[20.0], &[0.0])]]);
    let out = net.run(&F64Unit, vec![vec![true, false, true]]).unwrap();
    assert_eq!(out, vec![vec![true, false, true]]);
}

#[test]
fn topology_rejects_fan_in_mismatch() {
    let data = NetworkData {
        time_step_duration_us: bits(1000.0),
        nr_inputs: 2,
        nr_outputs: 1,
        model: NeuronModel::LeakyIntegrateAndFire,
        layers: vec![LayerData { neurons: vec![neuron(&[20.0], &[0.0])] }],
    };
    assert_eq!(Network::from_data(&data).err(), Some(SnnError::InvalidInput));
}

#[test]
fn topology_rejects_second_layer_fan_in_mismatch() {
    let data = NetworkData {
        time_step_duration_us: bits(1000.0),
        nr_inputs: 1,
        nr_outputs: 1,
        model: NeuronModel::IntegrateAndFire,
        layers: vec![
            LayerData { neurons: vec![neuron(&[20.0], &[0.0, 0.0]), neuron(&[20.0], &[0.0, 0.0])] },
            LayerData { neurons: vec![neuron(&[20.0], &[0.0])] },
        ],
    };
    assert_eq!(Network::from_data(&data).err(), Some(SnnError::InvalidInput));
}

#[test]
fn topology_rejects_output_count_mismatch() {
    let data = NetworkData {
        time_step_duration_us: bits(1000.0),
        nr_inputs: 1,
        nr_outputs: 2,
        model: NeuronModel::LeakyIntegrateAndFire,
        layers: vec![LayerData { neurons: vec![neuron(&[20.0], &[0.0])] }],
    };
    assert_eq!(Network::from_data(&data).err(), Some(SnnError::InvalidInput));
}

#[test]
fn topology_rejects_internal_weight_mismatch() {
    let data = NetworkData {
        time_step_duration_us: bits(1000.0),
        nr_inputs: 1,
        nr_outputs: 1,
        model: NeuronModel::LeakyIntegrateAndFire,
        layers: vec![LayerData { neurons: vec![neuron(&[20.0], &[])] }],
    };
    assert_eq!(Network::from_data(&data).err(), Some(SnnError::InvalidInput));
}

#[test]
fn topology_builds_described_neurons() {
    let net = single(20.0);
    assert_eq!(net.nr_inputs, 1);
    assert_eq!(net.nr_outputs, 1);
    let n = &net.layers[0][0];
    assert_eq!(n.weights.len(), 1);
    assert_eq!(n.weights[0].value, bits(20.0));
    assert_eq!(n.v_mem.value, bits(-70.0));
    assert_eq!(n.v_th.damage, Damage::Working);
    assert_eq!(net.get_outputs_number(), Ok(1));
}
