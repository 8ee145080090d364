use rand::SeedableRng;
use snn::arith::FloatUnit;
use snn::campaign::{copy_matrix, DamageModel, FaultyElement, SimulationResultCell};
use snn::network::{LayerData, Network, NetworkData, NeuronData};
use snn::neuron::{registers_of, Message, Neuron, NeuronModel};
use snn::register::{Damage, Register};

struct F64Unit;

impl FloatUnit for F64Unit {
    fn add_spec(&self, a: u64, b: u64) -> u64 {
        self.add(a, b)
    }
    fn sub_spec(&self, a: u64, b: u64) -> u64 {
        self.sub(a, b)
    }
    fn mul_spec(&self, a: u64, b: u64) -> u64 {
        self.mul(a, b)
    }
    fn div_spec(&self, a: u64, b: u64) -> u64 {
        self.div(a, b)
    }
    fn exp_spec(&self, a: u64) -> u64 {
        self.exp(a)
    }
    fn from_count_spec(&self, n: usize) -> u64 {
        self.from_count(n)
    }
    fn add(&self, a: u64, b: u64) -> u64 {
        (f64::from_bits(a) + f64::from_bits(b)).to_bits()
    }
    fn sub(&self, a: u64, b: u64) -> u64 {
        (f64::from_bits(a) - f64::from_bits(b)).to_bits()
    }
    fn mul(&self, a: u64, b: u64) -> u64 {
        (f64::from_bits(a) * f64::from_bits(b)).to_bits()
    }
    fn div(&self, a: u64, b: u64) -> u64 {
        (f64::from_bits(a) / f64::from_bits(b)).to_bits()
    }
    fn exp(&self, a: u64) -> u64 {
        f64::from_bits(a).exp().to_bits()
    }
    fn from_count(&self, n: usize) -> u64 {
        (n as f64).to_bits()
    }
}

fn layer(weights: &[&[f64]], internal: f64) -> Vec<Neuron> {
    let size = weights.len();
    let mut out = Vec::new();
    for (i, w) in weights.iter().enumerate() {
        let mut n = Neuron::default();
        n.set_weights(w.iter().map(|x| x.to_bits()).collect());
        n.set_internal_weights((0..size).map(|j| if i == j { 0.0f64.to_bits() } else { internal.to_bits() }).collect());
        out.push(n);
    }
    out
}


fn drive(neurons: &mut Vec<Neuron>, incoming: &[Message], time_steps: usize, model: NeuronModel) -> Vec<Message> {
    let mut out = Vec::new();
    let mut emitted = Vec::new();
    let mut pos = 0;
    for t in 0..time_steps {
        let mut sources = Vec::new();
        while pos < incoming.len() {
            let m = incoming[pos];
            pos += 1;
            match m {
                Message::Pulse(s) => sources.push(s),
                Message::GoAhead => break,
            }
        }
        out.extend(Network::layer_step(&F64Unit, neurons, &sources, &mut emitted, t, 1.0f64.to_bits(), model));
    }
    out
}

fn barriers(s: &[Message]) -> usize {
    s.iter().filter(|m| **m == Message::GoAhead).count()
}

#[test]
fn inject_input_orders_pulses_by_step() {
    let input = vec![vec![true, false, true], vec![false, false, true]];
    let s = Network::inject_input(&input, 3);
    assert_eq!(
        s,
        vec![
            Message::Pulse(0),
            Message::GoAhead,
            Message::GoAhead,
            Message::Pulse(0),
            Message::Pulse(1),
            Message::GoAhead
        ]
    );
}

#[test]
fn inject_input_without_steps_is_empty() {
    assert!(Network::inject_input(&vec![vec![], vec![]], 0).is_empty());
}

#[test]
fn write_results_follows_barriers() {
    let mut out = vec![vec![false; 3], vec![false; 3]];
    let s = vec![
        Message::Pulse(1),
        Message::GoAhead,
        Message::GoAhead,
        Message::Pulse(0),
        Message::Pulse(1),
        Message::GoAhead,
        Message::Pulse(0),
        Message::Pulse(5),
    ];
    Network::write_results(&s, &mut out);
    assert_eq!(out, vec![vec![false, false, true], vec![true, false, true]]);
}

#[test]
fn layer_step_emits_one_barrier_after_pulses() {
    let mut neurons = layer(&[&[20.0], &[10.0], &[30.0]], 0.0);
    let mut emitted = vec![];
    let out = Network::layer_step(&F64Unit, &mut neurons, &vec![0], &mut emitted, 0, 1.0f64.to_bits(), NeuronModel::LeakyIntegrateAndFire);
    assert_eq!(out, vec![Message::Pulse(0), Message::Pulse(2), Message::GoAhead]);
    assert_eq!(emitted, vec![0, 2]);
    let out = Network::layer_step(&F64Unit, &mut neurons, &vec![], &mut emitted, 1, 1.0f64.to_bits(), NeuronModel::LeakyIntegrateAndFire);
    assert_eq!(out, vec![Message::GoAhead]);
    assert!(emitted.is_empty());
}

#[test]
fn layer_worker_conserves_barriers() {
    let mut neurons = layer(&[&[20.0, 0.0], &[0.0, 20.0]], -100.0);
    let input = vec![vec![true, true, false, true], vec![false, true, true, true]];
    let incoming = Network::inject_input(&input, 4);
    let out = drive(&mut neurons, &incoming, 4, NeuronModel::LeakyIntegrateAndFire);
    assert_eq!(barriers(&incoming), 4);
    assert_eq!(barriers(&out), 4);
    assert_eq!(*out.last().unwrap(), Message::GoAhead);
}

#[test]
fn input_matrix_validity() {
    assert!(Network::input_matrix_is_valid(&vec![vec![true, false], vec![false, false]]));
    assert!(!Network::input_matrix_is_valid(&vec![vec![true, false], vec![false]]));
    assert!(!Network::input_matrix_is_valid(&vec![]));
    assert!(Network::input_matrix_is_valid(&vec![vec![]]));
}

#[test]
fn output_matrix_shape() {
    let mut net = Network::new(1000.0f64.to_bits(), 1, 2, NeuronModel::IntegrateAndFire);
    assert_eq!(net.get_outputs_number(), Err(()));
    net.add_layer(layer(&[&[1.0], &[1.0]], 0.0));
    assert_eq!(net.get_outputs_number(), Ok(2));
    assert_eq!(net.create_output_matrix(3), vec![vec![false; 3], vec![false; 3]]);
    assert!(net.accepts_input(&vec![vec![true, true]]));
    assert!(!net.accepts_input(&vec![vec![true], vec![true]]));
}

#[test]
fn neuron_defaults() {
    let n = Neuron::default();
    assert_eq!(f64::from_bits(n.v_th.value), -55.0);
    assert_eq!(f64::from_bits(n.v_rest.value), -70.0);
    assert_eq!(f64::from_bits(n.v_reset.value), -70.0);
    assert_eq!(f64::from_bits(n.tau.value), 10.0);
    assert_eq!(f64::from_bits(n.v_mem.value), -70.0);
    let m = Neuron::new(1, 2, 3, 4);
    assert_eq!((m.v_th.value, m.v_rest.value, m.v_reset.value, m.tau.value, m.v_mem.value), (1, 2, 3, 4, 2));
    assert_eq!(m.cmp_reg, Register::new(0));
}

#[test]
fn registers_of_keeps_order() {
    let r = registers_of(&vec![3, 1, 2]);
    assert_eq!(r, vec![Register::new(3), Register::new(1), Register::new(2)]);
}

#[test]
fn deep_copy_is_independent() {
    let mut net = Network::new(1000.0f64.to_bits(), 1, 1, NeuronModel::IntegrateAndFire);
    net.add_layer(layer(&[&[1.0]], 0.0));
    let copy = net.deep_copy();
    net.layers[0][0].v_th.apply_damage(Damage::StuckAt0 { bit_position: 1 });
    assert_eq!(copy.layers[0][0].v_th.damage, Damage::Working);
    assert_eq!(copy.layers[0][0].weights, net.layers[0][0].weights);
}

#[test]
fn copy_matrix_copies_rows() {
    let m = vec![vec![true, false], vec![], vec![false]];
    assert_eq!(copy_matrix(&m), m);
}

#[test]
fn drawn_faults_stay_in_range() {
    let data = NetworkData {
        time_step_duration_us: 1000.0f64.to_bits(),
        nr_inputs: 3,
        nr_outputs: 1,
        model: NeuronModel::LeakyIntegrateAndFire,
        layers: vec![
            LayerData {
                neurons: vec![
                    NeuronData { weights: vec![1, 2, 3], internal_weights: vec![0, 5], v_th: 0, v_rest: 0, v_reset: 0, tau: 0 },
                    NeuronData { weights: vec![1, 2, 3], internal_weights: vec![5, 0], v_th: 0, v_rest: 0, v_reset: 0, tau: 0 },
                ],
            },
            LayerData {
                neurons: vec![NeuronData { weights: vec![1, 2], internal_weights: vec![0], v_th: 0, v_rest: 0, v_reset: 0, tau: 0 }],
            },
        ],
    };
    let net = Network::from_data(&data).unwrap();
    let mut rng = rand::rngs::StdRng::seed_from_u64(3);
    let mut bits_seen = std::collections::HashSet::new();
    for _ in 0..200 {
        let mut snn = net.deep_copy();
        let d = snn
            .apply_damage_to_snn(DamageModel::TransientBitFlip, &vec![FaultyElement::Weights, FaultyElement::Divider], 5, &mut rng)
            .unwrap();
        assert!(d.at_layer < 2);
        assert!(d.at_neuron < snn.layers[d.at_layer].len());
        assert!(d.at_bit < 64);
        bits_seen.insert(d.at_bit);
        let n = &snn.layers[d.at_layer][d.at_neuron];
        let faulty: Vec<&Register> = n.weights.iter().chain(n.internal_weights.iter()).chain([&n.div_reg]).filter(|r| r.damage != Damage::Working).collect();
        assert_eq!(faulty.len(), 1);
        match faulty[0].damage {
            Damage::TransientBitFlip { bit_position, time_step } => {
                assert_eq!(bit_position, d.at_bit);
                assert!(time_step < 5);
            }
            _ => panic!("unexpected fault"),
        }
    }
    assert!(bits_seen.len() > 10);
    let mut snn = net.deep_copy();
    assert!(snn.apply_damage_to_snn(DamageModel::StuckAt0, &vec![], 5, &mut rng).is_none());
}

#[test]
fn fresh_cell_is_empty() {
    let c = SimulationResultCell::new(2, 7);
    assert_eq!((c.output_index, c.time_step, c.actual_value, c.diff_count), (2, 7, false, 0));
    assert!(c.damage_details.is_empty());
}

#[test]
fn default_operator_registers_work() {
    let n = Neuron::default();
    for r in [n.add_reg, n.mul_reg, n.cmp_reg, n.div_reg] {
        assert_eq!(r, Register::new(0));
    }
}

#[test]
fn membrane_holds_adder_read_back() {
    let mut n = layer(&[&[10.0]], 0.0).remove(0);
    n.add_reg.apply_damage(Damage::StuckAt1 { bit_position: 0 });
    let fired = n.feed_pulses(&F64Unit, &vec![0], 0, 1.0f64.to_bits(), NeuronModel::LeakyIntegrateAndFire);
    assert!(!fired);
    assert_eq!(n.v_mem.value, n.add_reg.value | 1);
    n.inhibite_after_pulses_emission(&F64Unit, &vec![], 1, 1.0f64.to_bits(), NeuronModel::IntegrateAndFire);
    assert_eq!(n.v_mem.value, n.add_reg.value | 1);
    assert_eq!(n.last_received_pulse_step, 1);
}

#[test]
fn inhibition_without_sources_keeps_integrating_membrane() {
    let mut n = layer(&[&[10.0]], 0.0).remove(0);
    n.inhibite_after_pulses_emission(&F64Unit, &vec![], 3, 1.0f64.to_bits(), NeuronModel::IntegrateAndFire);
    assert_eq!(f64::from_bits(n.v_mem.value), -70.0);
    assert_eq!(n.last_received_pulse_step, 3);
}

#[test]
fn layer_step_after_step_zero_updates_every_neuron() {
    let mut neurons = layer(&[&[20.0], &[10.0]], 0.0);
    let mut emitted = vec![];
    Network::layer_step(&F64Unit, &mut neurons, &vec![], &mut emitted, 4, 1.0f64.to_bits(), NeuronModel::LeakyIntegrateAndFire);
    assert!(neurons.iter().all(|n| n.last_received_pulse_step == 4));
    let incoming = Network::inject_input(&vec![vec![true, false, false]], 3);
    let out = drive(&mut neurons, &incoming, 3, NeuronModel::LeakyIntegrateAndFire);
    assert!(neurons.iter().all(|n| n.last_received_pulse_step == 2));
    assert_eq!(out, vec![Message::Pulse(0), Message::GoAhead, Message::GoAhead, Message::GoAhead]);
}

#[test]
fn layer_emits_only_in_steps_with_input() {
    let mut neurons = layer(&[&[60.0, 0.0], &[0.0, 60.0]], 0.0);
    let input = vec![vec![true, false, true, false], vec![false, false, true, false]];
    let incoming = Network::inject_input(&input, 4);
    let out = drive(&mut neurons, &incoming, 4, NeuronModel::IntegrateAndFire);
    let mut step = 0;
    let mut steps_with_pulses = vec![];
    for m in &out {
        match m {
            Message::Pulse(_) => steps_with_pulses.push(step),
            Message::GoAhead => step += 1,
        }
    }
    assert!(steps_with_pulses.iter().all(|s| *s == 0 || *s == 2));
    assert!(!steps_with_pulses.is_empty());
}

#[test]
fn silent_input_step_gives_silent_output_step() {
    let mut net = Network::new(1000.0f64.to_bits(), 2, 1, NeuronModel::LeakyIntegrateAndFire);
    net.add_layer(layer(&[&[60.0, 60.0], &[60.0, 60.0]], 0.0));
    net.add_layer(layer(&[&[60.0, 60.0]], 0.0));
    let out = net.run(&F64Unit, vec![vec![true, false, true], vec![false, false, true]]).unwrap();
    assert_eq!(out, vec![vec![true, false, true]]);
}
