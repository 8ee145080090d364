//! The layered network and its time-step-synchronous run engine.
use vstd::prelude::*;

use crate::arith::FloatUnit;
use crate::neuron::{
    feed_spec, inhibit_spec, registers_of, sources_below, Message, Neuron, NeuronModel,
};
use crate::register::Register;
use crate::stream::{
    count_barriers, lemma_count_concat, lemma_count_push, lemma_count_take_next,
    lemma_pulse_at_append_pulses, lemma_pulse_at_push, lemma_pulses_only, pulse_at, pulse_within,
    pulsed_in, pulses_below,
    strictly_increasing,
};

verus! {

/// Microseconds in a millisecond.
pub const US_PER_MS: usize = 1000;

/// What makes a network, an input or a description unusable.
#[derive(Clone, Copy, Debug, PartialEq, Eq, Structural)]
pub enum SnnError {
    /// A ragged or mis-sized input matrix, or an inconsistent topology.
    InvalidInput,
}

/// A layer is well formed for `fan_in` upstream sources: it has neurons, each
/// with valid faults, one synapse per upstream source and one per neuron of
/// the layer.
pub open spec fn layer_wf(layer: Seq<Neuron>, fan_in: int) -> bool {
    &&& layer.len() > 0
    &&& forall|i: int|
        0 <= i < layer.len() ==> {
            &&& (#[trigger] layer[i]).wf()
            &&& layer[i].weights@.len() == fan_in
            &&& layer[i].internal_weights@.len() == layer.len()
        }
}

/// Each neuron of `after` has the parameters and faults of the same neuron of
/// `before`.
pub open spec fn layer_kept(after: Seq<Neuron>, before: Seq<Neuron>) -> bool {
    &&& after.len() == before.len()
    &&& forall|i: int|
        0 <= i < after.len() ==> {
            &&& (#[trigger] after[i]).wf()
            &&& after[i].same_parameters(&before[i])
            &&& after[i].same_faults(&before[i])
        }
}

/// The matrix has at least one row, and all rows have the length of the first.
pub open spec fn matrix_is_rectangular(m: Seq<Vec<bool>>) -> bool {
    &&& m.len() > 0
    &&& forall|i: int| 0 <= i < m.len() ==> (#[trigger] m[i])@.len() == m[0]@.len()
}

/// The matrix has `rows` rows of `cols` values each.
pub open spec fn matrix_has_shape(m: Seq<Vec<bool>>, rows: int, cols: int) -> bool {
    &&& m.len() == rows
    &&& forall|i: int| 0 <= i < m.len() ==> (#[trigger] m[i])@.len() == cols
}

/// The description of one neuron; values are binary64 bit patterns.
#[derive(Clone, Debug)]
pub struct NeuronData {
    pub weights: Vec<u64>,
    pub internal_weights: Vec<u64>,
    pub v_th: u64,
    pub v_rest: u64,
    pub v_reset: u64,
    pub tau: u64,
}

/// The description of one layer.
#[derive(Clone, Debug)]
pub struct LayerData {
    pub neurons: Vec<NeuronData>,
}

/// The description of a network, as its file stores it.
#[derive(Clone, Debug)]
pub struct NetworkData {
    /// Length of a time step in microseconds, as a binary64 bit pattern.
    pub time_step_duration_us: u64,
    pub nr_inputs: usize,
    pub nr_outputs: usize,
    pub model: NeuronModel,
    pub layers: Vec<LayerData>,
}

/// Number of sources that feed layer `k` of the description.
pub open spec fn data_fan_in(data: &NetworkData, k: int) -> int {
    if k == 0 {
        data.nr_inputs as int
    } else {
        data.layers@[k - 1].neurons@.len() as int
    }
}

/// The description is consistent: there are inputs and layers, no layer is
/// empty, each neuron has one weight per source of its layer and one lateral
/// weight per neuron of its layer, and the outputs are the last layer's neurons.
pub open spec fn data_valid(data: &NetworkData) -> bool {
    &&& data.nr_inputs > 0
    &&& data.layers@.len() > 0
    &&& data.nr_outputs == data.layers@.last().neurons@.len()
    &&& forall|k: int|
        0 <= k < data.layers@.len() ==> {
            let layer = (#[trigger] data.layers@[k]).neurons@;
            &&& layer.len() > 0
            &&& forall|n: int|
                0 <= n < layer.len() ==> {
                    &&& (#[trigger] layer[n]).weights@.len() == data_fan_in(data, k)
                    &&& layer[n].internal_weights@.len() == layer.len()
                }
        }
}

/// `n` is the neuron that `d` describes, at rest and with working registers.
pub open spec fn built_from(n: Neuron, d: NeuronData) -> bool {
    &&& n.v_th == Register::new_spec(d.v_th)
    &&& n.v_rest == Register::new_spec(d.v_rest)
    &&& n.v_reset == Register::new_spec(d.v_reset)
    &&& n.tau == Register::new_spec(d.tau)
    &&& n.v_mem == Register::new_spec(d.v_rest)
    &&& n.last_received_pulse_step == 0
    &&& n.weights@ == d.weights@.map_values(|w: u64| Register::new_spec(w))
    &&& n.internal_weights@ == d.internal_weights@.map_values(|w: u64| Register::new_spec(w))
    &&& n.add_reg == Register::new_spec(0)
    &&& n.mul_reg == Register::new_spec(0)
    &&& n.cmp_reg == Register::new_spec(0)
    &&& n.div_reg == Register::new_spec(0)
}

/// `net` is the network that `data` describes.
pub open spec fn network_built_from(net: &Network, data: &NetworkData) -> bool {
    &&& net.time_step_duration_us == data.time_step_duration_us
    &&& net.nr_inputs == data.nr_inputs
    &&& net.nr_outputs == data.nr_outputs
    &&& net.model == data.model
    &&& net.layers@.len() == data.layers@.len()
    &&& forall|k: int|
        0 <= k < net.layers@.len() ==> (#[trigger] net.layers@[k])@.len()
            == data.layers@[k].neurons@.len()
    &&& forall|k: int, n: int|
        0 <= k < net.layers@.len() && 0 <= n < net.layers@[k]@.len() ==> built_from(
            #[trigger] net.layers@[k]@[n],
            data.layers@[k].neurons@[n],
        )
}

/// `n` after one time step of its layer: after step 0 the inhibition from the
/// layer's neurons `emitted`, then, if pulses arrived from `sources`, their
/// integration and the threshold comparison.
pub open spec fn neuron_step<U: FloatUnit>(
    n: Neuron,
    unit: &U,
    sources: Seq<usize>,
    emitted: Seq<usize>,
    step: usize,
    dt: u64,
    model: NeuronModel,
) -> Neuron {
    let m = if step > 0 {
        inhibit_spec(n, unit, emitted, step, dt, model)
    } else {
        n
    };
    if sources.len() > 0 {
        feed_spec(m, unit, sources, step, dt, model)
    } else {
        m
    }
}

/// The layer after one time step.
pub open spec fn layer_step_spec<U: FloatUnit>(
    layer: Seq<Neuron>,
    unit: &U,
    sources: Seq<usize>,
    emitted: Seq<usize>,
    step: usize,
    dt: u64,
    model: NeuronModel,
) -> Seq<Neuron> {
    layer.map_values(|n: Neuron| neuron_step(n, unit, sources, emitted, step, dt, model))
}

/// The indices at which `flags` holds, in increasing order.
pub open spec fn indices_where(flags: Seq<bool>) -> Seq<usize>
    decreases flags.len(),
{
    if flags.len() == 0 {
        Seq::empty()
    } else {
        let p = indices_where(flags.drop_last());
        if flags.last() {
            p.push((flags.len() - 1) as usize)
        } else {
            p
        }
    }
}

/// The neurons of the stepped layer that fire at `step`: none when no pulse
/// arrived, since the comparison is then not made.
pub open spec fn fired_spec(layer: Seq<Neuron>, sources: Seq<usize>, step: usize) -> Seq<usize> {
    if sources.len() > 0 {
        indices_where(layer.map_values(|n: Neuron| n.fires_at(step)))
    } else {
        Seq::empty()
    }
}

/// One pulse per source, in order.
pub open spec fn pulses_of(sources: Seq<usize>) -> Seq<Message> {
    sources.map_values(|i: usize| Message::Pulse(i))
}

/// The stream that carries, for each time step in turn, a pulse from each
/// source of that step and then a barrier.
pub open spec fn stream_of(steps: Seq<Seq<usize>>) -> Seq<Message>
    decreases steps.len(),
{
    if steps.len() == 0 {
        Seq::empty()
    } else {
        stream_of(steps.drop_last()) + pulses_of(steps.last()).push(Message::GoAhead)
    }
}

/// The stream of the first `m` steps begins the stream of all of them.
pub proof fn lemma_stream_prefix(steps: Seq<Seq<usize>>, m: int)
    requires
        0 <= m <= steps.len(),
    ensures
        stream_of(steps.take(m)).len() <= stream_of(steps).len(),
        stream_of(steps).take(stream_of(steps.take(m)).len() as int) == stream_of(steps.take(m)),
    decreases steps.len(),
{
    if m == steps.len() {
        assert(steps.take(m) =~= steps);
        assert(stream_of(steps).take(stream_of(steps).len() as int) =~= stream_of(steps));
    } else {
        let d = steps.drop_last();
        assert(d.take(m) =~= steps.take(m));
        lemma_stream_prefix(d, m);
        let k = stream_of(steps.take(m)).len() as int;
        assert(stream_of(steps).take(k) =~= stream_of(d).take(k));
    }
}

/// The stream of `t + 1` steps is that of `t` steps, then the pulses of step
/// `t` and a barrier.
pub proof fn lemma_stream_next(steps: Seq<Seq<usize>>, t: int)
    requires
        0 <= t < steps.len(),
    ensures
        stream_of(steps.take(t + 1)) == stream_of(steps.take(t)) + pulses_of(steps[t]).push(
            Message::GoAhead,
        ),
{
    assert(steps.take(t + 1).drop_last() =~= steps.take(t));
}

/// A stream of `steps` holds one barrier per step.
pub proof fn lemma_stream_barriers(steps: Seq<Seq<usize>>)
    ensures
        count_barriers(stream_of(steps)) == steps.len(),
    decreases steps.len(),
{
    if steps.len() > 0 {
        let d = steps.drop_last();
        lemma_stream_barriers(d);
        let body = pulses_of(steps.last());
        assert forall|k: int| 0 <= k < body.len() implies #[trigger] body[k] != Message::GoAhead by {}
        lemma_pulses_only(body);
        lemma_count_concat(stream_of(d), body.push(Message::GoAhead));
        lemma_count_push(body, Message::GoAhead);
    }
}

/// A stream of `steps` holds a pulse from `i` at step `t` exactly when step
/// `t` has source `i`.
pub proof fn lemma_stream_pulse_at(steps: Seq<Seq<usize>>, i: int, t: int)
    ensures
        pulse_at(stream_of(steps), i, t) <==> (0 <= t < steps.len() && steps[t].contains(
            i as usize,
        )),
    decreases steps.len(),
{
    if steps.len() == 0 {
    } else {
        let d = steps.drop_last();
        let body = pulses_of(steps.last());
        lemma_stream_pulse_at(d, i, t);
        lemma_stream_barriers(d);
        assert forall|k: int| 0 <= k < body.len() implies #[trigger] body[k] != Message::GoAhead by {}
        assert(stream_of(steps) == (stream_of(d) + body).push(Message::GoAhead));
        lemma_pulse_at_push(stream_of(d) + body, Message::GoAhead, i, t);
        lemma_pulse_at_append_pulses(stream_of(d), body, i, t);
        if body.contains(Message::Pulse(i as usize)) {
            let k = choose|k: int| 0 <= k < body.len() && body[k] == Message::Pulse(i as usize);
            assert(steps.last()[k] == i as usize);
        }
        if steps.last().contains(i as usize) {
            let k = choose|k: int| 0 <= k < steps.last().len() && steps.last()[k] == i as usize;
            assert(body[k] == Message::Pulse(i as usize));
        }
        if 0 <= t < d.len() {
            assert(steps[t] == d[t]);
        }
    }
}

/// A layer that starts as `layer0` and is fed, step by step, the sources of
/// `steps`: its neurons afterwards, and the neurons it fired at each step.
pub open spec fn layer_run<U: FloatUnit>(
    layer0: Seq<Neuron>,
    unit: &U,
    steps: Seq<Seq<usize>>,
    dt: u64,
    model: NeuronModel,
) -> (Seq<Neuron>, Seq<Seq<usize>>)
    decreases steps.len(),
{
    if steps.len() == 0 {
        (layer0, Seq::empty())
    } else {
        let prev = layer_run(layer0, unit, steps.drop_last(), dt, model);
        let t = (steps.len() - 1) as usize;
        let emitted = if t == 0 {
            Seq::empty()
        } else {
            prev.1.last()
        };
        let next = layer_step_spec(prev.0, unit, steps.last(), emitted, t, dt, model);
        (next, prev.1.push(fired_spec(next, steps.last(), t)))
    }
}

pub proof fn lemma_layer_run_len<U: FloatUnit>(
    layer0: Seq<Neuron>,
    unit: &U,
    steps: Seq<Seq<usize>>,
    dt: u64,
    model: NeuronModel,
)
    ensures
        layer_run(layer0, unit, steps, dt, model).1.len() == steps.len(),
    decreases steps.len(),
{
    if steps.len() > 0 {
        lemma_layer_run_len(layer0, unit, steps.drop_last(), dt, model);
    }
}

/// The sources of each of `time_steps` steps of an input matrix: the inputs
/// whose row holds `true` at that step, in order.
pub open spec fn input_steps(input: Seq<Vec<bool>>, time_steps: int) -> Seq<Seq<usize>> {
    Seq::new(
        time_steps as nat,
        |t: int| indices_where(Seq::new(input.len(), |j: int| input[j]@[t])),
    )
}

/// The time step length in milliseconds, through the unit.
pub open spec fn step_ms<U: FloatUnit>(net: &Network, unit: &U) -> u64 {
    unit.div_spec(net.time_step_duration_us, unit.from_count_spec(US_PER_MS))
}

/// The sources of each step of the stream that feeds layer `k` of `net` (the
/// last layer's output for `k` = the number of layers).
pub open spec fn stream_steps<U: FloatUnit>(
    net: &Network,
    unit: &U,
    input: Seq<Vec<bool>>,
    k: nat,
) -> Seq<Seq<usize>>
    decreases k,
{
    if k == 0 {
        input_steps(input, input[0]@.len() as int)
    } else {
        layer_run(
            net.layers@[k - 1]@,
            unit,
            stream_steps(net, unit, input, (k - 1) as nat),
            step_ms(net, unit),
            net.model,
        ).1
    }
}

/// What `net` outputs on `input`: for each step, the last layer's neurons that
/// fire at that step.
pub open spec fn run_spec<U: FloatUnit>(net: &Network, unit: &U, input: Seq<Vec<bool>>) -> Seq<
    Seq<usize>,
> {
    stream_steps(net, unit, input, net.layers@.len())
}

/// The neurons of the two layers agree pairwise in every register and counter.
pub open spec fn layers_agree(a: Seq<Neuron>, b: Seq<Neuron>) -> bool {
    &&& a.len() == b.len()
    &&& forall|i: int| 0 <= i < a.len() ==> (#[trigger] a[i]).same_state(&b[i])
}

/// Neurons that agree go through a time step alike.
pub proof fn lemma_neuron_step_agrees<U: FloatUnit>(
    a: Neuron,
    b: Neuron,
    unit: &U,
    sources: Seq<usize>,
    emitted: Seq<usize>,
    step: usize,
    dt: u64,
    model: NeuronModel,
)
    requires
        a.same_state(&b),
    ensures
        neuron_step(a, unit, sources, emitted, step, dt, model).same_state(
            &neuron_step(b, unit, sources, emitted, step, dt, model),
        ),
{
}

/// Layers that agree run alike: they fire the same neurons at every step and
/// end up agreeing.
pub proof fn lemma_layer_run_agrees<U: FloatUnit>(
    a: Seq<Neuron>,
    b: Seq<Neuron>,
    unit: &U,
    steps: Seq<Seq<usize>>,
    dt: u64,
    model: NeuronModel,
)
    requires
        layers_agree(a, b),
    ensures
        layers_agree(layer_run(a, unit, steps, dt, model).0, layer_run(b, unit, steps, dt, model).0),
        layer_run(a, unit, steps, dt, model).1 == layer_run(b, unit, steps, dt, model).1,
    decreases steps.len(),
{
    if steps.len() > 0 {
        let d = steps.drop_last();
        lemma_layer_run_agrees(a, b, unit, d, dt, model);
        let pa = layer_run(a, unit, d, dt, model);
        let pb = layer_run(b, unit, d, dt, model);
        let t = (steps.len() - 1) as usize;
        let em = if t == 0 {
            Seq::<usize>::empty()
        } else {
            pa.1.last()
        };
        let na = layer_step_spec(pa.0, unit, steps.last(), em, t, dt, model);
        let nb = layer_step_spec(pb.0, unit, steps.last(), em, t, dt, model);
        assert forall|i: int| 0 <= i < na.len() implies (#[trigger] na[i]).same_state(&nb[i]) by {
            lemma_neuron_step_agrees(pa.0[i], pb.0[i], unit, steps.last(), em, t, dt, model);
        }
        assert(na.map_values(|n: Neuron| n.fires_at(t)) =~= nb.map_values(
            |n: Neuron| n.fires_at(t),
        ));
    }
}

/// Two networks that agree in every field, layer and neuron, fed inputs whose
/// rows agree, produce the same streams at every layer.
pub proof fn lemma_stream_steps_agree<U: FloatUnit>(
    a: &Network,
    b: &Network,
    unit: &U,
    x: Seq<Vec<bool>>,
    y: Seq<Vec<bool>>,
    k: nat,
)
    requires
        a.same_as(b),
        x.len() == y.len(),
        x.len() > 0,
        forall|j: int| 0 <= j < x.len() ==> (#[trigger] x[j])@ == y[j]@,
        k <= a.layers@.len(),
    ensures
        stream_steps(a, unit, x, k) == stream_steps(b, unit, y, k),
    decreases k,
{
    if k == 0 {
        assert(x[0]@ == y[0]@);
        let t = x[0]@.len() as int;
        assert forall|s: int| 0 <= s < t implies #[trigger] input_steps(x, t)[s] == input_steps(
            y,
            t,
        )[s] by {
            let cx = Seq::new(x.len(), |j: int| x[j]@[s]);
            let cy = Seq::new(y.len(), |j: int| y[j]@[s]);
            assert forall|j: int| 0 <= j < x.len() implies cx[j] == cy[j] by {
                assert(x[j]@ == y[j]@);
            }
            assert(cx =~= cy);
        }
        assert(input_steps(x, t) =~= input_steps(y, t));
    } else {
        lemma_stream_steps_agree(a, b, unit, x, y, (k - 1) as nat);
        let la = a.layers@[k - 1]@;
        let lb = b.layers@[k - 1]@;
        assert(la.len() == lb.len());
        assert forall|i: int| 0 <= i < la.len() implies (#[trigger] la[i]).same_state(&lb[i]) by {
            assert(a.layers@[k - 1]@[i].same_state(&b.layers@[k - 1]@[i]));
        }
        lemma_layer_run_agrees(
            la,
            lb,
            unit,
            stream_steps(a, unit, x, (k - 1) as nat),
            step_ms(a, unit),
            a.model,
        );
    }
}

pub proof fn lemma_indices_where_below(flags: Seq<bool>)
    ensures
        forall|j: int|
            0 <= j < indices_where(flags).len() ==> #[trigger] indices_where(flags)[j] < flags.len(),
    decreases flags.len(),
{
    if flags.len() > 0 {
        let d = flags.drop_last();
        lemma_indices_where_below(d);
        let p = indices_where(d);
        assert forall|j: int| 0 <= j < indices_where(flags).len() implies #[trigger] indices_where(
            flags,
        )[j] < flags.len() by {
            if j < p.len() {
                assert(indices_where(flags)[j] == p[j]);
            }
        }
    }
}

/// A layer run keeps the layer's size, has one fired list per step, fires
/// only neurons of the layer, and fires nothing in a step without input.
pub proof fn lemma_layer_run_shape<U: FloatUnit>(
    layer0: Seq<Neuron>,
    unit: &U,
    steps: Seq<Seq<usize>>,
    dt: u64,
    model: NeuronModel,
)
    ensures
        layer_run(layer0, unit, steps, dt, model).0.len() == layer0.len(),
        layer_run(layer0, unit, steps, dt, model).1.len() == steps.len(),
        forall|t: int, j: int|
            0 <= t < steps.len() && 0 <= j < layer_run(layer0, unit, steps, dt, model).1[t].len()
                ==> #[trigger] layer_run(layer0, unit, steps, dt, model).1[t][j] < layer0.len(),
        forall|t: int|
            0 <= t < steps.len() && (#[trigger] steps[t]).len() == 0 ==> layer_run(
                layer0,
                unit,
                steps,
                dt,
                model,
            ).1[t].len() == 0,
    decreases steps.len(),
{
    if steps.len() > 0 {
        let d = steps.drop_last();
        lemma_layer_run_shape(layer0, unit, d, dt, model);
        let prev = layer_run(layer0, unit, d, dt, model);
        let t = (steps.len() - 1) as usize;
        let emitted = if t == 0 {
            Seq::empty()
        } else {
            prev.1.last()
        };
        let next = layer_step_spec(prev.0, unit, steps.last(), emitted, t, dt, model);
        lemma_indices_where_below(next.map_values(|n: Neuron| n.fires_at(t)));
        let r = layer_run(layer0, unit, steps, dt, model);
        assert forall|s: int, j: int| 0 <= s < steps.len() && 0 <= j < r.1[s].len() implies #[trigger] r.1[s][j]
            < layer0.len() by {
            if s < d.len() {
                assert(r.1[s] == prev.1[s]);
            }
        }
        assert forall|s: int| 0 <= s < steps.len() && (#[trigger] steps[s]).len() == 0 implies r.1[s].len()
            == 0 by {
            if s < d.len() {
                assert(r.1[s] == prev.1[s]);
                assert(d[s] == steps[s]);
            }
        }
    }
}

/// Pulses of a stream of `steps` name sources below `n` when every step's do.
pub proof fn lemma_stream_pulses_below(steps: Seq<Seq<usize>>, n: int)
    requires
        forall|t: int, j: int|
            0 <= t < steps.len() && 0 <= j < steps[t].len() ==> #[trigger] steps[t][j] < n,
    ensures
        pulses_below(stream_of(steps), n),
    decreases steps.len(),
{
    if steps.len() > 0 {
        let d = steps.drop_last();
        assert forall|t: int, j: int| 0 <= t < d.len() && 0 <= j < d[t].len() implies #[trigger] d[t][j]
            < n by {
            assert(d[t] == steps[t]);
        }
        lemma_stream_pulses_below(d, n);
        let whole = stream_of(steps);
        let a = stream_of(d);
        let last = steps.last();
        assert forall|k: int| 0 <= k < whole.len() implies match #[trigger] whole[k] {
            Message::Pulse(i) => i < n,
            Message::GoAhead => true,
        } by {
            if k >= a.len() && k < whole.len() - 1 {
                assert(whole[k] == Message::Pulse(last[k - a.len()]));
                assert(last[k - a.len()] == steps[steps.len() - 1][k - a.len()]);
            } else if k < a.len() {
                assert(whole[k] == a[k]);
            }
        }
    }
}

/// A spiking neural network: layers of neurons, each layer fed by the previous
/// one (the first by the inputs), with lateral inhibition inside each layer.
#[derive(Clone, Debug)]
pub struct Network {
    pub nr_inputs: usize,
    pub nr_outputs: usize,
    /// Length of a time step in microseconds, as a binary64 bit pattern.
    pub time_step_duration_us: u64,
    pub layers: Vec<Vec<Neuron>>,
    pub model: NeuronModel,
}

impl Network {
    /// Number of sources that feed layer `k`.
    pub open spec fn fan_in(&self, k: int) -> int {
        if k == 0 {
            self.nr_inputs as int
        } else {
            self.layers@[k - 1]@.len() as int
        }
    }

    /// The topology is consistent: there are inputs and layers, every layer is
    /// well formed for its fan-in, and the outputs are the last layer's neurons.
    pub open spec fn wf(&self) -> bool {
        &&& self.nr_inputs > 0
        &&& self.layers@.len() > 0
        &&& self.nr_outputs == self.layers@.last()@.len()
        &&& forall|k: int|
            0 <= k < self.layers@.len() ==> layer_wf(#[trigger] self.layers@[k]@, self.fan_in(k))
    }

    /// The input matrix has one row per input and rows of one length.
    pub open spec fn accepts(&self, input: Seq<Vec<bool>>) -> bool {
        matrix_is_rectangular(input) && input.len() == self.nr_inputs
    }

    /// Every field, layer and neuron equals that of `other`.
    pub open spec fn same_as(&self, other: &Network) -> bool {
        &&& self.nr_inputs == other.nr_inputs
        &&& self.nr_outputs == other.nr_outputs
        &&& self.time_step_duration_us == other.time_step_duration_us
        &&& self.model == other.model
        &&& self.layers@.len() == other.layers@.len()
        &&& forall|k: int|
            0 <= k < self.layers@.len() ==> (#[trigger] self.layers@[k])@.len()
                == other.layers@[k]@.len()
        &&& forall|k: int, n: int|
            0 <= k < self.layers@.len() && 0 <= n < self.layers@[k]@.len() ==> (
            #[trigger] self.layers@[k]@[n]).same_state(&other.layers@[k]@[n])
    }

    /// A network equal to another one is well formed when that one is.
    pub proof fn lemma_same_as_wf(&self, other: &Network)
        requires
            self.same_as(other),
            other.wf(),
        ensures
            self.wf(),
    {
        assert forall|k: int| 0 <= k < self.layers@.len() implies layer_wf(
            #[trigger] self.layers@[k]@,
            self.fan_in(k),
        ) by {
            assert(layer_wf(other.layers@[k]@, other.fan_in(k)));
            assert forall|n: int| 0 <= n < self.layers@[k]@.len() implies {
                &&& (#[trigger] self.layers@[k]@[n]).wf()
                &&& self.layers@[k]@[n].weights@.len() == self.fan_in(k)
                &&& self.layers@[k]@[n].internal_weights@.len() == self.layers@[k]@.len()
            } by {
                assert(self.layers@[k]@[n].same_state(&other.layers@[k]@[n]));
                if k > 0 {
                    assert(self.layers@[k - 1]@.len() == other.layers@[k - 1]@.len());
                }
            }
        }
        let last = self.layers@.len() - 1;
        assert(self.layers@[last]@.len() == other.layers@[last]@.len());
    }

    /// An independent copy of the network.
    pub fn deep_copy(&self) -> (r: Network)
        ensures
            r.same_as(self),
    {
        let mut layers: Vec<Vec<Neuron>> = Vec::new();
        let mut k: usize = 0;
        while k < self.layers.len()
            invariant
                k <= self.layers@.len(),
                layers@.len() == k,
                forall|a: int| 0 <= a < k ==> (#[trigger] layers@[a])@.len() == self.layers@[a]@.len(),
                forall|a: int, n: int|
                    0 <= a < k && 0 <= n < layers@[a]@.len() ==> (
                    #[trigger] layers@[a]@[n]).same_state(&self.layers@[a]@[n]),
            decreases self.layers@.len() - k,
        {
            let mut layer: Vec<Neuron> = Vec::new();
            let mut n: usize = 0;
            while n < self.layers[k].len()
                invariant
                    k < self.layers@.len(),
                    n <= self.layers@[k as int]@.len(),
                    layer@.len() == n,
                    forall|b: int|
                        0 <= b < n ==> (#[trigger] layer@[b]).same_state(
                            &self.layers@[k as int]@[b],
                        ),
                decreases self.layers@[k as int]@.len() - n,
            {
                layer.push(self.layers[k][n].deep_copy());
                n = n + 1;
            }
            layers.push(layer);
            k = k + 1;
        }
        Network {
            nr_inputs: self.nr_inputs,
            nr_outputs: self.nr_outputs,
            time_step_duration_us: self.time_step_duration_us,
            layers,
            model: self.model,
        }
    }

    /// Whether the description is consistent.
    pub fn data_is_valid(data: &NetworkData) -> (r: bool)
        ensures
            r == data_valid(data),
    {
        if data.nr_inputs == 0 || data.layers.len() == 0 {
            return false;
        }
        if data.nr_outputs != data.layers[data.layers.len() - 1].neurons.len() {
            return false;
        }
        let mut k: usize = 0;
        while k < data.layers.len()
            invariant
                data.nr_inputs > 0,
                data.layers@.len() > 0,
                data.nr_outputs == data.layers@.last().neurons@.len(),
                k <= data.layers@.len(),
                forall|a: int|
                    0 <= a < k ==> {
                        let layer = (#[trigger] data.layers@[a]).neurons@;
                        &&& layer.len() > 0
                        &&& forall|n: int|
                            0 <= n < layer.len() ==> {
                                &&& (#[trigger] layer[n]).weights@.len() == data_fan_in(data, a)
                                &&& layer[n].internal_weights@.len() == layer.len()
                            }
                    },
            decreases data.layers@.len() - k,
        {
            let fan_in = if k == 0 {
                data.nr_inputs
            } else {
                data.layers[k - 1].neurons.len()
            };
            let size = data.layers[k].neurons.len();
            if size == 0 {
                return false;
            }
            let mut n: usize = 0;
            while n < size
                invariant
                    k < data.layers@.len(),
                    size == data.layers@[k as int].neurons@.len(),
                    fan_in == data_fan_in(data, k as int),
                    n <= size,
                    forall|b: int|
                        0 <= b < n ==> {
                            &&& (#[trigger] data.layers@[k as int].neurons@[b]).weights@.len()
                                == fan_in
                            &&& data.layers@[k as int].neurons@[b].internal_weights@.len() == size
                        },
                decreases size - n,
            {
                let d = &data.layers[k].neurons[n];
                if d.weights.len() != fan_in || d.internal_weights.len() != size {
                    return false;
                }
                n = n + 1;
            }
            k = k + 1;
        }
        true
    }

    /// Builds the network that `data` describes, every neuron at rest and
    /// every register working. Fails with `InvalidInput` when the description
    /// is not consistent (a neuron whose weights do not match its fan-in, an
    /// output count that is not the last layer's size, an empty layer).
    pub fn from_data(data: &NetworkData) -> (r: Result<Network, SnnError>)
        ensures
            r is Err <==> !data_valid(data),
            r is Err ==> r->Err_0 == SnnError::InvalidInput,
            r is Ok ==> r->Ok_0.wf() && network_built_from(&r->Ok_0, data),
    {
        if !Self::data_is_valid(data) {
            return Err(SnnError::InvalidInput);
        }
        let mut layers: Vec<Vec<Neuron>> = Vec::new();
        let mut k: usize = 0;
        while k < data.layers.len()
            invariant
                data_valid(data),
                k <= data.layers@.len(),
                layers@.len() == k,
                forall|a: int|
                    0 <= a < k ==> (#[trigger] layers@[a])@.len() == data.layers@[a].neurons@.len(),
                forall|a: int, n: int|
                    0 <= a < k && 0 <= n < layers@[a]@.len() ==> built_from(
                        #[trigger] layers@[a]@[n],
                        data.layers@[a].neurons@[n],
                    ),
            decreases data.layers@.len() - k,
        {
            let mut layer: Vec<Neuron> = Vec::new();
            let mut n: usize = 0;
            while n < data.layers[k].neurons.len()
                invariant
                    k < data.layers@.len(),
                    n <= data.layers@[k as int].neurons@.len(),
                    layer@.len() == n,
                    forall|b: int|
                        0 <= b < n ==> built_from(
                            #[trigger] layer@[b],
                            data.layers@[k as int].neurons@[b],
                        ),
                decreases data.layers@[k as int].neurons@.len() - n,
            {
                let d = &data.layers[k].neurons[n];
                let mut neuron = Neuron::new(d.v_th, d.v_rest, d.v_reset, d.tau);
                neuron.weights = registers_of(&d.weights);
                neuron.internal_weights = registers_of(&d.internal_weights);
                layer.push(neuron);
                n = n + 1;
            }
            layers.push(layer);
            k = k + 1;
        }
        let net = Network {
            nr_inputs: data.nr_inputs,
            nr_outputs: data.nr_outputs,
            time_step_duration_us: data.time_step_duration_us,
            layers,
            model: data.model,
        };
        proof {
            assert forall|a: int| 0 <= a < net.layers@.len() implies layer_wf(
                #[trigger] net.layers@[a]@,
                net.fan_in(a),
            ) by {
                assert forall|n: int| 0 <= n < net.layers@[a]@.len() implies {
                    &&& (#[trigger] net.layers@[a]@[n]).wf()
                    &&& net.layers@[a]@[n].weights@.len() == net.fan_in(a)
                    &&& net.layers@[a]@[n].internal_weights@.len() == net.layers@[a]@.len()
                } by {
                    let m = net.layers@[a]@[n];
                    let d = data.layers@[a].neurons@[n];
                    assert(built_from(m, d));
                    assert(data.layers@[a].neurons@.len() > 0);
                    if a > 0 {
                        assert(net.layers@[a - 1]@.len() == data.layers@[a - 1].neurons@.len());
                    }
                    assert forall|w: int| 0 <= w < m.weights@.len() implies (
                    #[trigger] m.weights@[w]).wf() by {}
                    assert forall|w: int| 0 <= w < m.internal_weights@.len() implies (
                    #[trigger] m.internal_weights@[w]).wf() by {}
                }
            }
            let last = net.layers@.len() - 1;
            assert(net.layers@[last]@.len() == data.layers@[last].neurons@.len());
        }
        Ok(net)
    }

    /// A network with no layers.
    pub fn new(
        time_step_duration_us: u64,
        nr_inputs: usize,
        nr_outputs: usize,
        model: NeuronModel,
    ) -> (r: Network)
        ensures
            r.time_step_duration_us == time_step_duration_us,
            r.nr_inputs == nr_inputs,
            r.nr_outputs == nr_outputs,
            r.model == model,
            r.layers@.len() == 0,
    {
        Network { nr_inputs, nr_outputs, time_step_duration_us, layers: Vec::new(), model }
    }

    /// Appends a layer after the existing ones.
    pub fn add_layer(&mut self, layer: Vec<Neuron>)
        ensures
            final(self).layers@ == old(self).layers@.push(layer),
            final(self).nr_inputs == old(self).nr_inputs,
            final(self).nr_outputs == old(self).nr_outputs,
            final(self).time_step_duration_us == old(self).time_step_duration_us,
            final(self).model == old(self).model,
    {
        self.layers.push(layer);
    }

    /// Number of neurons of the last layer; `Err` when there is no layer.
    pub fn get_outputs_number(&self) -> (r: Result<usize, ()>)
        ensures
            self.layers@.len() == 0 <==> r is Err,
            r is Ok ==> r->Ok_0 == self.layers@.last()@.len(),
    {
        if self.layers.len() == 0 {
            return Err(());
        }
        Ok(self.layers[self.layers.len() - 1].len())
    }

    /// An all-`false` matrix of one row per output neuron and `time_steps` columns.
    pub fn create_output_matrix(&self, time_steps: usize) -> (r: Vec<Vec<bool>>)
        requires
            self.layers@.len() > 0,
        ensures
            matrix_has_shape(r@, self.layers@.last()@.len() as int, time_steps as int),
            forall|i: int, j: int|
                0 <= i < r@.len() && 0 <= j < time_steps ==> !(#[trigger] r@[i]@[j]),
    {
        let rows = self.layers[self.layers.len() - 1].len();
        let mut output: Vec<Vec<bool>> = Vec::new();
        let mut i: usize = 0;
        while i < rows
            invariant
                i <= rows,
                matrix_has_shape(output@, i as int, time_steps as int),
                forall|a: int, j: int|
                    0 <= a < output@.len() && 0 <= j < time_steps ==> !(#[trigger] output@[a]@[j]),
            decreases rows - i,
        {
            output.push(vec![false; time_steps]);
            i = i + 1;
        }
        output
    }

    /// Whether all rows of the (non-empty) input matrix have one length.
    pub fn input_matrix_is_valid(input: &Vec<Vec<bool>>) -> (r: bool)
        ensures
            r == matrix_is_rectangular(input@),
    {
        if input.len() == 0 {
            return false;
        }
        let len = input[0].len();
        let mut i: usize = 0;
        while i < input.len()
            invariant
                input@.len() > 0,
                len == input@[0]@.len(),
                i <= input@.len(),
                forall|a: int| 0 <= a < i ==> (#[trigger] input@[a])@.len() == len,
            decreases input@.len() - i,
        {
            if input[i].len() != len {
                return false;
            }
            i = i + 1;
        }
        true
    }

    /// Whether this network can run on `input`.
    pub fn accepts_input(&self, input: &Vec<Vec<bool>>) -> (r: bool)
        ensures
            r == self.accepts(input@),
    {
        Self::input_matrix_is_valid(input) && input.len() == self.nr_inputs
    }

    /// The stream that feeds the first layer: for each of `time_steps` steps, a
    /// pulse from every input whose row holds `true` at that step, then a barrier.
    pub fn inject_input(input: &Vec<Vec<bool>>, time_steps: usize) -> (r: Vec<Message>)
        requires
            forall|i: int| 0 <= i < input@.len() ==> (#[trigger] input@[i])@.len() == time_steps,
        ensures
            r@ == stream_of(input_steps(input@, time_steps as int)),
            count_barriers(r@) == time_steps,
            pulses_below(r@, input@.len() as int),
            forall|i: int, t: int|
                0 <= i < input@.len() && 0 <= t < time_steps ==> (#[trigger] pulse_at(r@, i, t)
                    <==> input@[i]@[t]),
    {
        let mut r: Vec<Message> = Vec::new();
        let ghost steps = input_steps(input@, time_steps as int);
        assert(steps.take(0) =~= Seq::<Seq<usize>>::empty());
        let mut t: usize = 0;
        while t < time_steps
            invariant
                t <= time_steps,
                forall|i: int| 0 <= i < input@.len() ==> (#[trigger] input@[i])@.len() == time_steps,
                count_barriers(r@) == t,
                pulses_below(r@, input@.len() as int),
                steps == input_steps(input@, time_steps as int),
                r@ == stream_of(steps.take(t as int)),
                forall|i: int, s: int|
                    0 <= i < input@.len() && 0 <= s < time_steps ==> (#[trigger] pulse_at(r@, i, s)
                        <==> (s < t && input@[i]@[s])),
            decreases time_steps - t,
        {
            let ghost col = Seq::new(input@.len(), |j: int| input@[j]@[t as int]);
            let ghost base = r@;
            assert(col.take(0) =~= Seq::<bool>::empty());
            assert(base =~= base + pulses_of(indices_where(col.take(0))));
            let mut i: usize = 0;
            while i < input.len()
                invariant
                    t < time_steps,
                    i <= input@.len(),
                    forall|a: int| 0 <= a < input@.len() ==> (#[trigger] input@[a])@.len() == time_steps,
                    count_barriers(r@) == t,
                    pulses_below(r@, input@.len() as int),
                    col == Seq::new(input@.len(), |j: int| input@[j]@[t as int]),
                    r@ == base + pulses_of(indices_where(col.take(i as int))),
                    forall|a: int, s: int|
                        0 <= a < input@.len() && 0 <= s < time_steps ==> (#[trigger] pulse_at(
                            r@,
                            a,
                            s,
                        ) <==> ((s < t || (s == t && a < i)) && input@[a]@[s])),
                decreases input@.len() - i,
            {
                if input[i][t] {
                    proof {
                        lemma_count_push(r@, Message::Pulse(i));
                        assert forall|a: int, s: int|
                            0 <= a < input@.len() && 0 <= s < time_steps implies (#[trigger] pulse_at(
                            r@.push(Message::Pulse(i)),
                            a,
                            s,
                        ) <==> ((s < t || (s == t && a < i + 1)) && input@[a]@[s])) by {
                            lemma_pulse_at_push(r@, Message::Pulse(i), a, s);
                        }
                    }
                    r.push(Message::Pulse(i));
                }
                proof {
                    assert(col.take(i + 1).drop_last() =~= col.take(i as int));
                    assert(col.take(i + 1).last() == input@[i as int]@[t as int]);
                    let p = indices_where(col.take(i as int));
                    assert(pulses_of(p.push(i)) =~= pulses_of(p).push(Message::Pulse(i)));
                    assert(base + pulses_of(p).push(Message::Pulse(i)) =~= (base + pulses_of(
                        p,
                    )).push(Message::Pulse(i)));
                }
                i = i + 1;
            }
            proof {
                assert(col.take(i as int) =~= col);
                assert(steps[t as int] == indices_where(col));
                lemma_stream_next(steps, t as int);
                assert(base + pulses_of(steps[t as int]).push(Message::GoAhead) =~= (base
                    + pulses_of(steps[t as int])).push(Message::GoAhead));
                lemma_count_push(r@, Message::GoAhead);
                assert forall|a: int, s: int|
                    0 <= a < input@.len() && 0 <= s < time_steps implies (#[trigger] pulse_at(
                    r@.push(Message::GoAhead),
                    a,
                    s,
                ) <==> (s < t + 1 && input@[a]@[s])) by {
                    lemma_pulse_at_push(r@, Message::GoAhead, a, s);
                }
            }
            r.push(Message::GoAhead);
            t = t + 1;
        }
        assert(steps.take(t as int) =~= steps);
        r
    }

    /// One time step of a layer worker, given the sources of the pulses that
    /// reached the layer in that step and, in `emitted`, the neurons of the
    /// layer that fired in the previous step.
    ///
    /// After step 0 each neuron first takes the inhibition of those neurons.
    /// Then, if any pulse arrived, each neuron in index order integrates them.
    /// Returns a pulse for each neuron that fired, in index order, then one
    /// barrier; `emitted` ends up holding the neurons that fired.
    pub fn layer_step<U: FloatUnit>(
        unit: &U,
        neurons: &mut Vec<Neuron>,
        pulse_sources: &Vec<usize>,
        emitted: &mut Vec<usize>,
        time_step: usize,
        time_step_duration_ms: u64,
        model: NeuronModel,
    ) -> (out: Vec<Message>)
        requires
            forall|i: int|
                0 <= i < old(neurons)@.len() ==> {
                    &&& (#[trigger] old(neurons)@[i]).wf()
                    &&& sources_below(pulse_sources@, old(neurons)@[i].weights@.len() as int)
                    &&& sources_below(old(emitted)@, old(neurons)@[i].internal_weights@.len() as int)
                },
        ensures
            layer_kept(final(neurons)@, old(neurons)@),
            strictly_increasing(final(emitted)@),
            sources_below(final(emitted)@, old(neurons)@.len() as int),
            forall|i: usize|
                i < old(neurons)@.len() ==> (final(emitted)@.contains(i) <==> (pulse_sources@.len()
                    > 0 && (#[trigger] final(neurons)@[i as int]).fires_at(time_step))),
            out@.len() == final(emitted)@.len() + 1,
            out@.last() == Message::GoAhead,
            forall|k: int|
                0 <= k < final(emitted)@.len() ==> out@[k] == Message::Pulse(
                    #[trigger] final(emitted)@[k],
                ),
            pulse_sources@.len() > 0 || time_step > 0 ==> forall|i: int|
                0 <= i < old(neurons)@.len()
                    ==> (#[trigger] final(neurons)@[i]).last_received_pulse_step == time_step,
            final(neurons)@ == layer_step_spec(
                old(neurons)@,
                unit,
                pulse_sources@,
                old(emitted)@,
                time_step,
                time_step_duration_ms,
                model,
            ),
            final(emitted)@ == fired_spec(final(neurons)@, pulse_sources@, time_step),
            out@ == pulses_of(final(emitted)@).push(Message::GoAhead),
    {
        let ghost start = neurons@;
        let ghost em = emitted@;
        let n = neurons.len();
        if time_step > 0 {
            let mut i: usize = 0;
            while i < n
                invariant
                    n == neurons@.len(),
                    n == start.len(),
                    i <= n,
                    forall|j: int|
                        0 <= j < n ==> {
                            &&& (#[trigger] start[j]).wf()
                            &&& sources_below(
                                pulse_sources@,
                                start[j].weights@.len() as int,
                            )
                            &&& sources_below(
                                emitted@,
                                start[j].internal_weights@.len() as int,
                            )
                        },
                    layer_kept(neurons@, start),
                    forall|j: int|
                        0 <= j < i ==> (#[trigger] neurons@[j]).last_received_pulse_step
                            == time_step,
                    emitted@ == em,
                    forall|j: int|
                        0 <= j < i ==> #[trigger] neurons@[j] == inhibit_spec(
                            start[j],
                            unit,
                            em,
                            time_step,
                            time_step_duration_ms,
                            model,
                        ),
                    forall|j: int| i <= j < n ==> #[trigger] neurons@[j] == start[j],
                decreases n - i,
            {
                neurons[i].inhibite_after_pulses_emission(
                    unit,
                    emitted,
                    time_step,
                    time_step_duration_ms,
                    model,
                );
                i = i + 1;
            }
        }
        emitted.clear();
        let ghost mid = neurons@;
        assert(forall|j: int|
            0 <= j < n ==> #[trigger] mid[j] == (if time_step > 0 {
                inhibit_spec(start[j], unit, em, time_step, time_step_duration_ms, model)
            } else {
                start[j]
            }));
        assert(Seq::new(0, |j: int| neurons@[j].fires_at(time_step)) =~= Seq::<bool>::empty());
        let mut out: Vec<Message> = Vec::new();
        if pulse_sources.len() > 0 {
            let mut i: usize = 0;
            while i < n
                invariant
                    n == neurons@.len(),
                    n == start.len(),
                    i <= n,
                    pulse_sources@.len() > 0,
                    forall|j: int|
                        0 <= j < n ==> sources_below(
                            pulse_sources@,
                            (#[trigger] start[j]).weights@.len() as int,
                        ),
                    layer_kept(mid, start),
                    layer_kept(neurons@, start),
                    forall|j: int| i <= j < n ==> (#[trigger] neurons@[j]) == mid[j],
                    forall|j: int|
                        0 <= j < i ==> (#[trigger] neurons@[j]).last_received_pulse_step
                            == time_step,
                    time_step > 0 ==> forall|j: int|
                        0 <= j < n ==> (#[trigger] mid[j]).last_received_pulse_step == time_step,
                    strictly_increasing(emitted@),
                    forall|j: int|
                        0 <= j < n ==> #[trigger] mid[j] == (if time_step > 0 {
                            inhibit_spec(start[j], unit, em, time_step, time_step_duration_ms, model)
                        } else {
                            start[j]
                        }),
                    forall|j: int|
                        0 <= j < i ==> #[trigger] neurons@[j] == feed_spec(
                            mid[j],
                            unit,
                            pulse_sources@,
                            time_step,
                            time_step_duration_ms,
                            model,
                        ),
                    emitted@ == indices_where(
                        Seq::new(i as nat, |j: int| neurons@[j].fires_at(time_step)),
                    ),
                    out@ == pulses_of(emitted@),
                    sources_below(emitted@, i as int),
                    forall|j: usize|
                        j < i ==> (emitted@.contains(j) <==> (#[trigger] neurons@[j as int]).fires_at(
                            time_step,
                        )),
                    out@.len() == emitted@.len(),
                    forall|k: int| 0 <= k < emitted@.len() ==> out@[k] == Message::Pulse(#[trigger] emitted@[k]),
                decreases n - i,
            {
                let ghost prev = emitted@;
                let ghost pre = neurons@;
                let fired = neurons[i].feed_pulses(
                    unit,
                    pulse_sources,
                    time_step,
                    time_step_duration_ms,
                    model,
                );
                if fired {
                    emitted.push(i);
                    out.push(Message::Pulse(i));
                }
                proof {
                    let f = Seq::new((i + 1) as nat, |j: int| neurons@[j].fires_at(time_step));
                    let g = Seq::new(i as nat, |j: int| neurons@[j].fires_at(time_step));
                    assert(f.drop_last() =~= g);
                    assert(g =~= Seq::new(i as nat, |j: int| pre[j].fires_at(time_step)));
                    assert(f.last() == fired);
                    assert(indices_where(f) == if fired {
                        indices_where(g).push(i)
                    } else {
                        indices_where(g)
                    });
                    assert(out@ =~= pulses_of(emitted@));
                    assert forall|j: usize| j <= i implies (emitted@.contains(j) <==> (
                    #[trigger] neurons@[j as int]).fires_at(time_step)) by {
                        if emitted@.contains(j) {
                            let k = choose|k: int| 0 <= k < emitted@.len() && emitted@[k] == j;
                            if k < prev.len() {
                                assert(prev[k] == j);
                            }
                        }
                        if j < i && prev.contains(j) {
                            let k = choose|k: int| 0 <= k < prev.len() && prev[k] == j;
                            assert(emitted@[k] == j);
                        }
                        if j == i && fired {
                            assert(emitted@[emitted@.len() - 1] == j);
                        }
                    }
                }
                i = i + 1;
            }
        } else {
            assert forall|i: usize| i < n implies !emitted@.contains(i) by {}
        }
        proof {
            assert(neurons@ =~= layer_step_spec(
                start,
                unit,
                pulse_sources@,
                em,
                time_step,
                time_step_duration_ms,
                model,
            ));
            if pulse_sources@.len() > 0 {
                assert(neurons@.map_values(|m: Neuron| m.fires_at(time_step)) =~= Seq::new(
                    n as nat,
                    |j: int| neurons@[j].fires_at(time_step),
                ));
            } else {
                assert(out@ =~= pulses_of(emitted@));
            }
        }
        out.push(Message::GoAhead);
        out
    }
    /// A layer worker over a whole run of `time_steps` steps: for each step it
    /// takes the pulses of `incoming` up to the next barrier and performs
    /// [`Network::layer_step`]. Emits exactly one barrier per step, so a layer
    /// that consumes the `time_steps` barriers of its input emits as many.

    /// Takes step `t` off a stream of `steps` that has been read up to `pos`:
    /// the sources of that step, and where the next step begins.
    fn drain_step(incoming: &Vec<Message>, pos: usize, steps: Ghost<Seq<Seq<usize>>>, t: Ghost<int>) -> (r: (
        Vec<usize>,
        usize,
    ))
        requires
            incoming@ == stream_of(steps@),
            0 <= t@ < steps@.len(),
            pos == stream_of(steps@.take(t@)).len(),
        ensures
            r.0@ == steps@[t@],
            r.1 == stream_of(steps@.take(t@ + 1)).len(),
            pos + r.0@.len() < incoming@.len(),
            forall|j: int| 0 <= j < r.0@.len() ==> incoming@[pos + j] == Message::Pulse(#[trigger] r.0@[j]),
    {
        let ghost base = pos as int;
        let ghost cur = steps@[t@];
        let ghost seg = pulses_of(cur).push(Message::GoAhead);
        proof {
            lemma_stream_next(steps@, t@);
            lemma_stream_prefix(steps@, t@ + 1);
            let whole = stream_of(steps@.take(t@ + 1));
            assert forall|j: int| 0 <= j < seg.len() implies incoming@[base + j] == #[trigger] seg[j] by {
                assert(incoming@.take(whole.len() as int)[base + j] == whole[base + j]);
            }
        }
        let mut sources: Vec<usize> = Vec::new();
        let mut p = pos;
        let mut done = false;
        while p < incoming.len() && !done
            invariant
                base + seg.len() <= incoming@.len(),
                seg == pulses_of(cur).push(Message::GoAhead),
                forall|j: int| 0 <= j < seg.len() ==> incoming@[base + j] == #[trigger] seg[j],
                base <= p,
                !done ==> p - base <= cur.len() && sources@ == cur.take(p - base),
                done ==> p == base + cur.len() + 1 && sources@ == cur,
            decreases incoming@.len() - p,
        {
            proof {
                assert(incoming@[p as int] == seg[p - base]);
                if p - base < cur.len() {
                    assert(cur.take(p - base + 1) =~= cur.take(p - base).push(cur[p - base]));
                } else {
                    assert(cur.take(p - base) =~= cur);
                }
            }
            match incoming[p] {
                Message::Pulse(s) => {
                    sources.push(s);
                },
                Message::GoAhead => {
                    done = true;
                },
            }
            p = p + 1;
        }
        proof {
            assert forall|j: int| 0 <= j < sources@.len() implies incoming@[base + j]
                == Message::Pulse(#[trigger] sources@[j]) by {
                assert(seg[j] == Message::Pulse(cur[j]));
            }
        }
        (sources, p)
    }

    pub fn run_layer<U: FloatUnit>(
        unit: &U,
        neurons: &mut Vec<Neuron>,
        incoming: &Vec<Message>,
        steps: Ghost<Seq<Seq<usize>>>,
        time_steps: usize,
        time_step_duration_ms: u64,
        model: NeuronModel,
    ) -> (out: Vec<Message>)
        requires
            incoming@ == stream_of(steps@),
            steps@.len() == time_steps,
            forall|i: int|
                0 <= i < old(neurons)@.len() ==> {
                    &&& (#[trigger] old(neurons)@[i]).wf()
                    &&& pulses_below(incoming@, old(neurons)@[i].weights@.len() as int)
                    &&& old(neurons)@[i].internal_weights@.len() == old(neurons)@.len()
                },
        ensures
            final(neurons)@ == layer_run(
                old(neurons)@,
                unit,
                steps@,
                time_step_duration_ms,
                model,
            ).0,
            out@ == stream_of(
                layer_run(old(neurons)@, unit, steps@, time_step_duration_ms, model).1,
            ),
            layer_kept(final(neurons)@, old(neurons)@),
            count_barriers(out@) == time_steps,
            pulses_below(out@, old(neurons)@.len() as int),
            count_barriers(incoming@) == time_steps ==> count_barriers(out@) == count_barriers(
                incoming@,
            ),
            time_steps > 1 ==> forall|i: int|
                0 <= i < old(neurons)@.len()
                    ==> (#[trigger] final(neurons)@[i]).last_received_pulse_step == time_steps - 1,
            forall|i: int, t: int| #[trigger] pulse_at(out@, i, t) ==> pulsed_in(incoming@, t),
    {
        let ghost start = neurons@;
        let n = neurons.len();
        let mut emitted: Vec<usize> = Vec::new();
        let mut out: Vec<Message> = Vec::new();
        let mut pos: usize = 0;
        let mut t: usize = 0;
        assert(steps@.take(0) =~= Seq::<Seq<usize>>::empty());
        while t < time_steps
            invariant
                n == start.len(),
                t <= time_steps,
                incoming@ == stream_of(steps@),
                steps@.len() == time_steps,
                forall|i: int|
                    0 <= i < start.len() ==> {
                        &&& (#[trigger] start[i]).wf()
                        &&& pulses_below(incoming@, start[i].weights@.len() as int)
                        &&& start[i].internal_weights@.len() == start.len()
                    },
                layer_kept(neurons@, start),
                sources_below(emitted@, n as int),
                neurons@ == layer_run(start, unit, steps@.take(t as int), time_step_duration_ms, model).0,
                out@ == stream_of(layer_run(start, unit, steps@.take(t as int), time_step_duration_ms, model).1),
                t == 0 ==> emitted@ == Seq::<usize>::empty(),
                t > 0 ==> emitted@ == layer_run(start, unit, steps@.take(t as int), time_step_duration_ms, model).1.last(),
                pos == stream_of(steps@.take(t as int)).len(),
            decreases time_steps - t,
        {
            let (sources, next_pos) = Self::drain_step(incoming, pos, steps, Ghost(t as int));
            proof {
                assert forall|i: int| 0 <= i < start.len() implies sources_below(
                    sources@,
                    (#[trigger] start[i]).weights@.len() as int,
                ) by {
                    assert forall|j: int| 0 <= j < sources@.len() implies #[trigger] sources@[j]
                        < start[i].weights@.len() by {
                        let m = incoming@[pos + j];
                    }
                }
            }
            let ghost prev_run = layer_run(start, unit, steps@.take(t as int), time_step_duration_ms, model);
            let ghost old_emitted = emitted@;
            let ghost old_neurons = neurons@;
            assert(sources@ == steps@[t as int]);
            assert(old_neurons == prev_run.0);
            let step_out = Self::layer_step(
                unit,
                neurons,
                &sources,
                &mut emitted,
                t,
                time_step_duration_ms,
                model,
            );
            assert(neurons@ == layer_step_spec(
                old_neurons,
                unit,
                sources@,
                old_emitted,
                t,
                time_step_duration_ms,
                model,
            ));
            let ghost before = out@;
            let mut tail = step_out;
            out.append(&mut tail);
            proof {
                let nxt = steps@.take(t + 1);
                assert(nxt.drop_last() =~= steps@.take(t as int));
                assert(nxt.last() == steps@[t as int]);
                let r = layer_run(start, unit, nxt, time_step_duration_ms, model);
                assert(layer_run(start, unit, nxt.drop_last(), time_step_duration_ms, model) == prev_run);
                assert(old_emitted == if t == 0 {
                    Seq::<usize>::empty()
                } else {
                    prev_run.1.last()
                });
                assert(r.0 =~= neurons@);
                assert(r.1.drop_last() =~= prev_run.1);
                assert(out@ =~= stream_of(prev_run.1) + pulses_of(emitted@).push(Message::GoAhead));
            }
            pos = next_pos;
            t = t + 1;
        }
        assert(steps@.take(t as int) =~= steps@);
        proof {
            let r = layer_run(start, unit, steps@, time_step_duration_ms, model);
            lemma_layer_run_shape(start, unit, steps@, time_step_duration_ms, model);
            lemma_stream_barriers(r.1);
            lemma_stream_pulses_below(r.1, n as int);
            assert forall|i: int, s: int| #[trigger] pulse_at(out@, i, s) implies pulsed_in(incoming@, s) by {
                lemma_stream_pulse_at(r.1, i, s);
                assert(steps@[s].len() > 0);
                lemma_stream_pulse_at(steps@, steps@[s][0] as int, s);
                assert(steps@[s].contains(steps@[s][0]));
            }
            if time_steps > 1 {
                let d = steps@.drop_last();
                let prev = layer_run(start, unit, d, time_step_duration_ms, model);
                lemma_layer_run_shape(start, unit, d, time_step_duration_ms, model);
                assert forall|i: int| 0 <= i < n implies (#[trigger] neurons@[i]).last_received_pulse_step
                    == time_steps - 1 by {
                    assert(neurons@[i] == neuron_step(
                        prev.0[i],
                        unit,
                        steps@.last(),
                        prev.1.last(),
                        (time_steps - 1) as usize,
                        time_step_duration_ms,
                        model,
                    ));
                }
            }
        }
        out
    }

    /// Writes the output layer's stream into `output`: a barrier advances the
    /// column, a pulse from `i` sets `output[i][column]`. Pulses that fall
    /// outside the matrix are ignored.
    pub fn write_results(messages: &Vec<Message>, output: &mut Vec<Vec<bool>>)
        ensures
            final(output)@.len() == old(output)@.len(),
            forall|i: int|
                0 <= i < old(output)@.len()
                    ==> (#[trigger] final(output)@[i])@.len() == old(output)@[i]@.len(),
            forall|i: int, j: int|
                0 <= i < old(output)@.len() && 0 <= j < old(output)@[i]@.len()
                    ==> (#[trigger] final(output)@[i]@[j]
                    == (old(output)@[i]@[j] || pulse_at(messages@, i, j))),
    {
        let ghost start = output@;
        let mut time_step: usize = 0;
        let mut k: usize = 0;
        while k < messages.len()
            invariant
                k <= messages@.len(),
                time_step == count_barriers(messages@.take(k as int)),
                time_step <= k,
                output@.len() == start.len(),
                forall|i: int| 0 <= i < start.len() ==> (#[trigger] output@[i])@.len() == start[i]@.len(),
                forall|i: int, j: int|
                    0 <= i < start.len() && 0 <= j < start[i]@.len() ==> (#[trigger] output@[i]@[j]
                        == (start[i]@[j] || pulse_within(messages@, k as int, i, j))),
            decreases messages@.len() - k,
        {
            let ghost prev = output@;
            proof {
                lemma_count_take_next(messages@, k as int);
            }
            match messages[k] {
                Message::Pulse(i) => {
                    if i < output.len() && time_step < output[i].len() {
                        output[i][time_step] = true;
                    }
                },
                Message::GoAhead => {
                    time_step = time_step + 1;
                },
            }
            proof {
                assert forall|i: int, j: int|
                    0 <= i < start.len() && 0 <= j < start[i]@.len() implies (#[trigger] output@[i]@[j]
                        == (start[i]@[j] || pulse_within(messages@, k + 1, i, j))) by {
                    if pulse_within(messages@, k + 1, i, j) && !pulse_within(messages@, k as int, i, j) {
                        let q = choose|q: int|
                            0 <= q < k + 1 && #[trigger] messages@[q] == Message::Pulse(i as usize)
                                && count_barriers(messages@.take(q)) == j;
                        assert(q == k);
                    }
                    if pulse_within(messages@, k as int, i, j) {
                        let q = choose|q: int|
                            0 <= q < k && #[trigger] messages@[q] == Message::Pulse(i as usize)
                                && count_barriers(messages@.take(q)) == j;
                        assert(messages@[q] == Message::Pulse(i as usize) && count_barriers(messages@.take(q)) == j);
                    }
                    if messages@[k as int] == Message::Pulse(i as usize) && count_barriers(
                        messages@.take(k as int),
                    ) == j {
                        assert(messages@[k as int] == Message::Pulse(i as usize));
                    }
                }
            }
            k = k + 1;
        }
        assert(messages@.take(k as int) =~= messages@);
    }
    /// Runs the network on `input` (one row per input, one column per time
    /// step) and returns the output spikes: `r[i][t]` tells whether output
    /// neuron `i` fired at step `t`. Each layer in turn processes the whole
    /// stream of the previous one, time step by time step. Fails when the
    /// input is ragged or does not have one row per input.
    pub fn run<U: FloatUnit>(self, unit: &U, input: Vec<Vec<bool>>) -> (r: Option<Vec<Vec<bool>>>)
        requires
            self.wf(),
        ensures
            r is None <==> !self.accepts(input@),
            r is Some ==> matrix_has_shape(
                r->Some_0@,
                self.nr_outputs as int,
                input@[0]@.len() as int,
            ),
            r is Some ==> run_spec(&self, unit, input@).len() == input@[0]@.len(),
            r is Some ==> forall|i: int, t: int|
                0 <= i < self.nr_outputs && 0 <= t < input@[0]@.len() ==> (
                #[trigger] r->Some_0@[i]@[t] == run_spec(&self, unit, input@)[t].contains(
                    i as usize,
                )),
            r is Some ==> forall|i: int, t: int|
                0 <= i < self.nr_outputs && 0 <= t < input@[0]@.len() && #[trigger] r->Some_0@[i]@[t]
                    ==> exists|j: int| 0 <= j < input@.len() && #[trigger] input@[j]@[t],
    {
        if !self.accepts_input(&input) {
            return None;
        }
        let time_steps = input[0].len();
        let time_step_duration_ms = unit.div(
            self.time_step_duration_us,
            unit.from_count(US_PER_MS),
        );
        let mut output = self.create_output_matrix(time_steps);
        let mut stream = Self::inject_input(&input, time_steps);
        let ghost injected = stream@;
        assert(stream_steps(&self, unit, input@, 0) == input_steps(input@, time_steps as int));
        assert forall|i: int, s: int| #[trigger] pulse_at(stream@, i, s) implies pulsed_in(
            injected,
            s,
        ) by {}
        let ghost start = self;
        let mut net = self;
        let nr_layers = net.layers.len();
        let mut k: usize = 0;
        while k < nr_layers
            invariant
                start.wf(),
                nr_layers == start.layers@.len(),
                net.layers@.len() == nr_layers,
                net.model == start.model,
                k <= nr_layers,
                forall|j: int|
                    0 <= j < nr_layers ==> layer_kept(
                        (#[trigger] net.layers@[j])@,
                        start.layers@[j]@,
                    ),
                count_barriers(stream@) == time_steps,
                k < nr_layers ==> pulses_below(stream@, start.fan_in(k as int)),
                k > 0 ==> pulses_below(stream@, start.layers@[k - 1]@.len() as int),
                forall|i: int, s: int| #[trigger] pulse_at(stream@, i, s) ==> pulsed_in(injected, s),
                time_steps == input@[0]@.len(),
                time_step_duration_ms == step_ms(&start, unit),
                stream@ == stream_of(stream_steps(&start, unit, input@, k as nat)),
                stream_steps(&start, unit, input@, k as nat).len() == time_steps,
                forall|j: int| k <= j < nr_layers ==> #[trigger] net.layers@[j] == start.layers@[j],
            decreases nr_layers - k,
        {
            assert(layer_wf(start.layers@[k as int]@, start.fan_in(k as int)));
            proof {
                lemma_layer_run_len(
                    start.layers@[k as int]@,
                    unit,
                    stream_steps(&start, unit, input@, k as nat),
                    step_ms(&start, unit),
                    start.model,
                );
            }
            let next = Self::run_layer(
                unit,
                &mut net.layers[k],
                &stream,
                Ghost(stream_steps(&start, unit, input@, k as nat)),
                time_steps,
                time_step_duration_ms,
                net.model,
            );
            assert forall|i: int, s: int| #[trigger] pulse_at(next@, i, s) implies pulsed_in(
                injected,
                s,
            ) by {
                assert(pulsed_in(stream@, s));
                let j = choose|j: int| #[trigger] pulse_at(stream@, j, s);
            }
            stream = next;
            k = k + 1;
        }
        let ghost blank = output@;
        Self::write_results(&stream, &mut output);
        proof {
            assert forall|i: int, t: int|
                0 <= i < start.nr_outputs && 0 <= t < time_steps implies (#[trigger] output@[i]@[t]
                == run_spec(&start, unit, input@)[t].contains(i as usize)) by {
                lemma_stream_pulse_at(run_spec(&start, unit, input@), i, t);
            }
        }
        assert(forall|i: int, t: int|
            0 <= i < start.nr_outputs && 0 <= t < time_steps ==> !(#[trigger] blank[i]@[t]));
        assert(pulses_below(stream@, start.nr_outputs as int));
        assert forall|i: int, t: int|
            0 <= i < start.nr_outputs && 0 <= t < time_steps && #[trigger] output@[i]@[t]
            implies exists|j: int| 0 <= j < input@.len() && #[trigger] input@[j]@[t] by {
            assert(pulse_at(stream@, i, t));
            assert(pulsed_in(injected, t));
            let j = choose|j: int| #[trigger] pulse_at(injected, j, t);
            let q = choose|q: int|
                0 <= q < injected.len() && #[trigger] injected[q] == Message::Pulse(j as usize)
                    && count_barriers(injected.take(q)) == t;
            let e = (j as usize) as int;
            assert(0 <= e < input@.len());
            assert(injected[q] == Message::Pulse(e as usize));
            assert(pulse_at(injected, e, t));
        }
        Some(output)
    }
}

} // verus!
