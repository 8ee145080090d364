//! Message streams between layers: pulses of one time step, closed by a
//! `GoAhead` barrier.
use vstd::prelude::*;

use crate::neuron::Message;

verus! {

/// Number of barriers in the stream.
pub open spec fn count_barriers(s: Seq<Message>) -> nat
    decreases s.len(),
{
    if s.len() == 0 {
        0
    } else {
        count_barriers(s.drop_last()) + if s.last() == Message::GoAhead {
            1nat
        } else {
            0nat
        }
    }
}

/// Every pulse of the stream names a source below `n`.
pub open spec fn pulses_below(s: Seq<Message>, n: int) -> bool {
    forall|k: int|
        0 <= k < s.len() ==> match #[trigger] s[k] {
            Message::Pulse(i) => i < n,
            Message::GoAhead => true,
        }
}

/// Among its first `n` messages the stream holds a pulse from `i` within time
/// step `t`, that is after exactly `t` barriers.
pub open spec fn pulse_within(s: Seq<Message>, n: int, i: int, t: int) -> bool {
    exists|k: int|
        0 <= k < n && #[trigger] s[k] == Message::Pulse(i as usize) && count_barriers(s.take(k))
            == t
}

/// The stream holds a pulse from `i` within time step `t`.
pub open spec fn pulse_at(s: Seq<Message>, i: int, t: int) -> bool {
    pulse_within(s, s.len() as int, i, t)
}

/// The stream holds some pulse within time step `t`.
pub open spec fn pulsed_in(s: Seq<Message>, t: int) -> bool {
    exists|i: int| #[trigger] pulse_at(s, i, t)
}

/// Appending a message adds at most the pulse it is, in the step that the
/// stream has reached.
pub proof fn lemma_pulse_at_push(s: Seq<Message>, m: Message, i: int, t: int)
    ensures
        pulse_at(s.push(m), i, t) <==> (pulse_at(s, i, t) || (m == Message::Pulse(i as usize)
            && count_barriers(s) == t)),
{
    let p = s.push(m);
    if pulse_at(p, i, t) {
        let k = choose|k: int|
            0 <= k < p.len() && #[trigger] p[k] == Message::Pulse(i as usize) && count_barriers(
                p.take(k),
            ) == t;
        assert(p.take(k) =~= s.take(k)) by {
            if k == s.len() {
                assert(p.take(k) =~= s);
                assert(s.take(k) =~= s);
            }
        }
        if k < s.len() {
            assert(s[k] == Message::Pulse(i as usize));
        } else {
            assert(s.take(k) =~= s);
        }
    }
    if pulse_at(s, i, t) {
        let k = choose|k: int|
            0 <= k < s.len() && #[trigger] s[k] == Message::Pulse(i as usize) && count_barriers(
                s.take(k),
            ) == t;
        assert(p.take(k) =~= s.take(k));
        assert(p[k] == Message::Pulse(i as usize));
    }
    if m == Message::Pulse(i as usize) && count_barriers(s) == t {
        assert(p.take(s.len() as int) =~= s);
        assert(p[s.len() as int] == m);
    }
}

/// Appending messages that hold no barrier adds their pulses to the step that
/// the stream has reached.
pub proof fn lemma_pulse_at_append_pulses(a: Seq<Message>, b: Seq<Message>, i: int, t: int)
    requires
        forall|k: int| 0 <= k < b.len() ==> #[trigger] b[k] != Message::GoAhead,
    ensures
        pulse_at(a + b, i, t) <==> (pulse_at(a, i, t) || (t == count_barriers(a) && b.contains(
            Message::Pulse(i as usize),
        ))),
    decreases b.len(),
{
    if b.len() == 0 {
        assert(a + b =~= a);
    } else {
        let c = b.drop_last();
        assert forall|k: int| 0 <= k < c.len() implies #[trigger] c[k] != Message::GoAhead by {
            assert(c[k] == b[k]);
        }
        lemma_pulse_at_append_pulses(a, c, i, t);
        assert(a + b =~= (a + c).push(b.last()));
        lemma_pulse_at_push(a + c, b.last(), i, t);
        lemma_count_concat(a, c);
        lemma_pulses_only(c);
        if b.contains(Message::Pulse(i as usize)) {
            let k = choose|k: int| 0 <= k < b.len() && b[k] == Message::Pulse(i as usize);
            if k < c.len() {
                assert(c[k] == b[k]);
            }
        }
        if c.contains(Message::Pulse(i as usize)) {
            let k = choose|k: int| 0 <= k < c.len() && c[k] == Message::Pulse(i as usize);
            assert(b[k] == c[k]);
        }
    }
}

/// The values of the sequence increase strictly.
pub open spec fn strictly_increasing(s: Seq<usize>) -> bool {
    forall|a: int, b: int| 0 <= a < b < s.len() ==> s[a] < s[b]
}

pub proof fn lemma_count_push(s: Seq<Message>, m: Message)
    ensures
        count_barriers(s.push(m)) == count_barriers(s) + if m == Message::GoAhead {
            1nat
        } else {
            0nat
        },
{
    assert(s.push(m).drop_last() =~= s);
}

pub proof fn lemma_count_take_next(s: Seq<Message>, k: int)
    requires
        0 <= k < s.len(),
    ensures
        count_barriers(s.take(k + 1)) == count_barriers(s.take(k)) + if s[k] == Message::GoAhead {
            1nat
        } else {
            0nat
        },
{
    assert(s.take(k + 1) =~= s.take(k).push(s[k]));
    lemma_count_push(s.take(k), s[k]);
}

pub proof fn lemma_count_concat(a: Seq<Message>, b: Seq<Message>)
    ensures
        count_barriers(a + b) == count_barriers(a) + count_barriers(b),
    decreases b.len(),
{
    if b.len() == 0 {
        assert(a + b =~= a);
    } else {
        assert((a + b).drop_last() =~= a + b.drop_last());
        lemma_count_concat(a, b.drop_last());
    }
}

/// The stream holds no barrier.
pub proof fn lemma_pulses_only(s: Seq<Message>)
    requires
        forall|k: int| 0 <= k < s.len() ==> #[trigger] s[k] != Message::GoAhead,
    ensures
        count_barriers(s) == 0,
    decreases s.len(),
{
    if s.len() > 0 {
        assert(s.last() != Message::GoAhead);
        lemma_pulses_only(s.drop_last());
    }
}

} // verus!
