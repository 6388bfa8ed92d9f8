//! The draws of a model whose cells hold several coefficients: prior draws for the
//! Monte-Carlo estimate, and the data sets of the rank check, each in the order in which
//! it consumes randomness.

use crate::binary64::Binary64;
use crate::conformance::cell_model::{
    faulty_replication, first_payload, is_first_payload, rank_fault, Replication,
};
use crate::conformance::draws::ends;
use crate::conformance::same;
use crate::engine::error::Result;
use crate::extensions::PayloadDraws;
use crate::message::Message;
use crate::search::lemma_first_none;
use vstd::prelude::*;

verus! {

/// Draw the coefficients of the first cell; the randomness that is left comes back.
pub fn draw_first_payload<R, M: PayloadDraws<R>>(
    model: &M,
    stats: &[M::Stats],
    sigma_sq: Binary64,
    q: usize,
    rng: R,
) -> (r: (core::result::Result<Vec<Binary64>, Message>, R))
    ensures
        exists|m: &mut R, reply: Result<Vec<Binary64>>|
            same(*m, rng) && same(*final(m), r.1) && is_first_payload(reply, q, r.0)
                && #[trigger] call_ensures(
                M::draw_cell_payload,
                (model, stats, sigma_sq, m),
                reply,
            ),
{
    let mut rng = rng;
    let reply = model.draw_cell_payload(stats, sigma_sq, &mut rng);
    let ghost answer = reply;
    let payload = first_payload(reply, q);
    assert(is_first_payload(answer, q, payload));
    (payload, rng)
}

/// The payloads were drawn one after the other, each from the randomness that the one
/// before it left.
pub open spec fn is_payload_chain<R, M: PayloadDraws<R>>(
    model: &M,
    stats: &[M::Stats],
    sigma_sq: Binary64,
    q: usize,
    states: Seq<R>,
    payloads: Seq<core::result::Result<Vec<Binary64>, Message>>,
) -> bool {
    &&& states.len() == payloads.len() + 1
    &&& forall|i: int|
        #![trigger payloads[i]]
        0 <= i < payloads.len() ==> call_ensures(
            draw_first_payload::<R, M>,
            (model, stats, sigma_sq, q, states[i]),
            (payloads[i], states[i + 1]),
        )
}

/// The list holds what every attempt gave, or the reply is why the last one failed.
pub open spec fn collected<T>(
    attempts: Seq<core::result::Result<T, Message>>,
    r: core::result::Result<Vec<T>, Message>,
) -> bool {
    match r {
        Ok(list) => {
            &&& list@.len() == attempts.len()
            &&& forall|i: int|
                #![trigger list@[i]]
                0 <= i < attempts.len() ==> attempts[i] == Ok::<T, Message>(list@[i])
        },
        Err(e) => attempts.len() > 0 && attempts.last() == Err::<T, Message>(e),
    }
}

/// Draw the coefficients of the first cell `n` times; the first failure ends the draws.
pub fn draw_payloads<R, M: PayloadDraws<R>>(
    model: &M,
    stats: &[M::Stats],
    sigma_sq: Binary64,
    q: usize,
    rng: R,
    n: usize,
) -> (r: (core::result::Result<Vec<Vec<Binary64>>, Message>, R))
    ensures
        exists|states: Seq<R>, payloads: Seq<core::result::Result<Vec<Binary64>, Message>>|
            {
                &&& #[trigger] is_payload_chain(model, stats, sigma_sq, q, states, payloads)
                &&& states[0] == rng
                &&& states.last() == r.1
                &&& ends(payloads, n as nat)
                &&& collected(payloads, r.0)
            },
{
    let ghost start = rng;
    let ghost mut states: Seq<R> = seq![rng];
    let ghost mut payloads: Seq<core::result::Result<Vec<Binary64>, Message>> = seq![];
    let mut current = rng;
    let mut list: Vec<Vec<Binary64>> = Vec::new();
    for i in 0..n
        invariant
            start == rng,
            list@.len() == i,
            payloads.len() == i,
            forall|k: int|
                #![trigger list@[k]]
                0 <= k < i ==> payloads[k] == Ok::<Vec<Binary64>, Message>(list@[k]),
            forall|k: int| 0 <= k < i ==> #[trigger] payloads[k] is Ok,
            is_payload_chain(model, stats, sigma_sq, q, states, payloads),
            states[0] == start,
            states.last() == current,
    {
        let ghost before = current;
        let ghost so_far = payloads;
        let ghost listed = list@;
        let step = draw_first_payload(model, stats, sigma_sq, q, current);
        assert(call_ensures(
            draw_first_payload::<R, M>,
            (model, stats, sigma_sq, q, before),
            step,
        ));
        let (payload, next) = step;
        current = next;
        proof {
            payloads = so_far.push(payload);
            let longer = states.push(current);
            assert forall|k: int|
                #![trigger payloads[k]]
                0 <= k < payloads.len() implies call_ensures(
                draw_first_payload::<R, M>,
                (model, stats, sigma_sq, q, longer[k]),
                (payloads[k], longer[k + 1]),
            ) by {
                if k < i {
                    assert(payloads[k] == so_far[k]);
                    assert(longer[k] == states[k] && longer[k + 1] == states[k + 1]);
                } else {
                    assert(longer[k] == before && longer[k + 1] == current);
                }
            }
            states = longer;
        }
        match payload {
            Err(e) => {
                let r: (core::result::Result<Vec<Vec<Binary64>>, Message>, R) = (Err(e), current);
                assert(is_payload_chain(model, stats, sigma_sq, q, states, payloads) && collected(
                    payloads,
                    r.0,
                ));
                return r;
            },
            Ok(values) => {
                list.push(values);
                assert forall|k: int|
                    #![trigger list@[k]]
                    0 <= k < i + 1 implies payloads[k] == Ok::<Vec<Binary64>, Message>(
                    list@[k],
                ) by {
                    if k < i {
                        assert(list@[k] == listed[k]);
                        assert(payloads[k] == so_far[k]);
                    }
                }
            },
        }
    }
    let reply: core::result::Result<Vec<Vec<Binary64>>, Message> = Ok(list);
    assert(is_payload_chain(model, stats, sigma_sq, q, states, payloads) && collected(
        payloads,
        reply,
    ));
    (reply, current)
}

/// `sample` was drawn from the prior `n` times.
pub open spec fn payload_run<R, M: PayloadDraws<R>>(
    model: &M,
    sigma_sq: Binary64,
    q: usize,
    n: nat,
    before: R,
    sample: core::result::Result<Vec<Vec<Binary64>>, Message>,
    after: R,
) -> bool {
    exists|
        stats: &[M::Stats],
        states: Seq<R>,
        payloads: Seq<core::result::Result<Vec<Binary64>, Message>>,
    |
        {
            &&& #[trigger] is_payload_chain(model, stats, sigma_sq, q, states, payloads)
            &&& stats@.len() == 1
            &&& call_ensures(<M::Stats as Default>::default, (), stats@[0])
            &&& states[0] == before
            &&& states.last() == after
            &&& ends(payloads, n)
            &&& collected(payloads, sample)
        }
}

/// Draw from the prior `n` times: a model without data draws from it.
pub fn draw_payload_prior<R, M: PayloadDraws<R>>(
    model: &M,
    sigma_sq: Binary64,
    q: usize,
    rng: R,
    n: usize,
) -> (r: (core::result::Result<Vec<Vec<Binary64>>, Message>, R))
    ensures
        payload_run(model, sigma_sq, q, n as nat, rng, r.0, r.1),
{
    let nothing: M::Stats = M::Stats::default();
    let mut cells: Vec<M::Stats> = Vec::new();
    cells.push(nothing);
    let stats = cells.as_slice();
    let r = draw_payloads(model, stats, sigma_sq, q, rng, n);
    assert(call_ensures(<M::Stats as Default>::default, (), stats@[0]));
    r
}

/// Prior draws of the coefficients for the two halves of the observations and for all of
/// them.
#[derive(Debug)]
pub struct PayloadSample {
    /// Those that the first half is integrated over.
    pub first: Vec<Vec<Binary64>>,
    /// Those that the second half is integrated over.
    pub second: Vec<Vec<Binary64>>,
    /// Those that all observations are integrated over.
    pub whole: Vec<Vec<Binary64>>,
}

/// Three runs of prior draws, each from the randomness that the one before it left,
/// up to the first one that failed.
pub open spec fn three_payload_runs<R, M: PayloadDraws<R>>(
    model: &M,
    sigma_sq: Binary64,
    q: usize,
    n: nat,
    states: Seq<R>,
    samples: Seq<core::result::Result<Vec<Vec<Binary64>>, Message>>,
) -> bool {
    &&& 1 <= samples.len() <= 3
    &&& states.len() == samples.len() + 1
    &&& forall|i: int|
        #![trigger samples[i]]
        0 <= i < samples.len() ==> payload_run(
            model,
            sigma_sq,
            q,
            n,
            states[i],
            samples[i],
            states[i + 1],
        )
    &&& ends(samples, 3)
}

/// The sample of three runs, or why the last one failed.
pub open spec fn payload_sample(
    samples: Seq<core::result::Result<Vec<Vec<Binary64>>, Message>>,
    r: core::result::Result<PayloadSample, Message>,
) -> bool {
    match r {
        Ok(sample) => {
            &&& samples.len() == 3
            &&& samples[0] == Ok::<Vec<Vec<Binary64>>, Message>(sample.first)
            &&& samples[1] == Ok::<Vec<Vec<Binary64>>, Message>(sample.second)
            &&& samples[2] == Ok::<Vec<Vec<Binary64>>, Message>(sample.whole)
        },
        Err(e) => samples.last() == Err::<Vec<Vec<Binary64>>, Message>(e),
    }
}

/// Take the prior draws of the Monte-Carlo estimate: `n` for the first half of the
/// observations, for the second half, and for all of them; none after a failed draw.
pub fn observe_payload_prior<R, M: PayloadDraws<R>>(
    model: &M,
    sigma_sq: Binary64,
    q: usize,
    rng: R,
    n: usize,
) -> (r: (core::result::Result<PayloadSample, Message>, R))
    ensures
        exists|states: Seq<R>, samples: Seq<core::result::Result<Vec<Vec<Binary64>>, Message>>|
            #[trigger] three_payload_runs(model, sigma_sq, q, n as nat, states, samples)
                && states[0] == rng && states.last() == r.1 && payload_sample(samples, r.0),
{
    let (a, after_a) = draw_payload_prior(model, sigma_sq, q, rng, n);
    let ghost run_a = a;
    let first = match a {
        Ok(list) => list,
        Err(e) => {
            let ghost samples = seq![run_a];
            assert(three_payload_runs(
                model,
                sigma_sq,
                q,
                n as nat,
                seq![rng, after_a],
                samples,
            ));
            assert(samples.last() == Err::<Vec<Vec<Binary64>>, Message>(e));
            return (Err(e), after_a);
        },
    };
    let (b, after_b) = draw_payload_prior(model, sigma_sq, q, after_a, n);
    let ghost run_b = b;
    let second = match b {
        Ok(list) => list,
        Err(e) => {
            let ghost samples = seq![run_a, run_b];
            assert(three_payload_runs(
                model,
                sigma_sq,
                q,
                n as nat,
                seq![rng, after_a, after_b],
                samples,
            ));
            assert(samples.last() == Err::<Vec<Vec<Binary64>>, Message>(e));
            return (Err(e), after_b);
        },
    };
    let (c, after_c) = draw_payload_prior(model, sigma_sq, q, after_b, n);
    let ghost run_c = c;
    let ghost states = seq![rng, after_a, after_b, after_c];
    let ghost samples = seq![run_a, run_b, run_c];
    assert(three_payload_runs(model, sigma_sq, q, n as nat, states, samples));
    match c {
        Ok(whole) => (Ok(PayloadSample { first, second, whole }), after_c),
        Err(e) => (Err(e), after_c),
    }
}

/// Coefficients were drawn from the prior: by a model that has seen nothing.
pub open spec fn payload_prior_drawn<R, M: PayloadDraws<R>>(
    model: &M,
    sigma_sq: Binary64,
    q: usize,
    before: R,
    star: core::result::Result<Vec<Binary64>, Message>,
    after: R,
) -> bool {
    exists|stats: &[M::Stats]|
        {
            &&& #[trigger] call_ensures(
                draw_first_payload::<R, M>,
                (model, stats, sigma_sq, q, before),
                (star, after),
            )
            &&& stats@.len() == 1
            &&& call_ensures(<M::Stats as Default>::default, (), stats@[0])
        }
}

/// Draw coefficients from the prior once; the randomness that is left comes back.
pub fn draw_payload_star<R, M: PayloadDraws<R>>(
    model: &M,
    sigma_sq: Binary64,
    q: usize,
    rng: R,
) -> (r: (core::result::Result<Vec<Binary64>, Message>, R))
    ensures
        payload_prior_drawn(model, sigma_sq, q, rng, r.0, r.1),
{
    let nothing: M::Stats = M::Stats::default();
    let mut cells: Vec<M::Stats> = Vec::new();
    cells.push(nothing);
    let stats = cells.as_slice();
    let r = draw_first_payload(model, stats, sigma_sq, q, rng);
    assert(call_ensures(draw_first_payload::<R, M>, (model, stats, sigma_sq, q, rng), r));
    assert(payload_prior_drawn(model, sigma_sq, q, rng, r.0, r.1));
    r
}

/// Each draw is the number that the probe makes of the coefficients.
pub open spec fn probed<P: Fn(&Vec<Binary64>) -> Binary64>(
    probe: P,
    payloads: Seq<Vec<Binary64>>,
    draws: Seq<Result<Binary64>>,
) -> bool {
    &&& draws.len() == payloads.len()
    &&& forall|i: int|
        #![trigger draws[i]]
        0 <= i < draws.len() ==> draws[i] is Ok && call_ensures(
            probe,
            (&payloads[i],),
            draws[i]->Ok_0,
        )
}

/// Posterior draws were taken given data that was generated under `star`, and the
/// outcome holds what the probe makes of `star` and of each of them, or why one failed.
pub open spec fn payload_posterior_drawn<
    R,
    M: PayloadDraws<R>,
    G: Fn(Vec<Binary64>, R) -> (M::Stats, R),
    P: Fn(&Vec<Binary64>) -> Binary64,
>(
    model: &M,
    sigma_sq: Binary64,
    q: usize,
    generate: G,
    probe: P,
    n_draws: nat,
    star: Vec<Binary64>,
    before: R,
    outcome: core::result::Result<Replication, Message>,
    after: R,
) -> bool {
    exists|
        stats: &[M::Stats],
        states: Seq<R>,
        payloads: Seq<core::result::Result<Vec<Binary64>, Message>>,
        sample: core::result::Result<Vec<Vec<Binary64>>, Message>,
    |
        {
            &&& #[trigger] is_payload_chain(model, stats, sigma_sq, q, states, payloads)
            &&& stats@.len() == 1
            &&& call_ensures(generate, (star, before), (stats@[0], states[0]))
            &&& states.last() == after
            &&& ends(payloads, n_draws)
            &&& #[trigger] collected(payloads, sample)
            &&& match (sample, outcome) {
                (Ok(list), Ok(rep)) => {
                    &&& rep.star is Ok
                    &&& call_ensures(probe, (&star,), rep.star->Ok_0)
                    &&& probed(probe, list@, rep.draws@)
                },
                (Err(e), Err(reason)) => e == reason,
                _ => false,
            }
        }
}

/// One data set: coefficients from the prior, and where there are some, draws from the
/// posterior of the data that was generated under them.
pub open spec fn payload_replicated<
    R,
    M: PayloadDraws<R>,
    G: Fn(Vec<Binary64>, R) -> (M::Stats, R),
    P: Fn(&Vec<Binary64>) -> Binary64,
>(
    model: &M,
    sigma_sq: Binary64,
    q: usize,
    generate: G,
    probe: P,
    n_draws: nat,
    before: R,
    outcome: core::result::Result<Replication, Message>,
    after: R,
) -> bool {
    exists|star: core::result::Result<Vec<Binary64>, Message>, between: R|
        #[trigger] payload_prior_drawn(model, sigma_sq, q, before, star, between) && match star {
            Ok(coefficients) => payload_posterior_drawn(
                model,
                sigma_sq,
                q,
                generate,
                probe,
                n_draws,
                coefficients,
                between,
                outcome,
                after,
            ),
            Err(e) => outcome == Err::<Replication, Message>(e) && after == between,
        }
}

/// What the probe makes of each of the coefficients.
fn probe_each<P: Fn(&Vec<Binary64>) -> Binary64>(probe: &P, payloads: &Vec<Vec<Binary64>>) -> (r:
    Vec<Result<Binary64>>)
    requires
        forall|payload: &Vec<Binary64>| #[trigger] call_requires(*probe, (payload,)),
    ensures
        probed(*probe, payloads@, r@),
{
    let mut draws: Vec<Result<Binary64>> = Vec::new();
    for i in 0..payloads.len()
        invariant
            forall|payload: &Vec<Binary64>| #[trigger] call_requires(*probe, (payload,)),
            draws@.len() == i,
            forall|k: int|
                #![trigger draws@[k]]
                0 <= k < i ==> draws@[k] is Ok && call_ensures(
                    *probe,
                    (&payloads@[k],),
                    draws@[k]->Ok_0,
                ),
    {
        let ghost so_far = draws@;
        let number = probe(&payloads[i]);
        draws.push(Ok(number));
        assert forall|k: int| #![trigger draws@[k]] 0 <= k < i + 1 implies draws@[k] is Ok
            && call_ensures(*probe, (&payloads@[k],), draws@[k]->Ok_0) by {
            if k < i {
                assert(draws@[k] == so_far[k]);
            }
        }
    }
    draws
}

/// Make one data set; the randomness that is left comes back.
pub fn replicate_payload<
    R,
    M: PayloadDraws<R>,
    G: Fn(Vec<Binary64>, R) -> (M::Stats, R),
    P: Fn(&Vec<Binary64>) -> Binary64,
>(
    model: &M,
    sigma_sq: Binary64,
    q: usize,
    generate: &G,
    probe: &P,
    n_draws: usize,
    rng: R,
) -> (r: (core::result::Result<Replication, Message>, R))
    requires
        forall|star: Vec<Binary64>, source: R| #[trigger] call_requires(*generate, (star, source)),
        forall|payload: &Vec<Binary64>| #[trigger] call_requires(*probe, (payload,)),
    ensures
        payload_replicated(model, sigma_sq, q, *generate, *probe, n_draws as nat, rng, r.0, r.1),
        r.0 is Ok ==> rank_fault(r.0->Ok_0) is None && r.0->Ok_0.draws@.len() == n_draws,
{
    let (reply, between) = draw_payload_star(model, sigma_sq, q, rng);
    let ghost asked = reply;
    match reply {
        Err(e) => {
            assert(payload_prior_drawn(model, sigma_sq, q, rng, asked, between));
            (Err(e), between)
        },
        Ok(star) => {
            let ghost coefficients = star;
            let ranked = probe(&star);
            let made = generate(star, between);
            assert(call_ensures(*generate, (coefficients, between), made));
            let (seen, left) = made;
            let mut cells: Vec<M::Stats> = Vec::new();
            cells.push(seen);
            let stats = cells.as_slice();
            let (sample, after) = draw_payloads(model, stats, sigma_sq, q, left, n_draws);
            let ghost drawn = sample;
            let outcome = match sample {
                Err(e) => Err(e),
                Ok(list) => {
                    let draws = probe_each(probe, &list);
                    let rep = Replication { star: Ok(ranked), draws };
                    proof {
                        let failed = |i: int| rep.draws@[i] is Err;
                        assert forall|i: int| 0 <= i < rep.draws@.len() implies !#[trigger] failed(
                            i,
                        ) by {
                            assert(rep.draws@[i] is Ok);
                        }
                        lemma_first_none(rep.draws@.len(), failed);
                    }
                    Ok(rep)
                },
            };
            proof {
                assert(stats@[0] == made.0);
                let (states, payloads) = choose|
                    states: Seq<R>,
                    payloads: Seq<core::result::Result<Vec<Binary64>, Message>>,
                |
                    {
                        &&& #[trigger] is_payload_chain(model, stats, sigma_sq, q, states, payloads)
                        &&& states[0] == left
                        &&& states.last() == after
                        &&& ends(payloads, n_draws as nat)
                        &&& collected(payloads, drawn)
                    };
                assert(is_payload_chain(model, stats, sigma_sq, q, states, payloads));
                assert(collected(payloads, drawn));
                assert(payload_posterior_drawn(
                    model,
                    sigma_sq,
                    q,
                    *generate,
                    *probe,
                    n_draws as nat,
                    coefficients,
                    between,
                    outcome,
                    after,
                ));
                assert(payload_prior_drawn(model, sigma_sq, q, rng, asked, between));
            }
            (outcome, after)
        },
    }
}

/// The data sets were made one after the other, each from the randomness that the one
/// before it left.
pub open spec fn is_payload_series<
    R,
    M: PayloadDraws<R>,
    G: Fn(Vec<Binary64>, R) -> (M::Stats, R),
    P: Fn(&Vec<Binary64>) -> Binary64,
>(
    model: &M,
    sigma_sq: Binary64,
    q: usize,
    generate: G,
    probe: P,
    n_draws: nat,
    states: Seq<R>,
    outcomes: Seq<core::result::Result<Replication, Message>>,
) -> bool {
    &&& states.len() == outcomes.len() + 1
    &&& forall|i: int|
        #![trigger outcomes[i]]
        0 <= i < outcomes.len() ==> payload_replicated(
            model,
            sigma_sq,
            q,
            generate,
            probe,
            n_draws,
            states[i],
            outcomes[i],
            states[i + 1],
        )
}

/// Make `n` data sets with `n_draws` posterior draws each; the first failed draw ends it.
/// `generate` makes the data of some coefficients and accumulates it; what is ranked is
/// the number that `probe` makes of coefficients.
pub fn observe_payload_replications<
    R,
    M: PayloadDraws<R>,
    G: Fn(Vec<Binary64>, R) -> (M::Stats, R),
    P: Fn(&Vec<Binary64>) -> Binary64,
>(
    model: &M,
    sigma_sq: Binary64,
    q: usize,
    generate: &G,
    probe: &P,
    n: usize,
    n_draws: usize,
    rng: R,
) -> (r: (core::result::Result<Vec<Replication>, Message>, R))
    requires
        forall|star: Vec<Binary64>, source: R| #[trigger] call_requires(*generate, (star, source)),
        forall|payload: &Vec<Binary64>| #[trigger] call_requires(*probe, (payload,)),
    ensures
        exists|states: Seq<R>, outcomes: Seq<core::result::Result<Replication, Message>>|
            {
                &&& #[trigger] is_payload_series(
                    model,
                    sigma_sq,
                    q,
                    *generate,
                    *probe,
                    n_draws as nat,
                    states,
                    outcomes,
                )
                &&& states[0] == rng
                &&& states.last() == r.1
                &&& ends(outcomes, n as nat)
                &&& collected(outcomes, r.0)
            },
        r.0 matches Ok(reps) ==> faulty_replication(reps@) is None && forall|i: int|
            0 <= i < reps@.len() ==> (#[trigger] reps@[i]).draws@.len() == n_draws,
{
    let ghost start = rng;
    let ghost mut states: Seq<R> = seq![rng];
    let ghost mut outcomes: Seq<core::result::Result<Replication, Message>> = seq![];
    let mut current = rng;
    let mut reps: Vec<Replication> = Vec::new();
    for i in 0..n
        invariant
            start == rng,
            forall|star: Vec<Binary64>, source: R| #[trigger]
                call_requires(*generate, (star, source)),
            forall|payload: &Vec<Binary64>| #[trigger] call_requires(*probe, (payload,)),
            reps@.len() == i,
            outcomes.len() == i,
            forall|k: int|
                #![trigger reps@[k]]
                0 <= k < i ==> outcomes[k] == Ok::<Replication, Message>(reps@[k]) && rank_fault(
                    reps@[k],
                ) is None && reps@[k].draws@.len() == n_draws,
            forall|k: int| 0 <= k < i ==> #[trigger] outcomes[k] is Ok,
            is_payload_series(
                model,
                sigma_sq,
                q,
                *generate,
                *probe,
                n_draws as nat,
                states,
                outcomes,
            ),
            states[0] == start,
            states.last() == current,
    {
        let ghost before = current;
        let ghost so_far = outcomes;
        let ghost listed = reps@;
        let (outcome, next) = replicate_payload(
            model,
            sigma_sq,
            q,
            generate,
            probe,
            n_draws,
            current,
        );
        current = next;
        proof {
            outcomes = so_far.push(outcome);
            let longer = states.push(current);
            assert forall|k: int|
                #![trigger outcomes[k]]
                0 <= k < outcomes.len() implies payload_replicated(
                model,
                sigma_sq,
                q,
                *generate,
                *probe,
                n_draws as nat,
                longer[k],
                outcomes[k],
                longer[k + 1],
            ) by {
                if k < i {
                    assert(outcomes[k] == so_far[k]);
                    assert(longer[k] == states[k] && longer[k + 1] == states[k + 1]);
                } else {
                    assert(longer[k] == before && longer[k + 1] == current);
                }
            }
            states = longer;
        }
        match outcome {
            Err(e) => {
                let r: (core::result::Result<Vec<Replication>, Message>, R) = (Err(e), current);
                assert(is_payload_series(
                    model,
                    sigma_sq,
                    q,
                    *generate,
                    *probe,
                    n_draws as nat,
                    states,
                    outcomes,
                ) && collected(outcomes, r.0));
                return r;
            },
            Ok(rep) => {
                reps.push(rep);
                assert forall|k: int|
                    #![trigger reps@[k]]
                    0 <= k < i + 1 implies outcomes[k] == Ok::<Replication, Message>(reps@[k])
                    && rank_fault(reps@[k]) is None && reps@[k].draws@.len() == n_draws by {
                    if k < i {
                        assert(reps@[k] == listed[k]);
                        assert(outcomes[k] == so_far[k]);
                    }
                }
            },
        }
    }
    proof {
        let faulty = |i: int| rank_fault(reps@[i]) is Some;
        assert forall|i: int| 0 <= i < reps@.len() implies !#[trigger] faulty(i) by {
            assert(rank_fault(reps@[i]) is None);
        }
        lemma_first_none(reps@.len(), faulty);
    }
    let reply: core::result::Result<Vec<Replication>, Message> = Ok(reps);
    assert(is_payload_series(
        model,
        sigma_sq,
        q,
        *generate,
        *probe,
        n_draws as nat,
        states,
        outcomes,
    ) && collected(outcomes, reply));
    (reply, current)
}

/// Payloads are collected exactly when each could be had; there are then as many as asked
/// for, each with as many coefficients as asked for.
pub proof fn payloads_are_all_or_nothing<R, M: PayloadDraws<R>>(
    model: &M,
    stats: &[M::Stats],
    sigma_sq: Binary64,
    q: usize,
    rng: R,
    n: usize,
    r: (core::result::Result<Vec<Vec<Binary64>>, Message>, R),
)
    requires
        call_ensures(draw_payloads::<R, M>, (model, stats, sigma_sq, q, rng, n), r),
    ensures
        r.0 is Ok ==> (r.0->Ok_0)@.len() == n,
        r.0 is Ok ==> forall|i: int| 0 <= i < n ==> (#[trigger] (r.0->Ok_0)@[i])@.len() == q,
        n == 0 ==> r.0 is Ok && r.1 == rng,
{
    let (states, payloads) = choose|
        states: Seq<R>,
        payloads: Seq<core::result::Result<Vec<Binary64>, Message>>,
    |
        {
            &&& #[trigger] is_payload_chain(model, stats, sigma_sq, q, states, payloads)
            &&& states[0] == rng
            &&& states.last() == r.1
            &&& ends(payloads, n as nat)
            &&& collected(payloads, r.0)
        };
    lemma_collected(model, stats, sigma_sq, q, states, payloads, n as nat, r.0);
}

/// What was collected from a chain of payloads has the asked size and width.
proof fn lemma_collected<R, M: PayloadDraws<R>>(
    model: &M,
    stats: &[M::Stats],
    sigma_sq: Binary64,
    q: usize,
    states: Seq<R>,
    payloads: Seq<core::result::Result<Vec<Binary64>, Message>>,
    n: nat,
    sample: core::result::Result<Vec<Vec<Binary64>>, Message>,
)
    requires
        is_payload_chain(model, stats, sigma_sq, q, states, payloads),
        ends(payloads, n),
        collected(payloads, sample),
    ensures
        sample is Ok ==> (sample->Ok_0)@.len() == n,
        sample is Ok ==> forall|i: int| 0 <= i < n ==> (#[trigger] (sample->Ok_0)@[i])@.len() == q,
        n == 0 ==> sample is Ok && states[0] == states.last(),
{
    if sample is Ok {
        let list = (sample->Ok_0)@;
        if payloads.len() > 0 {
            let k = payloads.len() - 1;
            assert(payloads[k] == Ok::<Vec<Binary64>, Message>(list[k]));
        }
        assert forall|i: int| 0 <= i < n implies (#[trigger] list[i])@.len() == q by {
            assert(payloads[i] == Ok::<Vec<Binary64>, Message>(list[i]));
        }
    }
}

/// The prior of a payload is sampled three times or not at all; each sample has the asked
/// size and each payload the asked width.
pub proof fn payload_samples_have_the_asked_size<R, M: PayloadDraws<R>>(
    model: &M,
    sigma_sq: Binary64,
    q: usize,
    rng: R,
    n: usize,
    r: (core::result::Result<PayloadSample, Message>, R),
)
    requires
        call_ensures(observe_payload_prior::<R, M>, (model, sigma_sq, q, rng, n), r),
    ensures
        r.0 matches Ok(sample) ==> {
            &&& sample.first@.len() == n && sample.second@.len() == n && sample.whole@.len() == n
            &&& forall|i: int| 0 <= i < n ==> (#[trigger] sample.first@[i])@.len() == q
            &&& forall|i: int| 0 <= i < n ==> (#[trigger] sample.second@[i])@.len() == q
            &&& forall|i: int| 0 <= i < n ==> (#[trigger] sample.whole@[i])@.len() == q
        },
        n == 0 ==> r.0 is Ok && r.1 == rng,
{
    let (states, samples) = choose|
        states: Seq<R>,
        samples: Seq<core::result::Result<Vec<Vec<Binary64>>, Message>>,
    |
        #[trigger] three_payload_runs(model, sigma_sq, q, n as nat, states, samples)
            && states[0] == rng && states.last() == r.1 && payload_sample(samples, r.0);
    assert forall|i: int| 0 <= i < samples.len() implies (#[trigger] samples[i] is Ok
        ==> (samples[i]->Ok_0)@.len() == n && forall|j: int|
        0 <= j < n ==> (#[trigger] (samples[i]->Ok_0)@[j])@.len() == q) && (n == 0
        ==> samples[i] is Ok && states[i] == states[i + 1]) by {
        lemma_payload_run(model, sigma_sq, q, n as nat, states[i], samples[i], states[i + 1]);
    }
    if r.0 is Ok {
        assert(samples[0] is Ok && samples[1] is Ok && samples[2] is Ok);
    } else {
        assert(samples[samples.len() - 1] is Err);
    }
    if n == 0 {
        assert(samples.len() == 3);
        assert(samples[0] is Ok && samples[1] is Ok && samples[2] is Ok);
    }
}

/// A run of the payload prior gives as many payloads as asked for, or none.
proof fn lemma_payload_run<R, M: PayloadDraws<R>>(
    model: &M,
    sigma_sq: Binary64,
    q: usize,
    n: nat,
    before: R,
    sample: core::result::Result<Vec<Vec<Binary64>>, Message>,
    after: R,
)
    requires
        payload_run(model, sigma_sq, q, n, before, sample, after),
    ensures
        sample is Ok ==> (sample->Ok_0)@.len() == n,
        sample is Ok ==> forall|i: int| 0 <= i < n ==> (#[trigger] (sample->Ok_0)@[i])@.len() == q,
        n == 0 ==> sample is Ok && before == after,
{
    let (stats, states, payloads) = choose|
        stats: &[M::Stats],
        states: Seq<R>,
        payloads: Seq<core::result::Result<Vec<Binary64>, Message>>,
    |
        {
            &&& #[trigger] is_payload_chain(model, stats, sigma_sq, q, states, payloads)
            &&& stats@.len() == 1
            &&& call_ensures(<M::Stats as Default>::default, (), stats@[0])
            &&& states[0] == before
            &&& states.last() == after
            &&& ends(payloads, n)
            &&& collected(payloads, sample)
        };
    lemma_collected(model, stats, sigma_sq, q, states, payloads, n, sample);
}

/// Replications of a payload are given all or not at all: as many as asked for, each with
/// its value and all its draws, a reading of a payload each.
pub proof fn payload_replications_are_whole<
    R,
    M: PayloadDraws<R>,
    G: Fn(Vec<Binary64>, R) -> (M::Stats, R),
    P: Fn(&Vec<Binary64>) -> Binary64,
>(
    model: &M,
    sigma_sq: Binary64,
    q: usize,
    generate: &G,
    probe: &P,
    n: usize,
    n_draws: usize,
    rng: R,
    r: (core::result::Result<Vec<Replication>, Message>, R),
    k: int,
    j: int,
)
    requires
        call_ensures(
            observe_payload_replications::<R, M, G, P>,
            (model, sigma_sq, q, generate, probe, n, n_draws, rng),
            r,
        ),
        r.0 is Ok,
        0 <= k < n,
        0 <= j < n_draws,
    ensures
        (r.0->Ok_0)@.len() == n,
        (r.0->Ok_0)@[k].star is Ok,
        (r.0->Ok_0)@[k].draws@.len() == n_draws,
        (r.0->Ok_0)@[k].draws@[j] is Ok,
        exists|payload: Vec<Binary64>|
            payload@.len() == q && #[trigger] call_ensures(
                *probe,
                (&payload,),
                (r.0->Ok_0)@[k].star->Ok_0,
            ),
        exists|payload: Vec<Binary64>|
            payload@.len() == q && #[trigger] call_ensures(
                *probe,
                (&payload,),
                (r.0->Ok_0)@[k].draws@[j]->Ok_0,
            ),
{
    let reps = (r.0->Ok_0)@;
    let (states, outcomes) = choose|
        states: Seq<R>,
        outcomes: Seq<core::result::Result<Replication, Message>>,
    |
        {
            &&& #[trigger] is_payload_series(
                model,
                sigma_sq,
                q,
                *generate,
                *probe,
                n_draws as nat,
                states,
                outcomes,
            )
            &&& states[0] == rng
            &&& states.last() == r.1
            &&& ends(outcomes, n as nat)
            &&& collected(outcomes, r.0)
        };
    let last = outcomes.len() - 1;
    if outcomes.len() > 0 {
        assert(outcomes[last] == Ok::<Replication, Message>(reps[last]));
    }
    assert(outcomes.len() == n);
    let rep = reps[k];
    assert(outcomes[k] == Ok::<Replication, Message>(rep));
    assert(payload_replicated(
        model,
        sigma_sq,
        q,
        *generate,
        *probe,
        n_draws as nat,
        states[k],
        outcomes[k],
        states[k + 1],
    ));
    let (star, between) = choose|star: core::result::Result<Vec<Binary64>, Message>, between: R|
        #[trigger] payload_prior_drawn(model, sigma_sq, q, states[k], star, between)
            && match star {
            Ok(coefficients) => payload_posterior_drawn(
                model,
                sigma_sq,
                q,
                *generate,
                *probe,
                n_draws as nat,
                coefficients,
                between,
                outcomes[k],
                states[k + 1],
            ),
            Err(e) => outcomes[k] == Err::<Replication, Message>(e) && states[k + 1] == between,
        };
    assert(star is Ok);
    let coefficients = star->Ok_0;
    let (stats, sources, payloads, sample) = choose|
        stats: &[M::Stats],
        sources: Seq<R>,
        payloads: Seq<core::result::Result<Vec<Binary64>, Message>>,
        sample: core::result::Result<Vec<Vec<Binary64>>, Message>,
    |
        {
            &&& #[trigger] is_payload_chain(model, stats, sigma_sq, q, sources, payloads)
            &&& stats@.len() == 1
            &&& call_ensures(*generate, (coefficients, between), (stats@[0], sources[0]))
            &&& sources.last() == states[k + 1]
            &&& ends(payloads, n_draws as nat)
            &&& #[trigger] collected(payloads, sample)
            &&& match (sample, outcomes[k]) {
                (Ok(list), Ok(rep)) => {
                    &&& rep.star is Ok
                    &&& call_ensures(*probe, (&coefficients,), rep.star->Ok_0)
                    &&& probed(*probe, list@, rep.draws@)
                },
                (Err(e), Err(reason)) => e == reason,
                _ => false,
            }
        };
    lemma_collected(model, stats, sigma_sq, q, sources, payloads, n_draws as nat, sample);
    let list = (sample->Ok_0)@;
    assert(coefficients@.len() == q);
    assert(call_ensures(*probe, (&coefficients,), rep.star->Ok_0));
    assert(rep.draws@[j] is Ok && call_ensures(*probe, (&list[j],), rep.draws@[j]->Ok_0));
    assert(list[j]@.len() == q);
}

/// A drawn payload holds the first coefficients of the model's reply, and can be had
/// exactly where the reply holds enough.
pub proof fn drawn_payload_leads_the_reply<R, M: PayloadDraws<R>>(
    model: &M,
    stats: &[M::Stats],
    sigma_sq: Binary64,
    q: usize,
    rng: R,
    r: (core::result::Result<Vec<Binary64>, Message>, R),
)
    requires
        call_ensures(draw_first_payload::<R, M>, (model, stats, sigma_sq, q, rng), r),
    ensures
        exists|m: &mut R, reply: Result<Vec<Binary64>>|
            {
                &&& #[trigger] call_ensures(
                    M::draw_cell_payload,
                    (model, stats, sigma_sq, m),
                    reply,
                )
                &&& *m == rng && *final(m) == r.1
                &&& r.0 is Ok <==> reply is Ok && (reply->Ok_0)@.len() >= q
                &&& r.0 is Ok ==> (r.0->Ok_0)@.len() == q && forall|i: int|
                    0 <= i < q ==> #[trigger] (r.0->Ok_0)@[i] == (reply->Ok_0)@[i]
            },
{
    let (m, reply) = choose|m: &mut R, reply: Result<Vec<Binary64>>|
        same(*m, rng) && same(*final(m), r.1) && is_first_payload(reply, q, r.0)
            && #[trigger] call_ensures(M::draw_cell_payload, (model, stats, sigma_sq, m), reply);
    assert(call_ensures(M::draw_cell_payload, (model, stats, sigma_sq, m), reply));
}

} // verus!
