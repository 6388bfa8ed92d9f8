//! The draws of a cell model that the checks rest on: prior draws for the Monte-Carlo
//! estimate, and posterior draws for the ranks, each in the order in which it consumes
//! randomness.

use crate::binary64::Binary64;
use crate::conformance::cell_model::Marginals;
use crate::conformance::same;
use crate::engine::error::{AddiVortesError, Result};
use crate::extensions::CellDraws;
use vstd::prelude::*;

verus! {

/// The first value of a reply.
pub open spec fn first_value(reply: Result<Vec<Binary64>>) -> Result<Binary64> {
    match reply {
        Ok(values) => Ok(values@[0]),
        Err(e) => Err(e),
    }
}

/// Draw the value of the first cell; the randomness that is left comes back.
pub fn draw_value<R, M: CellDraws<R>>(
    model: &M,
    stats: &[M::Stats],
    sigma_sq: Binary64,
    rng: R,
) -> (r: (Result<Binary64>, R))
    requires
        stats@.len() >= 1,
    ensures
        exists|m: &mut R, reply: Result<Vec<Binary64>>|
            same(*m, rng) && same(*final(m), r.1) && same(r.0, first_value(reply))
                && #[trigger] call_ensures(
                M::draw_cell_values,
                (model, stats, sigma_sq, m),
                reply,
            ),
{
    let mut rng = rng;
    let reply = model.draw_cell_values(stats, sigma_sq, &mut rng);
    let ghost answer = reply;
    let value = match reply {
        Ok(values) => Ok(values[0]),
        Err(e) => Err(e),
    };
    assert(same(value, first_value(answer)));
    (value, rng)
}

/// A draw of the first cell's value leads from one state of the randomness to another.
pub open spec fn drawn<R, M: CellDraws<R>>(
    model: &M,
    stats: &[M::Stats],
    sigma_sq: Binary64,
    before: R,
    value: Result<Binary64>,
    after: R,
) -> bool {
    call_ensures(draw_value::<R, M>, (model, stats, sigma_sq, before), (value, after))
}

/// The values were drawn one after the other, each from the randomness that the one
/// before it left.
pub open spec fn is_chain<R, M: CellDraws<R>>(
    model: &M,
    stats: &[M::Stats],
    sigma_sq: Binary64,
    states: Seq<R>,
    values: Seq<Result<Binary64>>,
) -> bool {
    &&& states.len() == values.len() + 1
    &&& forall|i: int|
        #![trigger values[i]]
        0 <= i < values.len() ==> drawn(
            model,
            stats,
            sigma_sq,
            states[i],
            values[i],
            states[i + 1],
        )
}

/// All `n` draws were taken, or the last one failed; none before it did.
pub open spec fn ends<T, E>(values: Seq<core::result::Result<T, E>>, n: nat) -> bool {
    &&& values.len() <= n
    &&& values.len() == n || values.len() > 0 && values.last() is Err
    &&& forall|i: int| 0 <= i < values.len() - 1 ==> #[trigger] values[i] is Ok
}

/// Draw the value of the first cell `n` times; a failure ends the draws.
pub fn draw_values<R, M: CellDraws<R>>(
    model: &M,
    stats: &[M::Stats],
    sigma_sq: Binary64,
    rng: R,
    n: usize,
) -> (r: (Vec<Result<Binary64>>, R))
    requires
        stats@.len() >= 1,
    ensures
        ends(r.0@, n as nat),
        exists|states: Seq<R>|
            #[trigger] is_chain(model, stats, sigma_sq, states, r.0@) && states[0] == rng
                && states.last() == r.1,
{
    let ghost start = rng;
    let ghost mut states: Seq<R> = seq![rng];
    let mut current = rng;
    let mut values: Vec<Result<Binary64>> = Vec::new();
    for i in 0..n
        invariant
            start == rng,
            stats@.len() >= 1,
            values@.len() == i,
            forall|k: int| 0 <= k < i ==> #[trigger] values@[k] is Ok,
            is_chain(model, stats, sigma_sq, states, values@),
            states[0] == start,
            states.last() == current,
    {
        let ghost before = current;
        let ghost so_far = values@;
        let step = draw_value(model, stats, sigma_sq, current);
        assert(call_ensures(draw_value::<R, M>, (model, stats, sigma_sq, before), step));
        let (value, next) = step;
        current = next;
        let failed = value.is_err();
        values.push(value);
        proof {
            let longer = states.push(current);
            assert forall|k: int|
                #![trigger values@[k]]
                0 <= k < values@.len() implies drawn(
                model,
                stats,
                sigma_sq,
                longer[k],
                values@[k],
                longer[k + 1],
            ) by {
                if k < i {
                    assert(values@[k] == so_far[k]);
                    assert(longer[k] == states[k] && longer[k + 1] == states[k + 1]);
                } else {
                    assert(longer[k] == before && longer[k + 1] == current);
                }
            }
            states = longer;
        }
        if failed {
            assert(is_chain(model, stats, sigma_sq, states, values@));
            return (values, current);
        }
    }
    let r = (values, current);
    assert(is_chain(model, stats, sigma_sq, states, r.0@) && states[0] == rng && states.last()
        == r.1);
    r
}

/// The drawn values, or nothing where a draw failed.
pub open spec fn sample_of(values: Seq<Result<Binary64>>, sample: Option<Vec<Binary64>>) -> bool {
    match sample {
        Some(list) => {
            &&& list@.len() == values.len()
            &&& forall|i: int|
                #![trigger list@[i]]
                0 <= i < values.len() ==> values[i] == Ok::<Binary64, AddiVortesError>(list@[i])
        },
        None => values.len() > 0 && values.last() is Err,
    }
}

/// `sample` was drawn from the prior `n` times.
pub open spec fn prior_run<R, M: CellDraws<R>>(
    model: &M,
    sigma_sq: Binary64,
    n: nat,
    before: R,
    sample: Option<Vec<Binary64>>,
    after: R,
) -> bool {
    exists|stats: &[M::Stats], states: Seq<R>, values: Seq<Result<Binary64>>|
        {
            &&& #[trigger] is_chain(model, stats, sigma_sq, states, values)
            &&& stats@.len() == 1
            &&& call_ensures(<M::Stats as Default>::default, (), stats@[0])
            &&& states[0] == before
            &&& states.last() == after
            &&& ends(values, n)
            &&& sample_of(values, sample)
        }
}

/// Draw from the prior `n` times: a model without data draws from it.
pub fn draw_prior<R, M: CellDraws<R>>(model: &M, sigma_sq: Binary64, rng: R, n: usize) -> (r: (
    Option<Vec<Binary64>>,
    R,
))
    ensures
        prior_run(model, sigma_sq, n as nat, rng, r.0, r.1),
{
    let nothing: M::Stats = M::Stats::default();
    let mut cells: Vec<M::Stats> = Vec::new();
    cells.push(nothing);
    let stats = cells.as_slice();
    let (values, left) = draw_values(model, stats, sigma_sq, rng, n);
    let sample = all_drawn(&values);
    assert(call_ensures(<M::Stats as Default>::default, (), stats@[0]));
    assert(prior_run(model, sigma_sq, n as nat, rng, sample, left));
    (sample, left)
}

/// The drawn values, or nothing where the last draw failed.
fn all_drawn(values: &Vec<Result<Binary64>>) -> (r: Option<Vec<Binary64>>)
    requires
        forall|i: int| 0 <= i < values@.len() - 1 ==> #[trigger] values@[i] is Ok,
    ensures
        sample_of(values@, r),
{
    let mut list: Vec<Binary64> = Vec::new();
    for i in 0..values.len()
        invariant
            forall|i: int| 0 <= i < values@.len() - 1 ==> #[trigger] values@[i] is Ok,
            list@.len() == i,
            forall|k: int|
                #![trigger list@[k]]
                0 <= k < i ==> values@[k] == Ok::<Binary64, AddiVortesError>(list@[k]),
    {
        let ghost so_far = list@;
        match &values[i] {
            Ok(value) => {
                let drawn_value: Binary64 = *value;
                assert(values@[i as int] == Ok::<Binary64, AddiVortesError>(drawn_value));
                list.push(drawn_value);
            },
            Err(_) => {
                assert(i == values@.len() - 1);
                return None;
            },
        }
        assert forall|k: int|
            #![trigger list@[k]]
            0 <= k < i + 1 implies values@[k] == Ok::<Binary64, AddiVortesError>(list@[k]) by {
            if k < i {
                assert(list@[k] == so_far[k]);
            }
        }
    }
    Some(list)
}

/// Prior draws for the two halves of the observations and for all of them.
#[derive(Debug)]
pub struct PriorSample {
    /// Those that the first half is integrated over.
    pub first: Vec<Binary64>,
    /// Those that the second half is integrated over.
    pub second: Vec<Binary64>,
    /// Those that all observations are integrated over.
    pub whole: Vec<Binary64>,
}

/// Three runs of prior draws, each from the randomness that the one before it left,
/// up to the first one that failed.
pub open spec fn three_runs<R, M: CellDraws<R>>(
    model: &M,
    sigma_sq: Binary64,
    n: nat,
    states: Seq<R>,
    samples: Seq<Option<Vec<Binary64>>>,
) -> bool {
    &&& 1 <= samples.len() <= 3
    &&& states.len() == samples.len() + 1
    &&& forall|i: int|
        #![trigger samples[i]]
        0 <= i < samples.len() ==> prior_run(
            model,
            sigma_sq,
            n,
            states[i],
            samples[i],
            states[i + 1],
        )
    &&& forall|i: int| 0 <= i < samples.len() - 1 ==> #[trigger] samples[i] is Some
    &&& samples.len() == 3 || samples.last() is None
}

/// The sample of three runs.
pub open spec fn prior_sample(
    samples: Seq<Option<Vec<Binary64>>>,
    r: Option<PriorSample>,
) -> bool {
    match r {
        Some(sample) => {
            &&& samples.len() == 3
            &&& samples[0] == Some(sample.first)
            &&& samples[1] == Some(sample.second)
            &&& samples[2] == Some(sample.whole)
        },
        None => samples.last() is None,
    }
}

/// Take the prior draws of the Monte-Carlo estimate: `n` for the first half of the
/// observations, for the second half, and for all of them. None are taken where the
/// model has no marginals to be held against, and none after a failed draw.
pub fn observe_prior<R, M: CellDraws<R>>(
    model: &M,
    m: &Marginals,
    sigma_sq: Binary64,
    rng: R,
    n: usize,
) -> (r: (Option<PriorSample>, R))
    ensures
        m.two is Err || m.one is Err ==> r.0 is None && r.1 == rng,
        m.two is Ok && m.one is Ok ==> exists|
            states: Seq<R>,
            samples: Seq<Option<Vec<Binary64>>>,
        |
            #[trigger] three_runs(model, sigma_sq, n as nat, states, samples) && states[0] == rng
                && states.last() == r.1 && prior_sample(samples, r.0),
{
    if m.two.is_err() || m.one.is_err() {
        return (None, rng);
    }
    let (a, after_a) = draw_prior(model, sigma_sq, rng, n);
    let first = match a {
        Some(list) => list,
        None => {
            assert(three_runs(model, sigma_sq, n as nat, seq![rng, after_a], seq![a]));
            return (None, after_a);
        },
    };
    let ghost first_list = first;
    let (b, after_b) = draw_prior(model, sigma_sq, after_a, n);
    let second = match b {
        Some(list) => list,
        None => {
            assert(three_runs(
                model,
                sigma_sq,
                n as nat,
                seq![rng, after_a, after_b],
                seq![Some(first_list), b],
            ));
            return (None, after_b);
        },
    };
    let ghost second_list = second;
    let (c, after_c) = draw_prior(model, sigma_sq, after_b, n);
    let ghost states = seq![rng, after_a, after_b, after_c];
    let ghost samples = seq![Some(first_list), Some(second_list), c];
    assert(three_runs(model, sigma_sq, n as nat, states, samples));
    match c {
        Some(whole) => (Some(PriorSample { first, second, whole }), after_c),
        None => (None, after_c),
    }
}

/// A drawn value is the first of the model's reply, and an error the model's own; the
/// source is left where the model left it.
pub proof fn drawn_value_leads_the_reply<R, M: CellDraws<R>>(
    model: &M,
    stats: &[M::Stats],
    sigma_sq: Binary64,
    rng: R,
    r: (Result<Binary64>, R),
)
    requires
        call_ensures(draw_value::<R, M>, (model, stats, sigma_sq, rng), r),
    ensures
        exists|m: &mut R, reply: Result<Vec<Binary64>>|
            {
                &&& #[trigger] call_ensures(M::draw_cell_values, (model, stats, sigma_sq, m), reply)
                &&& *m == rng
                &&& *final(m) == r.1
                &&& reply is Ok <==> r.0 is Ok
                &&& reply is Ok ==> r.0->Ok_0 == (reply->Ok_0)@[0]
                &&& reply is Err ==> r.0->Err_0 == reply->Err_0
            },
{
    let (m, reply) = choose|m: &mut R, reply: Result<Vec<Binary64>>|
        same(*m, rng) && same(*final(m), r.1) && same(r.0, first_value(reply))
            && #[trigger] call_ensures(M::draw_cell_values, (model, stats, sigma_sq, m), reply);
    assert(call_ensures(M::draw_cell_values, (model, stats, sigma_sq, m), reply));
}

/// Values are drawn until one fails or as many as asked for were had.
pub proof fn values_are_drawn_until_one_fails<R, M: CellDraws<R>>(
    model: &M,
    stats: &[M::Stats],
    sigma_sq: Binary64,
    rng: R,
    n: usize,
    r: (Vec<Result<Binary64>>, R),
)
    requires
        call_ensures(draw_values::<R, M>, (model, stats, sigma_sq, rng, n), r),
    ensures
        r.0@.len() <= n,
        forall|i: int| 0 <= i < r.0@.len() - 1 ==> #[trigger] r.0@[i] is Ok,
        r.0@.len() < n ==> r.0@.len() > 0 && r.0@[r.0@.len() - 1] is Err,
        n == 0 ==> r.1 == rng,
{
}

/// The draws from the prior are either all had, as many as asked for, or not given at all.
pub proof fn prior_draws_are_all_or_nothing<R, M: CellDraws<R>>(
    model: &M,
    sigma_sq: Binary64,
    rng: R,
    n: usize,
    r: (Option<Vec<Binary64>>, R),
)
    requires
        call_ensures(draw_prior::<R, M>, (model, sigma_sq, rng, n), r),
    ensures
        r.0 is Some ==> (r.0->0)@.len() == n,
        n == 0 ==> r.0 is Some && r.1 == rng,
{
    lemma_prior_run(model, sigma_sq, n as nat, rng, r.0, r.1);
}

/// The prior is sampled exactly where both marginals were answered and no draw failed;
/// each of the three samples then has the asked size. Without the marginals the source is
/// left untouched.
pub proof fn prior_samples_have_the_asked_size<R, M: CellDraws<R>>(
    model: &M,
    m: &Marginals,
    sigma_sq: Binary64,
    rng: R,
    n: usize,
    r: (Option<PriorSample>, R),
)
    requires
        call_ensures(observe_prior::<R, M>, (model, m, sigma_sq, rng, n), r),
    ensures
        m.two is Err || m.one is Err ==> r.0 is None && r.1 == rng,
        r.0 matches Some(sample) ==> sample.first@.len() == n && sample.second@.len() == n
            && sample.whole@.len() == n,
        n == 0 && m.two is Ok && m.one is Ok ==> r.0 is Some && r.1 == rng,
{
    if m.two is Ok && m.one is Ok {
        let (states, samples) = choose|states: Seq<R>, samples: Seq<Option<Vec<Binary64>>>|
            #[trigger] three_runs(model, sigma_sq, n as nat, states, samples) && states[0] == rng
                && states.last() == r.1 && prior_sample(samples, r.0);
        assert forall|i: int| 0 <= i < samples.len() implies (#[trigger] samples[i] is Some
            ==> (samples[i]->0)@.len() == n) && (n == 0 ==> samples[i] is Some && states[i]
            == states[i + 1]) by {
            lemma_prior_run(model, sigma_sq, n as nat, states[i], samples[i], states[i + 1]);
        }
        if r.0 is Some {
            assert(samples[0] is Some && samples[1] is Some && samples[2] is Some);
        } else {
            assert(samples[samples.len() - 1] is None);
        }
        if n == 0 {
            assert(samples.len() == 3);
            assert(samples[0] is Some && samples[1] is Some && samples[2] is Some);
        }
    }
}

/// A run of the prior gives as many values as asked for, or none.
proof fn lemma_prior_run<R, M: CellDraws<R>>(
    model: &M,
    sigma_sq: Binary64,
    n: nat,
    before: R,
    sample: Option<Vec<Binary64>>,
    after: R,
)
    requires
        prior_run(model, sigma_sq, n, before, sample, after),
    ensures
        sample is Some ==> (sample->0)@.len() == n,
        n == 0 ==> sample is Some && before == after,
{
    let (stats, states, values) = choose|
        stats: &[M::Stats],
        states: Seq<R>,
        values: Seq<Result<Binary64>>,
    |
        {
            &&& #[trigger] is_chain(model, stats, sigma_sq, states, values)
            &&& stats@.len() == 1
            &&& call_ensures(<M::Stats as Default>::default, (), stats@[0])
            &&& states[0] == before
            &&& states.last() == after
            &&& ends(values, n)
            &&& sample_of(values, sample)
        };
    if sample is Some && values.len() > 0 {
        let list = (sample->0)@;
        let k = values.len() - 1;
        assert(values[k] == Ok::<Binary64, AddiVortesError>(list[k]));
    }
}

} // verus!
