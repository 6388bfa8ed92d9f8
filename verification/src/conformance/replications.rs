//! The data sets of the rank checks: a value from the prior, data that is generated
//! under it, and posterior draws given the data, each in the order in which it consumes
//! randomness.

use crate::binary64::Binary64;
use crate::conformance::cell_model::{lemma_rank_fault, rank_fault, Replication};
use crate::conformance::draws::{draw_value, draw_values, drawn, ends, is_chain};
use crate::engine::error::Result;
use crate::extensions::CellDraws;
use crate::search::{lemma_first_is, lemma_first_none};
use vstd::prelude::*;

verus! {

/// A value was drawn from the prior: by a model that has seen nothing.
pub open spec fn prior_drawn<R, M: CellDraws<R>>(
    model: &M,
    sigma_sq: Binary64,
    before: R,
    star: Result<Binary64>,
    after: R,
) -> bool {
    exists|stats: &[M::Stats]|
        {
            &&& #[trigger] drawn(model, stats, sigma_sq, before, star, after)
            &&& stats@.len() == 1
            &&& call_ensures(<M::Stats as Default>::default, (), stats@[0])
        }
}

/// Draw one value from the prior; the randomness that is left comes back.
pub fn draw_star<R, M: CellDraws<R>>(model: &M, sigma_sq: Binary64, rng: R) -> (r: (
    Result<Binary64>,
    R,
))
    ensures
        prior_drawn(model, sigma_sq, rng, r.0, r.1),
{
    let nothing: M::Stats = M::Stats::default();
    let mut cells: Vec<M::Stats> = Vec::new();
    cells.push(nothing);
    let stats = cells.as_slice();
    let r = draw_value(model, stats, sigma_sq, rng);
    assert(call_ensures(draw_value::<R, M>, (model, stats, sigma_sq, rng), r));
    assert(drawn(model, stats, sigma_sq, rng, r.0, r.1));
    r
}

/// Posterior draws were taken given data that was generated under `star`.
pub open spec fn posterior_drawn<R, M: CellDraws<R>, G: Fn(Binary64, R) -> (M::Stats, R)>(
    model: &M,
    sigma_sq: Binary64,
    generate: G,
    n_draws: nat,
    star: Binary64,
    before: R,
    draws: Seq<Result<Binary64>>,
    after: R,
) -> bool {
    exists|stats: &[M::Stats], states: Seq<R>|
        {
            &&& #[trigger] is_chain(model, stats, sigma_sq, states, draws)
            &&& stats@.len() == 1
            &&& call_ensures(generate, (star, before), (stats@[0], states[0]))
            &&& states.last() == after
            &&& ends(draws, n_draws)
        }
}

/// Generate data under a value and draw from the posterior given the data `n_draws`
/// times; a failure ends the draws.
pub fn draw_given<R, M: CellDraws<R>, G: Fn(Binary64, R) -> (M::Stats, R)>(
    model: &M,
    sigma_sq: Binary64,
    generate: &G,
    n_draws: usize,
    star: Binary64,
    rng: R,
) -> (r: (Vec<Result<Binary64>>, R))
    requires
        call_requires(*generate, (star, rng)),
    ensures
        posterior_drawn(model, sigma_sq, *generate, n_draws as nat, star, rng, r.0@, r.1),
{
    let ghost before = rng;
    let made = generate(star, rng);
    assert(call_ensures(*generate, (star, before), made));
    let (seen, left) = made;
    let mut cells: Vec<M::Stats> = Vec::new();
    cells.push(seen);
    let stats = cells.as_slice();
    let r = draw_values(model, stats, sigma_sq, left, n_draws);
    assert(exists|states: Seq<R>|
        #[trigger] is_chain(model, stats, sigma_sq, states, r.0@) && states[0] == left
            && states.last() == r.1);
    assert(stats@[0] == made.0);
    r
}

/// One data set: a value from the prior, and where there is one, draws from the
/// posterior of the data that was generated under it.
pub open spec fn replicated<R, M: CellDraws<R>, G: Fn(Binary64, R) -> (M::Stats, R)>(
    model: &M,
    sigma_sq: Binary64,
    generate: G,
    n_draws: nat,
    before: R,
    rep: Replication,
    after: R,
) -> bool {
    exists|between: R|
        #[trigger] prior_drawn(model, sigma_sq, before, rep.star, between) && match rep.star {
            Ok(star) => posterior_drawn(
                model,
                sigma_sq,
                generate,
                n_draws,
                star,
                between,
                rep.draws@,
                after,
            ),
            Err(_) => rep.draws@.len() == 0 && after == between,
        }
}

/// Make one data set; the randomness that is left comes back.
pub fn replicate<R, M: CellDraws<R>, G: Fn(Binary64, R) -> (M::Stats, R)>(
    model: &M,
    sigma_sq: Binary64,
    generate: &G,
    n_draws: usize,
    rng: R,
) -> (r: (Replication, R))
    requires
        forall|star: Binary64, source: R| #[trigger] call_requires(*generate, (star, source)),
    ensures
        replicated(model, sigma_sq, *generate, n_draws as nat, rng, r.0, r.1),
{
    let (star, between) = draw_star(model, sigma_sq, rng);
    match star {
        Err(e) => {
            let rep = Replication { star: Err(e), draws: Vec::new() };
            assert(prior_drawn(model, sigma_sq, rng, rep.star, between));
            (rep, between)
        },
        Ok(value) => {
            let (draws, left) = draw_given(model, sigma_sq, generate, n_draws, value, between);
            let rep = Replication { star: Ok(value), draws };
            assert(prior_drawn(model, sigma_sq, rng, rep.star, between));
            (rep, left)
        },
    }
}

/// The data sets were made one after the other, each from the randomness that the one
/// before it left.
pub open spec fn is_series<R, M: CellDraws<R>, G: Fn(Binary64, R) -> (M::Stats, R)>(
    model: &M,
    sigma_sq: Binary64,
    generate: G,
    n_draws: nat,
    states: Seq<R>,
    reps: Seq<Replication>,
) -> bool {
    &&& states.len() == reps.len() + 1
    &&& forall|i: int|
        #![trigger reps[i]]
        0 <= i < reps.len() ==> replicated(
            model,
            sigma_sq,
            generate,
            n_draws,
            states[i],
            reps[i],
            states[i + 1],
        )
}

/// All `n` data sets were made, or a draw of the last one failed; none before it did.
pub open spec fn series_ends(reps: Seq<Replication>, n: nat) -> bool {
    &&& reps.len() <= n
    &&& reps.len() == n || reps.len() > 0 && rank_fault(reps.last()) is Some
    &&& forall|i: int| 0 <= i < reps.len() - 1 ==> rank_fault(#[trigger] reps[i]) is None
}

/// Did a draw of the data set fail?
fn is_faulty(rep: &Replication) -> (r: bool)
    ensures
        r == (rank_fault(*rep) is Some),
{
    if rep.star.is_err() {
        return true;
    }
    let ghost failed = |i: int| rep.draws@[i] is Err;
    for i in 0..rep.draws.len()
        invariant
            rep.star is Ok,
            failed == (|i: int| rep.draws@[i] is Err),
            forall|k: int| 0 <= k < i ==> !#[trigger] failed(k),
    {
        if rep.draws[i].is_err() {
            proof {
                assert(failed(i as int));
                lemma_first_is(rep.draws@.len(), failed, i as int);
            }
            return true;
        }
        assert(!failed(i as int));
    }
    proof {
        lemma_first_none(rep.draws@.len(), failed);
    }
    false
}

/// Make `n` data sets with `n_draws` posterior draws each; the first failed draw ends
/// it. `generate` makes the data of a value and accumulates it.
pub fn observe_replications<R, M: CellDraws<R>, G: Fn(Binary64, R) -> (M::Stats, R)>(
    model: &M,
    sigma_sq: Binary64,
    generate: &G,
    n: usize,
    n_draws: usize,
    rng: R,
) -> (r: (Vec<Replication>, R))
    requires
        forall|star: Binary64, source: R| #[trigger] call_requires(*generate, (star, source)),
    ensures
        series_ends(r.0@, n as nat),
        exists|states: Seq<R>|
            #[trigger] is_series(model, sigma_sq, *generate, n_draws as nat, states, r.0@)
                && states[0] == rng && states.last() == r.1,
{
    let ghost start = rng;
    let ghost mut states: Seq<R> = seq![rng];
    let mut current = rng;
    let mut reps: Vec<Replication> = Vec::new();
    for i in 0..n
        invariant
            start == rng,
            forall|star: Binary64, source: R| #[trigger] call_requires(*generate, (star, source)),
            reps@.len() == i,
            forall|k: int| 0 <= k < i ==> rank_fault(#[trigger] reps@[k]) is None,
            is_series(model, sigma_sq, *generate, n_draws as nat, states, reps@),
            states[0] == start,
            states.last() == current,
    {
        let ghost before = current;
        let ghost so_far = reps@;
        let (rep, next) = replicate(model, sigma_sq, generate, n_draws, current);
        current = next;
        let failed = is_faulty(&rep);
        reps.push(rep);
        proof {
            let longer = states.push(current);
            assert forall|k: int|
                #![trigger reps@[k]]
                0 <= k < reps@.len() implies replicated(
                model,
                sigma_sq,
                *generate,
                n_draws as nat,
                longer[k],
                reps@[k],
                longer[k + 1],
            ) by {
                if k < i {
                    assert(reps@[k] == so_far[k]);
                    assert(longer[k] == states[k] && longer[k + 1] == states[k + 1]);
                } else {
                    assert(longer[k] == before && longer[k + 1] == current);
                }
            }
            states = longer;
        }
        if failed {
            assert(is_series(model, sigma_sq, *generate, n_draws as nat, states, reps@));
            return (reps, current);
        }
    }
    let r = (reps, current);
    assert(is_series(model, sigma_sq, *generate, n_draws as nat, states, r.0@) && states[0] == rng
        && states.last() == r.1);
    r
}

/// A replication without a value holds no draws; one with a value holds draws until one
/// fails or as many as asked for were had.
pub proof fn replication_draws_follow_its_value<
    R,
    M: CellDraws<R>,
    G: Fn(Binary64, R) -> (M::Stats, R),
>(
    model: &M,
    sigma_sq: Binary64,
    generate: &G,
    n_draws: usize,
    rng: R,
    r: (Replication, R),
)
    requires
        call_ensures(replicate::<R, M, G>, (model, sigma_sq, generate, n_draws, rng), r),
    ensures
        r.0.star is Err ==> r.0.draws@.len() == 0,
        r.0.draws@.len() <= n_draws,
        forall|i: int| 0 <= i < r.0.draws@.len() - 1 ==> #[trigger] r.0.draws@[i] is Ok,
        r.0.star is Ok && r.0.draws@.len() < n_draws ==> r.0.draws@.len() > 0 && r.0.draws@[
            r.0.draws@.len() - 1] is Err,
{
}

/// Replications are made until one could not be ranked or as many as asked for were had.
pub proof fn replications_end_with_the_first_failure<
    R,
    M: CellDraws<R>,
    G: Fn(Binary64, R) -> (M::Stats, R),
>(
    model: &M,
    sigma_sq: Binary64,
    generate: &G,
    n: usize,
    n_draws: usize,
    rng: R,
    r: (Vec<Replication>, R),
    k: int,
)
    requires
        call_ensures(
            observe_replications::<R, M, G>,
            (model, sigma_sq, generate, n, n_draws, rng),
            r,
        ),
    ensures
        r.0@.len() <= n,
        r.0@.len() < n ==> r.0@.len() > 0 && (r.0@[r.0@.len() - 1].star is Err || exists|j: int|
            0 <= j < r.0@[r.0@.len() - 1].draws@.len() && #[trigger] r.0@[r.0@.len()
                - 1].draws@[j] is Err),
        0 <= k < r.0@.len() - 1 ==> r.0@[k].star is Ok && r.0@[k].draws@.len() == n_draws
            && forall|j: int| 0 <= j < n_draws ==> #[trigger] r.0@[k].draws@[j] is Ok,
        n == 0 ==> r.1 == rng,
{
    let states = choose|states: Seq<R>|
        #[trigger] is_series(model, sigma_sq, *generate, n_draws as nat, states, r.0@)
            && states[0] == rng && states.last() == r.1;
    if r.0@.len() > 0 {
        lemma_rank_fault(r.0@[r.0@.len() - 1]);
    }
    if 0 <= k < r.0@.len() - 1 {
        let rep = r.0@[k];
        lemma_rank_fault(rep);
        assert(replicated(
            model,
            sigma_sq,
            *generate,
            n_draws as nat,
            states[k],
            rep,
            states[k + 1],
        ));
        if rep.draws@.len() < n_draws {
            assert(rep.draws@[rep.draws@.len() - 1] is Err);
        }
    }
}

} // verus!
