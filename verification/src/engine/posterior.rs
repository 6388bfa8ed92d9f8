//! The container of posterior draws, and the schedule by which a fit fills it.

use crate::binary64::{zero, Binary64};
use crate::engine::error::{invalid, invalid_hyperparameter, Failure, Result};
use crate::engine::tessellation::Tessellation;
use crate::message::{text, Message, Style, Text};
use crate::search::{first, lemma_first_holds, lemma_first_is, lemma_first_none};
use crate::value::{same_numbers, Value};
use vstd::prelude::*;

verus! {

/// A saved model that cannot be loaded, and why.
#[derive(Debug)]
pub struct SavedModelError {
    /// Why.
    pub reason: Message,
}

impl SavedModelError {
    /// The user-facing message.
    pub fn message(&self) -> (r: Message)
        ensures
            r@ == text("invalid saved model: "@).then_text(self.reason@),
    {
        Message::of("invalid saved model: ").then_message(&self.reason)
    }
}

/// The kept posterior draws, in scaled space: one error variance and one ensemble of
/// tessellations each. There is a draw.
#[derive(Debug)]
pub struct PosteriorSamples {
    sigma_sqs: Vec<Binary64>,
    draws: Vec<Vec<Tessellation>>,
}

/// The mathematical model of a [`PosteriorSamples`].
pub struct Posterior {
    /// The error variance of each draw.
    pub sigma_sqs: Seq<Binary64>,
    /// The tessellations of each draw.
    pub draws: Seq<Vec<Tessellation>>,
}

impl View for PosteriorSamples {
    type V = Posterior;

    closed spec fn view(&self) -> Posterior {
        Posterior { sigma_sqs: self.sigma_sqs@, draws: self.draws@ }
    }
}

impl Posterior {
    /// There is a draw, and each one has a variance.
    pub open spec fn well_formed(self) -> bool {
        self.draws.len() >= 1 && self.sigma_sqs.len() == self.draws.len()
    }

    /// The same draws with equal numbers.
    pub open spec fn same(self, other: Self) -> bool {
        &&& same_numbers(self.sigma_sqs, other.sigma_sqs)
        &&& self.draws.len() == other.draws.len()
        &&& forall|i: int| 0 <= i < self.draws.len() ==> (#[trigger] self.draws[i]).equal(
            other.draws[i],
        )
    }

    /// The same draws, number for number.
    pub open spec fn copy_of(self, other: Self) -> bool {
        &&& self.sigma_sqs == other.sigma_sqs
        &&& self.draws.len() == other.draws.len()
        &&& forall|i: int| 0 <= i < self.draws.len() ==> (#[trigger] self.draws[i]).copy_of(
            other.draws[i],
        )
    }
}

impl Value for PosteriorSamples {
    open spec fn equal(self, other: Self) -> bool {
        self@.same(other@)
    }

    open spec fn copy_of(self, other: Self) -> bool {
        self@.copy_of(other@)
    }

    fn equals(&self, other: &Self) -> (r: bool) {
        self.sigma_sqs.equals(&other.sigma_sqs) && self.draws.equals(&other.draws)
    }

    fn duplicate(&self) -> (r: Self) {
        proof {
            use_type_invariant(self);
        }
        let sigma_sqs = self.sigma_sqs.duplicate();
        assert(sigma_sqs@ =~= self.sigma_sqs@);
        PosteriorSamples { sigma_sqs, draws: self.draws.duplicate() }
    }
}

impl PartialEq for PosteriorSamples {
    fn eq(&self, other: &Self) -> (r: bool) {
        self.equals(other)
    }
}

impl vstd::std_specs::cmp::PartialEqSpecImpl for PosteriorSamples {
    open spec fn obeys_eq_spec() -> bool {
        true
    }

    open spec fn eq_spec(&self, other: &Self) -> bool {
        self.equal(*other)
    }
}

impl Clone for PosteriorSamples {
    fn clone(&self) -> (r: Self)
        ensures
            r.copy_of(*self),
    {
        self.duplicate()
    }
}

/// One posterior draw.
#[derive(Debug)]
pub struct Draw<'a> {
    /// The error variance.
    pub sigma_sq: Binary64,
    /// The tessellations.
    pub tessellations: &'a Vec<Tessellation>,
}

/// Is every number finite?
pub open spec fn all_finite(values: Seq<Binary64>) -> bool {
    forall|i: int| 0 <= i < values.len() ==> (#[trigger] values[i]).finite()
}

/// Are the coordinates and values of the tessellation finite?
pub open spec fn finite_tessellation(t: Tessellation) -> bool {
    all_finite(t@.centres) && all_finite(t@.mus)
}

/// Does some tessellation of the draw hold a number that is not finite?
pub open spec fn non_finite_draw(draw: Seq<Tessellation>) -> bool {
    exists|k: int| 0 <= k < draw.len() && !finite_tessellation(#[trigger] draw[k])
}

/// Is something wrong with draw `i`, which should have `m` finite tessellations?
pub open spec fn bad_draw(draws: Seq<Vec<Tessellation>>, m: nat, i: int) -> bool {
    draws[i]@.len() != m || non_finite_draw(draws[i]@)
}

/// What is wrong with draw `i`.
pub open spec fn draw_reason(draws: Seq<Vec<Tessellation>>, m: nat, i: int) -> Text {
    if draws[i]@.len() != m {
        text("draw "@).count(i).text(" has "@).count(draws[i]@.len() as int).text(
            " tessellations but draw 0 has "@,
        ).count(m as int)
    } else {
        text("draw "@).count(i).text(" contains a non-finite tessellation"@)
    }
}

/// Why saved draws form no posterior, where they do not.
pub open spec fn posterior_fault(
    sigma_sqs: Seq<Binary64>,
    draws: Seq<Vec<Tessellation>>,
) -> Option<Text> {
    if sigma_sqs.len() != draws.len() {
        Some(text("one sigma-squared value per draw"@))
    } else if draws.len() == 0 {
        Some(text("a posterior needs at least one draw"@))
    } else {
        match first(sigma_sqs.len(), |i: int| !sigma_sqs[i].positive_finite()) {
            Some(i) => Some(
                text("sigma-squared draws must be finite and positive, got "@).number(
                    sigma_sqs[i],
                    Style::Plain,
                ),
            ),
            None => if draws[0]@.len() == 0 {
                Some(text("each draw needs at least one tessellation"@))
            } else {
                match first(draws.len(), |i: int| bad_draw(draws, draws[0]@.len(), i)) {
                    Some(i) => Some(draw_reason(draws, draws[0]@.len(), i)),
                    None => None,
                }
            },
        }
    }
}

/// Is every number finite?
fn is_all_finite(values: &Vec<Binary64>) -> (r: bool)
    ensures
        r == all_finite(values@),
{
    for i in 0..values.len()
        invariant
            forall|j: int| 0 <= j < i ==> (#[trigger] values@[j]).finite(),
    {
        if !values[i].is_finite() {
            assert(!values@[i as int].finite());
            return false;
        }
    }
    true
}

/// Does some tessellation of the draw hold a number that is not finite?
fn is_non_finite_draw(draw: &Vec<Tessellation>) -> (r: bool)
    ensures
        r == non_finite_draw(draw@),
{
    for k in 0..draw.len()
        invariant
            forall|j: int| 0 <= j < k ==> finite_tessellation(#[trigger] draw@[j]),
    {
        if !is_all_finite(draw[k].centres()) || !is_all_finite(draw[k].mus()) {
            assert(!finite_tessellation(draw@[k as int]));
            return true;
        }
    }
    false
}

/// The first variance that is not finite and positive.
fn first_bad_variance(sigma_sqs: &Vec<Binary64>) -> (r: Option<Binary64>)
    ensures
        match first(sigma_sqs@.len(), |i: int| !sigma_sqs@[i].positive_finite()) {
            Some(i) => r == Some(sigma_sqs@[i]),
            None => r is None,
        },
{
    let ghost bad = |i: int| !sigma_sqs@[i].positive_finite();
    for i in 0..sigma_sqs.len()
        invariant
            bad == (|i: int| !sigma_sqs@[i].positive_finite()),
            forall|j: int| 0 <= j < i ==> !#[trigger] bad(j),
    {
        if !sigma_sqs[i].is_positive_finite() {
            proof {
                assert(bad(i as int));
                lemma_first_is(sigma_sqs@.len(), bad, i as int);
            }
            return Some(sigma_sqs[i]);
        }
        assert(!bad(i as int));
    }
    proof {
        lemma_first_none(sigma_sqs@.len(), bad);
    }
    None
}

/// What is wrong with the first bad draw.
fn first_bad_draw(draws: &Vec<Vec<Tessellation>>, m: usize) -> (r: Option<Message>)
    ensures
        match first(draws@.len(), |i: int| bad_draw(draws@, m as nat, i)) {
            Some(i) => r is Some && (r->0)@ == draw_reason(draws@, m as nat, i),
            None => r is None,
        },
{
    let ghost bad = |i: int| bad_draw(draws@, m as nat, i);
    for i in 0..draws.len()
        invariant
            bad == (|i: int| bad_draw(draws@, m as nat, i)),
            forall|j: int| 0 <= j < i ==> !#[trigger] bad(j),
    {
        if draws[i].len() != m {
            proof {
                assert(bad(i as int));
                lemma_first_is(draws@.len(), bad, i as int);
            }
            return Some(
                Message::of("draw ").count(i).text(" has ").count(draws[i].len()).text(
                    " tessellations but draw 0 has ",
                ).count(m),
            );
        }
        if is_non_finite_draw(&draws[i]) {
            proof {
                assert(bad(i as int));
                lemma_first_is(draws@.len(), bad, i as int);
            }
            return Some(
                Message::of("draw ").count(i).text(" contains a non-finite tessellation"),
            );
        }
        assert(!bad(i as int));
    }
    proof {
        lemma_first_none(draws@.len(), bad);
    }
    None
}

/// The failure of kept sweeps that form no fitted model.
pub open spec fn kept_failure(n_sigma_sqs: int, n_draws: int) -> Option<Failure> {
    if n_draws == 0 {
        Some(invalid("draws"@, text("a fitted model needs at least one kept draw"@)))
    } else if n_sigma_sqs != n_draws {
        Some(
            invalid(
                "draws"@,
                text(""@).count(n_sigma_sqs).text(" sigma-squared values for "@).count(
                    n_draws,
                ).text(" kept draws"@),
            ),
        )
    } else {
        None
    }
}

impl PosteriorSamples {
    #[verifier::type_invariant]
    spec fn is_well_formed(self) -> bool {
        self.draws@.len() >= 1 && self.sigma_sqs@.len() == self.draws@.len()
    }

    /// A posterior of saved draws: at least one, all with the same number of
    /// tessellations, with finite and positive variances and finite tessellations.
    pub fn try_from_parts(sigma_sqs: Vec<Binary64>, draws: Vec<Vec<Tessellation>>) -> (r:
        core::result::Result<Self, SavedModelError>)
        ensures
            match r {
                Ok(samples) => {
                    &&& posterior_fault(sigma_sqs@, draws@) is None
                    &&& samples@.sigma_sqs == sigma_sqs@
                    &&& samples@.draws == draws@
                },
                Err(e) => posterior_fault(sigma_sqs@, draws@) == Some(e.reason@),
            },
    {
        if sigma_sqs.len() != draws.len() {
            return Err(SavedModelError { reason: Message::of("one sigma-squared value per draw") });
        }
        if draws.len() == 0 {
            return Err(
                SavedModelError { reason: Message::of("a posterior needs at least one draw") },
            );
        }
        if let Some(value) = first_bad_variance(&sigma_sqs) {
            return Err(
                SavedModelError {
                    reason: Message::of(
                        "sigma-squared draws must be finite and positive, got ",
                    ).number(value, Style::Plain),
                },
            );
        }
        let m: usize = draws[0].len();
        if m == 0 {
            return Err(
                SavedModelError { reason: Message::of("each draw needs at least one tessellation") },
            );
        }
        if let Some(reason) = first_bad_draw(&draws, m) {
            return Err(SavedModelError { reason });
        }
        Ok(PosteriorSamples { sigma_sqs, draws })
    }

    /// The posterior of kept sweeps, in order: at least one, with one variance each.
    pub fn from_kept(sigma_sqs: Vec<Binary64>, draws: Vec<Vec<Tessellation>>) -> (r: Result<Self>)
        ensures
            match r {
                Ok(samples) => {
                    &&& kept_failure(sigma_sqs@.len() as int, draws@.len() as int) is None
                    &&& samples@.sigma_sqs == sigma_sqs@
                    &&& samples@.draws == draws@
                },
                Err(e) => kept_failure(sigma_sqs@.len() as int, draws@.len() as int) == Some(e@),
            },
    {
        if draws.len() == 0 {
            return Err(
                invalid_hyperparameter(
                    "draws",
                    Message::of("a fitted model needs at least one kept draw"),
                ),
            );
        }
        if sigma_sqs.len() != draws.len() {
            return Err(
                invalid_hyperparameter(
                    "draws",
                    Message::of("").count(sigma_sqs.len()).text(
                        " sigma-squared values for ",
                    ).count(draws.len()).text(" kept draws"),
                ),
            );
        }
        Ok(PosteriorSamples { sigma_sqs, draws })
    }

    /// Number of kept draws.
    pub fn n_draws(&self) -> (r: usize)
        ensures
            r == self@.draws.len(),
            self@.well_formed(),
    {
        proof {
            use_type_invariant(self);
        }
        self.sigma_sqs.len()
    }

    /// The error variance of each draw, in scaled space.
    pub fn sigma_sq(&self) -> (r: &[Binary64])
        ensures
            r@ == self@.sigma_sqs,
    {
        self.sigma_sqs.as_slice()
    }

    /// The tessellations of a draw, in scaled space.
    pub fn tessellations(&self, draw: usize) -> (r: &Vec<Tessellation>)
        requires
            draw < self@.draws.len(),
        ensures
            *r == self@.draws[draw as int],
    {
        &self.draws[draw]
    }

    /// A draw, or nothing past the last one.
    pub fn draw(&self, index: usize) -> (r: Option<Draw<'_>>)
        ensures
            match r {
                Some(d) => {
                    &&& index < self@.draws.len()
                    &&& d.sigma_sq == self@.sigma_sqs[index as int]
                    &&& *d.tessellations == self@.draws[index as int]
                },
                None => index >= self@.draws.len(),
            },
    {
        proof {
            use_type_invariant(self);
        }
        if index >= self.sigma_sqs.len() {
            return None;
        }
        Some(Draw { sigma_sq: self.sigma_sqs[index], tessellations: &self.draws[index] })
    }

    /// The draws, one after the other.
    pub fn iter_draws(&self) -> (r: Draws<'_>)
        ensures
            r.samples == self,
            r.index == 0,
    {
        Draws { samples: self, index: 0 }
    }

    /// The variances and the tessellations of the draws.
    pub fn into_parts(self) -> (r: (Vec<Binary64>, Vec<Vec<Tessellation>>))
        ensures
            r.0@ == self@.sigma_sqs,
            r.1@ == self@.draws,
    {
        (self.sigma_sqs, self.draws)
    }
}

/// Hands out the draws of a posterior in order.
#[derive(Debug)]
pub struct Draws<'a> {
    /// The posterior.
    pub samples: &'a PosteriorSamples,
    /// The draw that comes next.
    pub index: usize,
}

impl<'a> Draws<'a> {
    /// The next draw, or nothing once all have been handed out.
    pub fn next(&mut self) -> (r: Option<Draw<'a>>)
        ensures
            final(self).samples == old(self).samples,
            match r {
                Some(d) => {
                    &&& old(self).index < old(self).samples@.draws.len()
                    &&& d.sigma_sq == old(self).samples@.sigma_sqs[old(self).index as int]
                    &&& *d.tessellations == old(self).samples@.draws[old(self).index as int]
                    &&& final(self).index == old(self).index + 1
                },
                None => {
                    &&& old(self).index >= old(self).samples@.draws.len()
                    &&& final(self).index == old(self).index
                },
            },
    {
        let samples = self.samples;
        let r = samples.draw(self.index);
        if r.is_some() {
            assert(samples@.draws.len() <= usize::MAX) by {
                assert(self.index < samples.draws@.len());
                assert(samples.draws@.len() == samples.draws.len());
            }
            self.index = self.index + 1;
        }
        r
    }
}

/// Is sweep `k` of a fit kept: past the sweeps that are discarded, the last one of
/// each block?
pub open spec fn keeps(k: int, burn_in: int, thinning: int) -> bool {
    k >= burn_in && (k - burn_in + 1) % thinning == 0
}

/// Collects the sweeps that a fit keeps: the first `burn_in` are discarded, and of
/// every `thinning` sweeps after them the last one is kept, `n_draws` times.
#[derive(Debug)]
pub struct Collector {
    burn_in: usize,
    n_draws: usize,
    thinning: usize,
    discarded: usize,
    within: usize,
    sigma_sqs: Vec<Binary64>,
    draws: Vec<Vec<Tessellation>>,
}

/// The mathematical model of a [`Collector`].
pub struct Collection {
    /// How many sweeps are discarded at the start.
    pub burn_in: int,
    /// How many sweeps are kept.
    pub n_draws: int,
    /// How many sweeps form a block.
    pub thinning: int,
    /// How many sweeps have been taken.
    pub sweeps: int,
    /// The variances that were kept.
    pub sigma_sqs: Seq<Binary64>,
    /// The tessellations that were kept.
    pub draws: Seq<Vec<Tessellation>>,
}

impl View for Collector {
    type V = Collection;

    closed spec fn view(&self) -> Collection {
        Collection {
            burn_in: self.burn_in as int,
            n_draws: self.n_draws as int,
            thinning: self.thinning as int,
            sweeps: self.discarded + self.draws@.len() * self.thinning + self.within,
            sigma_sqs: self.sigma_sqs@,
            draws: self.draws@,
        }
    }
}

impl Collection {
    /// All sweeps have been taken.
    pub open spec fn complete(self) -> bool {
        self.sweeps == self.burn_in + self.n_draws * self.thinning
    }
}

/// Blocks and what lies within one, counted in sweeps.
proof fn lemma_block_end(kept: int, thinning: int, within: int)
    requires
        thinning >= 1,
        0 <= within < thinning,
        kept >= 0,
    ensures
        (kept * thinning + within + 1) % thinning == 0 <==> within + 1 == thinning,
        (kept + 1) * thinning == kept * thinning + thinning,
        kept * thinning >= 0,
{
    assert((kept + 1) * thinning == kept * thinning + thinning) by (nonlinear_arith);
    assert(kept * thinning >= 0) by (nonlinear_arith)
        requires
            kept >= 0,
            thinning >= 1,
    ;
    if within + 1 == thinning {
        vstd::arithmetic::div_mod::lemma_mod_multiples_basic(kept + 1, thinning);
    } else {
        vstd::arithmetic::div_mod::lemma_mod_multiples_vanish(kept, within + 1, thinning);
        vstd::arithmetic::div_mod::lemma_small_mod((within + 1) as nat, thinning as nat);
        assert(thinning * kept + (within + 1) == kept * thinning + within + 1)
            by (nonlinear_arith);
    }
}

/// As many whole blocks as there are draws are not more than all of them.
proof fn lemma_blocks_bound(kept: int, n_draws: int, thinning: int, within: int)
    requires
        0 <= kept <= n_draws,
        thinning >= 1,
        0 <= within < thinning,
    ensures
        kept == n_draws && within == 0 <==> kept * thinning + within == n_draws * thinning,
        kept < n_draws ==> kept * thinning + within < n_draws * thinning,
{
    if kept < n_draws {
        assert(kept * thinning + within < n_draws * thinning) by (nonlinear_arith)
            requires
                kept + 1 <= n_draws,
                within < thinning,
                thinning >= 1,
        ;
    }
}

impl Collector {
    #[verifier::type_invariant]
    spec fn in_step(self) -> bool {
        &&& self.thinning >= 1
        &&& self.within < self.thinning
        &&& self.discarded <= self.burn_in
        &&& self.discarded < self.burn_in ==> self.draws@.len() == 0 && self.within == 0
        &&& self.sigma_sqs@.len() == self.draws@.len()
        &&& self.draws@.len() <= self.n_draws
        &&& self.draws@.len() == self.n_draws ==> self.within == 0
    }

    /// Nothing has been taken.
    pub fn new(burn_in: usize, n_draws: usize, thinning: usize) -> (r: Self)
        requires
            thinning >= 1,
        ensures
            r@.burn_in == burn_in,
            r@.n_draws == n_draws,
            r@.thinning == thinning,
            r@.sweeps == 0,
            r@.sigma_sqs == Seq::<Binary64>::empty(),
            r@.draws == Seq::<Vec<Tessellation>>::empty(),
    {
        let r = Collector {
            burn_in,
            n_draws,
            thinning,
            discarded: 0,
            within: 0,
            sigma_sqs: Vec::new(),
            draws: Vec::new(),
        };
        assert(0 * thinning == 0);
        r
    }

    /// Have all sweeps been taken?
    pub fn is_complete(&self) -> (r: bool)
        ensures
            r == self@.complete(),
            self@.complete() ==> self@.draws.len() == self@.n_draws,
            self@.sigma_sqs.len() == self@.draws.len(),
            self@.sweeps <= self@.burn_in + self@.n_draws * self@.thinning,
    {
        proof {
            use_type_invariant(self);
            lemma_blocks_bound(
                self.draws@.len() as int,
                self.n_draws as int,
                self.thinning as int,
                self.within as int,
            );
        }
        self.discarded == self.burn_in && self.draws.len() == self.n_draws
    }

    /// Take one sweep: keep it or discard it.
    pub fn take(&mut self, sigma_sq: Binary64, tessellations: Vec<Tessellation>)
        requires
            !old(self)@.complete(),
        ensures
            final(self)@.burn_in == old(self)@.burn_in,
            final(self)@.n_draws == old(self)@.n_draws,
            final(self)@.thinning == old(self)@.thinning,
            final(self)@.sweeps == old(self)@.sweeps + 1,
            if keeps(old(self)@.sweeps, old(self)@.burn_in, old(self)@.thinning) {
                &&& final(self)@.sigma_sqs == old(self)@.sigma_sqs.push(sigma_sq)
                &&& final(self)@.draws == old(self)@.draws.push(tessellations)
            } else {
                &&& final(self)@.sigma_sqs == old(self)@.sigma_sqs
                &&& final(self)@.draws == old(self)@.draws
            },
    {
        proof {
            use_type_invariant(&*self);
            lemma_block_end(
                self.draws@.len() as int,
                self.thinning as int,
                self.within as int,
            );
            lemma_blocks_bound(
                self.draws@.len() as int,
                self.n_draws as int,
                self.thinning as int,
                self.within as int,
            );
            assert(0 * self.thinning == 0);
        }
        let next = Collector {
            burn_in: self.burn_in,
            n_draws: self.n_draws,
            thinning: self.thinning,
            discarded: 0,
            within: 0,
            sigma_sqs: Vec::new(),
            draws: Vec::new(),
        };
        let mut current = next;
        core::mem::swap(self, &mut current);
        let Collector { burn_in, n_draws, thinning, discarded, within, sigma_sqs, draws } = current;
        if discarded < burn_in {
            *self = Collector {
                burn_in,
                n_draws,
                thinning,
                discarded: discarded + 1,
                within,
                sigma_sqs,
                draws,
            };
        } else if within + 1 < thinning {
            *self = Collector {
                burn_in,
                n_draws,
                thinning,
                discarded,
                within: within + 1,
                sigma_sqs,
                draws,
            };
        } else {
            let mut sigma_sqs = sigma_sqs;
            let mut draws = draws;
            sigma_sqs.push(sigma_sq);
            draws.push(tessellations);
            *self = Collector {
                burn_in,
                n_draws,
                thinning,
                discarded,
                within: 0,
                sigma_sqs,
                draws,
            };
        }
    }

    /// The posterior of the kept sweeps.
    pub fn into_posterior(self) -> (r: Result<PosteriorSamples>)
        ensures
            match r {
                Ok(samples) => {
                    &&& self@.draws.len() >= 1
                    &&& samples@.sigma_sqs == self@.sigma_sqs
                    &&& samples@.draws == self@.draws
                },
                Err(e) => self@.draws.len() == 0 && kept_failure(0, 0) == Some(e@),
            },
    {
        proof {
            use_type_invariant(&self);
        }
        PosteriorSamples::from_kept(self.sigma_sqs, self.draws)
    }
}

/// The sweep that becomes kept draw `i`.
pub open spec fn kept_sweep(i: int, burn_in: int, thinning: int) -> int {
    burn_in + (i + 1) * thinning - 1
}

/// The kept sweeps are the last ones of the blocks after the discarded ones, each
/// block as long as the thinning interval, and no others.
pub proof fn kept_sweeps_are_block_ends(k: int, burn_in: int, thinning: int)
    requires
        k >= 0,
        burn_in >= 0,
        thinning >= 1,
    ensures
        keeps(k, burn_in, thinning) <==> exists|i: int|
            i >= 0 && k == #[trigger] kept_sweep(i, burn_in, thinning),
{
    let n = k - burn_in + 1;
    if keeps(k, burn_in, thinning) {
        vstd::arithmetic::div_mod::lemma_fundamental_div_mod(n, thinning);
        let q = n / thinning;
        assert(thinning * q == q * thinning) by (nonlinear_arith);
        assert(q >= 1) by (nonlinear_arith)
            requires
                q * thinning == n,
                n >= 1,
                thinning >= 1,
        ;
        assert(k == kept_sweep(q - 1, burn_in, thinning));
    }
    if exists|i: int| i >= 0 && k == #[trigger] kept_sweep(i, burn_in, thinning) {
        let i = choose|i: int| i >= 0 && k == #[trigger] kept_sweep(i, burn_in, thinning);
        vstd::arithmetic::div_mod::lemma_mod_multiples_basic(i + 1, thinning);
        assert((i + 1) * thinning >= 1) by (nonlinear_arith)
            requires
                i >= 0,
                thinning >= 1,
        ;
    }
}

/// Without thinning every sweep after the discarded ones is kept.
pub proof fn no_thinning_keeps_every_sweep(k: int, burn_in: int)
    requires
        k >= burn_in,
    ensures
        keeps(k, burn_in, 1),
{
}

/// Thinning keeps the last sweep of every block: a sweep is kept exactly where, for some
/// `i`, it is the last one of block `i` after the burn-in. What is kept goes behind what
/// was kept before, with its own variance; otherwise nothing changes.
pub proof fn last_sweep_of_a_block_is_kept(
    c: &mut Collector,
    sigma_sq: Binary64,
    tessellations: Vec<Tessellation>,
)
    requires
        !old(c)@.complete(),
        old(c)@.sweeps >= 0,
        old(c)@.burn_in >= 0,
        old(c)@.thinning >= 1,
        call_ensures(Collector::take, (c, sigma_sq, tessellations), ()),
    ensures
        final(c)@.sweeps == old(c)@.sweeps + 1,
        (exists|i: int|
            i >= 0 && old(c)@.sweeps + 1 == old(c)@.burn_in + #[trigger] ((i + 1)
                * old(c)@.thinning)) <==> final(c)@.draws.len() == old(c)@.draws.len() + 1,
        final(c)@.draws.len() == old(c)@.draws.len() + 1 ==> {
            &&& final(c)@.draws.last() == tessellations
            &&& final(c)@.sigma_sqs.last() == sigma_sq
            &&& final(c)@.draws.drop_last() == old(c)@.draws
            &&& final(c)@.sigma_sqs.drop_last() == old(c)@.sigma_sqs
        },
        final(c)@.draws.len() != old(c)@.draws.len() + 1 ==> {
            &&& final(c)@.draws == old(c)@.draws
            &&& final(c)@.sigma_sqs == old(c)@.sigma_sqs
        },
        final(c)@.burn_in == old(c)@.burn_in,
        final(c)@.n_draws == old(c)@.n_draws,
        final(c)@.thinning == old(c)@.thinning,
{
    let (k, b, t) = (old(c)@.sweeps, old(c)@.burn_in, old(c)@.thinning);
    kept_sweeps_are_block_ends(k, b, t);
    if keeps(k, b, t) {
        let i = choose|i: int| i >= 0 && k == #[trigger] kept_sweep(i, b, t);
        assert(k + 1 == b + (i + 1) * t);
        assert(final(c)@.draws.drop_last() =~= old(c)@.draws);
        assert(final(c)@.sigma_sqs.drop_last() =~= old(c)@.sigma_sqs);
    }
    if exists|i: int| i >= 0 && k + 1 == b + #[trigger] ((i + 1) * t) {
        let i = choose|i: int| i >= 0 && k + 1 == b + #[trigger] ((i + 1) * t);
        assert(k == kept_sweep(i, b, t));
    }
}

/// As many draws are kept as there are whole thinning blocks after the burn-in.
pub open spec fn keeps_whole_blocks(c: Collection) -> bool {
    c.draws.len() == if c.sweeps <= c.burn_in {
        0
    } else {
        (c.sweeps - c.burn_in) / c.thinning
    }
}

/// A new collector keeps as many draws as there are whole blocks, namely none, and each
/// sweep that it takes leaves it that way.
pub proof fn kept_draws_are_whole_blocks(
    burn_in: usize,
    n_draws: usize,
    thinning: usize,
    fresh: Collector,
    c: &mut Collector,
    sigma_sq: Binary64,
    tessellations: Vec<Tessellation>,
)
    requires
        thinning >= 1,
        call_ensures(Collector::new, (burn_in, n_draws, thinning), fresh),
        !old(c)@.complete(),
        old(c)@.sweeps >= 0,
        old(c)@.burn_in >= 0,
        old(c)@.thinning >= 1,
        keeps_whole_blocks(old(c)@),
        call_ensures(Collector::take, (c, sigma_sq, tessellations), ()),
    ensures
        keeps_whole_blocks(fresh@),
        fresh@.burn_in == burn_in,
        fresh@.n_draws == n_draws,
        fresh@.thinning == thinning,
        fresh@.sweeps == 0,
        keeps_whole_blocks(final(c)@),
{
    let (k, b, t) = (old(c)@.sweeps, old(c)@.burn_in, old(c)@.thinning);
    let n = k - b + 1;
    if k >= b {
        let q = n / t;
        vstd::arithmetic::div_mod::lemma_fundamental_div_mod(n, t);
        vstd::arithmetic::div_mod::lemma_mod_bound(n, t);
        if n % t == 0 {
            assert(n - 1 == t * (q - 1) + (t - 1)) by (nonlinear_arith)
                requires
                    n == t * q,
            ;
            assert(n - 1 == (q - 1) * t + (t - 1)) by (nonlinear_arith)
                requires
                    n == t * q,
            ;
            vstd::arithmetic::div_mod::lemma_fundamental_div_mod_converse(n - 1, t, q - 1, t - 1);
        } else {
            assert(n - 1 == q * t + (n % t - 1)) by (nonlinear_arith)
                requires
                    n == t * q + n % t,
            ;
            vstd::arithmetic::div_mod::lemma_fundamental_div_mod_converse(n - 1, t, q, n % t - 1);
        }
        if n == 1 {
            assert(0int / t == 0) by {
                vstd::arithmetic::div_mod::lemma_div_basics(t);
            }
        }
    }
}

/// A collector is complete after the burn-in and one block for every draw, and has then
/// kept as many draws as were asked for.
pub proof fn complete_after_burn_in_and_blocks(c: Collector, r: bool)
    requires
        call_ensures(Collector::is_complete, (&c,), r),
        keeps_whole_blocks(c@),
        c@.thinning >= 1,
        c@.n_draws >= 0,
    ensures
        r <==> c@.sweeps == c@.burn_in + c@.n_draws * c@.thinning,
        r ==> c@.draws.len() == c@.n_draws,
        !r ==> c@.sweeps < c@.burn_in + c@.n_draws * c@.thinning,
{
    let (n, t) = (c@.n_draws, c@.thinning);
    if n > 0 {
        assert(n * t > 0) by (nonlinear_arith)
            requires
                n > 0,
                t > 0,
        ;
        vstd::arithmetic::div_mod::lemma_div_multiples_vanish(n, t);
        assert(t * n == n * t) by (nonlinear_arith);
    }
}

/// What a collector kept is what its posterior holds, draw by draw; without a draw there
/// is none.
pub proof fn posterior_holds_what_was_kept(c: Collector, r: Result<PosteriorSamples>)
    requires
        call_ensures(Collector::into_posterior, (c,), r),
    ensures
        r is Ok <==> c@.draws.len() > 0,
        r matches Ok(samples) ==> samples@.draws == c@.draws && samples@.sigma_sqs
            == c@.sigma_sqs,
{
}

/// Draws with a variance each are taken as they are wherever there is one.
pub proof fn kept_parts_need_a_variance_each(
    sigma_sqs: Vec<Binary64>,
    draws: Vec<Vec<Tessellation>>,
    r: Result<PosteriorSamples>,
)
    requires
        call_ensures(PosteriorSamples::from_kept, (sigma_sqs, draws), r),
    ensures
        r is Ok <==> draws@.len() > 0 && sigma_sqs@.len() == draws@.len(),
        r matches Ok(samples) ==> samples@.draws == draws@ && samples@.sigma_sqs == sigma_sqs@,
{
}

/// A saved posterior is accepted exactly where it has a draw, one variance for each,
/// every variance finite and above zero, equally many tessellations in every draw and at
/// least one, and every coordinate and value finite.
pub proof fn saved_parts_accepted_exactly_when_usable(
    sigma_sqs: Vec<Binary64>,
    draws: Vec<Vec<Tessellation>>,
    r: core::result::Result<PosteriorSamples, SavedModelError>,
)
    requires
        call_ensures(PosteriorSamples::try_from_parts, (sigma_sqs, draws), r),
    ensures
        r is Ok <==> {
            &&& draws@.len() > 0
            &&& sigma_sqs@.len() == draws@.len()
            &&& forall|i: int|
                0 <= i < sigma_sqs@.len() ==> (#[trigger] sigma_sqs@[i]).finite() && zero().below(
                    sigma_sqs@[i],
                )
            &&& forall|i: int|
                0 <= i < draws@.len() ==> (#[trigger] draws@[i])@.len() == draws@[0]@.len()
                    && draws@[i]@.len() > 0
            &&& forall|i: int, k: int, j: int|
                0 <= i < draws@.len() && 0 <= k < draws@[i]@.len() && 0 <= j
                    < draws@[i]@[k]@.centres.len() ==> (
                #[trigger] draws@[i]@[k]@.centres[j]).finite()
            &&& forall|i: int, k: int, j: int|
                0 <= i < draws@.len() && 0 <= k < draws@[i]@.len() && 0 <= j
                    < draws@[i]@[k]@.mus.len() ==> (#[trigger] draws@[i]@[k]@.mus[j]).finite()
        },
        r matches Ok(samples) ==> samples@.draws == draws@ && samples@.sigma_sqs == sigma_sqs@,
{
    let low = |i: int| !sigma_sqs@[i].positive_finite();
    lemma_first_holds(sigma_sqs@.len(), low);
    if first(sigma_sqs@.len(), low) is Some {
        let i = first(sigma_sqs@.len(), low)->0;
        assert(low(i));
        assert(!(sigma_sqs@[i].finite() && zero().below(sigma_sqs@[i])));
    } else {
        assert forall|i: int| 0 <= i < sigma_sqs@.len() implies (#[trigger] sigma_sqs@[i]).finite()
            && zero().below(sigma_sqs@[i]) by {
            assert(!low(i));
        }
    }
    if draws@.len() > 0 {
        let m = draws@[0]@.len();
        let bad = |i: int| bad_draw(draws@, m, i);
        lemma_first_holds(draws@.len(), bad);
        if first(draws@.len(), bad) is Some {
            let i = first(draws@.len(), bad)->0;
            assert(bad(i));
            if draws@[i]@.len() == m {
                let k = choose|k: int|
                    0 <= k < draws@[i]@.len() && !finite_tessellation(#[trigger] draws@[i]@[k]);
                let t = draws@[i]@[k]@;
                if !all_finite(t.centres) {
                    let j = choose|j: int|
                        0 <= j < t.centres.len() && !(#[trigger] t.centres[j]).finite();
                    assert(!draws@[i]@[k]@.centres[j].finite());
                } else {
                    let j = choose|j: int| 0 <= j < t.mus.len() && !(#[trigger] t.mus[j]).finite();
                    assert(!draws@[i]@[k]@.mus[j].finite());
                }
            }
        } else {
            assert forall|i: int| 0 <= i < draws@.len() implies !non_finite_draw(
                (#[trigger] draws@[i])@,
            ) && draws@[i]@.len() == m by {
                assert(!bad(i));
            }
            assert forall|i: int, k: int, j: int|
                0 <= i < draws@.len() && 0 <= k < draws@[i]@.len() && 0 <= j
                    < draws@[i]@[k]@.centres.len() implies (
            #[trigger] draws@[i]@[k]@.centres[j]).finite() by {
                assert(!non_finite_draw(draws@[i]@));
                assert(finite_tessellation(draws@[i]@[k]));
            }
            assert forall|i: int, k: int, j: int|
                0 <= i < draws@.len() && 0 <= k < draws@[i]@.len() && 0 <= j
                    < draws@[i]@[k]@.mus.len() implies (
            #[trigger] draws@[i]@[k]@.mus[j]).finite() by {
                assert(!non_finite_draw(draws@[i]@));
                assert(finite_tessellation(draws@[i]@[k]));
            }
        }
    }
}

/// A draw is there exactly below the number of draws, and is the variance and the
/// ensemble that were kept at its index; walking the draws meets them in that order.
pub proof fn draws_are_read_in_order<'a>(
    samples: &'a PosteriorSamples,
    index: usize,
    r: Option<Draw<'a>>,
    walk: &mut Draws<'a>,
    next: Option<Draw<'a>>,
)
    requires
        call_ensures(PosteriorSamples::draw, (samples, index), r),
        old(walk).samples == samples,
        old(walk).index == index,
        call_ensures(Draws::<'a>::next, (walk,), next),
    ensures
        r is Some <==> index < samples@.draws.len(),
        r matches Some(d) ==> d.sigma_sq == samples@.sigma_sqs[index as int] && *d.tessellations
            == samples@.draws[index as int],
        next is Some <==> r is Some,
        next matches Some(d) ==> d.sigma_sq == r->0.sigma_sq && *d.tessellations
            == *r->0.tessellations,
        next is Some ==> final(walk).index == index + 1,
        next is None ==> final(walk).index == index,
        final(walk).samples == samples,
{
}

/// A posterior is read back as it was put in.
pub proof fn posterior_reads_back(
    sigma_sqs: Vec<Binary64>,
    draws: Vec<Vec<Tessellation>>,
    p: PosteriorSamples,
    n: usize,
    variances: &[Binary64],
    draw: usize,
    tessellations: &Vec<Tessellation>,
    walk: Draws<'_>,
    parts: (Vec<Binary64>, Vec<Vec<Tessellation>>),
)
    requires
        call_ensures(PosteriorSamples::try_from_parts, (sigma_sqs, draws), Ok(p)),
        call_ensures(PosteriorSamples::n_draws, (&p,), n),
        call_ensures(PosteriorSamples::sigma_sq, (&p,), variances),
        draw < draws@.len(),
        call_ensures(PosteriorSamples::tessellations, (&p, draw), tessellations),
        call_ensures(PosteriorSamples::iter_draws, (&p,), walk),
        call_ensures(PosteriorSamples::into_parts, (p,), parts),
    ensures
        n == draws@.len(),
        variances@ == sigma_sqs@ && parts.0@ == sigma_sqs@,
        *tessellations == draws@[draw as int],
        walk.index == 0 && walk.samples@.draws == draws@,
        parts.1@ == draws@,
{
}

/// Posteriors are equal exactly where their variances are, one by one, and their
/// tessellations are, draw by draw.
pub proof fn posteriors_equal_draw_by_draw(a: PosteriorSamples, b: PosteriorSamples, r: bool)
    requires
        call_ensures(PosteriorSamples::equals, (&a, &b), r),
    ensures
        r <==> {
            &&& a@.sigma_sqs.len() == b@.sigma_sqs.len()
            &&& forall|i: int|
                0 <= i < a@.sigma_sqs.len() ==> (#[trigger] a@.sigma_sqs[i]).same(b@.sigma_sqs[i])
            &&& a@.draws.len() == b@.draws.len()
            &&& forall|i: int|
                0 <= i < a@.draws.len() ==> (#[trigger] a@.draws[i])@.len() == b@.draws[i]@.len()
            &&& forall|i: int, j: int|
                0 <= i < a@.draws.len() && 0 <= j < a@.draws[i]@.len() ==> (
                #[trigger] a@.draws[i]@[j]).equal(b@.draws[i]@[j])
        },
{
    if a@.draws.len() == b@.draws.len() {
        assert forall|i: int| 0 <= i < a@.draws.len() implies (#[trigger] a@.draws[i]).equal(
            b@.draws[i],
        ) == (a@.draws[i]@.len() == b@.draws[i]@.len() && forall|j: int|
            0 <= j < a@.draws[i]@.len() ==> (#[trigger] a@.draws[i]@[j]).equal(
                b@.draws[i]@[j],
            )) by {}
    }
}

} // verus!
