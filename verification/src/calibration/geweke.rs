//! The joint-distribution cross-check: independent draws against a thinned chain, and
//! the verdict on every statistic.

use crate::binary64::{from_bits, Binary64};
use crate::engine::error::{AddiVortesError, Failure, Result};
use crate::named::{Named, Table};
use crate::search::{first, lemma_first_holds, lemma_first_is, lemma_first_none};
use crate::value::Value;
use vstd::prelude::*;

verus! {

/// Sizing of one run.
#[derive(Debug, Clone, Copy)]
pub struct GewekeSpec {
    /// Marginal-conditional sample size.
    pub n_mc: usize,
    /// Successive-conditional kept sample size.
    pub n_sc: usize,
    /// Keep every `thin`-th successive-conditional transition.
    pub thin: usize,
    /// Transitions discarded before keeping.
    pub discard: usize,
    /// Per-battery significance, split evenly across the statistics.
    pub alpha: Binary64,
}

impl Default for GewekeSpec {
    fn default() -> (r: Self)
        ensures
            r.n_mc == 4000,
            r.n_sc == 1500,
            r.thin == 20,
            r.discard == 100,
            r.alpha == from_bits(0x3f84_7ae1_47ae_147b),
    {
        GewekeSpec {
            n_mc: 4000,
            n_sc: 1500,
            thin: 20,
            discard: 100,
            alpha: from_bits(0x3f84_7ae1_47ae_147b),
        }
    }
}

impl Value for GewekeSpec {
    open spec fn equal(self, other: Self) -> bool {
        &&& self.n_mc == other.n_mc
        &&& self.n_sc == other.n_sc
        &&& self.thin == other.thin
        &&& self.discard == other.discard
        &&& self.alpha.same(other.alpha)
    }

    open spec fn copy_of(self, other: Self) -> bool {
        self == other
    }

    fn equals(&self, other: &Self) -> (r: bool) {
        self.n_mc == other.n_mc && self.n_sc == other.n_sc && self.thin == other.thin
            && self.discard == other.discard && self.alpha.is_same(other.alpha)
    }

    fn duplicate(&self) -> (r: Self) {
        *self
    }
}

impl PartialEq for GewekeSpec {
    fn eq(&self, other: &Self) -> (r: bool) {
        self.equals(other)
    }
}

impl vstd::std_specs::cmp::PartialEqSpecImpl for GewekeSpec {
    open spec fn obeys_eq_spec() -> bool {
        true
    }

    open spec fn eq_spec(&self, other: &Self) -> bool {
        self.equal(*other)
    }
}

/// The verdict on one statistic: the distance of the two empirical distributions
/// against its critical value.
#[derive(Debug)]
pub struct GewekeOutcome {
    /// The name of the statistic.
    pub statistic: String,
    /// The largest distance of the two empirical distributions.
    pub d: Binary64,
    /// The critical value at the split significance.
    pub critical: Binary64,
}

impl GewekeOutcome {
    /// Do the two simulators agree on this statistic?
    pub fn passed(&self) -> (r: bool)
        ensures
            r == self.d.at_most(self.critical),
    {
        self.d.is_at_most(self.critical)
    }
}

impl Value for GewekeOutcome {
    open spec fn equal(self, other: Self) -> bool {
        &&& self.statistic@ == other.statistic@
        &&& self.d.same(other.d)
        &&& self.critical.same(other.critical)
    }

    open spec fn copy_of(self, other: Self) -> bool {
        &&& self.statistic@ == other.statistic@
        &&& self.d == other.d
        &&& self.critical == other.critical
    }

    fn equals(&self, other: &Self) -> (r: bool) {
        self.statistic.equals(&other.statistic) && self.d.is_same(other.d)
            && self.critical.is_same(other.critical)
    }

    fn duplicate(&self) -> (r: Self) {
        GewekeOutcome {
            statistic: self.statistic.duplicate(),
            d: self.d,
            critical: self.critical,
        }
    }
}

impl PartialEq for GewekeOutcome {
    fn eq(&self, other: &Self) -> (r: bool) {
        self.equals(other)
    }
}

impl vstd::std_specs::cmp::PartialEqSpecImpl for GewekeOutcome {
    open spec fn obeys_eq_spec() -> bool {
        true
    }

    open spec fn eq_spec(&self, other: &Self) -> bool {
        self.equal(*other)
    }
}

impl Clone for GewekeOutcome {
    fn clone(&self) -> (r: Self)
        ensures
            r.copy_of(*self),
    {
        self.duplicate()
    }
}

/// The successive-conditional simulator under test.
pub trait SuccessiveConditional: Sized {
    /// One transition of the chain: new data given the state, then a new state given
    /// the data.
    fn transition(&mut self) -> (r: Result<()>);

    /// The test quantities of the current state, each under its name.
    fn quantities(&self) -> (r: Vec<(String, Binary64)>);
}

/// Two states are the same.
pub open spec fn same_state<S>(a: S, b: S) -> bool {
    a == b
}

/// One transition of the chain.
pub fn advance<S: SuccessiveConditional>(chain: S) -> (r: (S, Result<()>))
    ensures
        exists|m: &mut S, outcome: Result<()>|
            same_state(*m, chain) && same_state(*final(m), r.0) && same_state(outcome, r.1)
                && #[trigger] call_ensures(S::transition, (m,), outcome),
{
    let mut chain = chain;
    let result = chain.transition();
    (chain, result)
}

/// A transition from one state leads to another.
pub open spec fn moved<S: SuccessiveConditional>(a: S, b: S) -> bool {
    exists|outcome: Result<()>|
        outcome is Ok && #[trigger] call_ensures(advance::<S>, (a,), (b, outcome))
}

/// Every state is reached from the one before it.
pub open spec fn is_walk<S: SuccessiveConditional>(states: Seq<S>, start: S) -> bool {
    &&& states.len() >= 1
    &&& states[0] == start
    &&& forall|i: int|
        #![trigger states[i]]
        0 < i < states.len() ==> moved(states[i - 1], states[i])
}

/// How many states of the chain are read.
pub open spec fn keeps(spec: GewekeSpec) -> nat {
    if spec.thin == 0 {
        0
    } else {
        spec.n_sc as nat
    }
}

/// The state that answer `j` is read from.
pub open spec fn reading(spec: GewekeSpec, j: nat) -> nat {
    spec.discard as nat + (j + 1) * spec.thin as nat
}

/// How many transitions a whole run takes.
pub open spec fn transitions(spec: GewekeSpec) -> nat {
    spec.discard as nat + spec.n_sc as nat * spec.thin as nat
}

/// Each answer is what its state gives.
pub open spec fn are_read<S: SuccessiveConditional>(
    spec: GewekeSpec,
    states: Seq<S>,
    answers: Seq<Vec<(String, Binary64)>>,
) -> bool {
    forall|j: int|
        0 <= j < answers.len() ==> call_ensures(
            S::quantities,
            (&states[reading(spec, j as nat) as int],),
            #[trigger] answers[j],
        )
}

/// A whole run: the states of the chain and what was read of them.
pub open spec fn is_run<S: SuccessiveConditional>(
    spec: GewekeSpec,
    start: S,
    states: Seq<S>,
    answers: Seq<Vec<(String, Binary64)>>,
) -> bool {
    &&& is_walk(states, start)
    &&& states.len() == transitions(spec) + 1
    &&& answers.len() == keeps(spec)
    &&& are_read(spec, states, answers)
}

/// A run that ended at a failing transition.
pub open spec fn is_broken_run<S: SuccessiveConditional>(
    spec: GewekeSpec,
    start: S,
    states: Seq<S>,
    end: S,
    error: AddiVortesError,
) -> bool {
    &&& is_walk(states, start)
    &&& states.len() <= transitions(spec)
    &&& call_ensures(advance::<S>, (states.last(),), (end, Err::<(), AddiVortesError>(error)))
}

/// The answers, one after the other.
pub open spec fn entries(answers: Seq<Vec<(String, Binary64)>>, k: nat) -> Seq<(String, Binary64)>
    decreases k,
{
    if k == 0 {
        Seq::empty()
    } else {
        entries(answers, (k - 1) as nat) + answers[k - 1]@
    }
}

/// The values under a name, in order.
pub open spec fn under(entries: Seq<(String, Binary64)>, name: Seq<char>) -> Seq<Binary64>
    decreases entries.len(),
{
    if entries.len() == 0 {
        Seq::empty()
    } else {
        let rest = under(entries.drop_last(), name);
        if entries.last().0@ == name {
            rest.push(entries.last().1)
        } else {
            rest
        }
    }
}

/// The table holds exactly the entries: under every name its values, in order.
pub open spec fn tabulates(table: Table<Binary64>, entries: Seq<(String, Binary64)>) -> bool {
    &&& table.well_formed()
    &&& forall|name: Seq<char>|
        #![trigger table.has(name)]
        table.has(name) == (under(entries, name).len() > 0)
    &&& forall|name: Seq<char>|
        #![trigger table.list(name)]
        table.list(name) == under(entries, name)
}

/// Add one answer to the table.
fn gather(
    table: &mut Named<Binary64>,
    answer: &Vec<(String, Binary64)>,
    Ghost(so_far): Ghost<Seq<(String, Binary64)>>,
)
    requires
        tabulates(old(table)@, so_far),
    ensures
        tabulates(final(table)@, so_far + answer@),
{
    assert(so_far + answer@.take(0) =~= so_far);
    for i in 0..answer.len()
        invariant
            tabulates(table@, so_far + answer@.take(i as int)),
    {
        let ghost before = table@;
        let ghost old_entries = so_far + answer@.take(i as int);
        let ghost new_entries = so_far + answer@.take(i + 1);
        table.push(answer[i].0.as_str(), answer[i].1);
        proof {
            assert(new_entries.drop_last() =~= old_entries);
            assert(new_entries.last() == answer@[i as int]);
            assert forall|name: Seq<char>|
                #![trigger table@.has(name)]
                table@.has(name) == (under(new_entries, name).len() > 0) by {
                assert(before.has(name) == (under(old_entries, name).len() > 0));
            }
            assert forall|name: Seq<char>|
                #![trigger table@.list(name)]
                table@.list(name) == under(new_entries, name) by {
                assert(before.list(name) == under(old_entries, name));
            }
        }
    }
    assert(answer@.take(answer@.len() as int) =~= answer@);
}

/// The draws of the independent simulator, by name.
pub fn tabulate(draws: &Vec<Vec<(String, Binary64)>>) -> (r: Named<Binary64>)
    ensures
        tabulates(r@, entries(draws@, draws@.len())),
{
    let mut table: Named<Binary64> = Named::new();
    assert forall|name: Seq<char>| #[trigger] table@.list(name) == Seq::<Binary64>::empty() by {
        assert(!table@.has(name));
    }
    for i in 0..draws.len()
        invariant
            tabulates(table@, entries(draws@, i as nat)),
    {
        gather(&mut table, &draws[i], Ghost(entries(draws@, i as nat)));
    }
    table
}

/// Run the chain and read the kept states, or end with the first failing transition.
pub fn successive_conditional<S: SuccessiveConditional>(spec: &GewekeSpec, chain: S) -> (r: (
    S,
    Result<Named<Binary64>>,
))
    requires
        transitions(*spec) <= usize::MAX,
    ensures
        match r.1 {
            Ok(table) => exists|states: Seq<S>, answers: Seq<Vec<(String, Binary64)>>|
                {
                    &&& #[trigger] is_run(*spec, chain, states, answers)
                    &&& r.0 == states.last()
                    &&& tabulates(table@, entries(answers, answers.len()))
                },
            Err(error) => exists|states: Seq<S>| #[trigger]
                is_broken_run(*spec, chain, states, r.0, error),
        },
{
    let ghost start = chain;
    let ghost mut states: Seq<S> = seq![chain];
    let ghost mut answers: Seq<Vec<(String, Binary64)>> = Seq::empty();
    let mut current = chain;
    let mut table: Named<Binary64> = Named::new();
    proof {
        assert forall|name: Seq<char>| #[trigger] table@.list(name) == Seq::<
            Binary64,
        >::empty() by {
            assert(!table@.has(name));
        }
        lemma_transitions(*spec, 0, 0);
    }
    for i in 0..spec.discard
        invariant
            start == chain,
            is_walk(states, start),
            states.len() == i + 1,
            states.last() == current,
            spec.discard <= transitions(*spec),
    {
        let ghost before = current;
        let step = advance(current);
        assert(call_ensures(advance::<S>, (before,), step));
        let (next, result) = step;
        current = next;
        if let Err(error) = result {
            assert(is_broken_run(*spec, start, states, current, error));
            return (current, Err(error));
        }
        proof {
            assert(call_ensures(advance::<S>, (before,), (current, result)));
            lemma_walk_on(states, start, current);
            states = states.push(current);
        }
    }
    let kept: usize = if spec.thin == 0 {
        0
    } else {
        spec.n_sc
    };
    proof {
        assert(spec.thin == 0 ==> spec.n_sc * spec.thin == 0) by (nonlinear_arith)
            requires
                true,
        ;
        assert(0 * spec.thin == 0) by (nonlinear_arith);
    }
    for j in 0..kept
        invariant
            start == chain,
            is_walk(states, start),
            kept == keeps(*spec),
            states.len() == spec.discard + j * spec.thin + 1,
            states.last() == current,
            answers.len() == j,
            are_read(*spec, states, answers),
            forall|k: int| 0 <= k < j ==> #[trigger] reading(*spec, k as nat) < states.len(),
            tabulates(table@, entries(answers, answers.len())),
    {
        for t in 0..spec.thin
            invariant
                start == chain,
                is_walk(states, start),
                kept == keeps(*spec),
                j < kept,
                states.len() == spec.discard + j * spec.thin + t + 1,
                states.last() == current,
                answers.len() == j,
                are_read(*spec, states, answers),
                forall|k: int| 0 <= k < j ==> #[trigger] reading(*spec, k as nat) < states.len(),
                tabulates(table@, entries(answers, answers.len())),
        {
            let ghost before = current;
            let step = advance(current);
            assert(call_ensures(advance::<S>, (before,), step));
            let (next, result) = step;
            current = next;
            proof {
                lemma_transitions(*spec, j as nat, t as nat);
            }
            if let Err(error) = result {
                assert(is_broken_run(*spec, start, states, current, error));
                return (current, Err(error));
            }
            proof {
                assert(call_ensures(advance::<S>, (before,), (current, result)));
                lemma_walk_on(states, start, current);
                let ghost longer = states.push(current);
                assert forall|k: int| 0 <= k < answers.len() implies call_ensures(
                    S::quantities,
                    (&longer[reading(*spec, k as nat) as int],),
                    #[trigger] answers[k],
                ) by {
                    assert(reading(*spec, k as nat) < states.len());
                }
                states = longer;
            }
        }
        let answer = current.quantities();
        let ghost old_entries = entries(answers, answers.len());
        gather(&mut table, &answer, Ghost(old_entries));
        proof {
            assert((j + 1) * spec.thin == j * spec.thin + spec.thin) by (nonlinear_arith);
            let longer = answers.push(answer);
            lemma_entries_prefix(answers, longer, answers.len());
            assert(states[reading(*spec, j as nat) as int] == current);
            assert forall|k: int| 0 <= k < longer.len() implies call_ensures(
                S::quantities,
                (&states[reading(*spec, k as nat) as int],),
                #[trigger] longer[k],
            ) by {
                if k < j {
                    assert(longer[k] == answers[k]);
                }
            }
            answers = longer;
        }
    }
    proof {
        assert(is_run(*spec, start, states, answers));
    }
    (current, Ok(table))
}

/// A walk goes on.
proof fn lemma_walk_on<S: SuccessiveConditional>(states: Seq<S>, start: S, next: S)
    requires
        is_walk(states, start),
        moved(states.last(), next),
    ensures
        is_walk(states.push(next), start),
{
    let longer = states.push(next);
    assert forall|i: int|
        #![trigger longer[i]]
        0 < i < longer.len() implies moved(longer[i - 1], longer[i]) by {
        if i < states.len() {
            assert(moved(states[i - 1], states[i]));
        }
    }
}

/// Transition `t` towards answer `j` is one of the run.
proof fn lemma_transitions(spec: GewekeSpec, j: nat, t: nat)
    ensures
        spec.discard <= transitions(spec),
        j < spec.n_sc && t < spec.thin ==> spec.discard + j * spec.thin + t < transitions(spec),
{
    assert(0 <= spec.n_sc * spec.thin) by (nonlinear_arith);
    if j < spec.n_sc && t < spec.thin {
        assert(j * spec.thin + t < spec.n_sc * spec.thin) by (nonlinear_arith)
            requires
                j < spec.n_sc,
                t < spec.thin,
        ;
    }
}

/// The entries of the first answers do not depend on later ones.
proof fn lemma_entries_prefix(
    a: Seq<Vec<(String, Binary64)>>,
    b: Seq<Vec<(String, Binary64)>>,
    k: nat,
)
    requires
        k <= a.len() <= b.len(),
        forall|i: int| 0 <= i < a.len() ==> a[i] == b[i],
    ensures
        entries(a, k) == entries(b, k),
    decreases k,
{
    if k > 0 {
        lemma_entries_prefix(a, b, (k - 1) as nat);
    }
}

/// The first statistic of the independent draws that the chain never emitted.
pub open spec fn first_missing(mc: Table<Binary64>, sc: Table<Binary64>) -> Option<int> {
    first(mc.names.len(), |i: int| !sc.has(mc.names[i]))
}

/// Has the chain emitted every statistic of the independent draws?
pub fn check_statistics(mc: &Named<Binary64>, sc: &Named<Binary64>) -> (r: Result<()>)
    ensures
        match r {
            Ok(()) => first_missing(mc@, sc@) is None,
            Err(e) => first_missing(mc@, sc@) is Some && e@ == (Failure::MissingStatistic {
                statistic: mc@.names[first_missing(mc@, sc@)->0],
            }),
        },
{
    let ghost bad = |i: int| !sc@.has(mc@.names[i]);
    let n: usize = mc.len();
    for i in 0..n
        invariant
            n == mc@.names.len(),
            bad == (|i: int| !sc@.has(mc@.names[i])),
            forall|j: int| 0 <= j < i ==> !#[trigger] bad(j),
    {
        let name = mc.name(i);
        if sc.get(name.as_str()).is_none() {
            proof {
                assert(bad(i as int));
                lemma_first_is(mc@.names.len(), bad, i as int);
            }
            return Err(AddiVortesError::MissingStatistic { statistic: name.clone() });
        }
        assert(!bad(i as int));
    }
    proof {
        lemma_first_none(mc@.names.len(), bad);
    }
    Ok(())
}

/// The samples that the cross-check compares.
#[derive(Debug)]
pub struct Samples {
    /// The independent draws, by statistic.
    pub mc: Named<Binary64>,
    /// The kept states of the chain, by statistic.
    pub sc: Named<Binary64>,
}

/// Run the cross-check up to the comparison: tabulate the independent draws, run the
/// chain, and see that it emitted every statistic that they did.
pub fn getting_it_right<S: SuccessiveConditional>(
    spec: &GewekeSpec,
    mc_draws: &Vec<Vec<(String, Binary64)>>,
    chain: S,
) -> (r: (S, Result<Samples>))
    requires
        mc_draws@.len() == spec.n_mc,
        transitions(*spec) <= usize::MAX,
    ensures
        match r.1 {
            Ok(samples) => {
                &&& tabulates(samples.mc@, entries(mc_draws@, mc_draws@.len()))
                &&& first_missing(samples.mc@, samples.sc@) is None
                &&& exists|states: Seq<S>, answers: Seq<Vec<(String, Binary64)>>|
                    {
                        &&& #[trigger] is_run(*spec, chain, states, answers)
                        &&& r.0 == states.last()
                        &&& tabulates(samples.sc@, entries(answers, answers.len()))
                    }
            },
            Err(error) => {
                ||| exists|states: Seq<S>| #[trigger]
                    is_broken_run(*spec, chain, states, r.0, error)
                ||| exists|
                    mc: Table<Binary64>,
                    sc: Table<Binary64>,
                    states: Seq<S>,
                    answers: Seq<Vec<(String, Binary64)>>,
                |
                    {
                        &&& #[trigger] is_run(*spec, chain, states, answers)
                        &&& r.0 == states.last()
                        &&& #[trigger] tabulates(mc, entries(mc_draws@, mc_draws@.len()))
                        &&& #[trigger] tabulates(sc, entries(answers, answers.len()))
                        &&& first_missing(mc, sc) is Some
                        &&& error@ == (Failure::MissingStatistic {
                            statistic: mc.names[first_missing(mc, sc)->0],
                        })
                    }
            },
        },
{
    let mc = tabulate(mc_draws);
    let (end, result) = successive_conditional(spec, chain);
    match result {
        Err(error) => (end, Err(error)),
        Ok(sc) => match check_statistics(&mc, &sc) {
            Err(error) => (end, Err(error)),
            Ok(()) => (end, Ok(Samples { mc, sc })),
        },
    }
}

/// The outcomes of the cross-check: one per statistic of the independent draws, in the
/// order of the names, with its distance and its critical value.
pub fn outcomes(samples: &Samples, numbers: &Vec<(Binary64, Binary64)>) -> (r: Vec<GewekeOutcome>)
    requires
        numbers@.len() == samples.mc@.names.len(),
    ensures
        r@.len() == numbers@.len(),
        forall|i: int|
            0 <= i < r@.len() ==> {
                &&& (#[trigger] r@[i]).statistic@ == samples.mc@.names[i]
                &&& r@[i].d == numbers@[i].0
                &&& r@[i].critical == numbers@[i].1
            },
{
    let mut r: Vec<GewekeOutcome> = Vec::new();
    for i in 0..numbers.len()
        invariant
            numbers@.len() == samples.mc@.names.len(),
            r@.len() == i,
            forall|k: int|
                0 <= k < i ==> {
                    &&& (#[trigger] r@[k]).statistic@ == samples.mc@.names[k]
                    &&& r@[k].d == numbers@[k].0
                    &&& r@[k].critical == numbers@[k].1
                },
    {
        r.push(
            GewekeOutcome {
                statistic: samples.mc.name(i).clone(),
                d: numbers[i].0,
                critical: numbers[i].1,
            },
        );
    }
    r
}

/// A whole run reads as many states as the sizing asks for, the last of them at its
/// end; no reading lies among the discarded transitions.
pub proof fn readings_follow_the_discarded(spec: GewekeSpec, j: nat)
    requires
        spec.thin > 0,
        j < spec.n_sc,
    ensures
        keeps(spec) == spec.n_sc,
        spec.discard < reading(spec, j) <= transitions(spec),
        j + 1 == spec.n_sc ==> reading(spec, j) == transitions(spec),
        j + 1 < spec.n_sc ==> reading(spec, j + 1) == reading(spec, j) + spec.thin,
{
    let thin = spec.thin as nat;
    assert((j + 1) * thin > 0) by (nonlinear_arith)
        requires
            thin > 0,
    ;
    assert((j + 1) * thin <= spec.n_sc * thin) by (nonlinear_arith)
        requires
            j < spec.n_sc,
    ;
    assert((j + 2) * thin == (j + 1) * thin + thin) by (nonlinear_arith);
}

/// A statistic passes exactly where its distance does not exceed its critical value; one
/// that is no number passes under none.
pub proof fn passes_up_to_the_critical_value(outcome: GewekeOutcome, r: bool)
    requires
        call_ensures(GewekeOutcome::passed, (&outcome,), r),
    ensures
        outcome.d.finite() && outcome.critical.finite() ==> (r <==> outcome.d.value()
            <= outcome.critical.value()),
        outcome.d.nan() || outcome.critical.nan() ==> !r,
        r <==> outcome.d.below(outcome.critical) || outcome.d.same(outcome.critical),
{
    if outcome.d.finite() && outcome.critical.finite() {
        crate::binary64::rank_orders_values(outcome.d, outcome.critical);
    }
}

/// The values under a name are those of the entries of that name, in their order.
proof fn lemma_under(list: Seq<(String, Binary64)>, name: Seq<char>)
    ensures
        under(list, name) == list.filter(|e: (String, Binary64)| e.0@ == name).map_values(
            |e: (String, Binary64)| e.1,
        ),
    decreases list.len(),
{
    reveal(Seq::filter);
    let of_name = |e: (String, Binary64)| e.0@ == name;
    let value = |e: (String, Binary64)| e.1;
    if list.len() == 0 {
        assert(under(list, name) =~= list.filter(of_name).map_values(value));
    } else {
        lemma_under(list.drop_last(), name);
        assert(under(list, name) =~= list.filter(of_name).map_values(value));
    }
}

/// The values under a name of two lists, one behind the other.
proof fn lemma_under_both(a: Seq<(String, Binary64)>, b: Seq<(String, Binary64)>, name: Seq<char>)
    ensures
        under(a + b, name) == under(a, name) + under(b, name),
    decreases b.len(),
{
    if b.len() == 0 {
        assert(a + b =~= a);
        assert(under(a, name) + under(b, name) =~= under(a, name));
    } else {
        assert((a + b).drop_last() =~= a + b.drop_last());
        lemma_under_both(a, b.drop_last(), name);
        assert(under(a + b, name) =~= under(a, name) + under(b, name));
    }
}

/// Each further draw adds its own values behind those that were tabulated before it, name
/// by name and in its order, and nothing else; without draws there is nothing.
pub proof fn each_draw_adds_its_values(
    draws: &Vec<Vec<(String, Binary64)>>,
    more: &Vec<Vec<(String, Binary64)>>,
    next: Vec<(String, Binary64)>,
    r: Named<Binary64>,
    s: Named<Binary64>,
    name: Seq<char>,
)
    requires
        call_ensures(tabulate, (draws,), r),
        call_ensures(tabulate, (more,), s),
        more@ == draws@.push(next),
    ensures
        s@.list(name) == r@.list(name) + next@.filter(
            |e: (String, Binary64)| e.0@ == name,
        ).map_values(|e: (String, Binary64)| e.1),
        s@.has(name) <==> r@.has(name) || exists|i: int|
            0 <= i < next@.len() && (#[trigger] next@[i]).0@ == name,
        draws@.len() == 0 ==> !r@.has(name),
{
    let n = draws@.len();
    lemma_entries_prefix(draws@, more@, n);
    let (a, b) = (entries(draws@, n), entries(more@, n + 1));
    assert(more@[n as int] == next);
    assert(b == a + next@);
    lemma_under(next@, name);
    lemma_under_both(a, next@, name);
    assert(r@.list(name) == under(a, name));
    assert(s@.list(name) == under(b, name));
    lemma_under_some(next@, name);
    assert(r@.has(name) == (under(a, name).len() > 0));
    assert(s@.has(name) == (under(b, name).len() > 0));
}

/// There is a value under a name exactly where some entry has it.
proof fn lemma_under_some(list: Seq<(String, Binary64)>, name: Seq<char>)
    ensures
        under(list, name).len() > 0 <==> exists|i: int|
            0 <= i < list.len() && (#[trigger] list[i]).0@ == name,
    decreases list.len(),
{
    if list.len() > 0 {
        let front = list.drop_last();
        lemma_under_some(front, name);
        if under(front, name).len() > 0 {
            let i = choose|i: int| 0 <= i < front.len() && (#[trigger] front[i]).0@ == name;
            assert(list[i].0@ == name);
        }
        if list.last().0@ == name {
            assert(list[list.len() - 1].0@ == name);
        }
        if exists|i: int| 0 <= i < list.len() && (#[trigger] list[i]).0@ == name {
            let i = choose|i: int| 0 <= i < list.len() && (#[trigger] list[i]).0@ == name;
            if i < front.len() {
                assert(front[i].0@ == name);
            }
        }
    }
}

/// The chain is walked transition by transition: first those that are discarded, then as
/// many as the thinning says before each reading; the readings are taken of the states
/// that are reached then, and the table holds what they gave.
pub proof fn chain_is_read_after_every_block<S: SuccessiveConditional>(
    spec: GewekeSpec,
    chain: S,
    end: S,
    table: Named<Binary64>,
)
    requires
        call_ensures(successive_conditional::<S>, (&spec, chain), (end, Ok(table))),
    ensures
        exists|states: Seq<S>, answers: Seq<Vec<(String, Binary64)>>|
            {
                &&& #[trigger] states.len() == spec.discard + spec.n_sc * spec.thin + 1
                &&& states[0] == chain
                &&& states.last() == end
                &&& forall|i: int|
                    #![trigger states[i]]
                    0 < i < states.len() ==> moved(states[i - 1], states[i])
                &&& #[trigger] answers.len() == (if spec.thin == 0 {
                    0
                } else {
                    spec.n_sc as int
                })
                &&& forall|j: int|
                    0 <= j < answers.len() ==> call_ensures(
                        S::quantities,
                        (&states[spec.discard + (j + 1) * spec.thin],),
                        #[trigger] answers[j],
                    )
                &&& forall|name: Seq<char>| #[trigger]
                    table@.list(name) == under(entries(answers, answers.len()), name)
            },
{
    let (states, answers) = choose|states: Seq<S>, answers: Seq<Vec<(String, Binary64)>>|
        {
            &&& #[trigger] is_run(spec, chain, states, answers)
            &&& end == states.last()
            &&& tabulates(table@, entries(answers, answers.len()))
        };
    assert(states.len() == spec.discard + spec.n_sc * spec.thin + 1);
    assert(answers.len() == (if spec.thin == 0 {
        0
    } else {
        spec.n_sc as int
    }));
    assert forall|j: int| 0 <= j < answers.len() implies call_ensures(
        S::quantities,
        (&states[spec.discard + (j + 1) * spec.thin],),
        #[trigger] answers[j],
    ) by {
        assert(reading(spec, j as nat) == spec.discard + (j + 1) * spec.thin);
    }
}

/// The statistics are comparable exactly where the chain gave every statistic that the
/// independent draws gave; otherwise the first one that it did not give is named.
pub proof fn every_statistic_must_be_given(
    mc: &Named<Binary64>,
    sc: &Named<Binary64>,
    r: Result<()>,
)
    requires
        call_ensures(check_statistics, (mc, sc), r),
    ensures
        r is Ok <==> forall|i: int| 0 <= i < mc@.names.len() ==> sc@.has(#[trigger] mc@.names[i]),
        r is Err ==> exists|i: int|
            {
                &&& 0 <= i < mc@.names.len()
                &&& !sc@.has(#[trigger] mc@.names[i])
                &&& r->Err_0@ == (Failure::MissingStatistic { statistic: mc@.names[i] })
                &&& forall|j: int| 0 <= j < i ==> sc@.has(#[trigger] mc@.names[j])
            },
{
    let bad = |i: int| !sc@.has(mc@.names[i]);
    lemma_first_holds(mc@.names.len(), bad);
    if r is Ok {
        assert forall|i: int| 0 <= i < mc@.names.len() implies sc@.has(#[trigger] mc@.names[i]) by {
            assert(!bad(i));
        }
    } else {
        let i = first(mc@.names.len(), bad)->0;
        assert(bad(i));
        assert(!sc@.has(mc@.names[i]));
        assert forall|j: int| 0 <= j < i implies sc@.has(#[trigger] mc@.names[j]) by {
            assert(!bad(j));
        }
    }
}

/// An outcome carries the name of its statistic and the numbers that were computed for
/// it, in the order of the names.
pub proof fn outcomes_carry_their_numbers(
    samples: &Samples,
    numbers: &Vec<(Binary64, Binary64)>,
    r: Vec<GewekeOutcome>,
    i: int,
)
    requires
        call_ensures(outcomes, (samples, numbers), r),
        0 <= i < numbers@.len(),
    ensures
        r@.len() == numbers@.len(),
        r@[i].statistic@ == samples.mc@.names[i],
        (r@[i].d, r@[i].critical) == numbers@[i],
{
}

/// Samples that come out of a run hold every statistic of the independent draws in both
/// tables.
pub proof fn both_simulators_give_every_statistic<S: SuccessiveConditional>(
    spec: &GewekeSpec,
    mc_draws: &Vec<Vec<(String, Binary64)>>,
    chain: S,
    r: (S, Result<Samples>),
    i: int,
)
    requires
        call_ensures(getting_it_right::<S>, (spec, mc_draws, chain), r),
        r.1 is Ok,
        0 <= i < (r.1->Ok_0).mc@.names.len(),
    ensures
        (r.1->Ok_0).sc@.has((r.1->Ok_0).mc@.names[i]),
{
    let (mc, sc) = ((r.1->Ok_0).mc@, (r.1->Ok_0).sc@);
    let bad = |k: int| !sc.has(mc.names[k]);
    lemma_first_holds(mc.names.len(), bad);
    assert(!bad(i));
}

/// Specifications and outcomes of the joint test are equal exactly where everything they
/// hold is; the documented defaults are 4000 independent draws, 1500 readings, one every
/// 20 transitions after the first 100, at the level of one in a hundred.
pub proof fn runs_equal_part_by_part(
    s: (GewekeSpec, GewekeSpec, bool),
    o: (GewekeOutcome, GewekeOutcome, bool),
    d: GewekeSpec,
)
    requires
        call_ensures(GewekeSpec::equals, (&s.0, &s.1), s.2),
        call_ensures(GewekeOutcome::equals, (&o.0, &o.1), o.2),
        call_ensures(GewekeSpec::default, (), d),
    ensures
        s.2 <==> s.0.n_mc == s.1.n_mc && s.0.n_sc == s.1.n_sc && s.0.thin == s.1.thin
            && s.0.discard == s.1.discard && s.0.alpha.same(s.1.alpha),
        o.2 <==> o.0.statistic@ == o.1.statistic@ && o.0.d.same(o.1.d) && o.0.critical.same(
            o.1.critical,
        ),
        d.n_mc == 4000 && d.n_sc == 1500 && d.thin == 20 && d.discard == 100,
        d.alpha.bits == 0x3f84_7ae1_47ae_147b,
{
}

} // verus!
