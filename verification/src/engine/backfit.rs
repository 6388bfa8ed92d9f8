//! The backfit block that every ensemble shares: propose, reassign, guard empty
//! cells, score, accept or reject, redraw the cell values.
//!
//! What draws random numbers or computes with numbers happens outside: a step asks
//! for one thing at a time and decides what follows from the reply. The order in
//! which it asks is the order in which randomness is consumed.

use crate::binary64::{rank_orders_values, zero, Binary64};
use crate::engine::error::Result;
use crate::engine::tessellation::{Partition, Tessellation};
use crate::extensions::{AssignmentCache, AssignmentDelta};
use crate::message::{text, Message, Style, Text};
use crate::search::{first, lemma_first_holds, lemma_first_is, lemma_first_none};
use vstd::prelude::*;

verus! {

/// How the contributions of the tessellations compose into the running fit.
#[derive(Debug, Clone, Copy, PartialEq, Eq, Structural)]
pub enum Composition {
    /// Their sum, for mean ensembles.
    Additive,
    /// Their product, for variance ensembles.
    Multiplicative,
}

/// How observations belong to cells.
#[derive(Debug)]
pub enum Path {
    /// Each to one cell; the default.
    Diagonal,
    /// Each to all cells: one row-normalised matrix per tessellation, one row per
    /// observation.
    Dense { memberships: Vec<Vec<Binary64>> },
}

/// One ensemble: its tessellations, how observations belong to their cells, and how
/// they compose.
#[derive(Debug)]
pub struct EnsembleUnit {
    /// The tessellations.
    pub tessellations: Vec<Tessellation>,
    /// The assignment of each tessellation; meaningful on the diagonal path.
    pub assignments: Vec<AssignmentCache>,
    /// How the contributions compose.
    pub composition: Composition,
    /// How observations belong to cells.
    pub path: Path,
    /// Do the cells hold coefficients of a basis?
    pub basis: bool,
}

impl EnsembleUnit {
    /// As many assignments as tessellations, and on the dense path as many matrices.
    pub open spec fn fits(self) -> bool {
        &&& self.assignments@.len() == self.tessellations@.len()
        &&& self.path matches Path::Dense { memberships } ==> memberships@.len()
            == self.tessellations@.len()
    }

    /// An ensemble of observations that each belong to one cell.
    pub fn new(
        tessellations: Vec<Tessellation>,
        assignments: Vec<AssignmentCache>,
        composition: Composition,
    ) -> (r: Self)
        ensures
            r == (EnsembleUnit {
                tessellations,
                assignments,
                composition,
                path: Path::Diagonal,
                basis: false,
            }),
    {
        EnsembleUnit { tessellations, assignments, composition, path: Path::Diagonal, basis: false }
    }

    /// The same ensemble with cells that hold coefficients of a basis.
    pub fn with_basis(self) -> (r: Self)
        ensures
            r == (EnsembleUnit { basis: true, ..self }),
    {
        EnsembleUnit { basis: true, ..self }
    }

    /// An ensemble of observations that belong to all cells; it composes additively
    /// and holds no basis.
    pub fn new_dense(
        tessellations: Vec<Tessellation>,
        assignments: Vec<AssignmentCache>,
        memberships: Vec<Vec<Binary64>>,
    ) -> (r: Self)
        ensures
            r == (EnsembleUnit {
                tessellations,
                assignments,
                composition: Composition::Additive,
                path: Path::Dense { memberships },
                basis: false,
            }),
    {
        EnsembleUnit {
            tessellations,
            assignments,
            composition: Composition::Additive,
            path: Path::Dense { memberships },
            basis: false,
        }
    }

    /// Is this the same ensemble but for tessellation `j` and how observations belong
    /// to its cells?
    pub open spec fn same_but(self, other: Self, j: int) -> bool {
        &&& self.tessellations@.len() == other.tessellations@.len()
        &&& self.assignments@.len() == other.assignments@.len()
        &&& forall|k: int|
            0 <= k < self.tessellations@.len() && k != j ==> #[trigger] self.tessellations@[k]
                == other.tessellations@[k]
        &&& forall|k: int|
            0 <= k < self.assignments@.len() && k != j ==> #[trigger] self.assignments@[k]
                == other.assignments@[k]
        &&& self.composition == other.composition
        &&& self.basis == other.basis
        &&& match (self.path, other.path) {
            (Path::Diagonal, Path::Diagonal) => true,
            (Path::Dense { memberships: a }, Path::Dense { memberships: b }) => {
                &&& a@.len() == b@.len()
                &&& forall|k: int| 0 <= k < a@.len() && k != j ==> #[trigger] a@[k] == b@[k]
            },
            _ => false,
        }
    }
}

/// How the observations belong to the cells of a proposal.
#[derive(Debug)]
pub enum Support {
    /// Each to one cell.
    Hard(AssignmentCache),
    /// Each to all cells.
    Soft(Vec<Binary64>),
}

/// Which statistics the cell values are redrawn from: those of the accepted proposal,
/// those of the kept structure, or ones that have yet to be accumulated.
#[derive(Debug, Clone, Copy, PartialEq, Eq, Structural)]
pub enum StatsSource {
    /// Those of the accepted proposal.
    Proposed,
    /// Those of the structure that was kept after scoring.
    Current,
    /// None has been accumulated for the final structure.
    Fresh,
}

/// Where a step stands: what it asks for next.
#[derive(Debug)]
pub enum Stage {
    /// A move, or none where no move is valid.
    Selecting,
    /// A proposal of the move.
    Proposing { move_index: usize },
    /// How the observations belong to the cells of the proposal.
    Reassigning { move_index: usize, proposed: Tessellation, delta: AssignmentDelta },
    /// Whether every cell of the proposal has an observation.
    Guarding { move_index: usize, proposed: Tessellation, cache: AssignmentCache },
    /// The log acceptance ratio of the proposal.
    Scoring { move_index: usize, proposed: Tessellation, support: Support },
    /// The logarithm of a uniform draw.
    Accepting { proposed: Tessellation, support: Support, log_alpha: Binary64 },
    /// New cell values.
    Redrawing { stats: StatsSource },
    /// Nothing.
    Finished,
}

/// A reply to what a step asked for.
#[derive(Debug)]
pub enum Event {
    /// The selected move, or none where no move is valid.
    Selected(Option<usize>),
    /// The proposal of the move.
    Proposed { tessellation: Tessellation, delta: AssignmentDelta },
    /// The assignment of the proposal.
    Reassigned(Result<AssignmentCache>),
    /// The row-normalised memberships of the proposal.
    Memberships(Result<Vec<Binary64>>),
    /// Does every cell of the proposal have an observation?
    Occupied(bool),
    /// The log acceptance ratio of the proposal.
    Scored(Result<Binary64>),
    /// The logarithm of a uniform draw.
    Uniform(Binary64),
    /// The new cell values.
    Drawn(Result<Vec<Binary64>>),
}

/// One backfitting step on tessellation `j`, whose cells hold `q` values each.
#[derive(Debug)]
pub struct Backfit {
    /// The ensemble.
    pub unit: EnsembleUnit,
    /// The tessellation that the step is about.
    pub j: usize,
    /// How many values each cell holds.
    pub q: usize,
    /// Where the step stands.
    pub stage: Stage,
}

/// How far along a stage is.
pub open spec fn progress(stage: Stage) -> int {
    match stage {
        Stage::Selecting => 0,
        Stage::Proposing { .. } => 1,
        Stage::Reassigning { .. } => 2,
        Stage::Guarding { .. } => 3,
        Stage::Scoring { .. } => 4,
        Stage::Accepting { .. } => 5,
        Stage::Redrawing { .. } => 6,
        Stage::Finished => 7,
    }
}

/// Does what the stage asks for consume randomness?
pub open spec fn is_random(stage: Stage) -> bool {
    stage is Selecting || stage is Proposing || stage is Accepting || stage is Redrawing
}

/// Does every cell carry mass from some observation?
pub open spec fn occupied(memberships: Seq<Binary64>, b: nat) -> bool {
    let n = memberships.len() / b;
    forall|cell: int| 0 <= cell < b ==> #[trigger] has_mass(memberships, b, n, cell)
}

/// Does the cell carry mass from some of the first `n` observations?
pub open spec fn has_mass(memberships: Seq<Binary64>, b: nat, n: nat, cell: int) -> bool {
    exists|i: int| 0 <= i < n && zero().below(#[trigger] memberships[i * b + cell])
}

/// Does every cell carry strictly positive membership mass from some observation?
pub fn occupied_under_membership(memberships: &[Binary64], b: usize) -> (r: bool)
    requires
        b > 0,
    ensures
        r == occupied(memberships@, b as nat),
{
    let n: usize = memberships.len() / b;
    for cell in 0..b
        invariant
            b > 0,
            n == memberships@.len() / b as nat,
            forall|c: int|
                0 <= c < cell ==> #[trigger] has_mass(memberships@, b as nat, n as nat, c),
    {
        if !cell_has_mass(memberships, b, n, cell) {
            assert(!has_mass(memberships@, b as nat, n as nat, cell as int));
            return false;
        }
    }
    true
}

/// An entry of a row-major matrix lies within it.
proof fn lemma_entry(i: int, c: int, n: int, b: int, len: int)
    requires
        0 <= i < n,
        0 <= c < b,
        n * b <= len,
    ensures
        0 <= i * b,
        0 <= i * b + c < len,
        i * b <= len,
{
    assert(i * b + b <= n * b) by (nonlinear_arith)
        requires
            i + 1 <= n,
            b > 0,
    ;
    assert(0 <= i * b) by (nonlinear_arith)
        requires
            0 <= i,
            b > 0,
    ;
}

/// Whole rows do not exceed the list that they were counted from.
proof fn lemma_rows(len: int, b: int)
    requires
        b > 0,
        len >= 0,
    ensures
        (len / b) * b <= len,
{
    vstd::arithmetic::div_mod::lemma_fundamental_div_mod(len, b);
    assert(b * (len / b) == (len / b) * b) by (nonlinear_arith);
    vstd::arithmetic::div_mod::lemma_mod_bound(len, b);
}

/// Does the cell carry mass from some of the first `n` observations?
fn cell_has_mass(memberships: &[Binary64], b: usize, n: usize, cell: usize) -> (r: bool)
    requires
        b > 0,
        n == memberships@.len() / b as nat,
        cell < b,
    ensures
        r == has_mass(memberships@, b as nat, n as nat, cell as int),
{
    for i in 0..n
        invariant
            b > 0,
            n == memberships@.len() / b as nat,
            cell < b,
            forall|k: int| 0 <= k < i ==> !zero().below(#[trigger] memberships@[k * b + cell]),
    {
        proof {
            lemma_rows(memberships@.len() as int, b as int);
            lemma_entry(i as int, cell as int, n as int, b as int, memberships@.len() as int);
            assert(memberships@.len() == memberships.len());
        }
        if zero().is_below(memberships[i * b + cell]) {
            assert(zero().below(memberships@[i * b + cell]));
            return true;
        }
    }
    false
}

impl Backfit {
    /// The ensemble fits, the tessellation exists, and its cells hold a value.
    pub open spec fn fits(self) -> bool {
        &&& self.unit.fits()
        &&& self.j < self.unit.tessellations@.len()
        &&& self.q >= 1
        &&& match self.stage {
            Stage::Guarding { .. } => self.unit.path is Diagonal,
            Stage::Scoring { support, .. } => (support is Hard) == (self.unit.path is Diagonal),
            Stage::Accepting { support, .. } => (support is Hard) == (self.unit.path is Diagonal),
            _ => true,
        }
    }

    /// Is this a reply to what the step asks for? An acceptance ratio is a number, and
    /// cell values are finite and as many as the cells hold.
    pub open spec fn takes(self, event: Event) -> bool {
        match (self.stage, event) {
            (Stage::Selecting, Event::Selected(_)) => true,
            (Stage::Proposing { .. }, Event::Proposed { .. }) => true,
            (Stage::Reassigning { .. }, Event::Reassigned(_)) => self.unit.path is Diagonal,
            (Stage::Reassigning { .. }, Event::Memberships(_)) => self.unit.path is Dense,
            (Stage::Guarding { .. }, Event::Occupied(_)) => true,
            (Stage::Scoring { .. }, Event::Scored(reply)) => reply matches Ok(log_alpha)
                ==> !log_alpha.nan(),
            (Stage::Accepting { .. }, Event::Uniform(_)) => true,
            (Stage::Redrawing { .. }, Event::Drawn(reply)) => reply matches Ok(mus) ==> {
                &&& mus@.len() == self.unit.tessellations@[self.j as int]@.n_cells * self.q
                &&& forall|i: int| 0 <= i < mus@.len() ==> (#[trigger] mus@[i]).finite()
            },
            _ => false,
        }
    }

    /// A step on tessellation `j`.
    pub fn begin(unit: EnsembleUnit, j: usize, q: usize) -> (r: Self)
        requires
            unit.fits(),
            j < unit.tessellations@.len(),
            q >= 1,
        ensures
            r == (Backfit { unit, j, q, stage: Stage::Selecting }),
            r.fits(),
    {
        Backfit { unit, j, q, stage: Stage::Selecting }
    }

    /// Decide what follows from a reply. An error that comes in goes out, and ends the
    /// step.
    pub fn advance(self, event: Event) -> (r: (Self, Result<()>))
        requires
            self.fits(),
            self.takes(event),
        ensures
            r.0.fits(),
            follows(self, event, r.0, r.1),
            r.0.unit.same_but(self.unit, self.j as int),
            progress(self.stage) < progress(r.0.stage),
    {
        let Backfit { unit, j, q, stage } = self;
        match (stage, event) {
            (Stage::Selecting, Event::Selected(None)) => (
                Backfit { unit, j, q, stage: Stage::Redrawing { stats: StatsSource::Fresh } },
                Ok(()),
            ),
            (Stage::Selecting, Event::Selected(Some(move_index))) => (
                Backfit { unit, j, q, stage: Stage::Proposing { move_index } },
                Ok(()),
            ),
            (Stage::Proposing { move_index }, Event::Proposed { tessellation, delta }) => (
                Backfit {
                    unit,
                    j,
                    q,
                    stage: Stage::Reassigning { move_index, proposed: tessellation, delta },
                },
                Ok(()),
            ),
            (
                Stage::Reassigning { move_index, proposed, delta: _ },
                Event::Reassigned(reply),
            ) => match reply {
                Err(e) => (Backfit { unit, j, q, stage: Stage::Finished }, Err(e)),
                Ok(cache) => (
                    Backfit { unit, j, q, stage: Stage::Guarding { move_index, proposed, cache } },
                    Ok(()),
                ),
            },
            (
                Stage::Reassigning { move_index, proposed, delta: _ },
                Event::Memberships(reply),
            ) => match reply {
                Err(e) => (Backfit { unit, j, q, stage: Stage::Finished }, Err(e)),
                Ok(rows) => {
                    let b: usize = proposed.n_cells();
                    let stage = if occupied_under_membership(rows.as_slice(), b) {
                        Stage::Scoring { move_index, proposed, support: Support::Soft(rows) }
                    } else {
                        Stage::Redrawing { stats: StatsSource::Fresh }
                    };
                    (Backfit { unit, j, q, stage }, Ok(()))
                },
            },
            (Stage::Guarding { move_index, proposed, cache }, Event::Occupied(supported)) => {
                let stage = if supported {
                    Stage::Scoring { move_index, proposed, support: Support::Hard(cache) }
                } else {
                    Stage::Redrawing { stats: StatsSource::Fresh }
                };
                (Backfit { unit, j, q, stage }, Ok(()))
            },
            (
                Stage::Scoring { move_index: _, proposed, support },
                Event::Scored(reply),
            ) => match reply {
                Err(e) => (Backfit { unit, j, q, stage: Stage::Finished }, Err(e)),
                Ok(log_alpha) => (
                    Backfit { unit, j, q, stage: Stage::Accepting { proposed, support, log_alpha } },
                    Ok(()),
                ),
            },
            (Stage::Accepting { proposed, support, log_alpha }, Event::Uniform(ln_u)) => {
                if ln_u.is_below(log_alpha) {
                    let (unit, stats) = accept(unit, j, proposed, support);
                    (Backfit { unit, j, q, stage: Stage::Redrawing { stats } }, Ok(()))
                } else {
                    let stats = match support {
                        Support::Hard(_) => StatsSource::Current,
                        Support::Soft(_) => StatsSource::Fresh,
                    };
                    (Backfit { unit, j, q, stage: Stage::Redrawing { stats } }, Ok(()))
                }
            },
            (Stage::Redrawing { stats: _ }, Event::Drawn(reply)) => match reply {
                Err(e) => (Backfit { unit, j, q, stage: Stage::Finished }, Err(e)),
                Ok(mus) => {
                    let unit = redraw(unit, j, q, mus);
                    (Backfit { unit, j, q, stage: Stage::Finished }, Ok(()))
                },
            },
            _ => {
                assert(false);
                (Backfit { unit, j, q, stage: Stage::Finished }, Ok(()))
            },
        }
    }
}

/// The ensemble with the accepted proposal in place of tessellation `j`.
pub open spec fn accepted(
    before: EnsembleUnit,
    j: int,
    proposed: Tessellation,
    support: Support,
    after: EnsembleUnit,
) -> bool {
    &&& after.tessellations@ == before.tessellations@.update(j, proposed)
    &&& after.composition == before.composition
    &&& after.basis == before.basis
    &&& match (support, before.path, after.path) {
        (Support::Hard(cache), Path::Diagonal, Path::Diagonal) => after.assignments@
            == before.assignments@.update(j, cache),
        (
            Support::Soft(rows),
            Path::Dense { memberships: a },
            Path::Dense { memberships: b },
        ) => after.assignments == before.assignments && b@ == a@.update(j, rows),
        _ => false,
    }
}

/// The ensemble with new values in the cells of tessellation `j`.
pub open spec fn redrawn(
    before: EnsembleUnit,
    j: int,
    mus: Seq<Binary64>,
    after: EnsembleUnit,
) -> bool {
    &&& after.tessellations@.len() == before.tessellations@.len()
    &&& after.tessellations@[j]@ == (Partition { mus, ..before.tessellations@[j]@ })
    &&& forall|k: int|
        0 <= k < before.tessellations@.len() && k != j ==> #[trigger] after.tessellations@[k]
            == before.tessellations@[k]
    &&& after.assignments == before.assignments
    &&& after.composition == before.composition
    &&& after.path == before.path
    &&& after.basis == before.basis
}

/// Which statistics the values of an accepted or rejected proposal are redrawn from:
/// on the dense path they are always accumulated anew.
pub open spec fn stats_after(support: Support, is_accepted: bool) -> StatsSource {
    match support {
        Support::Soft(_) => StatsSource::Fresh,
        Support::Hard(_) => if is_accepted {
            StatsSource::Proposed
        } else {
            StatsSource::Current
        },
    }
}

/// What follows from a reply.
pub open spec fn follows(before: Backfit, event: Event, after: Backfit, r: Result<()>) -> bool {
    &&& after.j == before.j
    &&& after.q == before.q
    &&& match (before.stage, event) {
        (Stage::Selecting, Event::Selected(choice)) => {
            &&& r is Ok
            &&& after.unit == before.unit
            &&& after.stage == (match choice {
                None => Stage::Redrawing { stats: StatsSource::Fresh },
                Some(move_index) => Stage::Proposing { move_index },
            })
        },
        (Stage::Proposing { move_index }, Event::Proposed { tessellation, delta }) => {
            &&& r is Ok
            &&& after.unit == before.unit
            &&& after.stage == (Stage::Reassigning { move_index, proposed: tessellation, delta })
        },
        (Stage::Reassigning { move_index, proposed, .. }, Event::Reassigned(reply)) => {
            &&& after.unit == before.unit
            &&& match reply {
                Err(e) => r == Err::<(), _>(e) && after.stage == Stage::Finished,
                Ok(cache) => r is Ok && after.stage == (Stage::Guarding {
                    move_index,
                    proposed,
                    cache,
                }),
            }
        },
        (Stage::Reassigning { move_index, proposed, .. }, Event::Memberships(reply)) => {
            &&& after.unit == before.unit
            &&& match reply {
                Err(e) => r == Err::<(), _>(e) && after.stage == Stage::Finished,
                Ok(rows) => r is Ok && after.stage == if occupied(
                    rows@,
                    proposed@.n_cells as nat,
                ) {
                    Stage::Scoring { move_index, proposed, support: Support::Soft(rows) }
                } else {
                    Stage::Redrawing { stats: StatsSource::Fresh }
                },
            }
        },
        (Stage::Guarding { move_index, proposed, cache }, Event::Occupied(supported)) => {
            &&& r is Ok
            &&& after.unit == before.unit
            &&& after.stage == if supported {
                Stage::Scoring { move_index, proposed, support: Support::Hard(cache) }
            } else {
                Stage::Redrawing { stats: StatsSource::Fresh }
            }
        },
        (Stage::Scoring { proposed, support, .. }, Event::Scored(reply)) => {
            &&& after.unit == before.unit
            &&& match reply {
                Err(e) => r == Err::<(), _>(e) && after.stage == Stage::Finished,
                Ok(log_alpha) => r is Ok && after.stage == (Stage::Accepting {
                    proposed,
                    support,
                    log_alpha,
                }),
            }
        },
        (Stage::Accepting { proposed, support, log_alpha }, Event::Uniform(ln_u)) => {
            &&& r is Ok
            &&& after.stage == (Stage::Redrawing {
                stats: stats_after(support, ln_u.below(log_alpha)),
            })
            &&& if ln_u.below(log_alpha) {
                accepted(before.unit, before.j as int, proposed, support, after.unit)
            } else {
                after.unit == before.unit
            }
        },
        (Stage::Redrawing { .. }, Event::Drawn(reply)) => {
            &&& after.stage == Stage::Finished
            &&& match reply {
                Err(e) => r == Err::<(), _>(e) && after.unit == before.unit,
                Ok(mus) => r is Ok && redrawn(before.unit, before.j as int, mus@, after.unit),
            }
        },
        _ => false,
    }
}

/// Put an accepted proposal in place of tessellation `j`.
fn accept(unit: EnsembleUnit, j: usize, proposed: Tessellation, support: Support) -> (r: (
    EnsembleUnit,
    StatsSource,
))
    requires
        unit.fits(),
        j < unit.tessellations@.len(),
        (support is Hard) == (unit.path is Diagonal),
    ensures
        accepted(unit, j as int, proposed, support, r.0),
        r.0.fits(),
        r.0.same_but(unit, j as int),
        r.1 == stats_after(support, true),
{
    let EnsembleUnit { tessellations, assignments, composition, path, basis } = unit;
    let mut tessellations = tessellations;
    tessellations.set(j, proposed);
    match (support, path) {
        (Support::Hard(cache), Path::Diagonal) => {
            let mut assignments = assignments;
            assignments.set(j, cache);
            (
                EnsembleUnit { tessellations, assignments, composition, path: Path::Diagonal, basis },
                StatsSource::Proposed,
            )
        },
        (Support::Soft(rows), Path::Dense { memberships }) => {
            let mut memberships = memberships;
            memberships.set(j, rows);
            (
                EnsembleUnit {
                    tessellations,
                    assignments,
                    composition,
                    path: Path::Dense { memberships },
                    basis,
                },
                StatsSource::Fresh,
            )
        },
        (_, path) => {
            assert(false);
            (
                EnsembleUnit { tessellations, assignments, composition, path, basis },
                StatsSource::Fresh,
            )
        },
    }
}

/// Put new values in the cells of tessellation `j`.
fn redraw(unit: EnsembleUnit, j: usize, q: usize, mus: Vec<Binary64>) -> (r: EnsembleUnit)
    requires
        unit.fits(),
        j < unit.tessellations@.len(),
        q >= 1,
        mus@.len() == unit.tessellations@[j as int]@.n_cells * q,
    ensures
        redrawn(unit, j as int, mus@, r),
        r.fits(),
        r.same_but(unit, j as int),
{
    let EnsembleUnit { tessellations, assignments, composition, path, basis } = unit;
    let ghost before = tessellations@;
    let mut tessellations = tessellations;
    let old = tessellations.remove(j);
    let b: usize = old.n_cells();
    proof {
        vstd::arithmetic::div_mod::lemma_mod_multiples_basic(q as int, b as int);
        assert(q * b == b * q) by (nonlinear_arith);
        assert(b * q >= b) by (nonlinear_arith)
            requires
                q >= 1,
                b >= 0,
        ;
    }
    let next = old.with_mus(mus);
    tessellations.insert(j, next);
    assert forall|k: int| 0 <= k < before.len() && k != j implies #[trigger] tessellations@[k]
        == before[k] by {}
    EnsembleUnit { tessellations, assignments, composition, path, basis }
}

/// A step taken from its beginning, reply by reply.
pub open spec fn is_run(states: Seq<Backfit>, events: Seq<Event>, replies: Seq<Result<()>>) -> bool {
    &&& states.len() == events.len() + 1
    &&& replies.len() == events.len()
    &&& states[0].stage is Selecting
    &&& forall|i: int|
        #![trigger events[i]]
        0 <= i < events.len() ==> {
            &&& states[i].fits()
            &&& states[i].takes(events[i])
            &&& follows(states[i], events[i], states[i + 1], replies[i])
        }
}

/// Randomness is consumed in a fixed order: the selection of a move, its proposal, the
/// acceptance, the redraw of the cell values, each once at most.
pub proof fn randomness_is_consumed_in_order(
    states: Seq<Backfit>,
    events: Seq<Event>,
    replies: Seq<Result<()>>,
    i: int,
    j: int,
)
    requires
        is_run(states, events, replies),
        0 <= i < j < states.len(),
    ensures
        progress(states[i].stage) < progress(states[j].stage),
        is_random(states[j].stage) ==> match states[j].stage {
            Stage::Proposing { .. } => states[i].stage is Selecting,
            Stage::Accepting { .. } => !(states[i].stage is Redrawing),
            Stage::Redrawing { .. } => !(states[i].stage is Finished),
            _ => false,
        },
    decreases j - i,
{
    assert(follows(states[j - 1], events[j - 1], states[j], replies[j - 1]));
    if i < j - 1 {
        randomness_is_consumed_in_order(states, events, replies, i, j - 1);
    }
}

/// Was the proposal found to have an observation in every cell?
pub open spec fn found_support(state: Backfit, event: Event) -> bool {
    match (state.stage, event) {
        (Stage::Guarding { .. }, Event::Occupied(supported)) => supported,
        (Stage::Reassigning { proposed, .. }, Event::Memberships(Ok(rows))) => occupied(
            rows@,
            proposed@.n_cells as nat,
        ),
        _ => false,
    }
}

/// A uniform draw is asked for only where every cell of the proposal was found to have
/// an observation: a proposal with an empty cell is rejected without one.
pub proof fn empty_cells_consume_no_acceptance_draw(
    states: Seq<Backfit>,
    events: Seq<Event>,
    replies: Seq<Result<()>>,
    i: int,
)
    requires
        is_run(states, events, replies),
        0 <= i < states.len(),
        states[i].stage is Accepting,
    ensures
        exists|g: int| 0 <= g < i && #[trigger] found_support(states[g], events[g]),
{
    assert(follows(states[i - 1], events[i - 1], states[i], replies[i - 1]));
    assert(states[i - 1].stage is Scoring);
    assert(follows(states[i - 2], events[i - 2], states[i - 1], replies[i - 2]));
    assert(found_support(states[i - 2], events[i - 2]));
}

/// Observations were assigned to the cells of the proposal at reply `i`, as the support
/// says, and at reply `g` every cell was found to have one.
pub open spec fn was_assigned(
    states: Seq<Backfit>,
    events: Seq<Event>,
    i: int,
    g: int,
    proposed: Tessellation,
    support: Support,
) -> bool {
    &&& 0 <= i <= g < events.len()
    &&& states[i].stage is Reassigning
    &&& states[i].stage->Reassigning_proposed == proposed
    &&& match (support, events[i]) {
        (Support::Hard(cache), Event::Reassigned(Ok(reply))) => cache == reply,
        (Support::Soft(rows), Event::Memberships(Ok(reply))) => rows == reply,
        _ => false,
    }
    &&& found_support(states[g], events[g])
}

/// Tessellation `j` has the centres and dimensions of the given one.
pub open spec fn has_structure(unit: EnsembleUnit, j: int, t: Tessellation) -> bool {
    &&& unit.tessellations@[j]@.centres == t@.centres
    &&& unit.tessellations@[j]@.dims == t@.dims
    &&& unit.tessellations@[j]@.n_cells == t@.n_cells
}

/// Observations belong to the cells of tessellation `j` as the support says.
pub open spec fn has_support(unit: EnsembleUnit, j: int, support: Support) -> bool {
    match (support, unit.path) {
        (Support::Hard(cache), Path::Diagonal) => unit.assignments@[j] == cache,
        (Support::Soft(rows), Path::Dense { memberships }) => memberships@[j] == rows,
        _ => false,
    }
}

/// Observations belong to the cells of tessellation `j` as they do in the other ensemble.
pub open spec fn same_support(unit: EnsembleUnit, other: EnsembleUnit, j: int) -> bool {
    &&& unit.assignments@[j] == other.assignments@[j]
    &&& match (unit.path, other.path) {
        (Path::Diagonal, Path::Diagonal) => true,
        (Path::Dense { memberships: a }, Path::Dense { memberships: b }) => a@[j] == b@[j],
        _ => false,
    }
}

/// Tessellation `j` still has its structure and its assignment, or it has those of a
/// proposal whose cells were all found to have an observation.
pub open spec fn keeps_in_step(states: Seq<Backfit>, events: Seq<Event>, unit: EnsembleUnit) -> bool {
    let start = states[0].unit;
    let j = states[0].j as int;
    ||| has_structure(unit, j, start.tessellations@[j]) && same_support(unit, start, j)
    ||| exists|i: int, g: int, proposed: Tessellation, support: Support|
        #[trigger] was_assigned(states, events, i, g, proposed, support) && has_structure(
            unit,
            j,
            proposed,
        ) && has_support(unit, j, support)
}

/// Where a step stands after `n` replies, and what brought it there.
spec fn is_traced(states: Seq<Backfit>, events: Seq<Event>, n: int) -> bool {
    let state = states[n];
    let start = states[0];
    &&& state.j == start.j
    &&& state.q == start.q
    &&& state.unit.same_but(start.unit, start.j as int)
    &&& match state.stage {
        Stage::Selecting => state.unit == start.unit,
        Stage::Proposing { .. } => state.unit == start.unit,
        Stage::Reassigning { .. } => state.unit == start.unit,
        Stage::Guarding { proposed, cache, .. } => {
            &&& state.unit == start.unit
            &&& n >= 1
            &&& states[n - 1].stage is Reassigning
            &&& states[n - 1].stage->Reassigning_proposed == proposed
            &&& events[n - 1] == Event::Reassigned(Ok(cache))
        },
        Stage::Scoring { proposed, support, .. } => {
            &&& state.unit == start.unit
            &&& exists|i: int, g: int| #[trigger]
                was_assigned(states, events, i, g, proposed, support)
        },
        Stage::Accepting { proposed, support, .. } => {
            &&& state.unit == start.unit
            &&& exists|i: int, g: int| #[trigger]
                was_assigned(states, events, i, g, proposed, support)
        },
        _ => keeps_in_step(states, events, state.unit),
    }
}

/// A step can be traced back from wherever it stands.
proof fn lemma_trace(
    states: Seq<Backfit>,
    events: Seq<Event>,
    replies: Seq<Result<()>>,
    n: int,
)
    requires
        is_run(states, events, replies),
        states[0].fits(),
        0 <= n < states.len(),
    ensures
        is_traced(states, events, n),
    decreases n,
{
    if n > 0 {
        lemma_trace(states, events, replies, n - 1);
        let (before, event, after) = (states[n - 1], events[n - 1], states[n]);
        let j = states[0].j as int;
        assert(follows(before, event, after, replies[n - 1]));
        match (before.stage, event) {
            (Stage::Reassigning { .. }, Event::Memberships(Ok(_))) => {
                if after.stage is Scoring {
                    assert(was_assigned(
                        states,
                        events,
                        n - 1,
                        n - 1,
                        after.stage->Scoring_proposed,
                        after.stage->Scoring_support,
                    ));
                }
            },
            (Stage::Guarding { .. }, Event::Occupied(_)) => {
                if after.stage is Scoring {
                    assert(was_assigned(
                        states,
                        events,
                        n - 2,
                        n - 1,
                        after.stage->Scoring_proposed,
                        after.stage->Scoring_support,
                    ));
                }
            },
            (Stage::Scoring { proposed, support, .. }, Event::Scored(Ok(_))) => {
                let (i, g) = choose|i: int, g: int| #[trigger]
                    was_assigned(states, events, i, g, proposed, support);
                assert(was_assigned(
                    states,
                    events,
                    i,
                    g,
                    after.stage->Accepting_proposed,
                    after.stage->Accepting_support,
                ));
            },
            (Stage::Accepting { proposed, support, log_alpha }, Event::Uniform(ln_u)) => {
                let (i, g) = choose|i: int, g: int| #[trigger]
                    was_assigned(states, events, i, g, proposed, support);
                assert(was_assigned(states, events, i, g, proposed, support));
                if ln_u.below(log_alpha) {
                    assert(has_structure(after.unit, j, proposed));
                    assert(has_support(after.unit, j, support));
                }
            },
            _ => {},
        }
    }
}

/// A step is about one tessellation: wherever it stands, every other tessellation, its
/// assignment and its memberships are as they were when the step began.
pub proof fn step_leaves_the_others_alone(
    states: Seq<Backfit>,
    events: Seq<Event>,
    replies: Seq<Result<()>>,
    n: int,
)
    requires
        is_run(states, events, replies),
        states[0].fits(),
        0 <= n < states.len(),
    ensures
        states[n].j == states[0].j,
        states[n].q == states[0].q,
        states[n].unit.same_but(states[0].unit, states[0].j as int),
{
    lemma_trace(states, events, replies, n);
}

/// Structure and assignment stay in step: wherever a step stands, its tessellation has
/// the structure and the assignment that it had, or those of the proposal, and then the
/// assignment is the one that the assigner gave for that proposal, and every cell of it
/// was found to have an observation.
pub proof fn assignment_stays_in_step(
    states: Seq<Backfit>,
    events: Seq<Event>,
    replies: Seq<Result<()>>,
    n: int,
)
    requires
        is_run(states, events, replies),
        states[0].fits(),
        0 <= n < states.len(),
    ensures
        keeps_in_step(states, events, states[n].unit),
{
    lemma_trace(states, events, replies, n);
}

/// A step that ends without an error leaves finite values in the cells of its
/// tessellation, as many as each cell holds.
pub proof fn finished_step_leaves_finite_values(
    states: Seq<Backfit>,
    events: Seq<Event>,
    replies: Seq<Result<()>>,
)
    requires
        is_run(states, events, replies),
        states[0].fits(),
        states.last().stage is Finished,
        replies.last() is Ok,
    ensures
        ({
            let t = states.last().unit.tessellations@[states[0].j as int]@;
            &&& t.mus.len() == t.n_cells * states[0].q
            &&& forall|i: int| 0 <= i < t.mus.len() ==> (#[trigger] t.mus[i]).finite()
        }),
{
    let n = events.len() as int;
    assert(n > 0);
    lemma_trace(states, events, replies, n - 1);
    assert(follows(states[n - 1], events[n - 1], states[n], replies[n - 1]));
    assert(states[n - 1].takes(events[n - 1]));
}

/// How observations belong to the cells of tessellation `k`.
pub open spec fn support_of(unit: EnsembleUnit, k: int) -> Support {
    match unit.path {
        Path::Diagonal => Support::Hard(unit.assignments@[k]),
        Path::Dense { memberships } => Support::Soft(memberships@[k]),
    }
}

/// What tessellation `k` contributes to the fit of a row; `contribution` says what a
/// tessellation contributes, given how observations belong to its cells.
pub open spec fn contributed(
    unit: EnsembleUnit,
    contribution: spec_fn(Tessellation, Support) -> int,
    k: int,
) -> int {
    contribution(unit.tessellations@[k], support_of(unit, k))
}

/// The fit of a row under additive composition, in exact arithmetic: the sum of what the
/// first `k` tessellations contribute.
pub open spec fn exact_fit(
    unit: EnsembleUnit,
    contribution: spec_fn(Tessellation, Support) -> int,
    k: nat,
) -> int
    decreases k,
{
    if k == 0 {
        0
    } else {
        exact_fit(unit, contribution, (k - 1) as nat) + contributed(unit, contribution, k - 1)
    }
}

/// The exact value of the cell that a row is assigned to, where observations belong to
/// one cell each.
pub open spec fn assigned_value(row: int) -> spec_fn(Tessellation, Support) -> int {
    |t: Tessellation, support: Support|
        match support {
            Support::Hard(cache) => t@.mus[cache.assignment@[row] as int].value(),
            Support::Soft(_) => 0,
        }
}

/// Ensembles that differ in tessellation `j` alone have fits that differ in its
/// contribution alone.
proof fn lemma_fit_but_one(
    a: EnsembleUnit,
    b: EnsembleUnit,
    j: int,
    contribution: spec_fn(Tessellation, Support) -> int,
    k: nat,
)
    requires
        a.same_but(b, j),
        a.fits(),
        b.fits(),
        k <= a.tessellations@.len(),
    ensures
        exact_fit(a, contribution, k) - exact_fit(b, contribution, k) == if 0 <= j < k {
            contributed(a, contribution, j) - contributed(b, contribution, j)
        } else {
            0
        },
    decreases k,
{
    if k > 0 {
        lemma_fit_but_one(a, b, j, contribution, (k - 1) as nat);
        if k - 1 != j {
            assert(a.tessellations@[k - 1] == b.tessellations@[k - 1]);
            assert(a.assignments@[k - 1] == b.assignments@[k - 1]);
            assert(support_of(a, k - 1) == support_of(b, k - 1));
        }
    }
}

/// The fit changes by one contribution alone: whatever a tessellation contributes to a
/// row, in exact arithmetic the fit of the row less the contribution of the step's own
/// tessellation is the same wherever the step stands. With [`assigned_value`] the
/// contribution is the value of the cell that the row is assigned to.
pub proof fn fit_changes_by_one_contribution(
    states: Seq<Backfit>,
    events: Seq<Event>,
    replies: Seq<Result<()>>,
    n: int,
    contribution: spec_fn(Tessellation, Support) -> int,
)
    requires
        is_run(states, events, replies),
        states[0].fits(),
        states[n].fits(),
        0 <= n < states.len(),
    ensures
        ({
            let (start, unit) = (states[0].unit, states[n].unit);
            let j = states[0].j as int;
            exact_fit(unit, contribution, unit.tessellations@.len()) - contributed(
                unit,
                contribution,
                j,
            ) == exact_fit(start, contribution, start.tessellations@.len()) - contributed(
                start,
                contribution,
                j,
            )
        }),
{
    lemma_trace(states, events, replies, n);
    let (start, unit) = (states[0].unit, states[n].unit);
    lemma_fit_but_one(
        unit,
        start,
        states[0].j as int,
        contribution,
        unit.tessellations@.len(),
    );
}

/// The structure changes in one place only: where a uniform draw falls below the
/// acceptance ratio.
pub proof fn structure_changes_on_acceptance_only(
    before: Backfit,
    event: Event,
    after: Backfit,
    r: Result<()>,
)
    requires
        before.fits(),
        before.takes(event),
        follows(before, event, after, r),
        !(before.stage is Accepting && event is Uniform && (event->Uniform_0).below(
            before.stage->Accepting_log_alpha,
        )),
    ensures
        after.unit.tessellations@.len() == before.unit.tessellations@.len(),
        forall|k: int|
            0 <= k < before.unit.tessellations@.len() ==> {
                &&& (#[trigger] after.unit.tessellations@[k])@.centres
                    == before.unit.tessellations@[k]@.centres
                &&& after.unit.tessellations@[k]@.dims == before.unit.tessellations@[k]@.dims
            },
        after.unit.assignments == before.unit.assignments,
        after.unit.path == before.unit.path,
{
}

/// The Metropolis-Hastings rule: a proposal is taken exactly where the draw lies below
/// the acceptance ratio, whatever the sign of the ratio. Where it does, the ensemble
/// holds the proposed tessellation and the proposal's assignment or memberships in the
/// place of the old ones, and hard assignments go on with the statistics of the
/// proposal; where it does not, the ensemble is untouched.
pub proof fn draw_below_the_ratio_takes_the_proposal(
    before: Backfit,
    proposed: Tessellation,
    support: Support,
    log_alpha: Binary64,
    ln_u: Binary64,
    after: Backfit,
    r: Result<()>,
)
    requires
        before.fits(),
        before.stage == (Stage::Accepting { proposed, support, log_alpha }),
        call_ensures(Backfit::advance, (before, Event::Uniform(ln_u)), (after, r)),
    ensures
        r is Ok,
        after.j == before.j,
        after.stage is Redrawing,
        ln_u.below(log_alpha) ==> {
            let j = before.j as int;
            &&& after.unit.tessellations@[j] == proposed
            &&& support matches Support::Hard(cache) ==> {
                &&& after.unit.assignments@[j] == cache
                &&& after.stage->Redrawing_stats == StatsSource::Proposed
            }
            &&& support matches Support::Soft(rows) ==> {
                &&& after.unit.path matches Path::Dense { memberships }
                &&& memberships@[j] == rows
                &&& after.unit.assignments == before.unit.assignments
                &&& after.stage->Redrawing_stats == StatsSource::Fresh
            }
        },
        !ln_u.below(log_alpha) ==> {
            &&& after.unit == before.unit
            &&& support is Hard ==> after.stage->Redrawing_stats == StatsSource::Current
            &&& support is Soft ==> after.stage->Redrawing_stats == StatsSource::Fresh
        },
        after.unit.tessellations@[before.j as int] != before.unit.tessellations@[before.j as int]
            ==> ln_u.below(log_alpha),
        ln_u.finite() && log_alpha.finite() && ln_u.value() < log_alpha.value()
            ==> after.unit.tessellations@[before.j as int] == proposed,
        ln_u.finite() && log_alpha.finite() && log_alpha.value() <= ln_u.value() ==> after.unit
            == before.unit,
{
    if ln_u.finite() && log_alpha.finite() {
        rank_orders_values(ln_u, log_alpha);
    }
}

/// Of two draws for the same proposal, the lower one is accepted wherever the higher
/// one is; and of two ratios, the higher one is accepted wherever the lower one is.
pub proof fn acceptance_is_monotone(
    before: Backfit,
    other: Backfit,
    ln_u: Binary64,
    ln_v: Binary64,
    after: (Backfit, Result<()>),
    after_other: (Backfit, Result<()>),
)
    requires
        before.fits(),
        other.fits(),
        before.stage is Accepting,
        other.stage is Accepting,
        call_ensures(Backfit::advance, (before, Event::Uniform(ln_u)), after),
        call_ensures(Backfit::advance, (other, Event::Uniform(ln_v)), after_other),
        ln_v.at_most(ln_u),
        before.stage->Accepting_log_alpha.at_most(other.stage->Accepting_log_alpha),
        after.0.unit.tessellations@[before.j as int]
            != before.unit.tessellations@[before.j as int],
    ensures
        after_other.0.unit.tessellations@[other.j as int] == other.stage->Accepting_proposed,
{
}

/// A move goes on to its proposal, and where no move is valid the values are redrawn
/// for the structure as it is.
pub proof fn selected_move_is_proposed(
    before: Backfit,
    choice: Option<usize>,
    after: Backfit,
    r: Result<()>,
)
    requires
        before.fits(),
        before.stage is Selecting,
        call_ensures(Backfit::advance, (before, Event::Selected(choice)), (after, r)),
    ensures
        r is Ok,
        after.unit == before.unit,
        choice is Some <==> after.stage is Proposing,
        choice is Some ==> after.stage->Proposing_move_index == choice->0,
        choice is None ==> after.stage is Redrawing && after.stage->Redrawing_stats
            == StatsSource::Fresh,
{
}

/// A proposal is carried unchanged from where it was made to where it is decided on,
/// with its move and with what was found out about it on the way.
pub proof fn proposal_is_carried_to_its_decision(
    before: Backfit,
    event: Event,
    after: Backfit,
    r: Result<()>,
)
    requires
        before.fits(),
        before.takes(event),
        call_ensures(Backfit::advance, (before, event), (after, r)),
    ensures
        after.stage is Reassigning ==> {
            &&& event is Proposed
            &&& after.stage->Reassigning_proposed == event->tessellation
            &&& after.stage->Reassigning_delta == event->delta
            &&& after.stage->Reassigning_move_index == before.stage->Proposing_move_index
        },
        after.stage is Guarding ==> {
            &&& before.stage is Reassigning
            &&& after.stage->Guarding_proposed == before.stage->Reassigning_proposed
            &&& after.stage->Guarding_move_index == before.stage->Reassigning_move_index
            &&& event == Event::Reassigned(Ok(after.stage->Guarding_cache))
        },
        after.stage is Scoring && before.stage is Guarding ==> {
            &&& after.stage->Scoring_proposed == before.stage->Guarding_proposed
            &&& after.stage->Scoring_move_index == before.stage->Guarding_move_index
            &&& after.stage->Scoring_support == Support::Hard(before.stage->Guarding_cache)
        },
        after.stage is Scoring && before.stage is Reassigning ==> {
            &&& after.stage->Scoring_proposed == before.stage->Reassigning_proposed
            &&& after.stage->Scoring_move_index == before.stage->Reassigning_move_index
            &&& after.stage->Scoring_support is Soft
            &&& event == Event::Memberships(Ok(after.stage->Scoring_support->Soft_0))
        },
        after.stage is Accepting ==> {
            &&& before.stage is Scoring
            &&& after.stage->Accepting_proposed == before.stage->Scoring_proposed
            &&& after.stage->Accepting_support == before.stage->Scoring_support
            &&& event == Event::Scored(Ok(after.stage->Accepting_log_alpha))
        },
        before.stage is Proposing ==> after.stage is Reassigning,
        before.stage is Guarding ==> (after.stage is Scoring <==> event->Occupied_0),
        before.stage is Guarding && !(event->Occupied_0) ==> after.stage is Redrawing
            && after.stage->Redrawing_stats == StatsSource::Fresh,
        !(before.stage is Accepting) && !(before.stage is Redrawing) ==> after.unit == before.unit,
{
}

/// On the dense path a proposal is scored exactly where every cell has an observation
/// whose membership in it is above zero; a single cell without one has it rejected,
/// and the values are redrawn from statistics that are accumulated anew.
pub proof fn massless_cell_rejects_a_dense_proposal(
    before: Backfit,
    rows: Vec<Binary64>,
    cell: int,
    after: Backfit,
    r: Result<()>,
)
    requires
        before.fits(),
        before.stage is Reassigning,
        before.unit.path is Dense,
        0 <= cell < before.stage->Reassigning_proposed@.n_cells,
        call_ensures(Backfit::advance, (before, Event::Memberships(Ok(rows))), (after, r)),
    ensures
        r is Ok,
        after.unit == before.unit,
        after.stage is Scoring || after.stage is Redrawing,
        ({
            let b = before.stage->Reassigning_proposed@.n_cells as int;
            (forall|i: int|
                0 <= i < rows@.len() as int / b ==> !zero().below(#[trigger] rows@[i * b + cell]))
                ==> after.stage is Redrawing && after.stage->Redrawing_stats == StatsSource::Fresh
        }),
        after.stage is Redrawing ==> {
            let b = before.stage->Reassigning_proposed@.n_cells as int;
            exists|empty: int|
                0 <= empty < b && #[trigger] carries_nothing(rows@, b, empty)
        },
{
    let b = before.stage->Reassigning_proposed@.n_cells as nat;
    let n = rows@.len() / b;
    if forall|i: int| 0 <= i < n ==> !zero().below(#[trigger] rows@[i * b + cell]) {
        assert(!has_mass(rows@, b, n, cell));
    }
    if after.stage is Redrawing {
        assert(!occupied(rows@, b));
        let empty = choose|c: int| 0 <= c < b && !#[trigger] has_mass(rows@, b, n, c);
        assert(carries_nothing(rows@, b as int, empty));
    }
}

/// No observation has a membership above zero in the cell.
pub open spec fn carries_nothing(rows: Seq<Binary64>, b: int, cell: int) -> bool {
    forall|i: int|
        0 <= i < rows.len() as int / b ==> !zero().below(#[trigger] rows[i * b + cell])
}

/// An error that comes in goes out as it is, ends the step, and leaves the ensemble
/// untouched; no other reply is answered with one.
pub proof fn errors_pass_through(before: Backfit, event: Event, after: Backfit, r: Result<()>)
    requires
        before.fits(),
        before.takes(event),
        call_ensures(Backfit::advance, (before, event), (after, r)),
    ensures
        event matches Event::Reassigned(Err(e)) ==> r == Err::<(), _>(e),
        event matches Event::Memberships(Err(e)) ==> r == Err::<(), _>(e),
        event matches Event::Scored(Err(e)) ==> r == Err::<(), _>(e),
        event matches Event::Drawn(Err(e)) ==> r == Err::<(), _>(e),
        r is Err ==> {
            &&& after.stage is Finished
            &&& after.unit == before.unit
            &&& ({
                ||| event matches Event::Reassigned(Err(_))
                ||| event matches Event::Memberships(Err(_))
                ||| event matches Event::Scored(Err(_))
                ||| event matches Event::Drawn(Err(_))
            })
        },
        after.stage is Finished && r is Ok ==> before.stage is Redrawing,
{
}

/// A redraw puts the drawn values into the cells of the step's tessellation, value for
/// value, and changes nothing else: neither its centres and dimensions nor how
/// observations belong to its cells nor any other tessellation.
pub proof fn redraw_replaces_the_values_alone(
    before: Backfit,
    mus: Vec<Binary64>,
    after: Backfit,
    r: Result<()>,
)
    requires
        before.fits(),
        before.stage is Redrawing,
        before.takes(Event::Drawn(Ok(mus))),
        call_ensures(Backfit::advance, (before, Event::Drawn(Ok(mus))), (after, r)),
    ensures
        r is Ok,
        after.stage is Finished,
        ({
            let j = before.j as int;
            let (old_t, new_t) = (before.unit.tessellations@[j]@, after.unit.tessellations@[j]@);
            &&& new_t.mus == mus@
            &&& new_t.centres == old_t.centres
            &&& new_t.dims == old_t.dims
            &&& new_t.n_cells == old_t.n_cells
        }),
        after.unit.tessellations@.len() == before.unit.tessellations@.len(),
        forall|k: int|
            0 <= k < before.unit.tessellations@.len() && k != before.j
                ==> #[trigger] after.unit.tessellations@[k] == before.unit.tessellations@[k],
        after.unit.assignments == before.unit.assignments,
        after.unit.path == before.unit.path,
        after.unit.composition == before.unit.composition,
        after.unit.basis == before.unit.basis,
{
}

/// What a membership row is refused for, where it is: a weight that is not finite and
/// non-negative, or else a sum that is not finite and strictly positive.
pub open spec fn row_fault(row: Seq<Binary64>, total: Binary64, i: int) -> Option<Text> {
    match first(row.len(), |k: int| !row[k].non_negative_finite()) {
        Some(k) => Some(
            text("weight "@).number(row[k], Style::Plain).text(" for observation "@).count(i).text(
                " is not finite and non-negative"@,
            ),
        ),
        None => if !total.positive_finite() {
            Some(
                text("observation "@).count(i).text("'s membership row sums to "@).number(
                    total,
                    Style::Plain,
                ),
            )
        } else {
            None
        },
    }
}

/// What a refused membership row reads as.
pub open spec fn invalid_memberships(detail: Text) -> Text {
    text("membership kernel returned invalid membership weights: "@).then_text(detail)
}

/// Accept the membership row of observation `i`, given its sum, or say what it is
/// refused for.
pub fn check_membership_row(row: &[Binary64], total: Binary64, i: usize) -> (r: Option<Message>)
    ensures
        match r {
            Some(detail) => row_fault(row@, total, i as int) is Some && detail@
                == invalid_memberships(row_fault(row@, total, i as int)->0),
            None => row_fault(row@, total, i as int) is None,
        },
{
    let head = Message::of("membership kernel returned invalid membership weights: ");
    let ghost bad = |k: int| !row@[k].non_negative_finite();
    for k in 0..row.len()
        invariant
            head@ == text("membership kernel returned invalid membership weights: "@),
            bad == (|k: int| !row@[k].non_negative_finite()),
            forall|j: int| 0 <= j < k ==> !#[trigger] bad(j),
    {
        if !row[k].is_non_negative_finite() {
            proof {
                assert(bad(k as int));
                lemma_first_is(row@.len(), bad, k as int);
            }
            let detail = Message::of("weight ").number(row[k], Style::Plain).text(
                " for observation ",
            ).count(i).text(" is not finite and non-negative");
            return Some(head.then_message(&detail));
        }
        assert(!bad(k as int));
    }
    proof {
        lemma_first_none(row@.len(), bad);
    }
    if !total.is_positive_finite() {
        let detail = Message::of("observation ").count(i).text("'s membership row sums to ").number(
            total,
            Style::Plain,
        );
        return Some(head.then_message(&detail));
    }
    None
}

/// A membership row is accepted exactly where each of its weights is a finite number that
/// is not negative and their sum a finite number above zero.
pub proof fn rows_accepted_exactly_with_weights(
    row: &[Binary64],
    total: Binary64,
    i: usize,
    r: Option<Message>,
)
    requires
        call_ensures(check_membership_row, (row, total, i), r),
    ensures
        r is None <==> {
            &&& forall|k: int|
                0 <= k < row@.len() ==> (#[trigger] row@[k]).finite() && row@[k].value() >= 0
            &&& total.finite() && total.value() > 0
        },
{
    let bad = |k: int| !row@[k].non_negative_finite();
    lemma_first_holds(row@.len(), bad);
    if total.finite() {
        rank_orders_values(total, zero());
    }
    assert(zero().value() == 0);
    assert forall|k: int| 0 <= k < row@.len() implies (#[trigger] row@[k]).non_negative_finite()
        == (row@[k].finite() && row@[k].value() >= 0) by {
        if row@[k].finite() {
            rank_orders_values(row@[k], zero());
        }
    }
    match first(row@.len(), bad) {
        Some(k) => {
            assert(bad(k));
        },
        None => {
            assert forall|k: int| 0 <= k < row@.len() implies (
            #[trigger] row@[k]).non_negative_finite() by {
                assert(!bad(k));
            }
        },
    }
}

/// Observations occupy every cell exactly where each cell has one whose membership in it
/// is above zero.
pub proof fn occupied_exactly_where_every_cell_is_reached(
    memberships: &[Binary64],
    b: usize,
    n: int,
    r: bool,
)
    requires
        b > 0,
        0 <= n,
        memberships@.len() == n * b,
        call_ensures(occupied_under_membership, (memberships, b), r),
    ensures
        r <==> forall|cell: int|
            0 <= cell < b ==> !#[trigger] carries_nothing(memberships@, b as int, cell),
        n == 0 ==> !r,
{
    assert((n * b) / b as int == n) by (nonlinear_arith)
        requires
            b > 0,
    ;
    let rows = memberships@;
    let width = b as nat;
    let count = rows.len() / width;
    assert forall|cell: int| 0 <= cell < b implies (!#[trigger] carries_nothing(
        rows,
        b as int,
        cell,
    ) <==> has_mass(rows, width, count, cell)) by {
        if !carries_nothing(rows, b as int, cell) {
            let i = choose|i: int|
                0 <= i < rows.len() as int / b as int && zero().below(
                    #[trigger] rows[i * b as int + cell],
                );
            assert(zero().below(rows[i * width + cell]));
        }
        if has_mass(rows, width, count, cell) {
            let i = choose|i: int|
                0 <= i < count && zero().below(#[trigger] rows[i * width + cell]);
            assert(zero().below(rows[i * b as int + cell]));
        }
    }
    if r {
        assert forall|cell: int| 0 <= cell < b implies !#[trigger] carries_nothing(
            rows,
            b as int,
            cell,
        ) by {
            assert(has_mass(rows, width, count, cell));
        }
    } else {
        let cell = choose|cell: int|
            0 <= cell < b && !#[trigger] has_mass(rows, width, count, cell);
        assert(carries_nothing(rows, b as int, cell));
    }
    if n == 0 {
        assert(!has_mass(rows, width, count, 0));
    }
}

/// An ensemble holds what it was made of. Observations belong to one cell each unless
/// memberships were given, and cells hold a single value unless a basis was asked for.
pub proof fn ensembles_hold_their_parts(
    tessellations: Vec<Tessellation>,
    assignments: Vec<AssignmentCache>,
    composition: Composition,
    memberships: Vec<Vec<Binary64>>,
    hard: EnsembleUnit,
    dense: EnsembleUnit,
    with_basis: EnsembleUnit,
)
    requires
        call_ensures(EnsembleUnit::new, (tessellations, assignments, composition), hard),
        call_ensures(EnsembleUnit::new_dense, (tessellations, assignments, memberships), dense),
        call_ensures(EnsembleUnit::with_basis, (hard,), with_basis),
    ensures
        hard.tessellations == tessellations && hard.assignments == assignments,
        hard.composition == composition && hard.path is Diagonal && !hard.basis,
        dense.tessellations == tessellations && dense.assignments == assignments,
        dense.composition is Additive && !dense.basis,
        dense.path is Dense && dense.path->memberships == memberships,
        with_basis.basis,
        with_basis.tessellations == tessellations && with_basis.assignments == assignments,
        with_basis.composition == composition && with_basis.path is Diagonal,
{
}

} // verus!
