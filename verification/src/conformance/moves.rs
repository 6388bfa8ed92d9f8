//! Checks of structural moves: the exactness of a declared change, reverse-pair
//! ratios, selection symmetry.

use crate::binary64::{from_bits, Binary64};
use crate::conformance::{
    all_pass, extend, fails, lemma_both_pass, lemma_results_pass, only, pair, passes, same,
    same_bits, same_counts, triple, verdicts, CheckResult, Verdict,
};
use crate::engine::tessellation::{lemma_centre_bounds, Partition, Tessellation};
use crate::extensions::{AssignmentDelta, ModelCtx, Proposal, ProposalMove};
use crate::message::{text, Message, Style, Text};
use crate::search::{first, lemma_first_holds, lemma_first_is, lemma_first_none};
use vstd::prelude::*;

verus! {

/// The result of holding a declared change against the actual one.
pub enum Claim {
    /// The declaration is exact.
    Exact(Text),
    /// The declaration is wrong, and why.
    Inexact(Text),
}

/// The centre of the old tessellation that has to stand at `k` after a removal.
pub open spec fn source_of(k: int, removed: int) -> int {
    if k < removed {
        k
    } else {
        k + 1
    }
}

/// The centre count changed from one number to another where a third was due.
pub open spec fn count_text(before: int, after: int, due: int) -> Text {
    text("the centre count went "@).count(before).text(" -> "@).count(after).text(
        ", not "@,
    ).count(before).text(" -> "@).count(due)
}

/// What a declared change is worth: every claim but a full recompute keeps the
/// dimensions; an added centre is the last one, and all others stay; a removed
/// centre leaves the others in order; a moved centre is the only one that differs.
pub open spec fn claim(old: Partition, new: Partition, delta: AssignmentDelta) -> Claim {
    let (b_old, b_new) = (old.n_cells as int, new.n_cells as int);
    if delta != AssignmentDelta::FullRecompute && old.dims != new.dims {
        Claim::Inexact(
            text("the active dimensions changed ("@).counts(old.dims).text(" -> "@).counts(
                new.dims,
            ).text("), which only `FullRecompute` permits"@),
        )
    } else {
        match delta {
            AssignmentDelta::FullRecompute => Claim::Exact(
                text("claims no structural delta (full recompute)"@),
            ),
            AssignmentDelta::CentreAdded => if b_new != b_old + 1 {
                Claim::Inexact(count_text(b_old, b_new, b_old + 1))
            } else {
                match first(b_old as nat, |k: int| old.centre(k) != new.centre(k)) {
                    Some(k) => Claim::Inexact(
                        text("centre "@).count(k).text(
                            " also changed. `CentreAdded` promises the new centre is appended at the highest index and every existing centre is untouched"@,
                        ),
                    ),
                    None => Claim::Exact(
                        text("appended centre "@).count(b_old).text(", leaving "@).count(
                            b_old,
                        ).text(" existing centres untouched"@),
                    ),
                }
            },
            AssignmentDelta::CentreRemoved { index } => if index >= b_old {
                Claim::Inexact(
                    text("centre "@).count(index as int).text(
                        " does not exist in the old tessellation (b = "@,
                    ).count(b_old).text(")"@),
                )
            } else if b_new != b_old - 1 {
                Claim::Inexact(count_text(b_old, b_new, b_old - 1))
            } else {
                match first(
                    b_new as nat,
                    |k: int| old.centre(source_of(k, index as int)) != new.centre(k),
                ) {
                    Some(k) => Claim::Inexact(
                        text("old centre "@).count(source_of(k, index as int)).text(
                            " should have landed at new index "@,
                        ).count(k).text(" but did not. `CentreRemoved { index: "@).count(
                            index as int,
                        ).text(
                            " }` promises the remaining centres keep their order, with those above the removed one shifting down by one"@,
                        ),
                    ),
                    None => Claim::Exact(
                        text("removed centre "@).count(index as int).text(
                            "; the remaining "@,
                        ).count(b_new).text(" shifted down in order"@),
                    ),
                }
            },
            AssignmentDelta::CentreMoved { index } => if b_new != b_old {
                Claim::Inexact(
                    text("the centre count changed ("@).count(b_old).text(" -> "@).count(
                        b_new,
                    ).text("); `CentreMoved` promises it does not"@),
                )
            } else if index >= b_old {
                Claim::Inexact(
                    text("centre "@).count(index as int).text(" does not exist (b = "@).count(
                        b_old,
                    ).text(")"@),
                )
            } else {
                match first(
                    b_old as nat,
                    |k: int| k != index && old.centre(k) != new.centre(k),
                ) {
                    Some(k) => Claim::Inexact(
                        text("centre "@).count(k).text(
                            " changed too. `CentreMoved { index: "@,
                        ).count(index as int).text(" }` promises centre "@).count(
                            index as int,
                        ).text(
                            " is the *only* one whose coordinates differ, and the assigner reuses every other centre's cached key untouched"@,
                        ),
                    ),
                    None => Claim::Exact(
                        text("only centre "@).count(index as int).text(" moved, as declared"@),
                    ),
                }
            },
        }
    }
}

/// Are the coordinates of centre `i` of `a` and of centre `j` of `b` the same
/// patterns?
fn same_centre(a: &Tessellation, i: usize, b: &Tessellation, j: usize) -> (r: bool)
    requires
        i < a@.n_cells,
        j < b@.n_cells,
        a@.dims == b@.dims,
    ensures
        r == (a@.centre(i as int) == b@.centre(j as int)),
{
    let d: usize = a.dims().len();
    let left = a.centres();
    let right = b.centres();
    proof {
        lemma_centre_bounds(a@, i as int);
        lemma_centre_bounds(b@, j as int);
        assert(left@.len() == left.len() && right@.len() == right.len());
    }
    let x = vstd::slice::slice_subrange(left.as_slice(), i * d, i * d + d);
    let y = vstd::slice::slice_subrange(right.as_slice(), j * d, j * d + d);
    same_bits(x, y)
}

/// The result of holding a declared change against the actual one.
pub open spec fn claim_result(r: std::result::Result<Message, Message>) -> Claim {
    match r {
        Ok(detail) => Claim::Exact(detail@),
        Err(detail) => Claim::Inexact(detail@),
    }
}

/// Hold a move's declared change against the change it made, by comparing the two
/// tessellations pattern by pattern: a coordinate that changed in its last bit has
/// changed.
pub fn validate_delta(
    old: &Tessellation,
    new: &Tessellation,
    delta: AssignmentDelta,
) -> (r: std::result::Result<Message, Message>)
    requires
        old@.n_cells < usize::MAX,
    ensures
        claim_result(r) == claim(old@, new@, delta),
{
    let b_old: usize = old.n_cells();
    let b_new: usize = new.n_cells();
    if delta != AssignmentDelta::FullRecompute && !same_counts(
        old.dims().as_slice(),
        new.dims().as_slice(),
    ) {
        return Err(
            Message::of("the active dimensions changed (").counts(old.dims().as_slice()).text(
                " -> ",
            ).counts(new.dims().as_slice()).text("), which only `FullRecompute` permits"),
        );
    }
    match delta {
        AssignmentDelta::FullRecompute => Ok(
            Message::of("claims no structural delta (full recompute)"),
        ),
        AssignmentDelta::CentreAdded => {
            if b_new != b_old + 1 {
                return Err(
                    Message::of("the centre count went ").count(b_old).text(" -> ").count(
                        b_new,
                    ).text(", not ").count(b_old).text(" -> ").count(b_old + 1),
                );
            }
            let ghost p = |k: int| old@.centre(k) != new@.centre(k);
            for k in 0..b_old
                invariant
                    b_old == old@.n_cells,
                    b_new == new@.n_cells,
                    b_new == b_old + 1,
                    old@.dims == new@.dims,
                    delta == AssignmentDelta::CentreAdded,
                    p == (|k: int| old@.centre(k) != new@.centre(k)),
                    forall|j: int| 0 <= j < k ==> !#[trigger] p(j),
            {
                if !same_centre(old, k, new, k) {
                    proof {
                        assert(p(k as int));
                        lemma_first_is(b_old as nat, p, k as int);
                    }
                    return Err(
                        Message::of("centre ").count(k).text(
                            " also changed. `CentreAdded` promises the new centre is appended at the highest index and every existing centre is untouched",
                        ),
                    );
                }
                assert(!p(k as int));
            }
            proof {
                lemma_first_none(b_old as nat, p);
            }
            Ok(
                Message::of("appended centre ").count(b_old).text(", leaving ").count(b_old).text(
                    " existing centres untouched",
                ),
            )
        },
        AssignmentDelta::CentreRemoved { index } => {
            if index >= b_old {
                return Err(
                    Message::of("centre ").count(index).text(
                        " does not exist in the old tessellation (b = ",
                    ).count(b_old).text(")"),
                );
            }
            if b_new != b_old - 1 {
                return Err(
                    Message::of("the centre count went ").count(b_old).text(" -> ").count(
                        b_new,
                    ).text(", not ").count(b_old).text(" -> ").count(b_old - 1),
                );
            }
            let ghost p = |k: int| old@.centre(source_of(k, index as int)) != new@.centre(k);
            for k in 0..b_new
                invariant
                    b_old == old@.n_cells,
                    b_new == new@.n_cells,
                    b_new == b_old - 1,
                    index < b_old,
                    old@.dims == new@.dims,
                    delta == (AssignmentDelta::CentreRemoved { index }),
                    p == (|k: int| old@.centre(source_of(k, index as int)) != new@.centre(k)),
                    forall|j: int| 0 <= j < k ==> !#[trigger] p(j),
            {
                let source: usize = if k < index {
                    k
                } else {
                    k + 1
                };
                if !same_centre(old, source, new, k) {
                    proof {
                        assert(p(k as int));
                        lemma_first_is(b_new as nat, p, k as int);
                    }
                    return Err(
                        Message::of("old centre ").count(source).text(
                            " should have landed at new index ",
                        ).count(k).text(" but did not. `CentreRemoved { index: ").count(
                            index,
                        ).text(
                            " }` promises the remaining centres keep their order, with those above the removed one shifting down by one",
                        ),
                    );
                }
                assert(!p(k as int));
            }
            proof {
                lemma_first_none(b_new as nat, p);
            }
            Ok(
                Message::of("removed centre ").count(index).text("; the remaining ").count(
                    b_new,
                ).text(" shifted down in order"),
            )
        },
        AssignmentDelta::CentreMoved { index } => {
            if b_new != b_old {
                return Err(
                    Message::of("the centre count changed (").count(b_old).text(" -> ").count(
                        b_new,
                    ).text("); `CentreMoved` promises it does not"),
                );
            }
            if index >= b_old {
                return Err(
                    Message::of("centre ").count(index).text(" does not exist (b = ").count(
                        b_old,
                    ).text(")"),
                );
            }
            let ghost p = |k: int| k != index && old@.centre(k) != new@.centre(k);
            for k in 0..b_old
                invariant
                    b_old == old@.n_cells,
                    b_new == new@.n_cells,
                    b_new == b_old,
                    index < b_old,
                    old@.dims == new@.dims,
                    delta == (AssignmentDelta::CentreMoved { index }),
                    p == (|k: int| k != index && old@.centre(k) != new@.centre(k)),
                    forall|j: int| 0 <= j < k ==> !#[trigger] p(j),
            {
                if k != index && !same_centre(old, k, new, k) {
                    proof {
                        assert(p(k as int));
                        lemma_first_is(b_old as nat, p, k as int);
                    }
                    return Err(
                        Message::of("centre ").count(k).text(
                            " changed too. `CentreMoved { index: ",
                        ).count(index).text(" }` promises centre ").count(index).text(
                            " is the *only* one whose coordinates differ, and the assigner reuses every other centre's cached key untouched",
                        ),
                    );
                }
                assert(!p(k as int));
            }
            proof {
                lemma_first_none(b_old as nat, p);
            }
            Ok(Message::of("only centre ").count(index).text(" moved, as declared"))
        },
    }
}

/// A change is declared exactly when it is the change that was made: nothing is
/// claimed, or the dimensions stay and the centres are the old ones with one
/// appended, one left out in order, or one free to differ.
pub proof fn exact_claims_are_the_true_ones(old: Partition, new: Partition, delta: AssignmentDelta)
    ensures
        claim(old, new, delta) is Exact <==> match delta {
            AssignmentDelta::FullRecompute => true,
            AssignmentDelta::CentreAdded => {
                &&& old.dims == new.dims
                &&& new.n_cells == old.n_cells + 1
                &&& forall|k: int|
                    0 <= k < old.n_cells ==> #[trigger] old.centre(k) == new.centre(k)
            },
            AssignmentDelta::CentreRemoved { index } => {
                &&& old.dims == new.dims
                &&& index < old.n_cells
                &&& new.n_cells == old.n_cells - 1
                &&& forall|k: int|
                    0 <= k < new.n_cells ==> old.centre(source_of(k, index as int))
                        == #[trigger] new.centre(k)
            },
            AssignmentDelta::CentreMoved { index } => {
                &&& old.dims == new.dims
                &&& index < old.n_cells
                &&& new.n_cells == old.n_cells
                &&& forall|k: int|
                    0 <= k < old.n_cells && k != index ==> #[trigger] old.centre(k)
                        == new.centre(k)
            },
        },
{
    match delta {
        AssignmentDelta::FullRecompute => {},
        AssignmentDelta::CentreAdded => {
            let p = |k: int| old.centre(k) != new.centre(k);
            lemma_first_holds(old.n_cells as nat, p);
            assert forall|k: int| first(old.n_cells as nat, p) is None && 0 <= k
                < old.n_cells implies #[trigger] old.centre(k) == new.centre(k) by {
                assert(!p(k));
            }
        },
        AssignmentDelta::CentreRemoved { index } => {
            let p = |k: int| old.centre(source_of(k, index as int)) != new.centre(k);
            lemma_first_holds(new.n_cells as nat, p);
            assert forall|k: int| first(new.n_cells as nat, p) is None && 0 <= k
                < new.n_cells implies old.centre(source_of(k, index as int))
                == #[trigger] new.centre(k) by {
                assert(!p(k));
            }
        },
        AssignmentDelta::CentreMoved { index } => {
            let p = |k: int| k != index && old.centre(k) != new.centre(k);
            lemma_first_holds(old.n_cells as nat, p);
            assert forall|k: int| first(old.n_cells as nat, p) is None && 0 <= k < old.n_cells
                && k != index implies #[trigger] old.centre(k) == new.centre(k) by {
                assert(!p(k));
            }
        },
    }
}

/// What a move proposed from the state under test, with the ratios of the move and
/// of its reverse.
#[derive(Debug)]
pub struct MoveProposal {
    /// The declared change.
    pub declared: AssignmentDelta,
    /// The proposed tessellation, coherent as every tessellation is.
    pub proposed: Tessellation,
    /// Name of the reverse move.
    pub reverse: String,
    /// Structure ratio of the move.
    pub forward: Binary64,
    /// Structure ratio of the reverse move on the way back.
    pub backward: Binary64,
    /// Absolute sum of the two structure ratios.
    pub residual: Binary64,
    /// Absolute sum of the two selection corrections.
    pub selection_residual: Binary64,
}

/// What one move of a set did from the state under test.
#[derive(Debug)]
pub struct MoveTrial {
    /// Name of the move.
    pub name: String,
    /// Its validity, asked once.
    pub valid_first: bool,
    /// Its validity, asked again.
    pub valid_second: bool,
    /// What it proposed, where it was valid both times.
    pub proposal: Option<MoveProposal>,
}

/// A change as its declaration reads.
pub open spec fn delta_text(prefix: Text, delta: AssignmentDelta) -> Text {
    match delta {
        AssignmentDelta::FullRecompute => prefix.text("FullRecompute"@),
        AssignmentDelta::CentreAdded => prefix.text("CentreAdded"@),
        AssignmentDelta::CentreRemoved { index } => prefix.text("CentreRemoved { index: "@).count(
            index as int,
        ).text(" }"@),
        AssignmentDelta::CentreMoved { index } => prefix.text("CentreMoved { index: "@).count(
            index as int,
        ).text(" }"@),
    }
}

/// Write a change after a message.
fn write_delta(prefix: Message, delta: AssignmentDelta) -> (r: Message)
    ensures
        r@ == delta_text(prefix@, delta),
{
    match delta {
        AssignmentDelta::FullRecompute => prefix.text("FullRecompute"),
        AssignmentDelta::CentreAdded => prefix.text("CentreAdded"),
        AssignmentDelta::CentreRemoved { index } => prefix.text("CentreRemoved { index: ").count(
            index,
        ).text(" }"),
        AssignmentDelta::CentreMoved { index } => prefix.text("CentreMoved { index: ").count(
            index,
        ).text(" }"),
    }
}

/// The largest residual of two ratios that cancel: the binary64 number nearest to
/// 1e-8.
#[verifier::allow_in_spec]
pub fn cancel_tolerance() -> Binary64
    returns
        from_bits(0x3e45_798e_e230_8c3a),
{
    from_bits(0x3e45_798e_e230_8c3a)
}

/// Do two ratios with this residual cancel? A residual that is not finite never
/// passes.
pub open spec fn cancels(residual: Binary64) -> bool {
    residual.finite() && !cancel_tolerance().below(residual)
}

/// The verdict on the declared change.
pub open spec fn delta_verdict(name: Seq<char>, state: Partition, trial: MoveProposal) -> Verdict {
    match claim(state, trial.proposed@, trial.declared) {
        Claim::Exact(detail) => passes(
            "delta_claim_exact"@,
            text("move `"@).text(name).text("`: "@).then_text(detail),
        ),
        Claim::Inexact(detail) => fails(
            "delta_claim_exact"@,
            delta_text(
                text("move `"@).text(name).text("` declared "@),
                trial.declared,
            ).text(", but "@).then_text(detail).text(
                ". The assigner trusts this claim and updates only what it names, so an inexact one silently corrupts the chain. When in doubt, `Proposal::new` (claim nothing, full recompute) is always correct."@,
            ),
        ),
    }
}

/// The verdict on the structure ratios of a move and its reverse.
pub open spec fn balance_verdict(name: Seq<char>, trial: MoveProposal) -> Verdict {
    if cancels(trial.residual) {
        passes(
            "detailed_balance_structure"@,
            text("move `"@).text(name).text("` ↔ `"@).text(trial.reverse@).text(
                "` structure ratios cancel"@,
            ),
        )
    } else {
        fails(
            "detailed_balance_structure"@,
            text("move `"@).text(name).text("` + reverse `"@).text(trial.reverse@).text(
                "`: forward "@,
            ).number(trial.forward, Style::Scientific { digits: 6, signed: true }).text(
                " and backward "@,
            ).number(trial.backward, Style::Scientific { digits: 6, signed: true }).text(
                " do not cancel (residual "@,
            ).number(trial.residual, Style::Scientific { digits: 3, signed: false }).text(
                "): one of the two structure ratios is wrong, the pairing is not truly mutual, or a ratio is non-finite"@,
            ),
        )
    }
}

/// The verdict on the selection corrections of a move and its reverse.
pub open spec fn selection_verdict(name: Seq<char>, trial: MoveProposal) -> Verdict {
    if cancels(trial.selection_residual) {
        passes(
            "selection_ratio_symmetry"@,
            text("move `"@).text(name).text("` selection corrections mirror"@),
        )
    } else {
        fails(
            "selection_ratio_symmetry"@,
            text("move `"@).text(name).text(
                "`: selection corrections do not mirror (residual "@,
            ).number(
                trial.selection_residual,
                Style::Scientific { digits: 3, signed: false },
            ).text(
                "): validity flags are likely inconsistent between the two states, or a correction is non-finite"@,
            ),
        )
    }
}

/// The first active dimension of a tessellation that is no covariate.
pub open spec fn stray_dimension(dims: Seq<usize>, p: usize) -> Option<int> {
    first(dims.len(), |i: int| dims[i] >= p)
}

/// The verdict on a proposed dimension that is no covariate.
pub open spec fn stray_verdict(name: Seq<char>, p: usize, dim: usize) -> Verdict {
    fails(
        "proposal_contract"@,
        text("move `"@).text(name).text("` proposed covariate "@).count(dim as int).text(
            " but p = "@,
        ).count(p as int),
    )
}

/// The verdicts on what a move proposed: its declared change, its dimensions, its
/// structure ratios and its selection corrections.
pub open spec fn proposal_verdicts(
    name: Seq<char>,
    state: Partition,
    p: usize,
    made: MoveProposal,
) -> Seq<Verdict> {
    match stray_dimension(made.proposed@.dims, p) {
        Some(i) => seq![
            delta_verdict(name, state, made),
            stray_verdict(name, p, made.proposed@.dims[i]),
        ],
        None => seq![
            delta_verdict(name, state, made),
            balance_verdict(name, made),
            selection_verdict(name, made),
        ],
    }
}

/// The verdicts on one move: the purity of its validity, then what it proposed.
pub open spec fn trial_verdicts(state: Partition, p: usize, trial: MoveTrial) -> Seq<Verdict> {
    let name = trial.name@;
    if trial.valid_first != trial.valid_second {
        seq![
            fails(
                "is_valid_pure"@,
                text("move `"@).text(name).text("`: is_valid returned "@).flag(
                    trial.valid_first,
                ).text(" then "@).flag(trial.valid_second).text(" for the same state"@),
            ),
        ]
    } else if !trial.valid_first {
        seq![
            passes(
                "move_skipped"@,
                text("move `"@).text(name).text(
                    "` is not valid from this state (fine): pick a state where it is to exercise it"@,
                ),
            ),
        ]
    } else {
        proposal_verdicts(name, state, p, trial.proposal->0)
    }
}

/// The verdicts on the first `k` moves of a set.
pub open spec fn set_verdicts(
    state: Partition,
    p: usize,
    trials: Seq<MoveTrial>,
    k: nat,
) -> Seq<Verdict>
    decreases k,
{
    if k == 0 {
        Seq::empty()
    } else {
        set_verdicts(state, p, trials, (k - 1) as nat) + trial_verdicts(state, p, trials[k - 1])
    }
}

/// The first active dimension that is no covariate.
fn find_stray(dims: &Vec<usize>, p: usize) -> (r: Option<usize>)
    ensures
        match r {
            Some(dim) => {
                let at = stray_dimension(dims@, p);
                at is Some && dim == dims@[at->0]
            },
            None => stray_dimension(dims@, p) is None,
        },
{
    let ghost bad = |i: int| dims@[i] >= p;
    for i in 0..dims.len()
        invariant
            bad == (|i: int| dims@[i] >= p),
            forall|j: int| 0 <= j < i ==> !#[trigger] bad(j),
    {
        if dims[i] >= p {
            proof {
                assert(bad(i as int));
                lemma_first_is(dims@.len(), bad, i as int);
            }
            return Some(dims[i]);
        }
        assert(!bad(i as int));
    }
    proof {
        lemma_first_none(dims@.len(), bad);
    }
    None
}

/// Do two ratios with this residual cancel?
fn is_cancelling(residual: Binary64) -> (r: bool)
    ensures
        r == cancels(residual),
{
    residual.is_finite() && !cancel_tolerance().is_below(residual)
}

/// The result on the declared change.
fn check_delta(name: &str, state: &Tessellation, made: &MoveProposal) -> (r: CheckResult)
    requires
        state@.n_cells < usize::MAX,
    ensures
        r@ == delta_verdict(name@, state@, *made),
{
    match validate_delta(state, &made.proposed, made.declared) {
        Ok(detail) => CheckResult::pass(
            "delta_claim_exact",
            Message::of("move `").text(name).text("`: ").then_message(&detail),
        ),
        Err(detail) => {
            let head = write_delta(
                Message::of("move `").text(name).text("` declared "),
                made.declared,
            );
            CheckResult::fail(
                "delta_claim_exact",
                head.text(", but ").then_message(&detail).text(
                    ". The assigner trusts this claim and updates only what it names, so an inexact one silently corrupts the chain. When in doubt, `Proposal::new` (claim nothing, full recompute) is always correct.",
                ),
            )
        },
    }
}

/// The result on the structure ratios.
fn check_balance(name: &str, made: &MoveProposal) -> (r: CheckResult)
    ensures
        r@ == balance_verdict(name@, *made),
{
    let reverse = made.reverse.as_str();
    if is_cancelling(made.residual) {
        CheckResult::pass(
            "detailed_balance_structure",
            Message::of("move `").text(name).text("` ↔ `").text(reverse).text(
                "` structure ratios cancel",
            ),
        )
    } else {
        CheckResult::fail(
            "detailed_balance_structure",
            Message::of("move `").text(name).text("` + reverse `").text(reverse).text(
                "`: forward ",
            ).number(made.forward, Style::Scientific { digits: 6, signed: true }).text(
                " and backward ",
            ).number(made.backward, Style::Scientific { digits: 6, signed: true }).text(
                " do not cancel (residual ",
            ).number(made.residual, Style::Scientific { digits: 3, signed: false }).text(
                "): one of the two structure ratios is wrong, the pairing is not truly mutual, or a ratio is non-finite",
            ),
        )
    }
}

/// The result on the selection corrections.
fn check_selection(name: &str, made: &MoveProposal) -> (r: CheckResult)
    ensures
        r@ == selection_verdict(name@, *made),
{
    if is_cancelling(made.selection_residual) {
        CheckResult::pass(
            "selection_ratio_symmetry",
            Message::of("move `").text(name).text("` selection corrections mirror"),
        )
    } else {
        CheckResult::fail(
            "selection_ratio_symmetry",
            Message::of("move `").text(name).text(
                "`: selection corrections do not mirror (residual ",
            ).number(
                made.selection_residual,
                Style::Scientific { digits: 3, signed: false },
            ).text(
                "): validity flags are likely inconsistent between the two states, or a correction is non-finite",
            ),
        )
    }
}

/// The result on a proposed dimension that is no covariate.
fn check_stray(name: &str, p: usize, dim: usize) -> (r: CheckResult)
    ensures
        r@ == stray_verdict(name@, p, dim),
{
    CheckResult::fail(
        "proposal_contract",
        Message::of("move `").text(name).text("` proposed covariate ").count(dim).text(
            " but p = ",
        ).count(p),
    )
}

/// The results on what a move proposed.
#[verifier::rlimit(60)]
fn check_proposal(name: &str, state: &Tessellation, p: usize, made: &MoveProposal) -> (r: Vec<
    CheckResult,
>)
    requires
        state@.n_cells < usize::MAX,
    ensures
        verdicts(r@) == proposal_verdicts(name@, state@, p, *made),
{
    let claimed = check_delta(name, state, made);
    match find_stray(made.proposed.dims(), p) {
        Some(dim) => pair(claimed, check_stray(name, p, dim)),
        None => triple(claimed, check_balance(name, made), check_selection(name, made)),
    }
}

/// Check one move by what it did from the given state.
fn check_trial(state: &Tessellation, p: usize, trial: &MoveTrial) -> (r: Vec<CheckResult>)
    requires
        state@.n_cells < usize::MAX,
        trial.valid_first && trial.valid_second ==> trial.proposal is Some,
    ensures
        verdicts(r@) == trial_verdicts(state@, p, *trial),
{
    let name = trial.name.as_str();
    if trial.valid_first != trial.valid_second {
        return only(
            CheckResult::fail(
                "is_valid_pure",
                Message::of("move `").text(name).text("`: is_valid returned ").flag(
                    trial.valid_first,
                ).text(" then ").flag(trial.valid_second).text(" for the same state"),
            ),
        );
    }
    match &trial.proposal {
        Some(made) if trial.valid_first => check_proposal(name, state, p, made),
        _ => only(
            CheckResult::pass(
                "move_skipped",
                Message::of("move `").text(name).text(
                    "` is not valid from this state (fine): pick a state where it is to exercise it",
                ),
            ),
        ),
    }
}

/// Check every move of a set from the given state, each by what it did there: the
/// purity of its validity, the exactness of its declared change, the range of the
/// proposed dimensions, the reverse-pair identity of the structure ratios and the
/// symmetry of the selection corrections.
pub fn check_move_set(state: &Tessellation, p: usize, trials: &Vec<MoveTrial>) -> (r: Vec<
    CheckResult,
>)
    requires
        state@.n_cells < usize::MAX,
        forall|i: int|
            0 <= i < trials@.len() ==> ((#[trigger] trials@[i]).valid_first
                && trials@[i].valid_second ==> trials@[i].proposal is Some),
    ensures
        verdicts(r@) == set_verdicts(state@, p, trials@, trials@.len()),
{
    let mut results: Vec<CheckResult> = Vec::new();
    assert(verdicts(results@) =~= set_verdicts(state@, p, trials@, 0));
    for i in 0..trials.len()
        invariant
            state@.n_cells < usize::MAX,
            forall|i: int|
                0 <= i < trials@.len() ==> ((#[trigger] trials@[i]).valid_first
                    && trials@[i].valid_second ==> trials@[i].proposal is Some),
            verdicts(results@) == set_verdicts(state@, p, trials@, i as nat),
    {
        let more = check_trial(state, p, &trials[i]);
        extend(&mut results, more);
    }
    results
}

/// What a move did in a state.
#[derive(Debug)]
pub struct MoveObservation {
    /// Its validity, asked once.
    pub valid_first: bool,
    /// Its validity, asked again.
    pub valid_second: bool,
    /// What it proposed, where it was valid both times.
    pub proposal: Option<Proposal>,
    /// The structure ratios of the move and of its reverse on the way back, where the
    /// proposed dimensions are covariates.
    pub ratios: Option<(Binary64, Binary64)>,
}

/// Let a move propose; the randomness that is left comes back.
pub fn proposal_of<R, F: ProposalMove<R>>(
    kernel: &F,
    state: &Tessellation,
    ctx: &ModelCtx,
    rng: R,
) -> (r: (Proposal, R))
    ensures
        exists|m: &mut R, proposal: Proposal|
            same(*m, rng) && same(*final(m), r.1) && same(proposal, r.0)
                && #[trigger] call_ensures(F::propose, (kernel, state, ctx, m), proposal),
{
    let mut rng = rng;
    let proposal = kernel.propose(state, ctx, &mut rng);
    (proposal, rng)
}

/// The structure ratios are what the move and its reverse answer.
pub open spec fn ratios_answered<R, F: ProposalMove<R>, B: ProposalMove<R>>(
    kernel: &F,
    reverse: &B,
    state: &Tessellation,
    proposed: &Tessellation,
    ctx: &ModelCtx,
    ratios: (Binary64, Binary64),
) -> bool {
    &&& call_ensures(F::log_structure_ratio, (kernel, state, proposed, ctx), ratios.0)
    &&& call_ensures(B::log_structure_ratio, (reverse, proposed, state, ctx), ratios.1)
}

/// The observation is what the move answered: it is asked for its validity twice, for
/// a proposal where it is valid both times, and for its ratio and that of its reverse
/// where the proposed dimensions are covariates. Without a proposal no randomness is
/// consumed.
pub open spec fn move_answered<R, F: ProposalMove<R>, B: ProposalMove<R>>(
    kernel: &F,
    reverse: &B,
    state: &Tessellation,
    ctx: &ModelCtx,
    before: R,
    seen: MoveObservation,
    after: R,
) -> bool {
    &&& call_ensures(F::is_valid, (kernel, state, ctx), seen.valid_first)
    &&& call_ensures(F::is_valid, (kernel, state, ctx), seen.valid_second)
    &&& match seen.proposal {
        None => {
            &&& !(seen.valid_first && seen.valid_second)
            &&& seen.ratios is None
            &&& after == before
        },
        Some(proposal) => {
            &&& seen.valid_first && seen.valid_second
            &&& call_ensures(
                proposal_of::<R, F>,
                (kernel, state, ctx, before),
                (proposal, after),
            )
            &&& (seen.ratios is Some) == (stray_dimension(
                proposal.tessellation@.dims,
                ctx.p,
            ) is None)
            &&& seen.ratios matches Some(ratios) ==> ratios_answered::<R, F, B>(
                kernel,
                reverse,
                state,
                &proposal.tessellation,
                ctx,
                ratios,
            )
        },
    }
}

/// Ask a move what it does in a state, with its reverse for the way back.
pub fn observe_move<R, F: ProposalMove<R>, B: ProposalMove<R>>(
    kernel: &F,
    reverse: &B,
    state: &Tessellation,
    ctx: &ModelCtx,
    rng: R,
) -> (r: (MoveObservation, R))
    ensures
        move_answered::<R, F, B>(kernel, reverse, state, ctx, rng, r.0, r.1),
{
    let valid_first = kernel.is_valid(state, ctx);
    let valid_second = kernel.is_valid(state, ctx);
    if !(valid_first && valid_second) {
        return (
            MoveObservation { valid_first, valid_second, proposal: None, ratios: None },
            rng,
        );
    }
    let ghost before = rng;
    let made = proposal_of(kernel, state, ctx, rng);
    assert(call_ensures(proposal_of::<R, F>, (kernel, state, ctx, before), made));
    let (proposal, left) = made;
    let ratios = match find_stray(proposal.tessellation.dims(), ctx.p) {
        Some(_) => None,
        None => {
            let forward = kernel.log_structure_ratio(state, &proposal.tessellation, ctx);
            let backward = reverse.log_structure_ratio(&proposal.tessellation, state, ctx);
            Some((forward, backward))
        },
    };
    (
        MoveObservation { valid_first, valid_second, proposal: Some(proposal), ratios },
        left,
    )
}

/// A declared change holds exactly where the assigner can rely on it: for an added centre
/// every old one stays at its place and one follows; for a removed one those before it
/// stay and those behind it move down; for a moved one every other stays. All but a full
/// recomputation need the dimensions to stay as they are.
pub proof fn declared_changes_hold_exactly_when_true(
    old_t: &Tessellation,
    new_t: &Tessellation,
    delta: AssignmentDelta,
    r: std::result::Result<Message, Message>,
)
    requires
        call_ensures(validate_delta, (old_t, new_t, delta), r),
    ensures
        ({
            let (a, b) = (old_t@, new_t@);
            let d = a.dims.len() as int;
            r is Ok <==> match delta {
                AssignmentDelta::FullRecompute => true,
                AssignmentDelta::CentreAdded => {
                    &&& a.dims == b.dims
                    &&& b.n_cells == a.n_cells + 1
                    &&& forall|k: int|
                        0 <= k < a.n_cells ==> #[trigger] a.centres.subrange(k * d, (k + 1) * d)
                            == b.centres.subrange(k * d, (k + 1) * d)
                },
                AssignmentDelta::CentreRemoved { index } => {
                    &&& a.dims == b.dims
                    &&& index < a.n_cells
                    &&& b.n_cells + 1 == a.n_cells
                    &&& forall|k: int|
                        0 <= k < index ==> #[trigger] b.centres.subrange(k * d, (k + 1) * d)
                            == a.centres.subrange(k * d, (k + 1) * d)
                    &&& forall|k: int|
                        index <= k < b.n_cells ==> #[trigger] b.centres.subrange(
                            k * d,
                            (k + 1) * d,
                        ) == a.centres.subrange((k + 1) * d, (k + 2) * d)
                },
                AssignmentDelta::CentreMoved { index } => {
                    &&& a.dims == b.dims
                    &&& index < a.n_cells
                    &&& b.n_cells == a.n_cells
                    &&& forall|k: int|
                        0 <= k < a.n_cells && k != index ==> #[trigger] a.centres.subrange(
                            k * d,
                            (k + 1) * d,
                        ) == b.centres.subrange(k * d, (k + 1) * d)
                },
            }
        }),
{
    let (a, b) = (old_t@, new_t@);
    let d = a.dims.len() as int;
    exact_claims_are_the_true_ones(a, b, delta);
    if a.dims == b.dims {
        assert forall|k: int| #[trigger] a.centre(k) == a.centres.subrange(k * d, (k + 1) * d) by {}
        assert forall|k: int| #[trigger] b.centre(k) == b.centres.subrange(k * d, (k + 1) * d) by {}
    }
    match delta {
        AssignmentDelta::FullRecompute => {},
        AssignmentDelta::CentreAdded => {
            if r is Ok {
                assert forall|k: int| 0 <= k < a.n_cells implies #[trigger] a.centres.subrange(
                    k * d,
                    (k + 1) * d,
                ) == b.centres.subrange(k * d, (k + 1) * d) by {
                    assert(a.centre(k) == b.centre(k));
                }
            }
        },
        AssignmentDelta::CentreRemoved { index } => {
            if r is Ok {
                assert forall|k: int| 0 <= k < index implies #[trigger] b.centres.subrange(
                    k * d,
                    (k + 1) * d,
                ) == a.centres.subrange(k * d, (k + 1) * d) by {
                    assert(a.centre(source_of(k, index as int)) == b.centre(k));
                }
                assert forall|k: int| index <= k < b.n_cells implies #[trigger] b.centres.subrange(
                    k * d,
                    (k + 1) * d,
                ) == a.centres.subrange((k + 1) * d, (k + 2) * d) by {
                    assert(a.centre(source_of(k, index as int)) == b.centre(k));
                    assert(a.centre(k + 1) == a.centres.subrange((k + 1) * d, (k + 2) * d));
                }
            } else if a.dims == b.dims && index < a.n_cells && b.n_cells + 1 == a.n_cells {
                let k = choose|k: int|
                    0 <= k < b.n_cells && a.centre(source_of(k, index as int))
                        != #[trigger] b.centre(k);
                assert(a.centre(k + 1) == a.centres.subrange((k + 1) * d, (k + 2) * d));
                assert(b.centre(k) == b.centres.subrange(k * d, (k + 1) * d));
            }
        },
        AssignmentDelta::CentreMoved { index } => {
            if r is Ok {
                assert forall|k: int| 0 <= k < a.n_cells && k != index implies #[trigger] a.centres.subrange(
                    k * d,
                    (k + 1) * d,
                ) == b.centres.subrange(k * d, (k + 1) * d) by {
                    assert(a.centre(k) == b.centre(k));
                }
            }
        },
    }
}

/// What a move's trial needs to pass: the same answer twice on whether it is valid, and,
/// where it is, a true claim, no dimension that does not exist, and residuals that are
/// finite and within the tolerance.
pub open spec fn sound_trial(state: Partition, p: usize, trial: MoveTrial) -> bool {
    &&& trial.valid_first == trial.valid_second
    &&& trial.valid_first ==> {
        let made = trial.proposal->0;
        &&& claim(state, made.proposed@, made.declared) is Exact
        &&& forall|i: int|
            0 <= i < made.proposed@.dims.len() ==> #[trigger] made.proposed@.dims[i] < p
        &&& made.residual.finite() && made.residual.at_most(cancel_tolerance())
        &&& made.selection_residual.finite() && made.selection_residual.at_most(
            cancel_tolerance(),
        )
    }
}

/// The verdicts on one trial.
proof fn lemma_trial(state: Partition, p: usize, trial: MoveTrial)
    ensures
        all_pass(trial_verdicts(state, p, trial)) <==> sound_trial(state, p, trial),
        1 <= trial_verdicts(state, p, trial).len() <= 3,
{
    let list = trial_verdicts(state, p, trial);
    if trial.valid_first == trial.valid_second && trial.valid_first {
        let made = trial.proposal->0;
        let bad = |i: int| made.proposed@.dims[i] >= p;
        lemma_first_holds(made.proposed@.dims.len(), bad);
        if stray_dimension(made.proposed@.dims, p) is Some {
            let i = stray_dimension(made.proposed@.dims, p)->0;
            assert(bad(i));
            assert(made.proposed@.dims[i] >= p);
            assert(!list[1].passed);
        } else {
            assert forall|i: int| 0 <= i < made.proposed@.dims.len() implies #[trigger] made.proposed@.dims[i]
                < p by {
                assert(!bad(i));
            }
            assert(list[0] == delta_verdict(trial.name@, state, made));
            assert(list[1] == balance_verdict(trial.name@, made));
            assert(list[2] == selection_verdict(trial.name@, made));
        }
    } else {
        assert(list.len() == 1);
        assert(list[0].passed == sound_trial(state, p, trial));
    }
}

/// The verdicts on the first trials.
proof fn lemma_trials(state: Partition, p: usize, trials: Seq<MoveTrial>, k: nat)
    requires
        k <= trials.len(),
    ensures
        all_pass(set_verdicts(state, p, trials, k)) <==> forall|i: int|
            0 <= i < k ==> sound_trial(state, p, #[trigger] trials[i]),
        k <= set_verdicts(state, p, trials, k).len(),
    decreases k,
{
    if k > 0 {
        lemma_trials(state, p, trials, (k - 1) as nat);
        lemma_trial(state, p, trials[k - 1]);
        lemma_both_pass(
            set_verdicts(state, p, trials, (k - 1) as nat),
            trial_verdicts(state, p, trials[k - 1]),
        );
    }
}

/// A move set passes exactly where every one of its moves does, and every move has a
/// verdict.
pub proof fn move_set_passes_exactly_when_every_move_is_sound(
    state: &Tessellation,
    p: usize,
    trials: &Vec<MoveTrial>,
    r: Vec<CheckResult>,
)
    requires
        call_ensures(check_move_set, (state, p, trials), r),
    ensures
        (forall|i: int| 0 <= i < r@.len() ==> (#[trigger] r@[i]).passed) <==> forall|i: int|
            #![trigger trials@[i]]
            0 <= i < trials@.len() ==> {
                let trial = trials@[i];
                &&& trial.valid_first == trial.valid_second
                &&& trial.valid_first ==> {
                    let made = trial.proposal->0;
                    &&& claim(state@, made.proposed@, made.declared) is Exact
                    &&& forall|k: int|
                        0 <= k < made.proposed@.dims.len() ==> #[trigger] made.proposed@.dims[k] < p
                    &&& made.residual.finite() && made.residual.at_most(cancel_tolerance())
                    &&& made.selection_residual.finite() && made.selection_residual.at_most(
                        cancel_tolerance(),
                    )
                }
            },
        trials@.len() <= r@.len(),
{
    lemma_results_pass(r@);
    lemma_trials(state@, p, trials@, trials@.len());
    assert forall|i: int|
        #![trigger trials@[i]]
        0 <= i < trials@.len() implies sound_trial(state@, p, trials@[i]) == {
        let trial = trials@[i];
        &&& trial.valid_first == trial.valid_second
        &&& trial.valid_first ==> {
            let made = trial.proposal->0;
            &&& claim(state@, made.proposed@, made.declared) is Exact
            &&& forall|k: int|
                0 <= k < made.proposed@.dims.len() ==> #[trigger] made.proposed@.dims[k] < p
            &&& made.residual.finite() && made.residual.at_most(cancel_tolerance())
            &&& made.selection_residual.finite() && made.selection_residual.at_most(
                cancel_tolerance(),
            )
        }
    } by {}
}

/// A move is asked twice whether it is valid and proposes only where both answers are
/// yes; the ratios are asked for only where every proposed dimension exists, the forward
/// one from the state to the proposal and the backward one the other way round. Without a
/// proposal no randomness is consumed.
pub proof fn moves_are_asked_in_order<R, F: ProposalMove<R>, B: ProposalMove<R>>(
    kernel: &F,
    reverse: &B,
    state: &Tessellation,
    ctx: &ModelCtx,
    rng: R,
    r: (MoveObservation, R),
)
    requires
        call_ensures(observe_move::<R, F, B>, (kernel, reverse, state, ctx, rng), r),
    ensures
        call_ensures(F::is_valid, (kernel, state, ctx), r.0.valid_first),
        call_ensures(F::is_valid, (kernel, state, ctx), r.0.valid_second),
        r.0.proposal is Some <==> r.0.valid_first && r.0.valid_second,
        r.0.proposal is None ==> r.1 == rng && r.0.ratios is None,
        r.0.proposal matches Some(made) ==> {
            &&& call_ensures(proposal_of::<R, F>, (kernel, state, ctx, rng), (made, r.1))
            &&& r.0.ratios is Some <==> forall|i: int|
                0 <= i < made.tessellation@.dims.len() ==> #[trigger] made.tessellation@.dims[i]
                    < ctx.p
            &&& r.0.ratios matches Some(ratios) ==> {
                &&& call_ensures(
                    F::log_structure_ratio,
                    (kernel, state, &made.tessellation, ctx),
                    ratios.0,
                )
                &&& call_ensures(
                    B::log_structure_ratio,
                    (reverse, &made.tessellation, state, ctx),
                    ratios.1,
                )
            }
        },
{
    if r.0.proposal is Some {
        let dims = r.0.proposal->0.tessellation@.dims;
        let bad = |i: int| dims[i] >= ctx.p;
        lemma_first_holds(dims.len(), bad);
        if stray_dimension(dims, ctx.p) is Some {
            let i = stray_dimension(dims, ctx.p)->0;
            assert(bad(i));
            assert(dims[i] >= ctx.p);
        } else {
            assert forall|i: int| 0 <= i < dims.len() implies #[trigger] dims[i] < ctx.p by {
                assert(!bad(i));
            }
        }
    }
}

/// The residual of two cancelling ratios may be the rounding of 1e-8, and no more; the
/// tolerances of the other checks are as documented.
pub proof fn tolerances_are_as_documented()
    ensures
        cancel_tolerance().bits == 0x3e45_798e_e230_8c3a,
        crate::conformance::count_priors::density_tolerance().bits == 0x3e45_798e_e230_8c3a,
        crate::conformance::membership::equivariance_tolerance().bits == 0x3e11_2e0b_e826_d695,
        crate::conformance::coordinate::narrowest_window().bits == 0x3e11_2e0b_e826_d695,
        crate::conformance::cell_model::bayes_tolerance().bits == 0x3fc3_3333_3333_3333,
        crate::conformance::cell_model::rank_tolerance().bits == 0x4045_e666_6666_6666,
{
}

} // verus!
