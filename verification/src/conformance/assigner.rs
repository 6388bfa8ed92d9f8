//! Checks of cell assigners: repeatable assignments, and incremental reassignments
//! that equal a full recompute.

use crate::binary64::{zero, Binary64};
use crate::conformance::texts::{
    added_label_message, added_label_text, assigner_failed_message, assigner_failed_text,
    assignments_differ_message, assignments_differ_text, assignments_repeat_message,
    assignments_repeat_text, edit_failed_message, edit_failed_text, edit_keys_message,
    edit_keys_text, edit_split_message, edit_split_text, edit_stale_message, edit_stale_text,
    edits_agree_message, edits_agree_text, moved_label_message, moved_label_text,
    recompute_failed_message, recompute_failed_text, removed_label_message, removed_label_text,
};
use crate::conformance::{
    fails, lemma_results_pass, only, pair, passes, same_counts, verdicts, CheckResult, Verdict,
};
use crate::engine::data::Data;
use crate::engine::error::Result;
use crate::engine::tessellation::{incoherence, lemma_centre_bounds, Partition, Tessellation};
use crate::extensions::{AssignmentCache, AssignmentDelta, CellAssigner};
use crate::message::{Message, Text};
use crate::search::{first, lemma_first_holds, lemma_first_is, lemma_first_none};
use vstd::prelude::*;

verus! {

/// What an assigner answered for one edited tessellation.
#[derive(Debug)]
pub struct EditReply {
    /// The incremental reassignment.
    pub incremental: Result<AssignmentCache>,
    /// The reassignment that claims nothing.
    pub recomputed: Result<AssignmentCache>,
    /// The plain assignment.
    pub reference: Result<Vec<usize>>,
}

/// Do the winning keys agree as far as both sides report them?
pub open spec fn keys_agree(a: Seq<Binary64>, b: Seq<Binary64>) -> bool {
    a.len() == 0 || b.len() == 0 || forall|i: int|
        0 <= i < a.len() && i < b.len() ==> #[trigger] a[i] == b[i]
}

/// What is wrong with the answers for one edit, where something is.
pub open spec fn edit_fault(label: Text, reply: EditReply) -> Option<Text> {
    match (reply.incremental, reply.recomputed, reply.reference) {
        (Err(e), _, _) => Some(edit_failed_text(label, e@.message())),
        (_, Err(e), _) => Some(edit_failed_text(label, e@.message())),
        (_, _, Err(e)) => Some(edit_failed_text(label, e@.message())),
        (Ok(incremental), Ok(recomputed), Ok(reference)) => if incremental.assignment@
            != reference@ {
            Some(edit_stale_text(label))
        } else if recomputed.assignment@ != reference@ {
            Some(edit_split_text(label))
        } else if !keys_agree(incremental.best_keys@, recomputed.best_keys@) {
            Some(edit_keys_text(label))
        } else {
            None
        },
    }
}

/// Do the winning keys agree as far as both sides report them?
fn do_keys_agree(a: &Vec<Binary64>, b: &Vec<Binary64>) -> (r: bool)
    ensures
        r == keys_agree(a@, b@),
{
    if a.len() == 0 || b.len() == 0 {
        return true;
    }
    let shared: usize = if a.len() < b.len() {
        a.len()
    } else {
        b.len()
    };
    for i in 0..shared
        invariant
            a@.len() > 0,
            b@.len() > 0,
            shared <= a@.len(),
            shared <= b@.len(),
            forall|j: int| 0 <= j < i ==> a@[j] == b@[j],
    {
        if a[i] != b[i] {
            assert(a@[i as int] != b@[i as int]);
            return false;
        }
    }
    true
}

/// What is wrong with the answers for one edit, where something is.
pub fn assess_edit(label: &Message, reply: &EditReply) -> (r: Option<Message>)
    ensures
        match r {
            Some(detail) => edit_fault(label@, *reply) == Some(detail@),
            None => edit_fault(label@, *reply) is None,
        },
{
    match (&reply.incremental, &reply.recomputed, &reply.reference) {
        (Err(e), _, _) => Some(edit_failed_message(label, &e.message())),
        (_, Err(e), _) => Some(edit_failed_message(label, &e.message())),
        (_, _, Err(e)) => Some(edit_failed_message(label, &e.message())),
        (Ok(incremental), Ok(recomputed), Ok(reference)) => {
            if !same_counts(incremental.assignment.as_slice(), reference.as_slice()) {
                Some(edit_stale_message(label))
            } else if !same_counts(recomputed.assignment.as_slice(), reference.as_slice()) {
                Some(edit_split_message(label))
            } else if !do_keys_agree(&incremental.best_keys, &recomputed.best_keys) {
                Some(edit_keys_message(label))
            } else {
                None
            }
        },
    }
}

/// An edited tessellation, its label, and the change as a move would declare it.
#[derive(Debug)]
pub struct Edit {
    /// Label of the edit.
    pub label: Message,
    /// The tessellation after the edit.
    pub tessellation: Tessellation,
    /// The change.
    pub delta: AssignmentDelta,
}

/// The label of a change.
pub open spec fn edit_label(delta: AssignmentDelta) -> Text {
    match delta {
        AssignmentDelta::CentreMoved { index } => moved_label_text(index as int),
        AssignmentDelta::CentreRemoved { index } => removed_label_text(index as int),
        _ => added_label_text(),
    }
}

/// The centres after a change: one appended, one replaced, or one left out.
pub open spec fn edited_centres(
    t: Partition,
    delta: AssignmentDelta,
    added: Seq<Binary64>,
    moved: Seq<Binary64>,
) -> Seq<Binary64> {
    let d = t.dims.len();
    match delta {
        AssignmentDelta::FullRecompute => t.centres,
        AssignmentDelta::CentreAdded => t.centres + added,
        AssignmentDelta::CentreMoved { index } => t.centres.take(index * d) + moved.subrange(
            index * d,
            (index + 1) * d,
        ) + t.centres.skip((index + 1) * d),
        AssignmentDelta::CentreRemoved { index } => t.centres.take(index * d) + t.centres.skip(
            (index + 1) * d,
        ),
    }
}

/// The cell values after a change.
pub open spec fn edited_mus(t: Partition, delta: AssignmentDelta) -> Seq<Binary64> {
    match delta {
        AssignmentDelta::CentreAdded => t.mus.push(zero()),
        AssignmentDelta::CentreRemoved { index } => t.mus.remove(index as int),
        _ => t.mus,
    }
}

/// Is this the given change of `t`?
pub open spec fn is_edit(
    edit: Edit,
    t: Partition,
    delta: AssignmentDelta,
    added: Seq<Binary64>,
    moved: Seq<Binary64>,
) -> bool {
    &&& edit.delta == delta
    &&& edit.label@ == edit_label(delta)
    &&& edit.tessellation@.centres == edited_centres(t, delta, added, moved)
    &&& edit.tessellation@.dims == t.dims
    &&& edit.tessellation@.mus == edited_mus(t, delta)
}

/// The changes that a tessellation is put through: a centre added, each centre
/// moved, and, where two or more are there, each centre removed.
pub open spec fn edit_list(n_cells: nat) -> Seq<AssignmentDelta> {
    let moves = Seq::new(n_cells, |i: int| AssignmentDelta::CentreMoved { index: i as usize });
    let removals = if n_cells >= 2 {
        Seq::new(n_cells, |i: int| AssignmentDelta::CentreRemoved { index: i as usize })
    } else {
        Seq::empty()
    };
    seq![AssignmentDelta::CentreAdded] + moves + removals
}

/// Append a part of a list of numbers.
fn push_range(to: &mut Vec<Binary64>, from: &Vec<Binary64>, start: usize, end: usize)
    requires
        start <= end <= from@.len(),
    ensures
        final(to)@ == old(to)@ + from@.subrange(start as int, end as int),
{
    let ghost before = to@;
    assert(before =~= before + from@.subrange(start as int, start as int));
    for i in start..end
        invariant
            start <= end <= from@.len(),
            to@ == before + from@.subrange(start as int, i as int),
    {
        to.push(from[i]);
        assert(to@ =~= before + from@.subrange(start as int, i + 1));
    }
}

/// A copy of a list of dimensions.
fn copied_dims(dims: &Vec<usize>) -> (r: Vec<usize>)
    ensures
        r@ == dims@,
{
    let mut r: Vec<usize> = Vec::new();
    for i in 0..dims.len()
        invariant
            r@ == dims@.take(i as int),
    {
        r.push(dims[i]);
        assert(r@ =~= dims@.take(i + 1));
    }
    assert(dims@.take(dims@.len() as int) =~= dims@);
    r
}

/// A whole number of blocks divides back into their number.
proof fn lemma_blocks(n: int, d: int)
    requires
        d > 0,
        n >= 0,
    ensures
        (n * d) / d == n,
        (n * d) % d == 0,
        n * d >= 0,
        n >= 1 ==> n * d >= d,
{
    vstd::arithmetic::div_mod::lemma_div_multiples_vanish(n, d);
    vstd::arithmetic::div_mod::lemma_mod_multiples_basic(n, d);
    assert(n * d == d * n) by (nonlinear_arith);
    assert(n * d >= 0) by (nonlinear_arith)
        requires
            n >= 0,
            d > 0,
    ;
    if n >= 1 {
        assert(n * d >= d) by (nonlinear_arith)
            requires
                n >= 1,
                d > 0,
        ;
    }
}

/// The tessellation after a change. `added` are the coordinates of the new centre,
/// `moved` those of every centre after a move.
fn make_edit(
    t: &Tessellation,
    delta: AssignmentDelta,
    added: &Vec<Binary64>,
    moved: &Vec<Binary64>,
) -> (r: Edit)
    requires
        t@.coherent(),
        t@.mus.len() == t@.n_cells,
        added@.len() == t@.dims.len(),
        moved@.len() == t@.centres.len(),
        match delta {
            AssignmentDelta::FullRecompute => false,
            AssignmentDelta::CentreAdded => true,
            AssignmentDelta::CentreMoved { index } => index < t@.n_cells,
            AssignmentDelta::CentreRemoved { index } => index < t@.n_cells && t@.n_cells >= 2,
        },
    ensures
        is_edit(r, t@, delta, added@, moved@),
{
    let centres = t.centres();
    let old_mus = t.mus();
    let b: usize = t.n_cells();
    let d: usize = t.dims().len();
    let dims = copied_dims(t.dims());
    let mut next: Vec<Binary64> = Vec::new();
    let mut mus: Vec<Binary64> = Vec::new();
    proof {
        assert(centres@.len() == centres.len());
    }
    let label = match delta {
        AssignmentDelta::CentreMoved { index } => {
            proof {
                lemma_centre_bounds(t@, index as int);
                lemma_blocks(b as int, d as int);
            }
            push_range(&mut next, centres, 0, index * d);
            push_range(&mut next, moved, index * d, index * d + d);
            push_range(&mut next, centres, index * d + d, centres.len());
            push_range(&mut mus, old_mus, 0, b);
            proof {
                assert(next@ =~= edited_centres(t@, delta, added@, moved@));
                assert(mus@ =~= edited_mus(t@, delta));
                assert(next@.len() == b * d);
            }
            moved_label_message(index)
        },
        AssignmentDelta::CentreRemoved { index } => {
            proof {
                lemma_centre_bounds(t@, index as int);
                lemma_blocks(b - 1, d as int);
                assert((b - 1) * d == b * d - d) by (nonlinear_arith);
            }
            push_range(&mut next, centres, 0, index * d);
            push_range(&mut next, centres, index * d + d, centres.len());
            push_range(&mut mus, old_mus, 0, index);
            push_range(&mut mus, old_mus, index + 1, b);
            proof {
                assert(next@ =~= edited_centres(t@, delta, added@, moved@));
                assert(mus@ =~= edited_mus(t@, delta));
                assert(next@.len() == (b - 1) * d);
            }
            removed_label_message(index)
        },
        _ => {
            proof {
                lemma_blocks(b + 1, d as int);
                assert((b + 1) * d == b * d + d) by (nonlinear_arith);
            }
            push_range(&mut next, centres, 0, centres.len());
            push_range(&mut next, added, 0, d);
            push_range(&mut mus, old_mus, 0, b);
            mus.push(zero());
            proof {
                assert(next@ =~= edited_centres(t@, delta, added@, moved@));
                assert(mus@ =~= edited_mus(t@, delta));
                assert(next@.len() == (b + 1) * d);
            }
            added_label_message()
        },
    };
    proof {
        let cells = next@.len() / d as nat;
        assert(cells >= 1 && mus@.len() == cells && next@.len() % d as nat == 0 && next@.len()
            >= d);
        assert(mus@.len() % cells == 0) by (nonlinear_arith)
            requires
                mus@.len() == cells,
                cells >= 1,
        ;
        assert(incoherence(next@, dims@, mus@) is None);
    }
    match Tessellation::new(next, dims, mus) {
        Ok(tessellation) => Edit { label, tessellation, delta },
        Err(_) => {
            assert(false);
            vstd::pervasive::unreached()
        },
    }
}

/// The verdict on the reassignments, given the answers for the edits in order.
pub open spec fn consistency_verdict(
    edits: Seq<AssignmentDelta>,
    replies: Seq<EditReply>,
) -> Verdict {
    match first(replies.len(), |i: int| edit_fault(edit_label(edits[i]), replies[i]) is Some) {
        Some(i) => fails(
            "reassign_consistent"@,
            edit_fault(edit_label(edits[i]), replies[i])->0,
        ),
        None => passes("reassign_consistent"@, edits_agree_text(edits.len() as int)),
    }
}

/// The answers stop at the first fault, or cover every edit.
pub open spec fn answers_complete(edits: Seq<AssignmentDelta>, replies: Seq<EditReply>) -> bool {
    &&& replies.len() <= edits.len()
    &&& replies.len() == edits.len() || replies.len() > 0 && edit_fault(
        edit_label(edits[replies.len() - 1]),
        replies.last(),
    ) is Some
}

/// The edits of a tessellation, in order.
pub fn edits_of(t: &Tessellation, added: &Vec<Binary64>, moved: &Vec<Binary64>) -> (r: Vec<Edit>)
    requires
        t@.mus.len() == t@.n_cells,
        added@.len() == t@.dims.len(),
        moved@.len() == t@.centres.len(),
    ensures
        r@.len() == edit_list(t@.n_cells as nat).len(),
        forall|i: int|
            0 <= i < r@.len() ==> is_edit(
                #[trigger] r@[i],
                t@,
                edit_list(t@.n_cells as nat)[i],
                added@,
                moved@,
            ),
{
    let b: usize = t.n_cells();
    let ghost list = edit_list(b as nat);
    let mut edits: Vec<Edit> = Vec::new();
    edits.push(make_edit(t, AssignmentDelta::CentreAdded, added, moved));
    assert(list[0] == AssignmentDelta::CentreAdded);
    for index in 0..b
        invariant
            t@.coherent(),
            t@.mus.len() == t@.n_cells,
            added@.len() == t@.dims.len(),
            moved@.len() == t@.centres.len(),
            b == t@.n_cells,
            list == edit_list(b as nat),
            edits@.len() == 1 + index,
            forall|i: int|
                0 <= i < edits@.len() ==> is_edit(
                    #[trigger] edits@[i],
                    t@,
                    list[i],
                    added@,
                    moved@,
                ),
    {
        let delta = AssignmentDelta::CentreMoved { index };
        assert(list[1 + index] == delta);
        edits.push(make_edit(t, delta, added, moved));
    }
    if b >= 2 {
        for index in 0..b
            invariant
                b >= 2,
                t@.coherent(),
                t@.mus.len() == t@.n_cells,
                added@.len() == t@.dims.len(),
                moved@.len() == t@.centres.len(),
                b == t@.n_cells,
                list == edit_list(b as nat),
                edits@.len() == 1 + b + index,
                forall|i: int|
                    0 <= i < edits@.len() ==> is_edit(
                        #[trigger] edits@[i],
                        t@,
                        list[i],
                        added@,
                        moved@,
                    ),
        {
            let delta = AssignmentDelta::CentreRemoved { index };
            assert(list[1 + b + index] == delta);
            edits.push(make_edit(t, delta, added, moved));
        }
    }
    edits
}

/// A cache that knows nothing: cell 0 for every observation and no keys.
fn cold_cache(n_rows: usize) -> (r: AssignmentCache)
    ensures
        is_cold(r, n_rows as nat),
{
    let mut assignment: Vec<usize> = Vec::new();
    for i in 0..n_rows
        invariant
            assignment@.len() == i,
            forall|j: int| 0 <= j < i ==> assignment@[j] == 0,
    {
        assignment.push(0);
    }
    assert(assignment@ =~= Seq::new(n_rows as nat, |i: int| 0usize));
    AssignmentCache::new(assignment, Vec::new())
}

/// Does the cache know nothing?
pub open spec fn is_cold(cache: AssignmentCache, n_rows: nat) -> bool {
    &&& cache.assignment@ == Seq::new(n_rows, |i: int| 0usize)
    &&& cache.best_keys@.len() == 0
}

/// The reply holds what the assigner answers for an edited tessellation.
pub open spec fn edit_answers<A: CellAssigner>(
    assigner: &A,
    x: &Data,
    edit: Edit,
    cold: AssignmentCache,
    previous: AssignmentCache,
    reply: EditReply,
) -> bool {
    &&& call_ensures(
        A::reassign,
        (assigner, x, &edit.tessellation, edit.delta, &previous),
        reply.incremental,
    )
    &&& call_ensures(
        A::reassign,
        (assigner, x, &edit.tessellation, AssignmentDelta::FullRecompute, &cold),
        reply.recomputed,
    )
    &&& call_ensures(A::assign_cells, (assigner, x, &edit.tessellation), reply.reference)
}

/// What an assigner answered in the course of the reassignment check.
pub struct ReassignRun {
    /// The cache that knows nothing.
    pub cold: AssignmentCache,
    /// The full recompute of the tessellation.
    pub start: Result<AssignmentCache>,
    /// The edits, in order.
    pub edits: Seq<Edit>,
    /// The answers for the edits, as far as the check went.
    pub replies: Seq<EditReply>,
}

/// Is this a run of the assigner on the tessellation and its edits?
pub open spec fn is_run<A: CellAssigner>(
    run: ReassignRun,
    assigner: &A,
    x: &Data,
    tessellation: &Tessellation,
    added: Seq<Binary64>,
    moved: Seq<Binary64>,
) -> bool {
    let list = edit_list(tessellation@.n_cells as nat);
    &&& is_cold(run.cold, x@.n_rows as nat)
    &&& call_ensures(
        A::reassign,
        (assigner, x, tessellation, AssignmentDelta::FullRecompute, &run.cold),
        run.start,
    )
    &&& run.start matches Ok(previous) ==> {
        &&& run.edits.len() == list.len()
        &&& forall|i: int|
            0 <= i < run.edits.len() ==> is_edit(
                #[trigger] run.edits[i],
                tessellation@,
                list[i],
                added,
                moved,
            )
        &&& answers_complete(list, run.replies)
        &&& forall|i: int|
            0 <= i < run.replies.len() ==> edit_answers(
                assigner,
                x,
                run.edits[i],
                run.cold,
                previous,
                #[trigger] run.replies[i],
            )
    }
}

/// The verdict on a run: that the first recompute failed, or what the answers to the
/// edits show.
pub open spec fn run_verdict(run: ReassignRun, n_cells: nat) -> Verdict {
    match run.start {
        Err(e) => fails("reassign_consistent"@, recompute_failed_text(e@.message())),
        Ok(_) => consistency_verdict(edit_list(n_cells), run.replies),
    }
}

/// What the check of the reassignments reports: the verdict on a run of the
/// assigner.
pub open spec fn reassign_outcome<A: CellAssigner>(
    v: Verdict,
    assigner: &A,
    x: &Data,
    tessellation: &Tessellation,
    added: Seq<Binary64>,
    moved: Seq<Binary64>,
) -> bool {
    exists|run: ReassignRun|
        #[trigger] is_run(run, assigner, x, tessellation, added, moved) && v == run_verdict(
            run,
            tessellation@.n_cells as nat,
        )
}

/// The incremental reassignment, over deterministic edits of a tessellation: for
/// every declarable change the incremental result must equal the plain assignment
/// of the edited tessellation, and so must the reassignment that claims nothing;
/// winning keys must agree bit for bit where both sides report them.
fn check_reassign_consistency<A: CellAssigner>(
    assigner: &A,
    x: &Data,
    tessellation: &Tessellation,
    added: &Vec<Binary64>,
    moved: &Vec<Binary64>,
) -> (r: CheckResult)
    requires
        tessellation@.mus.len() == tessellation@.n_cells,
        added@.len() == tessellation@.dims.len(),
        moved@.len() == tessellation@.centres.len(),
    ensures
        reassign_outcome(r@, assigner, x, tessellation, added@, moved@),
{
    let cold = cold_cache(x.n_rows());
    let start = assigner.reassign(x, tessellation, AssignmentDelta::FullRecompute, &cold);
    let previous = match &start {
        Ok(cache) => cache,
        Err(e) => {
            let r = CheckResult::fail(
                "reassign_consistent",
                recompute_failed_message(&e.message()),
            );
            proof {
                let run = ReassignRun { cold, start, edits: Seq::empty(), replies: Seq::empty() };
                assert(is_run(run, assigner, x, tessellation, added@, moved@));
                assert(r@ == run_verdict(run, tessellation@.n_cells as nat));
            }
            return r;
        },
    };
    let edits = edits_of(tessellation, added, moved);
    let (r, Ghost(replies)) = walk_edits(
        assigner,
        x,
        &edits,
        &cold,
        previous,
        Ghost((tessellation@, added@, moved@)),
    );
    proof {
        let run = ReassignRun { cold, start, edits: edits@, replies };
        assert(is_run(run, assigner, x, tessellation, added@, moved@));
        assert(r@ == run_verdict(run, tessellation@.n_cells as nat));
    }
    r
}

/// Ask for every edit in turn, up to the first fault.
fn walk_edits<A: CellAssigner>(
    assigner: &A,
    x: &Data,
    edits: &Vec<Edit>,
    cold: &AssignmentCache,
    previous: &AssignmentCache,
    Ghost(origin): Ghost<(Partition, Seq<Binary64>, Seq<Binary64>)>,
) -> (r: (CheckResult, Ghost<Seq<EditReply>>))
    requires
        edits@.len() == edit_list(origin.0.n_cells as nat).len(),
        forall|i: int|
            0 <= i < edits@.len() ==> is_edit(
                #[trigger] edits@[i],
                origin.0,
                edit_list(origin.0.n_cells as nat)[i],
                origin.1,
                origin.2,
            ),
    ensures
        answers_complete(edit_list(origin.0.n_cells as nat), r.1@),
        forall|i: int|
            0 <= i < r.1@.len() ==> edit_answers(
                assigner,
                x,
                edits@[i],
                *cold,
                *previous,
                #[trigger] r.1@[i],
            ),
        r.0@ == consistency_verdict(edit_list(origin.0.n_cells as nat), r.1@),
{
    let ghost list = edit_list(origin.0.n_cells as nat);
    let ghost mut replies: Seq<EditReply> = Seq::empty();
    for i in 0..edits.len()
        invariant
            list == edit_list(origin.0.n_cells as nat),
            edits@.len() == list.len(),
            forall|i: int|
                0 <= i < edits@.len() ==> is_edit(
                    #[trigger] edits@[i],
                    origin.0,
                    list[i],
                    origin.1,
                    origin.2,
                ),
            replies.len() == i,
            forall|j: int|
                0 <= j < i ==> edit_fault(edit_label(list[j]), #[trigger] replies[j]) is None,
            forall|j: int|
                0 <= j < i ==> edit_answers(
                    assigner,
                    x,
                    edits@[j],
                    *cold,
                    *previous,
                    #[trigger] replies[j],
                ),
    {
        let edit = &edits[i];
        let incremental = assigner.reassign(x, &edit.tessellation, edit.delta, previous);
        let recomputed = assigner.reassign(
            x,
            &edit.tessellation,
            AssignmentDelta::FullRecompute,
            cold,
        );
        let reference = assigner.assign_cells(x, &edit.tessellation);
        let reply = EditReply { incremental, recomputed, reference };
        assert(is_edit(edits@[i as int], origin.0, list[i as int], origin.1, origin.2));
        assert(edit_answers(assigner, x, edits@[i as int], *cold, *previous, reply));
        let fault = assess_edit(&edit.label, &reply);
        proof {
            replies = replies.push(reply);
        }
        if let Some(detail) = fault {
            proof {
                let all = replies;
                let p = |j: int| edit_fault(edit_label(list[j]), all[j]) is Some;
                assert(p(i as int));
                assert forall|j: int| 0 <= j < i implies !#[trigger] p(j) by {
                    assert(edit_fault(edit_label(list[j]), replies[j]) is None);
                }
                lemma_first_is(all.len(), p, i as int);
            }
            return (CheckResult::fail("reassign_consistent", detail), Ghost(replies));
        }
    }
    proof {
        let all = replies;
        let p = |j: int| edit_fault(edit_label(list[j]), all[j]) is Some;
        assert forall|j: int| 0 <= j < all.len() implies !#[trigger] p(j) by {
            assert(edit_fault(edit_label(list[j]), replies[j]) is None);
        }
        lemma_first_none(all.len(), p);
    }
    (CheckResult::pass("reassign_consistent", edits_agree_message(edits.len())), Ghost(replies))
}

/// The verdicts on two plain assignments, before the reassignments are looked at.
pub open spec fn repeat_verdict(
    once: Result<Vec<usize>>,
    twice: Result<Vec<usize>>,
) -> Verdict {
    match (once, twice) {
        (Err(e), _) => fails("assigner_runs"@, assigner_failed_text("first"@, e@.message())),
        (_, Err(e)) => fails("assigner_runs"@, assigner_failed_text("second"@, e@.message())),
        (Ok(a), Ok(b)) => if a@ != b@ {
            fails("assigner_deterministic"@, assignments_differ_text())
        } else {
            passes("assigner_deterministic"@, assignments_repeat_text(a@.len() as int))
        },
    }
}

/// The result on two plain assignments.
pub fn assess_repeat(once: &Result<Vec<usize>>, twice: &Result<Vec<usize>>) -> (r: CheckResult)
    ensures
        r@ == repeat_verdict(*once, *twice),
{
    match (once, twice) {
        (Err(e), _) => CheckResult::fail(
            "assigner_runs",
            assigner_failed_message("first", &e.message()),
        ),
        (_, Err(e)) => CheckResult::fail(
            "assigner_runs",
            assigner_failed_message("second", &e.message()),
        ),
        (Ok(a), Ok(b)) => {
            if !same_counts(a.as_slice(), b.as_slice()) {
                CheckResult::fail("assigner_deterministic", assignments_differ_message())
            } else {
                CheckResult::pass(
                    "assigner_deterministic",
                    assignments_repeat_message(a.len()),
                )
            }
        },
    }
}

/// Check an assigner on the given inputs: two plain assignments must agree, and the
/// incremental reassignments must equal a full recompute. `added` are the
/// coordinates of the centre that an edit adds, `moved` those that each centre is
/// moved to. The second assignment is asked for only where the first one succeeded, and
/// the second check is made only where the first one passed.
pub fn check_assigner<A: CellAssigner>(
    assigner: &A,
    x: &Data,
    tessellation: &Tessellation,
    added: &Vec<Binary64>,
    moved: &Vec<Binary64>,
) -> (r: Vec<CheckResult>)
    requires
        tessellation@.mus.len() == tessellation@.n_cells,
        added@.len() == tessellation@.dims.len(),
        moved@.len() == tessellation@.centres.len(),
    ensures
        exists|once: Result<Vec<usize>>, twice: Result<Vec<usize>>| {
            let head = #[trigger] repeat_verdict(once, twice);
            &&& call_ensures(A::assign_cells, (assigner, x, tessellation), once)
            &&& once is Ok ==> call_ensures(A::assign_cells, (assigner, x, tessellation), twice)
            &&& r@.len() == (if head.passed {
                2nat
            } else {
                1nat
            })
            &&& verdicts(r@)[0] == head
            &&& head.passed ==> reassign_outcome(
                verdicts(r@)[1],
                assigner,
                x,
                tessellation,
                added@,
                moved@,
            )
        },
{
    let once = assigner.assign_cells(x, tessellation);
    if once.is_err() {
        let r = only(assess_repeat(&once, &once));
        assert(verdicts(r@)[0] == repeat_verdict(once, once) && r@.len() == 1) by {
            assert(verdicts(r@).len() == r@.len());
        }
        return r;
    }
    let twice = assigner.assign_cells(x, tessellation);
    let head = assess_repeat(&once, &twice);
    let ghost verdict = repeat_verdict(once, twice);
    if !head.passed {
        let r = only(head);
        assert(verdicts(r@)[0] == verdict && r@.len() == 1) by {
            assert(verdicts(r@).len() == r@.len());
        }
        return r;
    }
    let tail = check_reassign_consistency(assigner, x, tessellation, added, moved);
    let ghost second = tail@;
    let r = pair(head, tail);
    assert(verdicts(r@)[0] == verdict && verdicts(r@)[1] == second && r@.len() == 2) by {
        assert(verdicts(r@).len() == r@.len());
    }
    r
}

/// An edit is in order exactly where all three answers came, both reassignments give the
/// cells of a fresh assignment, and the reported keys of the two agree wherever both
/// report one.
pub proof fn edits_pass_exactly_when_the_answers_agree(
    label: &Message,
    reply: &EditReply,
    r: Option<Message>,
)
    requires
        call_ensures(assess_edit, (label, reply), r),
    ensures
        r is None <==> {
            &&& reply.incremental is Ok
            &&& reply.recomputed is Ok
            &&& reply.reference is Ok
            &&& reply.incremental->Ok_0.assignment@ == reply.reference->Ok_0@
            &&& reply.recomputed->Ok_0.assignment@ == reply.reference->Ok_0@
            &&& ({
                let (a, b) = (
                    reply.incremental->Ok_0.best_keys@,
                    reply.recomputed->Ok_0.best_keys@,
                );
                forall|i: int| 0 <= i < a.len() && i < b.len() ==> #[trigger] a[i] == b[i]
            })
        },
{
    if reply.incremental is Ok && reply.recomputed is Ok && reply.reference is Ok {
        let (a, b) = (reply.incremental->Ok_0.best_keys@, reply.recomputed->Ok_0.best_keys@);
        if keys_agree(a, b) {
            assert forall|i: int| 0 <= i < a.len() && i < b.len() implies #[trigger] a[i]
                == b[i] by {}
        }
    }
}

/// An assigner repeats itself exactly where both answers came and are the same cells.
pub proof fn repeats_exactly_when_the_cells_agree(
    once: &Result<Vec<usize>>,
    twice: &Result<Vec<usize>>,
    r: CheckResult,
)
    requires
        call_ensures(assess_repeat, (once, twice), r),
    ensures
        r.passed <==> once is Ok && twice is Ok && once->Ok_0@ == twice->Ok_0@,
{
}

/// The edits that are tried: one centre added behind the others, every centre moved in
/// turn, and, where there are two or more, every centre removed in turn. Each leaves the
/// dimensions and all other centres as they are.
pub proof fn every_centre_is_edited_in_turn(
    t: &Tessellation,
    added: &Vec<Binary64>,
    moved: &Vec<Binary64>,
    r: Vec<Edit>,
    i: int,
)
    requires
        call_ensures(edits_of, (t, added, moved), r),
        0 <= i < t@.n_cells,
    ensures
        r@.len() == (if t@.n_cells >= 2 {
            1 + t@.n_cells + t@.n_cells
        } else {
            1 + t@.n_cells
        }),
        r@[0].delta == AssignmentDelta::CentreAdded,
        r@[0].tessellation@.centres == t@.centres + added@,
        r@[0].tessellation@.mus == t@.mus.push(zero()),
        r@[1 + i].delta == (AssignmentDelta::CentreMoved { index: i as usize }),
        r@[1 + i].tessellation@.mus == t@.mus,
        ({
            let d = t@.dims.len();
            r@[1 + i].tessellation@.centres == t@.centres.take(i * d) + moved@.subrange(
                i * d,
                (i + 1) * d,
            ) + t@.centres.skip((i + 1) * d)
        }),
        t@.n_cells >= 2 ==> {
            let d = t@.dims.len();
            let edit = r@[1 + t@.n_cells + i];
            &&& edit.delta == (AssignmentDelta::CentreRemoved { index: i as usize })
            &&& edit.tessellation@.centres == t@.centres.take(i * d) + t@.centres.skip((i + 1) * d)
            &&& edit.tessellation@.mus == t@.mus.remove(i)
        },
        forall|k: int| 0 <= k < r@.len() ==> (#[trigger] r@[k]).tessellation@.dims == t@.dims,
{
    let list = edit_list(t@.n_cells as nat);
    assert(list[0] == AssignmentDelta::CentreAdded);
    assert(list[1 + i] == AssignmentDelta::CentreMoved { index: i as usize });
    assert(is_edit(r@[0], t@, list[0], added@, moved@));
    assert(is_edit(r@[1 + i], t@, list[1 + i], added@, moved@));
    if t@.n_cells >= 2 {
        let k = 1 + t@.n_cells + i;
        assert(list[k] == AssignmentDelta::CentreRemoved { index: i as usize });
        assert(is_edit(r@[k], t@, list[k], added@, moved@));
    }
    assert forall|k: int| 0 <= k < r@.len() implies (#[trigger] r@[k]).tessellation@.dims
        == t@.dims by {
        assert(is_edit(r@[k], t@, list[k], added@, moved@));
    }
}

/// An assigner is asked for its cells twice; where it repeats itself, the edits are tried
/// too, and it passes on them exactly where the first full recomputation succeeds and no
/// edit shows a difference.
pub proof fn assigner_passes_exactly_when_edits_agree<A: CellAssigner>(
    assigner: &A,
    x: &Data,
    t: &Tessellation,
    added: &Vec<Binary64>,
    moved: &Vec<Binary64>,
    r: Vec<CheckResult>,
)
    requires
        call_ensures(check_assigner::<A>, (assigner, x, t, added, moved), r),
    ensures
        r@.len() == 1 || r@.len() == 2,
        r@.len() == 1 <==> !r@[0].passed,
        exists|once: Result<Vec<usize>>, twice: Result<Vec<usize>>|
            {
                &&& #[trigger] call_ensures(A::assign_cells, (assigner, x, t), once)
                &&& once is Ok ==> #[trigger] call_ensures(A::assign_cells, (assigner, x, t), twice)
                &&& r@[0].passed <==> once is Ok && twice is Ok && once->Ok_0@ == twice->Ok_0@
            },
        r@.len() == 2 ==> exists|run: ReassignRun|
            {
                &&& #[trigger] is_run(run, assigner, x, t, added@, moved@)
                &&& r@[1].passed <==> run.start is Ok && forall|i: int|
                    0 <= i < run.replies.len() ==> {
                        let reply = #[trigger] run.replies[i];
                        &&& reply.incremental is Ok
                        &&& reply.recomputed is Ok
                        &&& reply.reference is Ok
                        &&& reply.incremental->Ok_0.assignment@ == reply.reference->Ok_0@
                        &&& reply.recomputed->Ok_0.assignment@ == reply.reference->Ok_0@
                        &&& keys_agree(
                            reply.incremental->Ok_0.best_keys@,
                            reply.recomputed->Ok_0.best_keys@,
                        )
                    }
                &&& r@[1].passed ==> run.replies.len() == run.edits.len()
            },
{
    lemma_results_pass(r@);
    let (once, twice) = choose|once: Result<Vec<usize>>, twice: Result<Vec<usize>>| {
        let head = #[trigger] repeat_verdict(once, twice);
        &&& call_ensures(A::assign_cells, (assigner, x, t), once)
        &&& once is Ok ==> call_ensures(A::assign_cells, (assigner, x, t), twice)
        &&& r@.len() == (if head.passed {
            2nat
        } else {
            1nat
        })
        &&& verdicts(r@)[0] == head
        &&& head.passed ==> reassign_outcome(verdicts(r@)[1], assigner, x, t, added@, moved@)
    };
    assert(verdicts(r@)[0].passed == r@[0].passed);
    if once is Err {
        assert(call_ensures(A::assign_cells, (assigner, x, t), once));
        assert(r@[0].passed == false);
    }
    if r@.len() == 2 {
        assert(verdicts(r@)[1].passed == r@[1].passed);
        let run = choose|run: ReassignRun|
            #[trigger] is_run(run, assigner, x, t, added@, moved@) && verdicts(r@)[1]
                == run_verdict(run, t@.n_cells as nat);
        let edits = edit_list(t@.n_cells as nat);
        let bad = |i: int| edit_fault(edit_label(edits[i]), run.replies[i]) is Some;
        lemma_first_holds(run.replies.len(), bad);
        assert forall|i: int| 0 <= i < run.replies.len() implies ({
            let reply = #[trigger] run.replies[i];
            &&& reply.incremental is Ok
            &&& reply.recomputed is Ok
            &&& reply.reference is Ok
            &&& reply.incremental->Ok_0.assignment@ == reply.reference->Ok_0@
            &&& reply.recomputed->Ok_0.assignment@ == reply.reference->Ok_0@
            &&& keys_agree(
                reply.incremental->Ok_0.best_keys@,
                reply.recomputed->Ok_0.best_keys@,
            )
        } <==> !bad(i)) by {}
        if first(run.replies.len(), bad) is Some {
            let i = first(run.replies.len(), bad)->0;
            assert(bad(i));
            assert(run.replies[i] == run.replies[i]);
        }
        assert(is_run(run, assigner, x, t, added@, moved@));
    }
}

} // verus!
