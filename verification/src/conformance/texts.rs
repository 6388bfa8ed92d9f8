//! The wording of the conformance verdicts.

use crate::binary64::Binary64;
use crate::message::{text, Message, Style, Text};
use vstd::prelude::*;

verus! {

/// A cell-count ratio is not finite.
pub open spec fn cell_ratio_not_finite_text(count: int, ratio: Binary64) -> Text {
    text("log_cell_count_ratio("@).count(count).text(") is "@).number(ratio, Style::Plain).text(": every adjacent-count ratio must be finite (a non-finite one poisons the acceptance ratio of every add/remove move)"@)
}

/// A cell-count ratio is not finite.
pub(crate) fn cell_ratio_not_finite_message(count: usize, ratio: Binary64) -> (r: Message)
    ensures
        r@ == cell_ratio_not_finite_text(count as int, ratio),
{
    Message::of("log_cell_count_ratio(").count(count).text(") is ").number(ratio, Style::Plain).text(": every adjacent-count ratio must be finite (a non-finite one poisons the acceptance ratio of every add/remove move)")
}

/// All cell-count ratios are finite.
pub open spec fn cell_ratios_finite_text(max_cells: int) -> Text {
    text("log_cell_count_ratio is finite for every cell count 2..="@).count(max_cells)
}

/// All cell-count ratios are finite.
pub(crate) fn cell_ratios_finite_message(max_cells: usize) -> (r: Message)
    ensures
        r@ == cell_ratios_finite_text(max_cells as int),
{
    Message::of("log_cell_count_ratio is finite for every cell count 2..=").count(max_cells)
}

/// There is no dimension-count ratio.
pub open spec fn no_dim_ratios_text(p: int) -> Text {
    text("p = "@).count(p).text(" leaves no adjacent dimension counts to price (nothing to verify)"@)
}

/// There is no dimension-count ratio.
pub(crate) fn no_dim_ratios_message(p: usize) -> (r: Message)
    ensures
        r@ == no_dim_ratios_text(p as int),
{
    Message::of("p = ").count(p).text(" leaves no adjacent dimension counts to price (nothing to verify)")
}

/// A dimension-count ratio is not finite.
pub open spec fn dim_ratio_not_finite_text(count: int, ratio: Binary64) -> Text {
    text("log_dim_count_ratio("@).count(count).text(") is "@).number(ratio, Style::Plain).text(": every adjacent-count ratio must be finite"@)
}

/// A dimension-count ratio is not finite.
pub(crate) fn dim_ratio_not_finite_message(count: usize, ratio: Binary64) -> (r: Message)
    ensures
        r@ == dim_ratio_not_finite_text(count as int, ratio),
{
    Message::of("log_dim_count_ratio(").count(count).text(") is ").number(ratio, Style::Plain).text(": every adjacent-count ratio must be finite")
}

/// All dimension-count ratios are finite.
pub open spec fn dim_ratios_finite_text(p: int) -> Text {
    text("log_dim_count_ratio is finite for every dimension count 2..="@).count(p)
}

/// All dimension-count ratios are finite.
pub(crate) fn dim_ratios_finite_message(p: usize) -> (r: Message)
    ensures
        r@ == dim_ratios_finite_text(p as int),
{
    Message::of("log_dim_count_ratio is finite for every dimension count 2..=").count(p)
}

/// The ratios repeat.
pub open spec fn ratios_pure_text() -> Text {
    text("both hooks return bit-identical ratios when asked twice"@)
}

/// The ratios repeat.
pub(crate) fn ratios_pure_message() -> (r: Message)
    ensures
        r@ == ratios_pure_text(),
{
    Message::of("both hooks return bit-identical ratios when asked twice")
}

/// The ratios do not repeat.
pub open spec fn ratios_impure_text() -> Text {
    text("the hooks returned different bits when asked twice: a count prior must be pure and deterministic (no interior state, no RNG)"@)
}

/// The ratios do not repeat.
pub(crate) fn ratios_impure_message() -> (r: Message)
    ensures
        r@ == ratios_impure_text(),
{
    Message::of("the hooks returned different bits when asked twice: a count prior must be pure and deterministic (no interior state, no RNG)")
}

/// The digest of the ratios.
pub open spec fn ratio_digest_text(cells: int, dims: int, digest: u64) -> Text {
    text("digest of "@).count(cells).text(" cell and "@).count(dims).text(" dimension ratios on this context: "@).hexadecimal(digest).text(". Run the check on every platform you target and compare; a differing digest means un-pinned maths (std f64 transcendentals instead of addivortes::mathsfn) and voids the same-seed reproducibility promise for chains using this prior"@)
}

/// The digest of the ratios.
pub(crate) fn ratio_digest_message(cells: usize, dims: usize, digest: u64) -> (r: Message)
    ensures
        r@ == ratio_digest_text(cells as int, dims as int, digest),
{
    Message::of("digest of ").count(cells).text(" cell and ").count(dims).text(" dimension ratios on this context: ").hexadecimal(digest).text(". Run the check on every platform you target and compare; a differing digest means un-pinned maths (std f64 transcendentals instead of addivortes::mathsfn) and voids the same-seed reproducibility promise for chains using this prior")
}

/// A supplied log-pmf is not finite.
pub open spec fn pmf_not_finite_text(value: Binary64, count: int) -> Text {
    text("the supplied log-pmf is "@).number(value, Style::Plain).text(" at count "@).count(count).text(": it must be finite over the whole domain the sampler can reach"@)
}

/// A supplied log-pmf is not finite.
pub(crate) fn pmf_not_finite_message(value: Binary64, count: usize) -> (r: Message)
    ensures
        r@ == pmf_not_finite_text(value, count as int),
{
    Message::of("the supplied log-pmf is ").number(value, Style::Plain).text(" at count ").count(count).text(": it must be finite over the whole domain the sampler can reach")
}

/// A hook disagrees with the supplied density.
pub open spec fn density_mismatch_text(hook: Seq<char>, count: int, actual: Binary64, expected: Binary64, signed: Binary64) -> Text {
    text(""@).text(hook).text("("@).count(count).text(") returns "@).number(actual, Style::Fixed { digits: 9 }).text(" but the density you supplied implies "@).number(expected, Style::Fixed { digits: 9 }).text(" (out by "@).number(signed, Style::Scientific { digits: 3, signed: true }).text("). The hook must be `log P(n) − log P(n−1)` at the *larger* count. An inverted subtraction, or a ratio taken at the wrong count, lands here."@)
}

/// A hook disagrees with the supplied density.
pub(crate) fn density_mismatch_message(hook: &str, count: usize, actual: Binary64, expected: Binary64, signed: Binary64) -> (r: Message)
    ensures
        r@ == density_mismatch_text(hook@, count as int, actual, expected, signed),
{
    Message::of("").text(hook).text("(").count(count).text(") returns ").number(actual, Style::Fixed { digits: 9 }).text(" but the density you supplied implies ").number(expected, Style::Fixed { digits: 9 }).text(" (out by ").number(signed, Style::Scientific { digits: 3, signed: true }).text("). The hook must be `log P(n) − log P(n−1)` at the *larger* count. An inverted subtraction, or a ratio taken at the wrong count, lands here.")
}

/// A hook agrees with the supplied density.
pub open spec fn density_match_text(hook: Seq<char>, checked: int, error: Binary64) -> Text {
    text(""@).text(hook).text(" matches the supplied density at all "@).count(checked).text(" adjacent counts (worst disagreement "@).number(error, Style::Scientific { digits: 2, signed: false }).text(")"@)
}

/// A hook agrees with the supplied density.
pub(crate) fn density_match_message(hook: &str, checked: usize, error: Binary64) -> (r: Message)
    ensures
        r@ == density_match_text(hook@, checked as int, error),
{
    Message::of("").text(hook).text(" matches the supplied density at all ").count(checked).text(" adjacent counts (worst disagreement ").number(error, Style::Scientific { digits: 2, signed: false }).text(")")
}

/// A hook has nothing to be compared at.
pub open spec fn density_nothing_text(hook: Seq<char>) -> Text {
    text(""@).text(hook).text(" has no adjacent counts to price on this context"@)
}

/// A hook has nothing to be compared at.
pub(crate) fn density_nothing_message(hook: &str) -> (r: Message)
    ensures
        r@ == density_nothing_text(hook@),
{
    Message::of("").text(hook).text(" has no adjacent counts to price on this context")
}

/// A key is not finite.
pub open spec fn key_not_finite_text(row: int, cell: int) -> Text {
    text("the key for observation "@).count(row).text(", centre "@).count(cell).text(" is not finite"@)
}

/// A key is not finite.
pub(crate) fn key_not_finite_message(row: usize, cell: usize) -> (r: Message)
    ensures
        r@ == key_not_finite_text(row as int, cell as int),
{
    Message::of("the key for observation ").count(row).text(", centre ").count(cell).text(" is not finite")
}

/// The keys repeat.
pub open spec fn keys_repeat_text(count: int) -> Text {
    text(""@).count(count).text(" keys bit-identical across two passes"@)
}

/// The keys repeat.
pub(crate) fn keys_repeat_message(count: usize) -> (r: Message)
    ensures
        r@ == keys_repeat_text(count as int),
{
    Message::of("").count(count).text(" keys bit-identical across two passes")
}

/// The keys do not repeat.
pub open spec fn keys_differ_text() -> Text {
    text("two identical passes returned different key bits: the metric has hidden state or nondeterminism, which breaks the reproducibility contract"@)
}

/// The keys do not repeat.
pub(crate) fn keys_differ_message() -> (r: Message)
    ensures
        r@ == keys_differ_text(),
{
    Message::of("two identical passes returned different key bits: the metric has hidden state or nondeterminism, which breaks the reproducibility contract")
}

/// A centre beats an observation's key against itself.
pub open spec fn centre_beats_self_text(cell: int, key: Binary64, row: int, self_key: Binary64) -> Text {
    text("centre "@).count(cell).text(" scores "@).number(key, Style::Scientific { digits: 6, signed: false }).text(" against observation "@).count(row).text(", below the observation's self-key "@).number(self_key, Style::Scientific { digits: 6, signed: false }).text(": the key is not a monotone transform of a distance (inverted sign or wrong direction?)"@)
}

/// A centre beats an observation's key against itself.
pub(crate) fn centre_beats_self_message(cell: usize, key: Binary64, row: usize, self_key: Binary64) -> (r: Message)
    ensures
        r@ == centre_beats_self_text(cell as int, key, row as int, self_key),
{
    Message::of("centre ").count(cell).text(" scores ").number(key, Style::Scientific { digits: 6, signed: false }).text(" against observation ").count(row).text(", below the observation's self-key ").number(self_key, Style::Scientific { digits: 6, signed: false }).text(": the key is not a monotone transform of a distance (inverted sign or wrong direction?)")
}

/// No centre beats an observation's key against itself.
pub open spec fn self_is_minimal_text() -> Text {
    text("no centre beats an observation's key against itself"@)
}

/// No centre beats an observation's key against itself.
pub(crate) fn self_is_minimal_message() -> (r: Message)
    ensures
        r@ == self_is_minimal_text(),
{
    Message::of("no centre beats an observation's key against itself")
}

/// The fast path is claimed wrongly.
pub open spec fn false_fast_path_text(row: int, cell: int, key: Binary64, expected: Binary64) -> Text {
    text("the metric claims the all-Euclidean fast path but its key for observation "@).count(row).text(", centre "@).count(cell).text(" is "@).number(key, Style::Scientific { digits: 6, signed: false }).text(" where the squared-difference sum is "@).number(expected, Style::Scientific { digits: 6, signed: false }).text(": on the fast path the kernel never calls distance(), so this geometry would be SILENTLY replaced by Euclidean"@)
}

/// The fast path is claimed wrongly.
pub(crate) fn false_fast_path_message(row: usize, cell: usize, key: Binary64, expected: Binary64) -> (r: Message)
    ensures
        r@ == false_fast_path_text(row as int, cell as int, key, expected),
{
    Message::of("the metric claims the all-Euclidean fast path but its key for observation ").count(row).text(", centre ").count(cell).text(" is ").number(key, Style::Scientific { digits: 6, signed: false }).text(" where the squared-difference sum is ").number(expected, Style::Scientific { digits: 6, signed: false }).text(": on the fast path the kernel never calls distance(), so this geometry would be SILENTLY replaced by Euclidean")
}

/// The fast path is claimed rightly.
pub open spec fn true_fast_path_text() -> Text {
    text("claimed fast-path keys equal the squared-difference sum bit for bit"@)
}

/// The fast path is claimed rightly.
pub(crate) fn true_fast_path_message() -> (r: Message)
    ensures
        r@ == true_fast_path_text(),
{
    Message::of("claimed fast-path keys equal the squared-difference sum bit for bit")
}

/// The fast path is not claimed.
pub open spec fn no_fast_path_text() -> Text {
    text("the metric does not claim the fast path (nothing to verify)"@)
}

/// The fast path is not claimed.
pub(crate) fn no_fast_path_message() -> (r: Message)
    ensures
        r@ == no_fast_path_text(),
{
    Message::of("the metric does not claim the fast path (nothing to verify)")
}

/// The digest of the keys.
pub open spec fn key_digest_text(count: int, digest: u64) -> Text {
    text("digest of "@).count(count).text(" keys on this fixture: "@).hexadecimal(digest).text(". Run the checks on every platform you target and compare; a differing digest means un-pinned maths (std f64 transcendentals instead of addivortes::mathsfn) and voids the same-seed reproducibility promise for chains using this metric"@)
}

/// The digest of the keys.
pub(crate) fn key_digest_message(count: usize, digest: u64) -> (r: Message)
    ensures
        r@ == key_digest_text(count as int, digest),
{
    Message::of("digest of ").count(count).text(" keys on this fixture: ").hexadecimal(digest).text(". Run the checks on every platform you target and compare; a differing digest means un-pinned maths (std f64 transcendentals instead of addivortes::mathsfn) and voids the same-seed reproducibility promise for chains using this metric")
}

/// A call of the assigner failed.
pub open spec fn assigner_failed_text(label: Seq<char>, error: Text) -> Text {
    text(""@).text(label).text(" call failed: "@).then_text(error)
}

/// A call of the assigner failed.
pub(crate) fn assigner_failed_message(label: &str, error: &Message) -> (r: Message)
    ensures
        r@ == assigner_failed_text(label@, error@),
{
    Message::of("").text(label).text(" call failed: ").then_message(error)
}

/// The assignments do not repeat.
pub open spec fn assignments_differ_text() -> Text {
    text("two identical calls returned different assignments: the metric has hidden state or nondeterminism, which breaks the reproducibility contract"@)
}

/// The assignments do not repeat.
pub(crate) fn assignments_differ_message() -> (r: Message)
    ensures
        r@ == assignments_differ_text(),
{
    Message::of("two identical calls returned different assignments: the metric has hidden state or nondeterminism, which breaks the reproducibility contract")
}

/// The assignments repeat.
pub open spec fn assignments_repeat_text(count: int) -> Text {
    text("two identical calls agreed on all "@).count(count).text(" observations"@)
}

/// The assignments repeat.
pub(crate) fn assignments_repeat_message(count: usize) -> (r: Message)
    ensures
        r@ == assignments_repeat_text(count as int),
{
    Message::of("two identical calls agreed on all ").count(count).text(" observations")
}

/// The full recompute failed.
pub open spec fn recompute_failed_text(error: Text) -> Text {
    text("full recompute failed: "@).then_text(error)
}

/// The full recompute failed.
pub(crate) fn recompute_failed_message(error: &Message) -> (r: Message)
    ensures
        r@ == recompute_failed_text(error@),
{
    Message::of("full recompute failed: ").then_message(error)
}

/// A call for an edit failed.
pub open spec fn edit_failed_text(label: Text, error: Text) -> Text {
    text(""@).then_text(label).text(": reassign failed: "@).then_text(error)
}

/// A call for an edit failed.
pub(crate) fn edit_failed_message(label: &Message, error: &Message) -> (r: Message)
    ensures
        r@ == edit_failed_text(label@, error@),
{
    Message::of("").then_message(label).text(": reassign failed: ").then_message(error)
}

/// The incremental assignment of an edit is wrong.
pub open spec fn edit_stale_text(label: Text) -> Text {
    text(""@).then_text(label).text(": the incremental assignment differs from `assign_cells` on the same tessellation: the reassign fast path is wrong and would silently corrupt the chain"@)
}

/// The incremental assignment of an edit is wrong.
pub(crate) fn edit_stale_message(label: &Message) -> (r: Message)
    ensures
        r@ == edit_stale_text(label@),
{
    Message::of("").then_message(label).text(": the incremental assignment differs from `assign_cells` on the same tessellation: the reassign fast path is wrong and would silently corrupt the chain")
}

/// The full recompute of an edit is wrong.
pub open spec fn edit_split_text(label: Text) -> Text {
    text(""@).then_text(label).text(": `reassign(FullRecompute)` differs from `assign_cells` on the same tessellation: the two paths disagree, so one of them is stale"@)
}

/// The full recompute of an edit is wrong.
pub(crate) fn edit_split_message(label: &Message) -> (r: Message)
    ensures
        r@ == edit_split_text(label@),
{
    Message::of("").then_message(label).text(": `reassign(FullRecompute)` differs from `assign_cells` on the same tessellation: the two paths disagree, so one of them is stale")
}

/// The winning keys of an edit are stale.
pub open spec fn edit_keys_text(label: Text) -> Text {
    text(""@).then_text(label).text(": incremental winning keys are not bit-identical to a fresh recompute: stale keys poison every later incremental step"@)
}

/// The winning keys of an edit are stale.
pub(crate) fn edit_keys_message(label: &Message) -> (r: Message)
    ensures
        r@ == edit_keys_text(label@),
{
    Message::of("").then_message(label).text(": incremental winning keys are not bit-identical to a fresh recompute: stale keys poison every later incremental step")
}

/// All edits agree.
pub open spec fn edits_agree_text(count: int) -> Text {
    text(""@).count(count).text(" delta variants match a full recompute bit for bit"@)
}

/// All edits agree.
pub(crate) fn edits_agree_message(count: usize) -> (r: Message)
    ensures
        r@ == edits_agree_text(count as int),
{
    Message::of("").count(count).text(" delta variants match a full recompute bit for bit")
}

/// The label of an added centre.
pub open spec fn added_label_text() -> Text {
    text("CentreAdded"@)
}

/// The label of an added centre.
pub(crate) fn added_label_message() -> (r: Message)
    ensures
        r@ == added_label_text(),
{
    Message::of("CentreAdded")
}

/// The label of a moved centre.
pub open spec fn moved_label_text(index: int) -> Text {
    text("CentreMoved "@).count(index)
}

/// The label of a moved centre.
pub(crate) fn moved_label_message(index: usize) -> (r: Message)
    ensures
        r@ == moved_label_text(index as int),
{
    Message::of("CentreMoved ").count(index)
}

/// The label of a removed centre.
pub open spec fn removed_label_text(index: int) -> Text {
    text("CentreRemoved "@).count(index)
}

/// The label of a removed centre.
pub(crate) fn removed_label_message(index: usize) -> (r: Message)
    ensures
        r@ == removed_label_text(index as int),
{
    Message::of("CentreRemoved ").count(index)
}

/// The density has no positive finite integral.
pub open spec fn density_not_integrable_text(total: Binary64) -> Text {
    text("exp(log_density) integrated to "@).number(total, Style::Plain).text(" over the sampled range"@)
}

/// The density has no positive finite integral.
pub(crate) fn density_not_integrable_message(total: Binary64) -> (r: Message)
    ensures
        r@ == density_not_integrable_text(total),
{
    Message::of("exp(log_density) integrated to ").number(total, Style::Plain).text(" over the sampled range")
}

/// Sampler and density disagree.
pub open spec fn law_mismatch_text(d_stat: Binary64, threshold: Binary64) -> Text {
    text("KS distance "@).number(d_stat, Style::Fixed { digits: 4 }).text(" exceeds "@).number(threshold, Style::Fixed { digits: 4 }).text(": sample() and log_density() disagree (different family, location, or scale?)"@)
}

/// Sampler and density disagree.
pub(crate) fn law_mismatch_message(d_stat: Binary64, threshold: Binary64) -> (r: Message)
    ensures
        r@ == law_mismatch_text(d_stat, threshold),
{
    Message::of("KS distance ").number(d_stat, Style::Fixed { digits: 4 }).text(" exceeds ").number(threshold, Style::Fixed { digits: 4 }).text(": sample() and log_density() disagree (different family, location, or scale?)")
}

/// Sampler and density agree.
pub open spec fn law_match_text(d_stat: Binary64, threshold: Binary64, n_samples: int) -> Text {
    text("KS distance "@).number(d_stat, Style::Fixed { digits: 4 }).text(" within "@).number(threshold, Style::Fixed { digits: 4 }).text(" over "@).count(n_samples).text(" draws"@)
}

/// Sampler and density agree.
pub(crate) fn law_match_message(d_stat: Binary64, threshold: Binary64, n_samples: usize) -> (r: Message)
    ensures
        r@ == law_match_text(d_stat, threshold, n_samples as int),
{
    Message::of("KS distance ").number(d_stat, Style::Fixed { digits: 4 }).text(" within ").number(threshold, Style::Fixed { digits: 4 }).text(" over ").count(n_samples).text(" draws")
}

/// The number of weights is wrong.
pub open spec fn weights_miscounted_text(found: int, n_covariates: int) -> Text {
    text(""@).count(found).text(" weights for "@).count(n_covariates).text(" covariates"@)
}

/// The number of weights is wrong.
pub(crate) fn weights_miscounted_message(found: usize, n_covariates: usize) -> (r: Message)
    ensures
        r@ == weights_miscounted_text(found as int, n_covariates as int),
{
    Message::of("").count(found).text(" weights for ").count(n_covariates).text(" covariates")
}

/// The number of weights is right.
pub open spec fn weights_counted_text(n_covariates: int) -> Text {
    text("one weight per covariate ("@).count(n_covariates).text(")"@)
}

/// The number of weights is right.
pub(crate) fn weights_counted_message(n_covariates: usize) -> (r: Message)
    ensures
        r@ == weights_counted_text(n_covariates as int),
{
    Message::of("one weight per covariate (").count(n_covariates).text(")")
}

/// A weight is invalid.
pub open spec fn weight_invalid_text(weight: Binary64) -> Text {
    text("weight "@).number(weight, Style::Plain).text(" is not finite and strictly positive"@)
}

/// A weight is invalid.
pub(crate) fn weight_invalid_message(weight: Binary64) -> (r: Message)
    ensures
        r@ == weight_invalid_text(weight),
{
    Message::of("weight ").number(weight, Style::Plain).text(" is not finite and strictly positive")
}

/// All weights are valid.
pub open spec fn weights_valid_text() -> Text {
    text("all weights finite and strictly positive"@)
}

/// All weights are valid.
pub(crate) fn weights_valid_message() -> (r: Message)
    ensures
        r@ == weights_valid_text(),
{
    Message::of("all weights finite and strictly positive")
}

/// All weights are valid after the update.
pub open spec fn weights_still_valid_text(n_covariates: int) -> Text {
    text("all "@).count(n_covariates).text(" weights still finite and strictly positive"@)
}

/// All weights are valid after the update.
pub(crate) fn weights_still_valid_message(n_covariates: usize) -> (r: Message)
    ensures
        r@ == weights_still_valid_text(n_covariates as int),
{
    Message::of("all ").count(n_covariates).text(" weights still finite and strictly positive")
}

/// The update changes the number of weights.
pub open spec fn update_miscounts_text(found: int, n_covariates: int) -> Text {
    text("update returned "@).count(found).text(" weights for "@).count(n_covariates).text(" covariates: the update must preserve one weight per covariate"@)
}

/// The update changes the number of weights.
pub(crate) fn update_miscounts_message(found: usize, n_covariates: usize) -> (r: Message)
    ensures
        r@ == update_miscounts_text(found as int, n_covariates as int),
{
    Message::of("update returned ").count(found).text(" weights for ").count(n_covariates).text(" covariates: the update must preserve one weight per covariate")
}

/// The update makes a weight invalid.
pub open spec fn update_destroys_text(index: int, weight: Binary64) -> Text {
    text("after update, weight "@).count(index).text(" is "@).number(weight, Style::Plain).text(": an inclusion weight must stay finite and strictly positive. The pre-update weights were valid, so the update itself is destroying them."@)
}

/// The update makes a weight invalid.
pub(crate) fn update_destroys_message(index: usize, weight: Binary64) -> (r: Message)
    ensures
        r@ == update_destroys_text(index as int, weight),
{
    Message::of("after update, weight ").count(index).text(" is ").number(weight, Style::Plain).text(": an inclusion weight must stay finite and strictly positive. The pre-update weights were valid, so the update itself is destroying them.")
}

/// The updates repeat.
pub open spec fn updates_repeat_text() -> Text {
    text("two identically-seeded updates produced bit-identical weights"@)
}

/// The updates repeat.
pub(crate) fn updates_repeat_message() -> (r: Message)
    ensures
        r@ == updates_repeat_text(),
{
    Message::of("two identically-seeded updates produced bit-identical weights")
}

/// The updates do not repeat.
pub open spec fn updates_differ_text() -> Text {
    text("two identically-seeded updates produced different weights: the update uses hidden state or entropy outside the RNG it is given, which breaks the reproducibility contract"@)
}

/// The updates do not repeat.
pub(crate) fn updates_differ_message() -> (r: Message)
    ensures
        r@ == updates_differ_text(),
{
    Message::of("two identically-seeded updates produced different weights: the update uses hidden state or entropy outside the RNG it is given, which breaks the reproducibility contract")
}

/// An update failed.
pub open spec fn update_failed_text(error: Text) -> Text {
    text("update failed: "@).then_text(error)
}

/// An update failed.
pub(crate) fn update_failed_message(error: &Message) -> (r: Message)
    ensures
        r@ == update_failed_text(error@),
{
    Message::of("update failed: ").then_message(error)
}

/// The fixture hides the residuals.
pub open spec fn zero_fit_text() -> Text {
    text("the fixture's `fit` is identically zero, so the residual y − fit *is* y and a model scoring the raw response cannot be told apart from one scoring residuals. Supply a non-zero fit."@)
}

/// The fixture hides the residuals.
pub(crate) fn zero_fit_message() -> (r: Message)
    ensures
        r@ == zero_fit_text(),
{
    Message::of("the fixture's `fit` is identically zero, so the residual y − fit *is* y and a model scoring the raw response cannot be told apart from one scoring residuals. Supply a non-zero fit.")
}

/// The scale follows the residuals.
pub open spec fn scale_responds_text(base: Binary64, loud: Binary64) -> Text {
    text("fourfold residuals raise σ² from "@).number(base, Style::Scientific { digits: 6, signed: false }).text(" to "@).number(loud, Style::Scientific { digits: 6, signed: false })
}

/// The scale follows the residuals.
pub(crate) fn scale_responds_message(base: Binary64, loud: Binary64) -> (r: Message)
    ensures
        r@ == scale_responds_text(base, loud),
{
    Message::of("fourfold residuals raise σ² from ").number(base, Style::Scientific { digits: 6, signed: false }).text(" to ").number(loud, Style::Scientific { digits: 6, signed: false })
}

/// The scale does not follow the residuals.
pub open spec fn scale_deaf_text(base: Binary64, loud: Binary64) -> Text {
    text("fourfold residuals moved σ² from "@).number(base, Style::Scientific { digits: 6, signed: false }).text(" to "@).number(loud, Style::Scientific { digits: 6, signed: false }).text(", which is not an increase. A model that ignores the data and returns prior draws lands exactly here, and it is finite, positive and perfectly deterministic, so every other scale check passes it. So does an update whose sense is inverted."@)
}

/// The scale does not follow the residuals.
pub(crate) fn scale_deaf_message(base: Binary64, loud: Binary64) -> (r: Message)
    ensures
        r@ == scale_deaf_text(base, loud),
{
    Message::of("fourfold residuals moved σ² from ").number(base, Style::Scientific { digits: 6, signed: false }).text(" to ").number(loud, Style::Scientific { digits: 6, signed: false }).text(", which is not an increase. A model that ignores the data and returns prior draws lands exactly here, and it is finite, positive and perfectly deterministic, so every other scale check passes it. So does an update whose sense is inverted.")
}

/// The scale reads residuals.
pub open spec fn scale_shift_free_text(base: Binary64) -> Text {
    text("shifting y and fit together by 0.75 leaves σ² unchanged ("@).number(base, Style::Scientific { digits: 6, signed: false }).text("): the update scores residuals, not the raw response"@)
}

/// The scale reads residuals.
pub(crate) fn scale_shift_free_message(base: Binary64) -> (r: Message)
    ensures
        r@ == scale_shift_free_text(base),
{
    Message::of("shifting y and fit together by 0.75 leaves σ² unchanged (").number(base, Style::Scientific { digits: 6, signed: false }).text("): the update scores residuals, not the raw response")
}

/// The scale reads the raw response.
pub open spec fn scale_shifts_text(base: Binary64, shifted: Binary64) -> Text {
    text("shifting y and fit together by 0.75 moved σ² from "@).number(base, Style::Scientific { digits: 6, signed: false }).text(" to "@).number(shifted, Style::Scientific { digits: 6, signed: false }).text(". The residuals y − fit are unchanged, so σ² must not move: the update is scoring the raw response somewhere it should be scoring the residual. That bug responds to the data perfectly well, so the residual-magnitude probe does not see it."@)
}

/// The scale reads the raw response.
pub(crate) fn scale_shifts_message(base: Binary64, shifted: Binary64) -> (r: Message)
    ensures
        r@ == scale_shifts_text(base, shifted),
{
    Message::of("shifting y and fit together by 0.75 moved σ² from ").number(base, Style::Scientific { digits: 6, signed: false }).text(" to ").number(shifted, Style::Scientific { digits: 6, signed: false }).text(". The residuals y − fit are unchanged, so σ² must not move: the update is scoring the raw response somewhere it should be scoring the residual. That bug responds to the data perfectly well, so the residual-magnitude probe does not see it.")
}

/// The scale is valid.
pub open spec fn sigma_sq_valid_text(sigma_sq: Binary64) -> Text {
    text("sigma_sq "@).number(sigma_sq, Style::Plain).text(" is finite and strictly positive after update"@)
}

/// The scale is valid.
pub(crate) fn sigma_sq_valid_message(sigma_sq: Binary64) -> (r: Message)
    ensures
        r@ == sigma_sq_valid_text(sigma_sq),
{
    Message::of("sigma_sq ").number(sigma_sq, Style::Plain).text(" is finite and strictly positive after update")
}

/// The scale is invalid.
pub open spec fn sigma_sq_invalid_text(sigma_sq: Binary64) -> Text {
    text("sigma_sq "@).number(sigma_sq, Style::Plain).text(" after update: must be finite and strictly positive (the sampler release-asserts this every sweep)"@)
}

/// The scale is invalid.
pub(crate) fn sigma_sq_invalid_message(sigma_sq: Binary64) -> (r: Message)
    ensures
        r@ == sigma_sq_invalid_text(sigma_sq),
{
    Message::of("sigma_sq ").number(sigma_sq, Style::Plain).text(" after update: must be finite and strictly positive (the sampler release-asserts this every sweep)")
}

/// There are no precisions.
pub open spec fn no_precisions_text() -> Text {
    text("no per-observation precisions (homoscedastic model)"@)
}

/// There are no precisions.
pub(crate) fn no_precisions_message() -> (r: Message)
    ensures
        r@ == no_precisions_text(),
{
    Message::of("no per-observation precisions (homoscedastic model)")
}

/// The number of precisions is wrong.
pub open spec fn precisions_miscounted_text(found: int, n: int) -> Text {
    text(""@).count(found).text(" precisions for "@).count(n).text(" observations"@)
}

/// The number of precisions is wrong.
pub(crate) fn precisions_miscounted_message(found: usize, n: usize) -> (r: Message)
    ensures
        r@ == precisions_miscounted_text(found as int, n as int),
{
    Message::of("").count(found).text(" precisions for ").count(n).text(" observations")
}

/// A precision is invalid.
pub open spec fn precision_invalid_text(precision: Binary64) -> Text {
    text("precision "@).number(precision, Style::Plain).text(" is not finite and strictly positive"@)
}

/// A precision is invalid.
pub(crate) fn precision_invalid_message(precision: Binary64) -> (r: Message)
    ensures
        r@ == precision_invalid_text(precision),
{
    Message::of("precision ").number(precision, Style::Plain).text(" is not finite and strictly positive")
}

/// All precisions are valid.
pub open spec fn precisions_valid_text(n: int) -> Text {
    text(""@).count(n).text(" precisions, all finite and strictly positive"@)
}

/// All precisions are valid.
pub(crate) fn precisions_valid_message(n: usize) -> (r: Message)
    ensures
        r@ == precisions_valid_text(n as int),
{
    Message::of("").count(n).text(" precisions, all finite and strictly positive")
}

/// The updates repeat.
pub open spec fn scales_repeat_text() -> Text {
    text("two identically-seeded updates produced bit-identical σ² and precisions"@)
}

/// The updates repeat.
pub(crate) fn scales_repeat_message() -> (r: Message)
    ensures
        r@ == scales_repeat_text(),
{
    Message::of("two identically-seeded updates produced bit-identical σ² and precisions")
}

/// The updates do not repeat.
pub open spec fn scales_differ_text() -> Text {
    text("two identically-seeded updates disagree: the update uses hidden state or entropy outside the RNG it is given, which breaks the reproducibility contract"@)
}

/// The updates do not repeat.
pub(crate) fn scales_differ_message() -> (r: Message)
    ensures
        r@ == scales_differ_text(),
{
    Message::of("two identically-seeded updates disagree: the update uses hidden state or entropy outside the RNG it is given, which breaks the reproducibility contract")
}

/// The basis writes nothing.
pub open spec fn basis_empty_text() -> Text {
    text("q() is 0: a basis writes at least one value per row (an intercept is q = 1)"@)
}

/// The basis writes nothing.
pub(crate) fn basis_empty_message() -> (r: Message)
    ensures
        r@ == basis_empty_text(),
{
    Message::of("q() is 0: a basis writes at least one value per row (an intercept is q = 1)")
}

/// A basis row is not written whole.
pub open spec fn basis_unwritten_text(entry: int, row: int, value: Binary64, q: int) -> Text {
    text("z(x) entry "@).count(entry).text(" of row "@).count(row).text(" is "@).number(value, Style::Plain).text(": `row` must write all "@).count(q).text(" entries with finite values. The engine hands you an already-sized buffer and trusts you to fill it; an entry you never write keeps whatever was there before."@)
}

/// A basis row is not written whole.
pub(crate) fn basis_unwritten_message(entry: usize, row: usize, value: Binary64, q: usize) -> (r: Message)
    ensures
        r@ == basis_unwritten_text(entry as int, row as int, value, q as int),
{
    Message::of("z(x) entry ").count(entry).text(" of row ").count(row).text(" is ").number(value, Style::Plain).text(": `row` must write all ").count(q).text(" entries with finite values. The engine hands you an already-sized buffer and trusts you to fill it; an entry you never write keeps whatever was there before.")
}

/// Every basis row is written whole.
pub open spec fn basis_written_text(q: int) -> Text {
    text("every row writes all q = "@).count(q).text(" entries, all finite"@)
}

/// Every basis row is written whole.
pub(crate) fn basis_written_message(q: usize) -> (r: Message)
    ensures
        r@ == basis_written_text(q as int),
{
    Message::of("every row writes all q = ").count(q).text(" entries, all finite")
}

/// The basis rows repeat.
pub open spec fn rows_repeat_text() -> Text {
    text("the same design row gives a bit-identical basis row when asked twice"@)
}

/// The basis rows repeat.
pub(crate) fn rows_repeat_message() -> (r: Message)
    ensures
        r@ == rows_repeat_text(),
{
    Message::of("the same design row gives a bit-identical basis row when asked twice")
}

/// The basis rows do not repeat.
pub open spec fn rows_differ_text() -> Text {
    text("the same design row gave different basis rows on two calls: a CellBasis must be pure. The engine evaluates z(x) once per fit and again per row at predict time, so interior state makes prediction disagree with training."@)
}

/// The basis rows do not repeat.
pub(crate) fn rows_differ_message() -> (r: Message)
    ensures
        r@ == rows_differ_text(),
{
    Message::of("the same design row gave different basis rows on two calls: a CellBasis must be pure. The engine evaluates z(x) once per fit and again per row at predict time, so interior state makes prediction disagree with training.")
}

/// No column beyond the declared one is read.
pub open spec fn columns_within_text(max: int) -> Text {
    text("declares max_column() = "@).count(max).text(", and no column beyond it changes z(x)"@)
}

/// No column beyond the declared one is read.
pub(crate) fn columns_within_message(max: usize) -> (r: Message)
    ensures
        r@ == columns_within_text(max as int),
{
    Message::of("declares max_column() = ").count(max).text(", and no column beyond it changes z(x)")
}

/// No column is read, as declared.
pub open spec fn columns_none_text() -> Text {
    text("declares max_column() = None, and no column changes z(x) (a pure intercept)"@)
}

/// No column is read, as declared.
pub(crate) fn columns_none_message() -> (r: Message)
    ensures
        r@ == columns_none_text(),
{
    Message::of("declares max_column() = None, and no column changes z(x) (a pure intercept)")
}

/// Columns beyond the declared one are read.
pub open spec fn columns_beyond_some_text(columns: Seq<usize>, max: int) -> Text {
    text("z(x) changes with column(s) "@).counts(columns).text(", but max_column() declares Some("@).count(max).text("). The engine bounds-checks that claim against the design exactly once and then trusts it, so an under-declared basis passes `fit` and then indexes out of range in the hot loop. Declare the largest column you read (over-declaring is safe)."@)
}

/// Columns beyond the declared one are read.
pub(crate) fn columns_beyond_some_message(columns: &[usize], max: usize) -> (r: Message)
    ensures
        r@ == columns_beyond_some_text(columns@, max as int),
{
    Message::of("z(x) changes with column(s) ").counts(columns).text(", but max_column() declares Some(").count(max).text("). The engine bounds-checks that claim against the design exactly once and then trusts it, so an under-declared basis passes `fit` and then indexes out of range in the hot loop. Declare the largest column you read (over-declaring is safe).")
}

/// Columns are read though none is declared.
pub open spec fn columns_beyond_none_text(columns: Seq<usize>) -> Text {
    text("z(x) changes with column(s) "@).counts(columns).text(", but max_column() declares None. The engine bounds-checks that claim against the design exactly once and then trusts it, so an under-declared basis passes `fit` and then indexes out of range in the hot loop. Declare the largest column you read (over-declaring is safe)."@)
}

/// Columns are read though none is declared.
pub(crate) fn columns_beyond_none_message(columns: &[usize]) -> (r: Message)
    ensures
        r@ == columns_beyond_none_text(columns@),
{
    Message::of("z(x) changes with column(s) ").counts(columns).text(", but max_column() declares None. The engine bounds-checks that claim against the design exactly once and then trusts it, so an under-declared basis passes `fit` and then indexes out of range in the hot loop. Declare the largest column you read (over-declaring is safe).")
}

/// The digest of the basis rows.
pub open spec fn row_digest_text(count: int, digest: u64) -> Text {
    text("digest of "@).count(count).text(" basis values on this fixture: "@).hexadecimal(digest).text(". Run the check on every platform you target and compare; a differing digest means un-pinned maths (std f64 transcendentals instead of addivortes::mathsfn) and voids the same-seed reproducibility promise for chains using this basis"@)
}

/// The digest of the basis rows.
pub(crate) fn row_digest_message(count: usize, digest: u64) -> (r: Message)
    ensures
        r@ == row_digest_text(count as int, digest),
{
    Message::of("digest of ").count(count).text(" basis values on this fixture: ").hexadecimal(digest).text(". Run the check on every platform you target and compare; a differing digest means un-pinned maths (std f64 transcendentals instead of addivortes::mathsfn) and voids the same-seed reproducibility promise for chains using this basis")
}

/// An augmentation failed.
pub open spec fn augment_failed_text(error: Text) -> Text {
    text("augment failed: "@).then_text(error)
}

/// An augmentation failed.
pub(crate) fn augment_failed_message(error: &Message) -> (r: Message)
    ensures
        r@ == augment_failed_text(error@),
{
    Message::of("augment failed: ").then_message(error)
}

/// A working response is not finite.
pub open spec fn working_bad_text(index: int, value: Binary64) -> Text {
    text("working["@).count(index).text("] is "@).number(value, Style::Plain).text(" after augment: every entry must be written and finite (the kernel regresses on this response directly)"@)
}

/// A working response is not finite.
pub(crate) fn working_bad_message(index: usize, value: Binary64) -> (r: Message)
    ensures
        r@ == working_bad_text(index as int, value),
{
    Message::of("working[").count(index).text("] is ").number(value, Style::Plain).text(" after augment: every entry must be written and finite (the kernel regresses on this response directly)")
}

/// All working responses are finite.
pub open spec fn working_good_text(n: int) -> Text {
    text("all "@).count(n).text(" working-response entries are written and finite"@)
}

/// All working responses are finite.
pub(crate) fn working_good_message(n: usize) -> (r: Message)
    ensures
        r@ == working_good_text(n as int),
{
    Message::of("all ").count(n).text(" working-response entries are written and finite")
}

/// A response weight is invalid.
pub open spec fn response_weight_bad_text(index: int, value: Binary64) -> Text {
    text("weights["@).count(index).text("] is "@).number(value, Style::Plain).text(": every weight must be finite and strictly positive (a zero weight silently drops an observation; a negative one corrupts the cell sufficient statistics)"@)
}

/// A response weight is invalid.
pub(crate) fn response_weight_bad_message(index: usize, value: Binary64) -> (r: Message)
    ensures
        r@ == response_weight_bad_text(index as int, value),
{
    Message::of("weights[").count(index).text("] is ").number(value, Style::Plain).text(": every weight must be finite and strictly positive (a zero weight silently drops an observation; a negative one corrupts the cell sufficient statistics)")
}

/// All response weights are one.
pub open spec fn unit_weights_text(n: int) -> Text {
    text("all "@).count(n).text(" weights are exactly 1: an unweighted step, which pairs with any cell model and the unweighted sigma^2 draw"@)
}

/// All response weights are one.
pub(crate) fn unit_weights_message(n: usize) -> (r: Message)
    ensures
        r@ == unit_weights_text(n as int),
{
    Message::of("all ").count(n).text(" weights are exactly 1: an unweighted step, which pairs with any cell model and the unweighted sigma^2 draw")
}

/// Some response weights are not one.
pub open spec fn other_weights_text(n: int) -> Text {
    text("all "@).count(n).text(" weights are finite and strictly positive, and are NOT all 1: this step must be paired with a weight-aware cell model (WeightedGaussianModel) and a precision-weighted sigma^2 draw (WeightedGlobalSigma), or the ensemble accumulates with weights the variance draw never sees"@)
}

/// Some response weights are not one.
pub(crate) fn other_weights_message(n: usize) -> (r: Message)
    ensures
        r@ == other_weights_text(n as int),
{
    Message::of("all ").count(n).text(" weights are finite and strictly positive, and are NOT all 1: this step must be paired with a weight-aware cell model (WeightedGaussianModel) and a precision-weighted sigma^2 draw (WeightedGlobalSigma), or the ensemble accumulates with weights the variance draw never sees")
}

/// The augmentations repeat.
pub open spec fn augments_repeat_text() -> Text {
    text("two identically-seeded augmentations agree bit for bit"@)
}

/// The augmentations repeat.
pub(crate) fn augments_repeat_message() -> (r: Message)
    ensures
        r@ == augments_repeat_text(),
{
    Message::of("two identically-seeded augmentations agree bit for bit")
}

/// The augmentations do not repeat.
pub open spec fn augments_differ_text() -> Text {
    text("two identically-seeded augmentations differ: the step draws from a source other than the handed RNG (interior state, or a thread-local/system RNG), which voids the same-seed reproducibility promise"@)
}

/// The augmentations do not repeat.
pub(crate) fn augments_differ_message() -> (r: Message)
    ensures
        r@ == augments_differ_text(),
{
    Message::of("two identically-seeded augmentations differ: the step draws from a source other than the handed RNG (interior state, or a thread-local/system RNG), which voids the same-seed reproducibility promise")
}

/// A membership weight is invalid.
pub open spec fn membership_weight_bad_text(index: int, value: Binary64) -> Text {
    text("weights["@).count(index).text("] is "@).number(value, Style::Plain).text(": every membership weight must be written, finite and >= 0"@)
}

/// A membership weight is invalid.
pub(crate) fn membership_weight_bad_message(index: usize, value: Binary64) -> (r: Message)
    ensures
        r@ == membership_weight_bad_text(index as int, value),
{
    Message::of("weights[").count(index).text("] is ").number(value, Style::Plain).text(": every membership weight must be written, finite and >= 0")
}

/// All membership weights are valid.
pub open spec fn membership_weights_good_text(k: int) -> Text {
    text("all "@).count(k).text(" membership weights are written, finite and >= 0"@)
}

/// All membership weights are valid.
pub(crate) fn membership_weights_good_message(k: usize) -> (r: Message)
    ensures
        r@ == membership_weights_good_text(k as int),
{
    Message::of("all ").count(k).text(" membership weights are written, finite and >= 0")
}

/// The row carries mass.
pub open spec fn row_has_mass_text(mass: Binary64) -> Text {
    text("the row carries strictly positive total mass ("@).number(mass, Style::Exponent).text(")"@)
}

/// The row carries mass.
pub(crate) fn row_has_mass_message(mass: Binary64) -> (r: Message)
    ensures
        r@ == row_has_mass_text(mass),
{
    Message::of("the row carries strictly positive total mass (").number(mass, Style::Exponent).text(")")
}

/// The row carries no mass.
pub open spec fn row_without_mass_text() -> Text {
    text("the row's total membership mass is not strictly positive: the engine normalises by it, so this row has no representable membership at all"@)
}

/// The row carries no mass.
pub(crate) fn row_without_mass_message() -> (r: Message)
    ensures
        r@ == row_without_mass_text(),
{
    Message::of("the row's total membership mass is not strictly positive: the engine normalises by it, so this row has no representable membership at all")
}

/// The weights repeat.
pub open spec fn weights_repeat_text() -> Text {
    text("two calls on the same keys agree bit for bit"@)
}

/// The weights repeat.
pub(crate) fn weights_repeat_message() -> (r: Message)
    ensures
        r@ == weights_repeat_text(),
{
    Message::of("two calls on the same keys agree bit for bit")
}

/// The weights do not repeat.
pub open spec fn weights_differ_text() -> Text {
    text("two calls on the same keys differ: the kernel must be pure, with no interior state and no RNG (randomised membership is the out-of-scope latent-categorical formulation)"@)
}

/// The weights do not repeat.
pub(crate) fn weights_differ_message() -> (r: Message)
    ensures
        r@ == weights_differ_text(),
{
    Message::of("two calls on the same keys differ: the kernel must be pure, with no interior state and no RNG (randomised membership is the out-of-scope latent-categorical formulation)")
}

/// A distant row carries mass.
pub open spec fn distant_mass_text(mass: Binary64) -> Text {
    text("a row 1000 further from every centre still carries positive mass ("@).number(mass, Style::Exponent).text(")"@)
}

/// A distant row carries mass.
pub(crate) fn distant_mass_message(mass: Binary64) -> (r: Message)
    ensures
        r@ == distant_mass_text(mass),
{
    Message::of("a row 1000 further from every centre still carries positive mass (").number(mass, Style::Exponent).text(")")
}

/// A distant row carries no mass.
pub open spec fn distant_collapse_text(mass: Binary64) -> Text {
    text("a row 1000 further from every centre collapsed to "@).number(mass, Style::Plain).text(" total mass: an exponentiating kernel must subtract the row's best key before exponentiating (as SoftmaxKernel does), or a distant observation underflows the whole row and the guard rejects structures it should accept"@)
}

/// A distant row carries no mass.
pub(crate) fn distant_collapse_message(mass: Binary64) -> (r: Message)
    ensures
        r@ == distant_collapse_text(mass),
{
    Message::of("a row 1000 further from every centre collapsed to ").number(mass, Style::Plain).text(" total mass: an exponentiating kernel must subtract the row's best key before exponentiating (as SoftmaxKernel does), or a distant observation underflows the whole row and the guard rejects structures it should accept")
}

/// The weights fall with the key.
pub open spec fn weights_monotone_text() -> Text {
    text("a nearer cell never receives less weight than a further one"@)
}

/// The weights fall with the key.
pub(crate) fn weights_monotone_message() -> (r: Message)
    ensures
        r@ == weights_monotone_text(),
{
    Message::of("a nearer cell never receives less weight than a further one")
}

/// A nearer cell receives less weight.
pub open spec fn weights_inverted_text(near: int, far: int, near_key: Binary64, far_key: Binary64, near_weight: Binary64, far_weight: Binary64) -> Text {
    text("cell "@).count(near).text(" is nearer than cell "@).count(far).text(" (key "@).number(near_key, Style::Scientific { digits: 6, signed: false }).text(" < "@).number(far_key, Style::Scientific { digits: 6, signed: false }).text(") but receives less weight ("@).number(near_weight, Style::Scientific { digits: 6, signed: false }).text(" < "@).number(far_weight, Style::Scientific { digits: 6, signed: false }).text("): the kernel must be decreasing in the key. A flipped sign (exp(+d²/τ) for exp(−d²/τ)) passes every other check here."@)
}

/// A nearer cell receives less weight.
pub(crate) fn weights_inverted_message(near: usize, far: usize, near_key: Binary64, far_key: Binary64, near_weight: Binary64, far_weight: Binary64) -> (r: Message)
    ensures
        r@ == weights_inverted_text(near as int, far as int, near_key, far_key, near_weight, far_weight),
{
    Message::of("cell ").count(near).text(" is nearer than cell ").count(far).text(" (key ").number(near_key, Style::Scientific { digits: 6, signed: false }).text(" < ").number(far_key, Style::Scientific { digits: 6, signed: false }).text(") but receives less weight (").number(near_weight, Style::Scientific { digits: 6, signed: false }).text(" < ").number(far_weight, Style::Scientific { digits: 6, signed: false }).text("): the kernel must be decreasing in the key. A flipped sign (exp(+d²/τ) for exp(−d²/τ)) passes every other check here.")
}

/// The weights follow their keys.
pub open spec fn weights_equivariant_text(k: int) -> Text {
    text("relabelling the "@).count(k).text(" cells permutes the normalised weights identically"@)
}

/// The weights follow their keys.
pub(crate) fn weights_equivariant_message(k: usize) -> (r: Message)
    ensures
        r@ == weights_equivariant_text(k as int),
{
    Message::of("relabelling the ").count(k).text(" cells permutes the normalised weights identically")
}

/// A weight follows its position.
pub open spec fn weights_positional_text(index: int, base: Binary64, reversed: Binary64) -> Text {
    text("reversing the key order moved normalised weight "@).count(index).text(" from "@).number(base, Style::Scientific { digits: 6, signed: false }).text(" to "@).number(reversed, Style::Scientific { digits: 6, signed: false }).text(": the kernel is reading a cell's *position* in the row, not its key. Cells carry no identity, and the engine may present them in any order."@)
}

/// A weight follows its position.
pub(crate) fn weights_positional_message(index: usize, base: Binary64, reversed: Binary64) -> (r: Message)
    ensures
        r@ == weights_positional_text(index as int, base, reversed),
{
    Message::of("reversing the key order moved normalised weight ").count(index).text(" from ").number(base, Style::Scientific { digits: 6, signed: false }).text(" to ").number(reversed, Style::Scientific { digits: 6, signed: false }).text(": the kernel is reading a cell's *position* in the row, not its key. Cells carry no identity, and the engine may present them in any order.")
}

/// A row lost its mass.
pub open spec fn equivariance_lost_text() -> Text {
    text("a row lost all its mass, so equivariance could not be assessed"@)
}

/// A row lost its mass.
pub(crate) fn equivariance_lost_message() -> (r: Message)
    ensures
        r@ == equivariance_lost_text(),
{
    Message::of("a row lost all its mass, so equivariance could not be assessed")
}

/// The digest of the weights.
pub open spec fn weight_digest_text(k: int, digest: u64) -> Text {
    text("digest of "@).count(k).text(" weights on this fixture: "@).hexadecimal(digest).text(". Run the check on every platform you target and compare; a differing digest means un-pinned maths (std f64 transcendentals instead of addivortes::mathsfn) and voids the same-seed reproducibility promise for chains using this kernel"@)
}

/// The digest of the weights.
pub(crate) fn weight_digest_message(k: usize, digest: u64) -> (r: Message)
    ensures
        r@ == weight_digest_text(k as int, digest),
{
    Message::of("digest of ").count(k).text(" weights on this fixture: ").hexadecimal(digest).text(". Run the check on every platform you target and compare; a differing digest means un-pinned maths (std f64 transcendentals instead of addivortes::mathsfn) and voids the same-seed reproducibility promise for chains using this kernel")
}

/// The marginal does not depend on the order.
pub open spec fn order_invariant_text(a: Binary64) -> Text {
    text("marginal terms agree under reversed accumulation ("@).number(a, Style::Scientific { digits: 6, signed: false }).text(")"@)
}

/// The marginal does not depend on the order.
pub(crate) fn order_invariant_message(a: Binary64) -> (r: Message)
    ensures
        r@ == order_invariant_text(a),
{
    Message::of("marginal terms agree under reversed accumulation (").number(a, Style::Scientific { digits: 6, signed: false }).text(")")
}

/// The marginal depends on the order.
pub open spec fn order_dependent_text(a: Binary64, b: Binary64) -> Text {
    text("marginal terms differ under reversed accumulation ("@).number(a, Style::Scientific { digits: 6, signed: false }).text(" vs "@).number(b, Style::Scientific { digits: 6, signed: false }).text("): the statistic is not sufficient (it depends on observation order)"@)
}

/// The marginal depends on the order.
pub(crate) fn order_dependent_message(a: Binary64, b: Binary64) -> (r: Message)
    ensures
        r@ == order_dependent_text(a, b),
{
    Message::of("marginal terms differ under reversed accumulation (").number(a, Style::Scientific { digits: 6, signed: false }).text(" vs ").number(b, Style::Scientific { digits: 6, signed: false }).text("): the statistic is not sufficient (it depends on observation order)")
}

/// The block marginal depends on the order.
pub open spec fn block_order_dependent_text(a: Binary64, b: Binary64) -> Text {
    text("marginal terms differ under reversed accumulation ("@).number(a, Style::Scientific { digits: 6, signed: false }).text(" vs "@).number(b, Style::Scientific { digits: 6, signed: false }).text("): the block statistic is not sufficient"@)
}

/// The block marginal depends on the order.
pub(crate) fn block_order_dependent_message(a: Binary64, b: Binary64) -> (r: Message)
    ensures
        r@ == block_order_dependent_text(a, b),
{
    Message::of("marginal terms differ under reversed accumulation (").number(a, Style::Scientific { digits: 6, signed: false }).text(" vs ").number(b, Style::Scientific { digits: 6, signed: false }).text("): the block statistic is not sufficient")
}

/// The marginal failed.
pub open spec fn marginal_failed_text(error: Text) -> Text {
    text("log_marginal_terms failed: "@).then_text(error)
}

/// The marginal failed.
pub(crate) fn marginal_failed_message(error: &Message) -> (r: Message)
    ensures
        r@ == marginal_failed_text(error@),
{
    Message::of("log_marginal_terms failed: ").then_message(error)
}

/// Merging and removing are consistent.
pub open spec fn merge_consistent_text() -> Text {
    text("merge equals sequential accumulation and remove undoes merge"@)
}

/// Merging and removing are consistent.
pub(crate) fn merge_consistent_message() -> (r: Message)
    ensures
        r@ == merge_consistent_text(),
{
    Message::of("merge equals sequential accumulation and remove undoes merge")
}

/// Removing does not undo merging.
pub open spec fn remove_wrong_text() -> Text {
    text("remove does not undo merge: the subtract path of the sufficient statistic is wrong"@)
}

/// Removing does not undo merging.
pub(crate) fn remove_wrong_message() -> (r: Message)
    ensures
        r@ == remove_wrong_text(),
{
    Message::of("remove does not undo merge: the subtract path of the sufficient statistic is wrong")
}

/// Removing does not undo merging blocks.
pub open spec fn block_remove_wrong_text() -> Text {
    text("remove does not undo merge: the subtract path of the block statistic is wrong"@)
}

/// Removing does not undo merging blocks.
pub(crate) fn block_remove_wrong_message() -> (r: Message)
    ensures
        r@ == block_remove_wrong_text(),
{
    Message::of("remove does not undo merge: the subtract path of the block statistic is wrong")
}

/// Merging differs from accumulation.
pub open spec fn merge_wrong_text(a: Binary64, b: Binary64) -> Text {
    text("merging two partial accumulations gives "@).number(a, Style::Scientific { digits: 6, signed: false }).text(" but sequential accumulation gives "@).number(b, Style::Scientific { digits: 6, signed: false }).text(": the add path of the sufficient statistic is wrong (double-counting or dropped terms?)"@)
}

/// Merging differs from accumulation.
pub(crate) fn merge_wrong_message(a: Binary64, b: Binary64) -> (r: Message)
    ensures
        r@ == merge_wrong_text(a, b),
{
    Message::of("merging two partial accumulations gives ").number(a, Style::Scientific { digits: 6, signed: false }).text(" but sequential accumulation gives ").number(b, Style::Scientific { digits: 6, signed: false }).text(": the add path of the sufficient statistic is wrong (double-counting or dropped terms?)")
}

/// Merging blocks differs from accumulation.
pub open spec fn block_merge_wrong_text(a: Binary64, b: Binary64) -> Text {
    text("merging two partial accumulations gives "@).number(a, Style::Scientific { digits: 6, signed: false }).text(" but sequential accumulation gives "@).number(b, Style::Scientific { digits: 6, signed: false }).text(": the add path of the block statistic is wrong"@)
}

/// Merging blocks differs from accumulation.
pub(crate) fn block_merge_wrong_message(a: Binary64, b: Binary64) -> (r: Message)
    ensures
        r@ == block_merge_wrong_text(a, b),
{
    Message::of("merging two partial accumulations gives ").number(a, Style::Scientific { digits: 6, signed: false }).text(" but sequential accumulation gives ").number(b, Style::Scientific { digits: 6, signed: false }).text(": the add path of the block statistic is wrong")
}

/// The Bayes factor matches.
pub open spec fn bayes_match_text(claimed: Binary64, estimate: Binary64) -> Text {
    text("claimed 2-vs-1-cell log Bayes factor "@).number(claimed, Style::Fixed { digits: 4 }).text(" matches the Monte-Carlo estimate "@).number(estimate, Style::Fixed { digits: 4 })
}

/// The Bayes factor matches.
pub(crate) fn bayes_match_message(claimed: Binary64, estimate: Binary64) -> (r: Message)
    ensures
        r@ == bayes_match_text(claimed, estimate),
{
    Message::of("claimed 2-vs-1-cell log Bayes factor ").number(claimed, Style::Fixed { digits: 4 }).text(" matches the Monte-Carlo estimate ").number(estimate, Style::Fixed { digits: 4 })
}

/// The Bayes factor of a mean family is off.
pub open spec fn bayes_mismatch_mean_text(claimed: Binary64, estimate: Binary64) -> Text {
    text("claimed 2-vs-1-cell log Bayes factor "@).number(claimed, Style::Fixed { digits: 4 }).text(" disagrees with the Monte-Carlo estimate "@).number(estimate, Style::Fixed { digits: 4 }).text(": log_marginal_terms is not the integrated Gaussian-working-likelihood marginal for this prior (wrong normalising term, wrong prior variance, or a dropped cell-count-dependent factor)"@)
}

/// The Bayes factor of a mean family is off.
pub(crate) fn bayes_mismatch_mean_message(claimed: Binary64, estimate: Binary64) -> (r: Message)
    ensures
        r@ == bayes_mismatch_mean_text(claimed, estimate),
{
    Message::of("claimed 2-vs-1-cell log Bayes factor ").number(claimed, Style::Fixed { digits: 4 }).text(" disagrees with the Monte-Carlo estimate ").number(estimate, Style::Fixed { digits: 4 }).text(": log_marginal_terms is not the integrated Gaussian-working-likelihood marginal for this prior (wrong normalising term, wrong prior variance, or a dropped cell-count-dependent factor)")
}

/// The Bayes factor of a variance family is off.
pub open spec fn bayes_mismatch_variance_text(claimed: Binary64, estimate: Binary64) -> Text {
    text("claimed 2-vs-1-cell log Bayes factor "@).number(claimed, Style::Fixed { digits: 4 }).text(" disagrees with the Monte-Carlo estimate "@).number(estimate, Style::Fixed { digits: 4 }).text(": log_marginal_terms is not the integrated variance-working-likelihood marginal for this prior (wrong normalising term, wrong prior, or a dropped cell-count-dependent factor)"@)
}

/// The Bayes factor of a variance family is off.
pub(crate) fn bayes_mismatch_variance_message(claimed: Binary64, estimate: Binary64) -> (r: Message)
    ensures
        r@ == bayes_mismatch_variance_text(claimed, estimate),
{
    Message::of("claimed 2-vs-1-cell log Bayes factor ").number(claimed, Style::Fixed { digits: 4 }).text(" disagrees with the Monte-Carlo estimate ").number(estimate, Style::Fixed { digits: 4 }).text(": log_marginal_terms is not the integrated variance-working-likelihood marginal for this prior (wrong normalising term, wrong prior, or a dropped cell-count-dependent factor)")
}

/// The Bayes factor of a basis payload is off.
pub open spec fn bayes_mismatch_basis_text(claimed: Binary64, estimate: Binary64) -> Text {
    text("claimed 2-vs-1-cell log Bayes factor "@).number(claimed, Style::Fixed { digits: 4 }).text(" disagrees with the Monte-Carlo estimate "@).number(estimate, Style::Fixed { digits: 4 }).text(": log_marginal_terms is not the integrated linear-working-likelihood marginal for this prior"@)
}

/// The Bayes factor of a basis payload is off.
pub(crate) fn bayes_mismatch_basis_message(claimed: Binary64, estimate: Binary64) -> (r: Message)
    ensures
        r@ == bayes_mismatch_basis_text(claimed, estimate),
{
    Message::of("claimed 2-vs-1-cell log Bayes factor ").number(claimed, Style::Fixed { digits: 4 }).text(" disagrees with the Monte-Carlo estimate ").number(estimate, Style::Fixed { digits: 4 }).text(": log_marginal_terms is not the integrated linear-working-likelihood marginal for this prior")
}

/// The prior could not be sampled.
pub open spec fn prior_draw_failed_text() -> Text {
    text("draw_cell_values failed while sampling the prior"@)
}

/// The prior could not be sampled.
pub(crate) fn prior_draw_failed_message() -> (r: Message)
    ensures
        r@ == prior_draw_failed_text(),
{
    Message::of("draw_cell_values failed while sampling the prior")
}

/// The marginal of the fixture failed.
pub open spec fn fixture_marginal_failed_text() -> Text {
    text("log_marginal_terms failed on the fixture"@)
}

/// The marginal of the fixture failed.
pub(crate) fn fixture_marginal_failed_message() -> (r: Message)
    ensures
        r@ == fixture_marginal_failed_text(),
{
    Message::of("log_marginal_terms failed on the fixture")
}

/// The ranks are uniform.
pub open spec fn ranks_uniform_text(chi_sq: Binary64, bins: int) -> Text {
    text("cell-local SBC ranks are uniform (χ² = "@).number(chi_sq, Style::Fixed { digits: 1 }).text(" over "@).count(bins).text(" bins)"@)
}

/// The ranks are uniform.
pub(crate) fn ranks_uniform_message(chi_sq: Binary64, bins: usize) -> (r: Message)
    ensures
        r@ == ranks_uniform_text(chi_sq, bins as int),
{
    Message::of("cell-local SBC ranks are uniform (χ² = ").number(chi_sq, Style::Fixed { digits: 1 }).text(" over ").count(bins).text(" bins)")
}

/// The ranks of a mean family are not uniform.
pub open spec fn ranks_skewed_mean_text(chi_sq: Binary64, bins: int) -> Text {
    text("cell-local SBC ranks are NOT uniform (χ² = "@).number(chi_sq, Style::Fixed { digits: 1 }).text(" over "@).count(bins).text(" bins): draw_cell_values does not sample the conjugate posterior implied by the Gaussian working likelihood (wrong posterior mean/variance formula?)"@)
}

/// The ranks of a mean family are not uniform.
pub(crate) fn ranks_skewed_mean_message(chi_sq: Binary64, bins: usize) -> (r: Message)
    ensures
        r@ == ranks_skewed_mean_text(chi_sq, bins as int),
{
    Message::of("cell-local SBC ranks are NOT uniform (χ² = ").number(chi_sq, Style::Fixed { digits: 1 }).text(" over ").count(bins).text(" bins): draw_cell_values does not sample the conjugate posterior implied by the Gaussian working likelihood (wrong posterior mean/variance formula?)")
}

/// The ranks of a variance family are not uniform.
pub open spec fn ranks_skewed_variance_text(chi_sq: Binary64, bins: int) -> Text {
    text("cell-local SBC ranks are non-uniform (χ² = "@).number(chi_sq, Style::Fixed { digits: 1 }).text(" over "@).count(bins).text(" bins): the cell-value draw is not the conjugate posterior of the variance working likelihood"@)
}

/// The ranks of a variance family are not uniform.
pub(crate) fn ranks_skewed_variance_message(chi_sq: Binary64, bins: usize) -> (r: Message)
    ensures
        r@ == ranks_skewed_variance_text(chi_sq, bins as int),
{
    Message::of("cell-local SBC ranks are non-uniform (χ² = ").number(chi_sq, Style::Fixed { digits: 1 }).text(" over ").count(bins).text(" bins): the cell-value draw is not the conjugate posterior of the variance working likelihood")
}

/// The ranks of a coefficient are uniform.
pub open spec fn coefficient_ranks_uniform_text(chi_sq: Binary64, bins: int) -> Text {
    text("coefficient-draw SBC ranks are uniform along the probe direction (χ² = "@).number(chi_sq, Style::Fixed { digits: 1 }).text(" over "@).count(bins).text(" bins)"@)
}

/// The ranks of a coefficient are uniform.
pub(crate) fn coefficient_ranks_uniform_message(chi_sq: Binary64, bins: usize) -> (r: Message)
    ensures
        r@ == coefficient_ranks_uniform_text(chi_sq, bins as int),
{
    Message::of("coefficient-draw SBC ranks are uniform along the probe direction (χ² = ").number(chi_sq, Style::Fixed { digits: 1 }).text(" over ").count(bins).text(" bins)")
}

/// The ranks of a coefficient are not uniform.
pub open spec fn coefficient_ranks_skewed_text(chi_sq: Binary64, bins: int) -> Text {
    text("coefficient-draw SBC ranks are non-uniform (χ² = "@).number(chi_sq, Style::Fixed { digits: 1 }).text(" over "@).count(bins).text(" bins): the coefficient draw is not the conjugate posterior"@)
}

/// The ranks of a coefficient are not uniform.
pub(crate) fn coefficient_ranks_skewed_message(chi_sq: Binary64, bins: usize) -> (r: Message)
    ensures
        r@ == coefficient_ranks_skewed_text(chi_sq, bins as int),
{
    Message::of("coefficient-draw SBC ranks are non-uniform (χ² = ").number(chi_sq, Style::Fixed { digits: 1 }).text(" over ").count(bins).text(" bins): the coefficient draw is not the conjugate posterior")
}

/// A prior draw failed.
pub open spec fn prior_rank_failed_text(error: Text) -> Text {
    text("prior draw failed: "@).then_text(error)
}

/// A prior draw failed.
pub(crate) fn prior_rank_failed_message(error: &Message) -> (r: Message)
    ensures
        r@ == prior_rank_failed_text(error@),
{
    Message::of("prior draw failed: ").then_message(error)
}

/// A posterior draw failed.
pub open spec fn posterior_rank_failed_text(error: Text) -> Text {
    text("posterior draw failed: "@).then_text(error)
}

/// A posterior draw failed.
pub(crate) fn posterior_rank_failed_message(error: &Message) -> (r: Message)
    ensures
        r@ == posterior_rank_failed_text(error@),
{
    Message::of("posterior draw failed: ").then_message(error)
}

/// The model declares no basis payload.
pub open spec fn not_a_basis_payload_text() -> Text {
    text("the model's `cell_basis()` is false, so the engine will treat it as a scalar family and never call `record_basis` or `draw_cell_payload`. A basis payload must return true, or it silently ignores the basis entirely."@)
}

/// The model declares no basis payload.
pub(crate) fn not_a_basis_payload_message() -> (r: Message)
    ensures
        r@ == not_a_basis_payload_text(),
{
    Message::of("the model's `cell_basis()` is false, so the engine will treat it as a scalar family and never call `record_basis` or `draw_cell_payload`. A basis payload must return true, or it silently ignores the basis entirely.")
}

/// The payload width does not match the rows.
pub open spec fn payload_width_mismatch_text(q: int, row: int, found: int) -> Text {
    text("the model declares payload_width() = "@).count(q).text(" but basis row "@).count(row).text(" has length "@).count(found).text(": the basis and the payload must agree on q, and `fit` rejects a mismatch"@)
}

/// The payload width does not match the rows.
pub(crate) fn payload_width_mismatch_message(q: usize, row: usize, found: usize) -> (r: Message)
    ensures
        r@ == payload_width_mismatch_text(q as int, row as int, found as int),
{
    Message::of("the model declares payload_width() = ").count(q).text(" but basis row ").count(row).text(" has length ").count(found).text(": the basis and the payload must agree on q, and `fit` rejects a mismatch")
}

/// The payload is declared.
pub open spec fn payload_declared_text(q: int) -> Text {
    text("declares a basis payload of width q = "@).count(q).text(", matching the fixture rows"@)
}

/// The payload is declared.
pub(crate) fn payload_declared_message(q: usize) -> (r: Message)
    ensures
        r@ == payload_declared_text(q as int),
{
    Message::of("declares a basis payload of width q = ").count(q).text(", matching the fixture rows")
}

/// Does the text show these two numbers, in this order and no other?
pub open spec fn shows_in_order(shown: Text, a: Binary64, b: Binary64) -> bool {
    shown.figures.len() == 2 && shown.figures[0].value == a && shown.figures[1].value == b
}

/// A verdict on two numbers shows what was found before what it was held against.
pub proof fn findings_come_before_what_they_are_held_against(
    a: Binary64,
    b: Binary64,
    n: int,
    m: int,
)
    requires
        !a.nan() && !b.nan(),
    ensures
        shows_in_order(law_mismatch_text(a, b), a, b),
        shows_in_order(law_match_text(a, b, n), a, b),
        shows_in_order(scale_responds_text(a, b), a, b),
        shows_in_order(scale_deaf_text(a, b), a, b),
        shows_in_order(scale_shifts_text(a, b), a, b),
        shows_in_order(order_dependent_text(a, b), a, b),
        shows_in_order(block_order_dependent_text(a, b), a, b),
        shows_in_order(merge_wrong_text(a, b), a, b),
        shows_in_order(block_merge_wrong_text(a, b), a, b),
        shows_in_order(bayes_match_text(a, b), a, b),
        shows_in_order(bayes_mismatch_mean_text(a, b), a, b),
        shows_in_order(bayes_mismatch_variance_text(a, b), a, b),
        shows_in_order(bayes_mismatch_basis_text(a, b), a, b),
        shows_in_order(weights_positional_text(n, a, b), a, b),
        shows_in_order(centre_beats_self_text(n, a, m, b), a, b),
        shows_in_order(false_fast_path_text(n, m, a, b), a, b),
{
}

/// A disagreement with a density shows the ratio, the difference of the density and what
/// lies between them, in this order; an inversion shows the two keys, then the two weights.
pub proof fn disagreements_show_all_their_numbers(
    hook: Seq<char>,
    n: int,
    m: int,
    a: Binary64,
    b: Binary64,
    c: Binary64,
    d: Binary64,
)
    requires
        !a.nan() && !b.nan() && !c.nan() && !d.nan(),
    ensures
        ({
            let shown = density_mismatch_text(hook, n, a, b, c).figures;
            &&& shown.len() == 3
            &&& shown[0].value == a && shown[1].value == b && shown[2].value == c
        }),
        ({
            let shown = weights_inverted_text(n, m, a, b, c, d).figures;
            &&& shown.len() == 4
            &&& shown[0].value == a && shown[1].value == b
            &&& shown[2].value == c && shown[3].value == d
        }),
{
}

} // verus!
