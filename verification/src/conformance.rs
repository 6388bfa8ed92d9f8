//! Conformance checks for extensions: cheap, local checks with a plain-language
//! verdict each.
//!
//! These checks establish self-consistency, not correctness: nearly every reference
//! that they compare against is drawn from the component under test, so a component
//! that is wrong consistently passes.
//!
//! Where a check needs arithmetic on numbers, it takes the computed numbers as
//! arguments and decides on them.

use crate::binary64::{not_a_number, zero, Binary64};
use crate::message::{reading, text, Message, Text};
use crate::search::{first, lemma_first_holds, lemma_first_is, lemma_first_none};
use vstd::prelude::*;

pub mod assigner;
pub mod basis;
pub mod cell_model;
pub mod coordinate;
pub mod count_priors;
pub mod distance;
pub mod draws;
pub mod inclusion;
pub mod membership;
pub mod moves;
pub mod payloads;
pub mod replications;
pub mod response;
pub mod scale;
pub mod texts;

verus! {

/// Outcome of one conformance check: a name, a verdict, and a plain-language
/// explanation of what was checked or what went wrong.
#[derive(Debug)]
pub struct CheckResult {
    /// Short name of the check.
    pub name: String,
    /// Did the check pass?
    pub passed: bool,
    /// What was verified, or what failed and where.
    pub detail: Message,
}

/// The mathematical model of a [`CheckResult`].
pub struct Verdict {
    /// Short name of the check.
    pub name: Seq<char>,
    /// Did the check pass?
    pub passed: bool,
    /// What was verified, or what failed and where.
    pub detail: Text,
}

impl View for CheckResult {
    type V = Verdict;

    open spec fn view(&self) -> Verdict {
        Verdict { name: self.name@, passed: self.passed, detail: self.detail@ }
    }
}

/// A passed check.
pub open spec fn passes(name: Seq<char>, detail: Text) -> Verdict {
    Verdict { name, passed: true, detail }
}

/// A failed check.
pub open spec fn fails(name: Seq<char>, detail: Text) -> Verdict {
    Verdict { name, passed: false, detail }
}

/// The verdicts of a list of results.
pub open spec fn verdicts(results: Seq<CheckResult>) -> Seq<Verdict> {
    results.map_values(|r: CheckResult| r@)
}

impl CheckResult {
    /// A passed check.
    pub fn pass(name: &str, detail: Message) -> (r: Self)
        ensures
            r@ == passes(name@, detail@),
    {
        CheckResult { name: name.to_owned(), passed: true, detail }
    }

    /// A failed check.
    pub fn fail(name: &str, detail: Message) -> (r: Self)
        ensures
            r@ == fails(name@, detail@),
    {
        CheckResult { name: name.to_owned(), passed: false, detail }
    }

    /// Equality of name, verdict and detail.
    pub fn equals(&self, other: &Self) -> (r: bool)
        ensures
            r == (self@ == other@),
    {
        self.name.eq(&other.name) && self.passed == other.passed && self.detail.equals(
            &other.detail,
        )
    }

    /// Do the two results read alike, given the shown forms of the figures in the detail
    /// of each?
    pub fn reads_like(
        &self,
        shown: &Vec<String>,
        other: &Self,
        other_shown: &Vec<String>,
    ) -> (r: bool)
        requires
            shown@.len() == self@.detail.figures.len(),
            other_shown@.len() == other@.detail.figures.len(),
        ensures
            r == (self@.name == other@.name && self@.passed == other@.passed && reading(
                self@.detail,
                shown@,
            ) == reading(other@.detail, other_shown@)),
    {
        self.name.eq(&other.name) && self.passed == other.passed && self.detail.reads_like(
            shown,
            &other.detail,
            other_shown,
        )
    }

    /// One line of a report: the verdict, the name, the detail.
    pub fn report_line(&self) -> (r: Message)
        ensures
            r@ == report_text(self@),
    {
        let head = if self.passed {
            Message::of("PASS ")
        } else {
            Message::of("FAIL ")
        };
        head.text(self.name.as_str()).text(": ").then_message(&self.detail)
    }
}

/// The report line of a verdict.
pub open spec fn report_text(v: Verdict) -> Text {
    text(
        if v.passed {
            "PASS "@
        } else {
            "FAIL "@
        },
    ).text(v.name).text(": "@).then_text(v.detail)
}

impl PartialEq for CheckResult {
    fn eq(&self, other: &Self) -> (r: bool) {
        self.equals(other)
    }
}

impl vstd::std_specs::cmp::PartialEqSpecImpl for CheckResult {
    open spec fn obeys_eq_spec() -> bool {
        true
    }

    open spec fn eq_spec(&self, other: &Self) -> bool {
        self@ == other@
    }
}

impl Clone for CheckResult {
    fn clone(&self) -> (r: Self)
        ensures
            r@ == self@,
    {
        CheckResult {
            name: self.name.clone(),
            passed: self.passed,
            detail: self.detail.clone(),
        }
    }
}

/// Did every check pass?
pub fn all_passed(results: &[CheckResult]) -> (r: bool)
    ensures
        r == forall|i: int| 0 <= i < results@.len() ==> (#[trigger] results@[i]).passed,
{
    for i in 0..results.len()
        invariant
            forall|j: int| 0 <= j < i ==> (#[trigger] results@[j]).passed,
    {
        if !results[i].passed {
            return false;
        }
    }
    true
}

/// The report of a list of results: one line each, and whether every check passed.
pub fn report(results: &[CheckResult]) -> (r: (Vec<Message>, bool))
    ensures
        r.0@.len() == results@.len(),
        forall|i: int| 0 <= i < results@.len() ==> (#[trigger] r.0@[i])@ == report_text(results@[i]@),
        r.1 == forall|i: int| 0 <= i < results@.len() ==> (#[trigger] results@[i]).passed,
{
    let mut lines: Vec<Message> = Vec::new();
    for i in 0..results.len()
        invariant
            lines@.len() == i,
            forall|j: int| 0 <= j < i ==> (#[trigger] lines@[j])@ == report_text(results@[j]@),
    {
        lines.push(results[i].report_line());
    }
    (lines, all_passed(results))
}

/// Append a result.
pub(crate) fn record(results: &mut Vec<CheckResult>, result: CheckResult)
    ensures
        verdicts(final(results)@) == verdicts(old(results)@).push(result@),
{
    let ghost before = results@;
    results.push(result);
    assert(verdicts(results@) =~= verdicts(before).push(result@));
}

/// Append a list of results.
pub(crate) fn extend(results: &mut Vec<CheckResult>, more: Vec<CheckResult>)
    ensures
        verdicts(final(results)@) == verdicts(old(results)@) + verdicts(more@),
{
    let ghost before = results@;
    let mut tail = more;
    results.append(&mut tail);
    assert(verdicts(results@) =~= verdicts(before) + verdicts(more@));
}

/// A list of one result.
pub(crate) fn only(result: CheckResult) -> (r: Vec<CheckResult>)
    ensures
        verdicts(r@) == seq![result@],
{
    let mut results: Vec<CheckResult> = Vec::new();
    results.push(result);
    assert(verdicts(results@) =~= seq![result@]);
    results
}

/// A list of two results.
pub(crate) fn pair(a: CheckResult, b: CheckResult) -> (r: Vec<CheckResult>)
    ensures
        verdicts(r@) == seq![a@, b@],
{
    let mut results = only(a);
    record(&mut results, b);
    assert(verdicts(results@) =~= seq![a@, b@]);
    results
}

/// A list of three results.
pub(crate) fn triple(a: CheckResult, b: CheckResult, c: CheckResult) -> (r: Vec<CheckResult>)
    ensures
        verdicts(r@) == seq![a@, b@, c@],
{
    let mut results = pair(a, b);
    record(&mut results, c);
    assert(verdicts(results@) =~= seq![a@, b@, c@]);
    results
}

/// A list of four results.
pub(crate) fn quadruple(a: CheckResult, b: CheckResult, c: CheckResult, d: CheckResult) -> (r: Vec<
    CheckResult,
>)
    ensures
        verdicts(r@) == seq![a@, b@, c@, d@],
{
    let mut results = triple(a, b, c);
    record(&mut results, d);
    assert(verdicts(results@) =~= seq![a@, b@, c@, d@]);
    results
}

/// The start value of the digest.
pub const DIGEST_START: u64 = 0xcbf2_9ce4_8422_2325;

/// Byte `k` of a pattern, the least significant one first.
pub open spec fn byte_of(bits: u64, k: nat) -> u64
    decreases k,
{
    if k == 0 {
        bits % 256
    } else {
        byte_of(bits / 256, (k - 1) as nat)
    }
}

/// The digest after the first `k` bytes of a pattern.
pub open spec fn digest_bytes(digest: u64, bits: u64, k: nat) -> u64
    decreases k,
{
    if k == 0 {
        digest
    } else {
        (digest_bytes(digest, bits, (k - 1) as nat) ^ byte_of(bits, (k - 1) as nat)).wrapping_mul(
            0x100_0000_01b3,
        )
    }
}

/// The FNV-1a digest of the bytes of a list of numbers, each in little-endian
/// order.
pub open spec fn digest_of(values: Seq<Binary64>) -> u64
    decreases values.len(),
{
    if values.len() == 0 {
        DIGEST_START
    } else {
        digest_bytes(digest_of(values.drop_last()), values.last().bits, 8)
    }
}

/// Order-pinned FNV-1a digest over the bits of a list of numbers: it differs across
/// platforms where the numbers do.
pub fn bit_digest(values: &[Binary64]) -> (r: u64)
    ensures
        r == digest_of(values@),
{
    let mut digest: u64 = DIGEST_START;
    for i in 0..values.len()
        invariant
            digest == digest_of(values@.take(i as int)),
    {
        let ghost before = digest;
        let bits: u64 = values[i].bits;
        let mut rest: u64 = bits;
        for k in 0..8u64
            invariant
                digest == digest_bytes(before, bits, k as nat),
                forall|j: nat| #[trigger] byte_of(rest, j) == byte_of(bits, j + k as nat),
        {
            proof {
                assert(byte_of(rest, 0) == byte_of(bits, k as nat));
                assert forall|j: nat| #[trigger] byte_of(rest / 256, j) == byte_of(
                    bits,
                    j + (k + 1) as nat,
                ) by {
                    assert(byte_of(rest, j + 1) == byte_of(rest / 256, j));
                }
            }
            digest = (digest ^ (rest % 256)).wrapping_mul(0x100_0000_01b3);
            rest = rest / 256;
        }
        proof {
            assert(values@.take(i + 1).drop_last() =~= values@.take(i as int));
        }
    }
    assert(values@.take(values@.len() as int) =~= values@);
    digest
}

/// The first value that is not finite and strictly positive.
pub open spec fn not_positive(values: Seq<Binary64>) -> Option<int> {
    first(values.len(), |i: int| !values[i].positive_finite())
}

/// The index of the first value that is not finite and strictly positive.
pub(crate) fn first_not_positive(values: &[Binary64]) -> (r: Option<usize>)
    ensures
        match r {
            Some(i) => not_positive(values@) == Some(i as int) && i < values@.len(),
            None => not_positive(values@) is None,
        },
{
    let ghost bad = |i: int| !values@[i].positive_finite();
    for i in 0..values.len()
        invariant
            bad == (|i: int| !values@[i].positive_finite()),
            forall|j: int| 0 <= j < i ==> !#[trigger] bad(j),
    {
        if !values[i].is_positive_finite() {
            proof {
                assert(bad(i as int));
                lemma_first_is(values@.len(), bad, i as int);
            }
            return Some(i);
        }
        assert(!bad(i as int));
    }
    proof {
        lemma_first_none(values@.len(), bad);
    }
    None
}

/// A buffer of `n` entries that nothing has been written to.
pub open spec fn unwritten(n: nat) -> Seq<Binary64> {
    Seq::new(n, |i: int| not_a_number())
}

/// Does the list hold these numbers?
pub open spec fn holds(list: Seq<Binary64>, numbers: Seq<Binary64>) -> bool {
    list == numbers
}

/// A buffer of `n` entries that nothing has been written to: an entry that is never
/// written stays visible.
pub(crate) fn fresh_buffer(n: usize) -> (r: Vec<Binary64>)
    ensures
        r@ == unwritten(n as nat),
{
    let mut r: Vec<Binary64> = Vec::new();
    for i in 0..n
        invariant
            r@.len() == i,
            forall|j: int| 0 <= j < i ==> r@[j] == not_a_number(),
    {
        r.push(not_a_number());
    }
    assert(r@ =~= unwritten(n as nat));
    r
}

/// A copy of a list of numbers.
pub(crate) fn copied(values: &[Binary64]) -> (r: Vec<Binary64>)
    ensures
        r@ == values@,
{
    let mut r: Vec<Binary64> = Vec::new();
    for i in 0..values.len()
        invariant
            r@ == values@.take(i as int),
    {
        r.push(values[i]);
        assert(r@ =~= values@.take(i + 1));
    }
    assert(values@.take(values@.len() as int) =~= values@);
    r
}

/// What an error of a caller's component reads as.
pub open spec fn user_error_text() -> Text {
    text("error from a user extension"@)
}

/// What an error of a caller's component reads as.
pub(crate) fn user_error() -> (r: Message)
    ensures
        r@ == user_error_text(),
{
    Message::of("error from a user extension")
}

/// Are the two the same?
pub open spec fn same<T>(a: T, b: T) -> bool {
    a == b
}

/// Do the two lists hold the same patterns?
pub fn same_bits(a: &[Binary64], b: &[Binary64]) -> (r: bool)
    ensures
        r == (a@ == b@),
{
    if a.len() != b.len() {
        return false;
    }
    for i in 0..a.len()
        invariant
            a@.len() == b@.len(),
            forall|j: int| 0 <= j < i ==> a@[j] == b@[j],
    {
        if a[i] != b[i] {
            return false;
        }
    }
    assert(a@ =~= b@);
    true
}

/// Do the two lists hold the same counts?
pub(crate) fn same_counts(a: &[usize], b: &[usize]) -> (r: bool)
    ensures
        r == (a@ == b@),
{
    if a.len() != b.len() {
        return false;
    }
    for i in 0..a.len()
        invariant
            a@.len() == b@.len(),
            forall|j: int| 0 <= j < i ==> a@[j] == b@[j],
    {
        if a[i] != b[i] {
            return false;
        }
    }
    assert(a@ =~= b@);
    true
}

/// Every verdict is a pass.
pub open spec fn all_pass(list: Seq<Verdict>) -> bool {
    forall|i: int| 0 <= i < list.len() ==> (#[trigger] list[i]).passed
}

/// Results pass exactly where their verdicts do.
pub proof fn lemma_results_pass(results: Seq<CheckResult>)
    ensures
        verdicts(results).len() == results.len(),
        all_pass(verdicts(results)) <==> forall|i: int|
            0 <= i < results.len() ==> (#[trigger] results[i]).passed,
{
    let list = verdicts(results);
    assert forall|i: int| 0 <= i < results.len() implies (#[trigger] list[i]).passed
        == results[i].passed by {}
    if all_pass(list) {
        assert forall|i: int| 0 <= i < results.len() implies (#[trigger] results[i]).passed by {
            assert(list[i].passed);
        }
    }
}

/// Two lists of verdicts, one behind the other, pass exactly where both do.
pub proof fn lemma_both_pass(a: Seq<Verdict>, b: Seq<Verdict>)
    ensures
        all_pass(a + b) <==> all_pass(a) && all_pass(b),
{
    let both = a + b;
    if all_pass(both) {
        assert forall|i: int| 0 <= i < a.len() implies (#[trigger] a[i]).passed by {
            assert(both[i] == a[i]);
        }
        assert forall|i: int| 0 <= i < b.len() implies (#[trigger] b[i]).passed by {
            assert(both[a.len() + i] == b[i]);
        }
    }
    if all_pass(a) && all_pass(b) {
        assert forall|i: int| 0 <= i < both.len() implies (#[trigger] both[i]).passed by {
            if i < a.len() {
                assert(a[i].passed);
            } else {
                assert(b[i - a.len()].passed);
            }
        }
    }
}

/// A result is made with the name, the verdict and the detail that were given, and a
/// report has one line for each result: the verdict in front, then the name, then the
/// detail. The report passes exactly where every result does.
pub proof fn reports_say_what_was_found(
    name: &str,
    detail: Message,
    good: CheckResult,
    bad: CheckResult,
    results: &[CheckResult],
    r: (Vec<Message>, bool),
    all: bool,
    i: int,
)
    requires
        call_ensures(CheckResult::pass, (name, detail), good),
        call_ensures(CheckResult::fail, (name, detail), bad),
        call_ensures(report, (results,), r),
        call_ensures(all_passed, (results,), all),
        0 <= i < results@.len(),
    ensures
        good.passed && good.name@ == name@ && good.detail@ == detail@,
        !bad.passed && bad.name@ == name@ && bad.detail@ == detail@,
        r.0@.len() == results@.len(),
        results@[i].passed ==> r.0@[i]@.characters == "PASS "@ + results@[i].name@ + ": "@
            + results@[i].detail@.characters,
        !results@[i].passed ==> r.0@[i]@.characters == "FAIL "@ + results@[i].name@ + ": "@
            + results@[i].detail@.characters,
        r.1 == all,
        all ==> results@[i].passed,
        !all ==> exists|k: int| 0 <= k < results@.len() && !(#[trigger] results@[k]).passed,
{
    assert(r.0@[i]@ == report_text(results@[i]@));
}

/// Byte `k` of a pattern, the lowest first.
proof fn lemma_byte(bits: u64, k: nat)
    ensures
        byte_of(bits, k) == (bits as int / vstd::arithmetic::power::pow(256, k)) % 256,
    decreases k,
{
    vstd::arithmetic::power::lemma_pow0(256);
    if k > 0 {
        let j = (k - 1) as nat;
        lemma_byte(bits / 256, j);
        vstd::arithmetic::power::lemma_pow_positive(256, j);
        vstd::arithmetic::power::lemma_pow_adds(256, 1, j);
        vstd::arithmetic::power::lemma_pow1(256);
        vstd::arithmetic::div_mod::lemma_div_denominator(
            bits as int,
            256,
            vstd::arithmetic::power::pow(256, j),
        );
    }
}

/// The digest starts at the same number for every list, and each further value is folded
/// in byte by byte, the lowest byte first: each byte is mixed in and the whole is
/// multiplied by the same factor.
pub proof fn digests_fold_in_every_byte(
    values: &[Binary64],
    more: &[Binary64],
    v: Binary64,
    r: u64,
    s: u64,
    steps: Seq<u64>,
)
    requires
        call_ensures(bit_digest, (values,), r),
        call_ensures(bit_digest, (more,), s),
        more@ == values@.push(v),
        steps.len() == 9,
        steps[0] == r,
        forall|k: int|
            #![trigger steps[k + 1]]
            0 <= k < 8 ==> steps[k + 1] == (steps[k] ^ ((v.bits as int
                / vstd::arithmetic::power::pow(256, k as nat)) % 256) as u64).wrapping_mul(
                0x100_0000_01b3,
            ),
    ensures
        values@.len() == 0 ==> r == 0xcbf2_9ce4_8422_2325,
        s == steps[8],
{
    assert(more@.drop_last() =~= values@);
    lemma_digest_steps(r, v.bits, steps, 8);
}

/// The steps of folding in one value.
proof fn lemma_digest_steps(r: u64, bits: u64, steps: Seq<u64>, k: nat)
    requires
        k <= 8,
        steps.len() == 9,
        steps[0] == r,
        forall|k: int|
            #![trigger steps[k + 1]]
            0 <= k < 8 ==> steps[k + 1] == (steps[k] ^ ((bits as int
                / vstd::arithmetic::power::pow(256, k as nat)) % 256) as u64).wrapping_mul(
                0x100_0000_01b3,
            ),
    ensures
        digest_bytes(r, bits, k) == steps[k as int],
    decreases k,
{
    if k > 0 {
        lemma_digest_steps(r, bits, steps, (k - 1) as nat);
        lemma_byte(bits, (k - 1) as nat);
        assert(steps[(k - 1) + 1] == steps[k as int]);
    }
}

/// Lists of numbers have the same bits exactly where they are equally long and hold the
/// same patterns.
pub proof fn same_bits_are_the_same_patterns(a: &[Binary64], b: &[Binary64], r: bool)
    requires
        call_ensures(same_bits, (a, b), r),
    ensures
        r <==> a@.len() == b@.len() && forall|i: int|
            0 <= i < a@.len() ==> (#[trigger] a@[i]).bits == b@[i].bits,
{
    if a@.len() == b@.len() && forall|i: int|
        0 <= i < a@.len() ==> (#[trigger] a@[i]).bits == b@[i].bits {
        assert(a@ =~= b@);
    }
}

/// The first number that is not finite and above zero.
pub proof fn lemma_not_positive(values: Seq<Binary64>)
    ensures
        not_positive(values) is None <==> forall|i: int|
            0 <= i < values.len() ==> (#[trigger] values[i]).finite() && zero().below(values[i]),
{
    let bad = |i: int| !values[i].positive_finite();
    lemma_first_holds(values.len(), bad);
    if first(values.len(), bad) is Some {
        let i = first(values.len(), bad)->0;
        assert(bad(i));
        assert(!(values[i].finite() && zero().below(values[i])));
    } else {
        assert forall|i: int| 0 <= i < values.len() implies (#[trigger] values[i]).finite()
            && zero().below(values[i]) by {
            assert(!bad(i));
        }
    }
}

/// Results are equal exactly where verdict, name and detail are; where they are equal they
/// read alike however their numbers are shown.
pub proof fn results_equal_part_by_part(
    a: CheckResult,
    b: CheckResult,
    shown: &Vec<String>,
    equal: bool,
    alike: bool,
)
    requires
        call_ensures(CheckResult::equals, (&a, &b), equal),
        call_ensures(CheckResult::reads_like, (&a, shown, &b, shown), alike),
    ensures
        equal <==> a.passed == b.passed && a.name@ == b.name@ && a.detail@ == b.detail@,
        equal ==> alike,
        alike ==> a.passed == b.passed && a.name@ == b.name@,
{
}

} // verus!
