//! Rank bookkeeping of simulation-based calibration: per quantity one rank per
//! replication, their table as text, and their histogram.

use crate::binary64::Binary64;
use crate::diagnostics::{
    below_count, equal_count, holding, rank_among, ranks_stay_in_range, sbc_rank, tally,
    tally_is_a_count,
};
use crate::message::{characters, decimal, decimal_digits, string_of};
use crate::named::{Named, Table};
use crate::value::Value;
use vstd::prelude::*;

verus! {

/// Sizing of one run.
#[derive(Debug, Clone, Copy, PartialEq, Eq, Structural)]
pub struct SbcSpec {
    /// Prior-draw replications.
    pub replications: usize,
    /// Posterior draws ranked per replication (ranks lie in `0..=n_draws`).
    pub n_draws: usize,
    /// Keep every `thin`-th sweep when collecting the ranked draws.
    pub thin: usize,
    /// Burn-in sweeps discarded per replication.
    pub burn_in: usize,
}

impl Default for SbcSpec {
    fn default() -> (r: Self)
        ensures
            r.replications == 300,
            r.n_draws == 99,
            r.thin == 10,
            r.burn_in == 300,
    {
        SbcSpec { replications: 300, n_draws: 99, thin: 10, burn_in: 300 }
    }
}

/// The collected ranks: per quantity one rank per replication, each in `0..=n_draws`.
#[derive(Debug)]
pub struct SbcRanks {
    ranks: Named<usize>,
    n_draws: usize,
}

/// The mathematical model of an [`SbcRanks`].
pub struct Ledger {
    /// The ranks of every quantity.
    pub ranks: Table<usize>,
    /// The largest rank.
    pub n_draws: usize,
}

impl Ledger {
    /// Every rank is in range.
    pub open spec fn in_range(self) -> bool {
        forall|name: Seq<char>, i: int|
            #![trigger self.ranks.list(name)[i]]
            0 <= i < self.ranks.list(name).len() ==> self.ranks.list(name)[i] <= self.n_draws
    }
}

/// One recording: the quantity, its true value, the posterior draws, and the draw that
/// breaks ties.
pub struct Recording {
    /// The quantity.
    pub quantity: Seq<char>,
    /// Its true value.
    pub true_value: Binary64,
    /// The posterior draws that it is ranked among.
    pub draws: Seq<Binary64>,
    /// The draw that breaks ties.
    pub tie_break: nat,
}

impl Recording {
    /// The recording is one that a collector of ranks in `0..=n_draws` takes.
    pub open spec fn valid(self, n_draws: usize) -> bool {
        &&& self.draws.len() == n_draws
        &&& self.tie_break <= equal_count(self.draws, self.true_value)
    }

    /// The rank that is recorded.
    pub open spec fn rank(self) -> nat {
        rank_among(self.true_value, self.draws, self.tie_break)
    }
}

/// A ledger without ranks.
pub open spec fn is_empty_ledger(ledger: Ledger, n_draws: usize) -> bool {
    &&& ledger.n_draws == n_draws
    &&& ledger.ranks == (Table::<usize> { names: Seq::empty(), lists: Seq::empty() })
}

/// A recording leads from one ledger to the next: its rank is appended to the ranks of
/// its quantity, and those of every other quantity stay as they are.
pub open spec fn recorded(before: Ledger, call: Recording, after: Ledger) -> bool {
    &&& after.n_draws == before.n_draws
    &&& forall|name: Seq<char>|
        #[trigger] after.ranks.has(name) == (before.ranks.has(name) || name == call.quantity)
    &&& after.ranks.list(call.quantity).len() == before.ranks.list(call.quantity).len() + 1
    &&& after.ranks.list(call.quantity).drop_last() == before.ranks.list(call.quantity)
    &&& after.ranks.list(call.quantity).last() == call.rank()
    &&& forall|name: Seq<char>|
        name != call.quantity ==> #[trigger] after.ranks.list(name) == before.ranks.list(name)
}

/// A collector was made for ranks in `0..=n_draws`, and then recorded one call after the
/// other.
pub open spec fn is_history(ledgers: Seq<Ledger>, calls: Seq<Recording>, n_draws: usize) -> bool {
    &&& ledgers.len() == calls.len() + 1
    &&& is_empty_ledger(ledgers[0], n_draws)
    &&& forall|i: int|
        #![trigger calls[i]]
        0 <= i < calls.len() ==> calls[i].valid(n_draws) && recorded(
            ledgers[i],
            calls[i],
            ledgers[i + 1],
        )
}

/// The ranks that the calls record for a quantity, in the order of the calls.
pub open spec fn ranks_for(calls: Seq<Recording>, name: Seq<char>) -> Seq<nat> {
    calls.filter(|c: Recording| c.quantity == name).map_values(|c: Recording| c.rank())
}

/// A collector holds exactly what was recorded: its quantities are those that a call
/// named, and each has one rank per call for it, in the order of the calls.
pub proof fn collector_holds_what_was_recorded(
    ledgers: Seq<Ledger>,
    calls: Seq<Recording>,
    n_draws: usize,
    name: Seq<char>,
)
    requires
        is_history(ledgers, calls, n_draws),
    ensures
        ledgers.last().n_draws == n_draws,
        ledgers.last().ranks.has(name) <==> exists|i: int|
            0 <= i < calls.len() && (#[trigger] calls[i]).quantity == name,
        ledgers.last().ranks.list(name).map_values(|rank: usize| rank as nat) == ranks_for(
            calls,
            name,
        ),
    decreases calls.len(),
{
    reveal(Seq::filter);
    let of_name = |c: Recording| c.quantity == name;
    let listed = |ledger: Ledger| ledger.ranks.list(name).map_values(|rank: usize| rank as nat);
    let last = ledgers.last();
    if calls.len() == 0 {
        assert(!last.ranks.has(name));
        assert(listed(last) =~= ranks_for(calls, name));
    } else {
        let earlier = calls.drop_last();
        let call = calls.last();
        let history = ledgers.drop_last();
        assert forall|i: int| #![trigger earlier[i]] 0 <= i < earlier.len() implies earlier[i].valid(
            n_draws,
        ) && recorded(history[i], earlier[i], history[i + 1]) by {
            assert(earlier[i] == calls[i]);
        }
        collector_holds_what_was_recorded(history, earlier, n_draws, name);
        let before = history.last();
        assert(calls[calls.len() - 1] == call);
        assert(recorded(before, call, last));
        if before.ranks.has(name) {
            let i = choose|i: int| 0 <= i < earlier.len() && (#[trigger] earlier[i]).quantity
                == name;
            assert(calls[i].quantity == name);
        }
        if last.ranks.has(name) && name != call.quantity {
            assert(before.ranks.has(name));
        }
        if exists|i: int| 0 <= i < calls.len() && (#[trigger] calls[i]).quantity == name {
            let i = choose|i: int| 0 <= i < calls.len() && (#[trigger] calls[i]).quantity == name;
            if i < earlier.len() {
                assert(earlier[i].quantity == name);
            }
        }
        if call.quantity == name {
            assert(calls.filter(of_name) == earlier.filter(of_name).push(call));
            assert(last.ranks.list(name) =~= before.ranks.list(name).push(
                last.ranks.list(name).last(),
            ));
            assert(listed(last) =~= listed(before).push(call.rank()));
            assert(ranks_for(calls, name) =~= ranks_for(earlier, name).push(call.rank()));
        } else {
            assert(calls.filter(of_name) == earlier.filter(of_name));
        }
    }
}

/// A recorded rank lies between the number of draws below the true value and the number
/// of those that do not lie above it, and so in `0..=n_draws`.
pub proof fn recorded_rank_lies_among_its_draws(call: Recording, n_draws: usize)
    requires
        call.valid(n_draws),
    ensures
        below_count(call.draws, call.true_value) <= call.rank() <= below_count(
            call.draws,
            call.true_value,
        ) + equal_count(call.draws, call.true_value),
        call.rank() <= n_draws,
{
    ranks_stay_in_range(call.true_value, call.draws, call.tie_break);
}

impl View for SbcRanks {
    type V = Ledger;

    closed spec fn view(&self) -> Ledger {
        Ledger { ranks: self.ranks@, n_draws: self.n_draws }
    }
}

/// The line of one rank.
pub open spec fn line(name: Seq<char>, rank: usize, n_draws: usize) -> Seq<char> {
    name + ","@ + decimal(rank as nat) + ","@ + decimal(n_draws as nat) + "\n"@
}

/// The lines of the first `k` ranks of a quantity.
pub open spec fn lines_of(name: Seq<char>, ranks: Seq<usize>, n_draws: usize, k: nat) -> Seq<char>
    decreases k,
{
    if k == 0 {
        Seq::empty()
    } else {
        lines_of(name, ranks, n_draws, (k - 1) as nat) + line(name, ranks[k - 1], n_draws)
    }
}

/// The lines of the first `k` quantities.
pub open spec fn lines(table: Table<usize>, n_draws: usize, k: nat) -> Seq<char>
    decreases k,
{
    if k == 0 {
        Seq::empty()
    } else {
        lines(table, n_draws, (k - 1) as nat) + lines_of(
            table.names[k - 1],
            table.lists[k - 1],
            n_draws,
            table.lists[k - 1].len(),
        )
    }
}

/// The bin of a rank among `bins` bins of equal width.
pub open spec fn bin_of(rank: nat, n_draws: nat, bins: nat) -> nat {
    let bin = rank * bins / (n_draws + 1);
    if bin < bins {
        bin
    } else {
        (bins - 1) as nat
    }
}

/// How many of the first `k` ranks fall into bin `b`.
pub open spec fn in_bin(ranks: Seq<usize>, n_draws: nat, bins: nat, b: nat, k: nat) -> nat {
    tally(|i: int| bin_of(ranks[i] as nat, n_draws, bins) == b, k)
}

/// Append the characters of a text.
fn push_all(out: &mut Vec<char>, more: &Vec<char>)
    ensures
        final(out)@ == old(out)@ + more@,
{
    let ghost before = out@;
    assert(before + more@.take(0) =~= before);
    for i in 0..more.len()
        invariant
            out@ == before + more@.take(i as int),
    {
        out.push(more[i]);
        assert(out@ =~= before + more@.take(i + 1));
    }
    assert(more@.take(more@.len() as int) =~= more@);
}

/// Append the line of one rank.
fn push_line(out: &mut Vec<char>, name: &String, rank: usize, n_draws: usize)
    ensures
        final(out)@ == old(out)@ + line(name@, rank, n_draws),
{
    let ghost before = out@;
    push_all(out, &characters(name.as_str()));
    push_all(out, &characters(","));
    push_all(out, &decimal_digits(rank));
    push_all(out, &characters(","));
    push_all(out, &decimal_digits(n_draws));
    push_all(out, &characters("\n"));
    assert(out@ =~= before + line(name@, rank, n_draws));
}

impl SbcRanks {
    #[verifier::type_invariant]
    spec fn is_in_range(self) -> bool {
        Ledger { ranks: self.ranks@, n_draws: self.n_draws }.in_range()
    }

    /// An empty collector for ranks in `0..=n_draws`.
    pub fn new(n_draws: usize) -> (r: Self)
        ensures
            is_empty_ledger(r@, n_draws),
            forall|name: Seq<char>| !#[trigger] r@.ranks.has(name),
            r@.in_range(),
    {
        let ranks: Named<usize> = Named::new();
        assert(ranks@.names =~= Seq::empty() && ranks@.lists =~= Seq::empty());
        assert forall|name: Seq<char>| #[trigger] ranks@.list(name).len() == 0 by {
            assert(!ranks@.has(name));
        }
        SbcRanks { ranks, n_draws }
    }

    /// Rank the true value among the posterior draws and record it under the
    /// quantity. `tie_break` is drawn uniformly from zero to the number of draws that
    /// equal the true value.
    pub fn record(
        &mut self,
        quantity: &str,
        true_value: Binary64,
        posterior_draws: &[Binary64],
        tie_break: usize,
    )
        requires
            posterior_draws@.len() == old(self)@.n_draws,
            tie_break <= equal_count(posterior_draws@, true_value),
        ensures
            final(self)@.in_range(),
            recorded(
                old(self)@,
                (Recording {
                    quantity: quantity@,
                    true_value,
                    draws: posterior_draws@,
                    tie_break: tie_break as nat,
                }),
                final(self)@,
            ),
    {
        proof {
            use_type_invariant(&*self);
        }
        let ghost before = self@;
        let rank: usize = sbc_rank(true_value, posterior_draws, tie_break);
        let mut taken = SbcRanks::new(0);
        core::mem::swap(self, &mut taken);
        let SbcRanks { ranks, n_draws } = taken;
        let mut ranks = ranks;
        let ghost table = ranks@;
        ranks.push(quantity, rank);
        proof {
            let next = Ledger { ranks: ranks@, n_draws };
            assert forall|name: Seq<char>, i: int|
                #![trigger next.ranks.list(name)[i]]
                0 <= i < next.ranks.list(name).len() implies next.ranks.list(name)[i]
                <= n_draws by {
                if name == quantity@ {
                    if i < table.list(name).len() {
                        assert(before.ranks.list(name)[i] <= n_draws);
                    }
                } else {
                    assert(before.ranks.list(name)[i] <= n_draws);
                }
            }
            assert(ranks@.list(quantity@).drop_last() =~= table.list(quantity@));
        }
        *self = SbcRanks { ranks, n_draws };
    }

    /// How many draws each value is ranked among.
    pub fn n_draws(&self) -> (r: usize)
        ensures
            r == self@.n_draws,
    {
        self.n_draws
    }

    /// The collected ranks of every quantity.
    pub fn ranks(&self) -> (r: &Named<usize>)
        ensures
            r@ == self@.ranks,
            self@.in_range(),
    {
        proof {
            use_type_invariant(self);
        }
        &self.ranks
    }

    /// The ranks as lines of comma-separated values, under a header.
    pub fn csv(&self) -> (r: String)
        ensures
            r@ == "quantity,rank,n_draws\n"@ + lines(
                self@.ranks,
                self@.n_draws,
                self@.ranks.names.len(),
            ),
    {
        let header = characters("quantity,rank,n_draws\n");
        let mut out: Vec<char> = Vec::new();
        push_all(&mut out, &header);
        assert(out@ =~= header@ + lines(self@.ranks, self@.n_draws, 0));
        let n: usize = self.ranks.len();
        for q in 0..n
            invariant
                n == self@.ranks.names.len(),
                self@.ranks == self.ranks@,
                self@.n_draws == self.n_draws,
                self@.ranks.well_formed(),
                out@ == header@ + lines(self@.ranks, self@.n_draws, q as nat),
        {
            let name = self.ranks.name(q);
            let list = self.ranks.list_at(q);
            let ghost so_far = out@;
            assert(so_far + lines_of(name@, list@, self.n_draws, 0) =~= so_far);
            for i in 0..list.len()
                invariant
                    out@ == so_far + lines_of(name@, list@, self.n_draws, i as nat),
            {
                push_line(&mut out, name, list[i], self.n_draws);
                assert(out@ =~= so_far + lines_of(name@, list@, self.n_draws, (i + 1) as nat));
            }
            assert(out@ =~= header@ + lines(self@.ranks, self@.n_draws, (q + 1) as nat));
        }
        string_of(&out)
    }

    /// The histogram of the ranks of the quantity at place `q`, over bins of equal
    /// width.
    pub fn histogram(&self, q: usize, bins: usize) -> (r: Vec<usize>)
        requires
            q < self@.ranks.names.len(),
            bins >= 2,
            self@.n_draws < usize::MAX,
            self@.n_draws * bins <= usize::MAX,
        ensures
            r@.len() == bins,
            forall|b: int|
                0 <= b < bins ==> #[trigger] r@[b] == in_bin(
                    self@.ranks.list(self@.ranks.names[q as int]),
                    self@.n_draws as nat,
                    bins as nat,
                    b as nat,
                    self@.ranks.list(self@.ranks.names[q as int]).len(),
                ),
    {
        proof {
            use_type_invariant(self);
        }
        let list = self.ranks.list_at(q);
        let n_draws: usize = self.n_draws;
        let ghost ranks = list@;
        assert(self@.ranks.list(self@.ranks.names[q as int]) == ranks);
        let mut counts: Vec<usize> = Vec::new();
        for b in 0..bins
            invariant
                counts@.len() == b,
                forall|j: int| 0 <= j < b ==> counts@[j] == 0,
        {
            counts.push(0);
        }
        assert forall|i: int| 0 <= i < ranks.len() implies #[trigger] ranks[i] <= n_draws by {
            assert(self@.ranks.list(self@.ranks.names[q as int])[i] <= self@.n_draws);
        }
        for i in 0..list.len()
            invariant
                ranks == list@,
                bins >= 2,
                n_draws < usize::MAX,
                n_draws * bins <= usize::MAX,
                counts@.len() == bins,
                forall|i: int| 0 <= i < ranks.len() ==> #[trigger] ranks[i] <= n_draws,
                forall|b: int|
                    0 <= b < bins ==> #[trigger] counts@[b] == in_bin(
                        ranks,
                        n_draws as nat,
                        bins as nat,
                        b as nat,
                        i as nat,
                    ),
                forall|b: int| 0 <= b < bins ==> #[trigger] counts@[b] <= i,
        {
            let rank: usize = list[i];
            proof {
                assert(ranks[i as int] <= n_draws);
                assert(rank * bins <= n_draws * bins) by (nonlinear_arith)
                    requires
                        rank <= n_draws,
                ;
            }
            let scaled: usize = rank * bins / (n_draws + 1);
            let bin: usize = if scaled < bins {
                scaled
            } else {
                bins - 1
            };
            assert(bin == bin_of(rank as nat, n_draws as nat, bins as nat));
            let ghost before = counts@;
            let count: usize = counts[bin];
            counts.set(bin, count + 1);
            assert forall|b: int| 0 <= b < bins implies #[trigger] counts@[b] == in_bin(
                ranks,
                n_draws as nat,
                bins as nat,
                b as nat,
                (i + 1) as nat,
            ) by {
                assert(before[b] == in_bin(ranks, n_draws as nat, bins as nat, b as nat, i as nat));
            }
        }
        counts
    }
}

impl PartialEq for SbcRanks {
    fn eq(&self, other: &Self) -> (r: bool) {
        let r = self.n_draws == other.n_draws && self.ranks.equals(&other.ranks);
        proof {
            lemma_same_ranks(self@.ranks, other@.ranks);
        }
        r
    }
}

impl vstd::std_specs::cmp::PartialEqSpecImpl for SbcRanks {
    open spec fn obeys_eq_spec() -> bool {
        true
    }

    open spec fn eq_spec(&self, other: &Self) -> bool {
        self@.n_draws == other@.n_draws && self@.ranks == other@.ranks
    }
}

impl Eq for SbcRanks {

}

/// Tables of ranks hold equal ranks exactly when they are the same.
proof fn lemma_same_ranks(a: Table<usize>, b: Table<usize>)
    ensures
        a.same(b) <==> a == b,
{
    if a.same(b) {
        assert forall|i: int| 0 <= i < a.lists.len() implies a.lists[i] == b.lists[i] by {
            assert forall|j: int| 0 <= j < a.lists[i].len() implies a.lists[i][j]
                == b.lists[i][j] by {
                assert(a.lists[i][j].equal(b.lists[i][j]));
            }
            assert(a.lists[i] =~= b.lists[i]);
        }
        assert(a.lists =~= b.lists);
    }
}

/// Two collectors that have recorded nothing are equal exactly when they rank among as
/// many draws.
pub proof fn empty_collectors_differ_in_their_draws_only(
    a: Ledger,
    b: Ledger,
    n_draws: usize,
    m_draws: usize,
)
    requires
        is_empty_ledger(a, n_draws),
        is_empty_ledger(b, m_draws),
    ensures
        a.n_draws == b.n_draws && a.ranks == b.ranks <==> n_draws == m_draws,
{
}

impl Clone for SbcRanks {
    fn clone(&self) -> (r: Self)
        ensures
            r@ == self@,
    {
        proof {
            use_type_invariant(self);
        }
        let ranks = self.ranks.clone();
        SbcRanks { ranks, n_draws: self.n_draws }
    }
}

/// In the histogram of ranks in range every rank falls into the bin of its own share:
/// no rank is moved by the upper limit.
pub proof fn ranks_need_no_clamping(rank: nat, n_draws: nat, bins: nat)
    requires
        rank <= n_draws,
        bins >= 1,
    ensures
        bin_of(rank, n_draws, bins) == rank * bins / (n_draws + 1),
{
    assert(rank * bins / (n_draws + 1) < bins) by (nonlinear_arith)
        requires
            rank <= n_draws,
            bins >= 1,
    ;
}

/// A recorded rank is the number of draws below the true value plus the tie-break; it
/// goes behind the ranks of its quantity, and no other quantity is touched.
pub proof fn recording_appends_the_rank(
    ranks: &mut SbcRanks,
    quantity: &str,
    true_value: Binary64,
    draws: &[Binary64],
    tie_break: usize,
    name: Seq<char>,
)
    requires
        draws@.len() == old(ranks)@.n_draws,
        tie_break <= equal_count(draws@, true_value),
        call_ensures(SbcRanks::record, (ranks, quantity, true_value, draws, tie_break), ()),
    ensures
        final(ranks)@.n_draws == old(ranks)@.n_draws,
        final(ranks)@.ranks.list(quantity@).len() == old(ranks)@.ranks.list(quantity@).len() + 1,
        final(ranks)@.ranks.list(quantity@).last() == Set::new(
            |i: int| 0 <= i < draws@.len() && draws@[i].below(true_value),
        ).len() + tie_break,
        final(ranks)@.ranks.list(quantity@).last() <= old(ranks)@.n_draws,
        forall|i: int|
            0 <= i < old(ranks)@.ranks.list(quantity@).len()
                ==> #[trigger] final(ranks)@.ranks.list(quantity@)[i]
                == old(ranks)@.ranks.list(quantity@)[i],
        name != quantity@ ==> final(ranks)@.ranks.list(name) == old(ranks)@.ranks.list(name),
{
    let p = |i: int| draws@[i].below(true_value);
    tally_is_a_count(p, draws@.len());
    assert(holding(p, draws@.len()) =~= Set::new(
        |i: int| 0 <= i < draws@.len() && draws@[i].below(true_value),
    ));
    ranks_stay_in_range(true_value, draws@, tie_break as nat);
    let (before, after) = (
        old(ranks)@.ranks.list(quantity@),
        final(ranks)@.ranks.list(quantity@),
    );
    assert forall|i: int| 0 <= i < before.len() implies #[trigger] after[i] == before[i] by {
        assert(after.drop_last()[i] == before[i]);
    }
}

/// The bins of a histogram cut the ranks from zero to the number of draws into equal
/// parts: bin `b` counts the ranks from its lower edge up to, but not with, its upper
/// one.
pub proof fn bins_cut_the_ranks_evenly(
    ranks: &SbcRanks,
    q: usize,
    bins: usize,
    r: Vec<usize>,
    b: int,
)
    requires
        ranks@.in_range(),
        q < ranks@.ranks.names.len(),
        bins >= 2,
        call_ensures(SbcRanks::histogram, (ranks, q, bins), r),
        0 <= b < bins,
    ensures
        r@.len() == bins,
        ({
            let list = ranks@.ranks.list(ranks@.ranks.names[q as int]);
            let n = ranks@.n_draws as int;
            r@[b] == Set::new(
                |i: int|
                    0 <= i < list.len() && b * (n + 1) <= list[i] * bins && list[i] * bins < (b + 1)
                        * (n + 1),
            ).len()
        }),
{
    let list = ranks@.ranks.list(ranks@.ranks.names[q as int]);
    let n = ranks@.n_draws as int;
    let p = |i: int| bin_of(list[i] as nat, n as nat, bins as nat) == b;
    tally_is_a_count(p, list.len());
    let part = Set::new(
        |i: int|
            0 <= i < list.len() && b * (n + 1) <= list[i] * bins && list[i] * bins < (b + 1) * (n
                + 1),
    );
    assert forall|i: int| 0 <= i < list.len() implies (#[trigger] p(i) <==> b * (n + 1) <= list[i]
        * bins && list[i] * bins < (b + 1) * (n + 1)) by {
        assert(ranks@.ranks.list(ranks@.ranks.names[q as int])[i] <= ranks@.n_draws);
        ranks_need_no_clamping(list[i] as nat, n as nat, bins as nat);
        let scaled = list[i] * bins;
        let bin = scaled / (n + 1);
        vstd::arithmetic::div_mod::lemma_fundamental_div_mod(scaled, n + 1);
        vstd::arithmetic::div_mod::lemma_mod_bound(scaled, n + 1);
        assert(bin == b <==> b * (n + 1) <= scaled && scaled < (b + 1) * (n + 1))
            by (nonlinear_arith)
            requires
                scaled == (n + 1) * bin + scaled % (n + 1),
                0 <= scaled % (n + 1) < n + 1,
                n >= 0,
        ;
    }
    assert(holding(p, list.len()) =~= part);
}

/// The table holds a line for every rank: the quantity, the rank and the number of draws,
/// in this order, under a heading.
pub proof fn every_rank_has_its_line(ranks: &SbcRanks, r: String, q: int, i: int)
    requires
        call_ensures(SbcRanks::csv, (ranks,), r),
        0 <= q < ranks@.ranks.names.len(),
        0 <= i < ranks@.ranks.lists[q].len(),
    ensures
        "quantity,rank,n_draws\n"@.is_prefix_of(r@),
        ({
            let words = ranks@.ranks.names[q] + ","@ + decimal(ranks@.ranks.lists[q][i] as nat)
                + ","@ + decimal(ranks@.n_draws as nat) + "\n"@;
            exists|at: int|
                "quantity,rank,n_draws\n"@.len() <= at && at + words.len() <= r@.len()
                    && #[trigger] r@.subrange(at, at + words.len()) == words
        }),
{
    let head = "quantity,rank,n_draws\n"@;
    let n = ranks@.n_draws;
    let (name, list) = (ranks@.ranks.names[q], ranks@.ranks.lists[q]);
    let words = line(name, list[i], n);
    let own = lines_of(name, list, n, list.len());
    let start = lines_of(name, list, n, i as nat).len() as int;
    let all = lines(ranks@.ranks, n, ranks@.ranks.names.len());
    let block = lines(ranks@.ranks, n, q as nat).len() as int;
    lemma_line_stands(name, list, n, i as nat, list.len());
    lemma_block_stands(ranks@.ranks, n, q as nat, ranks@.ranks.names.len());
    lemma_stands_within(head, all, own, words, block, start);
    let at = head.len() + block + start;
    assert(r@.subrange(at, at + words.len()) == words);
}

/// What stands in a part stands in the whole.
proof fn lemma_stands_within(
    head: Seq<char>,
    all: Seq<char>,
    own: Seq<char>,
    words: Seq<char>,
    block: int,
    start: int,
)
    requires
        0 <= block,
        0 <= start,
        block + own.len() <= all.len(),
        start + words.len() <= own.len(),
        all.subrange(block, block + own.len()) == own,
        own.subrange(start, start + words.len()) == words,
    ensures
        head.is_prefix_of(head + all),
        (head + all).subrange(
            head.len() + block + start,
            head.len() + block + start + words.len(),
        ) == words,
{
    let at = head.len() + block + start;
    assert((head + all).take(head.len() as int) =~= head);
    assert forall|k: int| 0 <= k < words.len() implies (head + all).subrange(
        at,
        at + words.len(),
    )[k] == words[k] by {
        assert(words[k] == own.subrange(start, start + words.len())[k]);
        assert(own[start + k] == all.subrange(block, block + own.len())[start + k]);
    }
    assert((head + all).subrange(at, at + words.len()) =~= words);
}

/// Where a line stands among those of its quantity.
proof fn lemma_line_stands(name: Seq<char>, list: Seq<usize>, n: usize, i: nat, k: nat)
    requires
        i < k,
    ensures
        ({
            let words = line(name, list[i as int], n);
            let start = lines_of(name, list, n, i).len();
            &&& start + words.len() <= lines_of(name, list, n, k).len()
            &&& lines_of(name, list, n, k).subrange(start as int, (start + words.len()) as int)
                == words
        }),
    decreases k,
{
    let words = line(name, list[i as int], n);
    let start = lines_of(name, list, n, i).len() as int;
    let before = lines_of(name, list, n, (k - 1) as nat);
    let all = lines_of(name, list, n, k);
    if i < k - 1 {
        lemma_line_stands(name, list, n, i, (k - 1) as nat);
        assert(all.subrange(start, start + words.len()) =~= before.subrange(
            start,
            start + words.len(),
        ));
    } else {
        assert(all.subrange(start, start + words.len()) =~= words);
    }
}

/// Where the lines of a quantity stand.
proof fn lemma_block_stands(table: Table<usize>, n: usize, q: nat, k: nat)
    requires
        q < k,
    ensures
        ({
            let own = lines_of(
                table.names[q as int],
                table.lists[q as int],
                n,
                table.lists[q as int].len(),
            );
            let start = lines(table, n, q).len();
            &&& start + own.len() <= lines(table, n, k).len()
            &&& lines(table, n, k).subrange(start as int, (start + own.len()) as int) == own
        }),
    decreases k,
{
    let own = lines_of(table.names[q as int], table.lists[q as int], n, table.lists[q as int].len());
    let start = lines(table, n, q).len() as int;
    let before = lines(table, n, (k - 1) as nat);
    let all = lines(table, n, k);
    if q < k - 1 {
        lemma_block_stands(table, n, q, (k - 1) as nat);
        assert(all.subrange(start, start + own.len()) =~= before.subrange(start, start + own.len()));
    } else {
        assert(all.subrange(start, start + own.len()) =~= own);
    }
}

/// A new ledger is empty and knows its number of draws; its ranks are read as they stand.
pub proof fn new_ledger_is_empty(
    n_draws: usize,
    ledger: SbcRanks,
    read: usize,
    ranks: &Named<usize>,
    name: Seq<char>,
)
    requires
        call_ensures(SbcRanks::new, (n_draws,), ledger),
        call_ensures(SbcRanks::n_draws, (&ledger,), read),
        call_ensures(SbcRanks::ranks, (&ledger,), ranks),
    ensures
        read == n_draws,
        !ranks@.has(name),
{
}

} // verus!
