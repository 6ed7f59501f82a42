//! Water-filling: how a bandwidth budget is shared between streams with a capped message rate.
//!
//! A stream that would send more messages than the cap allows is held at the cap. The bandwidth
//! that it leaves over goes to the other streams, in equal shares.
//!
//! The budget is a quotient, in bits per second. Amounts of bandwidth are whole multiples of its
//! unit: one bit per second divided by its denominator.
use crate::ratio::Ratio;
use vstd::prelude::*;

verus! {

/// What one stream gets of the budget.
#[derive(Debug, Clone, Copy, PartialEq, Eq, Structural)]
pub enum Allocation {
    /// As much as the capped message rate needs.
    Capped,
    /// An equal share of what the capped streams leave over.
    Share {
        /// What is left over, as a multiple of the unit of the budget.
        bits: u128,
        /// Between how many streams it is shared.
        among: usize,
    },
}

/// The bandwidth that a stream needs for each byte of its messages at the capped message rate, as a
/// multiple of the unit of the budget.
pub open spec fn byte_cap(budget: Ratio, max_msg_rate: u64) -> nat {
    (8 * max_msg_rate * budget.denominator) as nat
}

/// The bandwidth that a stream needs at the capped message rate.
pub open spec fn demand(size: u64, cap: nat) -> int {
    cap * size
}

/// The bandwidth that the capped streams need together.
pub open spec fn capped_demand(sizes: Seq<u64>, cap: nat, capped: Seq<bool>) -> int
    decreases sizes.len(),
{
    if sizes.len() == 0 {
        0
    } else {
        capped_demand(sizes.drop_last(), cap, capped.drop_last()) + if capped.last() {
            demand(sizes.last(), cap)
        } else {
            0
        }
    }
}

/// How many streams are not capped.
pub open spec fn uncapped(capped: Seq<bool>) -> int
    decreases capped.len(),
{
    if capped.len() == 0 {
        0
    } else {
        uncapped(capped.drop_last()) + if capped.last() {
            0int
        } else {
            1int
        }
    }
}

/// What the capped streams leave over of the budget.
pub open spec fn left_over(
    sizes: Seq<u64>,
    budget: nat,
    cap: nat,
    capped: Seq<bool>,
) -> int {
    budget - capped_demand(sizes, cap, capped)
}

/// Whether a choice of capped streams is the settled one. Either some streams are not capped; then
/// a stream is capped exactly if it needs less than an equal share of what the capped streams
/// leave over. Or all streams are capped; then something is left over that no stream can use.
pub open spec fn settled(
    sizes: Seq<u64>,
    budget: nat,
    cap: nat,
    capped: Seq<bool>,
) -> bool {
    let rest = left_over(sizes, budget, cap, capped);
    let sharers = uncapped(capped);
    &&& capped.len() == sizes.len()
    &&& if sharers == 0 {
        sizes.len() > 0 ==> rest > 0
    } else {
        forall|i: int|
            0 <= i < sizes.len() ==> (#[trigger] capped[i] <==> demand(sizes[i], cap)
                * sharers < rest)
    }
}

/// Which streams an allocation caps.
pub open spec fn caps(allocations: Seq<Allocation>) -> Seq<bool> {
    allocations.map_values(|a: Allocation| a == Allocation::Capped)
}

/// Whether these are the allocations of the settled choice.
pub open spec fn water_filled(
    sizes: Seq<u64>,
    budget: Ratio,
    max_msg_rate: u64,
    allocations: Seq<Allocation>,
) -> bool {
    let capped = caps(allocations);
    let (whole, cap) = (budget.numerator as nat, byte_cap(budget, max_msg_rate));
    &&& settled(sizes, whole, cap, capped)
    &&& forall|i: int|
        0 <= i < allocations.len() && #[trigger] allocations[i] != Allocation::Capped ==> {
            &&& allocations[i] matches Allocation::Share { bits, among }
            &&& bits == left_over(sizes, whole, cap, capped)
            &&& among == uncapped(capped)
        }
}

proof fn lemma_uncapped_range(capped: Seq<bool>)
    ensures
        0 <= uncapped(capped) <= capped.len(),
        (forall|i: int| 0 <= i < capped.len() ==> #[trigger] capped[i]) ==> uncapped(capped) == 0,
        (forall|i: int| 0 <= i < capped.len() ==> !#[trigger] capped[i]) ==> uncapped(capped)
            == capped.len(),
        uncapped(capped) == 0 ==> forall|i: int| 0 <= i < capped.len() ==> #[trigger] capped[i],
    decreases capped.len(),
{
    if capped.len() > 0 {
        let before = capped.drop_last();
        lemma_uncapped_range(before);
        assert(forall|i: int| 0 <= i < before.len() ==> before[i] == capped[i]);
        assert forall|i: int| uncapped(capped) == 0 && 0 <= i < capped.len() implies
            #[trigger] capped[i] by {
            if i < before.len() {
                assert(before[i]);
            }
        }
        if forall|i: int| 0 <= i < capped.len() ==> !#[trigger] capped[i] {
            assert(!capped[capped.len() - 1]);
        }
        if forall|i: int| 0 <= i < capped.len() ==> #[trigger] capped[i] {
            assert(capped[capped.len() - 1]);
        }
    }
}

proof fn lemma_cap_one(sizes: Seq<u64>, cap: nat, capped: Seq<bool>, i: int)
    requires
        sizes.len() == capped.len(),
        0 <= i < sizes.len(),
        !capped[i],
    ensures
        uncapped(capped.update(i, true)) == uncapped(capped) - 1,
        capped_demand(sizes, cap, capped.update(i, true)) == capped_demand(
            sizes,
            cap,
            capped,
        ) + demand(sizes[i], cap),
    decreases sizes.len(),
{
    let after = capped.update(i, true);
    if i < sizes.len() - 1 {
        lemma_cap_one(sizes.drop_last(), cap, capped.drop_last(), i);
        assert(after.drop_last() =~= capped.drop_last().update(i, true));
    } else {
        assert(after.drop_last() =~= capped.drop_last());
    }
}

proof fn lemma_no_caps(sizes: Seq<u64>, cap: nat, capped: Seq<bool>)
    requires
        sizes.len() == capped.len(),
        forall|i: int| 0 <= i < capped.len() ==> !#[trigger] capped[i],
    ensures
        capped_demand(sizes, cap, capped) == 0,
    decreases sizes.len(),
{
    if sizes.len() > 0 {
        assert(!capped[capped.len() - 1]);
        assert(forall|i: int|
            0 <= i < capped.drop_last().len() ==> capped.drop_last()[i] == capped[i]);
        lemma_no_caps(sizes.drop_last(), cap, capped.drop_last());
    }
}

/// The bandwidth that a stream needs at the capped message rate; `None` where it is more than any
/// budget.
fn needed(size: u64, max_msg_rate: u64, unit: u128) -> (r: Option<u128>)
    requires
        unit > 0,
    ensures
        r matches Some(n) ==> n == demand(size, (8 * max_msg_rate * unit) as nat),
        r is None ==> demand(size, (8 * max_msg_rate * unit) as nat) > u128::MAX,
{
    assert(max_msg_rate * size <= u128::MAX) by (nonlinear_arith)
        requires
            max_msg_rate <= u64::MAX,
            size <= u64::MAX,
    ;
    let product: u128 = max_msg_rate as u128 * size as u128;
    let ghost whole = demand(size, (8 * max_msg_rate * unit) as nat);
    proof {
        assert(8 * max_msg_rate * unit >= 0) by (nonlinear_arith);
        assert(whole == product * 8 * unit) by (nonlinear_arith)
            requires
                product == max_msg_rate * size,
                whole == (8 * max_msg_rate * unit) * size,
        ;
        assert(product * 8 <= whole) by (nonlinear_arith)
            requires
                whole == product * 8 * unit,
                unit >= 1,
                product >= 0,
        ;
    }
    match product.checked_mul(8) {
        Some(bits) => bits.checked_mul(unit),
        None => None,
    }
}

/// Tells whether a stream needs less than an equal share.
fn needs_less(need: Option<u128>, rest: u128, sharers: usize) -> (r: bool)
    requires
        sharers > 0,
    ensures
        r == (need matches Some(n) && n * sharers < rest),
{
    match need {
        Some(n) => match n.checked_mul(sharers as u128) {
            Some(all) => all < rest,
            None => false,
        },
        None => false,
    }
}

/// Shares a budget (in bits per second) between streams of the given message sizes (in bytes),
/// none of which may send more than `max_msg_rate` messages per second.
pub fn water_fill_rates(sizes: &[u64], budget: Ratio, max_msg_rate: u64) -> (r: Vec<Allocation>)
    requires
        budget.wf(),
    ensures
        r@.len() == sizes@.len(),
        water_filled(sizes@, budget, max_msg_rate, r@),
{
    let n: usize = sizes.len();
    let mut capped: Vec<bool> = Vec::new();
    for i in 0..n
        invariant
            capped@.len() == i,
            forall|k: int| 0 <= k < i ==> !#[trigger] capped@[k],
    {
        capped.push(false);
    }
    let mut rest: u128 = budget.numerator;
    let ghost whole = budget.numerator as nat;
    let ghost cap = byte_cap(budget, max_msg_rate);
    let mut sharers: usize = n;
    proof {
        lemma_uncapped_range(capped@);
        lemma_no_caps(sizes@, cap, capped@);
    }
    let mut done: bool = false;
    while !done && sharers > 0
        invariant
            n == sizes@.len(),
            budget.wf(),
            cap == byte_cap(budget, max_msg_rate),
            capped@.len() == n,
            rest == left_over(sizes@, whole, cap, capped@),
            sharers == uncapped(capped@),
            n > 0 && sharers == 0 ==> rest > 0,
            forall|k: int|
                0 <= k < n && #[trigger] capped@[k] ==> sharers == 0 || demand(sizes@[k], cap)
                    * sharers < rest,
            done ==> sharers > 0,
            done ==> forall|k: int|
                0 <= k < n && !#[trigger] capped@[k] ==> demand(sizes@[k], cap) * sharers
                    >= rest,
        decreases sharers, !done as int,
    {
        let rest_before: u128 = rest;
        let sharers_before: usize = sharers;
        let ghost capped_before = capped@;
        for i in 0..n
            invariant
                n == sizes@.len(),
                budget.wf(),
                cap == byte_cap(budget, max_msg_rate),
                capped@.len() == n,
                capped_before.len() == n,
                sharers_before > 0,
                rest == left_over(sizes@, whole, cap, capped@),
                sharers == uncapped(capped@),
                sharers <= sharers_before,
                sharers == sharers_before ==> rest == rest_before && capped@ == capped_before,
                rest * sharers_before >= rest_before * sharers,
                sharers < sharers_before ==> rest * sharers_before > rest_before * sharers,
                forall|k: int|
                    0 <= k < n && #[trigger] capped@[k] ==> demand(sizes@[k], cap)
                        * sharers_before < rest_before,
                forall|k: int|
                    0 <= k < i && !#[trigger] capped@[k] ==> demand(sizes@[k], cap)
                        * sharers_before >= rest_before,
        {
            let need = needed(sizes[i], max_msg_rate, budget.denominator);
            let ghost d = demand(sizes@[i as int], cap);
            assert(need is None ==> d * sharers_before > rest_before) by (nonlinear_arith)
                requires
                    need is None ==> d > u128::MAX,
                    rest_before <= u128::MAX,
                    sharers_before >= 1,
            ;
            if !capped[i] && needs_less(need, rest_before, sharers_before) {
                proof {
                    lemma_uncapped_range(capped@);
                    lemma_cap_one(sizes@, cap, capped@, i as int);
                    lemma_uncapped_range(capped@.update(i as int, true));
                    assert((rest - d) * sharers_before > rest_before * (sharers - 1))
                        by (nonlinear_arith)
                        requires
                            rest * sharers_before >= rest_before * sharers,
                            d * sharers_before < rest_before,
                    ;
                    assert(rest - d > 0) by (nonlinear_arith)
                        requires
                            (rest - d) * sharers_before > rest_before * (sharers - 1),
                            sharers >= 1,
                            sharers_before > 0,
                            rest_before >= 0,
                    ;
                }
                capped.set(i, true);
                rest = rest - need.unwrap();
                sharers = sharers - 1;
            }
        }
        if sharers == sharers_before {
            done = true;
        } else {
            proof {
                lemma_uncapped_range(capped@);
                if sharers == 0 {
                    assert(rest > 0) by (nonlinear_arith)
                        requires
                            rest * sharers_before > rest_before * sharers,
                            sharers == 0,
                    ;
                } else {
                    assert forall|k: int| 0 <= k < n && #[trigger] capped@[k] implies demand(
                        sizes@[k],
                        cap,
                    ) * sharers < rest by {
                        let d = demand(sizes@[k], cap);
                        assert(d * sharers < rest) by (nonlinear_arith)
                            requires
                                d * sharers_before < rest_before,
                                rest * sharers_before > rest_before * sharers,
                                sharers > 0,
                                sharers_before > 0,
                        ;
                    }
                }
            }
        }
    }
    let mut r: Vec<Allocation> = Vec::new();
    for i in 0..n
        invariant
            n == sizes@.len(),
            capped@.len() == n,
            r@.len() == i,
            forall|k: int|
                0 <= k < i ==> #[trigger] r@[k] == if capped@[k] {
                    Allocation::Capped
                } else {
                    Allocation::Share { bits: rest, among: sharers }
                },
    {
        if capped[i] {
            r.push(Allocation::Capped);
        } else {
            r.push(Allocation::Share { bits: rest, among: sharers });
        }
    }
    assert(caps(r@) =~= capped@);
    r
}

/// What the streams get: a capped stream needs no more than the budget. A share is between at least
/// one stream and no more than there are, and is more neither than the budget nor than the streams
/// that share it need.
pub proof fn lemma_shares(
    sizes: Seq<u64>,
    budget: Ratio,
    max_msg_rate: u64,
    allocations: Seq<Allocation>,
    i: int,
)
    requires
        water_filled(sizes, budget, max_msg_rate, allocations),
        0 <= i < sizes.len(),
    ensures
        ({
            let d = demand(sizes[i], byte_cap(budget, max_msg_rate));
            match allocations[i] {
                Allocation::Capped => d <= budget.numerator,
                Allocation::Share { bits, among } => 0 < among <= sizes.len() && bits
                    <= budget.numerator && bits <= d * among,
            }
        }),
{
    let capped = caps(allocations);
    let (whole, cap) = (budget.numerator as nat, byte_cap(budget, max_msg_rate));
    lemma_uncapped_range(capped);
    law_budget_is_kept(sizes, whole, cap, capped);
    assert(capped[i] == (allocations[i] == Allocation::Capped));
    if capped[i] {
        lemma_one_demand(sizes, cap, capped, i);
    } else {
        law_rate_cap_is_kept(sizes, whole, cap, capped, i);
    }
}

proof fn lemma_one_demand(sizes: Seq<u64>, cap: nat, capped: Seq<bool>, i: int)
    requires
        capped.len() == sizes.len(),
        0 <= i < sizes.len(),
        capped[i],
    ensures
        demand(sizes[i], cap) <= capped_demand(sizes, cap, capped),
    decreases sizes.len(),
{
    let (s1, c1) = (sizes.drop_last(), capped.drop_last());
    let size = sizes.last();
    assert(cap * size >= 0) by (nonlinear_arith);
    if i < sizes.len() - 1 {
        lemma_one_demand(s1, cap, c1, i);
    } else {
        lemma_demands(s1, cap, c1);
    }
}

/// The settled choice leaves the budget whole: what the capped streams need and what the others
/// share make up the budget, and neither is negative.
pub proof fn law_budget_is_kept(sizes: Seq<u64>, budget: nat, cap: nat, capped: Seq<bool>)
    requires
        settled(sizes, budget, cap, capped),
    ensures
        capped_demand(sizes, cap, capped) + left_over(sizes, budget, cap, capped)
            == budget,
        capped_demand(sizes, cap, capped) >= 0,
        left_over(sizes, budget, cap, capped) >= 0,
{
    lemma_demands(sizes, cap, capped);
    lemma_uncapped_range(capped);
    let rest = left_over(sizes, budget, cap, capped);
    let sharers = uncapped(capped);
    if rest < 0 {
        if sizes.len() == 0 {
            assert(capped_demand(sizes, cap, capped) == 0);
        } else {
            assert forall|i: int| 0 <= i < capped.len() implies !#[trigger] capped[i] by {
                let d = demand(sizes[i], cap);
                assert(d * sharers >= 0) by (nonlinear_arith)
                    requires
                        d == cap * sizes[i],
                        sharers >= 0,
                ;
            }
            lemma_no_caps(sizes, cap, capped);
        }
    }
}

/// What the streams get together, as a multiple of one `among`-th of the unit of the budget.
pub open spec fn parts(
    sizes: Seq<u64>,
    cap: nat,
    allocations: Seq<Allocation>,
    among: int,
) -> int
    decreases sizes.len(),
{
    if sizes.len() == 0 {
        0
    } else {
        let before = parts(sizes.drop_last(), cap, allocations.drop_last(), among);
        match allocations.last() {
            Allocation::Capped => before + demand(sizes.last(), cap) * among,
            Allocation::Share { bits, .. } => before + bits,
        }
    }
}

/// The parts of the streams add up to the whole budget, as long as one stream is not capped. Where
/// all are capped they get less.
pub proof fn law_parts_add_up(
    sizes: Seq<u64>,
    budget: Ratio,
    max_msg_rate: u64,
    allocations: Seq<Allocation>,
)
    requires
        water_filled(sizes, budget, max_msg_rate, allocations),
        sizes.len() > 0,
    ensures
        ({
            let sharers = uncapped(caps(allocations));
            let cap = byte_cap(budget, max_msg_rate);
            if sharers > 0 {
                parts(sizes, cap, allocations, sharers) == budget.numerator * sharers
            } else {
                parts(sizes, cap, allocations, 1) < budget.numerator
            }
        }),
{
    let capped = caps(allocations);
    let (whole, cap) = (budget.numerator as nat, byte_cap(budget, max_msg_rate));
    let sharers = uncapped(capped);
    let rest = left_over(sizes, whole, cap, capped);
    let used = capped_demand(sizes, cap, capped);
    lemma_uncapped_range(capped);
    assert(forall|i: int|
        0 <= i < capped.len() ==> #[trigger] capped[i] == (allocations[i] == Allocation::Capped));
    if sharers > 0 {
        lemma_parts(sizes, cap, allocations, sharers, rest);
        assert(used * sharers + sharers * rest == whole * sharers) by (nonlinear_arith)
            requires
                rest == whole - used,
        ;
    } else {
        lemma_parts(sizes, cap, allocations, 1, rest);
        assert(sharers * rest == 0) by (nonlinear_arith)
            requires
                sharers == 0,
        ;
    }
}

proof fn lemma_parts(
    sizes: Seq<u64>,
    cap: nat,
    allocations: Seq<Allocation>,
    among: int,
    rest: int,
)
    requires
        allocations.len() == sizes.len(),
        forall|i: int|
            0 <= i < allocations.len() ==> (#[trigger] allocations[i] matches Allocation::Share {
                bits,
                ..
            } ==> bits == rest),
    ensures
        parts(sizes, cap, allocations, among) == capped_demand(
            sizes,
            cap,
            caps(allocations),
        ) * among + uncapped(caps(allocations)) * rest,
    decreases sizes.len(),
{
    let capped = caps(allocations);
    if sizes.len() > 0 {
        let (s1, a1) = (sizes.drop_last(), allocations.drop_last());
        assert(forall|i: int| 0 <= i < a1.len() ==> a1[i] == allocations[i]);
        lemma_parts(s1, cap, a1, among, rest);
        assert(caps(a1) =~= capped.drop_last());
        let last = allocations[allocations.len() - 1];
        let used = capped_demand(s1, cap, caps(a1));
        let count = uncapped(caps(a1));
        let d = demand(sizes.last(), cap);
        assert((used + d) * among == used * among + d * among) by (nonlinear_arith);
        assert((count + 1) * rest == count * rest + rest) by (nonlinear_arith);
        assert(capped.last() == (last == Allocation::Capped));
    } else {
        assert(0 * among + 0 * rest == 0) by (nonlinear_arith);
    }
}

/// No stream sends more than the capped rate allows: a share is never more than the stream could
/// use.
pub proof fn law_rate_cap_is_kept(
    sizes: Seq<u64>,
    budget: nat,
    cap: nat,
    capped: Seq<bool>,
    i: int,
)
    requires
        settled(sizes, budget, cap, capped),
        0 <= i < sizes.len(),
        !capped[i],
    ensures
        left_over(sizes, budget, cap, capped) <= demand(sizes[i], cap) * uncapped(
            capped,
        ),
{
    lemma_uncapped_range(capped);
}

/// Streams of small messages are capped before streams of larger ones.
pub proof fn law_small_messages_are_capped_first(
    sizes: Seq<u64>,
    budget: nat,
    cap: nat,
    capped: Seq<bool>,
    i: int,
    j: int,
)
    requires
        settled(sizes, budget, cap, capped),
        0 <= i < sizes.len(),
        0 <= j < sizes.len(),
        sizes[i] <= sizes[j],
        capped[j],
    ensures
        capped[i],
{
    lemma_uncapped_range(capped);
    let sharers = uncapped(capped);
    if sharers > 0 {
        let (a, b) = (sizes[i], sizes[j]);
        assert(cap * a * sharers <= cap * b * sharers)
            by (nonlinear_arith)
            requires
                0 <= a <= b,
                0 <= sharers,
                0 <= cap,
        ;
    }
}

/// What capped streams leave over goes to the others: a share is at least what dividing the budget
/// equally between all streams would give.
pub proof fn law_left_over_is_passed_on(
    sizes: Seq<u64>,
    budget: nat,
    cap: nat,
    capped: Seq<bool>,
)
    requires
        settled(sizes, budget, cap, capped),
        uncapped(capped) > 0,
    ensures
        left_over(sizes, budget, cap, capped) * sizes.len() >= budget * uncapped(capped),
{
    let rest = left_over(sizes, budget, cap, capped);
    let sharers = uncapped(capped);
    let used = capped_demand(sizes, cap, capped);
    lemma_capped_use_little(sizes, cap, capped, sharers, rest);
    assert(rest * sizes.len() >= budget * sharers) by (nonlinear_arith)
        requires
            used * sharers <= (sizes.len() - sharers) * rest,
            rest == budget - used,
    ;
}

/// Every stream of a run with a budget and a rate cap gets something.
pub proof fn law_every_stream_gets_something(
    sizes: Seq<u64>,
    budget: nat,
    cap: nat,
    capped: Seq<bool>,
    i: int,
)
    requires
        settled(sizes, budget, cap, capped),
        0 <= i < sizes.len(),
        budget > 0,
        cap > 0,
        sizes[i] > 0,
    ensures
        capped[i] ==> demand(sizes[i], cap) > 0,
        !capped[i] ==> left_over(sizes, budget, cap, capped) > 0,
{
    lemma_uncapped_range(capped);
    let size = sizes[i];
    assert(cap * size > 0) by (nonlinear_arith)
        requires
            cap > 0,
            size > 0,
    ;
    if !capped[i] {
        law_left_over_is_passed_on(sizes, budget, cap, capped);
        let rest = left_over(sizes, budget, cap, capped);
        let sharers = uncapped(capped);
        assert(rest > 0) by (nonlinear_arith)
            requires
                rest * sizes.len() >= budget * sharers,
                budget > 0,
                sharers > 0,
        ;
    }
}

/// There is no more than one settled choice of capped streams.
pub proof fn law_settled_choice_is_unique(
    sizes: Seq<u64>,
    budget: nat,
    cap: nat,
    a: Seq<bool>,
    b: Seq<bool>,
)
    requires
        settled(sizes, budget, cap, a),
        settled(sizes, budget, cap, b),
    ensures
        a == b,
{
    lemma_uncapped_range(a);
    lemma_uncapped_range(b);
    let (rest_a, rest_b) = (
        left_over(sizes, budget, cap, a),
        left_over(sizes, budget, cap, b),
    );
    let (m_a, m_b) = (uncapped(a), uncapped(b));
    if m_a == 0 && m_b == 0 {
        assert(a =~= b);
    } else if m_b == 0 || (m_a > 0 && rest_a * m_b <= rest_b * m_a) {
        lemma_settled_within(sizes, budget, cap, a, b);
    } else {
        lemma_settled_within(sizes, budget, cap, b, a);
    }
}

proof fn lemma_settled_within(
    sizes: Seq<u64>,
    budget: nat,
    cap: nat,
    a: Seq<bool>,
    b: Seq<bool>,
)
    requires
        settled(sizes, budget, cap, a),
        settled(sizes, budget, cap, b),
        uncapped(a) > 0,
        uncapped(b) == 0 || left_over(sizes, budget, cap, a) * uncapped(b) <= left_over(
            sizes,
            budget,
            cap,
            b,
        ) * uncapped(a),
    ensures
        a == b,
{
    lemma_uncapped_range(a);
    lemma_uncapped_range(b);
    let (rest_a, rest_b) = (
        left_over(sizes, budget, cap, a),
        left_over(sizes, budget, cap, b),
    );
    let (m_a, m_b) = (uncapped(a), uncapped(b));
    assert forall|i: int| 0 <= i < a.len() && #[trigger] a[i] implies b[i] by {
        if m_b > 0 {
            let d = demand(sizes[i], cap);
            assert(d * m_b < rest_b) by (nonlinear_arith)
                requires
                    d * m_a < rest_a,
                    rest_a * m_b <= rest_b * m_a,
                    m_a > 0,
                    m_b > 0,
            ;
        } else {
            assert(b[i]);
        }
    }
    lemma_extra_caps_cost(sizes, cap, a, b, m_a, rest_a);
    let (used_a, used_b) = (
        capped_demand(sizes, cap, a),
        capped_demand(sizes, cap, b),
    );
    assert(rest_b * m_a <= rest_a * m_b) by (nonlinear_arith)
        requires
            (used_b - used_a) * m_a >= (m_a - m_b) * rest_a,
            rest_a == budget - used_a,
            rest_b == budget - used_b,
    ;
    if m_b == 0 {
        assert(rest_b <= 0) by (nonlinear_arith)
            requires
                rest_b * m_a <= rest_a * m_b,
                m_b == 0,
                m_a > 0,
        ;
    } else {
        assert forall|i: int| 0 <= i < a.len() implies #[trigger] a[i] == b[i] by {
            let d = demand(sizes[i], cap);
            if b[i] {
                assert(d * m_a < rest_a) by (nonlinear_arith)
                    requires
                        d * m_b < rest_b,
                        rest_b * m_a <= rest_a * m_b,
                        m_a > 0,
                        m_b > 0,
                ;
            }
        }
        assert(a =~= b);
    }
}

proof fn lemma_extra_caps_cost(
    sizes: Seq<u64>,
    cap: nat,
    a: Seq<bool>,
    b: Seq<bool>,
    sharers: int,
    rest: int,
)
    requires
        a.len() == sizes.len(),
        b.len() == sizes.len(),
        forall|i: int| 0 <= i < a.len() && #[trigger] a[i] ==> b[i],
        forall|i: int|
            0 <= i < a.len() && !#[trigger] a[i] ==> demand(sizes[i], cap) * sharers
                >= rest,
    ensures
        (capped_demand(sizes, cap, b) - capped_demand(sizes, cap, a)) * sharers
            >= (uncapped(a) - uncapped(b)) * rest,
    decreases sizes.len(),
{
    if sizes.len() > 0 {
        let (s1, a1, b1) = (sizes.drop_last(), a.drop_last(), b.drop_last());
        assert(forall|i: int| 0 <= i < a1.len() ==> a1[i] == a[i]);
        assert(forall|i: int| 0 <= i < b1.len() ==> b1[i] == b[i]);
        lemma_extra_caps_cost(s1, cap, a1, b1, sharers, rest);
        let last = sizes.len() - 1;
        let d = demand(sizes[last], cap);
        let more = capped_demand(s1, cap, b1) - capped_demand(s1, cap, a1);
        let fewer = uncapped(a1) - uncapped(b1);
        assert(a[last] ==> b[last]);
        if b[last] && !a[last] {
            assert((more + d) * sharers >= (fewer + 1) * rest) by (nonlinear_arith)
                requires
                    more * sharers >= fewer * rest,
                    d * sharers >= rest,
            ;
        }
    } else {
        assert((0int) * sharers >= (0int) * rest) by (nonlinear_arith);
    }
}

proof fn lemma_capped_use_little(
    sizes: Seq<u64>,
    cap: nat,
    capped: Seq<bool>,
    sharers: int,
    rest: int,
)
    requires
        capped.len() == sizes.len(),
        forall|i: int|
            0 <= i < capped.len() && #[trigger] capped[i] ==> demand(sizes[i], cap)
                * sharers < rest,
    ensures
        capped_demand(sizes, cap, capped) * sharers <= (sizes.len() - uncapped(capped))
            * rest,
    decreases sizes.len(),
{
    if sizes.len() > 0 {
        let (s1, c1) = (sizes.drop_last(), capped.drop_last());
        assert(forall|i: int| 0 <= i < c1.len() ==> c1[i] == capped[i]);
        lemma_capped_use_little(s1, cap, c1, sharers, rest);
        let last = sizes.len() - 1;
        if capped[last] {
            let d = demand(sizes[last], cap);
            let used = capped_demand(s1, cap, c1);
            let count = s1.len() - uncapped(c1);
            assert((used + d) * sharers <= (count + 1) * rest) by (nonlinear_arith)
                requires
                    used * sharers <= count * rest,
                    d * sharers < rest,
            ;
        }
    } else {
        assert((0int) * sharers <= (0int) * rest) by (nonlinear_arith);
    }
}

proof fn lemma_demands(sizes: Seq<u64>, cap: nat, capped: Seq<bool>)
    requires
        capped.len() == sizes.len(),
    ensures
        capped_demand(sizes, cap, capped) >= 0,
    decreases sizes.len(),
{
    if sizes.len() > 0 {
        lemma_demands(sizes.drop_last(), cap, capped.drop_last());
        let size = sizes.last();
        assert(cap * size >= 0) by (nonlinear_arith);
    }
}

/// A stream that has a run to itself gets the whole budget, unless its messages at the capped rate
/// need less: then it gets that much.
pub proof fn law_single_stream(
    size: u64,
    budget: Ratio,
    max_msg_rate: u64,
    allocations: Seq<Allocation>,
)
    requires
        water_filled(seq![size], budget, max_msg_rate, allocations),
    ensures
        allocations.len() == 1,
        8 * max_msg_rate * budget.denominator * size < budget.numerator ==> allocations[0]
            == Allocation::Capped,
        8 * max_msg_rate * budget.denominator * size >= budget.numerator ==> allocations[0] == (
        Allocation::Share { bits: budget.numerator, among: 1 }),
{
    let capped = caps(allocations);
    let cap = byte_cap(budget, max_msg_rate);
    let sizes = seq![size];
    lemma_uncapped_range(capped);
    assert(8 * max_msg_rate * budget.denominator >= 0) by (nonlinear_arith);
    assert(capped[0] == (allocations[0] == Allocation::Capped));
    assert(sizes.drop_last().len() == 0 && capped.drop_last().len() == 0);
    assert(capped_demand(sizes.drop_last(), cap, capped.drop_last()) == 0);
    assert(uncapped(capped.drop_last()) == 0);
    let d = demand(size, cap);
    assert(d == 8 * max_msg_rate * budget.denominator * size);
    assert(d * 1 == d);
}

/// A stream is capped exactly if its allocation says so.
pub proof fn law_caps_one_by_one(allocations: Seq<Allocation>, i: int)
    requires
        0 <= i < allocations.len(),
    ensures
        caps(allocations).len() == allocations.len(),
        caps(allocations)[i] <==> allocations[i] == Allocation::Capped,
{
}

} // verus!
