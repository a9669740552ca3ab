//! Reduction of a sequence of search results to summary statistics.
//!
//! Everything here is exact integer arithmetic: a mean is a fraction of two
//! integers, and nothing is rounded.

use crate::engine_result::{EngineResult, EngineResultView};
use crate::text::{
    all_digits, decimal_value, find, find_text, is_digit, lemma_find_from, parse_i32,
    parse_signed, split_whitespace, tokens,
};
use crate::wide::{lemma_limb_product, pow256, Wide};
use std::collections::BTreeMap;
use vstd::prelude::*;

verus! {

/// The token that introduces a mate distance in a score text: `mate` and one
/// space.
pub open spec fn mate_key() -> Seq<char> {
    seq!['m', 'a', 't', 'e', ' ']
}

/// The absolute value of `v`.
pub open spec fn magnitude(v: i32) -> u32 {
    if v < 0 {
        (-v) as u32
    } else {
        v as u32
    }
}

/// The token that follows the first `mate ` in `score`, if there is one.
pub open spec fn mate_token(score: Seq<char>) -> Option<Seq<char>> {
    match find(score, mate_key()) {
        None => None,
        Some(at) => {
            let rest = tokens(score.subrange(at + 5, score.len() as int));
            if rest.len() == 0 {
                None
            } else {
                Some(rest[0])
            }
        },
    }
}

/// The mate distance that a score text announces: the absolute value of the
/// signed integer that follows the first `mate ` in it. A text without
/// `mate `, or with anything but a 32-bit integer after it, announces none.
pub open spec fn mate_distance(score: Seq<char>) -> Option<u32> {
    match mate_token(score) {
        None => None,
        Some(token) => match parse_signed(token) {
            None => None,
            Some(v) => Some(magnitude(v)),
        },
    }
}

/// Reads the mate distance that a score text announces.
pub fn mate_distance_of(score: &str) -> (r: Option<u32>)
    ensures
        r == mate_distance(score@),
{
    proof {
        reveal_strlit("mate ");
        assert("mate "@ =~= mate_key());
    }
    match find_text(score, "mate ") {
        None => None,
        Some(at) => {
            proof {
                lemma_find_from(score@, mate_key(), 0);
            }
            let len = score.unicode_len();
            let rest = score.substring_char(at + 5, len);
            let parts = split_whitespace(rest);
            if parts.len() == 0 {
                None
            } else {
                assert(parts.deep_view()[0] == parts[0]@);
                match parse_i32(parts[0].as_str()) {
                    None => None,
                    Some(v) => {
                        if v == i32::MIN {
                            Some(0x8000_0000)
                        } else if v < 0 {
                            Some((-v) as u32)
                        } else {
                            Some(v as u32)
                        }
                    },
                }
            }
        },
    }
}

/// How many of `results` announce the mate distance `d`.
pub open spec fn mates_at(results: Seq<EngineResultView>, d: u32) -> nat
    decreases results.len(),
{
    if results.len() == 0 {
        0
    } else {
        mates_at(results.drop_last(), d) + if mate_distance(results.last().score) == Some(d) {
            1nat
        } else {
            0nat
        }
    }
}

/// How many of `results` announce a mate distance at all.
pub open spec fn mates_total(results: Seq<EngineResultView>) -> nat
    decreases results.len(),
{
    if results.len() == 0 {
        0
    } else {
        mates_total(results.drop_last()) + if mate_distance(results.last().score) is Some {
            1nat
        } else {
            0nat
        }
    }
}

/// No bucket counts more than the total, and the total counts no more than
/// there are results.
pub proof fn lemma_mates_at_bound(results: Seq<EngineResultView>, d: u32)
    ensures
        mates_at(results, d) <= mates_total(results) <= results.len(),
    decreases results.len(),
{
    if results.len() > 0 {
        lemma_mates_at_bound(results.drop_last(), d);
    }
}

/// Whether `hist` holds, for each distance that some result announces, the
/// number of results that announce it, and nothing else.
pub open spec fn is_mate_histogram(hist: Map<u32, u64>, results: Seq<EngineResultView>) -> bool {
    &&& forall|d: u32| #[trigger] hist.contains_key(d) <==> mates_at(results, d) > 0
    &&& forall|d: u32| #[trigger] hist.contains_key(d) ==> hist[d] == mates_at(results, d)
}

/// Counts the results by the mate distance they announce.
pub fn mate_histogram(results: &Vec<EngineResult>) -> (hist: BTreeMap<u32, u64>)
    ensures
        is_mate_histogram(hist@, results.deep_view()),
{
    let mut hist: BTreeMap<u32, u64> = BTreeMap::new();
    let n = results.len();
    let mut i: usize = 0;
    assert(results.deep_view().take(0) =~= Seq::<EngineResultView>::empty());
    while i < n
        invariant
            n == results.len(),
            i <= n,
            is_mate_histogram(hist@, results.deep_view().take(i as int)),
        decreases n - i,
    {
        let ghost before = results.deep_view().take(i as int);
        let ghost after = results.deep_view().take(i + 1);
        proof {
            assert(after.drop_last() =~= before);
            assert(after.last() == results.deep_view()[i as int]);
        }
        match mate_distance_of(results[i].score.as_str()) {
            Some(d) => {
                let seen: u64 = match hist.get(&d) {
                    Some(c) => *c,
                    None => 0,
                };
                proof {
                    lemma_mates_at_bound(before, d);
                }
                hist.insert(d, seen + 1);
            },
            None => {},
        }
        i += 1;
    }
    assert(results.deep_view().take(n as int) =~= results.deep_view());
    hist
}

/// Counts the results that announce a mate distance.
pub fn count_mates(results: &Vec<EngineResult>) -> (total: u64)
    ensures
        total == mates_total(results.deep_view()),
{
    let n = results.len();
    let mut total: u64 = 0;
    let mut i: usize = 0;
    assert(results.deep_view().take(0) =~= Seq::<EngineResultView>::empty());
    while i < n
        invariant
            n == results.len(),
            i <= n,
            total == mates_total(results.deep_view().take(i as int)),
            total <= i,
        decreases n - i,
    {
        proof {
            let all = results.deep_view();
            assert(all.take(i + 1).drop_last() =~= all.take(i as int));
        }
        if mate_distance_of(results[i].score.as_str()).is_some() {
            total += 1;
        }
        i += 1;
    }
    assert(results.deep_view().take(n as int) =~= results.deep_view());
    total
}

/// The four counters that every result carries.
#[derive(Clone, Copy, Debug, PartialEq, Eq, Structural)]
pub enum Field {
    Nodes,
    TimeMs,
    Nps,
    Depth,
}

pub open spec fn field_value(r: EngineResultView, f: Field) -> u64 {
    match f {
        Field::Nodes => r.nodes,
        Field::TimeMs => r.time_ms,
        Field::Nps => r.nps,
        Field::Depth => r.depth as u64,
    }
}

pub fn field_of(r: &EngineResult, f: Field) -> (v: u64)
    ensures
        v == field_value(r@, f),
{
    match f {
        Field::Nodes => r.nodes,
        Field::TimeMs => r.time_ms,
        Field::Nps => r.nps,
        Field::Depth => r.depth as u64,
    }
}

/// The sum of one counter over all results.
pub open spec fn total(results: Seq<EngineResultView>, f: Field) -> nat
    decreases results.len(),
{
    if results.len() == 0 {
        0
    } else {
        total(results.drop_last(), f) + field_value(results.last(), f) as nat
    }
}

/// A total is at most the number of results times the greatest value of a
/// counter, so it fits in 128 bits.
pub proof fn lemma_total_bound(results: Seq<EngineResultView>, f: Field)
    ensures
        total(results, f) <= results.len() * u64::MAX,
    decreases results.len(),
{
    if results.len() > 0 {
        lemma_total_bound(results.drop_last(), f);
    }
}

/// Adds up one counter over all results.
pub fn total_of(results: &Vec<EngineResult>, f: Field) -> (sum: u128)
    ensures
        sum == total(results.deep_view(), f),
{
    let n = results.len();
    let mut sum: u128 = 0;
    let mut i: usize = 0;
    assert(results.deep_view().take(0) =~= Seq::<EngineResultView>::empty());
    while i < n
        invariant
            n == results.len(),
            i <= n,
            sum == total(results.deep_view().take(i as int), f),
        decreases n - i,
    {
        proof {
            let all = results.deep_view();
            assert(all.take(i + 1).drop_last() =~= all.take(i as int));
            lemma_total_bound(results.deep_view().take(i as int), f);
        }
        sum += field_of(&results[i], f) as u128;
        i += 1;
    }
    assert(results.deep_view().take(n as int) =~= results.deep_view());
    sum
}

/// An exact fraction of two integers; `den` is never zero.
#[derive(Clone, Copy, Debug, PartialEq, Eq, Structural)]
pub struct Ratio {
    pub num: u128,
    pub den: u128,
}

/// The arithmetic mean of one counter, scaled down by `scale`: the total
/// over the number of results times `scale`, and zero over one when there
/// are no results.
pub open spec fn scaled_mean(results: Seq<EngineResultView>, f: Field, scale: u64) -> Ratio {
    if results.len() == 0 {
        Ratio { num: 0, den: 1 }
    } else {
        Ratio { num: total(results, f) as u128, den: (results.len() * scale) as u128 }
    }
}

/// The arithmetic mean of one counter.
pub open spec fn mean(results: Seq<EngineResultView>, f: Field) -> Ratio {
    scaled_mean(results, f, 1)
}

pub fn scaled_mean_of(results: &Vec<EngineResult>, f: Field, scale: u64) -> (m: Ratio)
    requires
        scale > 0,
    ensures
        m == scaled_mean(results.deep_view(), f, scale),
        m.den > 0,
{
    let n = results.len();
    if n == 0 {
        Ratio { num: 0, den: 1 }
    } else {
        proof {
            lemma_total_bound(results.deep_view(), f);
            assert(0 < n * scale <= u64::MAX * u64::MAX) by (nonlinear_arith)
                requires
                    0 < n <= u64::MAX,
                    0 < scale <= u64::MAX,
            ;
        }
        Ratio { num: total_of(results, f), den: (n as u128) * (scale as u128) }
    }
}

pub fn mean_of(results: &Vec<EngineResult>, f: Field) -> (m: Ratio)
    ensures
        m == mean(results.deep_view(), f),
        m.den > 0,
{
    scaled_mean_of(results, f, 1)
}

/// Whether `m` is the greatest value of the counter among `results`, or zero
/// when there are none.
pub open spec fn is_max(results: Seq<EngineResultView>, f: Field, m: u64) -> bool {
    if results.len() == 0 {
        m == 0
    } else {
        &&& forall|i: int| 0 <= i < results.len() ==> field_value(#[trigger] results[i], f) <= m
        &&& exists|i: int| 0 <= i < results.len() && field_value(#[trigger] results[i], f) == m
    }
}

/// Whether `m` is the least value of the counter among `results`, or zero
/// when there are none.
pub open spec fn is_min(results: Seq<EngineResultView>, f: Field, m: u64) -> bool {
    if results.len() == 0 {
        m == 0
    } else {
        &&& forall|i: int| 0 <= i < results.len() ==> field_value(#[trigger] results[i], f) >= m
        &&& exists|i: int| 0 <= i < results.len() && field_value(#[trigger] results[i], f) == m
    }
}

/// The greatest value of one counter.
pub fn max_of(results: &Vec<EngineResult>, f: Field) -> (m: u64)
    ensures
        is_max(results.deep_view(), f, m),
{
    let n = results.len();
    if n == 0 {
        return 0;
    }
    let mut m: u64 = field_of(&results[0], f);
    let mut i: usize = 1;
    assert(results.deep_view()[0] == results[0]@);
    while i < n
        invariant
            n == results.len(),
            1 <= i <= n,
            forall|k: int| 0 <= k < i ==> field_value(#[trigger] results.deep_view()[k], f) <= m,
            exists|k: int| 0 <= k < i && field_value(#[trigger] results.deep_view()[k], f) == m,
        decreases n - i,
    {
        let v = field_of(&results[i], f);
        assert(results.deep_view()[i as int] == results[i as int]@);
        if v > m {
            m = v;
        }
        i += 1;
    }
    m
}

/// The least value of one counter.
pub fn min_of(results: &Vec<EngineResult>, f: Field) -> (m: u64)
    ensures
        is_min(results.deep_view(), f, m),
{
    let n = results.len();
    if n == 0 {
        return 0;
    }
    let mut m: u64 = field_of(&results[0], f);
    let mut i: usize = 1;
    assert(results.deep_view()[0] == results[0]@);
    while i < n
        invariant
            n == results.len(),
            1 <= i <= n,
            forall|k: int| 0 <= k < i ==> field_value(#[trigger] results.deep_view()[k], f) >= m,
            exists|k: int| 0 <= k < i && field_value(#[trigger] results.deep_view()[k], f) == m,
        decreases n - i,
    {
        let v = field_of(&results[i], f);
        assert(results.deep_view()[i as int] == results[i as int]@);
        if v < m {
            m = v;
        }
        i += 1;
    }
    m
}

/// What one result contributes to the effective branching factor: the
/// `depth`-th root of `nodes` is taken of it.
#[derive(Clone, Copy, Debug, PartialEq, Eq, Structural)]
pub struct EbfSample {
    pub nodes: u64,
    pub depth: u32,
}

/// Whether a result counts towards the effective branching factor: it
/// examined at least one node and reached at least depth one.
pub open spec fn contributes(r: EngineResultView) -> bool {
    r.nodes > 0 && r.depth > 0
}

/// The samples of the results that contribute, in the order of the results.
pub open spec fn ebf_samples(results: Seq<EngineResultView>) -> Seq<EbfSample>
    decreases results.len(),
{
    if results.len() == 0 {
        Seq::empty()
    } else if contributes(results.last()) {
        ebf_samples(results.drop_last()).push(
            EbfSample { nodes: results.last().nodes, depth: results.last().depth },
        )
    } else {
        ebf_samples(results.drop_last())
    }
}

/// Picks the results that count towards the effective branching factor.
pub fn ebf_samples_of(results: &Vec<EngineResult>) -> (samples: Vec<EbfSample>)
    ensures
        samples@ == ebf_samples(results.deep_view()),
{
    let n = results.len();
    let mut samples: Vec<EbfSample> = Vec::new();
    let mut i: usize = 0;
    assert(results.deep_view().take(0) =~= Seq::<EngineResultView>::empty());
    while i < n
        invariant
            n == results.len(),
            i <= n,
            samples@ == ebf_samples(results.deep_view().take(i as int)),
        decreases n - i,
    {
        proof {
            let all = results.deep_view();
            assert(all.take(i + 1).drop_last() =~= all.take(i as int));
        }
        if results[i].nodes > 0 && results[i].depth > 0 {
            samples.push(EbfSample { nodes: results[i].nodes, depth: results[i].depth });
        }
        i += 1;
    }
    assert(results.deep_view().take(n as int) =~= results.deep_view());
    samples
}

/// No sample comes from a result with `nodes` or `depth` zero: every sample
/// has both positive, there are as many samples as contributing results can
/// account for, and when no result contributes there is no sample at all.
pub proof fn lemma_ebf_excludes_zeros(results: Seq<EngineResultView>)
    ensures
        ebf_samples(results).len() <= results.len(),
        forall|k: int|
            0 <= k < ebf_samples(results).len() ==> (#[trigger] ebf_samples(results)[k]).nodes > 0
                && ebf_samples(results)[k].depth > 0,
        (forall|i: int| 0 <= i < results.len() ==> !contributes(#[trigger] results[i]))
            ==> ebf_samples(results).len() == 0,
    decreases results.len(),
{
    if results.len() > 0 {
        lemma_ebf_excludes_zeros(results.drop_last());
    }
}

/// A result with `nodes` or `depth` zero changes nothing, wherever it
/// stands in the sequence.
pub proof fn lemma_ebf_ignores(
    before: Seq<EngineResultView>,
    r: EngineResultView,
    after: Seq<EngineResultView>,
)
    requires
        !contributes(r),
    ensures
        ebf_samples(before + seq![r] + after) == ebf_samples(before + after),
    decreases after.len(),
{
    if after.len() == 0 {
        assert(before + seq![r] + after =~= (before + after).push(r));
        assert((before + after).push(r).drop_last() =~= before + after);
    } else {
        let with = before + seq![r] + after;
        let without = before + after;
        assert(with.drop_last() =~= before + seq![r] + after.drop_last());
        assert(without.drop_last() =~= before + after.drop_last());
        assert(with.last() == without.last());
        lemma_ebf_ignores(before, r, after.drop_last());
    }
}

/// The sum of the squares of the node counts.
pub open spec fn sum_squares(results: Seq<EngineResultView>) -> nat
    decreases results.len(),
{
    if results.len() == 0 {
        0
    } else {
        sum_squares(results.drop_last()) + (results.last().nodes as nat) * (
        results.last().nodes as nat)
    }
}

/// The sum over the results of `(c * nodes - t)^2`.
pub open spec fn squared_deviations(results: Seq<EngineResultView>, c: int, t: int) -> int
    decreases results.len(),
{
    if results.len() == 0 {
        0
    } else {
        squared_deviations(results.drop_last(), c, t) + (c * results.last().nodes - t) * (c
            * results.last().nodes - t)
    }
}

/// The spread of the node counts: with `n` results whose node counts sum to
/// `t` and whose squares sum to `q`, the number `n * q - t * t`. It is `n`
/// times the sum of the squared deviations from the mean
/// (`lemma_spread_is_squared_deviations`).
pub open spec fn node_spread(results: Seq<EngineResultView>) -> int {
    results.len() * sum_squares(results) - total(results, Field::Nodes) * total(
        results,
        Field::Nodes,
    )
}

/// The squared deviations multiplied out: the sum of `(c * nodes - t)^2` is
/// `c^2` times the sum of the squares, less `2 * c * t` times the total,
/// plus `t^2` for each result. It is never negative.
#[verifier::rlimit(50)]
pub proof fn lemma_squared_deviations(results: Seq<EngineResultView>, c: int, t: int)
    ensures
        squared_deviations(results, c, t) >= 0,
        squared_deviations(results, c, t) == (c * c) * sum_squares(results) - 2 * ((c * t) * total(
            results,
            Field::Nodes,
        )) + results.len() * (t * t),
    decreases results.len(),
{
    let cc = c * c;
    let ct = c * t;
    let tt = t * t;
    if results.len() > 0 {
        let rest = results.drop_last();
        let x = results.last().nodes as int;
        let q = sum_squares(rest) as int;
        let s = total(rest, Field::Nodes) as int;
        let k = rest.len() as int;
        lemma_squared_deviations(rest, c, t);
        let xx = x * x;
        let d = c * x - t;
        assert(d * d >= 0) by (nonlinear_arith);
        assert(d * d == cc * xx - 2 * (ct * x) + tt) by (nonlinear_arith)
            requires
                d == c * x - t,
                cc == c * c,
                ct == c * t,
                tt == t * t,
                xx == x * x,
        ;
        assert(cc * (q + xx) == cc * q + cc * xx) by (nonlinear_arith);
        assert(ct * (s + x) == ct * s + ct * x) by (nonlinear_arith);
        assert((k + 1) * tt == k * tt + tt) by (nonlinear_arith);
        assert(sum_squares(results) == q + xx);
        assert(total(results, Field::Nodes) == s + x);
        assert(results.len() == k + 1);
        assert(squared_deviations(results, c, t) == squared_deviations(rest, c, t) + d * d);
    } else {
        assert(cc * 0 == 0) by (nonlinear_arith);
        assert(ct * 0 == 0) by (nonlinear_arith);
        assert(0 * tt == 0) by (nonlinear_arith);
    }
}

/// With `n` results of mean `m`, `n * n` times the sum of the squared
/// deviations `(nodes - m)^2` is the sum of `(n * nodes - t)^2`, and that is
/// `n` times the spread. So the spread is never negative, and the sample
/// variance is the spread over `n * (n - 1)`.
#[verifier::rlimit(50)]
pub proof fn lemma_spread_is_squared_deviations(results: Seq<EngineResultView>)
    ensures
        results.len() * node_spread(results) == squared_deviations(
            results,
            results.len() as int,
            total(results, Field::Nodes) as int,
        ),
        node_spread(results) >= 0,
{
    let n = results.len() as int;
    let t = total(results, Field::Nodes) as int;
    let q = sum_squares(results) as int;
    let spread = node_spread(results);
    lemma_squared_deviations(results, n, t);
    assert(spread == n * q - t * t);
    assert((n * t) * t == n * (t * t)) by (nonlinear_arith);
    assert((n * n) * q == n * (n * q)) by (nonlinear_arith);
    assert(n * (n * q - t * t) == n * (n * q) - n * (t * t)) by (nonlinear_arith);
    if n > 0 {
        assert(spread >= 0) by (nonlinear_arith)
            requires
                n > 0,
                n * spread >= 0,
        ;
    }
}

/// The sum of the squares is at most the number of results times
/// `(2^64 - 1)^2`, so it fits in 192 bits.
pub proof fn lemma_sum_squares_bound(results: Seq<EngineResultView>)
    ensures
        sum_squares(results) <= results.len() * 0xFFFF_FFFF_FFFF_FFFE_0000_0000_0000_0001,
    decreases results.len(),
{
    if results.len() > 0 {
        lemma_sum_squares_bound(results.drop_last());
        lemma_limb_product(results.last().nodes as u128, results.last().nodes as u128);
    }
}

/// Computes the spread of the node counts.
#[verifier::rlimit(50)]
pub fn node_spread_of(results: &Vec<EngineResult>) -> (w: Wide)
    ensures
        w@ == node_spread(results.deep_view()),
{
    let n = results.len();
    let mut q = Wide::zero();
    let mut i: usize = 0;
    assert(results.deep_view().take(0) =~= Seq::<EngineResultView>::empty());
    while i < n
        invariant
            n == results.len(),
            i <= n,
            q@ == sum_squares(results.deep_view().take(i as int)),
        decreases n - i,
    {
        proof {
            let all = results.deep_view();
            assert(all.take(i + 1).drop_last() =~= all.take(i as int));
            lemma_sum_squares_bound(results.deep_view().take(i as int));
            lemma_limb_product(results[i as int].nodes as u128, results[i as int].nodes as u128);
        }
        let x = results[i].nodes as u128;
        q = q.plus(Wide::from_u128(x * x));
        i += 1;
    }
    assert(results.deep_view().take(n as int) =~= results.deep_view());
    let t = total_of(results, Field::Nodes);
    proof {
        lemma_sum_squares_bound(results.deep_view());
        assert(q.hi < 0x1_0000_0000_0000_0000);
        lemma_limb_product(n as u128, q.hi);
    }
    let upper = Wide { hi: (n as u128) * q.hi, lo: 0 };
    let lower = Wide::product(n as u128, q.lo);
    proof {
        let qv = q@ as int;
        assert(upper@ + lower@ == n * qv) by (nonlinear_arith)
            requires
                upper@ == (n * q.hi) * 0x1_0000_0000_0000_0000_0000_0000_0000_0000,
                lower@ == n * q.lo,
                qv == q.hi * 0x1_0000_0000_0000_0000_0000_0000_0000_0000 + q.lo,
        ;
        assert(n * qv < pow256()) by (nonlinear_arith)
            requires
                0 <= n < 0x1_0000_0000_0000_0000,
                0 <= qv < 0x1_0000_0000_0000_0000_0000_0000_0000_0000_0000_0000_0000_0000,
        ;
        lemma_spread_is_squared_deviations(results.deep_view());
    }
    let scaled = upper.plus(lower);
    let square = Wide::product(t, t);
    scaled.minus(square)
}

/// An exact fraction with a 256-bit numerator; `den` is never zero.
#[derive(Clone, Copy, Debug, PartialEq, Eq, Structural)]
pub struct WideRatio {
    pub num: Wide,
    pub den: u128,
}

/// The denominator of the sample variance of `n` values: `n * (n - 1)`, and
/// one when there are fewer than two values.
pub open spec fn variance_den(n: nat) -> nat {
    if n <= 1 {
        1
    } else {
        n * ((n - 1) as nat)
    }
}

/// The numerator of the sample variance over `variance_den`: the spread, and
/// zero when there are fewer than two results.
pub open spec fn variance_num(results: Seq<EngineResultView>) -> int {
    if results.len() <= 1 {
        0
    } else {
        node_spread(results)
    }
}

/// The sample variance of the node counts, Bessel-corrected: the sum of the
/// squared deviations from the mean over one less than the number of
/// results, and zero when there are fewer than two results.
pub fn node_variance_of(results: &Vec<EngineResult>) -> (v: WideRatio)
    ensures
        v.num@ == variance_num(results.deep_view()),
        v.den == variance_den(results.deep_view().len()),
        v.den > 0,
        results.deep_view().len() <= 1 ==> v.num@ == 0,
{
    let n = results.len();
    if n <= 1 {
        WideRatio { num: Wide::zero(), den: 1 }
    } else {
        proof {
            lemma_limb_product(n as u128, (n - 1) as u128);
            assert(n * (n - 1) > 0) by (nonlinear_arith)
                requires
                    n >= 2,
            ;
        }
        WideRatio { num: node_spread_of(results), den: (n as u128) * ((n - 1) as u128) }
    }
}

/// The statistics of a sequence of results. Every number is exact; the
/// standard deviation of the node counts is the square root of
/// `node_variance`, and the effective branching factor is the mean, over
/// `ebf_samples`, of the `depth`-th root of `nodes`.
#[derive(Debug)]
pub struct StatsSummary {
    pub positions_analyzed: u64,
    pub avg_nps: Ratio,
    /// The mean of the nodes per second, in millions.
    pub avg_nps_m: Ratio,
    pub avg_time_ms: Ratio,
    pub avg_nodes: Ratio,
    pub avg_depth: Ratio,
    pub node_variance: WideRatio,
    pub max_nodes: u64,
    pub min_nodes: u64,
    pub total_mates: u64,
    pub peak_nps: u64,
    pub ebf_samples: Vec<EbfSample>,
}

/// The spread of fewer than two results is zero, so that their variance is
/// zero by the formula as well as by the rule for fewer than two results.
pub proof fn lemma_no_spread_below_two(results: Seq<EngineResultView>)
    requires
        results.len() <= 1,
    ensures
        node_spread(results) == 0,
        variance_num(results) == 0,
        variance_den(results.len()) == 1,
{
    if results.len() == 1 {
        let rest = results.drop_last();
        assert(rest.len() == 0);
        assert(sum_squares(rest) == 0);
        assert(total(rest, Field::Nodes) == 0);
        let x = results.last().nodes as int;
        assert(sum_squares(results) == x * x);
        assert(total(results, Field::Nodes) == x);
        assert(1 * (x * x) - x * x == 0) by (nonlinear_arith);
    } else {
        assert(0 * 0 - 0 * 0 == 0) by (nonlinear_arith);
    }
}

/// Whether the fractions of `s` have denominators other than zero.
pub open spec fn has_values(s: StatsSummary) -> bool {
    &&& s.avg_nps.den > 0
    &&& s.avg_nps_m.den > 0
    &&& s.avg_time_ms.den > 0
    &&& s.avg_nodes.den > 0
    &&& s.avg_depth.den > 0
    &&& s.node_variance.den > 0
}

/// Whether `s` is the summary of `results`.
pub open spec fn summarizes(s: StatsSummary, results: Seq<EngineResultView>) -> bool {
    &&& s.positions_analyzed == results.len()
    &&& s.avg_nps == mean(results, Field::Nps)
    &&& s.avg_nps_m == scaled_mean(results, Field::Nps, 1_000_000)
    &&& s.avg_time_ms == mean(results, Field::TimeMs)
    &&& s.avg_nodes == mean(results, Field::Nodes)
    &&& s.avg_depth == mean(results, Field::Depth)
    &&& s.node_variance.num@ == variance_num(results)
    &&& s.node_variance.den == variance_den(results.len())
    &&& is_max(results, Field::Nodes, s.max_nodes)
    &&& is_min(results, Field::Nodes, s.min_nodes)
    &&& s.total_mates == mates_total(results)
    &&& is_max(results, Field::Nps, s.peak_nps)
    &&& s.ebf_samples@ == ebf_samples(results)
}

/// Summarizes `results` and counts them by mate distance. Nothing is kept
/// between calls: the same results give the same summary.
pub fn compute_stats(results: &Vec<EngineResult>) -> (out: (StatsSummary, BTreeMap<u32, u64>))
    ensures
        summarizes(out.0, results.deep_view()),
        has_values(out.0),
        is_mate_histogram(out.1@, results.deep_view()),
        results.deep_view().len() <= 1 ==> out.0.node_variance.num@ == 0,
        results.deep_view().len() == 0 ==> out.0.avg_nps.num == 0 && out.0.avg_nps_m.num == 0
            && out.0.avg_time_ms.num == 0 && out.0.avg_nodes.num == 0 && out.0.avg_depth.num
            == 0,
{
    let summary = StatsSummary {
        positions_analyzed: results.len() as u64,
        avg_nps: mean_of(results, Field::Nps),
        avg_nps_m: scaled_mean_of(results, Field::Nps, 1_000_000),
        avg_time_ms: mean_of(results, Field::TimeMs),
        avg_nodes: mean_of(results, Field::Nodes),
        avg_depth: mean_of(results, Field::Depth),
        node_variance: node_variance_of(results),
        max_nodes: max_of(results, Field::Nodes),
        min_nodes: min_of(results, Field::Nodes),
        total_mates: count_mates(results),
        peak_nps: max_of(results, Field::Nps),
        ebf_samples: ebf_samples_of(results),
    };
    (summary, mate_histogram(results))
}

/// A summary is a function of the results: two summaries of the same
/// results hold the same numbers and the same samples, and two histograms of
/// the same results are the same map.
pub proof fn lemma_summary_is_determined(
    a: StatsSummary,
    b: StatsSummary,
    ha: Map<u32, u64>,
    hb: Map<u32, u64>,
    results: Seq<EngineResultView>,
)
    requires
        summarizes(a, results),
        summarizes(b, results),
        is_mate_histogram(ha, results),
        is_mate_histogram(hb, results),
    ensures
        a.positions_analyzed == b.positions_analyzed,
        a.avg_nps == b.avg_nps,
        a.avg_nps_m == b.avg_nps_m,
        a.avg_time_ms == b.avg_time_ms,
        a.avg_nodes == b.avg_nodes,
        a.avg_depth == b.avg_depth,
        a.node_variance.num@ == b.node_variance.num@,
        a.node_variance.den == b.node_variance.den,
        a.max_nodes == b.max_nodes,
        a.min_nodes == b.min_nodes,
        a.total_mates == b.total_mates,
        a.peak_nps == b.peak_nps,
        a.ebf_samples@ == b.ebf_samples@,
        ha == hb,
{
    assert forall|d: u32| ha.contains_key(d) == hb.contains_key(d) by {
        assert(ha.contains_key(d) <==> mates_at(results, d) > 0);
        assert(hb.contains_key(d) <==> mates_at(results, d) > 0);
    }
    assert forall|d: u32| ha.contains_key(d) implies ha[d] == hb[d] by {
        assert(hb.contains_key(d));
    }
    assert(ha =~= hb);
}

/// A score text in which `mate ` does not occur announces no distance, and
/// a result with such a score changes no bucket and no total.
pub proof fn lemma_score_without_mate(results: Seq<EngineResultView>, r: EngineResultView)
    requires
        find(r.score, mate_key()) is None,
    ensures
        mate_distance(r.score) is None,
        mates_total(results.push(r)) == mates_total(results),
        forall|d: u32| mates_at(results.push(r), d) == mates_at(results, d),
        forall|hist: Map<u32, u64>|
            is_mate_histogram(hist, results) ==> is_mate_histogram(hist, results.push(r)),
{
    assert(results.push(r).drop_last() =~= results);
    assert forall|d: u32| mates_at(results.push(r), d) == mates_at(results, d) by {}
}

/// The sign before a mate distance does not matter: a score whose token
/// after `mate ` is `-` and some digits announces the same distance as one
/// whose token is the digits alone, the number that the digits write.
pub proof fn lemma_mate_distance_ignores_sign(a: Seq<char>, b: Seq<char>, digits: Seq<char>)
    requires
        digits.len() > 0,
        all_digits(digits),
        decimal_value(digits) <= i32::MAX,
        mate_token(a) == Some(seq!['-'] + digits),
        mate_token(b) == Some(digits),
    ensures
        mate_distance(a) == Some(decimal_value(digits) as u32),
        mate_distance(b) == mate_distance(a),
{
    let negative = seq!['-'] + digits;
    assert(negative.subrange(1, negative.len() as int) =~= digits);
    assert(is_digit(digits[0]));
}

/// The number of results that announce a distance below `limit`.
pub open spec fn mates_below(results: Seq<EngineResultView>, limit: nat) -> nat
    decreases limit,
{
    if limit == 0 {
        0
    } else {
        mates_below(results, (limit - 1) as nat) + mates_at(results, (limit - 1) as u32)
    }
}

proof fn lemma_mates_below_step(results: Seq<EngineResultView>, limit: nat)
    requires
        results.len() > 0,
        limit <= 0x1_0000_0000,
    ensures
        mates_below(results, limit) == mates_below(results.drop_last(), limit) + if (
        match mate_distance(results.last().score) {
            Some(d) => d < limit,
            None => false,
        }) {
            1nat
        } else {
            0nat
        },
    decreases limit,
{
    if limit > 0 {
        lemma_mates_below_step(results, (limit - 1) as nat);
    }
}

proof fn lemma_mates_below_none(limit: nat)
    ensures
        mates_below(Seq::<EngineResultView>::empty(), limit) == 0,
    decreases limit,
{
    if limit > 0 {
        lemma_mates_below_none((limit - 1) as nat);
    }
}

/// The total of the mates is the sum of the buckets: added up over every
/// distance, the counts give the number of results that announce one.
pub proof fn lemma_total_is_sum_of_buckets(results: Seq<EngineResultView>)
    ensures
        mates_below(results, 0x1_0000_0000) == mates_total(results),
    decreases results.len(),
{
    if results.len() == 0 {
        assert(results =~= Seq::<EngineResultView>::empty());
        lemma_mates_below_none(0x1_0000_0000);
    } else {
        lemma_total_is_sum_of_buckets(results.drop_last());
        lemma_mates_below_step(results, 0x1_0000_0000);
    }
}

} // verus!
