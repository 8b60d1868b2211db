//! Pseudo-random streams behind graph generation: the 64-bit Mersenne
//! Twister and a uniform draw in `[0, 1000)` built on it.

use vstd::prelude::*;

verus! {

/// Word `k` (counting from 0) that a 64-bit Mersenne Twister seeded with
/// `seed` produces.
pub uninterp spec fn mt64_word(seed: u64, k: nat) -> u64;

/// The first `n` words of the stream seeded with `seed`.
pub open spec fn mt64_prefix(seed: u64, n: nat) -> Seq<u64> {
    Seq::new(n, |k: int| mt64_word(seed, k as nat))
}

/// Relies on rand_mt::Mt19937GenRand64::new and next_u64: the first `n`
/// outputs of the generator seeded with `seed`, in order.
#[verifier::external_body]
pub(crate) fn mt64_words(seed: u64, n: usize) -> (r: Vec<u64>)
    ensures
        r@.len() == n,
        forall|k: int| 0 <= k < n ==> r@[k] == mt64_word(seed, k as nat),
{
    let mut rng = rand_mt::Mt19937GenRand64::new(seed);
    let mut r = Vec::with_capacity(n);
    for _ in 0..n {
        r.push(rng.next_u64());
    }
    r
}

/// Size of the range that the uniform draw covers.
pub const DRAW_RANGE: u64 = 1000;

/// `2^64 mod DRAW_RANGE`: a word whose scaled low half falls below this is
/// rejected, which makes every value of the range equally likely.
pub const DRAW_REJECT_BELOW: u64 = 616;

pub open spec fn two_pow_64() -> nat {
    0x1_0000_0000_0000_0000
}

/// Whether a word yields a draw (multiply-and-shift with rejection).
pub open spec fn draw_accepts(w: u64) -> bool {
    (w as nat * DRAW_RANGE as nat) % two_pow_64() >= DRAW_REJECT_BELOW as nat
}

/// The draw that an accepted word yields.
pub open spec fn draw_of(w: u64) -> u64 {
    ((w as nat * DRAW_RANGE as nat) / two_pow_64()) as u64
}

/// The draws that a run of words yields, in order.
pub open spec fn draws_of(ws: Seq<u64>) -> Seq<u64>
    decreases ws.len(),
{
    if ws.len() == 0 {
        Seq::empty()
    } else if draw_accepts(ws.last()) {
        draws_of(ws.drop_last()).push(draw_of(ws.last()))
    } else {
        draws_of(ws.drop_last())
    }
}

/// `d` holds the first `count` uniform draws of the stream seeded with `seed`.
pub open spec fn first_draws(seed: u64, count: nat, d: Seq<u64>) -> bool {
    d.len() == count && exists|m: nat| d == draws_of(#[trigger] mt64_prefix(seed, m))
}

/// How many words the sampler takes from the generator for `count` draws.
pub open spec fn draw_budget(count: nat) -> nat {
    count + count / 8 + 64
}

pub proof fn lemma_draw_of_bound(w: u64)
    ensures
        draw_of(w) < DRAW_RANGE,
{
    assert((w as nat * 1000) / two_pow_64() < 1000) by (nonlinear_arith)
        requires
            w < two_pow_64(),
            two_pow_64() > 0,
    ;
}

/// One step of the sampler on a word: `Some(draw)` if it is accepted.
pub fn draw_from_word(w: u64) -> (r: Option<u64>)
    ensures
        r is Some <==> draw_accepts(w),
        r is Some ==> r->Some_0 == draw_of(w),
{
    let p: u128 = w as u128 * DRAW_RANGE as u128;
    let low: u128 = p % 0x1_0000_0000_0000_0000u128;
    if low >= DRAW_REJECT_BELOW as u128 {
        proof {
            lemma_draw_of_bound(w);
        }
        Some((p / 0x1_0000_0000_0000_0000u128) as u64)
    } else {
        None
    }
}

/// The first `count` draws in `[0, 1000)` of the stream seeded with `seed`,
/// or `None` when the generator's first `draw_budget(count)` words hold
/// too few accepted ones.
pub fn uniform_draws(seed: u64, count: usize) -> (r: Option<Vec<u64>>)
    requires
        count <= 0x1000_0000,
    ensures
        r is Some ==> first_draws(seed, count as nat, r->Some_0@),
        r is Some <==> draws_of(mt64_prefix(seed, draw_budget(count as nat))).len() >= count,
        r is None ==> draws_of(mt64_prefix(seed, draw_budget(count as nat))).len() < count,
{
    let budget: usize = count + count / 8 + 64;
    let words = mt64_words(seed, budget);
    assert(words@ =~= mt64_prefix(seed, budget as nat));
    let mut out: Vec<u64> = Vec::new();
    let mut k: usize = 0;
    while k < budget && out.len() < count
        invariant
            words@ == mt64_prefix(seed, budget as nat),
            budget == draw_budget(count as nat),
            k <= budget,
            out@ == draws_of(mt64_prefix(seed, k as nat)),
            out@.len() <= count,
        decreases budget - k,
    {
        let w = words[k];
        proof {
            assert(mt64_prefix(seed, (k + 1) as nat).drop_last() =~= mt64_prefix(seed, k as nat));
        }
        match draw_from_word(w) {
            Some(d) => {
                out.push(d);
            },
            None => {},
        }
        k = k + 1;
    }
    if out.len() == count {
        proof {
            assert(out@ == draws_of(mt64_prefix(seed, k as nat)));
            lemma_draws_extend(seed, k as nat, budget as nat);
        }
        Some(out)
    } else {
        None
    }
}

} // verus!

verus! {

/// Taking more words only appends draws.
pub proof fn lemma_draws_extend(seed: u64, a: nat, b: nat)
    requires
        a <= b,
    ensures
        draws_of(mt64_prefix(seed, a)).len() <= draws_of(mt64_prefix(seed, b)).len(),
        draws_of(mt64_prefix(seed, b)).subrange(0, draws_of(mt64_prefix(seed, a)).len() as int)
            == draws_of(mt64_prefix(seed, a)),
    decreases b - a,
{
    let da = draws_of(mt64_prefix(seed, a));
    if a == b {
        assert(da.subrange(0, da.len() as int) =~= da);
    } else {
        let b1 = (b - 1) as nat;
        lemma_draws_extend(seed, a, b1);
        assert(mt64_prefix(seed, b).drop_last() =~= mt64_prefix(seed, b1));
        let d1 = draws_of(mt64_prefix(seed, b1));
        let d2 = draws_of(mt64_prefix(seed, b));
        if draw_accepts(mt64_word(seed, b1)) {
            assert(d2 == d1.push(draw_of(mt64_word(seed, b1))));
            assert(d2.subrange(0, da.len() as int) =~= d1.subrange(0, da.len() as int));
        } else {
            assert(d2 == d1);
        }
    }
}

/// The first `count` draws of a stream are unique.
pub proof fn lemma_first_draws_unique(seed: u64, count: nat, d: Seq<u64>, e: Seq<u64>)
    requires
        first_draws(seed, count, d),
        first_draws(seed, count, e),
    ensures
        d == e,
{
    let a = choose|m: nat| d == draws_of(#[trigger] mt64_prefix(seed, m));
    let b = choose|m: nat| e == draws_of(#[trigger] mt64_prefix(seed, m));
    if a <= b {
        lemma_draws_extend(seed, a, b);
        assert(e.subrange(0, d.len() as int) =~= e);
    } else {
        lemma_draws_extend(seed, b, a);
        assert(d.subrange(0, e.len() as int) =~= d);
    }
}

} // verus!
