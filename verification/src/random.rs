use vstd::prelude::*;

verus! {

/// The state a freshly booted system starts its generator from.
pub const INITIAL_RNG_STATE: u64 = 0x853c49e6748fea9b;

/// One xorshift64 step (shifts 13, 7, 17) on a 64-bit state.
pub open spec fn xorshift(x: u64) -> u64 {
    let a = x ^ (x << 13u64);
    let b = a ^ (a >> 7u64);
    b ^ (b << 17u64)
}

/// The state of the pseudo-random generator after `n` steps from `s`.
pub open spec fn xorshift_iter(s: u64, n: nat) -> u64
    decreases n,
{
    if n == 0 {
        s
    } else {
        xorshift(xorshift_iter(s, (n - 1) as nat))
    }
}

/// Where a draw of `value` lands in `[min, max)`; `min` itself when the range is empty.
pub open spec fn spec_in_range(min: int, max: int, value: int) -> int {
    if min >= max {
        min
    } else {
        min + value % (max - min)
    }
}

/// One request to the generator, as the functions below serve them.
#[derive(Debug, Clone, Copy, PartialEq, Eq, Structural)]
pub enum Draw {
    /// `next`
    Next,
    /// `next_range(min, max)`
    Range(u64, u64),
    /// `next_u32`
    Low32,
    /// `next_u32_range(min, max)`
    Low32Range(u32, u32),
}

/// What serving request `d` from generator state `state` gives: the value handed
/// back and the generator's next state.
pub open spec fn draw(state: u64, d: Draw) -> (u64, u64) {
    let stepped = xorshift(state);
    match d {
        Draw::Next => (stepped, stepped),
        Draw::Range(min, max) => if min >= max {
            (min, state)
        } else {
            (spec_in_range(min as int, max as int, stepped as int) as u64, stepped)
        },
        Draw::Low32 => ((stepped % 0x1_0000_0000) as u64, stepped),
        Draw::Low32Range(min, max) => if min >= max {
            (min as u64, state)
        } else {
            (spec_in_range(min as int, max as int, (stepped % 0x1_0000_0000) as int) as u64, stepped)
        },
    }
}

/// How many generator steps request `d` takes: none for an empty range, else one.
pub open spec fn draw_steps(d: Draw) -> nat {
    match d {
        Draw::Range(min, max) => if min >= max { 0 } else { 1 },
        Draw::Low32Range(min, max) => if min >= max { 0 } else { 1 },
        _ => 1,
    }
}

/// Serving `calls` in order from generator state `state`: the values handed back,
/// and the state left behind.
pub open spec fn replay(state: u64, calls: Seq<Draw>) -> (Seq<u64>, u64)
    decreases calls.len(),
{
    if calls.len() == 0 {
        (Seq::empty(), state)
    } else {
        let (values, s) = replay(state, calls.drop_last());
        let (v, s2) = draw(s, calls.last());
        (values.push(v), s2)
    }
}

/// The number of generator steps that serving `calls` takes.
pub open spec fn replay_steps(calls: Seq<Draw>) -> nat
    decreases calls.len(),
{
    if calls.len() == 0 {
        0
    } else {
        replay_steps(calls.drop_last()) + draw_steps(calls.last())
    }
}

/// A request's next state is its state advanced by the request's steps.
pub proof fn lemma_draw_steps(state: u64, d: Draw)
    ensures
        draw(state, d).1 == xorshift_iter(state, draw_steps(d)),
{
    assert(xorshift_iter(state, 1) == xorshift(xorshift_iter(state, 0)));
}

/// Two generators in the same state (after `seed` with the same value, say) hand back
/// the same values for the same requests and end in the same state; that state is the
/// seed advanced by the number of steps the requests take.
pub proof fn lemma_same_state_same_draws(a: Rng, b: Rng, calls: Seq<Draw>)
    requires
        a.state == b.state,
    ensures
        replay(a.state, calls) == replay(b.state, calls),
        replay(a.state, calls).1 == xorshift_iter(a.state, replay_steps(calls)),
    decreases calls.len(),
{
    if calls.len() > 0 {
        lemma_same_state_same_draws(a, b, calls.drop_last());
        let s = replay(a.state, calls.drop_last()).1;
        lemma_draw_steps(s, calls.last());
        lemma_iter_add(a.state, replay_steps(calls.drop_last()), draw_steps(calls.last()));
    }
}

/// Stepping `m` times and then `n` times is stepping `m + n` times.
pub proof fn lemma_iter_add(s: u64, m: nat, n: nat)
    ensures
        xorshift_iter(xorshift_iter(s, m), n) == xorshift_iter(s, m + n),
    decreases n,
{
    if n > 0 {
        lemma_iter_add(s, m, (n - 1) as nat);
    }
}

/// The pseudo-random generator: a single 64-bit xorshift state.
pub struct Rng {
    pub state: u64,
}

impl Rng {
    /// A generator in the state the system boots with.
    pub fn new() -> (r: Rng)
        ensures
            r.state == INITIAL_RNG_STATE,
    {
        Rng { state: INITIAL_RNG_STATE }
    }
}

/// Replaces the generator's state with `seed`.
pub fn seed(rng: &mut Rng, seed: u64)
    ensures
        final(rng).state == seed,
{
    rng.state = seed;
}

/// Seeds the generator with the current timer tick count.
pub fn seed_from_timer(rng: &mut Rng, ticks: u64)
    ensures
        final(rng).state == ticks,
{
    seed(rng, ticks);
}

/// Advances the generator one xorshift step and returns the new state.
pub fn next(rng: &mut Rng) -> (r: u64)
    ensures
        r == xorshift(old(rng).state),
        final(rng).state == r,
        (r, final(rng).state) == draw(old(rng).state, Draw::Next),
{
    let mut x = rng.state;
    x = x ^ (x << 13u64);
    x = x ^ (x >> 7u64);
    x = x ^ (x << 17u64);
    rng.state = x;
    x
}

/// A value in `[min, max)` from one step of the generator; `min` without a step
/// when the range is empty.
pub fn next_range(rng: &mut Rng, min: u64, max: u64) -> (r: u64)
    ensures
        min >= max ==> r == min && final(rng).state == old(rng).state,
        min < max ==> final(rng).state == xorshift(old(rng).state)
            && r == spec_in_range(min as int, max as int, final(rng).state as int),
        min < max ==> min <= r < max,
        (r, final(rng).state) == draw(old(rng).state, Draw::Range(min, max)),
{
    if min >= max {
        return min;
    }
    let range = max - min;
    let v = next(rng);
    min + (v % range)
}

/// The low 32 bits of one step of the generator.
pub fn next_u32(rng: &mut Rng) -> (r: u32)
    ensures
        final(rng).state == xorshift(old(rng).state),
        r == (final(rng).state % 0x1_0000_0000) as u32,
        (r as u64, final(rng).state) == draw(old(rng).state, Draw::Low32),
{
    let v = next(rng);
    let r = (v & 0xffff_ffffu64) as u32;
    assert(v & 0xffff_ffffu64 == v % 0x1_0000_0000) by (bit_vector);
    r
}

/// A value in `[min, max)` from the low 32 bits of one step of the generator;
/// `min` without a step when the range is empty.
pub fn next_u32_range(rng: &mut Rng, min: u32, max: u32) -> (r: u32)
    ensures
        min >= max ==> r == min && final(rng).state == old(rng).state,
        min < max ==> final(rng).state == xorshift(old(rng).state)
            && r == spec_in_range(min as int, max as int, (final(rng).state % 0x1_0000_0000) as int),
        min < max ==> min <= r < max,
        (r as u64, final(rng).state) == draw(old(rng).state, Draw::Low32Range(min, max)),
{
    if min >= max {
        return min;
    }
    let range = max - min;
    let v = next_u32(rng);
    min + (v % range)
}

} // verus!
