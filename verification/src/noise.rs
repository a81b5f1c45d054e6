//! Bytes that do not repeat, for measuring a connection.

use vstd::prelude::*;

verus! {

/// The state that follows another in the xorshift sequence with the shifts 13, 7 and 17.
pub open spec fn xorshift(state: u64) -> u64 {
    let a = state ^ (state << 13u64);
    let b = a ^ (a >> 7u64);
    b ^ (b << 17u64)
}

/// The state after `n` steps.
pub open spec fn state_after(seed: u64, n: nat) -> u64
    decreases n,
{
    if n == 0 {
        seed
    } else {
        xorshift(state_after(seed, (n - 1) as nat))
    }
}

/// The first `n` bytes that follow a state: the low byte of every next state.
pub open spec fn noise(seed: u64, n: nat) -> Seq<u8> {
    Seq::new(n, |i: int| (state_after(seed, (i + 1) as nat) % 256) as u8)
}

pub fn next_state(state: u64) -> (r: u64)
    ensures
        r == xorshift(state),
{
    let a = state ^ (state << 13u64);
    let b = a ^ (a >> 7u64);
    b ^ (b << 17u64)
}

/// Writes the bytes that follow a state, and returns the state behind them.
pub fn fill(state: u64, count: usize) -> (r: (Vec<u8>, u64))
    ensures
        r.0@ == noise(state, count as nat),
        r.1 == state_after(state, count as nat),
{
    let mut bytes: Vec<u8> = Vec::new();
    let mut current = state;
    let mut i: usize = 0;
    while i < count
        invariant
            i <= count,
            bytes@ == noise(state, i as nat),
            current == state_after(state, i as nat),
        decreases count - i,
    {
        current = next_state(current);
        bytes.push((current % 256) as u8);
        i += 1;
        assert(bytes@ =~= noise(state, i as nat));
    }
    (bytes, current)
}

proof fn lemma_states_add(seed: u64, n: nat, m: nat)
    ensures
        state_after(state_after(seed, n), m) == state_after(seed, n + m),
    decreases m,
{
    if m > 0 {
        lemma_states_add(seed, n, (m - 1) as nat);
    }
}

/// Bytes that are taken in two portions are the bytes that one portion would hold.
pub proof fn lemma_portions_join(seed: u64, n: nat, m: nat)
    ensures
        noise(seed, n) + noise(state_after(seed, n), m) == noise(seed, n + m),
{
    assert forall|i: int| 0 <= i < n + m implies (noise(seed, n) + noise(state_after(seed, n), m))[i]
        == noise(seed, n + m)[i] by {
        if i >= n {
            lemma_states_add(seed, n, (i - n + 1) as nat);
        }
    }
    assert(noise(seed, n) + noise(state_after(seed, n), m) =~= noise(seed, n + m));
}

/// Every byte is the lowest of the state that it was taken from.
pub proof fn lemma_bytes_are_lowest(seed: u64, n: nat, i: int)
    requires
        0 <= i < n,
    ensures
        noise(seed, n)[i] == state_after(seed, (i + 1) as nat) & 0xff,
        noise(seed, n).len() == n,
{
    let state = state_after(seed, (i + 1) as nat);
    assert(state & 0xff == state % 256) by (bit_vector);
}

} // verus!
