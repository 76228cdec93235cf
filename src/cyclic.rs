use vstd::prelude::*;

verus! {

/// Replays a pool of `len` items without end: each draw hands out the item at
/// `position` and moves on by one, back to the start after the last.
#[derive(Clone, Copy, Debug)]
pub struct CyclicDriver {
    pub len: usize,
    pub position: usize,
}

/// Where a driver over `len` items stands after one draw from `p`.
pub open spec fn cycle_step(len: int, p: int) -> int {
    (p + 1) % len
}

/// Where a fresh driver over `len` items stands after `k` draws.
pub open spec fn position_after(len: int, k: nat) -> int
    decreases k,
{
    if k == 0 {
        0
    } else {
        cycle_step(len, position_after(len, (k - 1) as nat))
    }
}

/// The items that the first `k` draws of a fresh driver hand out.
pub open spec fn draws<T>(pool: Seq<T>, k: nat) -> Seq<T> {
    Seq::new(k, |i: int| pool[position_after(pool.len() as int, i as nat)])
}

impl CyclicDriver {
    pub open spec fn wf(&self) -> bool {
        self.len > 0 && self.position < self.len
    }

    /// A driver over a pool of `len` items, before its first draw.
    pub fn new(len: usize) -> (r: CyclicDriver)
        requires
            len > 0,
        ensures
            r.wf(),
            r.len == len,
            r.position == 0,
    {
        CyclicDriver { len, position: 0 }
    }

    /// Hands out the current position and moves on by one.
    pub fn next_index(&mut self) -> (r: usize)
        requires
            old(self).wf(),
        ensures
            r == old(self).position,
            final(self).wf(),
            final(self).len == old(self).len,
            final(self).position == cycle_step(old(self).len as int, old(self).position as int),
    {
        let r = self.position;
        if self.position + 1 == self.len {
            self.position = 0;
            proof {
                vstd::arithmetic::div_mod::lemma_mod_self_0(self.len as int);
            }
        } else {
            self.position = self.position + 1;
            proof {
                vstd::arithmetic::div_mod::lemma_small_mod((r + 1) as nat, self.len as nat);
            }
        }
        r
    }

    /// Hands out the item at the current position of `pool` and moves on.
    pub fn draw<T: Copy>(&mut self, pool: &Vec<T>) -> (r: T)
        requires
            old(self).wf(),
            pool@.len() == old(self).len,
        ensures
            r == pool@[old(self).position as int],
            final(self).wf(),
            final(self).len == old(self).len,
            final(self).position == cycle_step(old(self).len as int, old(self).position as int),
    {
        let i = self.next_index();
        pool[i]
    }
}

/// After any number `k` of draws, a fresh driver over `len` items stands at
/// `k mod len`: the position wraps silently and never leaves the pool.
pub proof fn lemma_position_after(len: int, k: nat)
    requires
        len > 0,
    ensures
        position_after(len, k) == (k as int) % len,
        0 <= position_after(len, k) < len,
    decreases k,
{
    if k > 0 {
        lemma_position_after(len, (k - 1) as nat);
        vstd::arithmetic::div_mod::lemma_add_mod_noop_right(1, (k - 1) as int, len);
        assert((k - 1) as int + 1 == k as int);
    } else {
        vstd::arithmetic::div_mod::lemma_small_mod(0, len as nat);
    }
}

/// Replay is periodic: over a pool of `n` items, `2 * n` draws of a fresh
/// driver hand out the pool twice over, in order, and leave the driver back at
/// its start.
pub proof fn lemma_two_rounds<T>(pool: Seq<T>)
    requires
        pool.len() > 0,
    ensures
        draws(pool, 2 * pool.len()) == pool + pool,
        position_after(pool.len() as int, 2 * pool.len()) == 0,
{
    let n = pool.len() as int;
    assert forall|i: int| 0 <= i < 2 * n implies #[trigger] draws(pool, 2 * pool.len())[i] == (
    pool + pool)[i] by {
        lemma_position_after(n, i as nat);
        if i < n {
            vstd::arithmetic::div_mod::lemma_small_mod(i as nat, n as nat);
        } else {
            vstd::arithmetic::div_mod::lemma_mod_sub_multiples_vanish(i, n);
            vstd::arithmetic::div_mod::lemma_small_mod((i - n) as nat, n as nat);
        }
    }
    assert(draws(pool, 2 * pool.len()) =~= pool + pool);
    lemma_position_after(n, (2 * n) as nat);
    vstd::arithmetic::div_mod::lemma_mod_multiples_basic(2, n);
}

} // verus!
