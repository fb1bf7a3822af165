//! A replayable stream of uniform random draws.
//!
//! Every probabilistic branch of the simulation reads the next draw from a
//! [`Rolls`] value. A draw is an integer in `0..ROLL_RANGE` standing for a
//! uniform value in `[0, 1)`; "draw > p" reads as "uniform > p / ROLL_RANGE".
//! Replaying the same values replays the same simulation.

use vstd::prelude::*;

verus! {

/// Draws lie in `0..ROLL_RANGE`.
pub const ROLL_RANGE: u16 = 10000;

/// A cyclic stream of draws. An empty stream yields `0` forever.
pub struct Rolls {
    pub values: Vec<u16>,
    /// Index of the next value to hand out.
    pub next: usize,
}

impl Rolls {
    pub open spec fn wf(&self) -> bool {
        if self.values.len() == 0 {
            self.next == 0
        } else {
            self.next < self.values.len()
        }
    }

    /// The draw that [`Rolls::draw`] hands out next.
    pub open spec fn peek(&self) -> int {
        if self.values.len() == 0 {
            0
        } else {
            self.values@[self.next as int] as int % ROLL_RANGE as int
        }
    }

    /// The cursor after one draw.
    pub open spec fn next_after_draw(&self) -> usize {
        if self.values.len() == 0 || self.next + 1 == self.values.len() {
            0
        } else {
            (self.next + 1) as usize
        }
    }

    /// A stream that starts at the first of `values`.
    pub fn new(values: Vec<u16>) -> (r: Rolls)
        ensures
            r.wf(),
            r.values@ == values@,
            r.next == 0,
    {
        Rolls { values, next: 0 }
    }

    /// Hands out the next draw and moves the cursor on, wrapping at the end.
    pub fn draw(&mut self) -> (d: u16)
        requires
            old(self).wf(),
        ensures
            final(self).wf(),
            d as int == old(self).peek(),
            d < ROLL_RANGE,
            final(self).values@ == old(self).values@,
            final(self).next == old(self).next_after_draw(),
    {
        if self.values.len() == 0 {
            return 0;
        }
        let d = self.values[self.next] % ROLL_RANGE;
        if self.next + 1 == self.values.len() {
            self.next = 0;
        } else {
            self.next = self.next + 1;
        }
        d
    }
}

/// The `k`-th draw a stream hands out from its current cursor.
pub open spec fn nth_draw(r: Rolls, k: int) -> int {
    if r.values.len() == 0 {
        0
    } else {
        r.values@[(r.next + k) % (r.values.len() as int)] as int % ROLL_RANGE as int
    }
}

/// The cursor of a stream after `k` draws.
pub open spec fn cursor_after(r: Rolls, k: int) -> int {
    if r.values.len() == 0 {
        0
    } else {
        (r.next + k) % (r.values.len() as int)
    }
}

/// Before any draw the cursor is where it started.
pub proof fn lemma_cursor_start(r: Rolls)
    requires
        r.wf(),
    ensures
        cursor_after(r, 0) == r.next,
{
    if r.values.len() > 0 {
        vstd::arithmetic::div_mod::lemma_small_mod(r.next as nat, r.values.len() as nat);
    }
}

/// Drawing once from a stream that has already handed out `k` draws hands
/// out its `k`-th draw and leaves the cursor after `k + 1` draws.
pub proof fn lemma_cursor_step(r: Rolls, k: int)
    requires
        r.wf(),
        k >= 0,
    ensures
        ({
            let s = Rolls { values: r.values, next: cursor_after(r, k) as usize };
            &&& s.wf()
            &&& s.peek() == nth_draw(r, k)
            &&& s.next_after_draw() == cursor_after(r, k + 1)
        }),
{
    if r.values.len() > 0 {
        let n = r.values.len() as int;
        let c = (r.next + k) % n;
        vstd::arithmetic::div_mod::lemma_mod_bound(r.next + k, n);
        vstd::arithmetic::div_mod::lemma_add_mod_noop(r.next + k, 1, n);
        if n == 1 {
            vstd::arithmetic::div_mod::lemma_mod_self_0(1);
            vstd::arithmetic::div_mod::lemma_mod_bound(r.next + k + 1, n);
        } else {
            vstd::arithmetic::div_mod::lemma_small_mod(1, n as nat);
        }
        if c + 1 == n {
            vstd::arithmetic::div_mod::lemma_mod_self_0(n);
        } else {
            vstd::arithmetic::div_mod::lemma_small_mod((c + 1) as nat, n as nat);
        }
    }
}

} // verus!
