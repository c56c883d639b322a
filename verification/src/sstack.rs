//! The stack of value stacks.  The last stack is the TOSS (top of stack
//! stack), the one beneath it — when there is one — the SOSS.  Popping an
//! empty stack yields 0; `{`, `}` and `u` create, destroy and transfer
//! between stacks.

use vstd::prelude::*;
use vstd::assert_seqs_equal;

verus! {

pub struct SStack {
    stacks: Vec<Vec<i32>>,
}

impl View for SStack {
    type V = Seq<Seq<i32>>;

    closed spec fn view(&self) -> Seq<Seq<i32>> {
        self.stacks@.map_values(|v: Vec<i32>| v@)
    }
}

/// The value a pop of `s` yields: the top, or 0 when `s` is empty.
pub open spec fn top_or_zero(s: Seq<i32>) -> i32 {
    if s.len() == 0 {
        0i32
    } else {
        s.last()
    }
}

/// What remains of `s` after one pop.
pub open spec fn rest_after_pop(s: Seq<i32>) -> Seq<i32> {
    if s.len() == 0 {
        s
    } else {
        s.drop_last()
    }
}

/// The `k` values that popping `s` that often yields, in pop order, with
/// zeros once the stack runs dry.
pub open spec fn popped_values(s: Seq<i32>, k: nat) -> Seq<i32> {
    Seq::new(k, |i: int| if i < s.len() { s[s.len() - 1 - i] } else { 0i32 })
}

/// What remains of `s` after `k` pops.
pub open spec fn rest_after_pops(s: Seq<i32>, k: nat) -> Seq<i32> {
    if k >= s.len() {
        Seq::empty()
    } else {
        s.take(s.len() - k)
    }
}

/// A sequence of `k` zero cells.
pub open spec fn zeros(k: nat) -> Seq<i32> {
    Seq::new(k, |i: int| 0i32)
}

/// The stack pair `{` leaves behind, before the storage offset is saved:
/// the new TOSS and what remains of the old TOSS (the new SOSS).
pub open spec fn split_for_create(toss: Seq<i32>, n: int) -> (Seq<i32>, Seq<i32>) {
    if n <= 0 {
        (Seq::empty(), if n == 0 {
            toss
        } else {
            toss + zeros((-n) as nat)
        })
    } else if n > toss.len() {
        (zeros((n - toss.len()) as nat) + toss, Seq::empty())
    } else {
        (toss.subrange(toss.len() - n, toss.len() as int), toss.take(toss.len() - n))
    }
}

/// The SOSS `}` leaves behind once the storage offset has been popped off it:
/// for positive `n` the top `n` cells of the dying TOSS arrive in order,
/// zero-padded below when the TOSS is short; for negative `n`, `|n|` cells
/// are dropped.
pub open spec fn merge_for_destroy(soss: Seq<i32>, toss: Seq<i32>, n: int) -> Seq<i32> {
    if n == 0 {
        soss
    } else if n < 0 {
        rest_after_pops(soss, (-n) as nat)
    } else if n > toss.len() {
        soss + zeros((n - toss.len()) as nat) + toss
    } else {
        soss + toss.subrange(toss.len() - n, toss.len() as int)
    }
}

impl SStack {
    /// There is always at least one stack.
    pub open spec fn wf(self) -> bool {
        self@.len() >= 1
    }

    /// One empty stack.
    pub fn new() -> (r: Self)
        ensures
            r.wf(),
            r@ =~= seq![Seq::<i32>::empty()],
    {
        let mut stacks: Vec<Vec<i32>> = Vec::new();
        stacks.push(Vec::new());
        let r = SStack { stacks };
        proof {
            assert_seqs_equal!(r@, seq![Seq::<i32>::empty()]);
        }
        r
    }

    /// How many stacks there are.
    pub fn depth(&self) -> (r: usize)
        ensures
            r == self@.len(),
    {
        self.stacks.len()
    }

    /// The stacks themselves, bottom first; the last is the TOSS.
    pub fn get_stacks(&self) -> (r: &Vec<Vec<i32>>)
        ensures
            r@.len() == self@.len(),
            forall|i: int| 0 <= i < r@.len() ==> #[trigger] r@[i]@ == self@[i],
    {
        &self.stacks
    }

    /// The size of the TOSS.
    pub fn get_toss_len(&self) -> (r: usize)
        requires
            self.wf(),
        ensures
            r == self@.last().len(),
    {
        self.stacks[self.stacks.len() - 1].len()
    }

    /// Empties the TOSS.
    pub fn clear_toss(&mut self)
        requires
            old(self).wf(),
        ensures
            final(self).wf(),
            final(self)@ =~= old(self)@.update(old(self)@.len() - 1, Seq::<i32>::empty()),
    {
        let mut toss = self.stacks.pop().unwrap();
        toss.clear();
        self.stacks.push(toss);
    }

    /// Pushes `x` onto the TOSS.
    pub fn push_onto_toss(&mut self, x: i32)
        requires
            old(self).wf(),
        ensures
            final(self).wf(),
            final(self)@ =~= old(self)@.update(old(self)@.len() - 1, old(self)@.last().push(x)),
    {
        let mut toss = self.stacks.pop().unwrap();
        toss.push(x);
        self.stacks.push(toss);
    }

    /// Pops from the TOSS; an empty TOSS yields 0 and stays empty.
    pub fn pop_from_toss(&mut self) -> (r: i32)
        requires
            old(self).wf(),
        ensures
            final(self).wf(),
            r == top_or_zero(old(self)@.last()),
            final(self)@ =~= old(self)@.update(
                old(self)@.len() - 1,
                rest_after_pop(old(self)@.last()),
            ),
    {
        let mut toss = self.stacks.pop().unwrap();
        let r = match toss.pop() {
            Some(x) => x,
            None => 0,
        };
        self.stacks.push(toss);
        r
    }

    /// The `n`-th cell from the top of the TOSS (0 is the top); out-of-range
    /// depths read as 0.
    pub fn get(&self, n: u64) -> (r: i32)
        requires
            self.wf(),
        ensures
            r == (if n < self@.last().len() {
                self@.last()[self@.last().len() - 1 - n]
            } else {
                0i32
            }),
    {
        let toss = &self.stacks[self.stacks.len() - 1];
        if n < toss.len() as u64 {
            toss[toss.len() - 1 - (n as usize)]
        } else {
            0
        }
    }

    /// `{`: carves a new TOSS out of the old one and saves the storage offset
    /// on what becomes the SOSS.
    pub fn create_stack(&mut self, n: i32, so: (i32, i32))
        requires
            old(self).wf(),
        ensures
            final(self).wf(),
            final(self)@ =~= old(self)@.update(
                old(self)@.len() - 1,
                split_for_create(old(self)@.last(), n as int).1.push(so.0).push(so.1),
            ).push(split_for_create(old(self)@.last(), n as int).0),
    {
        let mut soss = self.stacks.pop().unwrap();
        let mut toss: Vec<i32> = Vec::new();
        if n < 0 {
            let cnt: u64 = (-(n as i64)) as u64;
            let mut j: u64 = 0;
            while j < cnt
                invariant
                    j <= cnt,
                    soss@ =~= old(self)@.last() + zeros(j as nat),
                decreases cnt - j,
            {
                soss.push(0);
                proof {
                    assert_seqs_equal!(soss@, old(self)@.last() + zeros((j + 1) as nat));
                }
                j = j + 1;
            }
        } else if n > 0 {
            let n_u: u64 = n as u64;
            if n_u > soss.len() as u64 {
                let pad: u64 = n_u - soss.len() as u64;
                let mut j: u64 = 0;
                while j < pad
                    invariant
                        j <= pad,
                        toss@ =~= zeros(j as nat),
                    decreases pad - j,
                {
                    toss.push(0);
                    proof {
                        assert_seqs_equal!(toss@, zeros((j + 1) as nat));
                    }
                    j = j + 1;
                }
                toss.append(&mut soss);
            } else {
                let at = soss.len() - (n as usize);
                let rest = soss.split_off(at);
                toss = rest;
            }
        }
        soss.push(so.0);
        soss.push(so.1);
        self.stacks.push(soss);
        self.stacks.push(toss);
    }

    /// `}`: removes the TOSS, restores the storage offset saved below, and
    /// hands back the requested cells.  Fails (with everything unchanged)
    /// when only one stack is left.
    pub fn destroy_stack(&mut self, n: i32) -> (r: Option<(i32, i32)>)
        requires
            old(self).wf(),
        ensures
            final(self).wf(),
            old(self)@.len() < 2 ==> r is None && final(self)@ == old(self)@,
            old(self)@.len() >= 2 ==> {
                let toss = old(self)@.last();
                let soss0 = old(self)@[old(self)@.len() - 2];
                let y = top_or_zero(soss0);
                let x = top_or_zero(rest_after_pop(soss0));
                let soss1 = rest_after_pop(rest_after_pop(soss0));
                r == Some((x, y)) && final(self)@ =~= old(self)@.take(old(self)@.len() - 2).push(
                    merge_for_destroy(soss1, toss, n as int),
                )
            },
    {
        if self.stacks.len() < 2 {
            return None;
        }
        let mut toss = self.stacks.pop().unwrap();
        let mut soss = self.stacks.pop().unwrap();
        let y = match soss.pop() {
            Some(v) => v,
            None => 0,
        };
        let x = match soss.pop() {
            Some(v) => v,
            None => 0,
        };
        if n > 0 {
            let n_u: u64 = n as u64;
            let t_len: u64 = toss.len() as u64;
            if n_u > t_len {
                let pad: u64 = n_u - t_len;
                let ghost base = soss@;
                let mut j: u64 = 0;
                while j < pad
                    invariant
                        j <= pad,
                        soss@ =~= base + zeros(j as nat),
                    decreases pad - j,
                {
                    soss.push(0);
                    proof {
                        assert_seqs_equal!(soss@, base + zeros((j + 1) as nat));
                    }
                    j = j + 1;
                }
                soss.append(&mut toss);
            } else {
                let mut moved = toss.split_off(toss.len() - (n as usize));
                soss.append(&mut moved);
            }
        } else if n < 0 {
            let cnt: u64 = (-(n as i64)) as u64;
            let s_len: u64 = soss.len() as u64;
            let keep: u64 = if cnt >= s_len {
                0
            } else {
                s_len - cnt
            };
            soss.truncate(keep as usize);
        }
        proof {
            let toss0 = old(self)@.last();
            let soss0 = old(self)@[old(self)@.len() - 2];
            let soss1 = rest_after_pop(rest_after_pop(soss0));
            assert_seqs_equal!(soss@, merge_for_destroy(soss1, toss0, n as int));
        }
        self.stacks.push(soss);
        Some((x, y))
    }

    /// `u`: moves `count` cells between SOSS and TOSS, one pop-and-push at a
    /// time, so their order reverses.  Fails when only one stack is left.
    pub fn transfer(&mut self, count: i32) -> (r: bool)
        requires
            old(self).wf(),
        ensures
            final(self).wf(),
            r <==> old(self)@.len() >= 2,
            !r ==> final(self)@ == old(self)@,
            r ==> {
                let toss = old(self)@.last();
                let soss = old(self)@[old(self)@.len() - 2];
                if count >= 0 {
                    final(self)@ =~= old(self)@.take(old(self)@.len() - 2).push(
                        rest_after_pops(soss, count as nat),
                    ).push(toss + popped_values(soss, count as nat))
                } else {
                    final(self)@ =~= old(self)@.take(old(self)@.len() - 2).push(
                        soss + popped_values(toss, (-(count as int)) as nat),
                    ).push(rest_after_pops(toss, (-(count as int)) as nat))
                }
            },
    {
        if self.stacks.len() < 2 {
            return false;
        }
        let mut toss = self.stacks.pop().unwrap();
        let mut soss = self.stacks.pop().unwrap();
        let ghost s0 = soss@;
        let ghost t0 = toss@;
        if count > 0 {
            let cnt: u64 = count as u64;
            let mut j: u64 = 0;
            while j < cnt
                invariant
                    j <= cnt,
                    soss@ =~= rest_after_pops(s0, j as nat),
                    toss@ =~= t0 + popped_values(s0, j as nat),
                decreases cnt - j,
            {
                let v = match soss.pop() {
                    Some(x) => x,
                    None => 0,
                };
                toss.push(v);
                proof {
                    assert_seqs_equal!(soss@, rest_after_pops(s0, (j + 1) as nat));
                    assert_seqs_equal!(toss@, t0 + popped_values(s0, (j + 1) as nat));
                }
                j = j + 1;
            }
        } else if count < 0 {
            let cnt: u64 = (-(count as i64)) as u64;
            let mut j: u64 = 0;
            while j < cnt
                invariant
                    j <= cnt,
                    toss@ =~= rest_after_pops(t0, j as nat),
                    soss@ =~= s0 + popped_values(t0, j as nat),
                decreases cnt - j,
            {
                let v = match toss.pop() {
                    Some(x) => x,
                    None => 0,
                };
                soss.push(v);
                proof {
                    assert_seqs_equal!(toss@, rest_after_pops(t0, (j + 1) as nat));
                    assert_seqs_equal!(soss@, s0 + popped_values(t0, (j + 1) as nat));
                }
                j = j + 1;
            }
        }
        proof {
            if count >= 0 {
                assert_seqs_equal!(soss@, rest_after_pops(s0, count as nat));
                assert_seqs_equal!(toss@, t0 + popped_values(s0, count as nat));
            } else {
                assert_seqs_equal!(toss@, rest_after_pops(t0, (-(count as int)) as nat));
                assert_seqs_equal!(soss@, s0 + popped_values(t0, (-(count as int)) as nat));
            }
        }
        self.stacks.push(soss);
        self.stacks.push(toss);
        true
    }
}

/// What `:` (duplicate) leaves on a stack: the top — 0 on an empty stack —
/// twice above the rest.
pub open spec fn spec_dup(s: Seq<i32>) -> Seq<i32> {
    rest_after_pop(s).push(top_or_zero(s)).push(top_or_zero(s))
}

/// What `\` (swap) leaves on a stack: the top two cells exchanged, reading
/// absent cells as 0.
pub open spec fn spec_swap(s: Seq<i32>) -> Seq<i32> {
    let a = top_or_zero(s);
    let rest1 = rest_after_pop(s);
    let b = top_or_zero(rest1);
    rest_after_pop(rest1).push(a).push(b)
}

/// Duplicating and then swapping is just duplicating: after `:`, the two
/// topmost cells are equal, so `\` exchanges equals.
pub proof fn lemma_dup_then_swap_is_dup(s: Seq<i32>)
    ensures
        spec_swap(spec_dup(s)) == spec_dup(s),
{
    assert_seqs_equal!(spec_swap(spec_dup(s)), spec_dup(s));
}

/// Carving off a block with `{` and tearing it down again with `}` — the
/// same `n`, `0 <= n <= |TOSS|` — restores the stack of stacks exactly and
/// hands the saved storage offset back.
pub proof fn lemma_create_then_destroy(v: Seq<Seq<i32>>, n: int, so: (i32, i32))
    requires
        v.len() >= 1,
        0 <= n <= v.last().len(),
    ensures
        ({
            let created = v.update(
                v.len() - 1,
                split_for_create(v.last(), n).1.push(so.0).push(so.1),
            ).push(split_for_create(v.last(), n).0);
            let toss = created.last();
            let soss0 = created[created.len() - 2];
            let y = top_or_zero(soss0);
            let x = top_or_zero(rest_after_pop(soss0));
            let soss1 = rest_after_pop(rest_after_pop(soss0));
            let after = created.take(created.len() - 2).push(merge_for_destroy(soss1, toss, n));
            after == v && (x, y) == so
        }),
{
    let created = v.update(v.len() - 1, split_for_create(v.last(), n).1.push(so.0).push(so.1)).push(
        split_for_create(v.last(), n).0,
    );
    let toss = created.last();
    let soss0 = created[created.len() - 2];
    let soss1 = rest_after_pop(rest_after_pop(soss0));
    assert(soss1 == split_for_create(v.last(), n).1);
    let merged = merge_for_destroy(soss1, toss, n);
    if n == 0 {
        assert_seqs_equal!(merged, v.last());
    } else {
        assert_seqs_equal!(merged, v.last());
    }
    let after = created.take(created.len() - 2).push(merged);
    assert_seqs_equal!(after, v);
}

} // verus!
