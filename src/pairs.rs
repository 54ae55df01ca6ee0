use vstd::arithmetic::div_mod::lemma_div_multiples_vanish;
use vstd::prelude::*;

verus! {

/// The pairs `(i, j), (i, j + 1), ..., (i, n - 1)`.
pub open spec fn row(i: nat, j: nat, n: nat) -> Seq<(nat, nat)> {
    if j < n {
        Seq::new((n - j) as nat, |k: int| (i, (j + k) as nat))
    } else {
        Seq::empty()
    }
}

/// Every unordered pair `{a, b}` with `i <= a < b < n`, as `(a, b)`, ordered by
/// `a` and then by `b`.
pub open spec fn pairs_from(i: nat, n: nat) -> Seq<(nat, nat)>
    decreases n - i,
{
    if i >= n {
        Seq::empty()
    } else {
        row(i, i + 1, n) + pairs_from(i + 1, n)
    }
}

/// The order in which the unordered pairs of `n` bodies are visited in one tick.
pub open spec fn pair_schedule(n: nat) -> Seq<(nat, nat)> {
    pairs_from(0, n)
}

/// Number of unordered pairs of distinct items among `n` items.
pub open spec fn pair_count_spec(n: nat) -> nat {
    (n * (n - 1) / 2) as nat
}

proof fn lemma_pairs_from_len(i: nat, n: nat)
    requires
        i <= n,
    ensures
        2 * pairs_from(i, n).len() == (n - i) * (n - i - 1),
    decreases n - i,
{
    if i < n {
        lemma_pairs_from_len(i + 1, n);
        let m = n - i;
        assert(row(i, i + 1, n).len() == m - 1);
        assert(pairs_from(i, n).len() == (m - 1) + pairs_from(i + 1, n).len());
        let a = pairs_from(i, n).len() as int;
        let b = pairs_from(i + 1, n).len() as int;
        assert(2 * a == m * (m - 1)) by (nonlinear_arith)
            requires
                a == (m - 1) + b,
                2 * b == (n - (i + 1)) * (n - (i + 1) - 1),
                m == n - i,
        ;
    } else {
        assert((n - i) * (n - i - 1) == 0) by (nonlinear_arith)
            requires
                i == n,
        ;
    }
}

proof fn lemma_pairs_from_members(i: nat, n: nat)
    ensures
        forall|k: int|
            0 <= k < pairs_from(i, n).len() ==> i <= (#[trigger] pairs_from(i, n)[k]).0
                < pairs_from(i, n)[k].1 < n,
        forall|a: nat, b: nat| i <= a < b < n ==> pairs_from(i, n).contains((a, b)),
        pairs_from(i, n).no_duplicates(),
    decreases n - i,
{
    if i < n {
        lemma_pairs_from_members(i + 1, n);
        let r = row(i, i + 1, n);
        let rest = pairs_from(i + 1, n);
        let s = pairs_from(i, n);
        assert(s == r + rest);
        assert forall|a: nat, b: nat| i <= a < b < n implies s.contains((a, b)) by {
            if a == i {
                assert(r[b - i - 1] == (a, b));
                assert(s[b - i - 1] == (a, b));
            } else {
                assert(rest.contains((a, b)));
                let k = choose|k: int| 0 <= k < rest.len() && rest[k] == (a, b);
                assert(s[r.len() + k] == (a, b));
            }
        }
        assert forall|x: int, y: int|
            0 <= x < s.len() && 0 <= y < s.len() && x != y implies s[x] != s[y] by {
            if x < r.len() && y >= r.len() {
                assert(rest[y - r.len()].0 > i);
            } else if y < r.len() && x >= r.len() {
                assert(rest[x - r.len()].0 > i);
            } else if x >= r.len() && y >= r.len() {
                assert(rest[x - r.len()] != rest[y - r.len()]);
            }
        }
        assert forall|k: int| 0 <= k < s.len() implies i <= (#[trigger] s[k]).0 < s[k].1 < n by {
            if k >= r.len() {
                assert(s[k] == rest[k - r.len()]);
            }
        }
    }
}

/// Each unordered pair of distinct indices below `n` is visited exactly once in a
/// tick, always as `(a, b)` with `a < b`, and there are `n * (n - 1) / 2` of them.
pub proof fn lemma_pair_schedule(n: nat)
    ensures
        pair_schedule(n).len() == pair_count_spec(n),
        forall|k: int|
            0 <= k < pair_schedule(n).len() ==> (#[trigger] pair_schedule(n)[k]).0
                < pair_schedule(n)[k].1 < n,
        forall|a: nat, b: nat| a < b < n ==> pair_schedule(n).contains((a, b)),
        pair_schedule(n).no_duplicates(),
{
    lemma_pairs_from_len(0, n);
    lemma_pairs_from_members(0, n);
    assert(pair_schedule(n).len() == n * (n - 1) / 2);
}

/// A lone body, such as the star of a registry with no generated bodies, takes
/// part in no pair.
pub proof fn lemma_single_body_has_no_pairs()
    ensures
        pair_schedule(1).len() == 0,
        pair_count_spec(1) == 0,
{
    lemma_pair_schedule(1);
}

/// A pair of indices as natural numbers.
pub open spec fn pair_view(p: (usize, usize)) -> (nat, nat) {
    (p.0 as nat, p.1 as nat)
}

/// Walks the unordered pairs of `n` indices in the fixed order of
/// `pair_schedule(n)`.
pub struct PairCursor {
    n: usize,
    i: usize,
    j: usize,
}

impl PairCursor {
    /// The number of indices the cursor ranges over.
    pub closed spec fn count(&self) -> nat {
        self.n as nat
    }

    /// The pairs still to be handed out, in order.
    pub closed spec fn remaining(&self) -> Seq<(nat, nat)> {
        if self.j < self.n {
            row(self.i as nat, self.j as nat, self.n as nat) + pairs_from(
                self.i as nat + 1,
                self.n as nat,
            )
        } else {
            Seq::empty()
        }
    }

    pub closed spec fn wf(&self) -> bool {
        &&& self.j <= self.n
        &&& self.j < self.n ==> self.i < self.j
    }

    /// A cursor at the first pair of `n` indices.
    pub fn new(n: usize) -> (r: PairCursor)
        ensures
            r.wf(),
            r.count() == n,
            r.remaining() == pair_schedule(n as nat),
    {
        if n == 0 {
            PairCursor { n, i: 0, j: 0 }
        } else {
            let r = PairCursor { n, i: 0, j: 1 };
            assert(pairs_from(1, 1) == Seq::<(nat, nat)>::empty());
            assert(r.remaining() =~= pair_schedule(n as nat));
            r
        }
    }

    /// Hands out the next pair, or `None` once every pair has been visited.
    pub fn next(&mut self) -> (r: Option<(usize, usize)>)
        requires
            old(self).wf(),
        ensures
            final(self).wf(),
            final(self).count() == old(self).count(),
            old(self).remaining().len() == 0 ==> r is None && final(self).remaining().len() == 0,
            old(self).remaining().len() > 0 ==> (r matches Some(p) && pair_view(p)
                == old(self).remaining()[0]),
            old(self).remaining().len() > 0 ==> final(self).remaining()
                == old(self).remaining().drop_first(),
    {
        if self.j >= self.n {
            return None;
        }
        let p = (self.i, self.j);
        let ghost before = self.remaining();
        if self.j + 1 < self.n {
            self.j = self.j + 1;
            assert(self.remaining() =~= before.drop_first());
        } else {
            let ghost (i, n) = (self.i as nat, self.n as nat);
            assert(before.drop_first() =~= pairs_from(i + 1, n));
            assert(pairs_from(i + 1, n) == row(i + 1, i + 2, n) + pairs_from(i + 2, n));
            assert(i + 2 >= n ==> pairs_from(i + 2, n) == Seq::<(nat, nat)>::empty());
            self.i = self.i + 1;
            self.j = self.i + 1;
            assert(self.remaining() =~= before.drop_first());
        }
        Some(p)
    }
}

/// Every unordered pair of distinct indices below `n`, in the order in which a
/// tick visits them.
pub fn all_pairs(n: usize) -> (r: Vec<(usize, usize)>)
    ensures
        r@.len() == pair_schedule(n as nat).len(),
        forall|k: int| 0 <= k < r@.len() ==> pair_view(#[trigger] r@[k]) == pair_schedule(n as nat)[k],
{
    let mut cursor = PairCursor::new(n);
    let mut out: Vec<(usize, usize)> = Vec::new();
    loop
        invariant
            cursor.wf(),
            out@.len() + cursor.remaining().len() == pair_schedule(n as nat).len(),
            forall|k: int| 0 <= k < out@.len() ==> pair_view(#[trigger] out@[k]) == pair_schedule(n as nat)[k],
            cursor.remaining() == pair_schedule(n as nat).subrange(out@.len() as int, pair_schedule(n as nat).len() as int),
        ensures
            out@.len() == pair_schedule(n as nat).len(),
            forall|k: int| 0 <= k < out@.len() ==> pair_view(#[trigger] out@[k]) == pair_schedule(n as nat)[k],
        decreases cursor.remaining().len(),
    {
        match cursor.next() {
            Some(p) => {
                out.push(p);
            },
            None => {
                break;
            },
        }
    }
    out
}

/// The number of unordered pairs of distinct indices below `n`.
pub fn pair_count(n: usize) -> (r: usize)
    requires
        pair_count_spec(n as nat) <= usize::MAX,
    ensures
        r == pair_count_spec(n as nat),
{
    if n == 0 {
        assert(pair_count_spec(0) == 0) by (nonlinear_arith);
        return 0;
    }
    let m: usize = n - 1;
    if n % 2 == 0 {
        let h: usize = n / 2;
        assert(n * m == 2 * (h * m)) by (nonlinear_arith)
            requires
                h * 2 == n,
        ;
        proof { lemma_div_multiples_vanish(h * m, 2); }
        h * m
    } else {
        let h: usize = m / 2;
        assert(n * m == 2 * (n * h)) by (nonlinear_arith)
            requires
                h * 2 == m,
        ;
        proof { lemma_div_multiples_vanish(n * h, 2); }
        n * h
    }
}

} // verus!
