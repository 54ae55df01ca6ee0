use crate::pairs::{lemma_pair_schedule, lemma_single_body_has_no_pairs, pair_schedule, pair_view, PairCursor};
use vstd::prelude::*;

verus! {

/// One simulated point mass. `P` is the type of a point or vector in space and
/// `M` the type of a scalar such as a mass or a radius.
#[derive(Clone, Copy)]
pub struct Body<P, M> {
    pub mass: M,
    /// Visual size only; it takes no part in the physics.
    pub radius: M,
    pub position: P,
    /// Where the body was one timestep ago; with `position` it encodes the
    /// body's velocity.
    pub previous_position: P,
    /// Accumulated during a tick and cleared when the tick is integrated.
    pub acceleration: P,
}

/// `b` with its acceleration replaced by `a`.
pub open spec fn with_acceleration<P, M>(b: Body<P, M>, a: P) -> Body<P, M> {
    Body { acceleration: a, ..b }
}

/// `after` differs from `before` in accelerations at most.
pub open spec fn same_but_accelerations<P, M>(before: Seq<Body<P, M>>, after: Seq<Body<P, M>>) -> bool {
    &&& after.len() == before.len()
    &&& forall|k: int|
        0 <= k < before.len() ==> (#[trigger] after[k]).mass == before[k].mass && after[k].radius
            == before[k].radius && after[k].position == before[k].position
            && after[k].previous_position == before[k].previous_position
}

/// One interaction of the pair `p = (i, j)`: `interact` is handed both bodies and
/// its two results become the new accelerations of `i` and `j`; nothing else
/// changes.
pub open spec fn pair_step<P, M, F: Fn(Body<P, M>, Body<P, M>) -> (P, P)>(
    before: Seq<Body<P, M>>,
    after: Seq<Body<P, M>>,
    p: (nat, nat),
    interact: F,
) -> bool {
    let (i, j) = p;
    &&& i < j < before.len()
    &&& after.len() == before.len()
    &&& exists|out: (P, P)|
        #[trigger] call_ensures(interact, (before[i as int], before[j as int]), out)
            && after[i as int] == with_acceleration(before[i as int], out.0)
            && after[j as int] == with_acceleration(before[j as int], out.1)
    &&& forall|k: int| 0 <= k < before.len() && k != i && k != j ==> #[trigger] after[k] == before[k]
}

/// `end` is what `start` becomes when the pairs of `schedule` interact one after
/// the other, in that order.
pub open spec fn pairwise_run<P, M, F: Fn(Body<P, M>, Body<P, M>) -> (P, P)>(
    start: Seq<Body<P, M>>,
    end: Seq<Body<P, M>>,
    schedule: Seq<(nat, nat)>,
    interact: F,
) -> bool {
    exists|trace: Seq<Seq<Body<P, M>>>|
        #[trigger] trace.len() == schedule.len() + 1 && trace[0] == start && trace.last() == end
            && forall|k: int|
            0 <= k < schedule.len() ==> pair_step(#[trigger] trace[k], trace[k + 1], schedule[k], interact)
}

/// The integration of every body: its position becomes what `advance` computed
/// from it, its previous position its old position, and its acceleration `zero`.
pub open spec fn integrated<P, M, G: Fn(Body<P, M>) -> P>(
    before: Seq<Body<P, M>>,
    after: Seq<Body<P, M>>,
    advance: G,
    zero: P,
) -> bool {
    &&& after.len() == before.len()
    &&& forall|k: int|
        0 <= k < before.len() ==> {
            &&& call_ensures(advance, (before[k],), (#[trigger] after[k]).position)
            &&& after[k].previous_position == before[k].position
            &&& after[k].acceleration == zero
            &&& after[k].mass == before[k].mass
            &&& after[k].radius == before[k].radius
        }
}

/// `end` is what one tick makes of `start`: the accumulation phase over every
/// pair in schedule order, then the integration phase.
pub open spec fn tick_result<P, M, F: Fn(Body<P, M>, Body<P, M>) -> (P, P), G: Fn(Body<P, M>) -> P>(
    start: Seq<Body<P, M>>,
    end: Seq<Body<P, M>>,
    interact: F,
    advance: G,
    zero: P,
) -> bool {
    exists|mid: Seq<Body<P, M>>|
        #[trigger] pairwise_run(start, mid, pair_schedule(start.len()), interact)
            && same_but_accelerations(start, mid) && integrated(mid, end, advance, zero)
}

/// `interact` gives a single result for each pair of bodies.
pub open spec fn interact_is_function<P, M, F: Fn(Body<P, M>, Body<P, M>) -> (P, P)>(interact: F) -> bool {
    forall|a: Body<P, M>, b: Body<P, M>, o1: (P, P), o2: (P, P)|
        #[trigger] call_ensures(interact, (a, b), o1) && #[trigger] call_ensures(interact, (a, b), o2)
            ==> o1 == o2
}

/// `advance` gives a single result for each body.
pub open spec fn advance_is_function<P, M, G: Fn(Body<P, M>) -> P>(advance: G) -> bool {
    forall|b: Body<P, M>, p1: P, p2: P|
        #[trigger] call_ensures(advance, (b,), p1) && #[trigger] call_ensures(advance, (b,), p2) ==> p1
            == p2
}

proof fn lemma_pair_step_unique<P, M, F: Fn(Body<P, M>, Body<P, M>) -> (P, P)>(
    before: Seq<Body<P, M>>,
    a1: Seq<Body<P, M>>,
    a2: Seq<Body<P, M>>,
    p: (nat, nat),
    interact: F,
)
    requires
        interact_is_function(interact),
        pair_step(before, a1, p, interact),
        pair_step(before, a2, p, interact),
    ensures
        a1 == a2,
{
    let (i, j) = p;
    let o1 = choose|out: (P, P)|
        #[trigger] call_ensures(interact, (before[i as int], before[j as int]), out) && a1[i as int]
            == with_acceleration(before[i as int], out.0) && a1[j as int] == with_acceleration(
            before[j as int],
            out.1,
        );
    let o2 = choose|out: (P, P)|
        #[trigger] call_ensures(interact, (before[i as int], before[j as int]), out) && a2[i as int]
            == with_acceleration(before[i as int], out.0) && a2[j as int] == with_acceleration(
            before[j as int],
            out.1,
        );
    assert(o1 == o2);
    assert(a1 =~= a2);
}

proof fn lemma_traces_agree<P, M, F: Fn(Body<P, M>, Body<P, M>) -> (P, P)>(
    t1: Seq<Seq<Body<P, M>>>,
    t2: Seq<Seq<Body<P, M>>>,
    schedule: Seq<(nat, nat)>,
    interact: F,
    k: int,
)
    requires
        interact_is_function(interact),
        t1.len() == schedule.len() + 1,
        t2.len() == schedule.len() + 1,
        t1[0] == t2[0],
        forall|q: int| 0 <= q < schedule.len() ==> pair_step(#[trigger] t1[q], t1[q + 1], schedule[q], interact),
        forall|q: int| 0 <= q < schedule.len() ==> pair_step(#[trigger] t2[q], t2[q + 1], schedule[q], interact),
        0 <= k <= schedule.len(),
    ensures
        t1[k] == t2[k],
    decreases k,
{
    if k > 0 {
        lemma_traces_agree(t1, t2, schedule, interact, k - 1);
        assert(pair_step(t1[k - 1], t1[k], schedule[k - 1], interact));
        assert(pair_step(t2[k - 1], t2[k], schedule[k - 1], interact));
        lemma_pair_step_unique(t1[k - 1], t1[k], t2[k], schedule[k - 1], interact);
    }
}

proof fn lemma_run_unique<P, M, F: Fn(Body<P, M>, Body<P, M>) -> (P, P)>(
    start: Seq<Body<P, M>>,
    e1: Seq<Body<P, M>>,
    e2: Seq<Body<P, M>>,
    schedule: Seq<(nat, nat)>,
    interact: F,
)
    requires
        interact_is_function(interact),
        pairwise_run(start, e1, schedule, interact),
        pairwise_run(start, e2, schedule, interact),
    ensures
        e1 == e2,
{
    let t1 = choose|trace: Seq<Seq<Body<P, M>>>|
        #[trigger] trace.len() == schedule.len() + 1 && trace[0] == start && trace.last() == e1
            && forall|k: int|
            0 <= k < schedule.len() ==> pair_step(#[trigger] trace[k], trace[k + 1], schedule[k], interact);
    let t2 = choose|trace: Seq<Seq<Body<P, M>>>|
        #[trigger] trace.len() == schedule.len() + 1 && trace[0] == start && trace.last() == e2
            && forall|k: int|
            0 <= k < schedule.len() ==> pair_step(#[trigger] trace[k], trace[k + 1], schedule[k], interact);
    lemma_traces_agree(t1, t2, schedule, interact, schedule.len() as int);
}

/// A tick adds no choice of its own: when the physics it is handed gives one
/// result for each input, two ticks from the same bodies end in the same bodies.
/// Runs from the same generated bodies therefore follow the same trajectory.
pub proof fn lemma_tick_deterministic<P, M, F: Fn(Body<P, M>, Body<P, M>) -> (P, P), G: Fn(Body<P, M>) -> P>(
    start: Seq<Body<P, M>>,
    end1: Seq<Body<P, M>>,
    end2: Seq<Body<P, M>>,
    interact: F,
    advance: G,
    zero: P,
)
    requires
        interact_is_function(interact),
        advance_is_function(advance),
        tick_result(start, end1, interact, advance, zero),
        tick_result(start, end2, interact, advance, zero),
    ensures
        end1 == end2,
{
    let sched = pair_schedule(start.len());
    let m1 = choose|mid: Seq<Body<P, M>>|
        #[trigger] pairwise_run(start, mid, sched, interact) && same_but_accelerations(start, mid)
            && integrated(mid, end1, advance, zero);
    let m2 = choose|mid: Seq<Body<P, M>>|
        #[trigger] pairwise_run(start, mid, sched, interact) && same_but_accelerations(start, mid)
            && integrated(mid, end2, advance, zero);
    lemma_run_unique(start, m1, m2, sched, interact);
    assert forall|k: int| 0 <= k < end1.len() implies #[trigger] end1[k] == end2[k] by {
        assert(call_ensures(advance, (m1[k],), end1[k].position));
        assert(call_ensures(advance, (m1[k],), end2[k].position));
    }
    assert(end1 =~= end2);
}

/// `end` is what `ticks` ticks, one after the other, make of `start`.
pub open spec fn ticks_result<P, M, F: Fn(Body<P, M>, Body<P, M>) -> (P, P), G: Fn(Body<P, M>) -> P>(
    start: Seq<Body<P, M>>,
    end: Seq<Body<P, M>>,
    ticks: nat,
    interact: F,
    advance: G,
    zero: P,
) -> bool {
    exists|states: Seq<Seq<Body<P, M>>>|
        #[trigger] states.len() == ticks + 1 && states[0] == start && states.last() == end
            && forall|k: int|
            0 <= k < ticks ==> tick_result(#[trigger] states[k], states[k + 1], interact, advance, zero)
}

proof fn lemma_states_agree<P, M, F: Fn(Body<P, M>, Body<P, M>) -> (P, P), G: Fn(Body<P, M>) -> P>(
    s1: Seq<Seq<Body<P, M>>>,
    s2: Seq<Seq<Body<P, M>>>,
    ticks: nat,
    interact: F,
    advance: G,
    zero: P,
    k: int,
)
    requires
        interact_is_function(interact),
        advance_is_function(advance),
        s1.len() == ticks + 1,
        s2.len() == ticks + 1,
        s1[0] == s2[0],
        forall|q: int| 0 <= q < ticks ==> tick_result(#[trigger] s1[q], s1[q + 1], interact, advance, zero),
        forall|q: int| 0 <= q < ticks ==> tick_result(#[trigger] s2[q], s2[q + 1], interact, advance, zero),
        0 <= k <= ticks,
    ensures
        s1[k] == s2[k],
    decreases k,
{
    if k > 0 {
        lemma_states_agree(s1, s2, ticks, interact, advance, zero, k - 1);
        assert(tick_result(s1[k - 1], s1[k], interact, advance, zero));
        assert(tick_result(s2[k - 1], s2[k], interact, advance, zero));
        lemma_tick_deterministic(s1[k - 1], s1[k], s2[k], interact, advance, zero);
    }
}

/// Two runs of the same number of ticks from the same bodies, with physics that
/// gives one result for each input, end in the same bodies.
pub proof fn lemma_run_deterministic<P, M, F: Fn(Body<P, M>, Body<P, M>) -> (P, P), G: Fn(Body<P, M>) -> P>(
    start: Seq<Body<P, M>>,
    end1: Seq<Body<P, M>>,
    end2: Seq<Body<P, M>>,
    ticks: nat,
    interact: F,
    advance: G,
    zero: P,
)
    requires
        interact_is_function(interact),
        advance_is_function(advance),
        ticks_result(start, end1, ticks, interact, advance, zero),
        ticks_result(start, end2, ticks, interact, advance, zero),
    ensures
        end1 == end2,
{
    let s1 = choose|states: Seq<Seq<Body<P, M>>>|
        #[trigger] states.len() == ticks + 1 && states[0] == start && states.last() == end1
            && forall|k: int|
            0 <= k < ticks ==> tick_result(#[trigger] states[k], states[k + 1], interact, advance, zero);
    let s2 = choose|states: Seq<Seq<Body<P, M>>>|
        #[trigger] states.len() == ticks + 1 && states[0] == start && states.last() == end2
            && forall|k: int|
            0 <= k < ticks ==> tick_result(#[trigger] states[k], states[k + 1], interact, advance, zero);
    lemma_states_agree(s1, s2, ticks, interact, advance, zero, ticks as int);
}

/// With `generated` bodies besides the star, a tick's accumulation phase visits
/// `(generated + 1) * generated / 2` unordered pairs, each exactly once.
pub proof fn lemma_tick_pair_count(generated: nat)
    ensures
        pair_schedule(generated + 1).len() == (generated + 1) * generated / 2,
        pair_schedule(generated + 1).no_duplicates(),
        forall|a: nat, b: nat|
            a < b <= generated ==> #[trigger] pair_schedule(generated + 1).contains((a, b)),
{
    lemma_pair_schedule(generated + 1);
}

/// A registry that holds the star alone goes through the accumulation phase
/// unchanged: no pair interacts.
pub proof fn lemma_lone_star_accumulates_nothing<P, M, F: Fn(Body<P, M>, Body<P, M>) -> (P, P)>(
    start: Seq<Body<P, M>>,
    end: Seq<Body<P, M>>,
    interact: F,
)
    requires
        start.len() == 1,
        pairwise_run(start, end, pair_schedule(1), interact),
    ensures
        end == start,
        pair_schedule(1).len() == 0,
{
    lemma_single_body_has_no_pairs();
    let trace = choose|trace: Seq<Seq<Body<P, M>>>|
        #[trigger] trace.len() == pair_schedule(1).len() + 1 && trace[0] == start && trace.last()
            == end && forall|k: int|
            0 <= k < pair_schedule(1).len() ==> pair_step(
                #[trigger] trace[k],
                trace[k + 1],
                pair_schedule(1)[k],
                interact,
            );
    assert(trace.len() == 1);
}

/// The bodies of a simulation: the generated ones in the order they were made,
/// and the star, which is always the last.
pub struct Registry<P, M> {
    bodies: Vec<Body<P, M>>,
}

impl<P, M> View for Registry<P, M> {
    type V = Seq<Body<P, M>>;

    closed spec fn view(&self) -> Seq<Body<P, M>> {
        self.bodies@
    }
}

impl<P: Copy, M: Copy> Registry<P, M> {
    /// There is always a star.
    pub open spec fn wf(&self) -> bool {
        self@.len() >= 1
    }

    /// Index of the star.
    pub open spec fn star_spec(&self) -> nat {
        (self@.len() - 1) as nat
    }

    /// The generated bodies followed by the star.
    pub fn new(generated: Vec<Body<P, M>>, star: Body<P, M>) -> (r: Registry<P, M>)
        requires
            generated@.len() < usize::MAX,
        ensures
            r.wf(),
            r@ == generated@.push(star),
    {
        let mut bodies = generated;
        bodies.push(star);
        Registry { bodies }
    }

    /// Number of bodies, the star included.
    pub fn len(&self) -> (r: usize)
        ensures
            r == self@.len(),
    {
        self.bodies.len()
    }

    /// Number of generated bodies, that is of bodies other than the star.
    pub fn generated_count(&self) -> (r: usize)
        requires
            self.wf(),
        ensures
            r == self@.len() - 1,
    {
        self.bodies.len() - 1
    }

    /// Index of the star.
    pub fn star_index(&self) -> (r: usize)
        requires
            self.wf(),
        ensures
            r == self.star_spec(),
    {
        self.bodies.len() - 1
    }

    /// Whether body `k` is the star.
    pub fn is_star(&self, k: usize) -> (r: bool)
        requires
            self.wf(),
        ensures
            r == (k == self.star_spec()),
    {
        k == self.bodies.len() - 1
    }

    /// Body `k`.
    pub fn body(&self, k: usize) -> (r: &Body<P, M>)
        requires
            k < self@.len(),
        ensures
            *r == self@[k as int],
    {
        &self.bodies[k]
    }

    /// The star.
    pub fn star(&self) -> (r: &Body<P, M>)
        requires
            self.wf(),
        ensures
            *r == self@[self.star_spec() as int],
    {
        &self.bodies[self.bodies.len() - 1]
    }

    /// The positions of all bodies, in registry order.
    pub fn positions(&self) -> (r: Vec<P>)
        ensures
            r@.len() == self@.len(),
            forall|k: int| 0 <= k < self@.len() ==> #[trigger] r@[k] == self@[k].position,
    {
        let mut out: Vec<P> = Vec::new();
        let mut k: usize = 0;
        while k < self.bodies.len()
            invariant
                k <= self@.len(),
                out@.len() == k,
                forall|q: int| 0 <= q < k ==> #[trigger] out@[q] == self@[q].position,
            decreases self@.len() - k,
        {
            out.push(self.bodies[k].position);
            k = k + 1;
        }
        out
    }

    /// The accumulation phase of a tick: every unordered pair of bodies interacts
    /// once, in the order of `pair_schedule`. `interact` computes, from the two
    /// bodies, their new accelerations.
    pub fn accumulate<F: Fn(Body<P, M>, Body<P, M>) -> (P, P)>(&mut self, interact: F)
        requires
            forall|a: Body<P, M>, b: Body<P, M>| call_requires(interact, (a, b)),
        ensures
            pairwise_run(old(self)@, final(self)@, pair_schedule(old(self)@.len()), interact),
            same_but_accelerations(old(self)@, final(self)@),
    {
        let n = self.bodies.len();
        let ghost sched = pair_schedule(n as nat);
        proof {
            lemma_pair_schedule(n as nat);
        }
        let mut cursor = PairCursor::new(n);
        let ghost mut trace: Seq<Seq<Body<P, M>>> = seq![self@];
        let ghost mut done: int = 0;
        loop
            invariant
                self@.len() == n,
                cursor.wf(),
                cursor.count() == n,
                0 <= done <= sched.len(),
                cursor.remaining() == sched.subrange(done, sched.len() as int),
                trace.len() == done + 1,
                trace[0] == old(self)@,
                trace.last() == self@,
                forall|k: int| 0 <= k < done ==> pair_step(#[trigger] trace[k], trace[k + 1], sched[k], interact),
                same_but_accelerations(old(self)@, self@),
                forall|k: int| 0 <= k < sched.len() ==> (#[trigger] sched[k]).0 < sched[k].1 < n,
                forall|a: Body<P, M>, b: Body<P, M>| call_requires(interact, (a, b)),
            ensures
                pairwise_run(old(self)@, self@, sched, interact),
                same_but_accelerations(old(self)@, self@),
            decreases cursor.remaining().len(),
        {
            match cursor.next() {
                Some(p) => {
                    let (i, j) = p;
                    assert(pair_view(p) == sched[done]);
                    let ghost before = self@;
                    let a = self.bodies[i];
                    let b = self.bodies[j];
                    let out = interact(a, b);
                    self.bodies.set(i, Body { acceleration: out.0, ..a });
                    self.bodies.set(j, Body { acceleration: out.1, ..b });
                    proof {
                        assert(self@[i as int] == with_acceleration(before[i as int], out.0));
                        assert(pair_step(before, self@, sched[done], interact));
                        trace = trace.push(self@);
                        done = done + 1;
                    }
                },
                None => {
                    proof {
                        assert(done == sched.len());
                        assert(pairwise_run(old(self)@, self@, sched, interact)) by {
                            assert(trace.len() == sched.len() + 1);
                        }
                    }
                    break;
                },
            }
        }
    }

    /// The integration phase of a tick: each body moves to the position that
    /// `advance` computes from it, remembers where it was, and its acceleration is
    /// reset to `zero`.
    pub fn integrate<G: Fn(Body<P, M>) -> P>(&mut self, advance: G, zero: P)
        requires
            forall|b: Body<P, M>| call_requires(advance, (b,)),
        ensures
            integrated(old(self)@, final(self)@, advance, zero),
    {
        let n = self.bodies.len();
        let mut k: usize = 0;
        while k < n
            invariant
                self@.len() == n,
                n == old(self)@.len(),
                k <= n,
                forall|q: int| k <= q < n ==> #[trigger] self@[q] == old(self)@[q],
                forall|q: int|
                    0 <= q < k ==> {
                        &&& call_ensures(advance, (old(self)@[q],), (#[trigger] self@[q]).position)
                        &&& self@[q].previous_position == old(self)@[q].position
                        &&& self@[q].acceleration == zero
                        &&& self@[q].mass == old(self)@[q].mass
                        &&& self@[q].radius == old(self)@[q].radius
                    },
                forall|b: Body<P, M>| call_requires(advance, (b,)),
            decreases n - k,
        {
            let b = self.bodies[k];
            let next = advance(b);
            self.bodies.set(
                k,
                Body {
                    mass: b.mass,
                    radius: b.radius,
                    position: next,
                    previous_position: b.position,
                    acceleration: zero,
                },
            );
            k = k + 1;
        }
    }

    /// One fixed tick: the accumulation phase, carried through for every pair,
    /// and only then the integration phase.
    pub fn tick<F: Fn(Body<P, M>, Body<P, M>) -> (P, P), G: Fn(Body<P, M>) -> P>(
        &mut self,
        interact: F,
        advance: G,
        zero: P,
    )
        requires
            forall|a: Body<P, M>, b: Body<P, M>| call_requires(interact, (a, b)),
            forall|b: Body<P, M>| call_requires(advance, (b,)),
        ensures
            tick_result(old(self)@, final(self)@, interact, advance, zero),
            final(self)@.len() == old(self)@.len(),
            forall|k: int|
                0 <= k < old(self)@.len() ==> (#[trigger] final(self)@[k]).acceleration == zero
                    && final(self)@[k].previous_position == old(self)@[k].position
                    && final(self)@[k].mass == old(self)@[k].mass,
    {
        self.accumulate(interact);
        let ghost mid = self@;
        self.integrate(advance, zero);
        assert(pairwise_run(old(self)@, mid, pair_schedule(old(self)@.len()), interact));
    }

    /// `ticks` fixed ticks, one after the other.
    pub fn run<F: Fn(Body<P, M>, Body<P, M>) -> (P, P) + Copy, G: Fn(Body<P, M>) -> P + Copy>(
        &mut self,
        ticks: u64,
        interact: F,
        advance: G,
        zero: P,
    )
        requires
            forall|a: Body<P, M>, b: Body<P, M>| call_requires(interact, (a, b)),
            forall|b: Body<P, M>| call_requires(advance, (b,)),
        ensures
            ticks_result(old(self)@, final(self)@, ticks as nat, interact, advance, zero),
            final(self)@.len() == old(self)@.len(),
    {
        let mut done: u64 = 0;
        let ghost mut states: Seq<Seq<Body<P, M>>> = seq![self@];
        while done < ticks
            invariant
                done <= ticks,
                self@.len() == old(self)@.len(),
                states.len() == done + 1,
                states[0] == old(self)@,
                states.last() == self@,
                forall|k: int|
                    0 <= k < done ==> tick_result(#[trigger] states[k], states[k + 1], interact, advance, zero),
                forall|a: Body<P, M>, b: Body<P, M>| call_requires(interact, (a, b)),
                forall|b: Body<P, M>| call_requires(advance, (b,)),
            decreases ticks - done,
        {
            self.tick(interact, advance, zero);
            proof {
                states = states.push(self@);
            }
            done = done + 1;
        }
        assert(states.len() == ticks + 1);
    }
}

} // verus!
