use vstd::prelude::*;

use crate::circle::{lemma_support_disk_contains, support_disk, Circle2D};
use crate::geometry::point::{all_in_range, in_range, Point};
use crate::predicates::in_circle::{DefaultInCircle, InCircle};
use crate::predicates::orientation::DefaultOrientation;

verus! {

/// A pending piece of work of the iterative engine; each stands for a point
/// in the control flow of the recursive algorithm `welzl`.
///
/// - `S0`: enter a call: return the disk of the support, or schedule `S1`.
/// - `S1`: take the last remaining point `e` and make the first inner call.
/// - `S2(e)`: after the first inner call: if its disk misses `e`, make the
///   second inner call with `e` added to the support.
/// - `S3(e)`: give `e` back to the remaining points.
/// - `S4`: drop the last support point again.
#[derive(Clone, Copy, PartialEq, Eq, Debug, Structural)]
pub enum State {
    S0,
    S1,
    S2(Point),
    S3(Point),
    S4,
}

/// Welzl's algorithm as a recursive definition: the disk it finds for the
/// remaining points `p` with the points `r` kept on the boundary (meant to be
/// the smallest disk that contains `p` and has `r` on its boundary). The last
/// point of `p` is set aside; where the disk of the others misses it, it joins
/// the support.
pub open spec fn welzl<IC: InCircle>(p: Seq<Point>, r: Seq<Point>) -> Circle2D
    decreases p.len(),
{
    if p.len() == 0 || r.len() == 3 {
        support_disk::<DefaultOrientation>(r)
    } else {
        let e = p.last();
        let rest = p.drop_last();
        let d = welzl::<IC>(rest, r);
        if d.contains_spec::<IC>(e) {
            d
        } else {
            welzl::<IC>(rest, r.push(e))
        }
    }
}

/// The registers of the engine: the remaining points `P`, the support
/// candidates `R`, and the disk of the most recent inner call.
pub type Registers = (Seq<Point>, Seq<Point>, Circle2D);

/// The condition under which a piece of work can run on the registers.
pub open spec fn ready(t: State, g: Registers) -> bool {
    let (p, r, _c) = g;
    match t {
        State::S0 => r.len() <= 3 && all_in_range(p) && all_in_range(r),
        State::S1 => 0 < p.len() && r.len() < 3 && all_in_range(p) && all_in_range(r),
        State::S2(e) => r.len() < 3 && in_range(e) && all_in_range(p) && all_in_range(r),
        State::S3(e) => in_range(e),
        State::S4 => 0 < r.len(),
    }
}

/// What a piece of work does to the registers, counting all the work that it
/// schedules: `S0` and `S1` leave the result of the recursive call in the
/// last register.
pub open spec fn effect<IC: InCircle>(t: State, g: Registers) -> Registers {
    let (p, r, c) = g;
    match t {
        State::S0 => (p, r, welzl::<IC>(p, r)),
        State::S1 => (p, r, welzl::<IC>(p, r)),
        State::S2(e) => (
            p.push(e),
            r,
            if c.contains_spec::<IC>(e) {
                c
            } else {
                welzl::<IC>(p, r.push(e))
            },
        ),
        State::S3(e) => (p.push(e), r, c),
        State::S4 => (p, r.drop_last(), c),
    }
}

/// The registers after the whole work stack has run (the top is the last
/// element), or `None` where some piece of work would not be ready.
pub open spec fn run<IC: InCircle>(stack: Seq<State>, g: Registers) -> Option<Registers>
    decreases stack.len(),
{
    if stack.len() == 0 {
        Some(g)
    } else if ready(stack.last(), g) {
        run::<IC>(stack.drop_last(), effect::<IC>(stack.last(), g))
    } else {
        None
    }
}

/// The number of loop turns that the call `welzl(p, r)` takes in the engine.
pub open spec fn call_turns<IC: InCircle>(p: Seq<Point>, r: Seq<Point>) -> nat
    decreases p.len(),
{
    if p.len() == 0 || r.len() == 3 {
        1
    } else {
        let e = p.last();
        let rest = p.drop_last();
        let d = welzl::<IC>(rest, r);
        4 + call_turns::<IC>(rest, r) + if d.contains_spec::<IC>(e) {
            0
        } else {
            call_turns::<IC>(rest, r.push(e)) + 1
        }
    }
}

/// The number of loop turns that a piece of work takes, with what it schedules.
pub open spec fn turns<IC: InCircle>(t: State, g: Registers) -> nat {
    let (p, r, c) = g;
    match t {
        State::S0 => call_turns::<IC>(p, r),
        State::S1 => (call_turns::<IC>(p, r) - 1) as nat,
        State::S2(e) => 2 + if c.contains_spec::<IC>(e) {
            0
        } else {
            call_turns::<IC>(p, r.push(e)) + 1
        },
        State::S3(_) => 1,
        State::S4 => 1,
    }
}

/// The number of loop turns left until the work stack is empty.
pub open spec fn stack_turns<IC: InCircle>(stack: Seq<State>, g: Registers) -> nat
    decreases stack.len(),
{
    if stack.len() == 0 {
        0
    } else if ready(stack.last(), g) {
        turns::<IC>(stack.last(), g) + stack_turns::<IC>(
            stack.drop_last(),
            effect::<IC>(stack.last(), g),
        )
    } else {
        0
    }
}

/// One turn of the engine's loop: pop the top piece of work and carry it out.
pub open spec fn step<IC: InCircle>(stack: Seq<State>, g: Registers) -> (Seq<State>, Registers) {
    let (p, r, c) = g;
    let s = stack.drop_last();
    match stack.last() {
        State::S0 => if p.len() == 0 || r.len() == 3 {
            (s, (p, r, support_disk::<DefaultOrientation>(r)))
        } else {
            (s.push(State::S1), g)
        },
        State::S1 => (s.push(State::S2(p.last())).push(State::S0), (p.drop_last(), r, c)),
        State::S2(e) => if c.contains_spec::<IC>(e) {
            (s.push(State::S3(e)), g)
        } else {
            (s.push(State::S3(e)).push(State::S4).push(State::S0), (p, r.push(e), c))
        },
        State::S3(e) => (s, (p.push(e), r, c)),
        State::S4 => (s, (p, r.drop_last(), c)),
    }
}

proof fn lemma_call_turns_positive<IC: InCircle>(p: Seq<Point>, r: Seq<Point>)
    ensures
        call_turns::<IC>(p, r) >= 1,
    decreases p.len(),
{
    if !(p.len() == 0 || r.len() == 3) {
        lemma_call_turns_positive::<IC>(p.drop_last(), r);
    }
}

/// One turn keeps the final registers of the run and uses up one turn.
proof fn lemma_step<IC: InCircle>(stack: Seq<State>, g: Registers)
    requires
        stack.len() > 0,
        run::<IC>(stack, g) is Some,
    ensures
        ready(stack.last(), g),
        run::<IC>(step::<IC>(stack, g).0, step::<IC>(stack, g).1) == run::<IC>(stack, g),
        stack_turns::<IC>(step::<IC>(stack, g).0, step::<IC>(stack, g).1) + 1 == stack_turns::<IC>(
            stack,
            g,
        ),
{
    let (p, r, c) = g;
    let s = stack.drop_last();
    let t = stack.last();
    lemma_call_turns_positive::<IC>(p, r);
    match t {
        State::S0 => {
            if !(p.len() == 0 || r.len() == 3) {
                let n = s.push(State::S1);
                assert(n.drop_last() =~= s);
                assert(run::<IC>(n, g) == run::<IC>(s, effect::<IC>(State::S1, g)));
            }
        },
        State::S1 => {
            // S0 then S2(e) on the shortened points give the result of S1.
            let e = p.last();
            let rest = p.drop_last();
            let n1 = s.push(State::S2(e));
            let n = n1.push(State::S0);
            assert(n.drop_last() =~= n1);
            assert(n1.drop_last() =~= s);
            assert(rest.push(e) =~= p);
            assert(in_range(p[p.len() - 1]));
            let g0 = (rest, r, c);
            let g1 = effect::<IC>(State::S0, g0);
            assert(ready(State::S2(e), g1));
            assert(effect::<IC>(State::S2(e), g1) == effect::<IC>(State::S1, g));
            assert(run::<IC>(n, g0) == run::<IC>(n1, g1));
            assert(run::<IC>(n1, g1) == run::<IC>(s, effect::<IC>(State::S1, g)));
            assert(stack_turns::<IC>(n, g0) == turns::<IC>(State::S0, g0) + stack_turns::<IC>(
                n1,
                g1,
            ));
            assert(stack_turns::<IC>(n1, g1) == turns::<IC>(State::S2(e), g1) + stack_turns::<IC>(
                s,
                effect::<IC>(State::S1, g),
            ));
        },
        State::S2(e) => {
            let n1 = s.push(State::S3(e));
            assert(n1.drop_last() =~= s);
            if !c.contains_spec::<IC>(e) {
                // S0, S4 and S3(e) on the enlarged support give the result of S2(e).
                let n2 = n1.push(State::S4);
                let n = n2.push(State::S0);
                assert(n.drop_last() =~= n2);
                assert(n2.drop_last() =~= n1);
                assert(r.push(e).drop_last() =~= r);
                assert(all_in_range(r.push(e))) by {
                    assert forall|i: int| 0 <= i < r.push(e).len() implies #[trigger] in_range(
                        r.push(e)[i],
                    ) by {
                        if i < r.len() {
                            assert(in_range(r[i]));
                        }
                    }
                }
                let g0 = (p, r.push(e), c);
                let g1 = effect::<IC>(State::S0, g0);
                let g2 = effect::<IC>(State::S4, g1);
                assert(run::<IC>(n, g0) == run::<IC>(n2, g1));
                assert(run::<IC>(n2, g1) == run::<IC>(n1, g2));
                assert(run::<IC>(n1, g2) == run::<IC>(s, effect::<IC>(State::S2(e), g)));
                assert(stack_turns::<IC>(n, g0) == turns::<IC>(State::S0, g0) + stack_turns::<IC>(
                    n2,
                    g1,
                ));
                assert(stack_turns::<IC>(n2, g1) == 1 + stack_turns::<IC>(n1, g2));
                assert(stack_turns::<IC>(n1, g2) == 1 + stack_turns::<IC>(
                    s,
                    effect::<IC>(State::S2(e), g),
                ));
            }
        },
        State::S3(_) => {},
        State::S4 => {},
    }
}

/// The configuration in which the engine starts on `points`: the work stack
/// `[S0]`, all points remaining, no support, no disk.
pub open spec fn start(points: Seq<Point>) -> (Seq<State>, Registers) {
    (seq![State::S0], (points, seq![], Circle2D::Empty))
}

/// The configuration after `n` turns of the engine's loop from `conf`; the
/// loop stops once the work stack is empty.
pub open spec fn iterate<IC: InCircle>(conf: (Seq<State>, Registers), n: nat) -> (
    Seq<State>,
    Registers,
)
    decreases n,
{
    if n == 0 {
        conf
    } else {
        let c = iterate::<IC>(conf, (n - 1) as nat);
        if c.0.len() == 0 {
            c
        } else {
            step::<IC>(c.0, c.1)
        }
    }
}

/// The disk that the iterative engine holds when its work stack runs empty.
pub open spec fn machine_result<IC: InCircle>(points: Seq<Point>) -> Circle2D {
    let s = start(points);
    iterate::<IC>(s, stack_turns::<IC>(s.0, s.1)).1.2
}

proof fn lemma_start<IC: InCircle>(points: Seq<Point>)
    requires
        all_in_range(points),
    ensures
        run::<IC>(start(points).0, start(points).1) == Some(
            (points, Seq::<Point>::empty(), welzl::<IC>(points, seq![])),
        ),
{
    let s = start(points);
    let e = Seq::<State>::empty();
    assert(s.0.drop_last() =~= e);
    assert(s.0.last() == State::S0);
    assert(all_in_range(Seq::<Point>::empty()));
    assert(ready(State::S0, s.1));
    let g = effect::<IC>(State::S0, s.1);
    assert(run::<IC>(s.0, s.1) == run::<IC>(e, g));
    assert(Seq::<Point>::empty() =~= seq![]);
}

/// After `k` turns from a configuration whose run ends in `target`, the run
/// still ends in `target` and `k` turns fewer are left.
proof fn lemma_iterate<IC: InCircle>(conf: (Seq<State>, Registers), k: nat, target: Registers)
    requires
        run::<IC>(conf.0, conf.1) == Some(target),
        k <= stack_turns::<IC>(conf.0, conf.1),
    ensures
        run::<IC>(iterate::<IC>(conf, k).0, iterate::<IC>(conf, k).1) == Some(target),
        stack_turns::<IC>(iterate::<IC>(conf, k).0, iterate::<IC>(conf, k).1) + k
            == stack_turns::<IC>(conf.0, conf.1),
    decreases k,
{
    if k > 0 {
        lemma_iterate::<IC>(conf, (k - 1) as nat, target);
        let c = iterate::<IC>(conf, (k - 1) as nat);
        assert(c.0.len() > 0);
        lemma_step::<IC>(c.0, c.1);
    }
}

/// A configuration whose run ends in `target` and has no turn left has an
/// empty work stack and holds `target`.
proof fn lemma_finished<IC: InCircle>(conf: (Seq<State>, Registers), target: Registers)
    requires
        run::<IC>(conf.0, conf.1) == Some(target),
        stack_turns::<IC>(conf.0, conf.1) == 0,
    ensures
        conf.0.len() == 0,
        conf.1 == target,
{
    if conf.0.len() > 0 {
        lemma_step::<IC>(conf.0, conf.1);
    }
}

/// The iterative engine and the recursive algorithm agree: run to the end on
/// any input, the engine's state machine holds the disk that `welzl` gives
/// for all points and an empty support.
pub proof fn lemma_machine_matches_recursion<IC: InCircle>(points: Seq<Point>)
    requires
        all_in_range(points),
    ensures
        machine_result::<IC>(points) == welzl::<IC>(points, seq![]),
{
    let s = start(points);
    let target = (points, Seq::<Point>::empty(), welzl::<IC>(points, seq![]));
    lemma_start::<IC>(points);
    let n = stack_turns::<IC>(s.0, s.1);
    lemma_iterate::<IC>(s, n, target);
    lemma_finished::<IC>(iterate::<IC>(s, n), target);
}

/// The smallest enclosing circle of `points`, with the library's in-circle
/// predicate.
pub fn smallest_enclosing_circle(points: Vec<Point>) -> (r: Circle2D)
    requires
        all_in_range(points@),
    ensures
        r == welzl::<DefaultInCircle>(points@, seq![]),
        r == machine_result::<DefaultInCircle>(points@),
        r.well_formed(),
        r.orientation_recorded(),
        r.in_range(),
{
    smallest_enclosing_circle_with_predicate::<DefaultInCircle>(points)
}

/// The smallest enclosing circle of `points`, with the in-circle predicate
/// `IC`, computed without recursion: a work stack of `State`s replaces the
/// call stack of `welzl`, the remaining points `P` and the support `R` are
/// stacks, and each piece of work restores them as the recursive call would.
pub fn smallest_enclosing_circle_with_predicate<IC: InCircle>(points: Vec<Point>) -> (r: Circle2D)
    requires
        all_in_range(points@),
    ensures
        r == welzl::<IC>(points@, seq![]),
        r == machine_result::<IC>(points@),
        r.well_formed(),
        r.orientation_recorded(),
        r.in_range(),
{
    let ghost init = start(points@);
    let ghost target = (points@, Seq::<Point>::empty(), welzl::<IC>(points@, seq![]));
    let ghost total = stack_turns::<IC>(init.0, init.1);
    proof {
        lemma_start::<IC>(points@);
    }
    let mut p = points;
    let mut r: Vec<Point> = Vec::new();
    let mut circle = Circle2D::Empty;
    let mut stack: Vec<State> = Vec::new();
    stack.push(State::S0);
    let ghost mut k: nat = 0;
    assert(stack@ =~= init.0);
    assert(r@ =~= Seq::<Point>::empty());
    while stack.len() > 0
        invariant
            (stack@, (p@, r@, circle)) == iterate::<IC>(init, k),
            run::<IC>(stack@, (p@, r@, circle)) == Some(target),
            stack_turns::<IC>(stack@, (p@, r@, circle)) + k == total,
            circle.in_range(),
            circle.well_formed(),
            all_in_range(p@),
            all_in_range(r@),
        decreases stack_turns::<IC>(stack@, (p@, r@, circle)),
    {
        let ghost s0 = stack@;
        let ghost g0 = (p@, r@, circle);
        proof {
            lemma_step::<IC>(s0, g0);
        }
        let state = stack.pop().unwrap();
        match state {
            State::S0 => {
                if p.len() == 0 || r.len() == 3 {
                    circle = Circle2D::new(r.as_slice());
                } else {
                    stack.push(State::S1);
                }
            },
            State::S1 => {
                let element = p.pop().unwrap();
                stack.push(State::S2(element));
                stack.push(State::S0);
            },
            State::S2(element) => {
                stack.push(State::S3(element));
                if !circle.contains_with_predicate::<IC>(&element) {
                    r.push(element);
                    stack.push(State::S4);
                    stack.push(State::S0);
                }
            },
            State::S3(element) => {
                p.push(element);
            },
            State::S4 => {
                r.pop();
            },
        }
        proof {
            let next = step::<IC>(s0, g0);
            assert(stack@ =~= next.0);
            assert(p@ =~= next.1.0);
            assert(r@ =~= next.1.1);
            k = k + 1;
        }
    }
    proof {
        lemma_finished::<IC>((stack@, (p@, r@, circle)), target);
        lemma_welzl_well_formed::<IC>(points@, seq![]);
    }
    circle
}

/// `welzl` on the first `n` points of `p` and the support `r`, by recursion;
/// `r` is given back as it came.
fn welzl_recursive<IC: InCircle>(p: &Vec<Point>, n: usize, r: &mut Vec<Point>) -> (c: Circle2D)
    requires
        n <= p@.len(),
        all_in_range(p@),
        all_in_range(old(r)@),
        old(r)@.len() <= 3,
    ensures
        c == welzl::<IC>(p@.subrange(0, n as int), old(r)@),
        final(r)@ == old(r)@,
        c.in_range(),
        c.well_formed(),
    decreases n,
{
    let ghost r0 = r@;
    let ghost ps = p@.subrange(0, n as int);
    if n == 0 || r.len() == 3 {
        Circle2D::new(r.as_slice())
    } else {
        let element = p[n - 1];
        assert(ps.drop_last() =~= p@.subrange(0, n - 1));
        assert(in_range(p@[n - 1]));
        let circle = welzl_recursive::<IC>(p, n - 1, r);
        if circle.contains_with_predicate::<IC>(&element) {
            circle
        } else {
            r.push(element);
            assert(all_in_range(r@)) by {
                assert forall|i: int| 0 <= i < r@.len() implies #[trigger] in_range(r@[i]) by {
                    if i < r0.len() {
                        assert(in_range(r0[i]));
                    }
                }
            }
            let second = welzl_recursive::<IC>(p, n - 1, r);
            r.pop();
            assert(r@ =~= r0);
            second
        }
    }
}

/// The smallest enclosing circle of `points` with the library's in-circle
/// predicate, computed by recursion (its depth grows with the number of
/// points; prefer `smallest_enclosing_circle`).
pub fn smallest_enclosing_circle_recursive(points: Vec<Point>) -> (r: Circle2D)
    requires
        all_in_range(points@),
    ensures
        r == welzl::<DefaultInCircle>(points@, seq![]),
        r.well_formed(),
        r.orientation_recorded(),
        r.in_range(),
{
    smallest_enclosing_circle_recursive_with_predicate::<DefaultInCircle>(points)
}

/// The smallest enclosing circle of `points` with the in-circle predicate
/// `IC`, computed by recursion as `welzl` states it.
pub fn smallest_enclosing_circle_recursive_with_predicate<IC: InCircle>(points: Vec<Point>) -> (r: Circle2D)
    requires
        all_in_range(points@),
    ensures
        r == welzl::<IC>(points@, seq![]),
        r.well_formed(),
        r.orientation_recorded(),
        r.in_range(),
{
    proof {
        lemma_welzl_well_formed::<IC>(points@, seq![]);
    }
    let mut support: Vec<Point> = Vec::new();
    assert(all_in_range(support@));
    assert(points@.subrange(0, points@.len() as int) =~= points@);
    assert(support@ =~= seq![]);
    welzl_recursive::<IC>(&points, points.len(), &mut support)
}

/// The point `x` is among the points `p` or the support `r`.
pub open spec fn appears(x: Point, p: Seq<Point>, r: Seq<Point>) -> bool {
    p.contains(x) || r.contains(x)
}

/// Every disk that `welzl` gives has pairwise distinct support points, and
/// a `Three` records how its support turns.
pub proof fn lemma_welzl_well_formed<IC: InCircle>(p: Seq<Point>, r: Seq<Point>)
    ensures
        welzl::<IC>(p, r).well_formed(),
        welzl::<IC>(p, r).orientation_recorded(),
    decreases p.len(),
{
    if !(p.len() == 0 || r.len() == 3) {
        lemma_welzl_well_formed::<IC>(p.drop_last(), r);
        lemma_welzl_well_formed::<IC>(p.drop_last(), r.push(p.last()));
    }
}

/// The support of the disk built from `r` is taken from `r`.
proof fn lemma_support_disk_within(r: Seq<Point>)
    ensures
        forall|j: int|
            0 <= j < support_disk::<DefaultOrientation>(r).support().len() ==> r.contains(
                #[trigger] support_disk::<DefaultOrientation>(r).support()[j],
            ),
{
    let d = support_disk::<DefaultOrientation>(r);
    assert forall|j: int| 0 <= j < d.support().len() implies r.contains(#[trigger] d.support()[j]) by {
        if r.len() >= 3 && r[0] == r[1] && r[1] != r[2] && j == 1 {
            assert(r[2] == d.support()[j]);
        } else if r.len() >= 3 && r[0] != r[1] && r[1] != r[2] && r[2] == r[0] && j == 0 {
            assert(r[1] == d.support()[j]);
        } else if r.len() >= 3 && r[0] != r[1] && r[1] != r[2] && r[2] == r[0] && j == 1 {
            assert(r[2] == d.support()[j]);
        } else {
            assert(r[j] == d.support()[j]);
        }
    }
}

/// Every support point of `welzl(p, r)` is among the points `p` or `r`.
pub proof fn lemma_welzl_support_within<IC: InCircle>(p: Seq<Point>, r: Seq<Point>)
    ensures
        forall|j: int|
            0 <= j < welzl::<IC>(p, r).support().len() ==> appears(
                #[trigger] welzl::<IC>(p, r).support()[j],
                p,
                r,
            ),
    decreases p.len(),
{
    let d = welzl::<IC>(p, r);
    if p.len() == 0 || r.len() == 3 {
        lemma_support_disk_within(r);
        assert forall|j: int| 0 <= j < d.support().len() implies appears(
            #[trigger] d.support()[j],
            p,
            r,
        ) by {
            assert(r.contains(support_disk::<DefaultOrientation>(r).support()[j]));
        }
    } else {
        let e = p.last();
        let rest = p.drop_last();
        lemma_welzl_support_within::<IC>(rest, r);
        lemma_welzl_support_within::<IC>(rest, r.push(e));
        assert forall|j: int| 0 <= j < d.support().len() implies appears(
            #[trigger] d.support()[j],
            p,
            r,
        ) by {
            let x = d.support()[j];
            let d1 = welzl::<IC>(rest, r);
            let d2 = welzl::<IC>(rest, r.push(e));
            if d1.contains_spec::<IC>(e) {
                assert(appears(d1.support()[j], rest, r));
            } else {
                assert(appears(d2.support()[j], rest, r.push(e)));
            }
            if rest.contains(x) {
                let k = choose|k: int| 0 <= k < rest.len() && rest[k] == x;
                assert(p[k] == x);
            } else if r.push(e).contains(x) && !r.contains(x) {
                let k = choose|k: int| 0 <= k < r.push(e).len() && r.push(e)[k] == x;
                if k < r.len() {
                    assert(r[k] == x);
                }
                assert(p[p.len() - 1] == x);
            }
        }
    }
}

/// With exact predicates the disk that `welzl(p, r)` gives contains each
/// point of the support `r` it was asked to keep on its boundary.
pub proof fn lemma_welzl_contains_support(p: Seq<Point>, r: Seq<Point>)
    requires
        r.len() <= 3,
    ensures
        forall|i: int|
            0 <= i < r.len() ==> #[trigger] welzl::<DefaultInCircle>(p, r).contains_spec::<
                DefaultInCircle,
            >(r[i]),
    decreases p.len(),
{
    if p.len() == 0 || r.len() == 3 {
        lemma_support_disk_contains(r);
    } else {
        let e = p.last();
        let rest = p.drop_last();
        lemma_welzl_contains_support(rest, r);
        lemma_welzl_contains_support(rest, r.push(e));
        let d1 = welzl::<DefaultInCircle>(rest, r);
        if !d1.contains_spec::<DefaultInCircle>(e) {
            let d2 = welzl::<DefaultInCircle>(rest, r.push(e));
            assert forall|i: int| 0 <= i < r.len() implies #[trigger] d2.contains_spec::<
                DefaultInCircle,
            >(r[i]) by {
                assert(r.push(e)[i] == r[i]);
            }
        }
    }
}

/// With exact predicates, where the points `p` and the support `r` hold two
/// distinct points and `r` has no repeated point, `welzl(p, r)` is a proper
/// circle (`Two` or `Three`).
proof fn lemma_welzl_proper(p: Seq<Point>, r: Seq<Point>, x: Point, y: Point)
    requires
        r.len() <= 3,
        r.no_duplicates(),
        appears(x, p, r),
        appears(y, p, r),
        x != y,
    ensures
        welzl::<DefaultInCircle>(p, r) is Two || welzl::<DefaultInCircle>(p, r) is Three,
    decreases p.len(),
{
    if p.len() == 0 || r.len() == 3 {
        if p.len() == 0 {
            let i = choose|i: int| 0 <= i < r.len() && r[i] == x;
            let j = choose|j: int| 0 <= j < r.len() && r[j] == y;
            assert(r.len() >= 2);
        }
    } else {
        let e = p.last();
        let rest = p.drop_last();
        let d1 = welzl::<DefaultInCircle>(rest, r);
        assert(rest.push(e) =~= p);
        assert forall|z: Point| appears(z, p, r) && z != e implies appears(z, rest, r) by {
            if p.contains(z) {
                let k = choose|k: int| 0 <= k < p.len() && p[k] == z;
                assert(k < rest.len());
                assert(rest[k] == z);
            }
        }
        assert forall|z: Point| appears(z, rest, r) implies appears(z, rest, r.push(e)) by {
            if r.contains(z) {
                let k = choose|k: int| 0 <= k < r.len() && r[k] == z;
                assert(r.push(e)[k] == z);
            }
        }
        assert(r.push(e).contains(e)) by {
            assert(r.push(e)[r.len() as int] == e);
        }
        lemma_welzl_contains_support(rest, r);
        // Where `d1` misses `e`, `e` is no support point, so `r.push(e)` has no repeat.
        if !d1.contains_spec::<DefaultInCircle>(e) {
            assert(!r.contains(e)) by {
                if r.contains(e) {
                    let k = choose|k: int| 0 <= k < r.len() && r[k] == e;
                    assert(d1.contains_spec::<DefaultInCircle>(r[k]));
                }
            }
            assert(r.push(e).no_duplicates()) by {
                assert forall|i: int, j: int|
                    0 <= i < r.push(e).len() && 0 <= j < r.push(e).len() && i != j implies r.push(
                    e,
                )[i] != r.push(e)[j] by {
                    if i < r.len() && j < r.len() {
                        assert(r[i] != r[j]);
                    } else if i < r.len() {
                        assert(r.contains(r[i]));
                    } else if j < r.len() {
                        assert(r.contains(r[j]));
                    }
                }
            }
        }
        // A second point distinct from `y` (or from `x`) among `rest` and `r`.
        let (u, v) = if x != e && y != e {
            (x, y)
        } else if x == e {
            (y, x)
        } else {
            (x, y)
        };
        // Now `u != e` appears in `rest, r`, and `v` appears in `p, r`.
        assert(appears(u, rest, r));
        if exists|z: Point| appears(z, rest, r) && z != u {
            let z = choose|z: Point| appears(z, rest, r) && z != u;
            lemma_welzl_proper(rest, r, u, z);
            if !d1.contains_spec::<DefaultInCircle>(e) {
                lemma_welzl_proper(rest, r.push(e), u, z);
            }
        } else {
            // Every point of `rest` and `r` is `u`, so `d1` holds at most `u`.
            assert(v == e);
            lemma_welzl_support_within::<DefaultInCircle>(rest, r);
            lemma_welzl_well_formed::<DefaultInCircle>(rest, r);
            assert(!d1.contains_spec::<DefaultInCircle>(e)) by {
                match d1 {
                    Circle2D::One { p: q } => {
                        assert(appears(d1.support()[0], rest, r));
                    },
                    Circle2D::Two { a, b } => {
                        assert(appears(d1.support()[0], rest, r));
                        assert(appears(d1.support()[1], rest, r));
                    },
                    Circle2D::Three { a, b, c, .. } => {
                        assert(appears(d1.support()[0], rest, r));
                        assert(appears(d1.support()[1], rest, r));
                    },
                    _ => {},
                }
            }
            lemma_welzl_proper(rest, r.push(e), u, e);
        }
    }
}

/// The kind of disk the engine returns follows the number of distinct input
/// points: none for no point, `One` for one point (or two equal ones), `Two`
/// for two distinct points, and `Two` or `Three` wherever two input points
/// differ.
pub proof fn lemma_support_cardinality(s: Seq<Point>)
    ensures
        s.len() == 0 ==> welzl::<DefaultInCircle>(s, seq![]) == Circle2D::Empty,
        s.len() == 1 ==> welzl::<DefaultInCircle>(s, seq![]) == (Circle2D::One { p: s[0] }),
        s.len() == 2 ==> welzl::<DefaultInCircle>(s, seq![]) == (if s[0] == s[1] {
            Circle2D::One { p: s[0] }
        } else {
            Circle2D::Two { a: s[1], b: s[0] }
        }),
        forall|i: int, j: int|
            0 <= i < s.len() && 0 <= j < s.len() && #[trigger] s[i] != #[trigger] s[j] ==> (
            welzl::<DefaultInCircle>(s, seq![]) is Two || welzl::<DefaultInCircle>(s, seq![]) is Three),
{
    let empty = Seq::<Point>::empty();
    assert(empty =~= seq![]);
    if s.len() == 1 {
        assert(s.drop_last().len() == 0);
        assert(welzl::<DefaultInCircle>(s.drop_last(), empty) == Circle2D::Empty);
        assert(empty.push(s[0]) =~= seq![s[0]]);
        assert(welzl::<DefaultInCircle>(s.drop_last(), empty.push(s[0])) == Circle2D::One {
            p: s[0],
        });
        assert(welzl::<DefaultInCircle>(s, empty) == Circle2D::One { p: s[0] });
    }
    if s.len() == 2 {
        let s0 = s.drop_last();
        assert(s0 =~= seq![s[0]]);
        assert(s0.drop_last().len() == 0);
        assert(welzl::<DefaultInCircle>(s0.drop_last(), empty) == Circle2D::Empty);
        assert(empty.push(s[0]) =~= seq![s[0]]);
        assert(welzl::<DefaultInCircle>(s0.drop_last(), empty.push(s[0])) == Circle2D::One {
            p: s[0],
        });
        assert(welzl::<DefaultInCircle>(s0, empty) == Circle2D::One { p: s[0] });
        if s[0] != s[1] {
            let r1 = empty.push(s[1]);
            assert(r1 =~= seq![s[1]]);
            assert(welzl::<DefaultInCircle>(s0.drop_last(), r1) == Circle2D::One { p: s[1] });
            assert(r1.push(s[0]) =~= seq![s[1], s[0]]);
            assert(!(Circle2D::One { p: s[1] }).contains_spec::<DefaultInCircle>(s[0]));
            assert(welzl::<DefaultInCircle>(s0.drop_last(), r1.push(s[0])) == Circle2D::Two {
                a: s[1],
                b: s[0],
            });
            assert(welzl::<DefaultInCircle>(s0, r1) == Circle2D::Two { a: s[1], b: s[0] });
        }
    }
    assert forall|i: int, j: int|
        0 <= i < s.len() && 0 <= j < s.len() && #[trigger] s[i] != #[trigger] s[j] implies (
        welzl::<DefaultInCircle>(s, seq![]) is Two || welzl::<DefaultInCircle>(s, seq![]) is Three) by {
        assert(s.contains(s[i]) && s.contains(s[j]));
        lemma_welzl_proper(s, empty, s[i], s[j]);
    }
}

} // verus!
