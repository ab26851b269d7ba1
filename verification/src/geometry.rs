//! Where each screen's image sits in a composed multi-screen frame: screens
//! are placed by their desktop coordinates, with every stretch of each axis
//! scaled by the largest pixel density of the screens that cover it.
//!
//! Densities are ratios of saved pixels to desktop points. They are compared
//! and applied exactly, in integers; a stretch's length in pixels is its
//! length in points times the density, rounded to the nearest integer with
//! halves rounded up.

use vstd::prelude::*;
use crate::capture::{CapturedScreen, ScreenPlacement};
use std::collections::BTreeMap;

verus! {

broadcast use {vstd::std_specs::btree::group_btree_axioms, vstd::laws_cmp::group_laws_cmp};

/// The place and size of one saved screen image in the composed frame.
#[derive(Clone, Copy, Debug, PartialEq, Eq, Structural)]
pub struct SavedGeometry {
    pub x: i32,
    pub y: i32,
    pub width: u32,
    pub height: u32,
}

/// One target screen as the layout sees it: its number, its desktop
/// rectangle in points, and the size of its saved image in pixels.
#[derive(Clone, Copy, Debug, PartialEq, Eq, Structural)]
pub struct GeometryInput {
    pub screen_index: u32,
    pub x: i32,
    pub y: i32,
    pub width: u32,
    pub height: u32,
    pub saved_width: u32,
    pub saved_height: u32,
}

/// A direction of the desktop.
#[derive(Clone, Copy, Debug, PartialEq, Eq, Structural)]
pub enum Axis {
    X,
    Y,
}

/// Where the screen starts along the axis, in points.
pub open spec fn start_of(input: GeometryInput, axis: Axis) -> i32 {
    match axis {
        Axis::X => input.x,
        Axis::Y => input.y,
    }
}

/// The screen's extent along the axis, in points.
pub open spec fn logical_of(input: GeometryInput, axis: Axis) -> u32 {
    match axis {
        Axis::X => input.width,
        Axis::Y => input.height,
    }
}

/// The saved image's extent along the axis, in pixels.
pub open spec fn saved_of(input: GeometryInput, axis: Axis) -> u32 {
    match axis {
        Axis::X => input.saved_width,
        Axis::Y => input.saved_height,
    }
}

/// Where the screen ends along the axis, in points.
pub open spec fn end_of(input: GeometryInput, axis: Axis) -> i32 {
    (start_of(input, axis) + logical_of(input, axis)) as i32
}

/// Whether both ends of the screen fit in an `i32` on both axes.
pub open spec fn input_fits(input: GeometryInput) -> bool {
    &&& input.width <= i32::MAX
    &&& input.height <= i32::MAX
    &&& input.x + input.width <= i32::MAX
    &&& input.y + input.height <= i32::MAX
}

/// Whether every screen's ends fit in an `i32`.
pub open spec fn inputs_fit(inputs: Seq<GeometryInput>) -> bool {
    forall|k: int| 0 <= k < inputs.len() ==> #[trigger] input_fits(inputs[k])
}

/// The start of a screen along an axis.
pub fn axis_start(input: GeometryInput, axis: Axis) -> (r: i32)
    ensures
        r == start_of(input, axis),
{
    match axis {
        Axis::X => input.x,
        Axis::Y => input.y,
    }
}

/// The extent of a screen along an axis, in points.
pub fn axis_logical_size(input: GeometryInput, axis: Axis) -> (r: u32)
    ensures
        r == logical_of(input, axis),
{
    match axis {
        Axis::X => input.width,
        Axis::Y => input.height,
    }
}

/// The extent of a screen's saved image along an axis, in pixels.
pub fn axis_saved_size(input: GeometryInput, axis: Axis) -> (r: u32)
    ensures
        r == saved_of(input, axis),
{
    match axis {
        Axis::X => input.saved_width,
        Axis::Y => input.saved_height,
    }
}

/// Every screen's start and end along the axis, screen by screen.
pub open spec fn edge_values(inputs: Seq<GeometryInput>, axis: Axis) -> Seq<i32>
    decreases inputs.len(),
{
    if inputs.len() == 0 {
        Seq::empty()
    } else {
        edge_values(inputs.drop_last(), axis) + seq![
            start_of(inputs.last(), axis),
            end_of(inputs.last(), axis),
        ]
    }
}

/// Whether each element of `s` is smaller than the next.
pub open spec fn strictly_increasing(s: Seq<i32>) -> bool {
    forall|i: int, j: int| 0 <= i < j < s.len() ==> s[i] < s[j]
}

/// Whether `s` and `t` hold the same values.
pub open spec fn same_values(s: Seq<i32>, t: Seq<i32>) -> bool {
    forall|v: i32| s.contains(v) <==> t.contains(v)
}

/// The edges of the axis: every screen start and end, increasing, each once.
pub open spec fn axis_edges(inputs: Seq<GeometryInput>, axis: Axis) -> Seq<i32> {
    choose|s: Seq<i32>| strictly_increasing(s) && same_values(s, edge_values(inputs, axis))
}

/// Two increasing sequences with the same values are the same sequence.
pub proof fn lemma_increasing_unique(s: Seq<i32>, t: Seq<i32>)
    requires
        strictly_increasing(s),
        strictly_increasing(t),
        same_values(s, t),
    ensures
        s == t,
    decreases s.len(),
{
    if s.len() == 0 {
        if t.len() > 0 {
            assert(t.contains(t[0]));
        }
        assert(s =~= t);
    } else {
        assert(s.contains(s[0]));
        let j = choose|j: int| 0 <= j < t.len() && t[j] == s[0];
        assert(t.contains(t[0]));
        let i = choose|i: int| 0 <= i < s.len() && s[i] == t[0];
        assert(t[0] <= t[j]);
        assert(s[0] <= s[i]);
        assert(s[0] == t[0]);
        let s1 = s.drop_first();
        let t1 = t.drop_first();
        assert forall|v: i32| s1.contains(v) implies t1.contains(v) by {
            let a = choose|a: int| 0 <= a < s1.len() && s1[a] == v;
            assert(s[a + 1] == v);
            assert(s.contains(v));
            let b = choose|b: int| 0 <= b < t.len() && t[b] == v;
            assert(s[0] < s[a + 1]);
            assert(b != 0);
            assert(t1[b - 1] == v);
        }
        assert forall|v: i32| t1.contains(v) implies s1.contains(v) by {
            let a = choose|a: int| 0 <= a < t1.len() && t1[a] == v;
            assert(t[a + 1] == v);
            assert(t.contains(v));
            let b = choose|b: int| 0 <= b < s.len() && s[b] == v;
            assert(t[0] < t[a + 1]);
            assert(b != 0);
            assert(s1[b - 1] == v);
        }
        assert(strictly_increasing(s1));
        assert(strictly_increasing(t1));
        lemma_increasing_unique(s1, t1);
        assert(s =~= seq![s[0]] + s1);
        assert(t =~= seq![t[0]] + t1);
    }
}

/// What a sequence holds after a push.
proof fn lemma_push_contains(s: Seq<i32>, v: i32, w: i32)
    ensures
        s.push(v).contains(w) <==> (s.contains(w) || w == v),
{
    if s.push(v).contains(w) {
        let k = choose|k: int| 0 <= k < s.push(v).len() && s.push(v)[k] == w;
        if k < s.len() {
            assert(s[k] == w);
        }
    }
    if s.contains(w) {
        let k = choose|k: int| 0 <= k < s.len() && s[k] == w;
        assert(s.push(v)[k] == w);
    }
    if w == v {
        assert(s.push(v)[s.len() as int] == w);
    }
}

/// Puts `v` into an increasing vector unless it is already there.
#[verifier::spinoff_prover]
fn insert_sorted(e: &mut Vec<i32>, v: i32)
    requires
        strictly_increasing(old(e)@),
    ensures
        strictly_increasing(final(e)@),
        same_values(final(e)@, old(e)@.push(v)),
{
    let mut p: usize = 0;
    while p < e.len() && e[p] < v
        invariant
            p <= e@.len(),
            e@ == old(e)@,
            forall|k: int| 0 <= k < p ==> e@[k] < v,
        decreases e@.len() - p,
    {
        p = p + 1;
    }
    if p < e.len() && e[p] == v {
        assert(e@[p as int] == v);
        assert(e@.contains(v));
        assert forall|w: i32| e@.contains(w) <==> old(e)@.push(v).contains(w) by {
            if old(e)@.push(v).contains(w) {
                let k = choose|k: int| 0 <= k < old(e)@.push(v).len() && old(e)@.push(v)[k] == w;
                if k < old(e)@.len() {
                    assert(e@[k] == w);
                }
            }
            if e@.contains(w) {
                let k = choose|k: int| 0 <= k < e@.len() && e@[k] == w;
                assert(old(e)@.push(v)[k] == w);
            }
        }
        return;
    }
    let ghost before = e@;
    assert(before == old(e)@);
    e.insert(p, v);
    proof {
        assert(e@ == before.insert(p as int, v));
        assert forall|i: int, j: int| 0 <= i < j < e@.len() implies e@[i] < e@[j] by {
            if j < p {
            } else if j == p {
            } else if i < p {
                assert(before[j - 1] >= before[p as int]);
            } else if i == p {
                assert(before[j - 1] >= before[p as int]);
            } else {
            }
        }
        assert forall|w: i32| e@.contains(w) <==> before.push(v).contains(w) by {
            if e@.contains(w) {
                let k = choose|k: int| 0 <= k < e@.len() && e@[k] == w;
                if k < p {
                    assert(before.push(v)[k] == w);
                } else if k > p {
                    assert(before.push(v)[k - 1] == w);
                } else {
                    assert(before.push(v)[before.len() as int] == w);
                }
            }
            if before.push(v).contains(w) {
                let k = choose|k: int| 0 <= k < before.push(v).len() && before.push(v)[k] == w;
                if k == before.len() {
                    assert(e@[p as int] == w);
                } else if k < p {
                    assert(e@[k] == w);
                } else {
                    assert(e@[k + 1] == w);
                }
            }
        }
    }
}

/// Whether every screen in the list fits; see `input_fits`.
pub fn geometry_inputs_fit(inputs: &Vec<GeometryInput>) -> (r: bool)
    ensures
        r == inputs_fit(inputs@),
{
    let mut i: usize = 0;
    while i < inputs.len()
        invariant
            i <= inputs@.len(),
            forall|k: int| 0 <= k < i ==> #[trigger] input_fits(inputs@[k]),
        decreases inputs@.len() - i,
    {
        let input = inputs[i];
        let max: i64 = 0x7fff_ffff;
        if input.width as i64 > max || input.height as i64 > max || input.x as i64
            + input.width as i64 > max || input.y as i64 + input.height as i64 > max {
            assert(!input_fits(inputs@[i as int]));
            return false;
        }
        i = i + 1;
    }
    true
}

/// The edges of the axis, increasing, each once.
fn sorted_edges(inputs: &Vec<GeometryInput>, axis: Axis) -> (e: Vec<i32>)
    requires
        inputs_fit(inputs@),
    ensures
        e@ == axis_edges(inputs@, axis),
        strictly_increasing(e@),
        same_values(e@, edge_values(inputs@, axis)),
{
    let mut e: Vec<i32> = Vec::new();
    let mut i: usize = 0;
    while i < inputs.len()
        invariant
            i <= inputs@.len(),
            inputs_fit(inputs@),
            strictly_increasing(e@),
            same_values(e@, edge_values(inputs@.subrange(0, i as int), axis)),
        decreases inputs@.len() - i,
    {
        let input = inputs[i];
        assert(input_fits(inputs@[i as int]));
        let start = axis_start(input, axis);
        let end = start + axis_logical_size(input, axis) as i32;
        let ghost e0 = e@;
        insert_sorted(&mut e, start);
        let ghost e1 = e@;
        insert_sorted(&mut e, end);
        proof {
            let before = inputs@.subrange(0, i as int);
            let after = inputs@.subrange(0, i + 1);
            assert(after.drop_last() =~= before);
            assert(after.last() == input);
            let eb = edge_values(before, axis);
            let ev = edge_values(after, axis);
            assert(ev =~= eb.push(start).push(end));
            assert forall|w: i32| e@.contains(w) <==> ev.contains(w) by {
                lemma_push_contains(e1, end, w);
                lemma_push_contains(e0, start, w);
                lemma_push_contains(eb.push(start), end, w);
                lemma_push_contains(eb, start, w);
            }
        }
        i = i + 1;
    }
    proof {
        assert(inputs@.subrange(0, inputs@.len() as int) =~= inputs@);
        let s = axis_edges(inputs@, axis);
        assert(strictly_increasing(s) && same_values(s, edge_values(inputs@, axis)));
        lemma_increasing_unique(e@, s);
    }
    e
}

/// `v`, or one when it is zero.
pub open spec fn at_least_one(v: u32) -> u32 {
    if v < 1 {
        1
    } else {
        v
    }
}

/// A screen's density along the axis: saved pixels over points.
pub open spec fn ratio_of(input: GeometryInput, axis: Axis) -> (u32, u32) {
    (at_least_one(saved_of(input, axis)), at_least_one(logical_of(input, axis)))
}

/// Whether the screen spans the whole stretch from `a` to `b`.
pub open spec fn covers(input: GeometryInput, axis: Axis, a: i32, b: i32) -> bool {
    start_of(input, axis) <= a && b <= end_of(input, axis)
}

/// The largest density among the screens that span the stretch from `a`
/// to `b`, as a ratio; `None` when no screen spans it.
pub open spec fn best_ratio(inputs: Seq<GeometryInput>, axis: Axis, a: i32, b: i32) -> Option<
    (u32, u32),
>
    decreases inputs.len(),
{
    if inputs.len() == 0 {
        None
    } else {
        let rest = best_ratio(inputs.drop_last(), axis, a, b);
        let input = inputs.last();
        if covers(input, axis, a, b) {
            let r = ratio_of(input, axis);
            match rest {
                None => Some(r),
                Some(q) => if q.0 * r.1 >= r.0 * q.1 {
                    Some(q)
                } else {
                    Some(r)
                },
            }
        } else {
            rest
        }
    }
}

/// Cross-multiplied comparison of densities with positive denominators is
/// transitive: `r >= q` and `q >= s` give `r >= s`.
proof fn lemma_ratio_ge_trans(r0: int, r1: int, q0: int, q1: int, s0: int, s1: int)
    requires
        r1 >= 1,
        q1 >= 1,
        s1 >= 1,
        r0 * q1 >= q0 * r1,
        q0 * s1 >= s0 * q1,
    ensures
        r0 * s1 >= s0 * r1,
{
    assert(r0 * q1 * s1 >= q0 * r1 * s1) by (nonlinear_arith)
        requires
            r0 * q1 >= q0 * r1,
            s1 >= 1,
    ;
    assert(q0 * s1 * r1 >= s0 * q1 * r1) by (nonlinear_arith)
        requires
            q0 * s1 >= s0 * q1,
            r1 >= 1,
    ;
    assert(q0 * r1 * s1 == q0 * s1 * r1) by (nonlinear_arith);
    assert(r0 * q1 * s1 == (r0 * s1) * q1) by (nonlinear_arith);
    assert(s0 * q1 * r1 == (s0 * r1) * q1) by (nonlinear_arith);
    assert(r0 * s1 >= s0 * r1) by (nonlinear_arith)
        requires
            (r0 * s1) * q1 >= (s0 * r1) * q1,
            q1 >= 1,
    ;
}

/// The density used for a stretch is that of a screen spanning it, and no
/// screen spanning it is denser: for every spanning screen with `p` saved
/// pixels over `l` points, the chosen `q` has `q.0 / q.1 >= p / l`. There
/// is a density exactly when some screen spans the stretch.
pub proof fn lemma_best_ratio_is_largest(inputs: Seq<GeometryInput>, axis: Axis, a: i32, b: i32)
    ensures
        best_ratio(inputs, axis, a, b) is None <==> forall|k: int|
            0 <= k < inputs.len() ==> !#[trigger] covers(inputs[k], axis, a, b),
        best_ratio(inputs, axis, a, b) matches Some(q) ==> exists|k: int|
            0 <= k < inputs.len() && #[trigger] covers(inputs[k], axis, a, b) && q == ratio_of(
                inputs[k],
                axis,
            ),
        forall|k: int|
            0 <= k < inputs.len() && #[trigger] covers(inputs[k], axis, a, b) ==> (best_ratio(
                inputs,
                axis,
                a,
                b,
            ) matches Some(q) && q.0 * ratio_of(inputs[k], axis).1 >= ratio_of(inputs[k], axis).0
                * q.1),
    decreases inputs.len(),
{
    if inputs.len() > 0 {
        let d = inputs.drop_last();
        let n = inputs.len() - 1;
        lemma_best_ratio_is_largest(d, axis, a, b);
        assert forall|k: int| 0 <= k < n implies #[trigger] inputs[k] == d[k] by {}
        let input = inputs.last();
        assert(input == inputs[n]);
        let rest = best_ratio(d, axis, a, b);
        let r = ratio_of(input, axis);
        if covers(input, axis, a, b) {
            match rest {
                None => {
                    assert forall|k: int|
                        0 <= k < inputs.len() && #[trigger] covers(inputs[k], axis, a, b) implies k == n by {
                        if k < n {
                            assert(covers(d[k], axis, a, b));
                        }
                    }
                },
                Some(q) => {
                    if !(q.0 * r.1 >= r.0 * q.1) {
                        assert forall|k: int|
                            0 <= k < inputs.len() && #[trigger] covers(inputs[k], axis, a, b) implies r.0
                            * ratio_of(inputs[k], axis).1 >= ratio_of(inputs[k], axis).0 * r.1 by {
                            if k < n {
                                assert(covers(d[k], axis, a, b));
                                let t = ratio_of(inputs[k], axis);
                                lemma_ratio_ge_trans(r.0 as int, r.1 as int, q.0 as int, q.1 as int, t.0 as int, t.1 as int);
                            }
                        }
                    } else {
                        let j = choose|j: int|
                            0 <= j < d.len() && #[trigger] covers(d[j], axis, a, b) && q == ratio_of(d[j], axis);
                        assert(inputs[j] == d[j]);
                        assert forall|k: int|
                            0 <= k < inputs.len() && #[trigger] covers(inputs[k], axis, a, b) implies q.0
                            * ratio_of(inputs[k], axis).1 >= ratio_of(inputs[k], axis).0 * q.1 by {
                            if k < n {
                                assert(covers(d[k], axis, a, b));
                            }
                        }
                    }
                },
            }
        } else {
            if let Some(q) = rest {
                let j = choose|j: int|
                    0 <= j < d.len() && #[trigger] covers(d[j], axis, a, b) && q == ratio_of(d[j], axis);
                assert(inputs[j] == d[j]);
            }
            assert forall|k: int| 0 <= k < inputs.len() && #[trigger] covers(inputs[k], axis, a, b) implies k < n
                && covers(d[k], axis, a, b) by {}
            if rest is None {
                assert forall|k: int| 0 <= k < inputs.len() implies !#[trigger] covers(inputs[k], axis, a, b) by {
                    if k < n {
                        assert(!covers(d[k], axis, a, b));
                    }
                }
            } else {
                let q = rest->0;
                let j = choose|j: int|
                    0 <= j < d.len() && #[trigger] covers(d[j], axis, a, b) && q == ratio_of(d[j], axis);
                assert(covers(inputs[j], axis, a, b));
            }
        }
    }
}

/// The pixels taken by a stretch of `d` points at density `ratio` (one when
/// no screen spans it), at most `i32::MAX`.
pub open spec fn stretch_pixels(d: int, ratio: Option<(u32, u32)>) -> int {
    let exact = match ratio {
        None => d,
        Some(r) => (2 * d * r.0 + r.1) / (2 * r.1 as int),
    };
    if exact > i32::MAX {
        i32::MAX as int
    } else {
        exact
    }
}

/// A stretch of `d` points at density `q.0 / q.1` takes its exact size in
/// pixels rounded to the nearest whole pixel, halves up (as `f64::round`
/// does on positive values), unless that is beyond `i32::MAX`; with no
/// density it takes one pixel per point.
pub proof fn lemma_stretch_rounds_to_nearest(d: int, q: (u32, u32))
    requires
        d >= 0,
        q.1 >= 1,
    ensures
        0 <= stretch_pixels(d, Some(q)) <= i32::MAX,
        stretch_pixels(d, Some(q)) == i32::MAX || (2 * q.1 * stretch_pixels(d, Some(q)) <= 2 * d * q.0
            + q.1 && 2 * d * q.0 + q.1 < 2 * q.1 * (stretch_pixels(d, Some(q)) + 1)),
        stretch_pixels(d, None) == if d > i32::MAX { i32::MAX as int } else { d },
{
    let x: int = 2 * d * q.0 + q.1;
    let m: int = 2 * q.1;
    assert(x >= 0) by (nonlinear_arith)
        requires
            d >= 0,
            q.0 >= 0,
            q.1 >= 1,
            x == 2 * d * q.0 + q.1,
    ;
    vstd::arithmetic::div_mod::lemma_fundamental_div_mod(x, m);
    vstd::arithmetic::div_mod::lemma_mod_bound(x, m);
    vstd::arithmetic::div_mod::lemma_div_pos_is_pos(x, m);
    let px = x / m;
    assert(m * px <= x < m * (px + 1)) by (nonlinear_arith)
        requires
            x == m * px + x % m,
            0 <= x % m < m,
    ;
}

/// The length of the stretch from `a` to `b`, at most `i32::MAX`.
pub open spec fn stretch_points(a: i32, b: i32) -> int {
    if b - a > i32::MAX {
        i32::MAX as int
    } else {
        b - a
    }
}

/// Where the `k`-th edge of the axis lands in the composed frame.
pub open spec fn offset_at(inputs: Seq<GeometryInput>, axis: Axis, k: nat) -> int
    decreases k,
{
    if k == 0 {
        0
    } else {
        let e = axis_edges(inputs, axis);
        offset_at(inputs, axis, (k - 1) as nat) + stretch_pixels(
            stretch_points(e[k - 1], e[k as int]),
            best_ratio(inputs, axis, e[k - 1], e[k as int]),
        )
    }
}

/// Whether the last edge of the axis lands within `i32`.
pub open spec fn offsets_fit(inputs: Seq<GeometryInput>, axis: Axis) -> bool {
    let e = axis_edges(inputs, axis);
    e.len() == 0 || offset_at(inputs, axis, (e.len() - 1) as nat) <= i32::MAX
}

/// Where the edge at `v` lands in the composed frame.
pub open spec fn axis_offset_value(inputs: Seq<GeometryInput>, axis: Axis, v: i32) -> int {
    let e = axis_edges(inputs, axis);
    offset_at(inputs, axis, choose|k: nat| k < e.len() && e[k as int] == v)
}

/// Every edge of the axis, with where it lands in the composed frame.
pub open spec fn axis_offset_map(inputs: Seq<GeometryInput>, axis: Axis) -> Map<i32, i32> {
    Map::new(
        |v: i32| axis_edges(inputs, axis).contains(v),
        |v: i32| axis_offset_value(inputs, axis, v) as i32,
    )
}

/// The product of two `u32`s.
fn mul_u32(a: u32, b: u32) -> (r: u64)
    ensures
        r == a * b,
{
    assert(a as u64 * b as u64 <= 0xffff_ffffu64 * 0xffff_ffffu64) by (nonlinear_arith)
        requires
            a <= 0xffff_ffffu64,
            b <= 0xffff_ffffu64,
    ;
    a as u64 * b as u64
}

/// The largest density among the screens spanning the stretch from
/// `start` to `end`; see `best_ratio`.
pub fn axis_segment_scale(inputs: &Vec<GeometryInput>, axis: Axis, start: i32, end: i32) -> (r:
    Option<(u32, u32)>)
    requires
        inputs_fit(inputs@),
    ensures
        r == best_ratio(inputs@, axis, start, end),
        r matches Some(q) ==> q.1 >= 1,
{
    let mut best: Option<(u32, u32)> = None;
    let mut i: usize = 0;
    while i < inputs.len()
        invariant
            i <= inputs@.len(),
            inputs_fit(inputs@),
            best == best_ratio(inputs@.subrange(0, i as int), axis, start, end),
            best matches Some(q) ==> q.1 >= 1,
        decreases inputs@.len() - i,
    {
        let input = inputs[i];
        assert(input_fits(inputs@[i as int]));
        let input_start = axis_start(input, axis);
        let input_end = input_start + axis_logical_size(input, axis) as i32;
        proof {
            let after = inputs@.subrange(0, i + 1);
            assert(after.drop_last() =~= inputs@.subrange(0, i as int));
            assert(after.last() == input);
        }
        if !(start < input_start || end > input_end) {
            let logical = axis_logical_size(input, axis);
            let saved = axis_saved_size(input, axis);
            let r = (if saved < 1 {
                1
            } else {
                saved
            }, if logical < 1 {
                1
            } else {
                logical
            });
            best = match best {
                None => Some(r),
                Some(q) => if mul_u32(q.0, r.1) >= mul_u32(r.0, q.1) {
                    Some(q)
                } else {
                    Some(r)
                },
            };
        }
        i = i + 1;
    }
    assert(inputs@.subrange(0, inputs@.len() as int) =~= inputs@);
    best
}

/// The pixels taken by a stretch of `d` points at density `ratio`.
fn scaled_stretch(d: i64, ratio: Option<(u32, u32)>) -> (r: i32)
    requires
        0 <= d <= i32::MAX,
        ratio matches Some(q) ==> q.1 >= 1,
    ensures
        r == stretch_pixels(d as int, ratio),
        r >= 0,
{
    match ratio {
        None => d as i32,
        Some(q) => {
            let n = q.0 as u128;
            let m = q.1 as u128;
            let du = d as u128;
            assert(2 * du * n <= 2 * 0x7fff_ffffu128 * 0xffff_ffffu128) by (nonlinear_arith)
                requires
                    du <= 0x7fff_ffffu128,
                    n <= 0xffff_ffffu128,
            ;
            let num = 2 * du * n + m;
            let q = num / (2 * m);
            assert(q >= 0);
            if q > 0x7fff_ffffu128 {
                0x7fff_ffff
            } else {
                q as i32
            }
        },
    }
}

/// The length of the stretch between two increasing edges, at most
/// `i32::MAX`.
fn stretch_length(a: i32, b: i32) -> (r: i64)
    requires
        a < b,
    ensures
        r == stretch_points(a, b),
        0 <= r <= i32::MAX,
{
    let d = b as i64 - a as i64;
    if d > 0x7fff_ffffi64 {
        0x7fff_ffff
    } else {
        d
    }
}

/// Densities have positive denominators.
proof fn lemma_best_ratio_positive(inputs: Seq<GeometryInput>, axis: Axis, a: i32, b: i32)
    ensures
        best_ratio(inputs, axis, a, b) matches Some(q) ==> q.1 >= 1,
    decreases inputs.len(),
{
    if inputs.len() > 0 {
        lemma_best_ratio_positive(inputs.drop_last(), axis, a, b);
    }
}

/// Edge offsets never decrease along the axis.
proof fn lemma_offset_at_nondecreasing(inputs: Seq<GeometryInput>, axis: Axis, j: nat, k: nat)
    requires
        strictly_increasing(axis_edges(inputs, axis)),
        j <= k < axis_edges(inputs, axis).len(),
    ensures
        0 <= offset_at(inputs, axis, j) <= offset_at(inputs, axis, k),
    decreases k,
{
    if k > 0 {
        let e = axis_edges(inputs, axis);
        assert(e[k - 1] < e[k as int]);
        let d = stretch_points(e[k - 1], e[k as int]);
        let r = best_ratio(inputs, axis, e[k - 1], e[k as int]);
        assert(stretch_pixels(d, r) >= 0) by {
            lemma_best_ratio_positive(inputs, axis, e[k - 1], e[k as int]);
            match r {
                None => {},
                Some(q) => {
                    let n: int = q.0 as int;
                    let m: int = q.1 as int;
                    assert((2 * d * n + m) / (2 * m) >= 0) by (nonlinear_arith)
                        requires
                            d >= 0,
                            n >= 0,
                            m >= 1,
                    ;
                },
            }
        }
        if j < k {
            lemma_offset_at_nondecreasing(inputs, axis, j, (k - 1) as nat);
        } else {
            lemma_offset_at_nondecreasing(inputs, axis, (k - 1) as nat, (k - 1) as nat);
        }
    }
}

/// The offset of the edge at `v` is that of its position among the edges.
proof fn lemma_offset_value(inputs: Seq<GeometryInput>, axis: Axis, j: nat)
    requires
        strictly_increasing(axis_edges(inputs, axis)),
        j < axis_edges(inputs, axis).len(),
    ensures
        axis_offset_value(inputs, axis, axis_edges(inputs, axis)[j as int]) == offset_at(
            inputs,
            axis,
            j,
        ),
{
    let e = axis_edges(inputs, axis);
    let v = e[j as int];
    assert(j < e.len() && e[j as int] == v);
    let k = choose|k: nat| k < e.len() && e[k as int] == v;
    if k < j {
        assert(e[k as int] < e[j as int]);
    } else if k > j {
        assert(e[j as int] < e[k as int]);
    }
}

/// Where each edge of the axis lands in the composed frame: the first edge
/// at zero, and each later one after the pixels of the stretch before it
/// (see `stretch_pixels` and `best_ratio`). Offsets never decrease along the
/// axis.
pub fn axis_offsets(inputs: &Vec<GeometryInput>, axis: Axis) -> (r: BTreeMap<i32, i32>)
    requires
        inputs_fit(inputs@),
        offsets_fit(inputs@, axis),
    ensures
        r@ == axis_offset_map(inputs@, axis),
        strictly_increasing(axis_edges(inputs@, axis)),
        same_values(axis_edges(inputs@, axis), edge_values(inputs@, axis)),
        forall|v: i32, w: i32|
            r@.contains_key(v) && r@.contains_key(w) && v <= w ==> 0 <= #[trigger] r@[v]
                <= #[trigger] r@[w],
        forall|v: i32| #[trigger] r@.contains_key(v) <==> edge_values(inputs@, axis).contains(v),
        forall|v: i32|
            #[trigger] r@.contains_key(v) && (forall|w: i32| #[trigger] r@.contains_key(w) ==> v <= w)
                ==> r@[v] == 0,
{
    let edges = sorted_edges(inputs, axis);
    let ghost e = edges@;
    proof {
        let s = axis_edges(inputs@, axis);
        assert(s == e);
    }
    let mut offsets: BTreeMap<i32, i32> = BTreeMap::new();
    let mut current: i32 = 0;
    let mut k: usize = 0;
    while edges.len() > 0 && k < edges.len() - 1
        invariant
            e == edges@,
            e == axis_edges(inputs@, axis),
            strictly_increasing(e),
            inputs_fit(inputs@),
            offsets_fit(inputs@, axis),
            e.len() == 0 || k < e.len(),
            k <= e.len(),
            current == offset_at(inputs@, axis, k as nat),
            forall|v: i32|
                #[trigger] offsets@.contains_key(v) <==> exists|j: int|
                    0 <= j < k && #[trigger] e[j] == v,
            forall|j: int| 0 <= j < k ==> #[trigger] offsets@[e[j]] == offset_at(inputs@, axis, j as nat),
        decreases e.len() - k,
    {
        let start = edges[k];
        let end = edges[k + 1];
        let ghost before = offsets@;
        offsets.insert(start, current);
        let ratio = axis_segment_scale(inputs, axis, start, end);
        let d = stretch_length(start, end);
        let px = scaled_stretch(d, ratio);
        proof {
            lemma_offset_at_nondecreasing(inputs@, axis, (k + 1) as nat, (e.len() - 1) as nat);
            assert(offset_at(inputs@, axis, (k + 1) as nat) == current + px);
            assert forall|v: i32|
                #[trigger] offsets@.contains_key(v) <==> exists|j: int|
                    0 <= j < k + 1 && #[trigger] e[j] == v by {
                if v == start {
                    assert(e[k as int] == v);
                }
                if exists|j: int| 0 <= j < k + 1 && #[trigger] e[j] == v {
                    let j = choose|j: int| 0 <= j < k + 1 && #[trigger] e[j] == v;
                    if j < k {
                        assert(before.contains_key(v));
                    }
                }
            }
            assert forall|j: int| 0 <= j < k + 1 implies #[trigger] offsets@[e[j]]
                == offset_at(inputs@, axis, j as nat) by {
                if j < k {
                    assert(e[j] < e[k as int]);
                    assert(before[e[j]] == offset_at(inputs@, axis, j as nat));
                }
            }
        }
        current = current + px;
        k = k + 1;
    }
    if edges.len() > 0 {
        let last = edges[k];
        let ghost before = offsets@;
        offsets.insert(last, current);
        proof {
            assert(k == e.len() - 1);
            assert forall|v: i32| #[trigger] offsets@.contains_key(v) <==> exists|j: int|
                0 <= j < e.len() && #[trigger] e[j] == v by {
                if v == last {
                    assert(e[k as int] == v);
                }
                if exists|j: int| 0 <= j < e.len() && #[trigger] e[j] == v {
                    let j = choose|j: int| 0 <= j < e.len() && #[trigger] e[j] == v;
                    if j < k {
                        assert(before.contains_key(v));
                    }
                }
            }
            assert forall|j: int| 0 <= j < e.len() implies #[trigger] offsets@[e[j]]
                == offset_at(inputs@, axis, j as nat) by {
                if j < k {
                    assert(e[j] < e[k as int]);
                }
            }
        }
    } else {
        proof {
            assert forall|v: i32| #[trigger] offsets@.contains_key(v) <==> exists|j: int|
                0 <= j < e.len() && #[trigger] e[j] == v by {
                assert(k == 0);
            }
        }
    }
    proof {
        assert(forall|v: i32| #[trigger] offsets@.contains_key(v) <==> exists|j: int|
            0 <= j < e.len() && #[trigger] e[j] == v);
        assert forall|v: i32| #[trigger] offsets@.contains_key(v) <==> e.contains(v) by {
            if e.contains(v) {
                let j = choose|j: int| 0 <= j < e.len() && e[j] == v;
                assert(e[j] == v);
            }
            if offsets@.contains_key(v) {
                let j = choose|j: int| 0 <= j < e.len() && #[trigger] e[j] == v;
                assert(e[j] == v);
            }
        }
        assert forall|v: i32| #[trigger] offsets@.contains_key(v) implies offsets@[v]
            == axis_offset_value(inputs@, axis, v) as i32 by {
            let j = choose|j: int| 0 <= j < e.len() && #[trigger] e[j] == v;
            lemma_offset_value(inputs@, axis, j as nat);
            lemma_offset_at_nondecreasing(inputs@, axis, j as nat, (e.len() - 1) as nat);
        }
        assert(offsets@ =~= axis_offset_map(inputs@, axis));
        assert forall|v: i32, w: i32|
            offsets@.contains_key(v) && offsets@.contains_key(w) && v <= w implies 0
                <= #[trigger] offsets@[v] <= #[trigger] offsets@[w] by {
            let a = choose|j: int| 0 <= j < e.len() && #[trigger] e[j] == v;
            let b = choose|j: int| 0 <= j < e.len() && #[trigger] e[j] == w;
            if b < a {
                assert(e[b] < e[a]);
            }
            lemma_offset_at_nondecreasing(inputs@, axis, a as nat, b as nat);
        }
        assert forall|v: i32|
            #[trigger] offsets@.contains_key(v) && (forall|w: i32| #[trigger] offsets@.contains_key(w) ==> v <= w)
                implies offsets@[v] == 0 by {
            let a = choose|j: int| 0 <= j < e.len() && #[trigger] e[j] == v;
            assert(offsets@.contains_key(e[0]));
            if a > 0 {
                assert(e[0] < e[a]);
            }
            lemma_offset_value(inputs@, axis, 0);
        }
    }
    offsets
}

/// Decides `offsets_fit`: whether the last edge of the axis lands within
/// `i32`.
pub fn axis_offsets_fit(inputs: &Vec<GeometryInput>, axis: Axis) -> (r: bool)
    requires
        inputs_fit(inputs@),
    ensures
        r == offsets_fit(inputs@, axis),
{
    let edges = sorted_edges(inputs, axis);
    let ghost e = edges@;
    let mut current: i64 = 0;
    let mut k: usize = 0;
    while edges.len() > 0 && k < edges.len() - 1
        invariant
            e == edges@,
            e == axis_edges(inputs@, axis),
            strictly_increasing(e),
            inputs_fit(inputs@),
            k <= e.len(),
            e.len() == 0 || k < e.len(),
            current == offset_at(inputs@, axis, k as nat),
            0 <= current <= i32::MAX,
        decreases e.len() - k,
    {
        let start = edges[k];
        let end = edges[k + 1];
        let ratio = axis_segment_scale(inputs, axis, start, end);
        let d = stretch_length(start, end);
        let px = scaled_stretch(d, ratio);
        assert(offset_at(inputs@, axis, (k + 1) as nat) == current + px);
        if current + px as i64 > 0x7fff_ffffi64 {
            proof {
                lemma_offset_at_nondecreasing(inputs@, axis, (k + 1) as nat, (e.len() - 1) as nat);
            }
            return false;
        }
        current = current + px as i64;
        k = k + 1;
    }
    true
}

/// Where a screen's image sits in the frame composed of `inputs`: at the
/// offsets of its start edges, with its saved size.
pub open spec fn geometry_for(inputs: Seq<GeometryInput>, input: GeometryInput) -> SavedGeometry {
    SavedGeometry {
        x: axis_offset_value(inputs, Axis::X, input.x) as i32,
        y: axis_offset_value(inputs, Axis::Y, input.y) as i32,
        width: input.saved_width,
        height: input.saved_height,
    }
}

/// The geometry of each screen of `placed` by its number, within the frame
/// composed of `inputs`; a later screen with the same number wins.
pub open spec fn geometry_map(inputs: Seq<GeometryInput>, placed: Seq<GeometryInput>) -> Map<
    u32,
    SavedGeometry,
>
    decreases placed.len(),
{
    if placed.len() == 0 {
        Map::empty()
    } else {
        geometry_map(inputs, placed.drop_last()).insert(
            placed.last().screen_index,
            geometry_for(inputs, placed.last()),
        )
    }
}

/// A screen's start is one of the edges of its axis.
proof fn lemma_start_is_edge(inputs: Seq<GeometryInput>, axis: Axis, k: int)
    requires
        0 <= k < inputs.len(),
    ensures
        edge_values(inputs, axis).contains(start_of(inputs[k], axis)),
    decreases inputs.len(),
{
    let ev = edge_values(inputs, axis);
    let eb = edge_values(inputs.drop_last(), axis);
    assert(ev =~= eb + seq![start_of(inputs.last(), axis), end_of(inputs.last(), axis)]);
    if k == inputs.len() - 1 {
        assert(ev[eb.len() as int] == start_of(inputs[k], axis));
    } else {
        lemma_start_is_edge(inputs.drop_last(), axis, k);
        let j = choose|j: int| 0 <= j < eb.len() && eb[j] == start_of(inputs[k], axis);
        assert(ev[j] == eb[j]);
    }
}

/// A screen that starts no later than another along an axis lands no later
/// in the composed frame.
proof fn lemma_layout_keeps_order(inputs: Seq<GeometryInput>, axis: Axis, j: int, k: int)
    requires
        strictly_increasing(axis_edges(inputs, axis)),
        same_values(axis_edges(inputs, axis), edge_values(inputs, axis)),
        offsets_fit(inputs, axis),
        0 <= j < inputs.len(),
        0 <= k < inputs.len(),
        start_of(inputs[j], axis) <= start_of(inputs[k], axis),
    ensures
        0 <= axis_offset_value(inputs, axis, start_of(inputs[j], axis)) <= axis_offset_value(
            inputs,
            axis,
            start_of(inputs[k], axis),
        ) <= i32::MAX,
{
    let e = axis_edges(inputs, axis);
    let a = start_of(inputs[j], axis);
    let b = start_of(inputs[k], axis);
    lemma_start_is_edge(inputs, axis, j);
    lemma_start_is_edge(inputs, axis, k);
    assert(e.contains(a) && e.contains(b));
    let ia = choose|i: int| 0 <= i < e.len() && e[i] == a;
    let ib = choose|i: int| 0 <= i < e.len() && e[i] == b;
    assert(ia <= ib) by {
        if ia > ib {
            assert(e[ib] < e[ia]);
        }
    }
    lemma_offset_value(inputs, axis, ia as nat);
    lemma_offset_value(inputs, axis, ib as nat);
    lemma_offset_at_nondecreasing(inputs, axis, ia as nat, ib as nat);
    lemma_offset_at_nondecreasing(inputs, axis, ib as nat, (e.len() - 1) as nat);
}

/// Where each screen's image sits in the composed multi-screen frame, by
/// screen number (see `geometry_for`).
pub fn scaled_geometries(inputs: &Vec<GeometryInput>) -> (r: BTreeMap<u32, SavedGeometry>)
    requires
        inputs_fit(inputs@),
        offsets_fit(inputs@, Axis::X),
        offsets_fit(inputs@, Axis::Y),
    ensures
        r@ == geometry_map(inputs@, inputs@),
        forall|j: int, k: int|
            0 <= j < inputs@.len() && 0 <= k < inputs@.len() && inputs@[j].x <= inputs@[k].x
                ==> #[trigger] geometry_for(inputs@, inputs@[j]).x <= #[trigger] geometry_for(
                inputs@,
                inputs@[k],
            ).x,
        forall|j: int, k: int|
            0 <= j < inputs@.len() && 0 <= k < inputs@.len() && inputs@[j].y <= inputs@[k].y
                ==> #[trigger] geometry_for(inputs@, inputs@[j]).y <= #[trigger] geometry_for(
                inputs@,
                inputs@[k],
            ).y,
{
    let x_offsets = axis_offsets(inputs, Axis::X);
    let y_offsets = axis_offsets(inputs, Axis::Y);
    proof {
        assert forall|j: int, k: int|
            0 <= j < inputs@.len() && 0 <= k < inputs@.len() && inputs@[j].x <= inputs@[k].x
                implies #[trigger] geometry_for(inputs@, inputs@[j]).x <= #[trigger] geometry_for(
                inputs@,
                inputs@[k],
            ).x by {
            lemma_layout_keeps_order(inputs@, Axis::X, j, k);
        }
        assert forall|j: int, k: int|
            0 <= j < inputs@.len() && 0 <= k < inputs@.len() && inputs@[j].y <= inputs@[k].y
                implies #[trigger] geometry_for(inputs@, inputs@[j]).y <= #[trigger] geometry_for(
                inputs@,
                inputs@[k],
            ).y by {
            lemma_layout_keeps_order(inputs@, Axis::Y, j, k);
        }
    }
    let mut r: BTreeMap<u32, SavedGeometry> = BTreeMap::new();
    let mut i: usize = 0;
    while i < inputs.len()
        invariant
            i <= inputs@.len(),
            x_offsets@ == axis_offset_map(inputs@, Axis::X),
            y_offsets@ == axis_offset_map(inputs@, Axis::Y),
            strictly_increasing(axis_edges(inputs@, Axis::X)),
            same_values(axis_edges(inputs@, Axis::X), edge_values(inputs@, Axis::X)),
            strictly_increasing(axis_edges(inputs@, Axis::Y)),
            same_values(axis_edges(inputs@, Axis::Y), edge_values(inputs@, Axis::Y)),
            r@ == geometry_map(inputs@, inputs@.subrange(0, i as int)),
        decreases inputs@.len() - i,
    {
        let input = inputs[i];
        proof {
            lemma_start_is_edge(inputs@, Axis::X, i as int);
            lemma_start_is_edge(inputs@, Axis::Y, i as int);
            let ex = axis_edges(inputs@, Axis::X);
            let ey = axis_edges(inputs@, Axis::Y);
            let vx = start_of(inputs@[i as int], Axis::X);
            let vy = start_of(inputs@[i as int], Axis::Y);
            assert(strictly_increasing(ex) && same_values(ex, edge_values(inputs@, Axis::X)));
            assert(strictly_increasing(ey) && same_values(ey, edge_values(inputs@, Axis::Y)));
            assert(ex.contains(vx));
            assert(ey.contains(vy));
            assert(x_offsets@.contains_key(input.x));
            assert(y_offsets@.contains_key(input.y));
        }
        let x = match x_offsets.get(&input.x) {
            Some(v) => *v,
            None => 0,
        };
        let y = match y_offsets.get(&input.y) {
            Some(v) => *v,
            None => 0,
        };
        r.insert(
            input.screen_index,
            SavedGeometry { x, y, width: input.saved_width, height: input.saved_height },
        );
        proof {
            let after = inputs@.subrange(0, i + 1);
            assert(after.drop_last() =~= inputs@.subrange(0, i as int));
            assert(after.last() == input);
        }
        i = i + 1;
    }
    assert(inputs@.subrange(0, inputs@.len() as int) =~= inputs@);
    r
}

/// The layout of the composed frame, or `None` when an edge or an offset
/// would not fit in an `i32`.
pub fn checked_scaled_geometries(inputs: &Vec<GeometryInput>) -> (r: Option<
    BTreeMap<u32, SavedGeometry>,
>)
    ensures
        match r {
            Some(m) => inputs_fit(inputs@) && offsets_fit(inputs@, Axis::X) && offsets_fit(
                inputs@,
                Axis::Y,
            ) && m@ == geometry_map(inputs@, inputs@),
            None => !(inputs_fit(inputs@) && offsets_fit(inputs@, Axis::X) && offsets_fit(
                inputs@,
                Axis::Y,
            )),
        },
{
    if !geometry_inputs_fit(inputs) {
        return None;
    }
    if !axis_offsets_fit(inputs, Axis::X) || !axis_offsets_fit(inputs, Axis::Y) {
        return None;
    }
    Some(scaled_geometries(inputs))
}

/// A captured screen's own geometry: its whole image at the origin.
pub open spec fn captured_geometry_of(capture: CapturedScreen) -> SavedGeometry {
    SavedGeometry { x: 0, y: 0, width: capture.width, height: capture.height }
}

/// A captured screen's own geometry: its whole image at the origin.
pub fn captured_geometry(capture: &CapturedScreen) -> (r: SavedGeometry)
    ensures
        r == captured_geometry_of(*capture),
{
    SavedGeometry { x: 0, y: 0, width: capture.width, height: capture.height }
}

/// Each captured screen's own geometry by its number; a later screen with
/// the same number wins.
pub open spec fn single_geometry_map(captured: Seq<CapturedScreen>) -> Map<u32, SavedGeometry>
    decreases captured.len(),
{
    if captured.len() == 0 {
        Map::empty()
    } else {
        single_geometry_map(captured.drop_last()).insert(
            captured.last().screen_index,
            captured_geometry_of(captured.last()),
        )
    }
}

/// The geometries of a single-screen-name batch: each screen alone at the
/// origin.
pub fn single_screen_geometries(captured: &Vec<CapturedScreen>) -> (r: BTreeMap<u32, SavedGeometry>)
    ensures
        r@ == single_geometry_map(captured@),
{
    let mut r: BTreeMap<u32, SavedGeometry> = BTreeMap::new();
    let mut i: usize = 0;
    while i < captured.len()
        invariant
            i <= captured@.len(),
            r@ == single_geometry_map(captured@.subrange(0, i as int)),
        decreases captured@.len() - i,
    {
        let capture = captured[i];
        r.insert(capture.screen_index, captured_geometry(&capture));
        proof {
            let after = captured@.subrange(0, i + 1);
            assert(after.drop_last() =~= captured@.subrange(0, i as int));
        }
        i = i + 1;
    }
    assert(captured@.subrange(0, captured@.len() as int) =~= captured@);
    r
}

/// The first captured screen numbered `index`, if any.
pub open spec fn first_capture_of(captured: Seq<CapturedScreen>, index: u32) -> Option<
    CapturedScreen,
>
    decreases captured.len(),
{
    if captured.len() == 0 {
        None
    } else if captured[0].screen_index == index {
        Some(captured[0])
    } else {
        first_capture_of(captured.drop_first(), index)
    }
}

/// The layout input of a target screen: its desktop rectangle (each side at
/// least one point) and its saved size, that of its captured image or else
/// the `estimate` for it.
pub open spec fn geometry_input_of(
    target: ScreenPlacement,
    captured: Seq<CapturedScreen>,
    estimate: (u32, u32),
) -> GeometryInput {
    let saved = match first_capture_of(captured, target.index) {
        Some(c) => (c.width, c.height),
        None => estimate,
    };
    GeometryInput {
        screen_index: target.index,
        x: target.x,
        y: target.y,
        width: at_least_one(target.width),
        height: at_least_one(target.height),
        saved_width: saved.0,
        saved_height: saved.1,
    }
}

/// Finds the first captured screen numbered `index`.
fn find_capture(captured: &Vec<CapturedScreen>, index: u32) -> (r: Option<CapturedScreen>)
    ensures
        r == first_capture_of(captured@, index),
{
    let mut i: usize = 0;
    assert(captured@.subrange(0, captured@.len() as int) =~= captured@);
    while i < captured.len()
        invariant
            i <= captured@.len(),
            first_capture_of(captured@, index) == first_capture_of(
                captured@.subrange(i as int, captured@.len() as int),
                index,
            ),
        decreases captured@.len() - i,
    {
        let ghost rest = captured@.subrange(i as int, captured@.len() as int);
        assert(rest[0] == captured@[i as int]);
        if captured[i].screen_index == index {
            return Some(captured[i]);
        }
        assert(rest.drop_first() =~= captured@.subrange(i + 1, captured@.len() as int));
        i = i + 1;
    }
    None
}

/// The layout inputs of the target screens, in target order (see
/// `geometry_input_of`); `estimates[k]` is the expected saved size of
/// `targets[k]` for when it was not captured.
pub fn geometry_inputs_for_targets(
    targets: &Vec<ScreenPlacement>,
    captured: &Vec<CapturedScreen>,
    estimates: &Vec<(u32, u32)>,
) -> (r: Vec<GeometryInput>)
    requires
        estimates@.len() == targets@.len(),
    ensures
        r@.len() == targets@.len(),
        forall|k: int|
            0 <= k < r@.len() ==> #[trigger] r@[k] == geometry_input_of(
                targets@[k],
                captured@,
                estimates@[k],
            ),
{
    let mut r: Vec<GeometryInput> = Vec::new();
    let mut i: usize = 0;
    while i < targets.len()
        invariant
            i <= targets@.len(),
            estimates@.len() == targets@.len(),
            r@.len() == i,
            forall|k: int|
                0 <= k < i ==> #[trigger] r@[k] == geometry_input_of(
                    targets@[k],
                    captured@,
                    estimates@[k],
                ),
        decreases targets@.len() - i,
    {
        let target = targets[i];
        let saved = match find_capture(captured, target.index) {
            Some(c) => (c.width, c.height),
            None => estimates[i],
        };
        r.push(
            GeometryInput {
                screen_index: target.index,
                x: target.x,
                y: target.y,
                width: if target.width < 1 {
                    1
                } else {
                    target.width
                },
                height: if target.height < 1 {
                    1
                } else {
                    target.height
                },
                saved_width: saved.0,
                saved_height: saved.1,
            },
        );
        i = i + 1;
    }
    r
}

/// The edge where a lone screen starts lands at the origin.
proof fn lemma_lone_offset(input: GeometryInput, axis: Axis)
    requires
        input_fits(input),
    ensures
        axis_offset_value(seq![input], axis, start_of(input, axis)) == 0,
{
    let inputs = seq![input];
    let start = start_of(input, axis);
    let end = end_of(input, axis);
    assert(inputs.drop_last() =~= Seq::<GeometryInput>::empty());
    assert(inputs.last() == input);
    let ev = edge_values(inputs, axis);
    assert(edge_values(inputs.drop_last(), axis) =~= Seq::<i32>::empty());
    assert(ev =~= Seq::<i32>::empty() + seq![start, end]);
    assert(ev =~= seq![start, end]);
    let s0 = if logical_of(input, axis) == 0 {
        seq![start]
    } else {
        seq![start, end]
    };
    assert(strictly_increasing(s0));
    assert forall|v: i32| s0.contains(v) <==> ev.contains(v) by {
        if ev.contains(v) {
            let k = choose|k: int| 0 <= k < ev.len() && ev[k] == v;
            if k == 0 {
                assert(s0[0] == v);
            } else if logical_of(input, axis) == 0 {
                assert(s0[0] == v);
            } else {
                assert(s0[1] == v);
            }
        }
        if s0.contains(v) {
            let k = choose|k: int| 0 <= k < s0.len() && s0[k] == v;
            assert(ev[k] == v);
        }
    }
    assert(strictly_increasing(s0) && same_values(s0, ev));
    let e = axis_edges(inputs, axis);
    assert(strictly_increasing(e) && same_values(e, ev));
    assert(same_values(e, s0));
    lemma_increasing_unique(e, s0);
    assert(e[0] == start);
    let k = choose|k: nat| k < e.len() && e[k as int] == start;
    assert(0 < e.len() && e[0] == start);
    if k > 0 {
        assert(e[0] < e[k as int]);
    }
}

/// A lone screen sits at the origin of the composed frame, with its saved
/// size.
pub proof fn lemma_single_screen_at_origin(input: GeometryInput)
    requires
        input_fits(input),
    ensures
        geometry_map(seq![input], seq![input]) == Map::<u32, SavedGeometry>::empty().insert(
            input.screen_index,
            SavedGeometry { x: 0, y: 0, width: input.saved_width, height: input.saved_height },
        ),
{
    lemma_lone_offset(input, Axis::X);
    lemma_lone_offset(input, Axis::Y);
    let inputs = seq![input];
    assert(inputs.drop_last() =~= Seq::<GeometryInput>::empty());
    assert(geometry_map(inputs, Seq::<GeometryInput>::empty()) == Map::<u32, SavedGeometry>::empty());
}

} // verus!
