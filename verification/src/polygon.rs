//! Closed polygons: a circular view of a sequence of points.

use std::borrow::Cow;
use vstd::arithmetic::div_mod::lemma_add_mod_noop;
use vstd::arithmetic::div_mod::lemma_add_mod_noop_right;
use vstd::arithmetic::div_mod::lemma_fundamental_div_mod;
use vstd::arithmetic::div_mod::lemma_mod_add_multiples_vanish;
use vstd::arithmetic::div_mod::lemma_mod_bound;
use vstd::arithmetic::div_mod::lemma_mod_sub_multiples_vanish;
use vstd::arithmetic::div_mod::lemma_small_mod;
use vstd::prelude::*;
use vstd::slice::slice_subrange;
use crate::point::Point;
use crate::scalar::floor_div;

verus! {

/// The sequence `s` read from index `k` on, wrapping round its end once.
pub open spec fn rotated(s: Seq<Point>, k: int) -> Seq<Point> {
    s.subrange(k, s.len() as int) + s.subrange(0, k)
}

/// The index that a shift by `change` leads to from `start`, on a circle of
/// `len` places.
pub open spec fn aligned(start: int, change: int, len: int) -> int {
    if len == 0 {
        0
    } else {
        (start + change) % len
    }
}

/// Where each item of a turned sequence comes from.
pub proof fn lemma_rotated_index(s: Seq<Point>, k: int, i: int)
    requires
        0 <= k < s.len(),
        0 <= i < s.len(),
    ensures
        rotated(s, k).len() == s.len(),
        rotated(s, k)[i] == s[(k + i) % (s.len() as int)],
{
    let n = s.len() as int;
    if k + i < n {
        lemma_small_mod((k + i) as nat, n as nat);
    } else {
        lemma_mod_sub_multiples_vanish(k + i, n);
        lemma_small_mod((k + i - n) as nat, n as nat);
    }
}

/// Turning by `a` places and then by `b` is turning by `a + b` places.
pub proof fn lemma_rotated_twice(s: Seq<Point>, a: int, b: int)
    requires
        0 <= a < s.len(),
        0 <= b < s.len(),
    ensures
        rotated(rotated(s, a), b) == rotated(s, (a + b) % (s.len() as int)),
{
    let n = s.len() as int;
    let c = (a + b) % n;
    lemma_mod_bound(a + b, n);
    let left = rotated(rotated(s, a), b);
    let right = rotated(s, c);
    assert forall|i: int| 0 <= i < n implies left[i] == right[i] by {
        lemma_rotated_index(rotated(s, a), b, i);
        lemma_mod_bound(b + i, n);
        lemma_rotated_index(s, a, (b + i) % n);
        lemma_rotated_index(s, c, i);
        lemma_add_mod_noop_right(a, b + i, n);
        lemma_add_mod_noop(a + b, i, n);
        lemma_small_mod(i as nat, n as nat);
    }
    assert(left =~= right);
}

/// A full turn is no turn: a shift by the number of places leads back to
/// the start.
pub proof fn lemma_aligned_full_turn(start: int, len: int)
    requires
        0 <= start < len,
    ensures
        aligned(start, len, len) == start,
        aligned(start, 0, len) == start,
{
    lemma_mod_add_multiples_vanish(start, len);
    lemma_small_mod(start as nat, len as nat);
}

/// A single pass over the vertices of a polygon, in logical order.
///
/// It reads two stretches of the stored points one after the other: from
/// the first logical vertex to the end of storage, then from the start of
/// storage up to the first logical vertex.
pub struct PointIter<'a> {
    first: &'a [Point],
    second: &'a [Point],
}

impl<'a> View for PointIter<'a> {
    type V = Seq<Point>;

    /// The vertices still to come.
    closed spec fn view(&self) -> Seq<Point> {
        self.first@ + self.second@
    }
}

impl<'a> PointIter<'a> {
    /// The next vertex, or `None` once all have been handed out.
    pub fn next(&mut self) -> (r: Option<Point>)
        ensures
            old(self)@.len() == 0 ==> r.is_none() && final(self)@ == old(self)@,
            old(self)@.len() > 0 ==> r == Some(old(self)@[0]) && final(self)@ == old(self)@.skip(1),
    {
        if self.first.len() > 0 {
            let p = self.first[0];
            self.first = slice_subrange(self.first, 1, self.first.len());
            assert(self@ =~= old(self)@.skip(1));
            Some(p)
        } else if self.second.len() > 0 {
            let p = self.second[0];
            self.second = slice_subrange(self.second, 1, self.second.len());
            assert(self@ =~= old(self)@.skip(1));
            Some(p)
        } else {
            None
        }
    }
}

/// A closed polygon: stored points and the index of the one that counts as
/// the first vertex. Turning the polygon moves the index, never the points.
pub struct Polygon<'a> {
    orientation: usize,
    points: Cow<'a, Vec<Point>>,
}

impl<'a> View for Polygon<'a> {
    type V = Seq<Point>;

    /// The vertices in logical order.
    closed spec fn view(&self) -> Seq<Point> {
        rotated(self.points@, self.orientation as int)
    }
}

impl<'a> Polygon<'a> {
    /// The start is the index of a stored point, or zero where there is none.
    #[verifier::type_invariant]
    pub closed spec fn wf(self) -> bool {
        if self.points@.len() == 0 {
            self.orientation == 0
        } else {
            self.orientation < self.points@.len()
        }
    }

    /// The points as they are stored.
    pub closed spec fn storage(&self) -> Seq<Point> {
        self.points@
    }

    /// The index in storage of the first logical vertex.
    pub closed spec fn start(&self) -> int {
        self.orientation as int
    }

    /// What the view is made of, and where the start can lie.
    pub proof fn lemma_view(self)
        requires
            self.wf(),
        ensures
            self@ == rotated(self.storage(), self.start()),
            self@.len() == self.storage().len(),
            self.storage().len() == 0 ==> self.start() == 0,
            self.storage().len() > 0 ==> 0 <= self.start() < self.storage().len(),
    {
    }

    /// A polygon over `points`, starting at the first of them.
    pub fn new(points: Cow<'a, Vec<Point>>) -> (r: Polygon<'a>)
        ensures
            r.wf(),
            r.storage() == points@,
            r.start() == 0,
            r@ == points@,
    {
        assert(rotated(points@, 0) =~= points@);
        Polygon { orientation: 0, points }
    }

    /// The number of vertices.
    pub fn len(&self) -> (n: usize)
        ensures
            n == self@.len(),
            n == self.storage().len(),
    {
        proof {
            use_type_invariant(self);
            self.lemma_view();
        }
        match &self.points {
            Cow::Borrowed(b) => b.len(),
            Cow::Owned(o) => o.len(),
        }
    }

    /// The stored points: the same borrow again, or a copy of what is owned.
    fn share(&self) -> (r: Cow<'a, Vec<Point>>)
        ensures
            r@ == self.points@,
    {
        match &self.points {
            Cow::Borrowed(b) => Cow::Borrowed(*b),
            Cow::Owned(o) => {
                let copy = o.clone();
                assert(copy@ =~= o@);
                Cow::Owned(copy)
            },
        }
    }

    /// The same polygon turned by `change` places: the vertex that was at
    /// logical index `change` becomes the first. The shift is taken modulo
    /// the number of vertices, so any `change`, of either sign, is in order.
    pub fn align(&self, change: isize) -> (r: Polygon<'a>)
        ensures
            r.wf(),
            r.storage() == self.storage(),
            r.start() == aligned(self.start(), change as int, self.storage().len() as int),
            r@ == rotated(self@, aligned(0, change as int, self@.len() as int)),
    {
        proof {
            use_type_invariant(self);
        }
        let n = self.len();
        if n == 0 {
            assert(rotated(self@, 0) =~= self@);
            return Polygon { orientation: 0, points: self.share() };
        }
        let target: i128 = self.orientation as i128 + change as i128;
        let turns: i128 = floor_div(target, n as i128);
        proof {
            lemma_fundamental_div_mod(target as int, n as int);
            lemma_mod_bound(target as int, n as int);
            assert(n * turns == turns * n) by (nonlinear_arith);
            lemma_mod_bound(change as int, n as int);
            lemma_rotated_twice(self.points@, self.orientation as int, (change as int) % (n as int));
            lemma_add_mod_noop_right(self.orientation as int, change as int, n as int);
        }
        let rest: i128 = target - turns * (n as i128);
        Polygon { orientation: rest as usize, points: self.share() }
    }

    /// A pass over the vertices in logical order: from the start to the end
    /// of storage, then from the beginning of storage up to the start.
    pub fn points(&self) -> (r: PointIter<'_>)
        ensures
            r@ == self@,
    {
        proof {
            use_type_invariant(self);
        }
        let stored: &Vec<Point> = match &self.points {
            Cow::Borrowed(b) => b,
            Cow::Owned(o) => o,
        };
        let (head, tail) = stored.as_slice().split_at(self.orientation);
        PointIter { first: tail, second: head }
    }
}

} // verus!
