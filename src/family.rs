//! Scent families as a bit-set over a ring of seven positions.
use vstd::prelude::*;

verus! {

/// Whether bit `p` of `x` is set.
pub open spec fn bit_at(x: u8, p: u8) -> bool {
    (x >> p) & 1u8 == 1u8
}

/// Number of steps between two ring positions, the shorter way round.
pub open spec fn ring_gap(p: int, q: int) -> int {
    let d = if p >= q { p - q } else { q - p };
    if d <= 7 - d { d } else { 7 - d }
}

/// A set of scent families. Positions 0 to 6 of `mask` form the ring
/// Citrus, Floral, Herbal, Wood, Resin, Spicy, Earthy; the eighth bit is kept
/// but never takes part in a match or a distance.
#[derive(Clone, Copy, Debug, PartialEq, Eq, Structural)]
pub struct Family {
    pub mask: u8,
}

#[allow(non_snake_case)]
impl Family {
    /// The wrap boundary at the bottom of the ring: position 0.
    pub fn One() -> (r: Family)
        ensures
            r.mask == 0b0000001u8,
            forall|p: int| #[trigger] r.has(p) <==> p == 0,
    {
        proof {
            assert forall|p: int| #[trigger] (Family { mask: 0b0000001u8 }).has(p) <==> p == 0 by {
                if 0 <= p < 7 {
                    let q = p as u8;
                    assert(q < 7 ==> (bit_at(0b0000001u8, q) <==> q == 0u8)) by (bit_vector);
                }
            }
        }
        Family { mask: 0b0000001 }
    }

    /// Citrus, ring position 0.
    pub fn Citrus() -> (r: Family)
        ensures
            r.mask == 0b0000001u8,
            forall|p: int| #[trigger] r.has(p) <==> p == 0,
    {
        proof {
            assert forall|p: int| #[trigger] (Family { mask: 0b0000001u8 }).has(p) <==> p == 0 by {
                if 0 <= p < 7 {
                    let q = p as u8;
                    assert(q < 7 ==> (bit_at(0b0000001u8, q) <==> q == 0u8)) by (bit_vector);
                }
            }
        }
        Family { mask: 0b0000001 }
    }

    /// Floral, ring position 1.
    pub fn Froral() -> (r: Family)
        ensures
            r.mask == 0b0000010u8,
            forall|p: int| #[trigger] r.has(p) <==> p == 1,
    {
        proof {
            assert forall|p: int| #[trigger] (Family { mask: 0b0000010u8 }).has(p) <==> p == 1 by {
                if 0 <= p < 7 {
                    let q = p as u8;
                    assert(q < 7 ==> (bit_at(0b0000010u8, q) <==> q == 1u8)) by (bit_vector);
                }
            }
        }
        Family { mask: 0b0000010 }
    }

    /// Herbal, ring position 2.
    pub fn Herball() -> (r: Family)
        ensures
            r.mask == 0b0000100u8,
            forall|p: int| #[trigger] r.has(p) <==> p == 2,
    {
        proof {
            assert forall|p: int| #[trigger] (Family { mask: 0b0000100u8 }).has(p) <==> p == 2 by {
                if 0 <= p < 7 {
                    let q = p as u8;
                    assert(q < 7 ==> (bit_at(0b0000100u8, q) <==> q == 2u8)) by (bit_vector);
                }
            }
        }
        Family { mask: 0b0000100 }
    }

    /// Wood, ring position 3.
    pub fn Wood() -> (r: Family)
        ensures
            r.mask == 0b0001000u8,
            forall|p: int| #[trigger] r.has(p) <==> p == 3,
    {
        proof {
            assert forall|p: int| #[trigger] (Family { mask: 0b0001000u8 }).has(p) <==> p == 3 by {
                if 0 <= p < 7 {
                    let q = p as u8;
                    assert(q < 7 ==> (bit_at(0b0001000u8, q) <==> q == 3u8)) by (bit_vector);
                }
            }
        }
        Family { mask: 0b0001000 }
    }

    /// Resin, ring position 4.
    pub fn Resin() -> (r: Family)
        ensures
            r.mask == 0b0010000u8,
            forall|p: int| #[trigger] r.has(p) <==> p == 4,
    {
        proof {
            assert forall|p: int| #[trigger] (Family { mask: 0b0010000u8 }).has(p) <==> p == 4 by {
                if 0 <= p < 7 {
                    let q = p as u8;
                    assert(q < 7 ==> (bit_at(0b0010000u8, q) <==> q == 4u8)) by (bit_vector);
                }
            }
        }
        Family { mask: 0b0010000 }
    }

    /// Spicy, ring position 5.
    pub fn Spicy() -> (r: Family)
        ensures
            r.mask == 0b0100000u8,
            forall|p: int| #[trigger] r.has(p) <==> p == 5,
    {
        proof {
            assert forall|p: int| #[trigger] (Family { mask: 0b0100000u8 }).has(p) <==> p == 5 by {
                if 0 <= p < 7 {
                    let q = p as u8;
                    assert(q < 7 ==> (bit_at(0b0100000u8, q) <==> q == 5u8)) by (bit_vector);
                }
            }
        }
        Family { mask: 0b0100000 }
    }

    /// Earthy, ring position 6.
    pub fn Earthy() -> (r: Family)
        ensures
            r.mask == 0b1000000u8,
            forall|p: int| #[trigger] r.has(p) <==> p == 6,
    {
        proof {
            assert forall|p: int| #[trigger] (Family { mask: 0b1000000u8 }).has(p) <==> p == 6 by {
                if 0 <= p < 7 {
                    let q = p as u8;
                    assert(q < 7 ==> (bit_at(0b1000000u8, q) <==> q == 6u8)) by (bit_vector);
                }
            }
        }
        Family { mask: 0b1000000 }
    }

    /// The wrap boundary at the top of the ring: position 6.
    pub fn Max() -> (r: Family)
        ensures
            r.mask == 0b1000000u8,
            forall|p: int| #[trigger] r.has(p) <==> p == 6,
    {
        proof {
            assert forall|p: int| #[trigger] (Family { mask: 0b1000000u8 }).has(p) <==> p == 6 by {
                if 0 <= p < 7 {
                    let q = p as u8;
                    assert(q < 7 ==> (bit_at(0b1000000u8, q) <==> q == 6u8)) by (bit_vector);
                }
            }
        }
        Family { mask: 0b1000000 }
    }

    /// Whether ring position `p` belongs to the set.
    pub open spec fn has(self, p: int) -> bool {
        0 <= p < 7 && bit_at(self.mask, p as u8)
    }

    /// The set holds at least one ring position.
    pub open spec fn on_ring(self) -> bool {
        exists|p: int| #[trigger] self.has(p)
    }

    /// Some position of `self` lies within `d` steps of some position of `other`.
    pub open spec fn near(self, other: Family, d: int) -> bool {
        exists|p: int, q: int| self.has(p) && other.has(q) && #[trigger] ring_gap(p, q) <= d
    }

    /// `n` is the least number of steps between a position of `self` and one of `other`.
    pub open spec fn is_distance(self, other: Family, n: int) -> bool {
        &&& 0 <= n
        &&& self.near(other, n)
        &&& forall|d: int| 0 <= d < n ==> !#[trigger] self.near(other, d)
    }

    /// The set holding exactly the positions of both operands.
    pub open spec fn union_of(self, other: Family) -> Family {
        Family { mask: self.mask | other.mask }
    }

    /// The raw mask, as stored.
    pub fn bits(&self) -> (r: u8)
        ensures
            r == self.mask,
    {
        self.mask
    }

    /// The union of the two sets; neither operand changes.
    pub fn add(&self, new: Self) -> (r: Self)
        ensures
            r == self.union_of(new),
    {
        Family { mask: self.mask | new.mask }
    }

    /// Rotates the ring one step down: position 0 wraps to 6. The eighth bit stays.
    pub fn r_shift(&mut self)
        ensures
            final(self).mask & 0x80u8 == old(self).mask & 0x80u8,
            forall|x: int| 0 <= x < 7 ==> #[trigger] final(self).has(x) == old(self).has((x + 1) % 7),
    {
        let m = self.mask;
        let n = (m & 0x80u8) | ((m & 0x7fu8) >> 1u8) | ((m & 1u8) << 6u8);
        proof {
            lemma_rotr_bits(m, n);
            assert forall|x: int| 0 <= x < 7 implies #[trigger] (Family { mask: n }).has(x) == (
            Family { mask: m }).has((x + 1) % 7) by {
                if x < 6 {
                    assert(bit_at(n, x as u8) == bit_at(m, (x as u8 + 1) as u8));
                }
            }
        }
        self.mask = n;
    }

    /// Rotates the ring one step up: position 6 wraps to 0. The eighth bit stays.
    pub fn l_shift(&mut self)
        ensures
            final(self).mask & 0x80u8 == old(self).mask & 0x80u8,
            forall|x: int| 0 <= x < 7 ==> #[trigger] final(self).has(x) == old(self).has((x + 6) % 7),
    {
        let m = self.mask;
        let n = (m & 0x80u8) | ((m << 1u8) & 0x7fu8) | ((m >> 6u8) & 1u8);
        proof {
            lemma_rotl_bits(m, n);
            assert forall|x: int| 0 <= x < 7 implies #[trigger] (Family { mask: n }).has(x) == (
            Family { mask: m }).has((x + 6) % 7) by {
                if x >= 1 {
                    assert(bit_at(n, ((x - 1) as u8 + 1) as u8) == bit_at(m, (x - 1) as u8));
                }
            }
        }
        self.mask = n;
    }

    /// The least number of ring steps between a position of `self` and one of
    /// `family`, found by rotating copies of `self` both ways until one meets
    /// `family`. Both sets must hold a ring position: an empty one is never met.
    pub fn distance(&self, family: Self) -> (r: usize)
        requires
            self.on_ring(),
            family.on_ring(),
        ensures
            self.is_distance(family, r as int),
            r <= 3,
    {
        let mut i: usize = 0;
        let mut l = Family { mask: self.mask & 0x7fu8 };
        let m = self.mask;
        proof {
            assert((m & 0x7fu8) & 0x80u8 == 0) by (bit_vector);
            assert forall|x: int| 0 <= x < 7 implies #[trigger] l.has(x) == self.has(x) by {
                let q = x as u8;
                assert(q < 7 ==> bit_at(m & 0x7fu8, q) == bit_at(m, q)) by (bit_vector);
            }
        }
        let mut r = l;
        loop
            invariant
                i <= 3,
                l.mask & 0x80u8 == 0,
                r.mask & 0x80u8 == 0,
                self.on_ring(),
                family.on_ring(),
                search_state(*self, l, r, i as int),
                forall|d: int| 0 <= d < i ==> !#[trigger] self.near(family, d),
            decreases 4 - i,
        {
            let hit_l = l.satisfy(family);
            let hit_r = r.satisfy(family);
            proof {
                lemma_meet(l, family);
                lemma_meet(r, family);
            }
            if hit_l || hit_r {
                proof {
                    lemma_search_hit(*self, family, l, r, i as int);
                }
                return i;
            }
            proof {
                lemma_search_miss(*self, family, l, r, i as int);
            }
            let ghost l0 = l;
            let ghost r0 = r;
            l.l_shift();
            r.r_shift();
            i = i + 1;
            proof {
                lemma_search_step(*self, l0, l, r0, r, (i - 1) as int);
            }
        }
    }

    /// Whether the two sets share a bit.
    pub fn satisfy(&self, family: Self) -> (r: bool)
        ensures
            r == (self.mask & family.mask != 0),
    {
        self.mask & family.mask != 0
    }
}

/// A mask read back from storage keeps every bit, the eighth included.
impl From<u8> for Family {
    fn from(item: u8) -> Family {
        Family { mask: item }
    }
}

impl vstd::std_specs::convert::FromSpecImpl<u8> for Family {
    open spec fn obeys_from_spec() -> bool {
        true
    }

    open spec fn from_spec(v: u8) -> Family {
        Family { mask: v }
    }
}

/// The family holding ring position `p` alone.
pub open spec fn single(p: int) -> Family {
    Family { mask: 1u8 << (p as u8) }
}

/// The positions of a single-bit family.
proof fn lemma_single_has(p: int)
    requires
        0 <= p < 7,
    ensures
        forall|x: int| #[trigger] single(p).has(x) <==> x == p,
{
    let b = p as u8;
    assert forall|x: int| #[trigger] single(p).has(x) <==> x == p by {
        if 0 <= x < 7 {
            let y = x as u8;
            assert(b < 7 && y < 7 ==> (bit_at(1u8 << b, y) <==> y == b)) by (bit_vector);
        }
    }
}

/// Distance is symmetric: `n` is the distance from `a` to `b` exactly when it
/// is the distance from `b` to `a`.
pub proof fn lemma_distance_symmetric(a: Family, b: Family, n: int)
    ensures
        a.is_distance(b, n) == b.is_distance(a, n),
{
    assert forall|d: int| #![trigger a.near(b, d)] #![trigger b.near(a, d)] a.near(b, d) == b.near(a, d) by {
        if a.near(b, d) {
            let (p, q) = choose|p: int, q: int| a.has(p) && b.has(q) && #[trigger] ring_gap(p, q) <= d;
            assert(ring_gap(q, p) == ring_gap(p, q));
        }
        if b.near(a, d) {
            let (p, q) = choose|p: int, q: int| b.has(p) && a.has(q) && #[trigger] ring_gap(p, q) <= d;
            assert(ring_gap(q, p) == ring_gap(p, q));
        }
    }
}

/// A family with a ring position is at distance zero from itself.
pub proof fn lemma_distance_to_self(a: Family)
    requires
        a.on_ring(),
    ensures
        a.is_distance(a, 0),
{
    let p = choose|p: int| #[trigger] a.has(p);
    assert(ring_gap(p, p) == 0);
}

/// Between two single-bit families the distance is the number of ring steps
/// between their positions, the same both ways, and zero from one to itself.
pub proof fn lemma_single_distance(p: int, q: int)
    requires
        0 <= p < 7,
        0 <= q < 7,
    ensures
        single(p).is_distance(single(q), ring_gap(p, q)),
        single(q).is_distance(single(p), ring_gap(p, q)),
        single(p).is_distance(single(p), 0),
{
    lemma_single_has(p);
    lemma_single_has(q);
    assert(ring_gap(p, q) <= ring_gap(p, q));
    assert(single(p).near(single(q), ring_gap(p, q)));
    lemma_distance_symmetric(single(p), single(q), ring_gap(p, q));
    assert(single(p).has(p));
    lemma_distance_to_self(single(p));
}

/// A distance of `n` is at most `t` exactly when the two families lie within
/// `t` steps of each other.
pub proof fn lemma_distance_within(a: Family, b: Family, n: int, t: int)
    requires
        a.is_distance(b, n),
        0 <= t,
    ensures
        (n <= t) == a.near(b, t),
{
    if n <= t {
        let (p, q) = choose|p: int, q: int| a.has(p) && b.has(q) && #[trigger] ring_gap(p, q) <= n;
        assert(ring_gap(p, q) <= t);
    } else {
        assert(!a.near(b, t));
    }
}

/// Union is idempotent, commutative and associative.
pub proof fn lemma_union_laws(a: Family, b: Family, c: Family)
    ensures
        a.union_of(a) == a,
        a.union_of(b) == b.union_of(a),
        a.union_of(b).union_of(c) == a.union_of(b.union_of(c)),
{
    let (x, y, z) = (a.mask, b.mask, c.mask);
    assert(x | x == x) by (bit_vector);
    assert(x | y == y | x) by (bit_vector);
    assert((x | y) | z == x | (y | z)) by (bit_vector);
}

/// Bits of a left rotation: each ring position moves one step up, position 6 to 0.
proof fn lemma_rotl_bits(m: u8, n: u8)
    requires
        n == (m & 0x80u8) | ((m << 1u8) & 0x7fu8) | ((m >> 6u8) & 1u8),
    ensures
        n & 0x80u8 == m & 0x80u8,
        bit_at(n, 0) == bit_at(m, 6),
        forall|q: u8| q < 6 ==> bit_at(n, (q + 1) as u8) == #[trigger] bit_at(m, q),
{
    assert(n & 0x80u8 == m & 0x80u8) by (bit_vector)
        requires
            n == (m & 0x80u8) | ((m << 1u8) & 0x7fu8) | ((m >> 6u8) & 1u8),
    ;
    assert(bit_at(n, 0) == bit_at(m, 6)) by (bit_vector)
        requires
            n == (m & 0x80u8) | ((m << 1u8) & 0x7fu8) | ((m >> 6u8) & 1u8),
    ;
    assert forall|q: u8| q < 6 implies bit_at(n, (q + 1) as u8) == #[trigger] bit_at(m, q) by {
        assert(q < 6 ==> bit_at(n, (q + 1) as u8) == bit_at(m, q)) by (bit_vector)
            requires
                n == (m & 0x80u8) | ((m << 1u8) & 0x7fu8) | ((m >> 6u8) & 1u8),
        ;
    }
}

/// Bits of a right rotation: each ring position moves one step down, position 0 to 6.
proof fn lemma_rotr_bits(m: u8, n: u8)
    requires
        n == (m & 0x80u8) | ((m & 0x7fu8) >> 1u8) | ((m & 1u8) << 6u8),
    ensures
        n & 0x80u8 == m & 0x80u8,
        bit_at(n, 6) == bit_at(m, 0),
        forall|q: u8| q < 6 ==> #[trigger] bit_at(n, q) == bit_at(m, (q + 1) as u8),
{
    assert(n & 0x80u8 == m & 0x80u8) by (bit_vector)
        requires
            n == (m & 0x80u8) | ((m & 0x7fu8) >> 1u8) | ((m & 1u8) << 6u8),
    ;
    assert(bit_at(n, 6) == bit_at(m, 0)) by (bit_vector)
        requires
            n == (m & 0x80u8) | ((m & 0x7fu8) >> 1u8) | ((m & 1u8) << 6u8),
    ;
    assert forall|q: u8| q < 6 implies #[trigger] bit_at(n, q) == bit_at(m, (q + 1) as u8) by {
        assert(q < 6 ==> bit_at(n, q) == bit_at(m, (q + 1) as u8)) by (bit_vector)
            requires
                n == (m & 0x80u8) | ((m & 0x7fu8) >> 1u8) | ((m & 1u8) << 6u8),
        ;
    }
}

/// Two sets whose first has no eighth bit meet exactly when they share a ring position.
proof fn lemma_meet(a: Family, b: Family)
    requires
        a.mask & 0x80u8 == 0,
    ensures
        (a.mask & b.mask != 0) == exists|q: int| a.has(q) && #[trigger] b.has(q),
{
    let x = a.mask;
    let y = b.mask;
    assert forall|q: u8| q < 7 && bit_at(x, q) && bit_at(y, q) implies (x & y != 0) by {
        assert(q < 7 && bit_at(x, q) && bit_at(y, q) ==> (x & y != 0)) by (bit_vector);
    }
    if x & y != 0 {
        assert(
            (bit_at(x, 0) && bit_at(y, 0)) || (bit_at(x, 1) && bit_at(y, 1))
            || (bit_at(x, 2) && bit_at(y, 2)) || (bit_at(x, 3) && bit_at(y, 3))
            || (bit_at(x, 4) && bit_at(y, 4)) || (bit_at(x, 5) && bit_at(y, 5))
            || (bit_at(x, 6) && bit_at(y, 6))
        ) by (bit_vector)
            requires
                x & y != 0,
                x & 0x80u8 == 0,
        ;
        if bit_at(x, 0) && bit_at(y, 0) {
            assert(a.has(0) && b.has(0));
        } else if bit_at(x, 1) && bit_at(y, 1) {
            assert(a.has(1) && b.has(1));
        } else if bit_at(x, 2) && bit_at(y, 2) {
            assert(a.has(2) && b.has(2));
        } else if bit_at(x, 3) && bit_at(y, 3) {
            assert(a.has(3) && b.has(3));
        } else if bit_at(x, 4) && bit_at(y, 4) {
            assert(a.has(4) && b.has(4));
        } else if bit_at(x, 5) && bit_at(y, 5) {
            assert(a.has(5) && b.has(5));
        } else {
            assert(a.has(6) && b.has(6));
        }
    }
    if exists|q: int| a.has(q) && #[trigger] b.has(q) {
        let q = choose|q: int| a.has(q) && #[trigger] b.has(q);
        assert(bit_at(x, q as u8) && bit_at(y, q as u8));
    }
}

/// The rotated copies of `a` after `i` steps of the search, as ring positions.
pub open spec fn search_state(a: Family, l: Family, r: Family, i: int) -> bool {
    &&& forall|x: int| 0 <= x < 7 ==> #[trigger] l.has(x) == a.has((x + 7 - i) % 7)
    &&& forall|x: int| 0 <= x < 7 ==> #[trigger] r.has(x) == a.has((x + i) % 7)
}

/// A rotated copy that meets `b` after `i` steps shows `a` within `i` steps of `b`.
proof fn lemma_search_hit(a: Family, b: Family, l: Family, r: Family, i: int)
    requires
        0 <= i <= 3,
        search_state(a, l, r, i),
        (exists|q: int| l.has(q) && #[trigger] b.has(q)) || (exists|q: int| r.has(q) && #[trigger] b.has(q)),
    ensures
        a.near(b, i),
{
    if exists|q: int| l.has(q) && #[trigger] b.has(q) {
        let x = choose|x: int| l.has(x) && #[trigger] b.has(x);
        let p = (x + 7 - i) % 7;
        if x >= i {
            assert(p == x - i);
        } else {
            assert(p == x + 7 - i);
            assert((p + i) % 7 == x);
        }
        lemma_walk_gap(p, x, i);
        assert(a.has(p));
        assert(ring_gap(p, x) <= i);
    } else {
        let x = choose|x: int| r.has(x) && #[trigger] b.has(x);
        let p = (x + i) % 7;
        if x + i < 7 {
            assert(p == x + i);
        } else {
            assert(p == x + i - 7);
        }
        lemma_walk_gap(p, x, i);
        assert(a.has(p));
        assert(ring_gap(p, x) <= i);
    }
}

/// When neither rotated copy meets `b` after `i` steps, `a` is not within `i`
/// steps of `b`, and the search has not passed the half ring.
proof fn lemma_search_miss(a: Family, b: Family, l: Family, r: Family, i: int)
    requires
        0 <= i <= 3,
        a.on_ring(),
        b.on_ring(),
        search_state(a, l, r, i),
        forall|d: int| 0 <= d < i ==> !#[trigger] a.near(b, d),
        !exists|q: int| l.has(q) && #[trigger] b.has(q),
        !exists|q: int| r.has(q) && #[trigger] b.has(q),
    ensures
        !a.near(b, i),
        i < 3,
{
    assert forall|p: int, q: int| a.has(p) && b.has(q) implies #[trigger] ring_gap(p, q) > i by {
        if ring_gap(p, q) <= i {
            if i > 0 {
                assert(!a.near(b, i - 1));
            }
            lemma_gap_walk(p, q, i);
            if q == (p + i) % 7 {
                assert(l.has(q));
            } else {
                assert(r.has(q));
            }
        }
    }
    let p = choose|p: int| #[trigger] a.has(p);
    let q = choose|q: int| #[trigger] b.has(q);
    assert(ring_gap(p, q) > i);
    lemma_gap_walk(p, q, ring_gap(p, q));
}

/// One more rotation of each copy advances the search state by one step.
proof fn lemma_search_step(a: Family, l0: Family, l: Family, r0: Family, r: Family, i: int)
    requires
        0 <= i < 3,
        search_state(a, l0, r0, i),
        forall|x: int| 0 <= x < 7 ==> #[trigger] l.has(x) == l0.has((x + 6) % 7),
        forall|x: int| 0 <= x < 7 ==> #[trigger] r.has(x) == r0.has((x + 1) % 7),
    ensures
        search_state(a, l, r, i + 1),
{
    assert forall|x: int| 0 <= x < 7 implies #[trigger] l.has(x) == a.has((x + 7 - (i + 1)) % 7) by {
        assert(l0.has((x + 6) % 7) == a.has(((x + 6) % 7 + 7 - i) % 7));
    }
    assert forall|x: int| 0 <= x < 7 implies #[trigger] r.has(x) == a.has((x + (i + 1)) % 7) by {
        assert(r0.has((x + 1) % 7) == a.has(((x + 1) % 7 + i) % 7));
    }
}

/// A position reached by walking `i` steps from `p` is at most `i` steps away.
proof fn lemma_walk_gap(p: int, q: int, i: int)
    requires
        0 <= p < 7,
        0 <= q < 7,
        0 <= i <= 3,
        q == (p + i) % 7 || p == (q + i) % 7,
    ensures
        ring_gap(p, q) <= i,
{
}

/// Positions `i` steps apart are reached from one another by walking `i` steps.
proof fn lemma_gap_walk(p: int, q: int, i: int)
    requires
        0 <= p < 7,
        0 <= q < 7,
        ring_gap(p, q) == i,
    ensures
        0 <= i <= 3,
        q == (p + i) % 7 || p == (q + i) % 7,
{
}

} // verus!
