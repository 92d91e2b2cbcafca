//! Essential oils and the blends made of them.
use vstd::prelude::*;
use crate::family::Family;
use crate::family::lemma_distance_within;
use crate::note::Note;
use crate::note::SimpleNote;
use crate::note::Strength;

verus! {

/// uuid::Uuid, carried as the opaque identity of an oil.
#[verifier::external_type_specification]
#[verifier::external_body]
pub struct ExUuid(uuid::Uuid);

/// Relies on uuid::Uuid's derived Clone; the type is also Copy, so the clone
/// is the same identity.
pub assume_specification[ <uuid::Uuid as Clone>::clone ](u: &uuid::Uuid) -> (r: uuid::Uuid)
    ensures
        r == *u,
;

/// An essential oil: identity, name, note, families, potency and what is left of it.
#[derive(Clone, Debug)]
pub struct EssentialOil {
    pub id: uuid::Uuid,
    pub name: String,
    pub note: Note,
    pub family: Family,
    pub strength: Strength,
    pub remaining_amount: u8,
}

/// One oil of a blend with the amount of it that goes in.
#[derive(Clone, Debug)]
pub struct BlendedElement {
    pub oil: EssentialOil,
    pub amount: u8,
}

/// An ordered, append-only composition of oils; it holds at least two.
#[derive(Debug)]
pub struct BlendedOil {
    oils: Vec<BlendedElement>,
}

/// An equal copy of an oil.
pub(crate) fn copy_oil(o: &EssentialOil) -> (r: EssentialOil)
    ensures
        r == *o,
{
    EssentialOil {
        id: o.id,
        name: o.name.clone(),
        note: o.note,
        family: o.family,
        strength: o.strength,
        remaining_amount: o.remaining_amount,
    }
}

impl EssentialOil {
    pub fn new(
        id: uuid::Uuid,
        name: &str,
        note: Note,
        family: Family,
        strength: Strength,
        remaining_amount: u8,
    ) -> (r: Self)
        ensures
            r.id == id,
            r.name@ == name@,
            r.note == note,
            r.family == family,
            r.strength == strength,
            r.remaining_amount == remaining_amount,
    {
        EssentialOil { id, name: name.to_string(), note, family, strength, remaining_amount }
    }

    pub fn satisfy_note(&self, note: SimpleNote) -> (r: bool)
        ensures
            r == self.note.covers(note),
    {
        self.note.satisfy(note)
    }

    pub fn satisfy_family(&self, family: Family) -> (r: bool)
        ensures
            r == (self.family.mask & family.mask != 0),
    {
        self.family.satisfy(family)
    }

    /// Whether the oil's families lie within `threshold` ring steps of `family`.
    pub fn compatible_family(&self, family: Family, threshold: usize) -> (r: bool)
        requires
            self.family.on_ring(),
            family.on_ring(),
        ensures
            r == self.family.near(family, threshold as int),
    {
        let d = self.family.distance(family);
        proof {
            lemma_distance_within(self.family, family, d as int, threshold as int);
        }
        d <= threshold
    }

    /// A blend of two oils, `lhs` first.
    pub fn blend(lhs: &Self, left_amount: u8, rhs: &Self, right_amount: u8) -> (r: BlendedOil)
        ensures
            r@ == seq![
                (BlendedElement { oil: *lhs, amount: left_amount }),
                (BlendedElement { oil: *rhs, amount: right_amount }),
            ],
    {
        let mut oils: Vec<BlendedElement> = Vec::new();
        oils.push(BlendedElement { oil: copy_oil(lhs), amount: left_amount });
        oils.push(BlendedElement { oil: copy_oil(rhs), amount: right_amount });
        let r = BlendedOil { oils };
        proof {
            assert(r@ =~= seq![
                (BlendedElement { oil: *lhs, amount: left_amount }),
                (BlendedElement { oil: *rhs, amount: right_amount }),
            ]);
        }
        r
    }

    pub fn recommended_amount(&self) -> (r: u8)
        ensures
            r == self.strength.drops(),
    {
        self.strength.recommended_amount()
    }
}

impl View for BlendedOil {
    type V = Seq<BlendedElement>;

    closed spec fn view(&self) -> Seq<BlendedElement> {
        self.oils@
    }
}

/// A blend of two oils holds them first and second with their amounts, and
/// appending an oil to it keeps those two in place and adds the new one last.
pub proof fn lemma_blend_order(
    lhs: EssentialOil,
    left_amount: u8,
    rhs: EssentialOil,
    right_amount: u8,
    oil: EssentialOil,
    amount: u8,
)
    ensures
        ({
            let two = seq![
                (BlendedElement { oil: lhs, amount: left_amount }),
                (BlendedElement { oil: rhs, amount: right_amount }),
            ];
            let three = two.push(BlendedElement { oil, amount });
            &&& two.len() == 2
            &&& two[0].oil == lhs && two[0].amount == left_amount
            &&& two[1].oil == rhs && two[1].amount == right_amount
            &&& three.len() == 3
            &&& three[0] == two[0] && three[1] == two[1]
            &&& three[2].oil == oil && three[2].amount == amount
        }),
{
}

/// Whether some oil among `elems` is perceived in phase `n`.
pub open spec fn covered(elems: Seq<BlendedElement>, n: SimpleNote) -> bool {
    exists|k: int| 0 <= k < elems.len() && #[trigger] elems[k].oil.note.phases().contains(n)
}

/// The phases, in the order Top, Middle, Base, that no oil among `elems` covers.
pub open spec fn uncovered(elems: Seq<BlendedElement>) -> Seq<SimpleNote> {
    (if covered(elems, SimpleNote::Top) { seq![] } else { seq![SimpleNote::Top] })
        + (if covered(elems, SimpleNote::Middle) { seq![] } else { seq![SimpleNote::Middle] })
        + (if covered(elems, SimpleNote::Base) { seq![] } else { seq![SimpleNote::Base] })
}

/// The three flags with the phases of `phases` added.
fn mark(phases: &Vec<SimpleNote>, top: bool, middle: bool, base: bool) -> (r: (bool, bool, bool))
    ensures
        r.0 == (top || phases@.contains(SimpleNote::Top)),
        r.1 == (middle || phases@.contains(SimpleNote::Middle)),
        r.2 == (base || phases@.contains(SimpleNote::Base)),
{
    let mut t = top;
    let mut m = middle;
    let mut b = base;
    let mut j: usize = 0;
    while j < phases.len()
        invariant
            j <= phases@.len(),
            t == (top || phases@.take(j as int).contains(SimpleNote::Top)),
            m == (middle || phases@.take(j as int).contains(SimpleNote::Middle)),
            b == (base || phases@.take(j as int).contains(SimpleNote::Base)),
        decreases phases@.len() - j,
    {
        let ghost before = phases@.take(j as int);
        proof {
            let after = phases@.take(j as int + 1);
            assert(after =~= before.push(phases@[j as int]));
            assert forall|n: SimpleNote| after.contains(n) == (before.contains(n) || phases@[j as int] == n) by {
                if before.contains(n) {
                    let k = choose|k: int| 0 <= k < before.len() && before[k] == n;
                    assert(after[k] == n);
                }
                if phases@[j as int] == n {
                    assert(after[j as int] == n);
                }
                if after.contains(n) {
                    let k = choose|k: int| 0 <= k < after.len() && after[k] == n;
                    if k < j {
                        assert(before[k] == n);
                    }
                }
            }
        }
        match phases[j] {
            SimpleNote::Top => t = true,
            SimpleNote::Middle => m = true,
            SimpleNote::Base => b = true,
        }
        j = j + 1;
    }
    proof {
        assert(phases@.take(j as int) =~= phases@);
    }
    (t, m, b)
}

impl BlendedOil {
    #[verifier::type_invariant]
    spec fn holds_two(&self) -> bool {
        self.oils@.len() >= 2
    }

    /// The oils of the blend, in the order they were added.
    pub fn oils(&self) -> (r: &Vec<BlendedElement>)
        ensures
            r@ == self@,
    {
        &self.oils
    }

    /// Whether some oil of the blend has its families within `threshold` ring
    /// steps of `family`: the least distance over the oils is at most `threshold`.
    pub fn compatible_family(&self, family: Family, threshold: usize) -> (r: bool)
        requires
            family.on_ring(),
            forall|k: int| 0 <= k < self@.len() ==> (#[trigger] self@[k]).oil.family.on_ring(),
        ensures
            r == exists|k: int|
                0 <= k < self@.len() && (#[trigger] self@[k]).oil.family.near(family, threshold as int),
    {
        proof {
            use_type_invariant(self);
        }
        let ghost t = threshold as int;
        let mut best = self.oils[0].oil.family.distance(family);
        let ghost mut at: int = 0;
        let mut i: usize = 1;
        while i < self.oils.len()
            invariant
                1 <= i <= self@.len(),
                self@ == self.oils@,
                family.on_ring(),
                forall|k: int| 0 <= k < self@.len() ==> (#[trigger] self@[k]).oil.family.on_ring(),
                0 <= at < i,
                self@[at].oil.family.is_distance(family, best as int),
                forall|k: int, d: int|
                    0 <= k < i && 0 <= d < best ==> !#[trigger] self@[k].oil.family.near(family, d),
            decreases self@.len() - i,
        {
            let d = self.oils[i].oil.family.distance(family);
            if d < best {
                best = d;
                proof {
                    at = i as int;
                }
            }
            i = i + 1;
        }
        proof {
            lemma_distance_within(self@[at].oil.family, family, best as int, t);
            if best > threshold {
                assert forall|k: int| 0 <= k < self@.len() implies !(#[trigger] self@[k]).oil.family.near(family, t) by {
                    assert(t < best);
                }
            }
        }
        best <= threshold
    }

    /// A new blend: the oils of `self`, then `oil` with `amount`. `self` is unchanged.
    pub fn blend(&self, oil: &EssentialOil, amount: u8) -> (r: BlendedOil)
        ensures
            r@ == self@.push(BlendedElement { oil: *oil, amount }),
    {
        proof {
            use_type_invariant(self);
        }
        let mut oils: Vec<BlendedElement> = Vec::new();
        let mut i: usize = 0;
        while i < self.oils.len()
            invariant
                i <= self@.len(),
                self@ == self.oils@,
                oils@ == self@.take(i as int),
            decreases self@.len() - i,
        {
            let e = &self.oils[i];
            oils.push(BlendedElement { oil: copy_oil(&e.oil), amount: e.amount });
            proof {
                assert(oils@ =~= self@.take(i as int + 1));
            }
            i = i + 1;
        }
        proof {
            assert(oils@ =~= self@);
        }
        oils.push(BlendedElement { oil: copy_oil(oil), amount });
        BlendedOil { oils }
    }

    /// The phases, in the order Top, Middle, Base, that no oil of the blend covers.
    pub fn missing_notes(&self) -> (r: Vec<SimpleNote>)
        ensures
            r@ == uncovered(self@),
    {
        let mut top = false;
        let mut middle = false;
        let mut base = false;
        let mut i: usize = 0;
        while i < self.oils.len()
            invariant
                i <= self@.len(),
                self@ == self.oils@,
                top == covered(self@.take(i as int), SimpleNote::Top),
                middle == covered(self@.take(i as int), SimpleNote::Middle),
                base == covered(self@.take(i as int), SimpleNote::Base),
            decreases self@.len() - i,
        {
            let phases = self.oils[i].oil.note.simplify();
            let (t, m, b) = mark(&phases, top, middle, base);
            proof {
                let s = self@.take(i as int);
                let s1 = self@.take(i as int + 1);
                assert(s1 =~= s.push(self@[i as int]));
                assert forall|n: SimpleNote| covered(s1, n) == (covered(s, n) || self@[i as int].oil.note.phases().contains(n)) by {
                    if covered(s, n) {
                        let k = choose|k: int| 0 <= k < s.len() && #[trigger] s[k].oil.note.phases().contains(n);
                        assert(s1[k] == s[k]);
                    }
                    if self@[i as int].oil.note.phases().contains(n) {
                        assert(s1[i as int] == self@[i as int]);
                    }
                    if covered(s1, n) {
                        let k = choose|k: int| 0 <= k < s1.len() && #[trigger] s1[k].oil.note.phases().contains(n);
                        if k < i {
                            assert(s[k] == s1[k]);
                        }
                    }
                }
            }
            top = t;
            middle = m;
            base = b;
            i = i + 1;
        }
        proof {
            assert(self@.take(i as int) =~= self@);
        }
        let mut r: Vec<SimpleNote> = Vec::new();
        if !top {
            r.push(SimpleNote::Top);
        }
        if !middle {
            r.push(SimpleNote::Middle);
        }
        if !base {
            r.push(SimpleNote::Base);
        }
        proof {
            assert(r@ =~= uncovered(self@));
        }
        r
    }
}

} // verus!
