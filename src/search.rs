//! A linear search over a collection of oils by note, by family and by
//! closeness of family.
use vstd::prelude::*;
use crate::family::Family;
use crate::note::SimpleNote;
use crate::oil::EssentialOil;
use crate::oil::copy_oil;

verus! {

/// The oils of `oils` perceived in phase `note`, in their order.
pub open spec fn with_note(oils: Seq<EssentialOil>, note: SimpleNote) -> Seq<EssentialOil> {
    oils.filter(|o: EssentialOil| o.note.covers(note))
}

/// The oils of `oils` that share a family bit with `family`, in their order.
pub open spec fn with_family(oils: Seq<EssentialOil>, family: Family) -> Seq<EssentialOil> {
    oils.filter(|o: EssentialOil| o.family.mask & family.mask != 0)
}

/// The oils of `oils` whose families lie within `threshold` ring steps of
/// `family`, in their order.
pub open spec fn near_family(oils: Seq<EssentialOil>, family: Family, threshold: int) -> Seq<
    EssentialOil,
> {
    oils.filter(|o: EssentialOil| o.family.near(family, threshold))
}

/// A collection of oils to search.
pub struct Blender {
    oils: Vec<EssentialOil>,
}

impl View for Blender {
    type V = Seq<EssentialOil>;

    closed spec fn view(&self) -> Seq<EssentialOil> {
        self.oils@
    }
}

impl Blender {
    pub fn new(oils: Vec<EssentialOil>) -> (r: Self)
        ensures
            r@ == oils@,
    {
        Blender { oils }
    }

    pub fn search_by_note(&self, note: SimpleNote) -> (r: Vec<EssentialOil>)
        ensures
            r@ == with_note(self@, note),
    {
        let mut r: Vec<EssentialOil> = Vec::new();
        let mut i: usize = 0;
        while i < self.oils.len()
            invariant
                i <= self@.len(),
                self@ == self.oils@,
                r@ == with_note(self@.take(i as int), note),
            decreases self@.len() - i,
        {
            let o = &self.oils[i];
            proof {
                assert(self@.take(i as int + 1) =~= self@.take(i as int).push(*o));
                self@.take(i as int).lemma_filter_push(*o, |o: EssentialOil| o.note.covers(note));
            }
            if o.satisfy_note(note) {
                r.push(copy_oil(o));
            }
            i = i + 1;
        }
        proof {
            assert(self@.take(i as int) =~= self@);
        }
        r
    }

    pub fn search_by_family(&self, family: Family) -> (r: Vec<EssentialOil>)
        ensures
            r@ == with_family(self@, family),
    {
        let mut r: Vec<EssentialOil> = Vec::new();
        let mut i: usize = 0;
        while i < self.oils.len()
            invariant
                i <= self@.len(),
                self@ == self.oils@,
                r@ == with_family(self@.take(i as int), family),
            decreases self@.len() - i,
        {
            let o = &self.oils[i];
            proof {
                assert(self@.take(i as int + 1) =~= self@.take(i as int).push(*o));
                self@.take(i as int).lemma_filter_push(
                    *o,
                    |o: EssentialOil| o.family.mask & family.mask != 0,
                );
            }
            if o.satisfy_family(family) {
                r.push(copy_oil(o));
            }
            i = i + 1;
        }
        proof {
            assert(self@.take(i as int) =~= self@);
        }
        r
    }

    pub fn search_by_similar(&self, family: Family, threshold: usize) -> (r: Vec<EssentialOil>)
        requires
            family.on_ring(),
            forall|k: int| 0 <= k < self@.len() ==> (#[trigger] self@[k]).family.on_ring(),
        ensures
            r@ == near_family(self@, family, threshold as int),
    {
        let mut r: Vec<EssentialOil> = Vec::new();
        let mut i: usize = 0;
        while i < self.oils.len()
            invariant
                i <= self@.len(),
                self@ == self.oils@,
                family.on_ring(),
                forall|k: int| 0 <= k < self@.len() ==> (#[trigger] self@[k]).family.on_ring(),
                r@ == near_family(self@.take(i as int), family, threshold as int),
            decreases self@.len() - i,
        {
            let o = &self.oils[i];
            proof {
                assert(self@.take(i as int + 1) =~= self@.take(i as int).push(*o));
                self@.take(i as int).lemma_filter_push(
                    *o,
                    |o: EssentialOil| o.family.near(family, threshold as int),
                );
            }
            if o.compatible_family(family, threshold) {
                r.push(copy_oil(o));
            }
            i = i + 1;
        }
        proof {
            assert(self@.take(i as int) =~= self@);
        }
        r
    }
}

} // verus!
