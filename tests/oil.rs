use aroma_blend::family::Family;
use aroma_blend::note::Note;
use aroma_blend::note::SimpleNote;
use aroma_blend::note::Strength;
use aroma_blend::oil::EssentialOil;

fn oil(name: &str, note: Note, family: Family, strength: Strength) -> EssentialOil {
    EssentialOil::new(uuid::Uuid::new_v4(), name, note, family, strength, 50)
}

#[test]
fn test_calc_distance() {
    let c = Family::Citrus();
    let h = Family::Herball();
    let e = Family::Earthy();

    assert_eq!(c.distance(h), 2);
    assert_eq!(c.distance(e), 1);

    let brend_e_h = e.add(h);
    assert_eq!(brend_e_h.distance(c), 1);
    assert_eq!(brend_e_h.distance(e), 0);
}

#[test]
fn test_blend_oils() {
    let c = EssentialOil::new(
        uuid::Uuid::new_v4(),
        "test_c",
        Note::TopAndMiddle,
        Family::Citrus(),
        Strength::Week,
        50,
    );
    let h = EssentialOil::new(
        uuid::Uuid::new_v4(),
        "test_h",
        Note::Simple(SimpleNote::Middle),
        Family::Herball(),
        Strength::Middle,
        50,
    );

    assert_eq!(c.recommended_amount(), 4);
    assert_eq!(h.recommended_amount(), 2);

    let blended = EssentialOil::blend(&c, 2, &h, 3);

    assert_eq!(*blended.missing_notes().get(0).unwrap(), SimpleNote::Base);

    assert_eq!(blended.oils().get(0).unwrap().amount, 2);
    assert_eq!(blended.oils().get(0).unwrap().oil.name, "test_c");
    assert_eq!(blended.oils().get(1).unwrap().amount, 3);
    assert_eq!(blended.oils().get(1).unwrap().oil.name, "test_h");
}

#[test]
fn new_keeps_every_field() {
    let id = uuid::Uuid::new_v4();
    let o = EssentialOil::new(id, "lavender", Note::MiddleAndBase, Family::Froral(), Strength::Strong, 7);
    assert_eq!(o.id, id);
    assert_eq!(o.name, "lavender");
    assert_eq!(o.note, Note::MiddleAndBase);
    assert_eq!(o.family, Family::Froral());
    assert_eq!(o.strength, Strength::Strong);
    assert_eq!(o.remaining_amount, 7);
}

#[test]
fn dosage_follows_strength_alone() {
    let week = oil("a", Note::TopAndMiddle, Family::Spicy(), Strength::Week);
    let middle = oil("b", Note::Simple(SimpleNote::Base), Family::Wood(), Strength::Middle);
    let strong = oil("c", Note::MiddleAndBase, Family::Citrus().add(Family::Resin()), Strength::Strong);
    assert_eq!(week.recommended_amount(), 4);
    assert_eq!(middle.recommended_amount(), 2);
    assert_eq!(strong.recommended_amount(), 1);
    assert_eq!(Strength::Week.recommended_amount(), 4);
    assert_eq!(Strength::Middle.recommended_amount(), 2);
    assert_eq!(Strength::Strong.recommended_amount(), 1);
}

#[test]
fn oil_predicates_delegate() {
    let o = oil("bergamot", Note::TopAndMiddle, Family::Citrus().add(Family::Froral()), Strength::Week);
    assert!(o.satisfy_note(SimpleNote::Top));
    assert!(o.satisfy_note(SimpleNote::Middle));
    assert!(!o.satisfy_note(SimpleNote::Base));
    assert!(o.satisfy_family(Family::Froral()));
    assert!(!o.satisfy_family(Family::Wood()));
    assert!(o.compatible_family(Family::Herball(), 1));
    assert!(!o.compatible_family(Family::Resin(), 2));
    assert!(o.compatible_family(Family::Resin(), 3));
}

#[test]
fn blend_order_and_append() {
    let c = oil("c", Note::TopAndMiddle, Family::Citrus(), Strength::Week);
    let h = oil("h", Note::Simple(SimpleNote::Middle), Family::Herball(), Strength::Middle);
    let w = oil("w", Note::Simple(SimpleNote::Base), Family::Wood(), Strength::Strong);
    let two = EssentialOil::blend(&c, 2, &h, 3);
    let three = two.blend(&w, 5);
    assert_eq!(two.oils().len(), 2);
    assert_eq!(three.oils().len(), 3);
    assert_eq!(three.oils()[0].oil.name, "c");
    assert_eq!(three.oils()[0].amount, 2);
    assert_eq!(three.oils()[1].oil.name, "h");
    assert_eq!(three.oils()[1].amount, 3);
    assert_eq!(three.oils()[2].oil.name, "w");
    assert_eq!(three.oils()[2].amount, 5);
    assert_eq!(three.oils()[0].oil.id, c.id);
}

#[test]
fn missing_notes_exact_list() {
    let c = oil("c", Note::TopAndMiddle, Family::Citrus(), Strength::Week);
    let h = oil("h", Note::Simple(SimpleNote::Middle), Family::Herball(), Strength::Middle);
    assert_eq!(EssentialOil::blend(&c, 2, &h, 3).missing_notes(), vec![SimpleNote::Base]);

    let m = oil("m", Note::Simple(SimpleNote::Middle), Family::Wood(), Strength::Middle);
    assert_eq!(
        EssentialOil::blend(&h, 1, &m, 1).missing_notes(),
        vec![SimpleNote::Top, SimpleNote::Base]
    );
}

#[test]
fn missing_notes_three_members() {
    let m = oil("m", Note::Simple(SimpleNote::Middle), Family::Wood(), Strength::Middle);
    let t = oil("t", Note::Simple(SimpleNote::Top), Family::Citrus(), Strength::Week);
    let b = oil("b", Note::MiddleAndBase, Family::Resin(), Strength::Strong);
    let blend = EssentialOil::blend(&m, 1, &t, 1).blend(&b, 1);
    assert_eq!(blend.missing_notes(), Vec::<SimpleNote>::new());
    let only_middle = EssentialOil::blend(&m, 1, &m, 2).blend(&m, 3);
    assert_eq!(only_middle.missing_notes(), vec![SimpleNote::Top, SimpleNote::Base]);
}

#[test]
fn blend_compatible_if_any_member_close() {
    let c = oil("c", Note::TopAndMiddle, Family::Citrus(), Strength::Week);
    let e = oil("e", Note::Simple(SimpleNote::Base), Family::Earthy(), Strength::Middle);
    assert!(!e.compatible_family(Family::Citrus(), 0));
    let blend = EssentialOil::blend(&c, 1, &e, 1);
    assert!(blend.compatible_family(Family::Citrus(), 0));
    let w = oil("w", Note::Simple(SimpleNote::Base), Family::Wood(), Strength::Middle);
    let far = EssentialOil::blend(&e, 1, &c, 1).blend(&w, 1);
    assert!(!far.compatible_family(Family::Resin(), 0));
    assert!(far.compatible_family(Family::Resin(), 1));
}
