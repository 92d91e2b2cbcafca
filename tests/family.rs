use aroma_blend::family::Family;

fn ring() -> Vec<Family> {
    vec![
        Family::Citrus(),
        Family::Froral(),
        Family::Herball(),
        Family::Wood(),
        Family::Resin(),
        Family::Spicy(),
        Family::Earthy(),
    ]
}

#[test]
fn single_bit_distance_is_ring_gap() {
    let r = ring();
    for p in 0..7usize {
        for q in 0..7usize {
            let d = if p > q { p - q } else { q - p };
            let gap = if d <= 7 - d { d } else { 7 - d };
            assert_eq!(r[p].distance(r[q]), gap);
            assert_eq!(r[q].distance(r[p]), gap);
        }
        assert_eq!(r[p].distance(r[p]), 0);
    }
}

#[test]
fn distance_exact_values() {
    assert_eq!(Family::Citrus().distance(Family::Wood()), 3);
    assert_eq!(Family::Citrus().distance(Family::Resin()), 3);
    assert_eq!(Family::Froral().distance(Family::Spicy()), 3);
    assert_eq!(Family::Herball().distance(Family::Earthy()), 3);
    let spread = Family::Citrus().add(Family::Resin());
    assert_eq!(spread.distance(Family::Wood()), 1);
    assert_eq!(spread.distance(Family::Herball()), 2);
}

#[test]
fn eighth_bit_is_inert() {
    let stray = Family::from(0b1000_0001u8);
    assert_eq!(stray.bits(), 0b1000_0001);
    assert!(!stray.satisfy(Family::Earthy()));
    assert_eq!(stray.distance(Family::Earthy()), 1);
    assert_eq!(stray.distance(Family::from(0b1000_1000u8)), 3);
}

#[test]
fn union_laws_on_values() {
    let a = Family::Citrus().add(Family::Wood());
    let b = Family::Herball();
    let c = Family::Earthy().add(Family::Citrus());
    assert_eq!(a.add(a), a);
    assert_eq!(a.add(b), b.add(a));
    assert_eq!(a.add(b).add(c), a.add(b.add(c)));
    assert_eq!(a.add(b).bits(), 0b0001101);
}

#[test]
fn satisfy_is_intersection() {
    let a = Family::Citrus().add(Family::Wood());
    assert!(a.satisfy(Family::Wood()));
    assert!(!a.satisfy(Family::Herball()));
    assert!(a.satisfy(Family::Herball().add(Family::Citrus())));
}

#[test]
fn rotations_wrap_round_the_ring() {
    let mut f = Family::Citrus();
    f.r_shift();
    assert_eq!(f, Family::Earthy());
    f.r_shift();
    assert_eq!(f, Family::Spicy());
    let mut g = Family::Earthy();
    g.l_shift();
    assert_eq!(g, Family::Citrus());
    g.l_shift();
    assert_eq!(g, Family::Froral());
    let mut s = Family::from(0b1100_0001u8);
    s.l_shift();
    assert_eq!(s.bits(), 0b1000_0011);
    s.r_shift();
    assert_eq!(s.bits(), 0b1100_0001);
}

#[test]
fn named_families_and_bounds() {
    assert_eq!(Family::One(), Family::Citrus());
    assert_eq!(Family::Max(), Family::Earthy());
    assert_eq!(Family::Max().bits(), 0b100_0000);
}
