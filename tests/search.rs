use aroma_blend::family::Family;
use aroma_blend::note::Note;
use aroma_blend::note::SimpleNote;
use aroma_blend::note::Strength;
use aroma_blend::oil::EssentialOil;
use aroma_blend::search::Blender;

fn shelf() -> Blender {
    let mk = |name: &str, note: Note, family: Family| {
        EssentialOil::new(uuid::Uuid::new_v4(), name, note, family, Strength::Middle, 10)
    };
    Blender::new(vec![
        mk("lemon", Note::Simple(SimpleNote::Top), Family::Citrus()),
        mk("rose", Note::MiddleAndBase, Family::Froral()),
        mk("cedar", Note::Simple(SimpleNote::Base), Family::Wood()),
        mk("clove", Note::TopAndMiddle, Family::Spicy()),
    ])
}

fn names(oils: &[EssentialOil]) -> Vec<String> {
    oils.iter().map(|o| o.name.clone()).collect()
}

#[test]
fn search_by_note_keeps_order() {
    assert_eq!(names(&shelf().search_by_note(SimpleNote::Middle)), vec!["rose", "clove"]);
    assert_eq!(names(&shelf().search_by_note(SimpleNote::Base)), vec!["rose", "cedar"]);
}

#[test]
fn search_by_family_matches_bits() {
    let q = Family::Wood().add(Family::Citrus());
    assert_eq!(names(&shelf().search_by_family(q)), vec!["lemon", "cedar"]);
    assert!(shelf().search_by_family(Family::Resin()).is_empty());
}

#[test]
fn search_by_similar_uses_threshold() {
    assert_eq!(names(&shelf().search_by_similar(Family::Resin(), 1)), vec!["cedar", "clove"]);
    assert_eq!(names(&shelf().search_by_similar(Family::Earthy(), 1)), vec!["lemon", "clove"]);
    assert_eq!(shelf().search_by_similar(Family::Earthy(), 3).len(), 4);
}
