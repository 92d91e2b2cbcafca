use aroma_blend::db;
use aroma_blend::note::Note;
use aroma_blend::note::SimpleNote;
use aroma_blend::note::Strength;

#[test]
fn note_satisfy_cases() {
    assert!(Note::TopAndMiddle.satisfy(SimpleNote::Top));
    assert!(!Note::TopAndMiddle.satisfy(SimpleNote::Base));
    assert!(Note::Simple(SimpleNote::Middle).satisfy(SimpleNote::Middle));
    assert!(!Note::Simple(SimpleNote::Middle).satisfy(SimpleNote::Top));
    assert!(Note::MiddleAndBase.satisfy(SimpleNote::Base));
    assert!(!Note::MiddleAndBase.satisfy(SimpleNote::Top));
}

#[test]
fn note_simplify_lists_phases() {
    assert_eq!(Note::Simple(SimpleNote::Base).simplify(), vec![SimpleNote::Base]);
    assert_eq!(Note::TopAndMiddle.simplify(), vec![SimpleNote::Top, SimpleNote::Middle]);
    assert_eq!(Note::MiddleAndBase.simplify(), vec![SimpleNote::Middle, SimpleNote::Base]);
}

#[test]
fn stored_forms_round_trip() {
    assert_eq!(db::Note::from(Note::Simple(SimpleNote::Top)), db::Note::Top);
    assert_eq!(db::Note::from(Note::TopAndMiddle), db::Note::TopAndMiddle);
    assert_eq!(Note::from(db::Note::Base), Note::Simple(SimpleNote::Base));
    assert_eq!(Note::from(db::Note::MiddleAndBase), Note::MiddleAndBase);
    assert_eq!(db::Strength::from(Strength::Strong), db::Strength::Strong);
    assert_eq!(Strength::from(db::Strength::Week), Strength::Week);
    for n in [
        Note::Simple(SimpleNote::Top),
        Note::Simple(SimpleNote::Middle),
        Note::Simple(SimpleNote::Base),
        Note::TopAndMiddle,
        Note::MiddleAndBase,
    ] {
        assert_eq!(Note::from(db::Note::from(n)), n);
    }
}
