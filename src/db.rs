//! The forms in which notes and strengths are stored: one flat variant each.
use vstd::prelude::*;
use crate::note;
use crate::note::SimpleNote;

verus! {

/// A stored note: the three phases and the two pairs side by side.
#[derive(Clone, Copy, Debug, PartialEq, Eq, Structural)]
pub enum Note {
    Top,
    Middle,
    Base,
    TopAndMiddle,
    MiddleAndBase,
}

/// A stored strength.
#[derive(Clone, Copy, Debug, PartialEq, Eq, Structural)]
pub enum Strength {
    Week,
    Middle,
    Strong,
}

/// The stored form of a note.
pub open spec fn stored_note(n: note::Note) -> Note {
    match n {
        note::Note::Simple(SimpleNote::Top) => Note::Top,
        note::Note::Simple(SimpleNote::Middle) => Note::Middle,
        note::Note::Simple(SimpleNote::Base) => Note::Base,
        note::Note::TopAndMiddle => Note::TopAndMiddle,
        note::Note::MiddleAndBase => Note::MiddleAndBase,
    }
}

/// The note a stored form stands for.
pub open spec fn loaded_note(n: Note) -> note::Note {
    match n {
        Note::Top => note::Note::Simple(SimpleNote::Top),
        Note::Middle => note::Note::Simple(SimpleNote::Middle),
        Note::Base => note::Note::Simple(SimpleNote::Base),
        Note::TopAndMiddle => note::Note::TopAndMiddle,
        Note::MiddleAndBase => note::Note::MiddleAndBase,
    }
}

/// The stored form of a strength.
pub open spec fn stored_strength(s: note::Strength) -> Strength {
    match s {
        note::Strength::Week => Strength::Week,
        note::Strength::Middle => Strength::Middle,
        note::Strength::Strong => Strength::Strong,
    }
}

/// The strength a stored form stands for.
pub open spec fn loaded_strength(s: Strength) -> note::Strength {
    match s {
        Strength::Week => note::Strength::Week,
        Strength::Middle => note::Strength::Middle,
        Strength::Strong => note::Strength::Strong,
    }
}

impl From<note::Note> for Note {
    fn from(value: note::Note) -> Note {
        match value {
            note::Note::Simple(n) => match n {
                SimpleNote::Top => Note::Top,
                SimpleNote::Middle => Note::Middle,
                SimpleNote::Base => Note::Base,
            },
            note::Note::TopAndMiddle => Note::TopAndMiddle,
            note::Note::MiddleAndBase => Note::MiddleAndBase,
        }
    }
}

impl vstd::std_specs::convert::FromSpecImpl<note::Note> for Note {
    open spec fn obeys_from_spec() -> bool {
        true
    }

    open spec fn from_spec(v: note::Note) -> Note {
        stored_note(v)
    }
}

impl From<Note> for note::Note {
    fn from(val: Note) -> note::Note {
        match val {
            Note::Top => note::Note::Simple(SimpleNote::Top),
            Note::Middle => note::Note::Simple(SimpleNote::Middle),
            Note::Base => note::Note::Simple(SimpleNote::Base),
            Note::TopAndMiddle => note::Note::TopAndMiddle,
            Note::MiddleAndBase => note::Note::MiddleAndBase,
        }
    }
}

impl vstd::std_specs::convert::FromSpecImpl<Note> for note::Note {
    open spec fn obeys_from_spec() -> bool {
        true
    }

    open spec fn from_spec(v: Note) -> note::Note {
        loaded_note(v)
    }
}

impl From<note::Strength> for Strength {
    fn from(value: note::Strength) -> Strength {
        match value {
            note::Strength::Week => Strength::Week,
            note::Strength::Middle => Strength::Middle,
            note::Strength::Strong => Strength::Strong,
        }
    }
}

impl vstd::std_specs::convert::FromSpecImpl<note::Strength> for Strength {
    open spec fn obeys_from_spec() -> bool {
        true
    }

    open spec fn from_spec(v: note::Strength) -> Strength {
        stored_strength(v)
    }
}

impl From<Strength> for note::Strength {
    fn from(val: Strength) -> note::Strength {
        match val {
            Strength::Week => note::Strength::Week,
            Strength::Middle => note::Strength::Middle,
            Strength::Strong => note::Strength::Strong,
        }
    }
}

impl vstd::std_specs::convert::FromSpecImpl<Strength> for note::Strength {
    open spec fn obeys_from_spec() -> bool {
        true
    }

    open spec fn from_spec(v: Strength) -> note::Strength {
        loaded_strength(v)
    }
}

/// Storing a note or a strength and loading it back gives it unchanged, and
/// every stored form is the stored form of what it loads to.
pub proof fn lemma_stored_round_trip(n: note::Note, s: note::Strength, m: Note, t: Strength)
    ensures
        loaded_note(stored_note(n)) == n,
        stored_note(loaded_note(m)) == m,
        loaded_strength(stored_strength(s)) == s,
        stored_strength(loaded_strength(t)) == t,
{
}

} // verus!
