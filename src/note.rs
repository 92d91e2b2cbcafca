//! Perception notes of a scent and the potency of an oil.
use vstd::prelude::*;

verus! {

/// One phase in which a scent is perceived.
#[derive(Clone, Copy, Debug, PartialEq, Eq, Hash, Structural)]
pub enum SimpleNote {
    Top,
    Middle,
    Base,
}

/// A single phase, or one of the two fixed pairs of adjacent phases.
#[derive(Clone, Copy, Debug, PartialEq, Eq, Structural)]
pub enum Note {
    Simple(SimpleNote),
    TopAndMiddle,
    MiddleAndBase,
}

/// How potent an oil is.
#[derive(Clone, Copy, Debug, PartialEq, Eq, Structural)]
pub enum Strength {
    Week,
    Middle,
    Strong,
}

impl Strength {
    /// Drops to use: weaker oils go in larger quantity.
    pub open spec fn drops(self) -> u8 {
        match self {
            Strength::Week => 4,
            Strength::Middle => 2,
            Strength::Strong => 1,
        }
    }

    pub fn recommended_amount(&self) -> (r: u8)
        ensures
            r == self.drops(),
    {
        match self {
            Strength::Week => 4,
            Strength::Middle => 2,
            Strength::Strong => 1,
        }
    }
}

impl Note {
    /// Whether the note is perceived in phase `n`.
    pub open spec fn covers(self, n: SimpleNote) -> bool {
        match self {
            Note::Simple(m) => m == n,
            Note::TopAndMiddle => n == SimpleNote::Top || n == SimpleNote::Middle,
            Note::MiddleAndBase => n == SimpleNote::Middle || n == SimpleNote::Base,
        }
    }

    /// The phases of the note, earliest first.
    pub open spec fn phases(self) -> Seq<SimpleNote> {
        match self {
            Note::Simple(m) => seq![m],
            Note::TopAndMiddle => seq![SimpleNote::Top, SimpleNote::Middle],
            Note::MiddleAndBase => seq![SimpleNote::Middle, SimpleNote::Base],
        }
    }

    pub fn satisfy(&self, note: SimpleNote) -> (r: bool)
        ensures
            r == self.covers(note),
    {
        match self {
            Note::Simple(n) => note == *n,
            Note::TopAndMiddle => note == SimpleNote::Top || note == SimpleNote::Middle,
            Note::MiddleAndBase => note == SimpleNote::Middle || note == SimpleNote::Base,
        }
    }

    /// The phases of the note as a list.
    pub fn simplify(&self) -> (r: Vec<SimpleNote>)
        ensures
            r@ == self.phases(),
    {
        let mut v: Vec<SimpleNote> = Vec::new();
        match self {
            Note::Simple(note) => v.push(*note),
            Note::TopAndMiddle => {
                v.push(SimpleNote::Top);
                v.push(SimpleNote::Middle);
            },
            Note::MiddleAndBase => {
                v.push(SimpleNote::Middle);
                v.push(SimpleNote::Base);
            },
        }
        proof {
            assert(v@ =~= self.phases());
        }
        v
    }
}

/// A note is perceived in exactly the phases it lists.
pub proof fn lemma_phases_cover(note: Note, n: SimpleNote)
    ensures
        note.phases().contains(n) == note.covers(n),
{
    match note {
        Note::Simple(m) => assert(note.phases()[0] == m),
        Note::TopAndMiddle => {
            assert(note.phases()[0] == SimpleNote::Top);
            assert(note.phases()[1] == SimpleNote::Middle);
        },
        Note::MiddleAndBase => {
            assert(note.phases()[0] == SimpleNote::Middle);
            assert(note.phases()[1] == SimpleNote::Base);
        },
    }
}

} // verus!
