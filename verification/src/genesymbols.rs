//! The narrative-dice symbols and the per-face symbol tables of the six
//! narrative die kinds.

use vstd::prelude::*;
use crate::die::Die;

verus! {

/// One narrative symbol.
#[derive(Clone, Copy, Debug, PartialEq, Eq, Structural)]
pub enum GeneSymbol {
    Success,
    Advantage,
    Triumph,
    Failure,
    Threat,
    Despair,
}

/// The symbols a boost die (six sides) shows per face; blank faces and
/// faces past the die show nothing.
pub open spec fn boost_table(face: int) -> Seq<GeneSymbol> {
    if face == 3 {
        seq![GeneSymbol::Success]
    } else if face == 4 {
        seq![GeneSymbol::Success, GeneSymbol::Advantage]
    } else if face == 5 {
        seq![GeneSymbol::Advantage, GeneSymbol::Advantage]
    } else if face == 6 {
        seq![GeneSymbol::Advantage]
    } else {
        Seq::empty()
    }
}

/// The symbols a setback die (six sides) shows per face.
pub open spec fn setback_table(face: int) -> Seq<GeneSymbol> {
    if face == 3 || face == 4 {
        seq![GeneSymbol::Failure]
    } else if face == 5 || face == 6 {
        seq![GeneSymbol::Threat]
    } else {
        Seq::empty()
    }
}

/// The symbols an ability die (eight sides) shows per face.
pub open spec fn ability_table(face: int) -> Seq<GeneSymbol> {
    if face == 2 || face == 3 {
        seq![GeneSymbol::Success]
    } else if face == 4 {
        seq![GeneSymbol::Success, GeneSymbol::Success]
    } else if face == 5 || face == 6 {
        seq![GeneSymbol::Advantage]
    } else if face == 7 {
        seq![GeneSymbol::Success, GeneSymbol::Advantage]
    } else if face == 8 {
        seq![GeneSymbol::Advantage, GeneSymbol::Advantage]
    } else {
        Seq::empty()
    }
}

/// The symbols a difficulty die (eight sides) shows per face.
pub open spec fn difficulty_table(face: int) -> Seq<GeneSymbol> {
    if face == 2 {
        seq![GeneSymbol::Failure]
    } else if face == 3 {
        seq![GeneSymbol::Failure, GeneSymbol::Failure]
    } else if face == 4 || face == 5 || face == 6 {
        seq![GeneSymbol::Threat]
    } else if face == 7 {
        seq![GeneSymbol::Threat, GeneSymbol::Threat]
    } else if face == 8 {
        seq![GeneSymbol::Failure, GeneSymbol::Threat]
    } else {
        Seq::empty()
    }
}

/// The symbols a proficiency die (twelve sides) shows per face.
pub open spec fn proficiency_table(face: int) -> Seq<GeneSymbol> {
    if face == 2 || face == 3 {
        seq![GeneSymbol::Success]
    } else if face == 4 || face == 5 {
        seq![GeneSymbol::Success, GeneSymbol::Success]
    } else if face == 6 {
        seq![GeneSymbol::Advantage]
    } else if face == 7 || face == 8 || face == 9 {
        seq![GeneSymbol::Success, GeneSymbol::Advantage]
    } else if face == 10 || face == 11 {
        seq![GeneSymbol::Advantage, GeneSymbol::Advantage]
    } else if face == 12 {
        seq![GeneSymbol::Triumph]
    } else {
        Seq::empty()
    }
}

/// The symbols a challenge die (twelve sides) shows per face.
pub open spec fn challenge_table(face: int) -> Seq<GeneSymbol> {
    if face == 2 || face == 3 {
        seq![GeneSymbol::Failure]
    } else if face == 4 || face == 5 {
        seq![GeneSymbol::Failure, GeneSymbol::Failure]
    } else if face == 6 || face == 7 {
        seq![GeneSymbol::Threat]
    } else if face == 8 || face == 9 {
        seq![GeneSymbol::Failure, GeneSymbol::Threat]
    } else if face == 10 || face == 11 {
        seq![GeneSymbol::Threat, GeneSymbol::Threat]
    } else if face == 12 {
        seq![GeneSymbol::Despair]
    } else {
        Seq::empty()
    }
}

impl GeneSymbol {
    /// The boost-die symbols for the face `die` shows.
    pub fn boost(die: Die) -> (r: Vec<GeneSymbol>)
        ensures
            r@ == boost_table(die.result as int),
    {
        let mut v = Vec::<GeneSymbol>::new();
        if die.result == 3 {
            v.push(GeneSymbol::Success);
        } else if die.result == 4 {
            v.push(GeneSymbol::Success);
            v.push(GeneSymbol::Advantage);
        } else if die.result == 5 {
            v.push(GeneSymbol::Advantage);
            v.push(GeneSymbol::Advantage);
        } else if die.result == 6 {
            v.push(GeneSymbol::Advantage);
        }
        proof {
            assert(v@ =~= boost_table(die.result as int));
        }
        v
    }

    /// The setback-die symbols for the face `die` shows.
    pub fn setback(die: Die) -> (r: Vec<GeneSymbol>)
        ensures
            r@ == setback_table(die.result as int),
    {
        let mut v = Vec::<GeneSymbol>::new();
        if die.result == 3 || die.result == 4 {
            v.push(GeneSymbol::Failure);
        } else if die.result == 5 || die.result == 6 {
            v.push(GeneSymbol::Threat);
        }
        proof {
            assert(v@ =~= setback_table(die.result as int));
        }
        v
    }

    /// The ability-die symbols for the face `die` shows.
    pub fn ability(die: Die) -> (r: Vec<GeneSymbol>)
        ensures
            r@ == ability_table(die.result as int),
    {
        let mut v = Vec::<GeneSymbol>::new();
        if die.result == 2 || die.result == 3 {
            v.push(GeneSymbol::Success);
        } else if die.result == 4 {
            v.push(GeneSymbol::Success);
            v.push(GeneSymbol::Success);
        } else if die.result == 5 || die.result == 6 {
            v.push(GeneSymbol::Advantage);
        } else if die.result == 7 {
            v.push(GeneSymbol::Success);
            v.push(GeneSymbol::Advantage);
        } else if die.result == 8 {
            v.push(GeneSymbol::Advantage);
            v.push(GeneSymbol::Advantage);
        }
        proof {
            assert(v@ =~= ability_table(die.result as int));
        }
        v
    }

    /// The difficulty-die symbols for the face `die` shows.
    pub fn difficulty(die: Die) -> (r: Vec<GeneSymbol>)
        ensures
            r@ == difficulty_table(die.result as int),
    {
        let mut v = Vec::<GeneSymbol>::new();
        if die.result == 2 {
            v.push(GeneSymbol::Failure);
        } else if die.result == 3 {
            v.push(GeneSymbol::Failure);
            v.push(GeneSymbol::Failure);
        } else if die.result == 4 || die.result == 5 || die.result == 6 {
            v.push(GeneSymbol::Threat);
        } else if die.result == 7 {
            v.push(GeneSymbol::Threat);
            v.push(GeneSymbol::Threat);
        } else if die.result == 8 {
            v.push(GeneSymbol::Failure);
            v.push(GeneSymbol::Threat);
        }
        proof {
            assert(v@ =~= difficulty_table(die.result as int));
        }
        v
    }

    /// The proficiency-die symbols for the face `die` shows.
    pub fn proficiency(die: Die) -> (r: Vec<GeneSymbol>)
        ensures
            r@ == proficiency_table(die.result as int),
    {
        let mut v = Vec::<GeneSymbol>::new();
        if die.result == 2 || die.result == 3 {
            v.push(GeneSymbol::Success);
        } else if die.result == 4 || die.result == 5 {
            v.push(GeneSymbol::Success);
            v.push(GeneSymbol::Success);
        } else if die.result == 6 {
            v.push(GeneSymbol::Advantage);
        } else if die.result == 7 || die.result == 8 || die.result == 9 {
            v.push(GeneSymbol::Success);
            v.push(GeneSymbol::Advantage);
        } else if die.result == 10 || die.result == 11 {
            v.push(GeneSymbol::Advantage);
            v.push(GeneSymbol::Advantage);
        } else if die.result == 12 {
            v.push(GeneSymbol::Triumph);
        }
        proof {
            assert(v@ =~= proficiency_table(die.result as int));
        }
        v
    }

    /// The challenge-die symbols for the face `die` shows.
    pub fn challenge(die: Die) -> (r: Vec<GeneSymbol>)
        ensures
            r@ == challenge_table(die.result as int),
    {
        let mut v = Vec::<GeneSymbol>::new();
        if die.result == 2 || die.result == 3 {
            v.push(GeneSymbol::Failure);
        } else if die.result == 4 || die.result == 5 {
            v.push(GeneSymbol::Failure);
            v.push(GeneSymbol::Failure);
        } else if die.result == 6 || die.result == 7 {
            v.push(GeneSymbol::Threat);
        } else if die.result == 8 || die.result == 9 {
            v.push(GeneSymbol::Failure);
            v.push(GeneSymbol::Threat);
        } else if die.result == 10 || die.result == 11 {
            v.push(GeneSymbol::Threat);
            v.push(GeneSymbol::Threat);
        } else if die.result == 12 {
            v.push(GeneSymbol::Despair);
        }
        proof {
            assert(v@ =~= challenge_table(die.result as int));
        }
        v
    }
}

} // verus!
