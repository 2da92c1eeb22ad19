//! The closed taxonomy of musical intervals from unison to octave.
//!
//! Qualities that do not fit a number (a perfect third, a minor fifth) cannot
//! be written: perfect numbers and imperfect numbers are different types.
use vstd::prelude::*;

verus! {

/// An interval number that takes the perfect quality.
#[derive(Clone, Copy, Debug, PartialEq, Eq, Hash, Structural)]
pub enum PerfectInterval {
    Unison,
    Fourth,
    Fifth,
    Octave,
}

/// An interval number that takes the minor and major qualities.
#[derive(Clone, Copy, Debug, PartialEq, Eq, Hash, Structural)]
pub enum ImperfectInterval {
    Second,
    Third,
    Sixth,
    Seventh,
}

/// Any interval number; diminished and augmented apply to both families.
#[derive(Clone, Copy, Debug, PartialEq, Eq, Hash, Structural)]
pub enum AnyInterval {
    Perfect(PerfectInterval),
    Imperfect(ImperfectInterval),
}

/// An interval: a quality applied to a number of the family that admits it.
#[derive(Clone, Copy, Debug, PartialEq, Eq, Hash, Structural)]
pub enum Interval {
    Diminshed(AnyInterval),
    Minor(ImperfectInterval),
    Perfect(PerfectInterval),
    Major(ImperfectInterval),
    Augmented(AnyInterval),
}

/// A measurement in letter names: how many letters an interval spans.
pub trait Diatonic {
    spec fn steps(&self) -> nat;

    fn diatonic_steps(&self) -> (r: u32)
        ensures
            r as nat == self.steps(),
    ;
}

impl PerfectInterval {
    pub open spec fn semitones(self) -> nat {
        match self {
            PerfectInterval::Unison => 0,
            PerfectInterval::Fourth => 5,
            PerfectInterval::Fifth => 7,
            PerfectInterval::Octave => 12,
        }
    }

    /// The size in semitones of the perfect interval of this number.
    pub fn size(&self) -> (r: u32)
        ensures
            r as nat == self.semitones(),
    {
        match *self {
            PerfectInterval::Unison => 0,
            PerfectInterval::Fourth => 5,
            PerfectInterval::Fifth => 7,
            PerfectInterval::Octave => 12,
        }
    }
}

impl Diatonic for PerfectInterval {
    open spec fn steps(&self) -> nat {
        match *self {
            PerfectInterval::Unison => 0,
            PerfectInterval::Fourth => 3,
            PerfectInterval::Fifth => 4,
            PerfectInterval::Octave => 7,
        }
    }

    fn diatonic_steps(&self) -> (r: u32) {
        match *self {
            PerfectInterval::Unison => 0,
            PerfectInterval::Fourth => 3,
            PerfectInterval::Fifth => 4,
            PerfectInterval::Octave => 7,
        }
    }
}

impl ImperfectInterval {
    pub open spec fn minor_semitones(self) -> nat {
        match self {
            ImperfectInterval::Second => 1,
            ImperfectInterval::Third => 3,
            ImperfectInterval::Sixth => 8,
            ImperfectInterval::Seventh => 10,
        }
    }

    pub open spec fn major_semitones(self) -> nat {
        self.minor_semitones() + 1
    }

    /// The size in semitones of the minor interval of this number.
    pub fn minor_size(&self) -> (r: u32)
        ensures
            r as nat == self.minor_semitones(),
    {
        match *self {
            ImperfectInterval::Second => 1,
            ImperfectInterval::Third => 3,
            ImperfectInterval::Sixth => 8,
            ImperfectInterval::Seventh => 10,
        }
    }

    /// The size in semitones of the major interval of this number: one more
    /// than the minor.
    pub fn major_size(&self) -> (r: u32)
        ensures
            r as nat == self.major_semitones(),
    {
        self.minor_size() + 1
    }
}

impl Diatonic for ImperfectInterval {
    open spec fn steps(&self) -> nat {
        match *self {
            ImperfectInterval::Second => 1,
            ImperfectInterval::Third => 2,
            ImperfectInterval::Sixth => 5,
            ImperfectInterval::Seventh => 6,
        }
    }

    fn diatonic_steps(&self) -> (r: u32) {
        match *self {
            ImperfectInterval::Second => 1,
            ImperfectInterval::Third => 2,
            ImperfectInterval::Sixth => 5,
            ImperfectInterval::Seventh => 6,
        }
    }
}

impl Diatonic for AnyInterval {
    open spec fn steps(&self) -> nat {
        match *self {
            AnyInterval::Perfect(n) => n.steps(),
            AnyInterval::Imperfect(n) => n.steps(),
        }
    }

    fn diatonic_steps(&self) -> (r: u32) {
        match *self {
            AnyInterval::Perfect(n) => n.diatonic_steps(),
            AnyInterval::Imperfect(n) => n.diatonic_steps(),
        }
    }
}

impl Interval {
    /// Semitones of the interval. A diminished perfect interval is one less
    /// than the perfect size, but never below zero (a diminished unison has
    /// size zero); a diminished imperfect one is one less than the minor size.
    pub open spec fn semitones(self) -> nat {
        match self {
            Interval::Diminshed(AnyInterval::Perfect(n)) => if n.semitones() == 0 {
                0
            } else {
                (n.semitones() - 1) as nat
            },
            Interval::Diminshed(AnyInterval::Imperfect(n)) => (n.minor_semitones() - 1) as nat,
            Interval::Minor(n) => n.minor_semitones(),
            Interval::Perfect(n) => n.semitones(),
            Interval::Major(n) => n.major_semitones(),
            Interval::Augmented(AnyInterval::Perfect(n)) => n.semitones() + 1,
            Interval::Augmented(AnyInterval::Imperfect(n)) => n.major_semitones() + 1,
        }
    }

    /// The size of the interval in semitones.
    pub fn size(&self) -> (r: u32)
        ensures
            r as nat == self.semitones(),
    {
        match *self {
            Interval::Diminshed(n) => match n {
                AnyInterval::Perfect(p) => {
                    let s = p.size();
                    if s == 0 {
                        0
                    } else {
                        s - 1
                    }
                },
                AnyInterval::Imperfect(i) => i.minor_size() - 1,
            },
            Interval::Minor(n) => n.minor_size(),
            Interval::Perfect(n) => n.size(),
            Interval::Major(n) => n.major_size(),
            Interval::Augmented(n) => match n {
                AnyInterval::Perfect(p) => p.size() + 1,
                AnyInterval::Imperfect(i) => i.major_size() + 1,
            },
        }
    }

    /// The interval number, as the diatonic step count it spans; the quality
    /// plays no part.
    pub open spec fn number(self) -> AnyInterval {
        match self {
            Interval::Diminshed(n) => n,
            Interval::Minor(n) => AnyInterval::Imperfect(n),
            Interval::Perfect(n) => AnyInterval::Perfect(n),
            Interval::Major(n) => AnyInterval::Imperfect(n),
            Interval::Augmented(n) => n,
        }
    }
}

impl Diatonic for Interval {
    open spec fn steps(&self) -> nat {
        self.number().steps()
    }

    fn diatonic_steps(&self) -> (r: u32) {
        match *self {
            Interval::Diminshed(n) => n.diatonic_steps(),
            Interval::Minor(n) => n.diatonic_steps(),
            Interval::Perfect(n) => n.diatonic_steps(),
            Interval::Major(n) => n.diatonic_steps(),
            Interval::Augmented(n) => n.diatonic_steps(),
        }
    }
}

/// Every interval spans at most an octave of letters, and the letters it spans
/// depend on its number alone: two intervals of one number span the same
/// letters whatever their qualities.
pub proof fn lemma_steps_by_number(a: Interval, b: Interval)
    ensures
        a.steps() <= 7,
        a.number() == b.number() ==> a.steps() == b.steps(),
{
}

/// Two different interval numbers span different letter counts, so the
/// number of an interval can be recognised by its diatonic steps.
pub proof fn lemma_number_by_steps(a: AnyInterval, b: AnyInterval)
    ensures
        a.steps() == b.steps() <==> a == b,
{
}

} // verus!
