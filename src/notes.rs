//! Pitches (a letter name with an accidental) and notes (a pitch in an
//! octave), and how an interval moves them.
//!
//! A note is modelled by two numbers. Its position counts letter names from the
//! C of octave zero; its semitone value counts semitones from that same C. Moving
//! a note by an interval adds the interval's diatonic steps to the first and its
//! size to the second; the letter name, the octave and the accidental all follow.
use vstd::prelude::*;
use vstd::string::StringExecFns;
use vstd::seq_lib::{to_multiset_build, to_multiset_insert};
use crate::intervals::{Diatonic, Interval};

verus! {

/// A count of semitone alterations: negative for flats, positive for sharps.
pub type Accidentals = i32;

pub const NATURAL: i32 = 0;

pub const SHARP: i32 = 1;

pub const DOUBLE_SHARP: i32 = 2;

pub const FLAT: i32 = -1;

pub const DOUBLE_FLAT: i32 = -2;

/// A register number, incremented each time a step crosses from B up to C.
pub type Octave = u32;

/// The seven letter names, in ascending order within an octave.
#[derive(Debug, Copy, Clone, PartialEq, Eq, Hash, PartialOrd, Ord, Structural)]
pub enum NoteName {
    C,
    D,
    E,
    F,
    G,
    A,
    B,
}

/// A letter name with an accidental, without a register.
#[derive(Debug, Copy, Clone, PartialEq, Eq, Hash, PartialOrd, Ord, Structural)]
pub struct Pitch {
    pub name: NoteName,
    pub accidentals: Accidentals,
}

/// A pitch in a given octave.
#[derive(Debug, Copy, Clone, PartialEq, Eq, Hash, PartialOrd, Ord, Structural)]
pub struct Note {
    pub pitch: Pitch,
    pub octave: Octave,
}

impl NoteName {
    /// Place of the letter within the octave, C being 0 and B being 6.
    pub open spec fn index(self) -> int {
        match self {
            NoteName::C => 0,
            NoteName::D => 1,
            NoteName::E => 2,
            NoteName::F => 3,
            NoteName::G => 4,
            NoteName::A => 5,
            NoteName::B => 6,
        }
    }

    /// Semitones from C up to the natural of this letter.
    pub open spec fn natural(self) -> int {
        match self {
            NoteName::C => 0,
            NoteName::D => 2,
            NoteName::E => 4,
            NoteName::F => 5,
            NoteName::G => 7,
            NoteName::A => 9,
            NoteName::B => 11,
        }
    }

    /// Semitones from the natural of this letter up to the natural of the next
    /// letter: one from E to F and from B to C, two between any other pair.
    pub open spec fn gap_above(self) -> int {
        match self {
            NoteName::E | NoteName::B => 1,
            _ => 2,
        }
    }
}

/// The letter name at a position counted in letters from a C.
pub open spec fn letter_at(pos: int) -> NoteName {
    let i = pos % 7;
    if i == 0 {
        NoteName::C
    } else if i == 1 {
        NoteName::D
    } else if i == 2 {
        NoteName::E
    } else if i == 3 {
        NoteName::F
    } else if i == 4 {
        NoteName::G
    } else if i == 5 {
        NoteName::A
    } else {
        NoteName::B
    }
}

/// Semitones from a C up to the natural note at a position counted in letters
/// from that C (a position may be negative: one letter below C is the B a
/// semitone lower).
pub open spec fn natural_position(pos: int) -> int {
    12 * (pos / 7) + letter_at(pos).natural()
}

/// Semitones between the naturals of the letters at two positions.
pub open spec fn natural_span(from: int, to: int) -> int {
    natural_position(to) - natural_position(from)
}

/// The value can be held in an `i32`.
pub open spec fn fits_i32(x: int) -> bool {
    i32::MIN <= x <= i32::MAX
}

impl Pitch {
    /// The next letter, with the accidental that puts it `semitones` above.
    pub open spec fn next_spec(self, semitones: int) -> Pitch {
        Pitch {
            name: letter_at(self.name.index() + 1),
            accidentals: (self.accidentals + semitones - self.name.gap_above()) as i32,
        }
    }

    /// The previous letter, with the accidental that puts it `semitones` below.
    pub open spec fn prev_spec(self, semitones: int) -> Pitch {
        Pitch {
            name: letter_at(self.name.index() - 1),
            accidentals: (self.accidentals - semitones + letter_at(self.name.index() - 1).gap_above()) as i32,
        }
    }

    /// The pitch an interval above: the letter `steps` names higher, with the
    /// accidental that makes the distance `size` semitones.
    pub open spec fn leap_spec(self, i: Interval) -> Pitch {
        let from = self.name.index();
        let to = from + i.steps();
        Pitch {
            name: letter_at(to),
            accidentals: (self.accidentals + i.semitones() - natural_span(from, to)) as i32,
        }
    }

    /// The pitch an interval below.
    pub open spec fn fall_spec(self, i: Interval) -> Pitch {
        let from = self.name.index();
        let to = from - i.steps();
        Pitch {
            name: letter_at(to),
            accidentals: (self.accidentals - i.semitones() + natural_span(to, from)) as i32,
        }
    }

    /// The accidentals met while leaping by `i` stay within `i32`.
    pub open spec fn leap_fits(self, i: Interval) -> bool {
        let from = self.name.index();
        let walked = self.accidentals - natural_span(from, from + i.steps());
        fits_i32(walked) && fits_i32(walked + i.semitones())
    }

    /// The accidentals met while falling by `i` stay within `i32`.
    pub open spec fn fall_fits(self, i: Interval) -> bool {
        let from = self.name.index();
        let walked = self.accidentals + natural_span(from - i.steps(), from);
        fits_i32(walked) && fits_i32(walked - i.semitones())
    }
}

/// One letter up, the naturals rise by the gap above the lower letter.
pub proof fn lemma_natural_step(pos: int)
    ensures
        natural_position(pos + 1) == natural_position(pos) + letter_at(pos).gap_above(),
        letter_at(pos + 1).index() == (pos + 1) % 7,
        letter_at(pos).index() == pos % 7,
{
}

/// The naturals rise with the position.
pub proof fn lemma_natural_monotone(a: int, b: int)
    requires
        a <= b,
    ensures
        natural_span(a, b) >= b - a,
        natural_span(a, b) <= 2 * (b - a),
    decreases b - a,
{
    if a < b {
        lemma_natural_step(b - 1);
        lemma_natural_monotone(a, b - 1);
    }
}

/// Moving a whole number of octaves in letters moves the naturals by twelve
/// semitones per octave and keeps the letter name.
pub proof fn lemma_natural_octaves(pos: int, q: int)
    ensures
        natural_position(pos + 7 * q) == natural_position(pos) + 12 * q,
        letter_at(pos + 7 * q) == letter_at(pos),
        (pos + 7 * q) / 7 == pos / 7 + q,
{
    vstd::arithmetic::div_mod::lemma_fundamental_div_mod(pos, 7);
    vstd::arithmetic::div_mod::lemma_fundamental_div_mod_converse(pos + 7 * q, 7, pos / 7 + q, pos % 7);
}

/// Walking `k` letters down from the letter at `from`, then `k` letters up
/// from where that lands within its octave, comes back to `from`'s letter a
/// whole number of octaves away, across the same naturals.
proof fn lemma_down_up(from: int, k: int)
    requires
        0 <= from < 7,
        0 <= k <= 7,
    ensures
        letter_at((from - k) % 7 + k) == letter_at(from),
        natural_span((from - k) % 7, (from - k) % 7 + k) == natural_span(from - k, from),
        ((from - k) % 7 + k) / 7 == -((from - k) / 7),
{
    let q = (from - k) / 7;
    vstd::arithmetic::div_mod::lemma_fundamental_div_mod(from - k, 7);
    lemma_natural_octaves(from - k - 7 * q, q);
    lemma_natural_octaves(from - 7 * q, q);
    lemma_natural_octaves(from, -q);
}

/// The mirror of `lemma_down_up`: up `k` letters, then down `k` letters.
proof fn lemma_up_down(from: int, k: int)
    requires
        0 <= from < 7,
        0 <= k <= 7,
    ensures
        letter_at((from + k) % 7 - k) == letter_at(from),
        natural_span((from + k) % 7 - k, (from + k) % 7) == natural_span(from, from + k),
        ((from + k) % 7 - k) / 7 == -((from + k) / 7),
{
    let q = (from + k) / 7;
    vstd::arithmetic::div_mod::lemma_fundamental_div_mod(from + k, 7);
    lemma_natural_octaves(from + k - 7 * q, q);
    lemma_natural_octaves(from - 7 * q, q);
    lemma_natural_octaves(from, -q);
}

proof fn lemma_pitch_fall_then_leap(p: Pitch, i: Interval)
    requires
        p.fall_fits(i),
    ensures
        p.fall_spec(i).leap_spec(i) == p,
{
    let from = p.name.index();
    let k = i.steps() as int;
    let q = p.fall_spec(i);
    lemma_down_up(from, k);
    lemma_natural_step(from - k);
    assert(q.name.index() == (from - k) % 7);
    assert(q.accidentals == p.accidentals - i.semitones() + natural_span(from - k, from));
    assert(letter_at(from) == p.name);
}

proof fn lemma_pitch_leap_then_fall(p: Pitch, i: Interval)
    requires
        p.leap_fits(i),
    ensures
        p.leap_spec(i).fall_spec(i) == p,
{
    let from = p.name.index();
    let k = i.steps() as int;
    let q = p.leap_spec(i);
    lemma_up_down(from, k);
    lemma_natural_step(from + k);
    assert(q.name.index() == (from + k) % 7);
    assert(q.accidentals == p.accidentals + i.semitones() - natural_span(from, from + k));
    assert(letter_at(from) == p.name);
}

/// Leaping by an interval undoes falling by it, and falling undoes leaping,
/// wherever the accidentals met on the first move stay within `i32`.
pub proof fn lemma_pitch_round_trip(p: Pitch, i: Interval)
    ensures
        p.fall_fits(i) ==> p.fall_spec(i).leap_spec(i) == p,
        p.leap_fits(i) ==> p.leap_spec(i).fall_spec(i) == p,
{
    if p.fall_fits(i) {
        lemma_pitch_fall_then_leap(p, i);
    }
    if p.leap_fits(i) {
        lemma_pitch_leap_then_fall(p, i);
    }
}

/// Leaping by an interval undoes falling by it, and falling undoes leaping,
/// octave included, wherever the accidentals met on the first move stay within
/// `i32` and its octave within `u32`.
pub proof fn lemma_leap_fall_round_trip(n: Note, i: Interval)
    ensures
        n.fall_fits(i) ==> n.fall_spec(i).leap_spec(i) == n,
        n.leap_fits(i) ==> n.leap_spec(i).fall_spec(i) == n,
{
    let from = n.pitch.name.index();
    let k = i.steps() as int;
    lemma_pitch_round_trip(n.pitch, i);
    lemma_down_up(from, k);
    lemma_up_down(from, k);
    lemma_natural_step(from - k);
    lemma_natural_step(from + k);
}

impl Pitch {
    /// The next letter name, with the accidental set so that the new pitch is
    /// `semitones` above this one.
    pub fn next(&self, semitones: i32) -> (r: Pitch)
        requires
            fits_i32(self.accidentals + semitones - self.name.gap_above()),
        ensures
            r == self.next_spec(semitones as int),
            r.name.index() == (self.name.index() + 1) % 7,
    {
        let (name, gap): (NoteName, i64) = match self.name {
            NoteName::C => (NoteName::D, 2),
            NoteName::D => (NoteName::E, 2),
            NoteName::E => (NoteName::F, 1),
            NoteName::F => (NoteName::G, 2),
            NoteName::G => (NoteName::A, 2),
            NoteName::A => (NoteName::B, 2),
            NoteName::B => (NoteName::C, 1),
        };
        Pitch { name, accidentals: (self.accidentals as i64 + semitones as i64 - gap) as i32 }
    }

    /// The previous letter name, with the accidental set so that the new pitch
    /// is `semitones` below this one.
    pub fn prev(&self, semitones: i32) -> (r: Pitch)
        requires
            fits_i32(self.accidentals - semitones + letter_at(self.name.index() - 1).gap_above()),
        ensures
            r == self.prev_spec(semitones as int),
            r.name.index() == (self.name.index() - 1) % 7,
    {
        let (name, gap): (NoteName, i64) = match self.name {
            NoteName::C => (NoteName::B, 1),
            NoteName::D => (NoteName::C, 2),
            NoteName::E => (NoteName::D, 2),
            NoteName::F => (NoteName::E, 1),
            NoteName::G => (NoteName::F, 2),
            NoteName::A => (NoteName::G, 2),
            NoteName::B => (NoteName::A, 2),
        };
        Pitch { name, accidentals: (self.accidentals as i64 - semitones as i64 + gap) as i32 }
    }

    /// The pitch `interval` above: walk up `diatonic_steps` letters with no
    /// chromatic adjustment, then add the interval's size to the accidental.
    #[verifier::rlimit(30)]
    pub fn leap(&self, interval: Interval) -> (r: Pitch)
        requires
            self.leap_fits(interval),
        ensures
            r == self.leap_spec(interval),
    {
        let steps = interval.diatonic_steps();
        let from = Ghost(self.name.index());
        let mut pitch = *self;
        let mut k: u32 = 0;
        while k < steps
            invariant
                k <= steps,
                steps == interval.steps(),
                self.leap_fits(interval),
                from@ == self.name.index(),
                pitch.name == letter_at(from@ + k),
                pitch.accidentals == self.accidentals - natural_span(from@, from@ + k),
            decreases steps - k,
        {
            proof {
                lemma_natural_step(from@ + k);
                lemma_natural_monotone(from@ + k + 1, from@ + steps);
            }
            pitch = pitch.next(0);
            k = k + 1;
        }
        pitch.accidentals = pitch.accidentals + interval.size() as i32;
        pitch
    }

    /// The pitch `interval` below: walk down `diatonic_steps` letters with no
    /// chromatic adjustment, then take the interval's size off the accidental.
    #[verifier::rlimit(30)]
    pub fn fall(&self, interval: Interval) -> (r: Pitch)
        requires
            self.fall_fits(interval),
        ensures
            r == self.fall_spec(interval),
    {
        let steps = interval.diatonic_steps();
        let from = Ghost(self.name.index());
        let mut pitch = *self;
        let mut k: u32 = 0;
        while k < steps
            invariant
                k <= steps,
                steps == interval.steps(),
                self.fall_fits(interval),
                from@ == self.name.index(),
                pitch.name == letter_at(from@ - k),
                pitch.accidentals == self.accidentals + natural_span(from@ - k, from@),
            decreases steps - k,
        {
            proof {
                lemma_natural_step(from@ - k - 1);
                lemma_natural_monotone(from@ - steps, from@ - k - 1);
            }
            pitch = pitch.prev(0);
            k = k + 1;
        }
        pitch.accidentals = pitch.accidentals - interval.size() as i32;
        pitch
    }
}

impl Note {
    /// Position of the note in letter names, counted from the C of octave 0.
    pub open spec fn position(self) -> int {
        7 * self.octave + self.pitch.name.index()
    }

    /// Semitones from the C of octave 0 up to the note.
    pub open spec fn semitone(self) -> int {
        natural_position(self.position()) + self.pitch.accidentals
    }

    /// The next letter, entering the octave above after B.
    pub open spec fn next_spec(self, semitones: int) -> Note {
        Note {
            pitch: self.pitch.next_spec(semitones),
            octave: if self.pitch.name == NoteName::B {
                (self.octave + 1) as u32
            } else {
                self.octave
            },
        }
    }

    /// The previous letter, entering the octave below before C.
    pub open spec fn prev_spec(self, semitones: int) -> Note {
        Note {
            pitch: self.pitch.prev_spec(semitones),
            octave: if self.pitch.name == NoteName::C {
                (self.octave - 1) as u32
            } else {
                self.octave
            },
        }
    }

    /// The note an interval above: the octave grows once for each B to C
    /// crossing on the way up.
    pub open spec fn leap_spec(self, i: Interval) -> Note {
        Note {
            pitch: self.pitch.leap_spec(i),
            octave: (self.octave + (self.pitch.name.index() + i.steps()) / 7) as u32,
        }
    }

    /// The note an interval below: the octave shrinks once for each C to B
    /// crossing on the way down.
    pub open spec fn fall_spec(self, i: Interval) -> Note {
        Note {
            pitch: self.pitch.fall_spec(i),
            octave: (self.octave + (self.pitch.name.index() - i.steps()) / 7) as u32,
        }
    }

    /// The accidentals met while leaping stay within `i32`, the octave within `u32`.
    pub open spec fn leap_fits(self, i: Interval) -> bool {
        &&& self.pitch.leap_fits(i)
        &&& self.octave + (self.pitch.name.index() + i.steps()) / 7 <= u32::MAX
    }

    /// The accidentals met while falling stay within `i32`, the octave at or
    /// above zero.
    pub open spec fn fall_fits(self, i: Interval) -> bool {
        &&& self.pitch.fall_fits(i)
        &&& self.octave + (self.pitch.name.index() - i.steps()) / 7 >= 0
    }

    /// Returns the next note name. Accidentals are updated such that the new
    /// note is `semitones` away from `self`; stepping from B to C enters the
    /// next octave.
    pub fn next(&self, semitones: i32) -> (r: Note)
        requires
            fits_i32(self.pitch.accidentals + semitones - self.pitch.name.gap_above()),
            self.pitch.name == NoteName::B ==> self.octave < u32::MAX,
        ensures
            r == self.next_spec(semitones as int),
            r.position() == self.position() + 1,
            r.semitone() == self.semitone() + semitones,
    {
        proof {
            lemma_natural_step(self.position());
        }
        let pitch = self.pitch.next(semitones);
        let octave = match self.pitch.name {
            NoteName::B => self.octave + 1,
            _ => self.octave,
        };
        Note { pitch, octave }
    }

    /// Returns the previous note name, `semitones` below `self`; stepping from
    /// C to B enters the octave below.
    pub fn prev(&self, semitones: i32) -> (r: Note)
        requires
            fits_i32(
                self.pitch.accidentals - semitones + letter_at(self.pitch.name.index() - 1).gap_above(),
            ),
            self.pitch.name == NoteName::C ==> self.octave > 0,
        ensures
            r == self.prev_spec(semitones as int),
            r.position() == self.position() - 1,
            r.semitone() == self.semitone() - semitones,
    {
        proof {
            lemma_natural_step(self.position() - 1);
        }
        let pitch = self.pitch.prev(semitones);
        let octave = match self.pitch.name {
            NoteName::C => self.octave - 1,
            _ => self.octave,
        };
        Note { pitch, octave }
    }

    /// The note `interval` above: `diatonic_steps` letters higher and `size`
    /// semitones higher.
    #[verifier::rlimit(30)]
    pub fn leap(&self, interval: Interval) -> (r: Note)
        requires
            self.leap_fits(interval),
        ensures
            r == self.leap_spec(interval),
            r.position() == self.position() + interval.steps(),
            r.semitone() == self.semitone() + interval.semitones(),
    {
        let steps = interval.diatonic_steps();
        let mut note = *self;
        let mut k: u32 = 0;
        while k < steps
            invariant
                k <= steps,
                steps == interval.steps(),
                self.leap_fits(interval),
                note.position() == self.position() + k,
                note.semitone() == self.semitone(),
                note.octave == self.octave + (self.pitch.name.index() + k) / 7,
                note.pitch.name == letter_at(self.pitch.name.index() + k),
                note.pitch.accidentals == self.pitch.accidentals - natural_span(
                    self.pitch.name.index(),
                    self.pitch.name.index() + k,
                ),
            decreases steps - k,
        {
            proof {
                lemma_natural_step(self.pitch.name.index() + k);
                lemma_natural_monotone(
                    self.pitch.name.index() + k + 1,
                    self.pitch.name.index() + steps,
                );
            }
            note = note.next(0);
            k = k + 1;
        }
        note.pitch.accidentals = note.pitch.accidentals + interval.size() as i32;
        note
    }

    /// The note `interval` below: `diatonic_steps` letters lower and `size`
    /// semitones lower.
    #[verifier::rlimit(30)]
    pub fn fall(&self, interval: Interval) -> (r: Note)
        requires
            self.fall_fits(interval),
        ensures
            r == self.fall_spec(interval),
            r.position() == self.position() - interval.steps(),
            r.semitone() == self.semitone() - interval.semitones(),
    {
        let steps = interval.diatonic_steps();
        let mut note = *self;
        let mut k: u32 = 0;
        while k < steps
            invariant
                k <= steps,
                steps == interval.steps(),
                self.fall_fits(interval),
                note.position() == self.position() - k,
                note.semitone() == self.semitone(),
                note.octave == self.octave + (self.pitch.name.index() - k) / 7,
                note.pitch.name == letter_at(self.pitch.name.index() - k),
                note.pitch.accidentals == self.pitch.accidentals + natural_span(
                    self.pitch.name.index() - k,
                    self.pitch.name.index(),
                ),
            decreases steps - k,
        {
            proof {
                lemma_natural_step(self.pitch.name.index() - k - 1);
                lemma_natural_monotone(
                    self.pitch.name.index() - steps,
                    self.pitch.name.index() - k - 1,
                );
            }
            note = note.prev(0);
            k = k + 1;
        }
        note.pitch.accidentals = note.pitch.accidentals - interval.size() as i32;
        note
    }
}

/// The note of a pitch in a given octave.
pub fn octave(pitch: Pitch, register: u32) -> (r: Note)
    ensures
        r == (Note { pitch, octave: register }),
{
    Note { pitch, octave: register }
}

/// A pitch from its letter name and accidental count.
pub fn pitch(name: NoteName, accidentals: Accidentals) -> (r: Pitch)
    ensures
        r == (Pitch { name, accidentals }),
{
    Pitch { name, accidentals }
}

/// `n` copies of `piece`, one after another.
pub open spec fn repeated(piece: Seq<char>, n: nat) -> Seq<char>
    decreases n,
{
    if n == 0 {
        Seq::empty()
    } else {
        repeated(piece, (n - 1) as nat) + piece
    }
}

/// The glyphs of an accidental count: a double sign for each pair and a
/// single sign for an odd one left over; nothing for a natural.
pub open spec fn accidental_glyphs(n: int) -> Seq<char> {
    if n < 0 {
        repeated(seq!['\u{1D12B}'], (-n / 2) as nat) + repeated(seq!['\u{266D}'], (-n % 2) as nat)
    } else {
        repeated(seq!['\u{1D12A}'], (n / 2) as nat) + repeated(seq!['\u{266F}'], (n % 2) as nat)
    }
}

/// The Dutch suffix of an accidental count: "es" per flat, "is" per sharp.
pub open spec fn dutch_suffix(n: int) -> Seq<char> {
    if n < 0 {
        repeated(seq!['e', 's'], (-n) as nat)
    } else {
        repeated(seq!['i', 's'], n as nat)
    }
}

/// Appends `n` copies of `piece` to `s`.
fn append_repeated(s: &mut String, piece: &str, n: u32)
    ensures
        final(s)@ == old(s)@ + repeated(piece@, n as nat),
{
    let mut k: u32 = 0;
    while k < n
        invariant
            k <= n,
            s@ == old(s)@ + repeated(piece@, k as nat),
        decreases n - k,
    {
        proof {
            assert(old(s)@ + repeated(piece@, k as nat) + piece@ =~= old(s)@ + repeated(piece@, (k + 1) as nat));
        }
        s.append(piece);
        k = k + 1;
    }
}

/// The absolute value of an accidental count.
fn magnitude(n: Accidentals) -> (r: u32)
    ensures
        r as int == if n < 0 { -n } else { n as int },
{
    if n < 0 {
        (-(n as i64)) as u32
    } else {
        n as u32
    }
}

/// Upper-case letter of a note name.
pub open spec fn letter_upper(name: NoteName) -> char {
    match name {
        NoteName::C => 'C',
        NoteName::D => 'D',
        NoteName::E => 'E',
        NoteName::F => 'F',
        NoteName::G => 'G',
        NoteName::A => 'A',
        NoteName::B => 'B',
    }
}

/// Lower-case letter of a note name.
pub open spec fn letter_lower(name: NoteName) -> char {
    match name {
        NoteName::C => 'c',
        NoteName::D => 'd',
        NoteName::E => 'e',
        NoteName::F => 'f',
        NoteName::G => 'g',
        NoteName::A => 'a',
        NoteName::B => 'b',
    }
}

fn upper_text(name: NoteName) -> (r: &'static str)
    ensures
        r@ == seq![letter_upper(name)],
{
    match name {
        NoteName::C => {
            proof {
                reveal_strlit("C");
            }
            "C"
        },
        NoteName::D => {
            proof {
                reveal_strlit("D");
            }
            "D"
        },
        NoteName::E => {
            proof {
                reveal_strlit("E");
            }
            "E"
        },
        NoteName::F => {
            proof {
                reveal_strlit("F");
            }
            "F"
        },
        NoteName::G => {
            proof {
                reveal_strlit("G");
            }
            "G"
        },
        NoteName::A => {
            proof {
                reveal_strlit("A");
            }
            "A"
        },
        NoteName::B => {
            proof {
                reveal_strlit("B");
            }
            "B"
        },
    }
}

fn lower_text(name: NoteName) -> (r: &'static str)
    ensures
        r@ == seq![letter_lower(name)],
{
    match name {
        NoteName::C => {
            proof {
                reveal_strlit("c");
            }
            "c"
        },
        NoteName::D => {
            proof {
                reveal_strlit("d");
            }
            "d"
        },
        NoteName::E => {
            proof {
                reveal_strlit("e");
            }
            "e"
        },
        NoteName::F => {
            proof {
                reveal_strlit("f");
            }
            "f"
        },
        NoteName::G => {
            proof {
                reveal_strlit("g");
            }
            "g"
        },
        NoteName::A => {
            proof {
                reveal_strlit("a");
            }
            "a"
        },
        NoteName::B => {
            proof {
                reveal_strlit("b");
            }
            "b"
        },
    }
}

/// The decimal digit of a number below ten.
pub open spec fn digit(d: nat) -> char {
    if d == 0 {
        '0'
    } else if d == 1 {
        '1'
    } else if d == 2 {
        '2'
    } else if d == 3 {
        '3'
    } else if d == 4 {
        '4'
    } else if d == 5 {
        '5'
    } else if d == 6 {
        '6'
    } else if d == 7 {
        '7'
    } else if d == 8 {
        '8'
    } else {
        '9'
    }
}

/// A number written in decimal, without leading zeros.
pub open spec fn decimal(n: nat) -> Seq<char>
    decreases n,
{
    if n < 10 {
        seq![digit(n)]
    } else {
        decimal(n / 10) + seq![digit(n % 10)]
    }
}

fn digit_text(d: u32) -> (r: &'static str)
    requires
        d < 10,
    ensures
        r@ == seq![digit(d as nat)],
{
    proof {
        reveal_strlit("0");
        reveal_strlit("1");
        reveal_strlit("2");
        reveal_strlit("3");
        reveal_strlit("4");
        reveal_strlit("5");
        reveal_strlit("6");
        reveal_strlit("7");
        reveal_strlit("8");
        reveal_strlit("9");
    }
    if d == 0 {
        "0"
    } else if d == 1 {
        "1"
    } else if d == 2 {
        "2"
    } else if d == 3 {
        "3"
    } else if d == 4 {
        "4"
    } else if d == 5 {
        "5"
    } else if d == 6 {
        "6"
    } else if d == 7 {
        "7"
    } else if d == 8 {
        "8"
    } else {
        "9"
    }
}

/// Appends `n` in decimal to `s`.
fn append_decimal(s: &mut String, n: u32)
    ensures
        final(s)@ == old(s)@ + decimal(n as nat),
    decreases n,
{
    if n >= 10 {
        append_decimal(s, n / 10);
    }
    s.append(digit_text(n % 10));
    proof {
        if n >= 10 {
            assert(old(s)@ + decimal((n / 10) as nat) + seq![digit((n % 10) as nat)] =~= old(s)@
                + decimal(n as nat));
        } else {
            assert(n % 10 == n);
        }
    }
}

/// How a pitch reads: its letter followed by the glyphs of its accidental.
pub open spec fn pitch_text(p: Pitch) -> Seq<char> {
    seq![letter_upper(p.name)] + accidental_glyphs(p.accidentals as int)
}

/// How a note reads: its pitch followed by its octave number.
pub open spec fn note_text(n: Note) -> Seq<char> {
    pitch_text(n.pitch) + decimal(n.octave as nat)
}

/// The pieces one after another, with `sep` between each two.
pub open spec fn joined(pieces: Seq<Seq<char>>, sep: Seq<char>) -> Seq<char>
    decreases pieces.len(),
{
    if pieces.len() == 0 {
        Seq::empty()
    } else if pieces.len() == 1 {
        pieces[0]
    } else {
        joined(pieces.drop_last(), sep) + sep + pieces.last()
    }
}

impl Note {
    /// The glyphs of an accidental count: 𝄪 for each pair of sharps and ♯ for
    /// an odd one, 𝄫 for each pair of flats and ♭ for an odd one.
    pub fn accidental_to_string(accidental: Accidentals) -> (r: String)
        ensures
            r@ == accidental_glyphs(accidental as int),
    {
        let m = magnitude(accidental);
        let mut s = String::new();
        assert(s@ == Seq::<char>::empty());
        if accidental < 0 {
            proof {
                reveal_strlit("\u{1D12B}");
                reveal_strlit("\u{266D}");
                assert("\u{1D12B}"@ == seq!['\u{1D12B}']);
                assert("\u{266D}"@ == seq!['\u{266D}']);
            }
            append_repeated(&mut s, "\u{1D12B}", m / 2);
            let ghost pairs = s@;
            assert(pairs =~= repeated(seq!['\u{1D12B}'], (m / 2) as nat));
            append_repeated(&mut s, "\u{266D}", m % 2);
            assert(s@ =~= pairs + repeated(seq!['\u{266D}'], (m % 2) as nat));
        } else {
            proof {
                reveal_strlit("\u{1D12A}");
                reveal_strlit("\u{266F}");
                assert("\u{1D12A}"@ == seq!['\u{1D12A}']);
                assert("\u{266F}"@ == seq!['\u{266F}']);
            }
            append_repeated(&mut s, "\u{1D12A}", m / 2);
            let ghost pairs = s@;
            assert(pairs =~= repeated(seq!['\u{1D12A}'], (m / 2) as nat));
            append_repeated(&mut s, "\u{266F}", m % 2);
            assert(s@ =~= pairs + repeated(seq!['\u{266F}'], (m % 2) as nat));
        }
        s
    }

    /// The Dutch suffix of an accidental count: "es" per flat, "is" per sharp.
    pub fn accidental_to_dutch_notation(accidental: Accidentals) -> (r: String)
        ensures
            r@ == dutch_suffix(accidental as int),
    {
        let m = magnitude(accidental);
        let mut s = String::new();
        assert(s@ == Seq::<char>::empty());
        if accidental < 0 {
            proof {
                reveal_strlit("es");
                assert("es"@ == seq!['e', 's']);
            }
            append_repeated(&mut s, "es", m);
            assert(s@ =~= repeated(seq!['e', 's'], m as nat));
        } else {
            proof {
                reveal_strlit("is");
                assert("is"@ == seq!['i', 's']);
            }
            append_repeated(&mut s, "is", m);
            assert(s@ =~= repeated(seq!['i', 's'], m as nat));
        }
        s
    }

    /// The note as text, such as "E\u{266D}4".
    pub fn to_string(&self) -> (r: String)
        ensures
            r@ == note_text(*self),
    {
        let mut s = self.pitch.to_string();
        append_decimal(&mut s, self.octave);
        s
    }
}

impl Pitch {
    /// The pitch as text, such as "E\u{266D}".
    pub fn to_string(&self) -> (r: String)
        ensures
            r@ == pitch_text(*self),
    {
        let mut s = String::new();
        s.append(upper_text(self.name));
        let glyphs = Note::accidental_to_string(self.accidentals);
        s.append(glyphs.as_str());
        s
    }
}

/// An ordered sequence of notes, such as the spelling of a scale.
#[derive(PartialEq, Eq, Debug, Clone)]
pub struct Notes(pub Vec<Note>);

impl View for Notes {
    type V = Seq<Note>;

    open spec fn view(&self) -> Seq<Note> {
        self.0@
    }
}


impl Notes {
    /// The notes as text, separated by ", ".
    pub fn to_string(&self) -> (r: String)
        ensures
            r@ == joined(self@.map_values(|n: Note| note_text(n)), seq![',', ' ']),
    {
        let ghost pieces = self@.map_values(|n: Note| note_text(n));
        let mut s = String::new();
        let mut k: usize = 0;
        while k < self.0.len()
            invariant
                k <= self.0.len(),
                pieces == self@.map_values(|n: Note| note_text(n)),
                s@ == joined(pieces.take(k as int), seq![',', ' ']),
            decreases self.0.len() - k,
        {
            let ghost before = s@;
            if k > 0 {
                proof {
                    reveal_strlit(", ");
                    assert(", "@ == seq![',', ' ']);
                }
                s.append(", ");
            }
            let text = self.0[k].to_string();
            s.append(text.as_str());
            proof {
                assert(pieces.take(k + 1).drop_last() =~= pieces.take(k as int));
                if k == 0 {
                    assert(before =~= Seq::<char>::empty());
                    assert(s@ =~= pieces.take(1)[0]);
                }
            }
            k = k + 1;
        }
        assert(pieces.take(k as int) =~= pieces);
        s
    }
}

/// Text that writes a value as a literal of the pitch and note shorthands.
pub trait FormatAsCode {
    spec fn code_text(&self) -> Seq<char>;

    fn fmt_as_code(&self) -> (r: String)
        ensures
            r@ == self.code_text(),
    ;
}

impl FormatAsCode for Note {
    /// The lower-case letter, the Dutch suffix, and the octave in "!(...)".
    open spec fn code_text(&self) -> Seq<char> {
        seq![letter_lower(self.pitch.name)] + dutch_suffix(self.pitch.accidentals as int) + seq![
            '!',
            '(',
        ] + decimal(self.octave as nat) + seq![')']
    }

    fn fmt_as_code(&self) -> (r: String) {
        let mut s = String::new();
        s.append(lower_text(self.pitch.name));
        let suffix = Note::accidental_to_dutch_notation(self.pitch.accidentals);
        s.append(suffix.as_str());
        proof {
            reveal_strlit("!(");
            reveal_strlit(")");
            assert("!("@ == seq!['!', '(']);
            assert(")"@ == seq![')']);
        }
        s.append("!(");
        append_decimal(&mut s, self.octave);
        s.append(")");
        assert(s@ =~= self.code_text());
        s
    }
}

impl FormatAsCode for Pitch {
    /// The lower-case letter, the Dutch suffix, and "!()".
    open spec fn code_text(&self) -> Seq<char> {
        seq![letter_lower(self.name)] + dutch_suffix(self.accidentals as int) + seq!['!', '(', ')']
    }

    fn fmt_as_code(&self) -> (r: String) {
        let mut s = String::new();
        s.append(lower_text(self.name));
        let suffix = Note::accidental_to_dutch_notation(self.accidentals);
        s.append(suffix.as_str());
        proof {
            reveal_strlit("!()");
            assert("!()"@ == seq!['!', '(', ')']);
        }
        s.append("!()");
        assert(s@ =~= self.code_text());
        s
    }
}

impl FormatAsCode for Notes {
    /// The notes' literals, separated by ", ", in brackets.
    open spec fn code_text(&self) -> Seq<char> {
        seq!['['] + joined(self@.map_values(|n: Note| n.code_text()), seq![',', ' ']) + seq![']']
    }

    fn fmt_as_code(&self) -> (r: String) {
        let ghost pieces = self@.map_values(|n: Note| n.code_text());
        let mut s = String::new();
        proof {
            reveal_strlit("[");
            reveal_strlit("]");
            reveal_strlit(", ");
            assert("["@ == seq!['[']);
            assert("]"@ == seq![']']);
            assert(", "@ == seq![',', ' ']);
        }
        s.append("[");
        let mut k: usize = 0;
        while k < self.0.len()
            invariant
                k <= self.0.len(),
                pieces == self@.map_values(|n: Note| n.code_text()),
                ", "@ == seq![',', ' '],
                s@ == seq!['['] + joined(pieces.take(k as int), seq![',', ' ']),
            decreases self.0.len() - k,
        {
            let ghost before = s@;
            if k > 0 {
                s.append(", ");
            }
            let text = self.0[k].fmt_as_code();
            s.append(text.as_str());
            proof {
                assert(pieces.take(k + 1).drop_last() =~= pieces.take(k as int));
                if k == 0 {
                    assert(before =~= seq!['[']);
                    assert(s@ =~= seq!['['] + pieces.take(1)[0]);
                } else {
                    assert(s@ =~= seq!['['] + joined(pieces.take(k + 1), seq![',', ' ']));
                }
            }
            k = k + 1;
        }
        assert(pieces.take(k as int) =~= pieces);
        s.append("]");
        assert(s@ =~= self.code_text());
        s
    }
}

/// The distinct pitches of the notes, octaves set aside, each listed once.
pub fn pitches(notes: &Notes) -> (r: Vec<Pitch>)
    ensures
        r@.no_duplicates(),
        forall|p: Pitch| r@.contains(p) <==> exists|k: int| 0 <= k < notes@.len() && (#[trigger] notes@[k]).pitch == p,
{
    let mut r: Vec<Pitch> = Vec::new();
    let mut k: usize = 0;
    while k < notes.0.len()
        invariant
            k <= notes.0.len(),
            r@.no_duplicates(),
            forall|p: Pitch| r@.contains(p) <==> exists|j: int| 0 <= j < k && (#[trigger] notes@[j]).pitch == p,
        decreases notes.0.len() - k,
    {
        let p = notes.0[k].pitch;
        let ghost before = r@;
        let mut seen = false;
        let mut j: usize = 0;
        while j < r.len()
            invariant
                j <= r.len(),
                r@ == before,
                seen == exists|i: int| 0 <= i < j && r@[i] == p,
            decreases r.len() - j,
        {
            if r[j] == p {
                seen = true;
            }
            j = j + 1;
        }
        if !seen {
            r.push(p);
        }
        proof {
            assert forall|q: Pitch| r@.contains(q) <==> (before.contains(q) || q == p) by {
                if !seen {
                    assert(r@ == before.push(p));
                    if r@.contains(q) && q != p {
                        let t = choose|t: int| 0 <= t < r@.len() && r@[t] == q;
                        assert(before[t] == q);
                    }
                    if before.contains(q) {
                        let t = choose|t: int| 0 <= t < before.len() && before[t] == q;
                        assert(r@[t] == q);
                    }
                    assert(r@[before.len() as int] == p);
                }
            }
            assert forall|q: Pitch| r@.contains(q) implies exists|i: int|
                0 <= i < k + 1 && (#[trigger] notes@[i]).pitch == q by {
                if q == p {
                    assert(notes@[k as int].pitch == q);
                } else {
                    assert(before.contains(q));
                    let j = choose|j: int| 0 <= j < k && (#[trigger] notes@[j]).pitch == q;
                    assert(notes@[j].pitch == q);
                }
            }
            assert forall|q: Pitch| (exists|i: int| 0 <= i < k + 1 && (#[trigger] notes@[i]).pitch == q) implies r@.contains(q) by {
                let i = choose|i: int| 0 <= i < k + 1 && (#[trigger] notes@[i]).pitch == q;
                if i < k {
                    assert(exists|j: int| 0 <= j < k && (#[trigger] notes@[j]).pitch == q);
                    assert(before.contains(q));
                } else {
                    assert(q == p);
                }
                assert(r@.contains(q));
            }
        }
        k = k + 1;
    }
    r
}

/// `a` is listed no later than `b`: by letter, then by accidental.
pub open spec fn pitch_precedes(a: Pitch, b: Pitch) -> bool {
    a.name.index() < b.name.index() || (a.name.index() == b.name.index() && a.accidentals
        <= b.accidentals)
}

pub open spec fn pitches_ascending(s: Seq<Pitch>) -> bool {
    forall|i: int, j: int| 0 <= i < j < s.len() ==> pitch_precedes(#[trigger] s[i], #[trigger] s[j])
}

fn name_index(name: NoteName) -> (r: u32)
    ensures
        r as int == name.index(),
{
    match name {
        NoteName::C => 0,
        NoteName::D => 1,
        NoteName::E => 2,
        NoteName::F => 3,
        NoteName::G => 4,
        NoteName::A => 5,
        NoteName::B => 6,
    }
}

/// Puts `x` into the ascending `sorted` after every pitch listed before it.
fn insert_pitch_in_order(sorted: &mut Vec<Pitch>, x: Pitch)
    requires
        pitches_ascending(old(sorted)@),
    ensures
        pitches_ascending(final(sorted)@),
        final(sorted)@.to_multiset() == old(sorted)@.to_multiset().insert(x),
{
    let index = name_index(x.name);
    let mut p: usize = 0;
    while p < sorted.len()
        invariant
            p <= sorted.len(),
            pitches_ascending(sorted@),
            index == x.name.index(),
            forall|j: int| 0 <= j < p ==> pitch_precedes(#[trigger] sorted@[j], x),
        ensures
            p <= sorted.len(),
            forall|j: int| 0 <= j < p ==> pitch_precedes(#[trigger] sorted@[j], x),
            p < sorted.len() ==> pitch_precedes(x, sorted@[p as int]),
        decreases sorted.len() - p,
    {
        let y = sorted[p];
        let yindex = name_index(y.name);
        if yindex > index || (yindex == index && y.accidentals > x.accidentals) {
            break;
        }
        p = p + 1;
    }
    proof {
        to_multiset_insert(sorted@, p as int, x);
        assert forall|j: int| p <= j < sorted@.len() implies pitch_precedes(x, #[trigger] sorted@[j]) by {
            assert(pitch_precedes(sorted@[p as int], sorted@[j]) || j == p);
        }
    }
    sorted.insert(p, x);
}

/// The pitches as text, ordered by letter and then by accidental, separated
/// by ", ".
pub fn pretty_pitches(pitches: &Vec<Pitch>) -> (r: String)
    ensures
        exists|order: Seq<Pitch>|
            {
                &&& order.to_multiset() == pitches@.to_multiset()
                &&& pitches_ascending(order)
                &&& r@ == joined(order.map_values(|p: Pitch| pitch_text(p)), seq![',', ' '])
            },
{
    let mut sorted: Vec<Pitch> = Vec::new();
    let mut i: usize = 0;
    assert(sorted@ =~= pitches@.take(0));
    while i < pitches.len()
        invariant
            i <= pitches.len(),
            pitches_ascending(sorted@),
            sorted@.to_multiset() == pitches@.take(i as int).to_multiset(),
        decreases pitches.len() - i,
    {
        proof {
            assert(pitches@.take(i + 1) =~= pitches@.take(i as int).push(pitches@[i as int]));
            to_multiset_build(pitches@.take(i as int), pitches@[i as int]);
        }
        insert_pitch_in_order(&mut sorted, pitches[i]);
        i = i + 1;
    }
    assert(pitches@.take(i as int) =~= pitches@);
    let ghost pieces = sorted@.map_values(|p: Pitch| pitch_text(p));
    let mut s = String::new();
    let mut k: usize = 0;
    while k < sorted.len()
        invariant
            k <= sorted.len(),
            pieces == sorted@.map_values(|p: Pitch| pitch_text(p)),
            s@ == joined(pieces.take(k as int), seq![',', ' ']),
        decreases sorted.len() - k,
    {
        let ghost before = s@;
        if k > 0 {
            proof {
                reveal_strlit(", ");
                assert(", "@ == seq![',', ' ']);
            }
            s.append(", ");
        }
        let text = sorted[k].to_string();
        s.append(text.as_str());
        proof {
            assert(pieces.take(k + 1).drop_last() =~= pieces.take(k as int));
            if k == 0 {
                assert(before =~= Seq::<char>::empty());
                assert(s@ =~= pieces.take(1)[0]);
            }
        }
        k = k + 1;
    }
    assert(pieces.take(k as int) =~= pieces);
    s
}

/// Why a note cannot be moved down.
#[derive(Debug, Clone, Copy, PartialEq, Eq, Structural)]
pub enum NoteError {
    /// The move would take the octave below zero.
    OctaveUnderflow,
    /// An accidental met on the way would not fit in `i32`.
    AccidentalOverflow,
}

/// The letter below a letter, and the semitones between their naturals.
fn letter_below(name: NoteName) -> (r: (NoteName, u32))
    ensures
        r.0 == letter_at(name.index() - 1),
        r.1 as int == natural_span(name.index() - 1, name.index()),
{
    proof {
        lemma_natural_step(name.index() - 1);
    }
    match name {
        NoteName::C => (NoteName::B, 1),
        NoteName::D => (NoteName::C, 2),
        NoteName::E => (NoteName::D, 2),
        NoteName::F => (NoteName::E, 1),
        NoteName::G => (NoteName::F, 2),
        NoteName::A => (NoteName::G, 2),
        NoteName::B => (NoteName::A, 2),
    }
}

/// Semitones between the naturals `steps` letters below `name` and `name`.
fn natural_span_below(name: NoteName, steps: u32) -> (r: u32)
    requires
        steps <= 7,
    ensures
        r as int == natural_span(name.index() - steps, name.index()),
{
    let ghost from = name.index();
    let mut cursor = name;
    let mut span: u32 = 0;
    let mut k: u32 = 0;
    while k < steps
        invariant
            k <= steps <= 7,
            from == name.index(),
            cursor == letter_at(from - k),
            span as int == natural_span(from - k, from),
            span <= 2 * k,
        decreases steps - k,
    {
        let (below, gap) = letter_below(cursor);
        proof {
            let x = from - k;
            lemma_natural_octaves(x, -(x / 7));
            lemma_natural_octaves(x - 1, -(x / 7));
            vstd::arithmetic::div_mod::lemma_fundamental_div_mod(x, 7);
            lemma_natural_step(x - 1);
            lemma_natural_step(x % 7 - 1);
        }
        span = span + gap;
        cursor = below;
        k = k + 1;
    }
    span
}

impl Note {
    /// The previous note name, `semitones` below, or why there is none: the
    /// octave would drop below zero, or the accidental would leave `i32`.
    pub fn try_prev(&self, semitones: i32) -> (r: Result<Note, NoteError>)
        ensures
            r == if self.pitch.name == NoteName::C && self.octave == 0 {
                Err(NoteError::OctaveUnderflow)
            } else if !fits_i32(
                self.pitch.accidentals - semitones + letter_at(self.pitch.name.index() - 1).gap_above(),
            ) {
                Err(NoteError::AccidentalOverflow)
            } else {
                Ok(self.prev_spec(semitones as int))
            },
    {
        if self.octave == 0 && self.pitch.name == NoteName::C {
            return Err(NoteError::OctaveUnderflow);
        }
        let (_, gap) = letter_below(self.pitch.name);
        let accidentals = self.pitch.accidentals as i64 - semitones as i64 + gap as i64;
        if accidentals < i32::MIN as i64 || accidentals > i32::MAX as i64 {
            return Err(NoteError::AccidentalOverflow);
        }
        Ok(self.prev(semitones))
    }

    /// The note `interval` below, or why there is none: the octave would drop
    /// below zero, or an accidental met on the way would leave `i32`.
    pub fn try_fall(&self, interval: Interval) -> (r: Result<Note, NoteError>)
        ensures
            r == if self.octave + (self.pitch.name.index() - interval.steps()) / 7 < 0 {
                Err(NoteError::OctaveUnderflow)
            } else if !self.pitch.fall_fits(interval) {
                Err(NoteError::AccidentalOverflow)
            } else {
                Ok(self.fall_spec(interval))
            },
    {
        let steps = interval.diatonic_steps();
        let index = name_index(self.pitch.name);
        if self.octave == 0 && index < steps {
            return Err(NoteError::OctaveUnderflow);
        }
        let span = natural_span_below(self.pitch.name, steps);
        let walked = self.pitch.accidentals as i64 + span as i64;
        let landed = walked - interval.size() as i64;
        if walked > i32::MAX as i64 || landed < i32::MIN as i64 {
            return Err(NoteError::AccidentalOverflow);
        }
        Ok(self.fall(interval))
    }
}

} // verus!
