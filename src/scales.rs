//! Scales as sets of intervals over a root note, the seven diatonic modes, and
//! their spelling.
//!
//! One reference mode, Lydian, is written out; every other mode is derived
//! from the one before it by replacing the interval of a single number.
use vstd::prelude::*;
use vstd::seq_lib::{to_multiset_build, to_multiset_insert, to_multiset_contains};
use crate::intervals::{AnyInterval, Diatonic, ImperfectInterval, Interval, PerfectInterval};
use crate::notes::{natural_span, Note, Notes};

verus! {

/// Chord qualities.
#[derive(Debug, Copy, Clone, PartialEq, Eq, Structural)]
pub enum Qualities {
    Major,
    Minor,
    Diminshed,
    Sus4,
    Sus2,
}

/// Chord tensions above the triad.
#[derive(Debug, Copy, Clone, PartialEq, Eq, Structural)]
pub enum Tensions {
    Seventh,
    Ninth,
    Eleventh,
    Thirteenth,
}

/// `a` comes no later than `b` when spelling: by size, then by diatonic steps.
pub open spec fn precedes(a: Interval, b: Interval) -> bool {
    a.semitones() < b.semitones() || (a.semitones() == b.semitones() && a.steps() <= b.steps())
}

/// The intervals are in spelling order.
pub open spec fn ascending(s: Seq<Interval>) -> bool {
    forall|i: int, j: int| 0 <= i < j < s.len() ==> precedes(#[trigger] s[i], #[trigger] s[j])
}

/// The notes obtained by leaping from `root` by each interval in turn.
pub open spec fn leaps_from(root: Note, s: Seq<Interval>) -> Seq<Note> {
    s.map_values(|i: Interval| root.leap_spec(i))
}

/// The intervals with the one of `src`'s number (the first, if several)
/// replaced by `dst`; unchanged when no interval has that number.
pub open spec fn substituted(s: Seq<Interval>, src: Interval, dst: Interval) -> Seq<Interval>
    decreases s.len(),
{
    if s.len() == 0 {
        s
    } else if s[0].number() == src.number() {
        s.update(0, dst)
    } else {
        seq![s[0]] + substituted(s.drop_first(), src, dst)
    }
}

proof fn lemma_substituted_at(s: Seq<Interval>, src: Interval, dst: Interval, k: int)
    requires
        0 <= k <= s.len(),
        forall|j: int| 0 <= j < k ==> s[j].number() != src.number(),
    ensures
        k < s.len() && s[k].number() == src.number() ==> substituted(s, src, dst) == s.update(k, dst),
        k == s.len() ==> substituted(s, src, dst) == s,
    decreases k,
{
    if k > 0 {
        lemma_substituted_at(s.drop_first(), src, dst, k - 1);
        assert(seq![s[0]] + s.drop_first() =~= s);
        if k < s.len() {
            assert(seq![s[0]] + s.drop_first().update(k - 1, dst) =~= s.update(k, dst));
        }
    }
}

/// Replaces the interval whose number is that of `src`, whatever its quality,
/// by `dst`. When no interval of that number is present the intervals come
/// back unchanged.
pub fn replace_in_scale(intervals: Vec<Interval>, src: Interval, dst: Interval) -> (r: Vec<
    Interval,
>)
    ensures
        r@ == substituted(intervals@, src, dst),
{
    let mut scale = intervals;
    let target = src.diatonic_steps();
    let mut k: usize = 0;
    while k < scale.len()
        invariant
            k <= scale.len(),
            scale@ == intervals@,
            target == src.steps(),
            forall|j: int| 0 <= j < k ==> scale@[j].number() != src.number(),
        decreases scale.len() - k,
    {
        if scale[k].diatonic_steps() == target {
            proof {
                crate::intervals::lemma_number_by_steps(scale@[k as int].number(), src.number());
                lemma_substituted_at(scale@, src, dst, k as int);
            }
            scale.set(k, dst);
            return scale;
        }
        proof {
            crate::intervals::lemma_number_by_steps(scale@[k as int].number(), src.number());
        }
        k = k + 1;
    }
    proof {
        lemma_substituted_at(scale@, src, dst, k as int);
    }
    scale
}

/// A scale: a set of intervals, one per interval number, over a root note.
pub trait Scale {
    /// The scale's intervals, in the order in which they are listed.
    spec fn interval_table() -> Seq<Interval>;

    /// The note the scale is built on.
    spec fn root_note(&self) -> Note;

    /// The scale's intervals, one per interval number.
    fn intervals() -> (r: Vec<Interval>)
        ensures
            r@ == Self::interval_table(),
    ;

    /// The note the scale is built on.
    fn root(&self) -> (r: Note)
        ensures
            r == self.root_note(),
    ;
}

/// Puts `x` into the ascending `sorted` after every interval that precedes it.
fn insert_in_order(sorted: &mut Vec<Interval>, x: Interval)
    requires
        ascending(old(sorted)@),
    ensures
        ascending(final(sorted)@),
        final(sorted)@.to_multiset() == old(sorted)@.to_multiset().insert(x),
{
    let size = x.size();
    let steps = x.diatonic_steps();
    let mut p: usize = 0;
    while p < sorted.len()
        invariant
            p <= sorted.len(),
            ascending(sorted@),
            size == x.semitones(),
            steps == x.steps(),
            forall|j: int| 0 <= j < p ==> precedes(#[trigger] sorted@[j], x),
        ensures
            p <= sorted.len(),
            forall|j: int| 0 <= j < p ==> precedes(#[trigger] sorted@[j], x),
            p < sorted.len() ==> precedes(x, sorted@[p as int]),
        decreases sorted.len() - p,
    {
        let y = sorted[p];
        let ysize = y.size();
        if ysize > size || (ysize == size && y.diatonic_steps() > steps) {
            break;
        }
        p = p + 1;
    }
    proof {
        to_multiset_insert(sorted@, p as int, x);
        assert forall|j: int| p <= j < sorted@.len() implies precedes(x, #[trigger] sorted@[j]) by {
            assert(precedes(sorted@[p as int], sorted@[j]) || j == p);
        }
    }
    sorted.insert(p, x);
}

/// Spells a scale: its intervals in ascending order of size (intervals of one
/// size by their diatonic steps), each applied to the root note.
pub fn spell<S: Scale>(scale: S) -> (r: Notes)
    requires
        forall|k: int|
            0 <= k < S::interval_table().len() ==> scale.root_note().leap_fits(
                #[trigger] S::interval_table()[k],
            ),
    ensures
        exists|order: Seq<Interval>|
            {
                &&& order.to_multiset() == S::interval_table().to_multiset()
                &&& ascending(order)
                &&& r@ == leaps_from(scale.root_note(), order)
            },
{
    let intervals = S::intervals();
    let mut sorted: Vec<Interval> = Vec::new();
    let mut i: usize = 0;
    assert(sorted@ =~= intervals@.take(0));
    while i < intervals.len()
        invariant
            i <= intervals.len(),
            intervals@ == S::interval_table(),
            ascending(sorted@),
            sorted@.to_multiset() == intervals@.take(i as int).to_multiset(),
        decreases intervals.len() - i,
    {
        proof {
            assert(intervals@.take(i + 1) =~= intervals@.take(i as int).push(intervals@[i as int]));
            to_multiset_build(intervals@.take(i as int), intervals@[i as int]);
        }
        insert_in_order(&mut sorted, intervals[i]);
        i = i + 1;
    }
    assert(intervals@.take(i as int) =~= intervals@);
    let ghost root = scale.root_note();
    let mut notes: Vec<Note> = Vec::new();
    let mut k: usize = 0;
    while k < sorted.len()
        invariant
            k <= sorted.len(),
            root == scale.root_note(),
            sorted@.to_multiset() == S::interval_table().to_multiset(),
            forall|j: int|
                0 <= j < S::interval_table().len() ==> root.leap_fits(
                    #[trigger] S::interval_table()[j],
                ),
            notes@ == leaps_from(root, sorted@.take(k as int)),
        decreases sorted.len() - k,
    {
        proof {
            to_multiset_contains(sorted@, sorted@[k as int]);
            to_multiset_contains(S::interval_table(), sorted@[k as int]);
            assert(sorted@.contains(sorted@[k as int]));
            assert(leaps_from(root, sorted@.take(k + 1)) =~= leaps_from(root, sorted@.take(k as int)).push(
                root.leap_spec(sorted@[k as int]),
            ));
        }
        let note = scale.root().leap(sorted[k]);
        notes.push(note);
        k = k + 1;
    }
    assert(sorted@.take(k as int) =~= sorted@);
    Notes(notes)
}

/// The mode with the fourth raised: the reference from which the other modes
/// are derived.
pub struct Lydian {
    pub root: Note,
}

impl Scale for Lydian {
    open spec fn interval_table() -> Seq<Interval> {
        seq![
            Interval::Perfect(PerfectInterval::Unison),
            Interval::Major(ImperfectInterval::Second),
            Interval::Major(ImperfectInterval::Third),
            Interval::Augmented(AnyInterval::Perfect(PerfectInterval::Fourth)),
            Interval::Perfect(PerfectInterval::Fifth),
            Interval::Major(ImperfectInterval::Sixth),
            Interval::Major(ImperfectInterval::Seventh),
        ]
    }

    open spec fn root_note(&self) -> Note {
        self.root
    }

    fn intervals() -> (r: Vec<Interval>) {
        let r = vec![
            Interval::Perfect(PerfectInterval::Unison),
            Interval::Major(ImperfectInterval::Second),
            Interval::Major(ImperfectInterval::Third),
            Interval::Augmented(AnyInterval::Perfect(PerfectInterval::Fourth)),
            Interval::Perfect(PerfectInterval::Fifth),
            Interval::Major(ImperfectInterval::Sixth),
            Interval::Major(ImperfectInterval::Seventh),
        ];
        assert(r@ =~= Self::interval_table());
        r
    }

    fn root(&self) -> (r: Note) {
        self.root
    }
}

/// The major scale: Lydian with its fourth lowered to perfect.
pub struct Ionian {
    pub root: Note,
}

impl Scale for Ionian {
    open spec fn interval_table() -> Seq<Interval> {
        substituted(
            Lydian::interval_table(),
            Interval::Augmented(AnyInterval::Perfect(PerfectInterval::Fourth)),
            Interval::Perfect(PerfectInterval::Fourth),
        )
    }

    open spec fn root_note(&self) -> Note {
        self.root
    }

    fn intervals() -> (r: Vec<Interval>) {
        replace_in_scale(
            Lydian::intervals(),
            Interval::Augmented(AnyInterval::Perfect(PerfectInterval::Fourth)),
            Interval::Perfect(PerfectInterval::Fourth),
        )
    }

    fn root(&self) -> (r: Note) {
        self.root
    }
}

pub type Major = Ionian;

/// Ionian with its seventh lowered to minor.
pub struct Mixolydian {
    pub root: Note,
}

impl Scale for Mixolydian {
    open spec fn interval_table() -> Seq<Interval> {
        substituted(
            Ionian::interval_table(),
            Interval::Major(ImperfectInterval::Seventh),
            Interval::Minor(ImperfectInterval::Seventh),
        )
    }

    open spec fn root_note(&self) -> Note {
        self.root
    }

    fn intervals() -> (r: Vec<Interval>) {
        replace_in_scale(
            Ionian::intervals(),
            Interval::Major(ImperfectInterval::Seventh),
            Interval::Minor(ImperfectInterval::Seventh),
        )
    }

    fn root(&self) -> (r: Note) {
        self.root
    }
}

/// Mixolydian with its third lowered to minor.
pub struct Dorian {
    pub root: Note,
}

impl Scale for Dorian {
    open spec fn interval_table() -> Seq<Interval> {
        substituted(
            Mixolydian::interval_table(),
            Interval::Major(ImperfectInterval::Third),
            Interval::Minor(ImperfectInterval::Third),
        )
    }

    open spec fn root_note(&self) -> Note {
        self.root
    }

    fn intervals() -> (r: Vec<Interval>) {
        replace_in_scale(
            Mixolydian::intervals(),
            Interval::Major(ImperfectInterval::Third),
            Interval::Minor(ImperfectInterval::Third),
        )
    }

    fn root(&self) -> (r: Note) {
        self.root
    }
}

/// The natural minor scale: Dorian with its sixth lowered to minor.
pub struct Aeolian {
    pub root: Note,
}

impl Scale for Aeolian {
    open spec fn interval_table() -> Seq<Interval> {
        substituted(
            Dorian::interval_table(),
            Interval::Major(ImperfectInterval::Sixth),
            Interval::Minor(ImperfectInterval::Sixth),
        )
    }

    open spec fn root_note(&self) -> Note {
        self.root
    }

    fn intervals() -> (r: Vec<Interval>) {
        replace_in_scale(
            Dorian::intervals(),
            Interval::Major(ImperfectInterval::Sixth),
            Interval::Minor(ImperfectInterval::Sixth),
        )
    }

    fn root(&self) -> (r: Note) {
        self.root
    }
}

pub type Minor = Aeolian;

/// Aeolian with its second lowered to minor.
pub struct Phrygian {
    pub root: Note,
}

impl Scale for Phrygian {
    open spec fn interval_table() -> Seq<Interval> {
        substituted(
            Aeolian::interval_table(),
            Interval::Major(ImperfectInterval::Second),
            Interval::Minor(ImperfectInterval::Second),
        )
    }

    open spec fn root_note(&self) -> Note {
        self.root
    }

    fn intervals() -> (r: Vec<Interval>) {
        replace_in_scale(
            Aeolian::intervals(),
            Interval::Major(ImperfectInterval::Second),
            Interval::Minor(ImperfectInterval::Second),
        )
    }

    fn root(&self) -> (r: Note) {
        self.root
    }
}

/// Phrygian with its fifth lowered to diminished.
pub struct Locrian {
    pub root: Note,
}

impl Scale for Locrian {
    open spec fn interval_table() -> Seq<Interval> {
        substituted(
            Phrygian::interval_table(),
            Interval::Perfect(PerfectInterval::Fifth),
            Interval::Diminshed(AnyInterval::Perfect(PerfectInterval::Fifth)),
        )
    }

    open spec fn root_note(&self) -> Note {
        self.root
    }

    fn intervals() -> (r: Vec<Interval>) {
        replace_in_scale(
            Phrygian::intervals(),
            Interval::Perfect(PerfectInterval::Fifth),
            Interval::Diminshed(AnyInterval::Perfect(PerfectInterval::Fifth)),
        )
    }

    fn root(&self) -> (r: Note) {
        self.root
    }
}

/// One interval of each number from unison to seventh, listed by number.
pub open spec fn one_per_number(s: Seq<Interval>) -> bool {
    &&& s.len() == 7
    &&& forall|k: int| 0 <= k < 7 ==> (#[trigger] s[k]).steps() == k
}

/// The substitution chain from Lydian yields, mode by mode, these tables.
pub proof fn lemma_mode_tables()
    ensures
        Ionian::interval_table() == seq![
            Interval::Perfect(PerfectInterval::Unison),
            Interval::Major(ImperfectInterval::Second),
            Interval::Major(ImperfectInterval::Third),
            Interval::Perfect(PerfectInterval::Fourth),
            Interval::Perfect(PerfectInterval::Fifth),
            Interval::Major(ImperfectInterval::Sixth),
            Interval::Major(ImperfectInterval::Seventh),
        ],
        Mixolydian::interval_table() == Ionian::interval_table().update(
            6,
            Interval::Minor(ImperfectInterval::Seventh),
        ),
        Dorian::interval_table() == Mixolydian::interval_table().update(
            2,
            Interval::Minor(ImperfectInterval::Third),
        ),
        Aeolian::interval_table() == Dorian::interval_table().update(
            5,
            Interval::Minor(ImperfectInterval::Sixth),
        ),
        Phrygian::interval_table() == Aeolian::interval_table().update(
            1,
            Interval::Minor(ImperfectInterval::Second),
        ),
        Locrian::interval_table() == Phrygian::interval_table().update(
            4,
            Interval::Diminshed(AnyInterval::Perfect(PerfectInterval::Fifth)),
        ),
{
    let lydian = Lydian::interval_table();
    lemma_substituted_at(
        lydian,
        Interval::Augmented(AnyInterval::Perfect(PerfectInterval::Fourth)),
        Interval::Perfect(PerfectInterval::Fourth),
        3,
    );
    lemma_substituted_at(
        Ionian::interval_table(),
        Interval::Major(ImperfectInterval::Seventh),
        Interval::Minor(ImperfectInterval::Seventh),
        6,
    );
    lemma_substituted_at(
        Mixolydian::interval_table(),
        Interval::Major(ImperfectInterval::Third),
        Interval::Minor(ImperfectInterval::Third),
        2,
    );
    lemma_substituted_at(
        Dorian::interval_table(),
        Interval::Major(ImperfectInterval::Sixth),
        Interval::Minor(ImperfectInterval::Sixth),
        5,
    );
    lemma_substituted_at(
        Aeolian::interval_table(),
        Interval::Major(ImperfectInterval::Second),
        Interval::Minor(ImperfectInterval::Second),
        1,
    );
    lemma_substituted_at(
        Phrygian::interval_table(),
        Interval::Perfect(PerfectInterval::Fifth),
        Interval::Diminshed(AnyInterval::Perfect(PerfectInterval::Fifth)),
        4,
    );
}

/// Each of the seven modes holds exactly one interval of each number.
pub proof fn lemma_modes_one_per_number()
    ensures
        one_per_number(Lydian::interval_table()),
        one_per_number(Ionian::interval_table()),
        one_per_number(Mixolydian::interval_table()),
        one_per_number(Dorian::interval_table()),
        one_per_number(Aeolian::interval_table()),
        one_per_number(Phrygian::interval_table()),
        one_per_number(Locrian::interval_table()),
{
    lemma_mode_tables();
}

/// Spelling a scale of one interval per number, in any order of its
/// intervals, gives seven notes that name each letter exactly once.
#[verifier::rlimit(30)]
pub proof fn lemma_spelling_names_each_letter_once(
    root: Note,
    table: Seq<Interval>,
    order: Seq<Interval>,
)
    requires
        one_per_number(table),
        order.to_multiset() == table.to_multiset(),
    ensures
        leaps_from(root, order).len() == 7,
        forall|a: int, b: int|
            0 <= a < 7 && 0 <= b < 7 && a != b ==> (#[trigger] leaps_from(root, order)[a]).pitch.name
                != (#[trigger] leaps_from(root, order)[b]).pitch.name,
{
    broadcast use vstd::seq_lib::group_to_multiset_ensures;

    assert(table.no_duplicates()) by {
        assert forall|x: int, y: int| 0 <= x < table.len() && 0 <= y < table.len() && x != y implies table[x]
            != table[y] by {
            assert(table[x].steps() == x);
            assert(table[y].steps() == y);
        }
    }
    table.lemma_multiset_has_no_duplicates();
    order.lemma_multiset_has_no_duplicates_conv();
    vstd::seq_lib::to_multiset_len(order);
    vstd::seq_lib::to_multiset_len(table);
    let from = root.pitch.name.index();
    assert forall|a: int, b: int|
        0 <= a < 7 && 0 <= b < 7 && a != b implies (#[trigger] leaps_from(root, order)[a]).pitch.name
        != (#[trigger] leaps_from(root, order)[b]).pitch.name by {
        assert(order.contains(order[a]));
        assert(order.contains(order[b]));
        to_multiset_contains(order, order[a]);
        to_multiset_contains(order, order[b]);
        to_multiset_contains(table, order[a]);
        to_multiset_contains(table, order[b]);
        let x = choose|x: int| 0 <= x < 7 && table[x] == order[a];
        let y = choose|y: int| 0 <= y < 7 && table[y] == order[b];
        assert(order[a].steps() == x);
        assert(order[b].steps() == y);
        crate::notes::lemma_natural_step(from + x - 1);
        crate::notes::lemma_natural_step(from + y - 1);
    }
}

/// The accidentals of the notes added up: sharps count one up, flats one down.
pub open spec fn accidental_total(notes: Seq<Note>) -> int {
    notes.fold_left(0int, |total: int, n: Note| total + n.pitch.accidentals)
}

/// The accidentals of the notes that leaping from `root` by each interval
/// gives, added up.
spec fn leap_total(root: Note, s: Seq<Interval>) -> int {
    s.fold_left(0int, |total: int, i: Interval| total + root.leap_spec(i).pitch.accidentals)
}

proof fn lemma_total_of_leaps(root: Note, s: Seq<Interval>)
    ensures
        accidental_total(leaps_from(root, s)) == leap_total(root, s),
    decreases s.len(),
{
    if s.len() > 0 {
        lemma_total_of_leaps(root, s.drop_last());
        assert(leaps_from(root, s).drop_last() =~= leaps_from(root, s.drop_last()));
    }
}

proof fn lemma_leap_total_any_order(root: Note, a: Seq<Interval>, b: Seq<Interval>)
    requires
        a.to_multiset() == b.to_multiset(),
    ensures
        leap_total(root, a) == leap_total(root, b),
{
    let f = |total: int, i: Interval| total + root.leap_spec(i).pitch.accidentals;
    assert(vstd::seq_lib::commutative_foldl(f));
    vstd::seq_lib::lemma_fold_left_permutation(a, b, f, 0int);
}

/// The sum of the accidentals of the major scale over a root, degree by degree.
#[verifier::rlimit(30)]
proof fn lemma_major_total(root: Note)
    requires
        forall|k: int| 0 <= k < 7 ==> root.pitch.leap_fits(#[trigger] Major::interval_table()[k]),
    ensures
        leap_total(root, Major::interval_table()) == 7 * root.pitch.accidentals + 38
            - natural_span(root.pitch.name.index(), root.pitch.name.index() + 1)
            - natural_span(root.pitch.name.index(), root.pitch.name.index() + 2)
            - natural_span(root.pitch.name.index(), root.pitch.name.index() + 3)
            - natural_span(root.pitch.name.index(), root.pitch.name.index() + 4)
            - natural_span(root.pitch.name.index(), root.pitch.name.index() + 5)
            - natural_span(root.pitch.name.index(), root.pitch.name.index() + 6),
{
    let t = Major::interval_table();
    let f = |total: int, i: Interval| total + root.leap_spec(i).pitch.accidentals;
    lemma_mode_tables();
    assert forall|j: int| 0 < j <= 7 implies #[trigger] t.take(j).fold_left(0int, f) == t.take(
        j - 1,
    ).fold_left(0int, f) + root.leap_spec(t[j - 1]).pitch.accidentals by {
        assert(t.take(j).drop_last() =~= t.take(j - 1));
    }
    assert(t.take(0).fold_left(0int, f) == 0);
    assert(t.take(1).fold_left(0int, f) == root.leap_spec(t[0]).pitch.accidentals);
    assert(t.take(2).fold_left(0int, f) == t.take(1).fold_left(0int, f) + root.leap_spec(t[1]).pitch.accidentals);
    assert(t.take(3).fold_left(0int, f) == t.take(2).fold_left(0int, f) + root.leap_spec(t[2]).pitch.accidentals);
    assert(t.take(4).fold_left(0int, f) == t.take(3).fold_left(0int, f) + root.leap_spec(t[3]).pitch.accidentals);
    assert(t.take(5).fold_left(0int, f) == t.take(4).fold_left(0int, f) + root.leap_spec(t[4]).pitch.accidentals);
    assert(t.take(6).fold_left(0int, f) == t.take(5).fold_left(0int, f) + root.leap_spec(t[5]).pitch.accidentals);
    assert(t.take(7).fold_left(0int, f) == t.take(6).fold_left(0int, f) + root.leap_spec(t[6]).pitch.accidentals);
    assert(t.take(7) =~= t);
    assert(root.pitch.leap_fits(t[0]));
    assert(root.pitch.leap_fits(t[1]));
    assert(root.pitch.leap_fits(t[2]));
    assert(root.pitch.leap_fits(t[3]));
    assert(root.pitch.leap_fits(t[4]));
    assert(root.pitch.leap_fits(t[5]));
    assert(root.pitch.leap_fits(t[6]));
}

/// The naturals spanned by a major scale over each letter, compared with those
/// spanned over the letter a fifth higher.
#[verifier::rlimit(30)]
proof fn lemma_fifth_spans(from: int)
    requires
        0 <= from < 7,
    ensures
        ({
            let to = (from + 4) % 7;
            49 - 7 * natural_span(from, from + 4) - natural_span(to, to + 1) - natural_span(to, to + 2)
                - natural_span(to, to + 3) - natural_span(to, to + 4) - natural_span(to, to + 5)
                - natural_span(to, to + 6) + natural_span(from, from + 1) + natural_span(from, from + 2)
                + natural_span(from, from + 3) + natural_span(from, from + 4) + natural_span(
                from,
                from + 5,
            ) + natural_span(from, from + 6) == 1
        }),
{
    if from == 0 {
    } else if from == 1 {
    } else if from == 2 {
    } else if from == 3 {
    } else if from == 4 {
    } else if from == 5 {
    } else {
    }
}

/// Moving the root of a major scale up a perfect fifth adds one sharp, or
/// takes one flat away: whatever order its intervals are spelled in, the
/// accidentals of the new scale add up to one more than those of the old.
#[verifier::rlimit(30)]
pub proof fn lemma_fifth_up_adds_a_sharp(root: Note, order: Seq<Interval>, next_order: Seq<Interval>)
    requires
        order.to_multiset() == Major::interval_table().to_multiset(),
        next_order.to_multiset() == Major::interval_table().to_multiset(),
        root.pitch.leap_fits(Interval::Perfect(PerfectInterval::Fifth)),
        forall|k: int|
            0 <= k < 7 ==> root.pitch.leap_fits(#[trigger] Major::interval_table()[k])
                && root.leap_spec(Interval::Perfect(PerfectInterval::Fifth)).pitch.leap_fits(
                Major::interval_table()[k],
            ),
    ensures
        accidental_total(leaps_from(root.leap_spec(Interval::Perfect(PerfectInterval::Fifth)), next_order))
            == accidental_total(leaps_from(root, order)) + 1,
{
    let fifth = Interval::Perfect(PerfectInterval::Fifth);
    let up = root.leap_spec(fifth);
    let t = Major::interval_table();
    lemma_total_of_leaps(root, order);
    lemma_total_of_leaps(up, next_order);
    lemma_leap_total_any_order(root, order, t);
    lemma_leap_total_any_order(up, next_order, t);
    lemma_major_total(root);
    lemma_major_total(up);
    let from = root.pitch.name.index();
    assert(up.pitch.name.index() == (from + 4) % 7) by {
        crate::notes::lemma_natural_step(from + 3);
    }
    assert(up.pitch.accidentals == root.pitch.accidentals + 7 - natural_span(from, from + 4));
    lemma_fifth_spans(from);
}

} // verus!
