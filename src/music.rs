//! Note names, scales and the octave layout of a scale.

use vstd::prelude::*;

verus! {

/// The twelve pitch classes of the chromatic scale, starting at C.
#[derive(Debug, Copy, Clone, PartialEq, Eq, Hash, Structural)]
pub enum NoteName {
    C,
    CSharp,
    D,
    DSharp,
    E,
    F,
    FSharp,
    G,
    GSharp,
    A,
    ASharp,
    B,
}

/// Position of a note within the octave, C being 0 and B being 11.
pub open spec fn semitone_of(n: NoteName) -> nat {
    match n {
        NoteName::C => 0,
        NoteName::CSharp => 1,
        NoteName::D => 2,
        NoteName::DSharp => 3,
        NoteName::E => 4,
        NoteName::F => 5,
        NoteName::FSharp => 6,
        NoteName::G => 7,
        NoteName::GSharp => 8,
        NoteName::A => 9,
        NoteName::ASharp => 10,
        NoteName::B => 11,
    }
}

/// The usual written name of a note, with `#` for sharps.
pub open spec fn note_label(n: NoteName) -> Seq<char> {
    match n {
        NoteName::C => seq!['C'],
        NoteName::CSharp => seq!['C', '#'],
        NoteName::D => seq!['D'],
        NoteName::DSharp => seq!['D', '#'],
        NoteName::E => seq!['E'],
        NoteName::F => seq!['F'],
        NoteName::FSharp => seq!['F', '#'],
        NoteName::G => seq!['G'],
        NoteName::GSharp => seq!['G', '#'],
        NoteName::A => seq!['A'],
        NoteName::ASharp => seq!['A', '#'],
        NoteName::B => seq!['B'],
    }
}

/// Reference frequency of a note in octave 4, in hundredths of a hertz
/// (C4 = 261.63 Hz, A4 = 440 Hz).
pub open spec fn octave_4_centihertz_of(n: NoteName) -> nat {
    match n {
        NoteName::C => 26163,
        NoteName::CSharp => 27718,
        NoteName::D => 29366,
        NoteName::DSharp => 31113,
        NoteName::E => 32963,
        NoteName::F => 34923,
        NoteName::FSharp => 36999,
        NoteName::G => 39200,
        NoteName::GSharp => 41530,
        NoteName::A => 44000,
        NoteName::ASharp => 46616,
        NoteName::B => 49388,
    }
}

impl NoteName {
    /// Position of the note within the octave (C = 0, ..., B = 11).
    pub fn semitone(&self) -> (r: u8)
        ensures
            r as nat == semitone_of(*self),
            r < 12,
    {
        match self {
            NoteName::C => 0,
            NoteName::CSharp => 1,
            NoteName::D => 2,
            NoteName::DSharp => 3,
            NoteName::E => 4,
            NoteName::F => 5,
            NoteName::FSharp => 6,
            NoteName::G => 7,
            NoteName::GSharp => 8,
            NoteName::A => 9,
            NoteName::ASharp => 10,
            NoteName::B => 11,
        }
    }

    /// Reference frequency in octave 4, in hundredths of a hertz.
    pub fn octave_4_centihertz(&self) -> (r: u32)
        ensures
            r as nat == octave_4_centihertz_of(*self),
    {
        match self {
            NoteName::C => 26163,
            NoteName::CSharp => 27718,
            NoteName::D => 29366,
            NoteName::DSharp => 31113,
            NoteName::E => 32963,
            NoteName::F => 34923,
            NoteName::FSharp => 36999,
            NoteName::G => 39200,
            NoteName::GSharp => 41530,
            NoteName::A => 44000,
            NoteName::ASharp => 46616,
            NoteName::B => 49388,
        }
    }

    /// The written name of the note ("C", "C#", ...).
    pub fn to_string(&self) -> (r: String)
        ensures
            r@ == note_label(*self),
    {
        let s: &str = match self {
            NoteName::C => "C",
            NoteName::CSharp => "C#",
            NoteName::D => "D",
            NoteName::DSharp => "D#",
            NoteName::E => "E",
            NoteName::F => "F",
            NoteName::FSharp => "F#",
            NoteName::G => "G",
            NoteName::GSharp => "G#",
            NoteName::A => "A",
            NoteName::ASharp => "A#",
            NoteName::B => "B",
        };
        proof {
            reveal_strlit("C");
            reveal_strlit("C#");
            reveal_strlit("D");
            reveal_strlit("D#");
            reveal_strlit("E");
            reveal_strlit("F");
            reveal_strlit("F#");
            reveal_strlit("G");
            reveal_strlit("G#");
            reveal_strlit("A");
            reveal_strlit("A#");
            reveal_strlit("B");
        }
        s.to_owned()
    }
}


/// The note subsets that frequencies can be snapped to.
#[derive(Debug, Copy, Clone, PartialEq, Eq, Hash, Structural)]
pub enum FrequencyQuantizationType {
    Chromatic,
    Diatonic,
    Pentatonic,
}

/// Notes of each quantization type within one octave, in ascending order:
/// all twelve, C major, and C major pentatonic.
pub open spec fn scale_notes(t: FrequencyQuantizationType) -> Seq<NoteName> {
    match t {
        FrequencyQuantizationType::Chromatic => seq![
            NoteName::C,
            NoteName::CSharp,
            NoteName::D,
            NoteName::DSharp,
            NoteName::E,
            NoteName::F,
            NoteName::FSharp,
            NoteName::G,
            NoteName::GSharp,
            NoteName::A,
            NoteName::ASharp,
            NoteName::B,
        ],
        FrequencyQuantizationType::Diatonic => seq![
            NoteName::C,
            NoteName::D,
            NoteName::E,
            NoteName::F,
            NoteName::G,
            NoteName::A,
            NoteName::B,
        ],
        FrequencyQuantizationType::Pentatonic => seq![
            NoteName::C,
            NoteName::D,
            NoteName::E,
            NoteName::G,
            NoteName::A,
        ],
    }
}

impl FrequencyQuantizationType {
    /// The notes of one octave of this scale, in ascending order.
    pub fn to_scale(&self) -> (r: Vec<NoteName>)
        ensures
            r@ == scale_notes(*self),
    {
        match self {
            FrequencyQuantizationType::Chromatic => vec![
                NoteName::C,
                NoteName::CSharp,
                NoteName::D,
                NoteName::DSharp,
                NoteName::E,
                NoteName::F,
                NoteName::FSharp,
                NoteName::G,
                NoteName::GSharp,
                NoteName::A,
                NoteName::ASharp,
                NoteName::B,
            ],
            FrequencyQuantizationType::Diatonic => vec![
                NoteName::C,
                NoteName::D,
                NoteName::E,
                NoteName::F,
                NoteName::G,
                NoteName::A,
                NoteName::B,
            ],
            FrequencyQuantizationType::Pentatonic => vec![
                NoteName::C,
                NoteName::D,
                NoteName::E,
                NoteName::G,
                NoteName::A,
            ],
        }
    }
}


/// A note in a given octave (scientific pitch notation: A4 is 440 Hz).
#[derive(Debug, Copy, Clone, PartialEq, Eq, Hash, Structural)]
pub struct Pitch {
    pub note: NoteName,
    pub octave: i32,
}

/// Number of semitones above C0; pitches sound higher exactly when this is larger.
pub open spec fn pitch_rank(p: Pitch) -> int {
    12 * p.octave + semitone_of(p.note)
}

/// The pitches in `octave` of those notes of `notes` whose position in the
/// octave is `s`, one for each occurrence, in the order of `notes`.
pub open spec fn pitches_with_semitone(notes: Seq<NoteName>, octave: i32, s: nat) -> Seq<Pitch>
    decreases notes.len(),
{
    if notes.len() == 0 {
        seq![]
    } else {
        let rest = pitches_with_semitone(notes.drop_last(), octave, s);
        if semitone_of(notes.last()) == s {
            rest.push(Pitch { note: notes.last(), octave })
        } else {
            rest
        }
    }
}

/// The pitches of `notes` in one octave whose position in the octave is
/// below `upto`, by ascending position.
pub open spec fn octave_pitches(notes: Seq<NoteName>, octave: i32, upto: nat) -> Seq<Pitch>
    decreases upto,
{
    if upto == 0 {
        seq![]
    } else {
        octave_pitches(notes, octave, (upto - 1) as nat) + pitches_with_semitone(
            notes,
            octave,
            (upto - 1) as nat,
        )
    }
}

/// The scale made of `notes` in each octave from `start` to `end`, lowest
/// octave first, each octave in ascending order.
pub open spec fn scale_pitches(notes: Seq<NoteName>, start: int, end: int) -> Seq<Pitch>
    decreases end - start + 1,
{
    if end < start {
        seq![]
    } else {
        scale_pitches(notes, start, end - 1) + octave_pitches(notes, end as i32, 12)
    }
}

/// True when the ranks of `ps` never decrease.
pub open spec fn ascending(ps: Seq<Pitch>) -> bool {
    forall|i: int, j: int| 0 <= i < j < ps.len() ==> pitch_rank(ps[i]) <= pitch_rank(ps[j])
}

proof fn lemma_pitches_with_semitone(notes: Seq<NoteName>, octave: i32, s: nat)
    ensures
        forall|k: int|
            0 <= k < pitches_with_semitone(notes, octave, s).len() ==> {
                &&& (#[trigger] pitches_with_semitone(notes, octave, s)[k]).octave == octave
                &&& semitone_of(pitches_with_semitone(notes, octave, s)[k].note) == s
            },
    decreases notes.len(),
{
    if notes.len() > 0 {
        lemma_pitches_with_semitone(notes.drop_last(), octave, s);
    }
}

proof fn lemma_octave_pitches(notes: Seq<NoteName>, octave: i32, upto: nat)
    ensures
        ascending(octave_pitches(notes, octave, upto)),
        forall|k: int|
            0 <= k < octave_pitches(notes, octave, upto).len() ==> {
                &&& (#[trigger] octave_pitches(notes, octave, upto)[k]).octave == octave
                &&& semitone_of(octave_pitches(notes, octave, upto)[k].note) < upto
            },
    decreases upto,
{
    if upto > 0 {
        let u = (upto - 1) as nat;
        lemma_octave_pitches(notes, octave, u);
        lemma_pitches_with_semitone(notes, octave, u);
        let a = octave_pitches(notes, octave, u);
        let b = pitches_with_semitone(notes, octave, u);
        let c = a + b;
        assert forall|k: int| 0 <= k < c.len() implies (#[trigger] c[k]).octave == octave
            && semitone_of(c[k].note) < upto by {
            if k >= a.len() {
                assert(c[k] == b[k - a.len()]);
            }
        }
        assert forall|i: int, j: int| 0 <= i < j < c.len() implies pitch_rank(c[i]) <= pitch_rank(
            c[j],
        ) by {
            if j < a.len() {
            } else if i < a.len() {
                assert(c[j] == b[j - a.len()]);
            } else {
                assert(c[i] == b[i - a.len()]);
                assert(c[j] == b[j - a.len()]);
            }
        }
    }
}

proof fn lemma_scale_pitches(notes: Seq<NoteName>, start: int, end: int)
    requires
        i32::MIN <= start,
        end <= i32::MAX,
    ensures
        ascending(scale_pitches(notes, start, end)),
        forall|k: int|
            0 <= k < scale_pitches(notes, start, end).len() ==> {
                &&& (#[trigger] scale_pitches(notes, start, end)[k]).octave <= end
                &&& semitone_of(scale_pitches(notes, start, end)[k].note) < 12
            },
    decreases end - start + 1,
{
    if end >= start {
        lemma_scale_pitches(notes, start, end - 1);
        lemma_octave_pitches(notes, end as i32, 12);
        let a = scale_pitches(notes, start, end - 1);
        let b = octave_pitches(notes, end as i32, 12);
        let c = a + b;
        assert(scale_pitches(notes, start, end) == c);
        assert forall|k: int| 0 <= k < c.len() implies (#[trigger] c[k]).octave <= end
            && semitone_of(c[k].note) < 12 by {
            if k >= a.len() {
                assert(c[k] == b[k - a.len()]);
            } else {
                assert(c[k] == a[k]);
            }
        }
        assert forall|i: int, j: int| 0 <= i < j < c.len() implies pitch_rank(c[i]) <= pitch_rank(
            c[j],
        ) by {
            if j < a.len() {
                assert(c[i] == a[i]);
                assert(c[j] == a[j]);
            } else if i < a.len() {
                assert(c[i] == a[i]);
                assert(c[j] == b[j - a.len()]);
                assert(a[i].octave <= end - 1);
                assert(semitone_of(a[i].note) < 12);
            } else {
                assert(c[i] == b[i - a.len()]);
                assert(c[j] == b[j - a.len()]);
            }
        }
    }
}

proof fn lemma_octave_pitches_len_step(notes: Seq<NoteName>, octave: i32, upto: nat)
    requires
        notes.len() > 0,
    ensures
        octave_pitches(notes, octave, upto).len() == octave_pitches(
            notes.drop_last(),
            octave,
            upto,
        ).len() + if semitone_of(notes.last()) < upto {
            1int
        } else {
            0int
        },
    decreases upto,
{
    if upto > 0 {
        lemma_octave_pitches_len_step(notes, octave, (upto - 1) as nat);
    }
}

proof fn lemma_octave_pitches_empty(octave: i32, upto: nat)
    ensures
        octave_pitches(Seq::<NoteName>::empty(), octave, upto).len() == 0,
    decreases upto,
{
    if upto > 0 {
        lemma_octave_pitches_empty(octave, (upto - 1) as nat);
    }
}

proof fn lemma_octave_pitches_len(notes: Seq<NoteName>, octave: i32)
    ensures
        octave_pitches(notes, octave, 12).len() == notes.len(),
    decreases notes.len(),
{
    if notes.len() == 0 {
        assert(notes =~= Seq::<NoteName>::empty());
        lemma_octave_pitches_empty(octave, 12);
    } else {
        lemma_octave_pitches_len(notes.drop_last(), octave);
        lemma_octave_pitches_len_step(notes, octave, 12);
    }
}

proof fn lemma_scale_pitches_len(notes: Seq<NoteName>, start: int, end: int)
    requires
        i32::MIN <= start,
        end <= i32::MAX,
    ensures
        scale_pitches(notes, start, end).len() == if start <= end {
            (end - start + 1) * notes.len()
        } else {
            0
        },
    decreases end - start + 1,
{
    if end >= start {
        lemma_scale_pitches_len(notes, start, end - 1);
        lemma_octave_pitches_len(notes, end as i32);
        assert((end - start) * notes.len() + notes.len() == (end - start + 1) * notes.len())
            by (nonlinear_arith);
    }
}

/// Generates a scale from the notes of one octave: every note of
/// `note_names` in every octave from `start_octave` to `end_octave`, sorted
/// from the lowest pitch to the highest.
pub fn generate_scale(note_names: &Vec<NoteName>, start_octave: i32, end_octave: i32) -> (r: Vec<
    Pitch,
>)
    ensures
        r@ == scale_pitches(note_names@, start_octave as int, end_octave as int),
        ascending(r@),
        r.len() == if start_octave <= end_octave {
            (end_octave - start_octave + 1) * note_names.len()
        } else {
            0
        },
{
    proof {
        lemma_scale_pitches_len(note_names@, start_octave as int, end_octave as int);
    }
    let mut scale: Vec<Pitch> = Vec::new();
    if start_octave > end_octave {
        return scale;
    }
    let mut octave: i32 = start_octave;
    loop
        invariant
            start_octave <= octave <= end_octave,
            scale@ == scale_pitches(note_names@, start_octave as int, octave - 1),
        decreases end_octave - octave,
    {
        let ghost before = scale@;
        let mut s: u8 = 0;
        while s < 12
            invariant
                s <= 12,
                scale@ == before + octave_pitches(note_names@, octave, s as nat),
            decreases 12 - s,
        {
            let ghost with_lower = scale@;
            let mut j: usize = 0;
            while j < note_names.len()
                invariant
                    j <= note_names.len(),
                    scale@ == with_lower + pitches_with_semitone(
                        note_names@.subrange(0, j as int),
                        octave,
                        s as nat,
                    ),
                decreases note_names.len() - j,
            {
                let note = note_names[j];
                assert(note_names@.subrange(0, j + 1).drop_last() =~= note_names@.subrange(
                    0,
                    j as int,
                ));
                if note.semitone() == s {
                    scale.push(Pitch { note, octave });
                }
                j += 1;
            }
            assert(note_names@.subrange(0, note_names.len() as int) =~= note_names@);
            assert(scale@ =~= before + octave_pitches(note_names@, octave, (s + 1) as nat));
            s += 1;
        }
        assert(scale@ =~= scale_pitches(note_names@, start_octave as int, octave as int));
        if octave == end_octave {
            proof {
                lemma_scale_pitches(note_names@, start_octave as int, end_octave as int);
                lemma_scale_pitches_len(note_names@, start_octave as int, end_octave as int);
            }
            return scale;
        }
        octave += 1;
    }
}


/// Two to the power `e`.
pub open spec fn two_to(e: nat) -> nat
    decreases e,
{
    if e == 0 {
        1
    } else {
        2 * two_to((e - 1) as nat)
    }
}

/// Lowest and highest octave whose frequencies `Pitch::frequency_fraction`
/// gives exactly in 64 bits.
pub const MIN_EXACT_OCTAVE: i32 = -24;

pub const MAX_EXACT_OCTAVE: i32 = 40;

/// Frequency of a pitch in units of `1 / (100 * 2^28)` Hz: the octave-4
/// reference doubled once per octave above 4 and halved once per octave
/// below it.
pub open spec fn scaled_frequency(p: Pitch) -> nat {
    octave_4_centihertz_of(p.note) * two_to((p.octave - MIN_EXACT_OCTAVE) as nat)
}

proof fn lemma_two_to_grows(a: nat, b: nat)
    requires
        a < b,
    ensures
        2 * two_to(a) <= two_to(b),
        two_to(a) >= 1,
    decreases b,
{
    if a + 1 < b {
        lemma_two_to_grows(a, (b - 1) as nat);
    }
    lemma_two_to_positive(a);
}

proof fn lemma_two_to_positive(a: nat)
    ensures
        two_to(a) >= 1,
    decreases a,
{
    if a > 0 {
        lemma_two_to_positive((a - 1) as nat);
    }
}

proof fn lemma_two_to_add(a: nat, b: nat)
    ensures
        two_to(a + b) == two_to(a) * two_to(b),
    decreases b,
{
    if b > 0 {
        lemma_two_to_add(a, (b - 1) as nat);
        assert(two_to(a + b) == 2 * two_to((a + b - 1) as nat));
        assert(two_to(b) == 2 * two_to((b - 1) as nat));
        assert(two_to(a) * (2 * two_to((b - 1) as nat)) == 2 * (two_to(a) * two_to(
            (b - 1) as nat,
        ))) by (nonlinear_arith);
        assert((a + b - 1) as nat == a + (b - 1) as nat);
    } else {
        assert(two_to(0) == 1);
        assert(a + b == a);
    }
}

/// Ordering pitches by rank orders them by frequency: a scale sorted by
/// `pitch_rank` is sorted from the lowest frequency to the highest.
pub proof fn lemma_rank_orders_frequency(p: Pitch, q: Pitch)
    requires
        MIN_EXACT_OCTAVE <= p.octave <= MAX_EXACT_OCTAVE,
        MIN_EXACT_OCTAVE <= q.octave <= MAX_EXACT_OCTAVE,
        pitch_rank(p) <= pitch_rank(q),
    ensures
        scaled_frequency(p) <= scaled_frequency(q),
        pitch_rank(p) < pitch_rank(q) ==> scaled_frequency(p) < scaled_frequency(q),
{
    let cp = octave_4_centihertz_of(p.note);
    let cq = octave_4_centihertz_of(q.note);
    let ep = (p.octave - MIN_EXACT_OCTAVE) as nat;
    let eq = (q.octave - MIN_EXACT_OCTAVE) as nat;
    lemma_two_to_positive(ep);
    if p.octave == q.octave {
        assert(semitone_of(p.note) <= semitone_of(q.note));
        assert(semitone_of(p.note) < semitone_of(q.note) ==> cp < cq);
        assert(cp <= cq);
        assert(cp * two_to(ep) <= cq * two_to(ep)) by (nonlinear_arith)
            requires
                cp <= cq,
        ;
        assert(cp < cq ==> cp * two_to(ep) < cq * two_to(ep)) by (nonlinear_arith)
            requires
                two_to(ep) >= 1,
        ;
    } else {
        assert(p.octave < q.octave);
        lemma_two_to_grows(ep, eq);
        assert(cp < 2 * cq);
        let tp = two_to(ep);
        let tq = two_to(eq);
        assert(cp * tp < cq * tq) by (nonlinear_arith)
            requires
                cp < 2 * cq,
                2 * tp <= tq,
                tp >= 1,
        ;
    }
}

impl Pitch {
    /// The frequency of the pitch in hertz, as a numerator and a denominator:
    /// the octave-4 reference frequency times `2^(octave - 4)`.
    pub fn frequency_fraction(&self) -> (r: (u64, u64))
        requires
            MIN_EXACT_OCTAVE <= self.octave <= MAX_EXACT_OCTAVE,
        ensures
            self.octave >= 4 ==> r.0 == octave_4_centihertz_of(self.note) * two_to(
                (self.octave - 4) as nat,
            ) && r.1 == 100,
            self.octave < 4 ==> r.0 == octave_4_centihertz_of(self.note) && r.1 == 100 * two_to(
                (4 - self.octave) as nat,
            ),
            r.0 * (100 * two_to(28)) == scaled_frequency(*self) * r.1,
    {
        let centihertz = self.note.octave_4_centihertz() as u64;
        let (up, down): (u32, u32) = if self.octave >= 4 {
            ((self.octave - 4) as u32, 0)
        } else {
            (0, (4 - self.octave) as u32)
        };
        let mut num: u64 = centihertz;
        let mut i: u32 = 0;
        while i < up
            invariant
                i <= up <= 36,
                centihertz < 65536,
                num == centihertz * two_to(i as nat),
            decreases up - i,
        {
            proof {
                lemma_two_to_add(i as nat, (36 - i) as nat);
                lemma_two_to_36();
                lemma_two_to_positive((36 - i) as nat);
                let a = centihertz as int;
                let b = two_to(i as nat) as int;
                let c = two_to((36 - i) as nat) as int;
                assert(a * b < 0x10_0000_0000_0000) by (nonlinear_arith)
                    requires
                        0 <= a < 65536,
                        b >= 0,
                        c >= 1,
                        b * c == 0x10_0000_0000,
                ;
                assert(two_to((i + 1) as nat) == 2 * two_to(i as nat));
                assert(a * (2 * b) == 2 * (a * b)) by (nonlinear_arith);
            }
            num = num * 2;
            i += 1;
        }
        let mut den: u64 = 100;
        let mut j: u32 = 0;
        while j < down
            invariant
                j <= down <= 28,
                den == 100 * two_to(j as nat),
            decreases down - j,
        {
            proof {
                lemma_two_to_add(j as nat, (28 - j) as nat);
                lemma_two_to_28();
                lemma_two_to_positive((28 - j) as nat);
                assert(two_to(j as nat) <= two_to(j as nat) * two_to((28 - j) as nat))
                    by (nonlinear_arith)
                    requires
                        two_to((28 - j) as nat) >= 1,
                ;
            }
            den = den * 2;
            j += 1;
        }
        proof {
            let c = octave_4_centihertz_of(self.note) as int;
            if self.octave >= 4 {
                lemma_two_to_add((self.octave - 4) as nat, 28);
                assert(((self.octave - 4) as nat + 28) as nat == (self.octave - MIN_EXACT_OCTAVE) as nat);
                let t = two_to((self.octave - 4) as nat) as int;
                assert(c * t * (100 * two_to(28)) == c * (t * two_to(28)) * 100) by (nonlinear_arith);
            } else {
                lemma_two_to_add((self.octave - MIN_EXACT_OCTAVE) as nat, (4 - self.octave) as nat);
                assert(((self.octave - MIN_EXACT_OCTAVE) as nat + (4 - self.octave) as nat) as nat == 28);
                let t = two_to((self.octave - MIN_EXACT_OCTAVE) as nat) as int;
                let u = two_to((4 - self.octave) as nat) as int;
                assert(c * (100 * (t * u)) == c * t * (100 * u)) by (nonlinear_arith);
            }
        }
        (num, den)
    }
}

proof fn lemma_two_to_28()
    ensures
        two_to(28) == 0x1000_0000,
{
    reveal_with_fuel(two_to, 29);
}

proof fn lemma_two_to_36()
    ensures
        two_to(36) == 0x10_0000_0000,
{
    reveal_with_fuel(two_to, 37);
}

} // verus!
