//! The score model: note values, pitches, figures, clefs and partitions.

use vstd::prelude::*;

verus! {

/// A note value: the rhythmic length of a figure.
#[derive(Clone, Copy, PartialEq, Eq, Structural, Debug)]
pub enum Value {
    Carre,
    Ronde,
    Blanche,
    Noire,
    Croche,
    DoubleCroche,
    TripleCroche,
}

/// Nanoseconds in one minute.
pub const NANOS_PER_MINUTE: u64 = 60_000_000_000;

impl Value {
    /// The length in eighths of a beat. A `Noire` is one beat, so the seven
    /// values last 8, 4, 2, 1, 1/2, 1/4 and 1/8 beats.
    pub open spec fn spec_eighths(self) -> nat {
        match self {
            Value::Carre => 64,
            Value::Ronde => 32,
            Value::Blanche => 16,
            Value::Noire => 8,
            Value::Croche => 4,
            Value::DoubleCroche => 2,
            Value::TripleCroche => 1,
        }
    }

    /// How long the value lasts at `bpm` beats per minute, in nanoseconds,
    /// rounded down: beats times sixty seconds, divided by the tempo.
    pub open spec fn spec_interval(self, bpm: u16) -> nat
        recommends
            bpm > 0,
    {
        self.spec_eighths() * NANOS_PER_MINUTE as nat / (8 * bpm as nat)
    }

    /// At any tempo above zero a value lasts more than no time, and no more
    /// than a `Carre` at one beat per minute.
    pub proof fn lemma_interval_bounds(self, bpm: u16)
        requires
            bpm > 0,
        ensures
            0 < self.spec_interval(bpm) <= 480_000_000_000,
    {
        let beats = self.spec_eighths();
        assert(1 <= beats <= 64);
        assert(0 < (beats * 60_000_000_000) / (8 * bpm as nat) <= 480_000_000_000)
            by (nonlinear_arith)
            requires
                1 <= beats <= 64,
                0 < bpm <= 65535,
        ;
    }

    /// The length in eighths of a beat.
    pub fn eighths(self) -> (n: u64)
        ensures
            n == self.spec_eighths(),
    {
        match self {
            Value::Carre => 64,
            Value::Ronde => 32,
            Value::Blanche => 16,
            Value::Noire => 8,
            Value::Croche => 4,
            Value::DoubleCroche => 2,
            Value::TripleCroche => 1,
        }
    }

    /// How long the value lasts at `bpm` beats per minute, in nanoseconds.
    pub fn interval(self, bpm: u16) -> (nanos: u64)
        requires
            bpm > 0,
        ensures
            nanos == self.spec_interval(bpm),
            nanos > 0,
    {
        let beats: u64 = self.eighths();
        let tempo: u64 = bpm as u64;
        assert(1 <= beats <= 64);
        assert(beats * NANOS_PER_MINUTE <= 64 * NANOS_PER_MINUTE) by (nonlinear_arith)
            requires
                beats <= 64,
        ;
        assert(beats * NANOS_PER_MINUTE >= NANOS_PER_MINUTE) by (nonlinear_arith)
            requires
                beats >= 1,
        ;
        let nanos: u64 = beats * NANOS_PER_MINUTE / (8 * tempo);
        assert(nanos > 0) by (nonlinear_arith)
            requires
                nanos == (beats * NANOS_PER_MINUTE) / (8 * tempo),
                beats * NANOS_PER_MINUTE >= 60_000_000_000,
                0 < 8 * tempo <= 524_280,
        ;
        nanos
    }
}

/// A pitch, counted in semitones from the `Do` of the clef it stands in.
#[derive(Clone, Copy, PartialEq, Eq, Structural, Debug)]
pub struct Note {
    /// Distance from the clef's `Do`, in semitones.
    pub note: i8,
    /// Whether the pitch was written with a dot. Timing ignores it.
    pub dot: bool,
}

/// One rhythmic unit of a voice.
#[derive(Clone, PartialEq, Eq, Debug)]
pub enum Figure {
    Note(Value, Note),
    Chord(Value, Vec<Note>),
    Silence(Value),
}

/// A figure as a mathematical value.
pub enum FigureView {
    Note(Value, Note),
    Chord(Value, Seq<Note>),
    Silence(Value),
}

impl FigureView {
    /// The note value that the figure carries.
    pub open spec fn value(self) -> Value {
        match self {
            FigureView::Note(v, _) => v,
            FigureView::Chord(v, _) => v,
            FigureView::Silence(v) => v,
        }
    }

    /// The pitches that sound while the figure lasts, in written order.
    pub open spec fn pitches(self) -> Seq<Note> {
        match self {
            FigureView::Note(_, n) => seq![n],
            FigureView::Chord(_, ns) => ns,
            FigureView::Silence(_) => Seq::empty(),
        }
    }

    /// A chord holds at least one pitch.
    pub open spec fn wf(self) -> bool {
        self matches FigureView::Chord(_, ns) ==> ns.len() >= 1
    }
}

impl View for Figure {
    type V = FigureView;

    open spec fn view(&self) -> FigureView {
        match *self {
            Figure::Note(v, n) => FigureView::Note(v, n),
            Figure::Chord(v, ns) => FigureView::Chord(v, ns@),
            Figure::Silence(v) => FigureView::Silence(v),
        }
    }
}

/// The views of a sequence of figures, in order.
pub open spec fn figure_views(figures: Seq<Figure>) -> Seq<FigureView> {
    figures.map_values(|f: Figure| f@)
}

impl Figure {
    /// The note value that the figure carries.
    pub fn value(&self) -> (v: Value)
        ensures
            v == self@.value(),
    {
        match self {
            Figure::Note(v, _) => *v,
            Figure::Chord(v, _) => *v,
            Figure::Silence(v) => *v,
        }
    }
}

/// The register of a clef.
#[derive(Clone, Copy, PartialEq, Eq, Structural, Debug)]
pub enum ClefKind {
    Sol,
    Fa,
    Ut,
}

/// One voice: a line of figures played in order, over and over.
#[derive(PartialEq, Eq, Debug)]
pub struct Clef {
    /// Time signature: beats per bar, and the beat's unit.
    pub mesure: (u8, u8),
    pub figures: Vec<Figure>,
    pub kind: ClefKind,
    /// The key of the clef's `Do`, from which its pitches are counted.
    pub base_do: u8,
}

/// A piece: a tempo and the voices that play together.
#[derive(PartialEq, Eq, Debug)]
pub struct Partition {
    pub clefs: Vec<Clef>,
    /// Tempo in beats per minute.
    pub bpm: u16,
}

impl Clef {
    /// A voice that can be played has at least one figure.
    pub open spec fn wf(&self) -> bool {
        &&& self.figures@.len() >= 1
        &&& forall|i: int| 0 <= i < self.figures@.len() ==> (#[trigger] self.figures@[i])@.wf()
    }
}

impl Partition {
    /// A partition that can be played has a tempo above zero and no voice
    /// without figures.
    pub open spec fn wf(&self) -> bool {
        &&& self.bpm > 0
        &&& forall|i: int| 0 <= i < self.clefs@.len() ==> (#[trigger] self.clefs@[i]).wf()
    }
}

} // verus!
