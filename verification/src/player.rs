//! Playback: one cursor per voice, advanced by the time that has passed, and
//! the note events that each expiry gives.
//!
//! Time is counted in whole nanoseconds. When a cursor's countdown runs out,
//! the time by which it was overshot is dropped: the next countdown starts
//! from the full length of the figure that begins, so one call makes a voice
//! move by one figure at most.

use vstd::prelude::*;
use crate::midi::{NoteKind, SendNote};
use crate::partition::{Clef, Figure, Note, Partition};

verus! {

/// The channel on which every voice plays.
pub const CHANNEL: u8 = 0;

/// The velocity of every note.
pub const VELOCITY: u8 = 120;

/// The countdown with which every voice begins, in nanoseconds.
pub const FIRST_DELAY: u64 = 100_000_000;

/// The key of a pitch in a clef whose `Do` has the key `base_do`: their sum,
/// held to the range of a key.
pub open spec fn spec_key(base_do: u8, note: Note) -> u8 {
    let key = base_do as int + note.note as int;
    if key < 0 {
        0u8
    } else if key > 255 {
        255u8
    } else {
        key as u8
    }
}

/// The event that begins or ends a pitch.
pub open spec fn spec_get_note(base_do: u8, note: Note, kind: NoteKind) -> SendNote {
    SendNote { channel: CHANNEL, key: spec_key(base_do, note), kind, velocity: VELOCITY }
}

/// The events that begin or end the given pitches, one for each, in order.
pub open spec fn spec_events(base_do: u8, pitches: Seq<Note>, kind: NoteKind) -> Seq<SendNote> {
    pitches.map_values(|n: Note| spec_get_note(base_do, n, kind))
}

/// Where a voice stands: the figure that begins at the next expiry, and the
/// time until then.
#[derive(Clone, Copy, PartialEq, Eq, Structural, Debug)]
pub struct PlaybackCursor {
    /// Index of the figure that begins at the next expiry.
    pub position: usize,
    /// Nanoseconds until the next expiry.
    pub remaining: u64,
    /// Whether the voice has had an expiry yet.
    pub started: bool,
}

impl PlaybackCursor {
    /// A cursor fits a voice of `len` figures when it points at one of them
    /// and its countdown has not run out.
    pub open spec fn wf(self, len: nat) -> bool {
        &&& self.position < len
        &&& self.remaining > 0
    }

    /// The cursor of a voice that has not played yet.
    pub open spec fn spec_initial() -> PlaybackCursor {
        PlaybackCursor { position: 0, remaining: FIRST_DELAY, started: false }
    }

    /// Whether the countdown runs out when `elapsed` nanoseconds pass.
    pub open spec fn expires(self, elapsed: u64) -> bool {
        elapsed >= self.remaining
    }

    /// The index before `position` in a voice of `len` figures, going round
    /// from the first to the last.
    pub open spec fn previous(self, len: nat) -> int {
        if self.position == 0 {
            len - 1
        } else {
            self.position - 1
        }
    }

    /// The index after `position` in a voice of `len` figures, going round
    /// from the last to the first.
    pub open spec fn following(self, len: nat) -> int {
        if self.position + 1 >= len {
            0
        } else {
            self.position + 1
        }
    }
}

impl Clef {
    /// The events that end the figure at index `i`.
    pub open spec fn spec_stops(&self, i: int) -> Seq<SendNote> {
        spec_events(self.base_do, self.figures@[i]@.pitches(), NoteKind::Stop)
    }

    /// The events that begin the figure at index `i`.
    pub open spec fn spec_starts(&self, i: int) -> Seq<SendNote> {
        spec_events(self.base_do, self.figures@[i]@.pitches(), NoteKind::Play)
    }

    /// What the voice emits when `elapsed` nanoseconds pass: nothing while the
    /// countdown lasts; at its expiry the stops of the figure before the
    /// cursor, unless this is the first expiry, then the starts of the figure
    /// at the cursor.
    pub open spec fn spec_tick_events(&self, cursor: PlaybackCursor, elapsed: u64) -> Seq<
        SendNote,
    > {
        if !cursor.expires(elapsed) {
            Seq::empty()
        } else if cursor.started {
            self.spec_stops(cursor.previous(self.figures@.len())) + self.spec_starts(
                cursor.position as int,
            )
        } else {
            self.spec_starts(cursor.position as int)
        }
    }

    /// Where the cursor stands after `elapsed` nanoseconds: the countdown
    /// shortened while it lasts; at its expiry one figure further, with the
    /// countdown set to the length of the figure that began.
    pub open spec fn spec_tick_cursor(
        &self,
        bpm: u16,
        cursor: PlaybackCursor,
        elapsed: u64,
    ) -> PlaybackCursor {
        if !cursor.expires(elapsed) {
            PlaybackCursor {
                position: cursor.position,
                remaining: (cursor.remaining - elapsed) as u64,
                started: cursor.started,
            }
        } else {
            PlaybackCursor {
                position: cursor.following(self.figures@.len()) as usize,
                remaining: self.figures@[cursor.position as int]@.value().spec_interval(
                    bpm,
                ) as u64,
                started: true,
            }
        }
    }
}

/// The event that begins or ends a pitch of the clef: its key is the clef's
/// `Do` plus the pitch's distance, held to the range of a key.
pub fn get_note(clef: &Clef, note: &Note, kind: NoteKind) -> (event: SendNote)
    ensures
        event == spec_get_note(clef.base_do, *note, kind),
        event.wf(),
{
    let sum: i16 = clef.base_do as i16 + note.note as i16;
    let key: u8 = if sum < 0 {
        0
    } else if sum > 255 {
        255
    } else {
        sum as u8
    };
    SendNote { channel: CHANNEL, key, kind, velocity: VELOCITY }
}

/// Appends to `out` the events that begin or end the pitches of a figure.
pub fn send_figure(clef: &Clef, figure: &Figure, kind: NoteKind, out: &mut Vec<SendNote>)
    ensures
        final(out)@ == old(out)@ + spec_events(clef.base_do, figure@.pitches(), kind),
{
    match figure {
        Figure::Note(_, note) => {
            out.push(get_note(clef, note, kind));
            assert(final(out)@ =~= old(out)@ + spec_events(
                clef.base_do,
                figure@.pitches(),
                kind,
            ));
        },
        Figure::Silence(_) => {
            assert(final(out)@ =~= old(out)@ + spec_events(
                clef.base_do,
                figure@.pitches(),
                kind,
            ));
        },
        Figure::Chord(_, ns) => {
            let mut i: usize = 0;
            while i < ns.len()
                invariant
                    i <= ns.len(),
                    figure@.pitches() == ns@,
                    out@ == old(out)@ + spec_events(clef.base_do, ns@.take(i as int), kind),
                decreases ns.len() - i,
            {
                out.push(get_note(clef, &ns[i], kind));
                assert(ns@.take(i + 1) =~= ns@.take(i as int).push(ns@[i as int]));
                assert(out@ =~= old(out)@ + spec_events(
                    clef.base_do,
                    ns@.take(i + 1),
                    kind,
                ));
                i += 1;
            }
            assert(ns@.take(i as int) =~= ns@);
        },
    }
}

impl Clef {
    /// A voice that can be played has at least one figure.
    pub open spec fn playable(&self) -> bool {
        self.figures@.len() >= 1
    }

    /// Lets `elapsed` nanoseconds pass for the voice. Appends to `out` what the
    /// voice emits, and returns where its cursor then stands.
    pub fn tick(
        &self,
        bpm: u16,
        cursor: PlaybackCursor,
        elapsed: u64,
        out: &mut Vec<SendNote>,
    ) -> (next: PlaybackCursor)
        requires
            bpm > 0,
            cursor.wf(self.figures@.len()),
        ensures
            next == self.spec_tick_cursor(bpm, cursor, elapsed),
            next.wf(self.figures@.len()),
            final(out)@ == old(out)@ + self.spec_tick_events(cursor, elapsed),
    {
        if elapsed < cursor.remaining {
            assert(out@ =~= old(out)@ + self.spec_tick_events(cursor, elapsed));
            return PlaybackCursor {
                position: cursor.position,
                remaining: cursor.remaining - elapsed,
                started: cursor.started,
            };
        }
        let len: usize = self.figures.len();
        if cursor.started {
            let previous: usize = if cursor.position == 0 {
                len - 1
            } else {
                cursor.position - 1
            };
            send_figure(self, &self.figures[previous], NoteKind::Stop, out);
        }
        let figure = &self.figures[cursor.position];
        send_figure(self, figure, NoteKind::Play, out);
        assert(out@ =~= old(out)@ + self.spec_tick_events(cursor, elapsed));
        let position: usize = if cursor.position + 1 >= len {
            0
        } else {
            cursor.position + 1
        };
        PlaybackCursor { position, remaining: figure.value().interval(bpm), started: true }
    }
}

/// Why a partition cannot be played.
#[derive(Clone, Copy, PartialEq, Eq, Structural, Debug)]
pub enum ConstructionError {
    /// The tempo is zero.
    ZeroTempo,
    /// The voice at this index has no figure.
    EmptyVoice(usize),
}

impl Partition {
    /// A partition can be played when its tempo is above zero and each of its
    /// voices has at least one figure.
    pub open spec fn playable(&self) -> bool {
        &&& self.bpm > 0
        &&& forall|i: int| 0 <= i < self.clefs@.len() ==> (#[trigger] self.clefs@[i]).playable()
    }

    /// Whether `e` is the reason for which the partition cannot be played: a
    /// zero tempo comes before an empty voice, and of the empty voices the
    /// first is named.
    pub open spec fn check_fails_with(&self, e: ConstructionError) -> bool {
        match e {
            ConstructionError::ZeroTempo => self.bpm == 0,
            ConstructionError::EmptyVoice(i) => {
                &&& self.bpm > 0
                &&& i < self.clefs@.len()
                &&& !self.clefs@[i as int].playable()
                &&& forall|j: int| 0 <= j < i ==> (#[trigger] self.clefs@[j]).playable()
            },
        }
    }

    /// What all voices emit together when `elapsed` nanoseconds pass: what the
    /// first `n` voices emit, voice after voice.
    pub open spec fn spec_advance_events(
        &self,
        cursors: Seq<PlaybackCursor>,
        elapsed: u64,
        n: int,
    ) -> Seq<SendNote>
        decreases n,
    {
        if n <= 0 {
            Seq::empty()
        } else {
            self.spec_advance_events(cursors, elapsed, n - 1) + self.clefs@[n
                - 1].spec_tick_events(cursors[n - 1], elapsed)
        }
    }

    /// Where the cursors of all voices stand after `elapsed` nanoseconds.
    pub open spec fn spec_advance_cursors(
        &self,
        cursors: Seq<PlaybackCursor>,
        elapsed: u64,
    ) -> Seq<PlaybackCursor> {
        Seq::new(
            cursors.len(),
            |i: int| self.clefs@[i].spec_tick_cursor(self.bpm, cursors[i], elapsed),
        )
    }

    /// Tells whether the partition can be played. If not, a zero tempo is
    /// reported before an empty voice, and of the empty voices the first.
    pub fn check(&self) -> (r: Result<(), ConstructionError>)
        ensures
            r is Ok <==> self.playable(),
            r matches Err(e) ==> self.check_fails_with(e),
    {
        if self.bpm == 0 {
            return Err(ConstructionError::ZeroTempo);
        }
        let mut i: usize = 0;
        while i < self.clefs.len()
            invariant
                i <= self.clefs@.len(),
                self.bpm > 0,
                forall|j: int| 0 <= j < i ==> (#[trigger] self.clefs@[j]).playable(),
            decreases self.clefs@.len() - i,
        {
            if self.clefs[i].figures.len() == 0 {
                assert(!self.clefs@[i as int].playable());
                return Err(ConstructionError::EmptyVoice(i));
            }
            i += 1;
        }
        Ok(())
    }
}

/// A partition being played: the partition and one cursor for each of its
/// voices.
pub struct Player {
    partition: Partition,
    cursors: Vec<PlaybackCursor>,
}

impl Player {
    /// The partition that is played.
    pub closed spec fn partition(&self) -> Partition {
        self.partition
    }

    /// The cursors of the voices, in the order of the voices.
    pub closed spec fn cursors(&self) -> Seq<PlaybackCursor> {
        self.cursors@
    }

    /// The partition can be played, and each voice has a cursor that fits it.
    pub open spec fn wf(&self) -> bool {
        &&& self.partition().playable()
        &&& self.cursors().len() == self.partition().clefs@.len()
        &&& forall|i: int|
            0 <= i < self.cursors().len() ==> (#[trigger] self.cursors()[i]).wf(
                self.partition().clefs@[i].figures@.len(),
            )
    }

    #[verifier::type_invariant]
    spec fn inv(&self) -> bool {
        self.wf()
    }

    /// Begins to play a partition: every voice stands at its first figure,
    /// with the first countdown ahead of it. A partition that cannot be played
    /// is refused.
    pub fn new(partition: Partition) -> (r: Result<Player, ConstructionError>)
        ensures
            r is Ok <==> partition.playable(),
            r matches Ok(player) ==> {
                &&& player.wf()
                &&& player.partition() == partition
                &&& player.cursors() == Seq::new(
                    partition.clefs@.len(),
                    |i: int| PlaybackCursor::spec_initial(),
                )
            },
            r matches Err(e) ==> partition.check_fails_with(e),
    {
        match partition.check() {
            Err(e) => Err(e),
            Ok(()) => {
                let mut cursors: Vec<PlaybackCursor> = Vec::new();
                let mut i: usize = 0;
                while i < partition.clefs.len()
                    invariant
                        i <= partition.clefs@.len(),
                        cursors@ == Seq::new(i as nat, |k: int| PlaybackCursor::spec_initial()),
                    decreases partition.clefs@.len() - i,
                {
                    cursors.push(
                        PlaybackCursor { position: 0, remaining: FIRST_DELAY, started: false },
                    );
                    assert(cursors@ =~= Seq::new(
                        (i + 1) as nat,
                        |k: int| PlaybackCursor::spec_initial(),
                    ));
                    i += 1;
                }
                Ok(Player { partition, cursors })
            },
        }
    }

    /// The number of voices.
    pub fn voices(&self) -> (n: usize)
        ensures
            n == self.cursors().len(),
    {
        self.cursors.len()
    }

    /// The cursor of the voice at index `voice`.
    pub fn cursor(&self, voice: usize) -> (c: Option<PlaybackCursor>)
        ensures
            c == if voice < self.cursors().len() {
                Some(self.cursors()[voice as int])
            } else {
                None
            },
    {
        if voice < self.cursors.len() {
            Some(self.cursors[voice])
        } else {
            None
        }
    }

    /// The partition that is played.
    pub fn score(&self) -> (p: &Partition)
        ensures
            *p == self.partition(),
    {
        &self.partition
    }

    /// Lets `elapsed` nanoseconds pass. Every voice is advanced, in the order
    /// of the voices, and what they emit is returned in that order.
    pub fn advance(&mut self, elapsed: u64) -> (events: Vec<SendNote>)
        ensures
            final(self).wf(),
            final(self).partition() == old(self).partition(),
            final(self).cursors() == old(self).partition().spec_advance_cursors(
                old(self).cursors(),
                elapsed,
            ),
            events@ == old(self).partition().spec_advance_events(
                old(self).cursors(),
                elapsed,
                old(self).cursors().len() as int,
            ),
            forall|i: int| 0 <= i < events@.len() ==> (#[trigger] events@[i]).wf(),
    {
        proof {
            use_type_invariant(&*self);
        }
        let mut events: Vec<SendNote> = Vec::new();
        let mut cursors: Vec<PlaybackCursor> = Vec::new();
        let mut i: usize = 0;
        while i < self.cursors.len()
            invariant
                self.wf(),
                *self == *old(self),
                i <= self.cursors@.len(),
                cursors@.len() == i,
                forall|k: int|
                    0 <= k < i ==> cursors@[k] == self.partition.clefs@[k].spec_tick_cursor(
                        self.partition.bpm,
                        self.cursors@[k],
                        elapsed,
                    ),
                forall|k: int|
                    0 <= k < i ==> (#[trigger] cursors@[k]).wf(
                        self.partition.clefs@[k].figures@.len(),
                    ),
                events@ == self.partition.spec_advance_events(self.cursors@, elapsed, i as int),
            decreases self.cursors@.len() - i,
        {
            assert(self.cursors()[i as int].wf(self.partition().clefs@[i as int].figures@.len()));
            let next = self.partition.clefs[i].tick(
                self.partition.bpm,
                self.cursors[i],
                elapsed,
                &mut events,
            );
            cursors.push(next);
            i += 1;
        }
        assert(cursors@ =~= self.partition.spec_advance_cursors(self.cursors@, elapsed));
        proof {
            self.partition.lemma_events_are_well_formed(self.cursors@, elapsed, i as int);
        }
        self.cursors = cursors;
        events
    }
}

/// The same events, each ending its note in place of beginning it.
pub open spec fn spec_stopped(events: Seq<SendNote>) -> Seq<SendNote> {
    events.map_values(
        |e: SendNote|
            SendNote { key: e.key, channel: e.channel, velocity: e.velocity, kind: NoteKind::Stop },
    )
}

impl Clef {
    /// What the voice emits over a run of calls, one for each entry of
    /// `ticks`, beginning at `cursor`.
    pub open spec fn spec_run_events(
        &self,
        bpm: u16,
        cursor: PlaybackCursor,
        ticks: Seq<u64>,
    ) -> Seq<SendNote>
        decreases ticks.len(),
    {
        if ticks.len() == 0 {
            Seq::empty()
        } else {
            self.spec_tick_events(cursor, ticks[0]) + self.spec_run_events(
                bpm,
                self.spec_tick_cursor(bpm, cursor, ticks[0]),
                ticks.drop_first(),
            )
        }
    }

    /// A cursor that fits the voice still fits it after any time has passed.
    pub proof fn lemma_tick_keeps_cursor(&self, bpm: u16, cursor: PlaybackCursor, elapsed: u64)
        requires
            bpm > 0,
            cursor.wf(self.figures@.len()),
        ensures
            self.spec_tick_cursor(bpm, cursor, elapsed).wf(self.figures@.len()),
    {
        self.figures@[cursor.position as int]@.value().lemma_interval_bounds(bpm);
    }

    /// When no time passes, nothing expires: the voice emits nothing and its
    /// cursor stays as it is.
    pub proof fn lemma_no_time_no_event(&self, bpm: u16, cursor: PlaybackCursor)
        requires
            cursor.wf(self.figures@.len()),
        ensures
            self.spec_tick_events(cursor, 0) == Seq::<SendNote>::empty(),
            self.spec_tick_cursor(bpm, cursor, 0) == cursor,
    {
    }

    /// While the countdown lasts the voice emits nothing, stays at its figure,
    /// and the countdown gets shorter by the time that passed.
    pub proof fn lemma_waiting(&self, bpm: u16, cursor: PlaybackCursor, elapsed: u64)
        requires
            elapsed < cursor.remaining,
        ensures
            self.spec_tick_events(cursor, elapsed) == Seq::<SendNote>::empty(),
            self.spec_tick_cursor(bpm, cursor, elapsed).position == cursor.position,
            self.spec_tick_cursor(bpm, cursor, elapsed).started == cursor.started,
            self.spec_tick_cursor(bpm, cursor, elapsed).remaining == cursor.remaining - elapsed,
    {
    }

    /// However far the time that passed goes beyond the countdown, one call
    /// moves the voice by one figure: it emits one event for each pitch of the
    /// figure that ends, if one was sounding, then one for each pitch of the
    /// figure that begins, and what lies beyond the countdown is dropped.
    pub proof fn lemma_one_figure_per_call(
        &self,
        bpm: u16,
        cursor: PlaybackCursor,
        elapsed: u64,
        longer: u64,
    )
        requires
            cursor.wf(self.figures@.len()),
            cursor.remaining <= elapsed <= longer,
        ensures
            self.spec_tick_events(cursor, longer) == self.spec_tick_events(cursor, elapsed),
            self.spec_tick_cursor(bpm, cursor, longer) == self.spec_tick_cursor(
                bpm,
                cursor,
                elapsed,
            ),
            self.spec_tick_cursor(bpm, cursor, elapsed).position == cursor.following(
                self.figures@.len(),
            ),
            self.spec_tick_events(cursor, elapsed).len() == self.figures@[cursor.position as int]@.pitches().len()
                + if cursor.started {
                self.figures@[cursor.previous(self.figures@.len())]@.pitches().len()
            } else {
                0
            },
    {
        assert(self.figures@.len() == self.figures.len());
    }

    /// Every note that begins is ended before the next one begins: of two
    /// expiries of a voice that follow each other, the second emits first the
    /// events of the first expiry's starts, as stops, and only then its own
    /// starts.
    pub proof fn lemma_stop_before_next_start(
        &self,
        bpm: u16,
        cursor: PlaybackCursor,
        first: u64,
        second: u64,
    )
        requires
            bpm > 0,
            cursor.wf(self.figures@.len()),
            cursor.expires(first),
            self.spec_tick_cursor(bpm, cursor, first).expires(second),
        ensures
            self.spec_tick_events(self.spec_tick_cursor(bpm, cursor, first), second)
                == spec_stopped(self.spec_starts(cursor.position as int)) + self.spec_starts(
                self.spec_tick_cursor(bpm, cursor, first).position as int,
            ),
            self.spec_tick_events(cursor, first) == if cursor.started {
                self.spec_stops(cursor.previous(self.figures@.len()))
            } else {
                Seq::<SendNote>::empty()
            } + self.spec_starts(cursor.position as int),
    {
        let next = self.spec_tick_cursor(bpm, cursor, first);
        let len = self.figures@.len();
        assert(len == self.figures.len());
        assert(next.previous(len) == cursor.position);
        assert(spec_stopped(self.spec_starts(cursor.position as int)) =~= self.spec_stops(
            cursor.position as int,
        ));
        if !cursor.started {
            assert(Seq::<SendNote>::empty() + self.spec_starts(cursor.position as int)
                =~= self.spec_starts(cursor.position as int));
        }
    }

    /// A voice that holds nothing but silences never emits an event, however
    /// many calls are made and whatever time passes at each.
    pub proof fn lemma_silence_emits_nothing(
        &self,
        bpm: u16,
        cursor: PlaybackCursor,
        ticks: Seq<u64>,
    )
        requires
            bpm > 0,
            cursor.wf(self.figures@.len()),
            forall|i: int| 0 <= i < self.figures@.len() ==> (#[trigger] self.figures@[i])@ is Silence,
        ensures
            self.spec_run_events(bpm, cursor, ticks) == Seq::<SendNote>::empty(),
        decreases ticks.len(),
    {
        if ticks.len() > 0 {
            let len = self.figures@.len();
            assert(self.figures@[cursor.position as int]@ is Silence);
            assert(self.figures@[cursor.previous(len)]@ is Silence);
            assert(self.spec_tick_events(cursor, ticks[0]) =~= Seq::<SendNote>::empty());
            self.lemma_tick_keeps_cursor(bpm, cursor, ticks[0]);
            self.lemma_silence_emits_nothing(
                bpm,
                self.spec_tick_cursor(bpm, cursor, ticks[0]),
                ticks.drop_first(),
            );
        }
    }
}

impl Partition {
    /// Every event that the voices emit has its channel and its velocity in
    /// the ranges that MIDI gives them.
    pub proof fn lemma_events_are_well_formed(
        &self,
        cursors: Seq<PlaybackCursor>,
        elapsed: u64,
        n: int,
    )
        ensures
            forall|i: int|
                0 <= i < self.spec_advance_events(cursors, elapsed, n).len() ==> (
                #[trigger] self.spec_advance_events(cursors, elapsed, n)[i]).wf(),
        decreases n,
    {
        if n > 0 {
            self.lemma_events_are_well_formed(cursors, elapsed, n - 1);
            let all = self.spec_advance_events(cursors, elapsed, n);
            let before = self.spec_advance_events(cursors, elapsed, n - 1);
            let last = self.clefs@[n - 1].spec_tick_events(cursors[n - 1], elapsed);
            assert forall|i: int| 0 <= i < all.len() implies (#[trigger] all[i]).wf() by {
                if i < before.len() {
                    assert(all[i] == before[i]);
                } else {
                    assert(all[i] == last[i - before.len()]);
                }
            }
        }
    }

    /// When no time passes, no voice emits anything and every cursor stays as
    /// it is.
    pub proof fn lemma_advance_no_time(&self, cursors: Seq<PlaybackCursor>, n: int)
        requires
            0 <= n <= cursors.len(),
            forall|i: int| 0 <= i < cursors.len() ==> (#[trigger] cursors[i]).remaining > 0,
        ensures
            self.spec_advance_events(cursors, 0, n) == Seq::<SendNote>::empty(),
            self.spec_advance_cursors(cursors, 0) == cursors,
        decreases n,
    {
        if n > 0 {
            self.lemma_advance_no_time(cursors, n - 1);
            assert(cursors[n - 1].remaining > 0);
        }
        assert(self.spec_advance_cursors(cursors, 0) =~= cursors) by {
            assert forall|i: int| 0 <= i < cursors.len() implies self.clefs@[i].spec_tick_cursor(
                self.bpm,
                cursors[i],
                0,
            ) == cursors[i] by {
                assert(cursors[i].remaining > 0);
            }
        }
    }
}

} // verus!
