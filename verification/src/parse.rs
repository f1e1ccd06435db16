//! The notation: a voice written as text, one token for each figure.
//!
//! A token is a note value, a hyphen and a body: `n-Do`, `c-(Mi_Sol)`, `r-X`.
//! The body is `X` for a silence, pitches joined by `_` between round
//! brackets for a chord, or one pitch. A pitch begins with the name of its
//! class; each `+` in it raises it by an octave, each `-` lowers it by one,
//! and a `.` marks it as dotted.

use vstd::prelude::*;
use crate::partition::{figure_views, Figure, FigureView, Note, Value};

verus! {

/// Why a text is not a voice.
#[derive(Clone, Copy, PartialEq, Eq, Structural, Debug)]
pub enum ParseErrorKind {
    /// A token has no hyphen between its note value and its body.
    MissingSeparator,
    /// The text before the hyphen is not the symbol of a note value.
    UnknownValue,
    /// A pitch does not begin with the name of a pitch class.
    UnknownNote,
    /// A pitch lies further from `Do` than a `Note` can hold.
    NoteOutOfRange,
    /// A body opens a chord but does not close it, or holds fewer than two
    /// pitches.
    MalformedChord,
    /// The text holds no token.
    EmptyMesure,
}

/// A text that could not be read: the reason, and the part of the text that
/// it is about.
#[derive(Clone, PartialEq, Eq, Debug)]
pub struct ParseError {
    pub reason: ParseErrorKind,
    pub token: String,
}

/// A `ParseError` as a mathematical value.
pub struct ParseErrorView {
    pub reason: ParseErrorKind,
    pub token: Seq<char>,
}

impl View for ParseError {
    type V = ParseErrorView;

    open spec fn view(&self) -> ParseErrorView {
        ParseErrorView { reason: self.reason, token: self.token@ }
    }
}

/// The characters of a string, in order.
pub fn to_chars(s: &str) -> (v: Vec<char>)
    ensures
        v@ == s@,
{
    let mut v: Vec<char> = Vec::new();
    for c in it: s.chars()
        invariant
            it.seq() == s@,
            v@ == it.seq().take(it.index() as int),
    {
        v.push(c);
        assert(it.seq().take(it.index() + 1) =~= it.seq().take(it.index() as int).push(c));
    }
    assert(s@.take(s@.len() as int) =~= s@);
    v
}

/// The note value that a symbol stands for.
pub open spec fn spec_value_of(s: Seq<char>) -> Option<Value> {
    if s == seq!['C'] {
        Some(Value::Carre)
    } else if s == seq!['r'] {
        Some(Value::Ronde)
    } else if s == seq!['b'] {
        Some(Value::Blanche)
    } else if s == seq!['n'] {
        Some(Value::Noire)
    } else if s == seq!['c'] {
        Some(Value::Croche)
    } else if s == seq!['c', 'c'] {
        Some(Value::DoubleCroche)
    } else if s == seq!['c', 'c', 'c'] {
        Some(Value::TripleCroche)
    } else {
        None
    }
}

/// What reading a note value from `s` gives.
pub open spec fn spec_parse_value(s: Seq<char>) -> Result<Value, ParseErrorView> {
    match spec_value_of(s) {
        Some(v) => Ok(v),
        None => Err(ParseErrorView { reason: ParseErrorKind::UnknownValue, token: s }),
    }
}

/// A result of reading a note value, with its error as a mathematical value.
pub open spec fn value_result_view(r: Result<Value, ParseError>) -> Result<
    Value,
    ParseErrorView,
> {
    match r {
        Ok(v) => Ok(v),
        Err(e) => Err(e@),
    }
}

/// Reads a note value from its symbol: `C`, `r`, `b`, `n`, `c`, `cc` or `ccc`,
/// from the longest value to the shortest.
pub fn parse_value(input: &str) -> (r: Result<Value, ParseError>)
    ensures
        value_result_view(r) == spec_parse_value(input@),
{
    let chars = to_chars(input);
    let len: usize = chars.len();
    let found = if len == 1 && chars[0] == 'C' {
        Some(Value::Carre)
    } else if len == 1 && chars[0] == 'r' {
        Some(Value::Ronde)
    } else if len == 1 && chars[0] == 'b' {
        Some(Value::Blanche)
    } else if len == 1 && chars[0] == 'n' {
        Some(Value::Noire)
    } else if len == 1 && chars[0] == 'c' {
        Some(Value::Croche)
    } else if len == 2 && chars[0] == 'c' && chars[1] == 'c' {
        Some(Value::DoubleCroche)
    } else if len == 3 && chars[0] == 'c' && chars[1] == 'c' && chars[2] == 'c' {
        Some(Value::TripleCroche)
    } else {
        None
    };
    proof {
        lemma_symbols(input@);
    }
    match found {
        Some(v) => Ok(v),
        None => Err(ParseError { reason: ParseErrorKind::UnknownValue, token: input.to_owned() }),
    }
}

/// A text is a symbol where it has the symbol's length and its characters.
proof fn lemma_symbols(s: Seq<char>)
    ensures
        s == seq!['C'] <==> s.len() == 1 && s[0] == 'C',
        s == seq!['r'] <==> s.len() == 1 && s[0] == 'r',
        s == seq!['b'] <==> s.len() == 1 && s[0] == 'b',
        s == seq!['n'] <==> s.len() == 1 && s[0] == 'n',
        s == seq!['c'] <==> s.len() == 1 && s[0] == 'c',
        s == seq!['c', 'c'] <==> s.len() == 2 && s[0] == 'c' && s[1] == 'c',
        s == seq!['c', 'c', 'c'] <==> s.len() == 3 && s[0] == 'c' && s[1] == 'c' && s[2] == 'c',
{
    assert(seq!['C'].len() == 1 && seq!['C'][0] == 'C');
    assert(seq!['r'].len() == 1 && seq!['r'][0] == 'r');
    assert(seq!['b'].len() == 1 && seq!['b'][0] == 'b');
    assert(seq!['n'].len() == 1 && seq!['n'][0] == 'n');
    assert(seq!['c'].len() == 1 && seq!['c'][0] == 'c');
    assert(seq!['c', 'c'].len() == 2 && seq!['c', 'c'][0] == 'c' && seq!['c', 'c'][1] == 'c');
    assert(seq!['c', 'c', 'c'].len() == 3 && seq!['c', 'c', 'c'][0] == 'c' && seq![
        'c',
        'c',
        'c',
    ][1] == 'c' && seq!['c', 'c', 'c'][2] == 'c');
    if s.len() == 1 {
        assert(s =~= seq![s[0]]);
    } else if s.len() == 2 {
        assert(s =~= seq![s[0], s[1]]);
    } else if s.len() == 3 {
        assert(s =~= seq![s[0], s[1], s[2]]);
    }
}

/// The names of the twelve pitch classes, each at the index that is its
/// distance from `Do` in semitones. The name of a flat begins with the name of
/// the natural above it, and stands before it.
pub open spec fn pitch_names() -> Seq<Seq<char>> {
    seq![
        seq!['D', 'o'],
        seq!['R', 'e', 'b'],
        seq!['R', 'e'],
        seq!['M', 'i', 'B'],
        seq!['M', 'i'],
        seq!['F', 'a'],
        seq!['S', 'o', 'l', 'B'],
        seq!['S', 'o', 'l'],
        seq!['L', 'a', 'B'],
        seq!['L', 'a'],
        seq!['S', 'i', 'B'],
        seq!['S', 'i'],
    ]
}

/// The first pitch class at or after index `from` whose name `s` begins with.
pub open spec fn spec_pitch_class_from(s: Seq<char>, from: int) -> Option<u8>
    decreases 12 - from,
{
    if from < 0 || from >= 12 {
        None
    } else if pitch_names()[from].is_prefix_of(s) {
        Some(from as u8)
    } else {
        spec_pitch_class_from(s, from + 1)
    }
}

/// The pitch class that `s` begins with, as its distance from `Do` in
/// semitones: the first in the order of `pitch_names`.
pub open spec fn spec_pitch_class(s: Seq<char>) -> Option<u8> {
    spec_pitch_class_from(s, 0)
}

/// The name of the pitch class at distance `i` from `Do`.
fn pitch_name(i: usize) -> (name: Vec<char>)
    requires
        i < 12,
    ensures
        name@ == pitch_names()[i as int],
{
    let name: Vec<char> = if i == 0 {
        vec!['D', 'o']
    } else if i == 1 {
        vec!['R', 'e', 'b']
    } else if i == 2 {
        vec!['R', 'e']
    } else if i == 3 {
        vec!['M', 'i', 'B']
    } else if i == 4 {
        vec!['M', 'i']
    } else if i == 5 {
        vec!['F', 'a']
    } else if i == 6 {
        vec!['S', 'o', 'l', 'B']
    } else if i == 7 {
        vec!['S', 'o', 'l']
    } else if i == 8 {
        vec!['L', 'a', 'B']
    } else if i == 9 {
        vec!['L', 'a']
    } else if i == 10 {
        vec!['S', 'i', 'B']
    } else {
        vec!['S', 'i']
    };
    assert(name@ =~= pitch_names()[i as int]);
    name
}

/// Whether `chars` begins with `name`.
fn begins_with(chars: &Vec<char>, name: &Vec<char>) -> (b: bool)
    ensures
        b == name@.is_prefix_of(chars@),
{
    if name.len() > chars.len() {
        return false;
    }
    let mut i: usize = 0;
    while i < name.len()
        invariant
            i <= name.len() <= chars.len(),
            forall|k: int| 0 <= k < i ==> name@[k] == chars@[k],
        decreases name.len() - i,
    {
        if name[i] != chars[i] {
            return false;
        }
        i += 1;
    }
    assert(name@ =~= chars@.subrange(0, name@.len() as int));
    true
}

/// The pitch class that `chars` begins with.
fn pitch_class(chars: &Vec<char>) -> (class: Option<u8>)
    ensures
        class == spec_pitch_class(chars@),
{
    let mut i: usize = 0;
    while i < 12
        invariant
            i <= 12,
            spec_pitch_class(chars@) == spec_pitch_class_from(chars@, i as int),
        decreases 12 - i,
    {
        let name = pitch_name(i);
        if begins_with(chars, &name) {
            return Some(i as u8);
        }
        i += 1;
    }
    None
}

/// The pitch class that a name begins with, as its distance from `Do` in
/// semitones, from 0 to 11: `Do`, `Reb`, `Re`, `MiB`, `Mi`, `Fa`, `SolB`,
/// `Sol`, `LaB`, `La`, `SiB`, `Si`. What follows the name is not looked at.
pub fn pitch_class_offset(name: &str) -> (class: Option<u8>)
    ensures
        class == spec_pitch_class(name@),
        class matches Some(c) ==> c < 12,
{
    let chars = to_chars(name);
    let class = pitch_class(&chars);
    proof {
        lemma_pitch_class_is_longest(name@);
    }
    class
}

/// The pitch class found is that of the longest name that the text begins
/// with: no class is found only where the text begins with no name, and no
/// name that the text begins with is longer than the name of the class found.
pub proof fn lemma_pitch_class_is_longest(s: Seq<char>)
    ensures
        spec_pitch_class(s) is None <==> forall|i: int|
            0 <= i < 12 ==> !(#[trigger] pitch_names()[i]).is_prefix_of(s),
        spec_pitch_class(s) matches Some(c) ==> {
            &&& c < 12
            &&& pitch_names()[c as int].is_prefix_of(s)
            &&& forall|i: int|
                0 <= i < 12 && (#[trigger] pitch_names()[i]).is_prefix_of(s) ==> pitch_names()[i].len()
                    <= pitch_names()[c as int].len()
        },
{
    reveal_with_fuel(spec_pitch_class_from, 13);
    let names = pitch_names();
    assert forall|i: int| 0 <= i < 12 && (#[trigger] names[i]).is_prefix_of(s) implies s.len()
        >= 2 && s[0] == names[i][0] && s[1] == names[i][1] && (names[i].len() >= 3 ==> s.len() >= 3
        && s[2] == names[i][2]) by {
        assert(names[i] == s.subrange(0, names[i].len() as int));
    }
}

/// By how many semitones a character of a pitch moves it: an octave up for
/// `+`, an octave down for `-`.
pub open spec fn spec_octave_step(c: char) -> int {
    if c == '+' {
        12
    } else if c == '-' {
        -12
    } else {
        0
    }
}

/// By how many semitones the octave marks of a pitch move it, all together.
pub open spec fn spec_octaves(s: Seq<char>) -> int
    decreases s.len(),
{
    if s.len() == 0 {
        0
    } else {
        spec_octave_step(s[0]) + spec_octaves(s.drop_first())
    }
}

/// What reading a pitch from `s` gives: the class that `s` begins with, moved
/// by its octave marks, and dotted where `s` holds a `.`.
pub open spec fn spec_parse_note(s: Seq<char>) -> Result<Note, ParseErrorView> {
    match spec_pitch_class(s) {
        None => Err(ParseErrorView { reason: ParseErrorKind::UnknownNote, token: s }),
        Some(class) => {
            let note = class + spec_octaves(s);
            if -128 <= note <= 127 {
                Ok(Note { note: note as i8, dot: s.contains('.') })
            } else {
                Err(ParseErrorView { reason: ParseErrorKind::NoteOutOfRange, token: s })
            }
        },
    }
}

/// A result of reading a pitch, with its error as a mathematical value.
pub open spec fn note_result_view(r: Result<Note, ParseError>) -> Result<Note, ParseErrorView> {
    match r {
        Ok(n) => Ok(n),
        Err(e) => Err(e@),
    }
}

/// By how many semitones the octave marks in `chars` move a pitch.
fn octaves(chars: &Vec<char>) -> (total: i128)
    ensures
        total == spec_octaves(chars@),
        -12 * chars@.len() <= total <= 12 * chars@.len(),
{
    let mut total: i128 = 0;
    let mut i: usize = 0;
    assert(chars@.skip(0) =~= chars@);
    while i < chars.len()
        invariant
            i <= chars.len(),
            -12 * i <= total <= 12 * i,
            total + spec_octaves(chars@.skip(i as int)) == spec_octaves(chars@),
        decreases chars.len() - i,
    {
        let c: char = chars[i];
        assert(chars@.skip(i as int).drop_first() =~= chars@.skip(i + 1));
        if c == '+' {
            total = total + 12;
        } else if c == '-' {
            total = total - 12;
        }
        i += 1;
    }
    total
}

/// Whether `c` occurs in `chars`.
fn holds(chars: &Vec<char>, c: char) -> (b: bool)
    ensures
        b == chars@.contains(c),
{
    let mut i: usize = 0;
    while i < chars.len()
        invariant
            i <= chars.len(),
            forall|k: int| 0 <= k < i ==> chars@[k] != c,
        decreases chars.len() - i,
    {
        if chars[i] == c {
            return true;
        }
        i += 1;
    }
    false
}

/// Reads a pitch: the name of its class, then anything. Each `+` raises it by
/// an octave, each `-` lowers it by one, wherever they stand; a `.` marks it
/// as dotted.
pub fn parse_note(input: &str) -> (r: Result<Note, ParseError>)
    ensures
        note_result_view(r) == spec_parse_note(input@),
{
    let chars = to_chars(input);
    match pitch_class(&chars) {
        None => Err(ParseError { reason: ParseErrorKind::UnknownNote, token: input.to_owned() }),
        Some(class) => {
            proof {
                lemma_pitch_class_is_longest(input@);
            }
            let note: i128 = class as i128 + octaves(&chars);
            if -128 <= note && note <= 127 {
                Ok(Note { note: note as i8, dot: holds(&chars, '.') })
            } else {
                Err(
                    ParseError {
                        reason: ParseErrorKind::NoteOutOfRange,
                        token: input.to_owned(),
                    },
                )
            }
        },
    }
}

/// The index of the first `c` in `s`, or the length of `s` where it holds
/// none.
pub open spec fn spec_position(s: Seq<char>, c: char) -> int
    decreases s.len(),
{
    if s.len() == 0 {
        0
    } else if s[0] == c {
        0
    } else {
        1 + spec_position(s.drop_first(), c)
    }
}

/// The pieces of `s` between its separators, as a scan finds them: `current`
/// is the piece that was begun before `s`. A text with n separators has n + 1
/// pieces, and a piece may be empty.
pub open spec fn spec_split_from(s: Seq<char>, sep: char, current: Seq<char>) -> Seq<Seq<char>>
    decreases s.len(),
{
    if s.len() == 0 {
        seq![current]
    } else if s[0] == sep {
        seq![current] + spec_split_from(s.drop_first(), sep, Seq::empty())
    } else {
        spec_split_from(s.drop_first(), sep, current.push(s[0]))
    }
}

/// The pieces of `s` between its separators.
pub open spec fn spec_split(s: Seq<char>, sep: char) -> Seq<Seq<char>> {
    spec_split_from(s, sep, Seq::empty())
}

/// Whether a character is white space: one of the code points to which
/// Unicode gives the property `White_Space`.
pub open spec fn spec_is_whitespace(c: char) -> bool {
    let n = c as u32;
    ||| 0x09 <= n <= 0x0D
    ||| n == 0x20
    ||| n == 0x85
    ||| n == 0xA0
    ||| n == 0x1680
    ||| 0x2000 <= n <= 0x200A
    ||| n == 0x2028
    ||| n == 0x2029
    ||| n == 0x202F
    ||| n == 0x205F
    ||| n == 0x3000
}

/// The word `current`, if it is one: a word has at least one character.
pub open spec fn spec_flush(current: Seq<char>) -> Seq<Seq<char>> {
    if current.len() > 0 {
        seq![current]
    } else {
        Seq::empty()
    }
}

/// The words of `s`, as a scan finds them: `current` is the word that was
/// begun before `s`. A word is a run of characters that are not white space,
/// with white space or an end of the text on either side.
pub open spec fn spec_words_from(s: Seq<char>, current: Seq<char>) -> Seq<Seq<char>>
    decreases s.len(),
{
    if s.len() == 0 {
        spec_flush(current)
    } else if spec_is_whitespace(s[0]) {
        spec_flush(current) + spec_words_from(s.drop_first(), Seq::empty())
    } else {
        spec_words_from(s.drop_first(), current.push(s[0]))
    }
}

/// The words of `s`, in order.
pub open spec fn spec_words(s: Seq<char>) -> Seq<Seq<char>> {
    spec_words_from(s, Seq::empty())
}

/// The parts of `s` that the ranges cut out, in order.
pub open spec fn spec_cuts(s: Seq<char>, ranges: Seq<(usize, usize)>) -> Seq<Seq<char>> {
    Seq::new(ranges.len(), |k: int| s.subrange(ranges[k].0 as int, ranges[k].1 as int))
}

/// Whether each range lies within a text of `len` characters.
pub open spec fn spec_ranges_within(ranges: Seq<(usize, usize)>, len: nat) -> bool {
    forall|k: int| 0 <= k < ranges.len() ==> (#[trigger] ranges[k]).0 <= ranges[k].1 <= len
}

/// Whether a character is white space.
pub fn is_whitespace(c: char) -> (b: bool)
    ensures
        b == spec_is_whitespace(c),
{
    let n: u32 = c as u32;
    (0x09 <= n && n <= 0x0D) || n == 0x20 || n == 0x85 || n == 0xA0 || n == 0x1680 || (0x2000 <= n
        && n <= 0x200A) || n == 0x2028 || n == 0x2029 || n == 0x202F || n == 0x205F || n == 0x3000
}

/// The index of the first `c` in `chars`, or their number where `c` is not
/// among them.
fn position(chars: &Vec<char>, c: char) -> (at: usize)
    ensures
        at == spec_position(chars@, c),
        at <= chars@.len(),
{
    let mut i: usize = 0;
    assert(chars@.skip(0) =~= chars@);
    while i < chars.len()
        invariant
            i <= chars.len(),
            i + spec_position(chars@.skip(i as int), c) == spec_position(chars@, c),
        decreases chars.len() - i,
    {
        if chars[i] == c {
            return i;
        }
        assert(chars@.skip(i as int).drop_first() =~= chars@.skip(i + 1));
        i += 1;
    }
    i
}

/// Where the pieces of `chars` between its separators begin and end.
fn split(chars: &Vec<char>, sep: char) -> (ranges: Vec<(usize, usize)>)
    ensures
        spec_ranges_within(ranges@, chars@.len()),
        spec_cuts(chars@, ranges@) == spec_split(chars@, sep),
{
    let mut ranges: Vec<(usize, usize)> = Vec::new();
    let mut start: usize = 0;
    let mut i: usize = 0;
    assert(chars@.skip(0) =~= chars@);
    assert(chars@.subrange(0, 0) =~= Seq::<char>::empty());
    assert(spec_cuts(chars@, ranges@) =~= Seq::<Seq<char>>::empty());
    while i < chars.len()
        invariant
            start <= i <= chars.len(),
            spec_ranges_within(ranges@, chars@.len()),
            spec_cuts(chars@, ranges@) + spec_split_from(
                chars@.skip(i as int),
                sep,
                chars@.subrange(start as int, i as int),
            ) == spec_split(chars@, sep),
        decreases chars.len() - i,
    {
        let ghost before = ranges@;
        let ghost current = chars@.subrange(start as int, i as int);
        assert(chars@.skip(i as int).drop_first() =~= chars@.skip(i + 1));
        if chars[i] == sep {
            ranges.push((start, i));
            start = i + 1;
            assert(spec_cuts(chars@, ranges@) =~= spec_cuts(chars@, before) + seq![current]);
            assert(chars@.subrange(start as int, i + 1) =~= Seq::<char>::empty());
            assert((spec_cuts(chars@, before) + seq![current]) + spec_split_from(
                chars@.skip(i + 1),
                sep,
                Seq::empty(),
            ) =~= spec_cuts(chars@, before) + (seq![current] + spec_split_from(
                chars@.skip(i + 1),
                sep,
                Seq::empty(),
            )));
        } else {
            assert(chars@.subrange(start as int, i + 1) =~= current.push(chars@[i as int]));
        }
        i += 1;
    }
    let ghost before = ranges@;
    ranges.push((start, i));
    assert(spec_cuts(chars@, ranges@) =~= spec_cuts(chars@, before) + seq![
        chars@.subrange(start as int, i as int),
    ]);
    ranges
}

/// Where the words of `chars` begin and end.
fn words(chars: &Vec<char>) -> (ranges: Vec<(usize, usize)>)
    ensures
        spec_ranges_within(ranges@, chars@.len()),
        spec_cuts(chars@, ranges@) == spec_words(chars@),
{
    let mut ranges: Vec<(usize, usize)> = Vec::new();
    let mut start: usize = 0;
    let mut i: usize = 0;
    assert(chars@.skip(0) =~= chars@);
    assert(chars@.subrange(0, 0) =~= Seq::<char>::empty());
    assert(spec_cuts(chars@, ranges@) =~= Seq::<Seq<char>>::empty());
    while i < chars.len()
        invariant
            start <= i <= chars.len(),
            spec_ranges_within(ranges@, chars@.len()),
            spec_cuts(chars@, ranges@) + spec_words_from(
                chars@.skip(i as int),
                chars@.subrange(start as int, i as int),
            ) == spec_words(chars@),
        decreases chars.len() - i,
    {
        let ghost before = ranges@;
        let ghost current = chars@.subrange(start as int, i as int);
        assert(chars@.skip(i as int).drop_first() =~= chars@.skip(i + 1));
        if is_whitespace(chars[i]) {
            if start < i {
                ranges.push((start, i));
            }
            start = i + 1;
            assert(spec_cuts(chars@, ranges@) =~= spec_cuts(chars@, before) + spec_flush(current));
            assert(chars@.subrange(start as int, i + 1) =~= Seq::<char>::empty());
            assert((spec_cuts(chars@, before) + spec_flush(current)) + spec_words_from(
                chars@.skip(i + 1),
                Seq::empty(),
            ) =~= spec_cuts(chars@, before) + (spec_flush(current) + spec_words_from(
                chars@.skip(i + 1),
                Seq::empty(),
            )));
        } else {
            assert(chars@.subrange(start as int, i + 1) =~= current.push(chars@[i as int]));
        }
        i += 1;
    }
    let ghost before = ranges@;
    if start < i {
        ranges.push((start, i));
    }
    assert(spec_cuts(chars@, ranges@) =~= spec_cuts(chars@, before) + spec_flush(
        chars@.subrange(start as int, i as int),
    ));
    ranges
}

/// `ns` before what `r` holds, or the error of `r`.
pub open spec fn spec_notes_then(ns: Seq<Note>, r: Result<Seq<Note>, ParseErrorView>) -> Result<
    Seq<Note>,
    ParseErrorView,
> {
    match r {
        Ok(more) => Ok(ns + more),
        Err(e) => Err(e),
    }
}

/// What reading each piece as a pitch gives: the pitches in order, or the
/// error of the first piece that is no pitch.
pub open spec fn spec_parse_notes(pieces: Seq<Seq<char>>) -> Result<Seq<Note>, ParseErrorView>
    decreases pieces.len(),
{
    if pieces.len() == 0 {
        Ok(Seq::empty())
    } else {
        match spec_parse_note(pieces[0]) {
            Err(e) => Err(e),
            Ok(n) => spec_notes_then(seq![n], spec_parse_notes(pieces.drop_first())),
        }
    }
}

/// What reading the body of a token gives, for a token of the value `v`.
pub open spec fn spec_parse_body(v: Value, body: Seq<char>) -> Result<
    FigureView,
    ParseErrorView,
> {
    if body.len() > 0 && body[0] == '(' {
        if body.last() != ')' {
            Err(ParseErrorView { reason: ParseErrorKind::MalformedChord, token: body })
        } else {
            match spec_parse_notes(spec_split(body.subrange(1, body.len() - 1), '_')) {
                Err(e) => Err(e),
                Ok(ns) => if ns.len() < 2 {
                    Err(ParseErrorView { reason: ParseErrorKind::MalformedChord, token: body })
                } else {
                    Ok(FigureView::Chord(v, ns))
                },
            }
        }
    } else if body == seq!['X'] {
        Ok(FigureView::Silence(v))
    } else {
        match spec_parse_note(body) {
            Ok(n) => Ok(FigureView::Note(v, n)),
            Err(e) => Err(e),
        }
    }
}

/// What reading a token gives: the text before its first hyphen is the note
/// value, the text after it the body.
pub open spec fn spec_parse_figure(s: Seq<char>) -> Result<FigureView, ParseErrorView> {
    let hyphen = spec_position(s, '-');
    if hyphen >= s.len() {
        Err(ParseErrorView { reason: ParseErrorKind::MissingSeparator, token: s })
    } else {
        match spec_parse_value(s.take(hyphen)) {
            Err(e) => Err(e),
            Ok(v) => spec_parse_body(v, s.skip(hyphen + 1)),
        }
    }
}

/// `fs` before what `r` holds, or the error of `r`.
pub open spec fn spec_figures_then(
    fs: Seq<FigureView>,
    r: Result<Seq<FigureView>, ParseErrorView>,
) -> Result<Seq<FigureView>, ParseErrorView> {
    match r {
        Ok(more) => Ok(fs + more),
        Err(e) => Err(e),
    }
}

/// What reading each token as a figure gives: the figures in order, or the
/// error of the first token that is no figure.
pub open spec fn spec_parse_figures(tokens: Seq<Seq<char>>) -> Result<
    Seq<FigureView>,
    ParseErrorView,
>
    decreases tokens.len(),
{
    if tokens.len() == 0 {
        Ok(Seq::empty())
    } else {
        match spec_parse_figure(tokens[0]) {
            Err(e) => Err(e),
            Ok(f) => spec_figures_then(seq![f], spec_parse_figures(tokens.drop_first())),
        }
    }
}

/// What reading a voice gives: one figure for each word of the text, in the
/// order of the words. A text without words is no voice.
pub open spec fn spec_parse_mesure(s: Seq<char>) -> Result<Seq<FigureView>, ParseErrorView> {
    if spec_words(s).len() == 0 {
        Err(ParseErrorView { reason: ParseErrorKind::EmptyMesure, token: Seq::empty() })
    } else {
        spec_parse_figures(spec_words(s))
    }
}

/// A result of reading a figure, as a mathematical value.
pub open spec fn figure_result_view(r: Result<Figure, ParseError>) -> Result<
    FigureView,
    ParseErrorView,
> {
    match r {
        Ok(f) => Ok(f@),
        Err(e) => Err(e@),
    }
}

/// A result of reading a voice, as a mathematical value.
pub open spec fn mesure_result_view(r: Result<Vec<Figure>, ParseError>) -> Result<
    Seq<FigureView>,
    ParseErrorView,
> {
    match r {
        Ok(fs) => Ok(figure_views(fs@)),
        Err(e) => Err(e@),
    }
}

/// Reads the pitches of a chord from the text between its brackets.
fn parse_chord(inner: &str) -> (r: Result<Vec<Note>, ParseError>)
    ensures
        match r {
            Ok(ns) => spec_parse_notes(spec_split(inner@, '_')) == Ok::<
                Seq<Note>,
                ParseErrorView,
            >(ns@),
            Err(e) => spec_parse_notes(spec_split(inner@, '_')) == Err::<
                Seq<Note>,
                ParseErrorView,
            >(e@),
        },
{
    let chars = to_chars(inner);
    let ranges = split(&chars, '_');
    let ghost pieces = spec_split(inner@, '_');
    let mut notes: Vec<Note> = Vec::new();
    let mut i: usize = 0;
    assert(pieces.skip(0) =~= pieces);
    assert(notes@ + Seq::<Note>::empty() =~= notes@);
    while i < ranges.len()
        invariant
            i <= ranges.len(),
            chars@ == inner@,
            pieces == spec_cuts(chars@, ranges@),
            pieces == spec_split(inner@, '_'),
            spec_ranges_within(ranges@, chars@.len()),
            spec_parse_notes(pieces) == spec_notes_then(
                notes@,
                spec_parse_notes(pieces.skip(i as int)),
            ),
        decreases ranges.len() - i,
    {
        let (from, to) = ranges[i];
        assert(ranges@[i as int].0 <= ranges@[i as int].1 <= chars@.len());
        let piece = inner.substring_char(from, to);
        assert(pieces.skip(i as int)[0] == piece@);
        assert(pieces.skip(i as int).drop_first() =~= pieces.skip(i + 1));
        assert(pieces.skip(i as int).len() > 0);
        match parse_note(piece) {
            Err(e) => {
                assert(spec_parse_notes(pieces.skip(i as int)) == Err::<
                    Seq<Note>,
                    ParseErrorView,
                >(e@));
                return Err(e);
            },
            Ok(n) => {
                let ghost before = notes@;
                notes.push(n);
                assert(spec_notes_then(
                    before,
                    spec_notes_then(seq![n], spec_parse_notes(pieces.skip(i + 1))),
                ) == spec_notes_then(notes@, spec_parse_notes(pieces.skip(i + 1)))) by {
                    if let Ok(more) = spec_parse_notes(pieces.skip(i + 1)) {
                        assert(before + (seq![n] + more) =~= notes@ + more);
                    }
                }
            },
        }
        i += 1;
    }
    assert(pieces.skip(i as int) =~= Seq::<Seq<char>>::empty());
    assert(notes@ + Seq::<Note>::empty() =~= notes@);
    Ok(notes)
}

/// Reads one figure from its token. The text before the first hyphen is the
/// note value. Of the text after it, `X` is a silence; a text that opens with
/// a round bracket is a chord, which has to close with one and to hold two
/// pitches or more, joined by `_`; any other text is one pitch. The first part
/// that cannot be read ends the reading with its error.
pub fn parse_figure(input: &str) -> (r: Result<Figure, ParseError>)
    ensures
        figure_result_view(r) == spec_parse_figure(input@),
        r matches Ok(f) ==> f@.wf(),
{
    let chars = to_chars(input);
    let hyphen: usize = position(&chars, '-');
    if hyphen >= chars.len() {
        return Err(
            ParseError { reason: ParseErrorKind::MissingSeparator, token: input.to_owned() },
        );
    }
    let value = match parse_value(input.substring_char(0, hyphen)) {
        Err(e) => {
            return Err(e);
        },
        Ok(v) => v,
    };
    let rest = input.substring_char(hyphen + 1, chars.len());
    let body = to_chars(rest);
    let len: usize = body.len();
    assert(input@.subrange(0, hyphen as int) =~= input@.take(hyphen as int));
    assert(input@.subrange(hyphen + 1, chars@.len() as int) =~= input@.skip(hyphen + 1));
    if len > 0 && body[0] == '(' {
        if body[len - 1] != ')' {
            return Err(
                ParseError { reason: ParseErrorKind::MalformedChord, token: rest.to_owned() },
            );
        }
        match parse_chord(rest.substring_char(1, len - 1)) {
            Err(e) => Err(e),
            Ok(notes) => {
                if notes.len() < 2 {
                    Err(
                        ParseError {
                            reason: ParseErrorKind::MalformedChord,
                            token: rest.to_owned(),
                        },
                    )
                } else {
                    Ok(Figure::Chord(value, notes))
                }
            },
        }
    } else if len == 1 && body[0] == 'X' {
        assert(body@ =~= seq!['X']);
        Ok(Figure::Silence(value))
    } else {
        assert(body@ != seq!['X']) by {
            if body@ == seq!['X'] {
                assert(seq!['X'].len() == 1 && seq!['X'][0] == 'X');
            }
        }
        match parse_note(rest) {
            Err(e) => Err(e),
            Ok(n) => Ok(Figure::Note(value, n)),
        }
    }
}

/// Reads a voice: the words of the text, each of them a figure, in the order
/// in which they stand. Line breaks count as white space and nothing more.
/// The first word that is no figure ends the reading with its error, and so
/// does a text without words.
pub fn parse_mesure(input: &str) -> (r: Result<Vec<Figure>, ParseError>)
    ensures
        mesure_result_view(r) == spec_parse_mesure(input@),
        r matches Ok(fs) ==> fs@.len() >= 1 && forall|k: int|
            0 <= k < fs@.len() ==> (#[trigger] fs@[k])@.wf(),
{
    let chars = to_chars(input);
    let ranges = words(&chars);
    let ghost tokens = spec_words(input@);
    if ranges.len() == 0 {
        return Err(ParseError { reason: ParseErrorKind::EmptyMesure, token: String::new() });
    }
    let mut figures: Vec<Figure> = Vec::new();
    let mut i: usize = 0;
    assert(tokens.skip(0) =~= tokens);
    assert(figure_views(figures@) + Seq::<FigureView>::empty() =~= figure_views(figures@));
    while i < ranges.len()
        invariant
            i <= ranges.len(),
            figures@.len() == i,
            chars@ == input@,
            tokens == spec_cuts(chars@, ranges@),
            tokens == spec_words(input@),
            spec_ranges_within(ranges@, chars@.len()),
            forall|k: int| 0 <= k < figures@.len() ==> (#[trigger] figures@[k])@.wf(),
            spec_parse_figures(tokens) == spec_figures_then(
                figure_views(figures@),
                spec_parse_figures(tokens.skip(i as int)),
            ),
        decreases ranges.len() - i,
    {
        let (from, to) = ranges[i];
        assert(ranges@[i as int].0 <= ranges@[i as int].1 <= chars@.len());
        let token = input.substring_char(from, to);
        assert(tokens.skip(i as int).len() > 0);
        assert(tokens.skip(i as int)[0] == token@);
        assert(tokens.skip(i as int).drop_first() =~= tokens.skip(i + 1));
        match parse_figure(token) {
            Err(e) => {
                assert(spec_parse_figures(tokens.skip(i as int)) == Err::<
                    Seq<FigureView>,
                    ParseErrorView,
                >(e@));
                return Err(e);
            },
            Ok(f) => {
                let ghost before = figure_views(figures@);
                let ghost view = f@;
                figures.push(f);
                assert(figure_views(figures@) =~= before.push(view));
                assert(spec_figures_then(
                    before,
                    spec_figures_then(seq![view], spec_parse_figures(tokens.skip(i + 1))),
                ) == spec_figures_then(
                    figure_views(figures@),
                    spec_parse_figures(tokens.skip(i + 1)),
                )) by {
                    if let Ok(more) = spec_parse_figures(tokens.skip(i + 1)) {
                        assert(before + (seq![view] + more) =~= figure_views(figures@) + more);
                    }
                }
            },
        }
        i += 1;
    }
    assert(tokens.skip(i as int) =~= Seq::<Seq<char>>::empty());
    assert(figure_views(figures@) + Seq::<FigureView>::empty() =~= figure_views(figures@));
    Ok(figures)
}

/// Reading is a function of the text alone: the same text read twice gives the
/// same voice, or the same error.
pub proof fn lemma_same_text_same_voice(first: Seq<char>, second: Seq<char>)
    requires
        first == second,
    ensures
        spec_parse_mesure(first) == spec_parse_mesure(second),
        spec_parse_figure(first) == spec_parse_figure(second),
        spec_parse_note(first) == spec_parse_note(second),
        spec_parse_value(first) == spec_parse_value(second),
{
}

/// The octave marks of a text that is made of two parts are those of the two
/// parts together, so the order of the parts does not count.
pub proof fn lemma_octaves_of_parts(a: Seq<char>, b: Seq<char>)
    ensures
        spec_octaves(a + b) == spec_octaves(a) + spec_octaves(b),
        spec_octaves(a + b) == spec_octaves(b + a),
{
    lemma_octaves_add(a, b);
    lemma_octaves_add(b, a);
}

/// The octave marks of two texts joined are those of the one plus those of the
/// other.
proof fn lemma_octaves_add(a: Seq<char>, b: Seq<char>)
    ensures
        spec_octaves(a + b) == spec_octaves(a) + spec_octaves(b),
    decreases a.len(),
{
    if a.len() == 0 {
        assert(a + b =~= b);
    } else {
        assert((a + b).drop_first() =~= a.drop_first() + b);
        lemma_octaves_add(a.drop_first(), b);
    }
}

/// Whether `word` has at least one character and no white space.
pub open spec fn spec_is_word(word: Seq<char>) -> bool {
    &&& word.len() > 0
    &&& forall|k: int| 0 <= k < word.len() ==> !spec_is_whitespace(#[trigger] word[k])
}

/// Every word that a scan finds has at least one character and holds no white
/// space, where that holds of what was begun before.
proof fn lemma_words_from_are_words(s: Seq<char>, current: Seq<char>)
    requires
        forall|k: int| 0 <= k < current.len() ==> !spec_is_whitespace(#[trigger] current[k]),
    ensures
        forall|j: int|
            0 <= j < spec_words_from(s, current).len() ==> spec_is_word(
                #[trigger] spec_words_from(s, current)[j],
            ),
    decreases s.len(),
{
    let found = spec_words_from(s, current);
    if s.len() == 0 {
        assert forall|j: int| 0 <= j < found.len() implies spec_is_word(#[trigger] found[j]) by {
            assert(found[j] == current);
        }
    } else if spec_is_whitespace(s[0]) {
        let rest = spec_words_from(s.drop_first(), Seq::empty());
        lemma_words_from_are_words(s.drop_first(), Seq::empty());
        assert forall|j: int| 0 <= j < found.len() implies spec_is_word(#[trigger] found[j]) by {
            if j < spec_flush(current).len() {
                assert(found[j] == current);
            } else {
                assert(found[j] == rest[j - spec_flush(current).len()]);
            }
        }
    } else {
        lemma_words_from_are_words(s.drop_first(), current.push(s[0]));
        assert(found == spec_words_from(s.drop_first(), current.push(s[0])));
    }
}

/// Every word of a text has at least one character and holds no white space.
pub proof fn lemma_words_are_words(s: Seq<char>)
    ensures
        forall|j: int| 0 <= j < spec_words(s).len() ==> spec_is_word(#[trigger] spec_words(s)[j]),
{
    lemma_words_from_are_words(s, Seq::empty());
}

} // verus!
