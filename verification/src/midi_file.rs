//! The contents of a Standard MIDI File as the chart converter reads them:
//! tracks of timed events, and the questions asked of them (a track's name,
//! how many notes it sounds, which track a user means).

use vstd::prelude::*;
use crate::text::{all_digits, digits_value, is_digit, lemma_digits_value_prefix, nat_digits, push_nat_digits};

verus! {

/// What one event of a track carries, as far as the chart converter reads it.
#[derive(Debug, Clone, PartialEq, Eq)]
pub enum EventKind {
    /// Start a note (a velocity of 0 stops it instead, by MIDI convention).
    NoteOn { key: u8, vel: u8 },
    /// Stop a note.
    NoteOff { key: u8, vel: u8 },
    /// The track's name, as raw bytes.
    TrackName(Vec<u8>),
    /// A tempo change, in microseconds per quarter note.
    Tempo(u32),
    /// Numerator, denominator as a power of two, MIDI clocks per click,
    /// 32nd notes per quarter.
    TimeSignature(u8, u8, u8, u8),
    /// Anything else: other channel messages (controllers, program changes,
    /// bends, ...), other meta messages, system-exclusive data.
    Other,
}

/// One event of a track: the ticks since the previous event, and what it does.
#[derive(Debug, Clone, PartialEq, Eq)]
pub struct TrackEvent {
    pub delta: u32,
    pub kind: EventKind,
}

/// A parsed MIDI file: its ticks per quarter note when its timing is metrical
/// (`None` for timecode-based timing), and its tracks.
#[derive(Debug, Clone, PartialEq, Eq)]
pub struct MidiFile {
    pub ticks_per_quarter: Option<u16>,
    pub tracks: Vec<Vec<TrackEvent>>,
}

/// The events of track `t` of `file`.
pub open spec fn track_events(file: MidiFile, t: int) -> Seq<TrackEvent> {
    file.tracks@[t]@
}

/// The bytes of `e` when it names its track.
pub open spec fn name_of_event(e: TrackEvent) -> Option<Seq<u8>> {
    match e.kind {
        EventKind::TrackName(b) => Some(b@),
        _ => None,
    }
}

/// The name bytes of the first track-name event at or after index `i`.
pub open spec fn first_name_from(track: Seq<TrackEvent>, i: int) -> Option<Seq<u8>>
    decreases track.len() - i,
{
    if i < 0 || i >= track.len() {
        None
    } else if name_of_event(track[i]) is Some {
        name_of_event(track[i])
    } else {
        first_name_from(track, i + 1)
    }
}

/// The name bytes of a track: those of its first track-name event.
pub open spec fn track_name_bytes(track: Seq<TrackEvent>) -> Option<Seq<u8>> {
    first_name_from(track, 0)
}

/// The text `String::from_utf8_lossy` makes of `bytes`.
pub uninterp spec fn utf8_lossy(bytes: Seq<u8>) -> Seq<char>;

/// Every byte is ASCII.
pub open spec fn all_ascii(bytes: Seq<u8>) -> bool {
    forall|i: int| 0 <= i < bytes.len() ==> #[trigger] bytes[i] < 128
}

/// The characters that ASCII bytes stand for.
pub open spec fn ascii_chars(bytes: Seq<u8>) -> Seq<char> {
    bytes.map_values(|b: u8| b as char)
}

/// Reads `bytes` as UTF-8 with `String::from_utf8_lossy`, which replaces each
/// invalid sequence by U+FFFD. The contract names the result, and states what
/// the documentation makes plain of valid UTF-8: it reads as the characters
/// it encodes (so ASCII bytes read as themselves). What the replacement makes
/// of invalid input is left to the name.
#[verifier::external_body]
fn decode_utf8_lossy(bytes: &[u8]) -> (r: String)
    ensures
        r@ == utf8_lossy(bytes@),
        vstd::utf8::valid_utf8(bytes@) ==> r@ == vstd::utf8::decode_utf8(bytes@),
        all_ascii(bytes@) ==> r@ == ascii_chars(bytes@),
{
    String::from_utf8_lossy(bytes).into_owned()
}

/// The display name of a track: the text of its first track-name event.
pub open spec fn track_name(track: Seq<TrackEvent>) -> Option<Seq<char>> {
    match track_name_bytes(track) {
        Some(b) => Some(utf8_lossy(b)),
        None => None,
    }
}

/// The display name of a track, from its first TrackName meta event.
pub fn track_name_of(track: &Vec<TrackEvent>) -> (r: Option<String>)
    ensures
        match track_name_bytes(track@) {
            Some(b) => r matches Some(s) && s@ == utf8_lossy(b)
                && (vstd::utf8::valid_utf8(b) ==> s@ == vstd::utf8::decode_utf8(b))
                && (all_ascii(b) ==> s@ == ascii_chars(b)),
            None => r is None,
        },
{
    let n = track.len();
    let mut i: usize = 0;
    while i < n
        invariant
            n == track@.len(),
            i <= n,
            track_name_bytes(track@) == first_name_from(track@, i as int),
        decreases n - i,
    {
        match &track[i].kind {
            EventKind::TrackName(b) => {
                return Some(decode_utf8_lossy(b.as_slice()));
            },
            _ => {},
        }
        i = i + 1;
    }
    None
}

/// `e` starts a note: a NoteOn with a non-zero velocity.
pub open spec fn sounds_note(e: TrackEvent) -> bool {
    e.kind matches EventKind::NoteOn { vel, .. } && vel > 0
}

/// How many of the events of `track` start a note.
pub open spec fn count_note_ons(track: Seq<TrackEvent>) -> nat
    decreases track.len(),
{
    if track.len() == 0 {
        0
    } else {
        count_note_ons(track.drop_last()) + if sounds_note(track.last()) { 1nat } else { 0nat }
    }
}

/// The number of notes a track starts; a NoteOn with velocity 0 stops a note
/// and is not counted.
pub fn note_on_count(track: &Vec<TrackEvent>) -> (r: usize)
    ensures
        r == count_note_ons(track@),
{
    let n = track.len();
    let mut count: usize = 0;
    let mut i: usize = 0;
    while i < n
        invariant
            n == track@.len(),
            i <= n,
            count <= i,
            count == count_note_ons(track@.take(i as int)),
        decreases n - i,
    {
        assert(track@.take(i + 1).drop_last() =~= track@.take(i as int));
        match &track[i].kind {
            EventKind::NoteOn { vel, .. } => {
                if *vel > 0 {
                    count = count + 1;
                }
            },
            _ => {},
        }
        i = i + 1;
    }
    assert(track@.take(n as int) =~= track@);
    count
}

/// Track `t` of `tracks` is named `name`.
pub open spec fn track_is_named(tracks: Seq<Vec<TrackEvent>>, t: int, name: Seq<char>) -> bool {
    track_name(tracks[t]@) == Some(name)
}

/// The index of the first track at or after `i` that is named `name`.
pub open spec fn first_named_from(tracks: Seq<Vec<TrackEvent>>, i: int, name: Seq<char>) -> Option<int>
    decreases tracks.len() - i,
{
    if i < 0 || i >= tracks.len() {
        None
    } else if track_is_named(tracks, i, name) {
        Some(i)
    } else {
        first_named_from(tracks, i + 1, name)
    }
}

/// The index of the first track whose name is exactly `name` (case-sensitive).
pub fn find_track(file: &MidiFile, name: &str) -> (r: Option<usize>)
    ensures
        match first_named_from(file.tracks@, 0, name@) {
            Some(t) => r == Some(t as usize),
            None => r is None,
        },
{
    let wanted = name.to_string();
    proof {
        vstd::string::to_string_from_display_ensures_for_str(name, wanted);
    }
    let n = file.tracks.len();
    let mut t: usize = 0;
    while t < n
        invariant
            n == file.tracks@.len(),
            t <= n,
            wanted@ == name@,
            first_named_from(file.tracks@, 0, name@) == first_named_from(file.tracks@, t as int, name@),
        decreases n - t,
    {
        let found = track_name_of(&file.tracks[t]);
        match found {
            Some(s) => {
                if s == wanted {
                    return Some(t);
                }
            },
            None => {},
        }
        t = t + 1;
    }
    None
}

/// What `str::parse::<usize>` accepts: an optional `+`, then one or more
/// ASCII digits, denoting a value that fits in a `usize`.
pub open spec fn parse_usize_spec(s: Seq<char>) -> Option<int> {
    let body = if s.len() > 0 && s[0] == '+' { s.skip(1) } else { s };
    if body.len() == 0 || !all_digits(body) || digits_value(body) > usize::MAX {
        None
    } else {
        Some(digits_value(body))
    }
}

/// Parses `s` as `str::parse::<usize>` does.
pub fn parse_usize(s: &str) -> (r: Option<usize>)
    ensures
        match parse_usize_spec(s@) {
            Some(v) => r matches Some(x) && x == v,
            None => r is None,
        },
{
    let n = s.unicode_len();
    let mut i: usize = 0;
    if n > 0 && s.get_char(0) == '+' {
        i = 1;
    }
    let ghost body = s@.skip(i as int);
    assert(body =~= (if s@.len() > 0 && s@[0] == '+' { s@.skip(1) } else { s@ }));
    if i == n {
        return None;
    }
    let body_start = i;
    let mut acc: usize = 0;
    while i < n
        invariant
            body_start <= i <= n,
            n == s@.len(),
            body == s@.skip(body_start as int),
            body == (if s@.len() > 0 && s@[0] == '+' { s@.skip(1) } else { s@ }),
            all_digits(body.take(i - body_start)),
            acc == digits_value(body.take(i - body_start)),
        decreases n - i,
    {
        let c = s.get_char(i);
        let ghost k = (i - body_start) as int;
        if !('0' <= c && c <= '9') {
            assert(body[k] == c);
            return None;
        }
        let d = (c as u32 - '0' as u32) as usize;
        assert(body.take(k + 1).drop_last() =~= body.take(k));
        assert(body.take(k + 1).last() == c);
        assert(all_digits(body.take(k + 1))) by {
            assert forall|j: int| 0 <= j < k + 1 implies is_digit(#[trigger] body.take(k + 1)[j]) by {
                if j < k {
                    assert(body.take(k + 1)[j] == body.take(k)[j]);
                }
            }
        }
        match acc.checked_mul(10) {
            Some(a10) => {
                match a10.checked_add(d) {
                    Some(next) => {
                        acc = next;
                    },
                    None => {
                        proof {
                            if all_digits(body) {
                                lemma_digits_value_prefix(body, k + 1);
                            }
                        }
                        return None;
                    },
                }
            },
            None => {
                proof {
                    if all_digits(body) {
                        lemma_digits_value_prefix(body, k + 1);
                        crate::text::lemma_digits_value_nonneg(body.take(k + 1).drop_last());
                    }
                }
                return None;
            },
        }
        i = i + 1;
    }
    assert(body.take(n - body_start) =~= body);
    Some(acc)
}

/// The track a selector picks: a track index when the selector parses as one
/// within range, else the first track with exactly that name.
pub open spec fn selected_track(tracks: Seq<Vec<TrackEvent>>, selector: Seq<char>) -> Option<int> {
    let by_index = parse_usize_spec(selector);
    if by_index is Some && by_index->Some_0 < tracks.len() {
        by_index
    } else {
        first_named_from(tracks, 0, selector)
    }
}

/// Resolves a track selector: since MIDI track names are often not unique,
/// either a numeric track index or an exact track name is accepted.
pub fn select_track(file: &MidiFile, selector: &str) -> (r: Option<usize>)
    ensures
        match selected_track(file.tracks@, selector@) {
            Some(t) => r == Some(t as usize),
            None => r is None,
        },
{
    match parse_usize(selector) {
        Some(i) => {
            if i < file.tracks.len() {
                return Some(i);
            }
        },
        None => {},
    }
    find_track(file, selector)
}

/// The name a track is shown under: its own name, else "track <index>".
pub open spec fn display_name(track: Seq<TrackEvent>, t: int) -> Seq<char> {
    match track_name(track) {
        Some(s) => s,
        None => "track "@ + nat_digits(t as nat),
    }
}

/// The name track `t` is shown under in a chart: its own name, else
/// "track <index>".
pub fn track_display_name(file: &MidiFile, t: usize) -> (r: String)
    requires
        t < file.tracks@.len(),
    ensures
        r@ == display_name(track_events(*file, t as int), t as int),
{
    match track_name_of(&file.tracks[t]) {
        Some(s) => s,
        None => {
            let mut s = String::from_str("track ");
            push_nat_digits(&mut s, t as u64);
            s
        },
    }
}

/// A track's index, written out in decimal, selects that track.
pub proof fn lemma_index_selects(tracks: Seq<Vec<TrackEvent>>, i: nat)
    requires
        i < tracks.len(),
        i <= usize::MAX,
    ensures
        selected_track(tracks, nat_digits(i)) == Some(i as int),
{
    crate::text::lemma_nat_digits_shape(i);
    let d = nat_digits(i);
    assert(crate::text::is_digit(d[0]));
}

} // verus!
