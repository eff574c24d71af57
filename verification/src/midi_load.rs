//! Reading a Standard MIDI File from its bytes with the `midly` crate, into
//! the plain `MidiFile` model that the chart converter works on.

use vstd::prelude::*;
use midly::{MetaMessage as Meta, MidiMessage as Msg, TrackEventKind as Kind};
use crate::midi_file::{EventKind, MidiFile, TrackEvent};

verus! {

#[verifier::external_type_specification]
#[verifier::external_body]
pub struct ExSmf<'a>(midly::Smf<'a>);

/// What `midly::Smf::parse` makes of `bytes`: `None` when it refuses them,
/// else the file's ticks per quarter note (`None` for timecode timing) and
/// its tracks of events.
pub uninterp spec fn midly_parse(bytes: Seq<u8>) -> Option<(Option<u16>, Seq<Seq<TrackEvent>>)>;

/// The `Display` text of the `midly::Error` that `midly::Smf::parse` returns
/// for `bytes` when it refuses them.
pub uninterp spec fn midly_parse_error(bytes: Seq<u8>) -> Seq<char>;

/// The tracks a parsed `midly::Smf` holds, event by event.
pub uninterp spec fn smf_tracks(smf: midly::Smf) -> Seq<Seq<TrackEvent>>;

/// The ticks per quarter note of a parsed `midly::Smf` whose timing is
/// metrical (`None` for timecode timing).
pub uninterp spec fn smf_ticks_per_quarter(smf: midly::Smf) -> Option<u16>;

/// Every note key and velocity is a 7-bit MIDI value, and every delta a
/// 28-bit one.
pub open spec fn events_in_range(tracks: Seq<Seq<TrackEvent>>) -> bool {
    forall|t: int, i: int| 0 <= t < tracks.len() && 0 <= i < tracks[t].len() ==> {
        let e = #[trigger] tracks[t][i];
        &&& e.delta < 0x1000_0000
        &&& match e.kind {
            EventKind::NoteOn { key, vel } => key < 128 && vel < 128,
            EventKind::NoteOff { key, vel } => key < 128 && vel < 128,
            _ => true,
        }
    }
}

/// `midly::Smf::parse`: parses the bytes of a `.mid` file, an error kept as
/// its `Display` text. The result is named by `midly_parse` and the error
/// text by `midly_parse_error`; the one fact stated besides is what midly's
/// types show: keys and velocities are `u7`, deltas `u28`.
#[verifier::external_body]
fn parse_smf<'a>(bytes: &'a [u8]) -> (r: Result<midly::Smf<'a>, String>)
    ensures
        (r is Ok) == (midly_parse(bytes@) is Some),
        r matches Ok(smf) ==> midly_parse(bytes@) == Some((smf_ticks_per_quarter(smf), smf_tracks(smf))),
        r matches Ok(smf) ==> events_in_range(smf_tracks(smf)),
        r matches Err(e) ==> e@ == midly_parse_error(bytes@),
{
    midly::Smf::parse(bytes).map_err(|e| format!("{e}"))
}

/// Reads `smf.header.timing` (a `midly::Timing`): claims that the result is
/// the ticks per quarter note named by `smf_ticks_per_quarter`.
#[verifier::external_body]
fn smf_timing(smf: &midly::Smf) -> (r: Option<u16>)
    ensures
        r == smf_ticks_per_quarter(*smf),
{
    match smf.header.timing {
        midly::Timing::Metrical(tpq) => Some(tpq.as_int()),
        midly::Timing::Timecode(..) => None,
    }
}

/// `Vec::len` of `smf.tracks`: claims it is the number of tracks that
/// `smf_tracks` names.
#[verifier::external_body]
fn smf_track_count(smf: &midly::Smf) -> (r: usize)
    ensures
        r == smf_tracks(*smf).len(),
{
    smf.tracks.len()
}

/// `Vec::len` of `smf.tracks[t]`: claims it is the length of track `t` as
/// `smf_tracks` names it.
#[verifier::external_body]
fn smf_track_len(smf: &midly::Smf, t: usize) -> (r: usize)
    requires
        t < smf_tracks(*smf).len(),
    ensures
        r == smf_tracks(*smf)[t as int].len(),
{
    smf.tracks[t].len()
}

/// `u28::as_int` of the delta of event `i` of track `t`: claims it is the
/// delta of that event as `smf_tracks` names it.
#[verifier::external_body]
fn smf_event_delta(smf: &midly::Smf, t: usize, i: usize) -> (r: u32)
    requires
        t < smf_tracks(*smf).len(),
        i < smf_tracks(*smf)[t as int].len(),
    ensures
        r == smf_tracks(*smf)[t as int][i as int].delta,
{
    smf.tracks[t][i].delta.as_int()
}

/// The `midly::TrackEventKind` of event `i` of track `t`, one variant of
/// midly's to one of the model's (`u7`/`u24` fields read with `as_int`, a
/// track name's bytes copied): claims it is that event's kind as `smf_tracks`
/// names it.
#[verifier::external_body]
fn smf_event_kind(smf: &midly::Smf, t: usize, i: usize) -> (r: EventKind)
    requires
        t < smf_tracks(*smf).len(),
        i < smf_tracks(*smf)[t as int].len(),
    ensures
        r == smf_tracks(*smf)[t as int][i as int].kind,
{
    match smf.tracks[t][i].kind {
        Kind::Midi { message: Msg::NoteOn { key, vel }, .. } => EventKind::NoteOn { key: key.as_int(), vel: vel.as_int() },
        Kind::Midi { message: Msg::NoteOff { key, vel }, .. } => EventKind::NoteOff { key: key.as_int(), vel: vel.as_int() },
        Kind::Meta(Meta::TrackName(name)) => EventKind::TrackName(name.to_vec()),
        Kind::Meta(Meta::Tempo(us)) => EventKind::Tempo(us.as_int()),
        Kind::Meta(Meta::TimeSignature(a, b, c, d)) => EventKind::TimeSignature(a, b, c, d),
        _ => EventKind::Other,
    }
}

/// Why a file could not be read as MIDI: midly's description of the problem.
#[derive(Debug, Clone)]
pub struct MidiLoadError {
    pub message: String,
}

/// The tracks of `file`, event by event.
pub open spec fn file_tracks(file: MidiFile) -> Seq<Seq<TrackEvent>> {
    file.tracks@.map_values(|t: Vec<TrackEvent>| t@)
}

/// Reads a Standard MIDI File from its bytes: `Ok` exactly when midly parses
/// them, with the file's timing and every event of every track; otherwise
/// midly's description of the problem.
pub fn load_midi(bytes: &[u8]) -> (r: Result<MidiFile, MidiLoadError>)
    ensures
        (r is Ok) == (midly_parse(bytes@) is Some),
        r matches Ok(file) ==> midly_parse(bytes@) == Some((file.ticks_per_quarter, file_tracks(file))),
        r matches Ok(file) ==> events_in_range(file_tracks(file)),
        r matches Err(e) ==> e.message@ == midly_parse_error(bytes@),
{
    let smf = match parse_smf(bytes) {
        Ok(smf) => smf,
        Err(e) => {
            return Err(MidiLoadError { message: e });
        },
    };
    let ghost parsed = smf_tracks(smf);
    let ticks = smf_timing(&smf);
    let count = smf_track_count(&smf);
    let mut tracks: Vec<Vec<TrackEvent>> = Vec::new();
    let mut t: usize = 0;
    while t < count
        invariant
            count == parsed.len(),
            parsed == smf_tracks(smf),
            t <= count,
            tracks@.len() == t,
            forall|u: int| 0 <= u < t ==> (#[trigger] tracks@[u])@ == parsed[u],
        decreases count - t,
    {
        let len = smf_track_len(&smf, t);
        let mut track: Vec<TrackEvent> = Vec::new();
        let mut i: usize = 0;
        while i < len
            invariant
                count == parsed.len(),
                parsed == smf_tracks(smf),
                t < count,
                len == parsed[t as int].len(),
                i <= len,
                track@ == parsed[t as int].take(i as int),
            decreases len - i,
        {
            let delta = smf_event_delta(&smf, t, i);
            let kind = smf_event_kind(&smf, t, i);
            track.push(TrackEvent { delta, kind });
            assert(track@ =~= parsed[t as int].take(i + 1));
            i = i + 1;
        }
        assert(track@ =~= parsed[t as int]);
        tracks.push(track);
        t = t + 1;
    }
    let file = MidiFile { ticks_per_quarter: ticks, tracks };
    assert(file_tracks(file) =~= parsed);
    Ok(file)
}

} // verus!
