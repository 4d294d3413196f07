//! The playback engine: a command-driven state machine that feeds a
//! pull-based time stretcher and fills hardware output buffers.
//!
//! The stretch adapter is a float DSP block and lives with the host that
//! owns the audio callback; the engine only decides. A callback runs:
//! drain pending commands through [`EngineState::handle_command`]
//! (applying the returned [`StretchOp`]s to the adapter and forwarding
//! the events); then, until the output buffer is full, pull from the
//! adapter and hand what arrived to [`EngineState::write_received`], or,
//! when the adapter is empty, ask [`EngineState::next_feed`] which chunk
//! to feed it next — wrapping at the loop end and stopping at the end of
//! the stream. When nothing is playing, [`fill_silence`] fills the
//! buffer.

use crate::types::{AudioCommand, AudioData, AudioEvent};
use vstd::arithmetic::div_mod::{
    lemma_div_nonincreasing, lemma_div_pos_is_pos, lemma_fundamental_div_mod,
    lemma_fundamental_div_mod_converse, lemma_mod_pos_bound,
};
use vstd::arithmetic::mul::{
    lemma_mul_inequality, lemma_mul_is_commutative, lemma_mul_is_distributive_add_other_way,
    lemma_mul_nonnegative, lemma_mul_upper_bound,
};
use vstd::prelude::*;

verus! {

/// Frames fed into the stretch adapter at a time.
pub const CHUNK_SIZE: usize = 1024;

/// How often, in output frames delivered, a position update is emitted.
pub const POSITION_UPDATE_INTERVAL: usize = 2048;

/// Operations the engine asks its host to apply to the stretch adapter.
/// The adapter itself lives outside the engine: it is driven by the host
/// that owns the hardware callback.
#[derive(Clone, Copy, Debug, PartialEq, Eq, Structural)]
pub enum StretchOp {
    /// Replace the adapter with a fresh one for this stream layout.
    Reconfigure { sample_rate: u32, channels: u16, tempo_permille: u32 },
    /// Change the adapter's tempo ratio (permille of original speed).
    SetTempo(u32),
    /// Discard everything the adapter has buffered but not yet emitted.
    Clear,
}

/// What the engine decided when asked for the next chunk to feed.
#[derive(Clone, Copy, Debug, PartialEq, Eq, Structural)]
pub enum FeedStep {
    /// Feed the interleaved samples of frames `start .. start + frames`.
    Feed { start: usize, frames: usize },
    /// The position wrapped to the loop start; clear the adapter and ask
    /// again.
    Wrapped,
    /// End of stream: playback stopped; fill the rest of the output with
    /// silence.
    Finished,
}

/// The playback state machine. It owns position, tempo, loop region and
/// the loaded audio; the host owns the output stream and the stretch
/// adapter and drives this state through `handle_command`, `next_feed`
/// and `write_received`.
#[derive(Debug)]
pub struct EngineState {
    pub audio: Option<AudioData>,
    /// Current frame position within the loaded audio.
    pub position: usize,
    pub playing: bool,
    /// Playback-rate ratio in permille of original speed.
    pub tempo_permille: u32,
    /// Active loop region as a half-open frame range.
    pub loop_region: Option<(usize, usize)>,
    pub output_sample_rate: u32,
    /// Output frames delivered since the last position event.
    pub frames_since_update: usize,
}

/// The number of frames of `a`, as the engine's transitions speak of it.
pub open spec fn num_frames_of(a: AudioData) -> int {
    a.spec_num_frames() as int
}

/// The frame index that a time in milliseconds maps to, before clamping.
pub open spec fn frames_of_ms(ms: u64, sample_rate: u32) -> int {
    (ms as int) * (sample_rate as int) / 1000
}

/// The frame index a seek to `ms` lands on: the time converted to frames
/// and clamped to the audio's length.
pub open spec fn spec_seek_frames(ms: u64, a: AudioData) -> int {
    let f = frames_of_ms(ms, a.sample_rate);
    if f <= num_frames_of(a) {
        f
    } else {
        num_frames_of(a)
    }
}

/// The loop region, in frames, that a request in milliseconds produces:
/// the end is clamped to the audio's length, and a region that is empty
/// after conversion disables looping.
pub open spec fn spec_loop_frames(region: Option<(u64, u64)>, a: AudioData) -> Option<
    (usize, usize),
> {
    match region {
        None => None,
        Some((start_ms, end_ms)) => {
            let s = frames_of_ms(start_ms, a.sample_rate);
            let e0 = frames_of_ms(end_ms, a.sample_rate);
            let e = if e0 <= num_frames_of(a) {
                e0
            } else {
                num_frames_of(a)
            };
            if s < e {
                Some((s as usize, e as usize))
            } else {
                None
            }
        },
    }
}

/// The engine state after one command.
pub open spec fn spec_after_command(s: EngineState, cmd: AudioCommand) -> EngineState {
    match cmd {
        AudioCommand::LoadAudio(d) => EngineState {
            audio: Some(d),
            position: 0,
            playing: false,
            loop_region: None,
            ..s
        },
        AudioCommand::Play => if s.audio is Some {
            EngineState { playing: true, ..s }
        } else {
            s
        },
        AudioCommand::Pause => EngineState { playing: false, ..s },
        AudioCommand::Stop => EngineState { playing: false, position: 0, ..s },
        AudioCommand::Seek(ms) => match s.audio {
            Some(a) => EngineState { position: spec_seek_frames(ms, a) as usize, ..s },
            None => s,
        },
        AudioCommand::SetTempo(t) => EngineState { tempo_permille: t, ..s },
        AudioCommand::SetLoopRegion(region) => match s.audio {
            Some(a) => EngineState { loop_region: spec_loop_frames(region, a), ..s },
            None => s,
        },
        AudioCommand::Shutdown => s,
    }
}

/// The events one command emits.
pub open spec fn spec_command_events(s: EngineState, cmd: AudioCommand) -> Seq<AudioEvent> {
    match cmd {
        AudioCommand::Stop => seq![AudioEvent::PositionChanged(0)],
        AudioCommand::Seek(ms) => match s.audio {
            Some(a) => seq![AudioEvent::PositionChanged(spec_seek_frames(ms, a) as usize)],
            None => Seq::empty(),
        },
        _ => Seq::empty(),
    }
}

/// The adapter operations one command asks for.
pub open spec fn spec_command_ops(s: EngineState, cmd: AudioCommand) -> Seq<StretchOp> {
    match cmd {
        AudioCommand::LoadAudio(d) => seq![
            StretchOp::Reconfigure {
                sample_rate: d.sample_rate,
                channels: d.channels,
                tempo_permille: s.tempo_permille,
            },
        ],
        AudioCommand::Stop => seq![StretchOp::Clear],
        AudioCommand::Seek(_) => if s.audio is Some {
            seq![StretchOp::Clear]
        } else {
            Seq::empty()
        },
        AudioCommand::SetTempo(t) => seq![StretchOp::SetTempo(t)],
        _ => Seq::empty(),
    }
}

/// The state and decision after asking for the next chunk to feed.
pub open spec fn spec_next_feed(s: EngineState) -> (EngineState, FeedStep) {
    match s.audio {
        Some(a) => {
            let n = num_frames_of(a);
            match s.loop_region {
                Some((ls, le)) => if s.position >= le {
                    (EngineState { position: ls, ..s }, FeedStep::Wrapped)
                } else {
                    let avail = le - s.position;
                    let fr = if avail <= CHUNK_SIZE {
                        avail
                    } else {
                        CHUNK_SIZE as int
                    };
                    (
                        EngineState { position: (s.position + fr) as usize, ..s },
                        FeedStep::Feed { start: s.position, frames: fr as usize },
                    )
                },
                None => if s.position >= n {
                    (EngineState { playing: false, ..s }, FeedStep::Finished)
                } else {
                    let avail = n - s.position;
                    let fr = if avail <= CHUNK_SIZE {
                        avail
                    } else {
                        CHUNK_SIZE as int
                    };
                    (
                        EngineState { position: (s.position + fr) as usize, ..s },
                        FeedStep::Feed { start: s.position, frames: fr as usize },
                    )
                },
            }
        },
        None => (s, FeedStep::Finished),
    }
}

/// The channel count of the loaded audio, for contracts that speak of
/// interleaved layouts.
pub open spec fn spec_channels(s: EngineState) -> int {
    match s.audio {
        Some(a) => a.channels as int,
        None => 1,
    }
}

/// The sample that lands at offset `rel` of the delivered region when
/// `recv` (interleaved at `in_ch` channels) is written out at `out_ch`
/// channels: source channels are replicated cyclically.
pub open spec fn remap_sample(recv: Seq<i32>, in_ch: int, out_ch: int, rel: int) -> i32 {
    recv[(rel / out_ch) * in_ch + (rel % out_ch) % in_ch]
}

impl EngineState {
    /// Well-formed engine state: tempo within the control surface's
    /// range, the throttle counter below its interval, the position
    /// within the loaded audio, and any loop region a nonempty frame
    /// range inside it. Without audio the engine is at rest.
    pub open spec fn wf(self) -> bool {
        &&& 250 <= self.tempo_permille <= 2000
        &&& self.frames_since_update < POSITION_UPDATE_INTERVAL
        &&& match self.audio {
            Some(a) => {
                &&& a.wf()
                &&& self.position <= a.spec_num_frames()
                &&& match self.loop_region {
                    Some((ls, le)) => ls < le <= a.spec_num_frames(),
                    None => true,
                }
            },
            None => self.position == 0 && !self.playing && self.loop_region is None,
        }
    }

    /// A fresh engine for an output stream at the given rate: nothing
    /// loaded, stopped, original tempo, no loop.
    pub fn new(output_sample_rate: u32) -> (s: EngineState)
        ensures
            s.wf(),
            s == (EngineState {
                audio: None,
                position: 0,
                playing: false,
                tempo_permille: 1000u32,
                loop_region: None,
                output_sample_rate,
                frames_since_update: 0,
            }),
    {
        EngineState {
            audio: None,
            position: 0,
            playing: false,
            tempo_permille: 1000,
            loop_region: None,
            output_sample_rate,
            frames_since_update: 0,
        }
    }

    /// Whether a buffer fill should produce audio at all; when this is
    /// false the host fills the whole output with silence.
    pub fn wants_audio(&self) -> (r: bool)
        ensures
            r == (self.playing && self.audio is Some),
    {
        self.playing && self.audio.is_some()
    }

    /// Process one command: update the state and return the events to
    /// emit and the adapter operations to apply, in order.
    pub fn handle_command(&mut self, cmd: AudioCommand) -> (r: (Vec<AudioEvent>, Vec<StretchOp>))
        requires
            old(self).wf(),
            cmd matches AudioCommand::LoadAudio(d) ==> d.wf(),
            cmd matches AudioCommand::SetTempo(t) ==> 250 <= t <= 2000,
        ensures
            final(self).wf(),
            *final(self) == spec_after_command(*old(self), cmd),
            r.0@ == spec_command_events(*old(self), cmd),
            r.1@ == spec_command_ops(*old(self), cmd),
    {
        let ghost s0 = *self;
        let mut events: Vec<AudioEvent> = Vec::new();
        let mut ops: Vec<StretchOp> = Vec::new();
        match cmd {
            AudioCommand::LoadAudio(data) => {
                let sr = data.sample_rate;
                let ch = data.channels;
                let tempo = self.tempo_permille;
                self.audio = Some(data);
                self.position = 0;
                self.playing = false;
                self.loop_region = None;
                ops.push(
                    StretchOp::Reconfigure {
                        sample_rate: sr,
                        channels: ch,
                        tempo_permille: tempo,
                    },
                );
            },
            AudioCommand::Play => {
                if self.audio.is_some() {
                    self.playing = true;
                }
            },
            AudioCommand::Pause => {
                self.playing = false;
            },
            AudioCommand::Stop => {
                self.playing = false;
                self.position = 0;
                ops.push(StretchOp::Clear);
                events.push(AudioEvent::PositionChanged(0));
            },
            AudioCommand::Seek(ms) => {
                let target: Option<usize> = match &self.audio {
                    Some(a) => {
                        proof {
                            lemma_mul_upper_bound(
                                ms as int,
                                u64::MAX as int,
                                a.sample_rate as int,
                                u32::MAX as int,
                            );
                        }
                        let num = a.num_frames();
                        let target_q: u128 = (ms as u128) * (a.sample_rate as u128) / 1000;
                        Some(
                            if target_q >= (num as u128) {
                                num
                            } else {
                                target_q as usize
                            },
                        )
                    },
                    None => None,
                };
                match target {
                    Some(frame) => {
                        self.position = frame;
                        ops.push(StretchOp::Clear);
                        events.push(AudioEvent::PositionChanged(frame));
                    },
                    None => {},
                }
            },
            AudioCommand::SetTempo(t) => {
                self.tempo_permille = t;
                ops.push(StretchOp::SetTempo(t));
            },
            AudioCommand::SetLoopRegion(region) => {
                let new_region: Option<(usize, usize)> = match &self.audio {
                    Some(a) => match region {
                        Some((start_ms, end_ms)) => {
                            proof {
                                lemma_mul_upper_bound(
                                    start_ms as int,
                                    u64::MAX as int,
                                    a.sample_rate as int,
                                    u32::MAX as int,
                                );
                                lemma_mul_upper_bound(
                                    end_ms as int,
                                    u64::MAX as int,
                                    a.sample_rate as int,
                                    u32::MAX as int,
                                );
                            }
                            let num = a.num_frames();
                            let s128: u128 = (start_ms as u128) * (a.sample_rate as u128)
                                / 1000;
                            let e128: u128 = (end_ms as u128) * (a.sample_rate as u128)
                                / 1000;
                            let e: usize = if e128 >= (num as u128) {
                                num
                            } else {
                                e128 as usize
                            };
                            if s128 < (e as u128) {
                                Some((s128 as usize, e))
                            } else {
                                None
                            }
                        },
                        None => None,
                    },
                    None => self.loop_region,
                };
                self.loop_region = new_region;
            },
            AudioCommand::Shutdown => {},
        }
        proof {
            assert(events@ =~= spec_command_events(s0, cmd));
            assert(ops@ =~= spec_command_ops(s0, cmd));
        }
        (events, ops)
    }

    /// Decide the next fill action while playing: wrap at the loop end,
    /// finish at the end of the stream, or hand out the next chunk of at
    /// most `CHUNK_SIZE` frames (never crossing the loop end) and advance
    /// the position past it.
    pub fn next_feed(&mut self) -> (step: FeedStep)
        requires
            old(self).wf(),
            old(self).audio is Some,
            old(self).playing,
        ensures
            final(self).wf(),
            *final(self) == spec_next_feed(*old(self)).0,
            step == spec_next_feed(*old(self)).1,
            step matches FeedStep::Feed { start, frames } ==> {
                &&& start == old(self).position
                &&& 1 <= frames <= CHUNK_SIZE
                &&& final(self).position == start + frames
                &&& match final(self).audio {
                    Some(a) => start + frames <= a.spec_num_frames(),
                    None => false,
                }
                &&& match old(self).loop_region {
                    Some((ls, le)) => start + frames <= le,
                    None => true,
                }
            },
    {
        let num: usize = match &self.audio {
            Some(a) => a.num_frames(),
            None => 0,
        };
        match self.loop_region {
            Some((ls, le)) => {
                if self.position >= le {
                    self.position = ls;
                    FeedStep::Wrapped
                } else {
                    let avail = le - self.position;
                    let fr = if avail <= CHUNK_SIZE {
                        avail
                    } else {
                        CHUNK_SIZE
                    };
                    let start = self.position;
                    self.position = start + fr;
                    FeedStep::Feed { start, frames: fr }
                }
            },
            None => {
                if self.position >= num {
                    self.playing = false;
                    FeedStep::Finished
                } else {
                    let avail = num - self.position;
                    let fr = if avail <= CHUNK_SIZE {
                        avail
                    } else {
                        CHUNK_SIZE
                    };
                    let start = self.position;
                    self.position = start + fr;
                    FeedStep::Feed { start, frames: fr }
                }
            },
        }
    }
}

impl EngineState {
    /// Copy `got_frames` frames of stretched samples (interleaved at the
    /// audio's channel count) into the output at frame `out_pos`,
    /// remapping source channels cyclically onto the output channels, and
    /// advance the position-event throttle: once
    /// `POSITION_UPDATE_INTERVAL` output frames have accumulated, the
    /// counter resets and one position event comes back.
    pub fn write_received(
        &mut self,
        output: &mut Vec<i32>,
        out_pos: usize,
        out_channels: u16,
        recv: &Vec<i32>,
        got_frames: usize,
    ) -> (ev: Option<AudioEvent>)
        requires
            old(self).wf(),
            old(self).audio is Some,
            out_channels >= 1,
            got_frames * spec_channels(*old(self)) <= recv@.len(),
            (out_pos + got_frames) * (out_channels as int) <= old(output)@.len(),
        ensures
            final(self).wf(),
            final(self).audio == old(self).audio,
            final(self).position == old(self).position,
            final(self).playing == old(self).playing,
            final(self).tempo_permille == old(self).tempo_permille,
            final(self).loop_region == old(self).loop_region,
            final(self).output_sample_rate == old(self).output_sample_rate,
            final(output)@.len() == old(output)@.len(),
            forall|i: int|
                0 <= i < out_pos * (out_channels as int) ==> final(output)@[i] == old(
                    output,
                )@[i],
            forall|i: int|
                (out_pos + got_frames) * (out_channels as int) <= i < old(output)@.len()
                    ==> final(output)@[i] == old(output)@[i],
            forall|i: int|
                out_pos * (out_channels as int) <= i < (out_pos + got_frames) * (
                out_channels as int) ==> final(output)@[i] == remap_sample(
                    recv@,
                    spec_channels(*old(self)),
                    out_channels as int,
                    i - out_pos * (out_channels as int),
                ),
            ({
                let cnt = old(self).frames_since_update + got_frames;
                if cnt >= POSITION_UPDATE_INTERVAL {
                    final(self).frames_since_update == 0 && ev == Some(
                        AudioEvent::PositionChanged(old(self).position),
                    )
                } else {
                    final(self).frames_since_update == cnt && ev is None
                }
            }),
    {
        let in_ch: usize = match &self.audio {
            Some(a) => a.channels as usize,
            None => 1,
        };
        let och: usize = out_channels as usize;
        let olen: usize = output.len();
        let rlen: usize = recv.len();
        proof {
            lemma_mul_inequality(out_pos as int, out_pos + got_frames, och as int);
        }
        let mut f: usize = 0;
        let mut obase: usize = out_pos * och;
        let mut rbase: usize = 0;
        let ghost base0: int = out_pos * (och as int);
        while f < got_frames
            invariant
                1 <= in_ch,
                1 <= och,
                in_ch == spec_channels(*self),
                och == out_channels,
                base0 == out_pos * (och as int),
                f <= got_frames,
                obase == (out_pos + f) * och,
                rbase == f * in_ch,
                rlen == recv@.len(),
                olen == output@.len(),
                got_frames * in_ch <= rlen,
                (out_pos + got_frames) * och <= olen,
                output@.len() == old(output)@.len(),
                *self == *old(self),
                forall|i: int| 0 <= i < base0 ==> output@[i] == old(output)@[i],
                forall|i: int| obase <= i < output@.len() ==> output@[i] == old(output)@[i],
                forall|i: int|
                    base0 <= i < obase ==> output@[i] == remap_sample(
                        recv@,
                        in_ch as int,
                        och as int,
                        i - base0,
                    ),
            decreases got_frames - f,
        {
            proof {
                lemma_mul_inequality(out_pos + f + 1, out_pos + got_frames, och as int);
                lemma_mul_is_distributive_add_other_way(och as int, out_pos + f, 1);
                lemma_mul_inequality(f + 1, got_frames as int, in_ch as int);
                lemma_mul_is_distributive_add_other_way(in_ch as int, f as int, 1);
                lemma_mul_is_distributive_add_other_way(och as int, out_pos as int, f as int);
            }
            let mut c: usize = 0;
            while c < och
                invariant
                    1 <= in_ch,
                    1 <= och,
                    base0 == out_pos * (och as int),
                    c <= och,
                    obase == (out_pos + f) * och,
                    obase == base0 + f * och,
                    rbase == f * in_ch,
                    rlen == recv@.len(),
                    olen == output@.len(),
                    obase + och <= olen,
                    rbase + in_ch <= rlen,
                    output@.len() == old(output)@.len(),
                    forall|i: int| 0 <= i < base0 ==> output@[i] == old(output)@[i],
                    forall|i: int|
                        obase + c <= i < output@.len() ==> output@[i] == old(output)@[i],
                    forall|i: int|
                        base0 <= i < obase + c ==> output@[i] == remap_sample(
                            recv@,
                            in_ch as int,
                            och as int,
                            i - base0,
                        ),
                decreases och - c,
            {
                let sc = c % in_ch;
                let v = recv[rbase + sc];
                output.set(obase + c, v);
                proof {
                    let rel = obase + c - base0;
                    lemma_fundamental_div_mod_converse(rel, och as int, f as int, c as int);
                }
                c = c + 1;
            }
            f = f + 1;
            obase = obase + och;
            rbase = rbase + in_ch;
        }
        let remaining: usize = POSITION_UPDATE_INTERVAL - self.frames_since_update;
        if got_frames >= remaining {
            self.frames_since_update = 0;
            Some(AudioEvent::PositionChanged(self.position))
        } else {
            self.frames_since_update = self.frames_since_update + got_frames;
            None
        }
    }
}

/// Fill `output[from..]` with silence, leaving the prefix alone.
pub fn fill_silence(output: &mut Vec<i32>, from: usize)
    requires
        from <= old(output)@.len(),
    ensures
        final(output)@.len() == old(output)@.len(),
        forall|i: int| 0 <= i < from ==> final(output)@[i] == old(output)@[i],
        forall|i: int| from <= i < final(output)@.len() ==> final(output)@[i] == 0,
{
    let mut k: usize = from;
    let len = output.len();
    while k < len
        invariant
            from <= k <= len,
            len == output@.len(),
            output@.len() == old(output)@.len(),
            forall|i: int| 0 <= i < from ==> output@[i] == old(output)@[i],
            forall|i: int| from <= i < k ==> output@[i] == 0,
        decreases len - k,
    {
        output.set(k, 0);
        k = k + 1;
    }
}

/// Law (stop idempotence): stopping leaves the engine at position 0 and
/// not playing and emits a position event for time zero; stopping again
/// changes nothing and emits the same event and adapter operation.
pub proof fn lemma_stop_idempotent(s: EngineState)
    requires
        s.wf(),
    ensures
        ({
            let s1 = spec_after_command(s, AudioCommand::Stop);
            let s2 = spec_after_command(s1, AudioCommand::Stop);
            &&& s1.position == 0 && !s1.playing
            &&& s2.position == 0 && !s2.playing
            &&& s2 == s1
            &&& spec_command_events(s, AudioCommand::Stop) == spec_command_events(
                s1,
                AudioCommand::Stop,
            )
            &&& spec_command_ops(s, AudioCommand::Stop) == spec_command_ops(
                s1,
                AudioCommand::Stop,
            )
        }),
{
}

/// Law (seek accuracy): a seek to a time within the audio emits exactly
/// one position event, carrying the frame index the seek landed on, and
/// that frame quantizes the requested time to less than one frame:
/// `f * 1000 <= ms * rate < (f + 1) * 1000`, so the reported time
/// `f / rate` differs from `ms / 1000` by less than `1 / rate` seconds.
pub proof fn lemma_seek_reports_target(s: EngineState, a: AudioData, ms: u64)
    requires
        s.wf(),
        s.audio == Some(a),
        frames_of_ms(ms, a.sample_rate) <= num_frames_of(a),
    ensures
        ({
            let f = frames_of_ms(ms, a.sample_rate);
            &&& spec_after_command(s, AudioCommand::Seek(ms)).position == f
            &&& spec_command_events(s, AudioCommand::Seek(ms)) == seq![
                AudioEvent::PositionChanged(f as usize),
            ]
            &&& f * 1000 <= (ms as int) * (a.sample_rate as int)
            &&& (ms as int) * (a.sample_rate as int) < (f + 1) * 1000
        }),
{
    let x = (ms as int) * (a.sample_rate as int);
    let f = frames_of_ms(ms, a.sample_rate);
    lemma_mul_nonnegative(ms as int, a.sample_rate as int);
    lemma_fundamental_div_mod(x, 1000);
    lemma_mod_pos_bound(x, 1000);
    lemma_div_pos_is_pos(x, 1000);
    lemma_mul_is_commutative(1000, f);
    lemma_mul_is_distributive_add_other_way(1000, f, 1);
    vstd::std_specs::vec::axiom_spec_len(&a.samples);
    lemma_div_nonincreasing(a.samples@.len() as int, a.channels as int);
    assert(spec_command_events(s, AudioCommand::Seek(ms)) =~= seq![
        AudioEvent::PositionChanged(f as usize),
    ]);
}

/// Law (loop confinement): with an active loop region, a feed decision
/// never advances the position past the loop end; once the position has
/// reached or passed the end (a seek may land beyond it), the engine
/// wraps to the loop start and feeds nothing until asked again.
pub proof fn lemma_loop_confined(s: EngineState, ls: usize, le: usize)
    requires
        s.wf(),
        s.audio is Some,
        s.loop_region == Some((ls, le)),
    ensures
        s.position >= le ==> spec_next_feed(s).1 == FeedStep::Wrapped && spec_next_feed(
            s,
        ).0.position == ls,
        s.position < le ==> spec_next_feed(s).1 is Feed && spec_next_feed(s).0.position
            <= le,
        spec_next_feed(s).1 matches FeedStep::Feed { start, frames } ==> start + frames
            <= le,
        s.position <= le ==> spec_next_feed(s).0.position <= le,
{
}

/// Law (end of stream): without a loop region, once the position has
/// reached the audio's end the next feed decision finishes playback —
/// the engine stops, hands out no frames, and from then on buffer fills
/// produce silence (`wants_audio` is false on the stopped state).
pub proof fn lemma_finish_stops(s: EngineState, a: AudioData)
    requires
        s.wf(),
        s.audio == Some(a),
        s.loop_region is None,
        s.position >= a.spec_num_frames(),
    ensures
        spec_next_feed(s).1 == FeedStep::Finished,
        !spec_next_feed(s).0.playing,
        spec_next_feed(s).0.position == s.position,
        spec_next_feed(s).0.audio == s.audio,
{
}

} // verus!
