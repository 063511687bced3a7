//! Multi-track audio model: the track store and region editing.
//!
//! Times are exact rational seconds (`TimePos`), so every frame boundary is
//! the floor of `seconds * rate` computed without rounding. Sample data is
//! interleaved 32-bit PCM carried as raw bit patterns; see
//! [`crate::samplemath`].

use vstd::prelude::*;
use vstd::arithmetic::div_mod::{lemma_div_denominator, lemma_div_is_ordered, lemma_div_multiples_vanish, lemma_mod_multiples_basic, lemma_sub_mod_noop, lemma_add_mod_noop};
use crate::EngineError;

verus! {

/// A point in time as an exact nonnegative rational number of seconds.
#[derive(Clone, Copy, Debug, PartialEq, Eq, Structural)]
pub struct TimePos {
    /// Numerator in seconds.
    pub num: u64,
    /// Denominator; at least one.
    pub den: u64,
}

impl TimePos {
    /// A valid time has a nonzero denominator.
    pub open spec fn wf(self) -> bool {
        self.den >= 1
    }

    /// This time is at or before the other.
    pub open spec fn le(self, other: TimePos) -> bool {
        self.num * other.den <= other.num * self.den
    }

    /// The frame index of this time at a sample rate: the floor of
    /// `seconds * rate`, saturated to the machine's index range.
    pub open spec fn frame_at(self, rate: u32) -> nat {
        let f = (self.num * rate) as nat / self.den as nat;
        if f > usize::MAX {
            usize::MAX as nat
        } else {
            f
        }
    }

    /// Time zero.
    pub fn zero() -> (r: TimePos)
        ensures
            r.wf(),
            r.num == 0,
            r.den == 1,
    {
        TimePos { num: 0, den: 1 }
    }
}

/// Compute the frame index of a time at a sample rate.
pub fn frames_of_time(t: &TimePos, rate: u32) -> (r: usize)
    requires
        t.wf(),
    ensures
        r == t.frame_at(rate),
{
    proof {
        assert((t.num as int) * (rate as int) < 0x1_0000_0000_0000_0000_0000_0000) by (nonlinear_arith)
            requires
                t.num <= 0xFFFF_FFFF_FFFF_FFFF,
                rate <= 0xFFFF_FFFF,
        ;
    }
    let prod: u128 = (t.num as u128) * (rate as u128);
    let q: u128 = prod / (t.den as u128);
    if q > usize::MAX as u128 {
        usize::MAX
    } else {
        q as usize
    }
}

/// An earlier time never lands on a later frame.
pub proof fn lemma_frame_at_mono(a: TimePos, b: TimePos, rate: u32)
    requires
        a.wf(),
        b.wf(),
        a.le(b),
    ensures
        a.frame_at(rate) <= b.frame_at(rate),
{
    let x = (a.num * rate) as int;
    let y = (b.num * rate) as int;
    let d1 = a.den as int;
    let d2 = b.den as int;
    assert(x * d2 <= y * d1) by (nonlinear_arith)
        requires
            x == a.num * rate,
            y == b.num * rate,
            a.num * d2 <= b.num * d1,
            rate >= 0,
            d1 >= 1,
            d2 >= 1,
    ;
    // scale both quotients to the common denominator d1 * d2
    assert(x / d1 == (x * d2) / (d1 * d2)) by {
        lemma_div_denominator(x * d2, d2, d1);
        lemma_div_multiples_vanish(x, d2);
        assert((x * d2) / d2 == x) by {
            assert(d2 * x == x * d2) by (nonlinear_arith);
        };
        assert((x * d2) / (d2 * d1) == x / d1);
        assert(d2 * d1 == d1 * d2) by (nonlinear_arith);
    };
    assert(y / d2 == (y * d1) / (d1 * d2)) by {
        lemma_div_denominator(y * d1, d1, d2);
        lemma_div_multiples_vanish(y, d1);
        assert((y * d1) / d1 == y) by {
            assert(d1 * y == y * d1) by (nonlinear_arith);
        };
        assert((y * d1) / (d1 * d2) == y / d2) by {
            assert(d1 * d2 == d2 * d1) by (nonlinear_arith);
        };
    };
    assert(d1 * d2 >= 1) by (nonlinear_arith)
        requires
            d1 >= 1,
            d2 >= 1,
    ;
    lemma_div_is_ordered(x * d2, y * d1, d1 * d2);
}

/// The mathematical model of one track: its sample bit patterns, rate,
/// channel count and name.
pub struct TrackModel {
    /// Interleaved sample bit patterns.
    pub data: Seq<u32>,
    /// Sample rate in Hz.
    pub sample_rate: u32,
    /// Channel count.
    pub channels: nat,
    /// Display name.
    pub name: Seq<char>,
}

impl TrackModel {
    /// Track invariant: a positive rate, at least one channel, and a buffer
    /// holding a whole number of frames.
    pub open spec fn wf(self) -> bool {
        &&& self.sample_rate >= 1
        &&& self.channels >= 1
        &&& self.data.len() % self.channels == 0
    }

    /// Number of frames in the buffer.
    pub open spec fn frame_count(self) -> nat {
        self.data.len() / self.channels
    }

    /// A time's position in this track's buffer as a sample index (frame
    /// index times channel count), saturated to the machine's index range.
    pub open spec fn sample_at(self, t: TimePos) -> nat {
        let s = t.frame_at(self.sample_rate) * self.channels;
        if s > usize::MAX {
            usize::MAX as nat
        } else {
            s
        }
    }
}

/// Whether a region delete leaves a track untouched: its buffer ends at or
/// before the region's start.
pub open spec fn delete_skips(m: TrackModel, start: TimePos) -> bool {
    m.sample_at(start) >= m.data.len()
}

/// A track with the sample region `[start, end)` (each boundary at the
/// track's own rate) removed; the end is soft-clamped to the buffer.
pub open spec fn deleted_model(m: TrackModel, start: TimePos, end: TimePos) -> TrackModel {
    let ss = m.sample_at(start);
    let es0 = m.sample_at(end);
    let es: nat = if es0 > m.data.len() {
        m.data.len()
    } else {
        es0
    };
    TrackModel {
        data: m.data.subrange(0, ss as int) + m.data.subrange(es as int, m.data.len() as int),
        ..m
    }
}

/// One step of a region delete: apply it to the listed track if the index is
/// in range and the track reaches the region, else change nothing.
pub open spec fn delete_step(ms: Seq<TrackModel>, idx: usize, start: TimePos, end: TimePos) -> Seq<TrackModel> {
    if idx < ms.len() && !delete_skips(ms[idx as int], start) {
        ms.update(idx as int, deleted_model(ms[idx as int], start, end))
    } else {
        ms
    }
}

/// A region delete over a list of track indices, applied in order.
pub open spec fn delete_fold(ms: Seq<TrackModel>, idxs: Seq<usize>, start: TimePos, end: TimePos) -> Seq<TrackModel>
    decreases idxs.len(),
{
    if idxs.len() == 0 {
        ms
    } else {
        delete_fold(delete_step(ms, idxs.first(), start, end), idxs.drop_first(), start, end)
    }
}

/// Whether any listed index edited a track, walking the list in order over
/// the evolving store.
pub open spec fn delete_any_applied(ms: Seq<TrackModel>, idxs: Seq<usize>, start: TimePos, end: TimePos) -> bool
    decreases idxs.len(),
{
    if idxs.len() == 0 {
        false
    } else {
        let i0 = idxs.first();
        let applied = i0 < ms.len() && !delete_skips(ms[i0 as int], start);
        applied || delete_any_applied(delete_step(ms, i0, start, end), idxs.drop_first(), start, end)
    }
}

/// Folding one more index from the left.
pub proof fn lemma_delete_fold_push(ms: Seq<TrackModel>, idxs: Seq<usize>, x: usize, start: TimePos, end: TimePos)
    ensures
        delete_fold(ms, idxs.push(x), start, end) == delete_step(
            delete_fold(ms, idxs, start, end),
            x,
            start,
            end,
        ),
        delete_any_applied(ms, idxs.push(x), start, end) == (delete_any_applied(ms, idxs, start, end)
            || (x < delete_fold(ms, idxs, start, end).len() && !delete_skips(
            delete_fold(ms, idxs, start, end)[x as int],
            start,
        ))),
    decreases idxs.len(),
{
    if idxs.len() == 0 {
        assert(idxs.push(x).drop_first() =~= idxs);
        assert(delete_fold(delete_step(ms, x, start, end), idxs, start, end) == delete_step(ms, x, start, end));
    } else {
        assert(idxs.push(x).first() == idxs.first());
        assert(idxs.push(x).drop_first() =~= idxs.drop_first().push(x));
        lemma_delete_fold_push(delete_step(ms, idxs.first(), start, end), idxs.drop_first(), x, start, end);
    }
}

/// A single audio track: interleaved PCM samples as 32-bit float bit
/// patterns, with its own sample rate and channel count.
pub struct AudioTrack {
    /// Interleaved samples, one bit pattern each.
    pub audio_data: Vec<u32>,
    /// Sample rate in Hz; positive.
    pub sample_rate: u32,
    /// Channel count; at least one.
    pub channels: usize,
    /// Display name.
    pub name: String,
}

impl View for AudioTrack {
    type V = TrackModel;

    open spec fn view(&self) -> TrackModel {
        TrackModel {
            data: self.audio_data@,
            sample_rate: self.sample_rate,
            channels: self.channels as nat,
            name: self.name@,
        }
    }
}

/// The models of a track sequence, in order.
pub open spec fn models_of(s: Seq<AudioTrack>) -> Seq<TrackModel> {
    Seq::new(s.len(), |i: int| s[i]@)
}

/// Largest channel count of a track sequence, defaulting to two for an
/// empty store.
pub open spec fn max_channels_of(s: Seq<AudioTrack>) -> nat
    decreases s.len(),
{
    if s.len() == 0 {
        2
    } else if s.len() == 1 {
        s[0].channels as nat
    } else {
        let m = max_channels_of(s.drop_last());
        if s.last().channels > m {
            s.last().channels as nat
        } else {
            m
        }
    }
}

/// Core audio engine state: the ordered track store. The first track's rate
/// is the reference rate for playback and export.
pub struct AudioEngine {
    /// Tracks in insertion order.
    pub tracks: Vec<AudioTrack>,
}

impl AudioEngine {
    /// Store invariant: every track is well formed — in particular, every
    /// buffer holds a whole number of frames.
    pub open spec fn wf(&self) -> bool {
        forall|i: int| 0 <= i < self.tracks@.len() ==> (#[trigger] self.tracks@[i])@.wf()
    }

    /// Create an engine with no tracks loaded.
    pub fn new() -> (r: AudioEngine)
        ensures
            r.wf(),
            r.tracks@.len() == 0,
    {
        AudioEngine { tracks: Vec::new() }
    }

    /// Append a decoded track. Reports the reference rate when the new
    /// track's rate disagrees with it; the track is appended either way.
    pub fn add_track(&mut self, name: String, sample_rate: u32, channels: usize, audio_data: Vec<u32>) -> (r: Option<u32>)
        requires
            old(self).wf(),
            sample_rate >= 1,
            channels >= 1,
            audio_data@.len() % (channels as nat) == 0,
        ensures
            final(self).wf(),
            final(self).tracks@.len() == old(self).tracks@.len() + 1,
            forall|i: int| 0 <= i < old(self).tracks@.len() ==> final(self).tracks@[i] == old(
                self,
            ).tracks@[i],
            final(self).tracks@.last()@ == (TrackModel {
                data: audio_data@,
                sample_rate,
                channels: channels as nat,
                name: name@,
            }),
            r == if old(self).tracks@.len() > 0 && old(self).tracks@[0].sample_rate != sample_rate {
                Some(old(self).tracks@[0].sample_rate)
            } else {
                None::<u32>
            },
    {
        let mismatched_rate: Option<u32> = if self.tracks.len() > 0 {
            let existing_rate = self.tracks[0].sample_rate;
            if existing_rate != sample_rate {
                Some(existing_rate)
            } else {
                None
            }
        } else {
            None
        };
        self.tracks.push(AudioTrack { audio_data, sample_rate, channels, name });
        mismatched_rate
    }

    /// Sample rate of the first loaded track, or 44100 when none is loaded.
    pub fn get_sample_rate(&self) -> (r: u32)
        ensures
            r == if self.tracks@.len() > 0 {
                self.tracks@[0].sample_rate
            } else {
                44100u32
            },
    {
        if self.tracks.len() > 0 {
            self.tracks[0].sample_rate
        } else {
            44100
        }
    }

    /// Number of loaded tracks.
    pub fn get_track_count(&self) -> (r: usize)
        ensures
            r == self.tracks@.len(),
    {
        self.tracks.len()
    }

    /// Largest channel count over the loaded tracks, or 2 when none is
    /// loaded.
    pub fn get_channels(&self) -> (r: usize)
        ensures
            r == max_channels_of(self.tracks@),
    {
        if self.tracks.len() == 0 {
            return 2;
        }
        let mut best: usize = self.tracks[0].channels;
        let mut i: usize = 1;
        proof {
            assert(best == max_channels_of(self.tracks@.take(1)));
        }
        while i < self.tracks.len()
            invariant
                1 <= i <= self.tracks@.len(),
                best == max_channels_of(self.tracks@.take(i as int)),
            decreases self.tracks@.len() - i,
        {
            let c = self.tracks[i].channels;
            proof {
                assert(self.tracks@.take(i + 1).drop_last() =~= self.tracks@.take(i as int));
                assert(self.tracks@.take(i + 1).last() == self.tracks@[i as int]);
            }
            if c > best {
                best = c;
            }
            i = i + 1;
        }
        proof {
            assert(self.tracks@.take(self.tracks@.len() as int) =~= self.tracks@);
        }
        best
    }

    /// Snapshot of (name, sample rate, channel count, frame count) per
    /// track, in store order. A duration in seconds is a frame count over
    /// its rate.
    pub fn get_track_info(&self) -> (r: Vec<(String, u32, usize, usize)>)
        requires
            self.wf(),
        ensures
            r@.len() == self.tracks@.len(),
            forall|i: int| 0 <= i < r@.len() ==> {
                &&& (#[trigger] r@[i]).0@ == self.tracks@[i]@.name
                &&& r@[i].1 == self.tracks@[i]@.sample_rate
                &&& r@[i].2 == self.tracks@[i]@.channels
                &&& r@[i].3 == self.tracks@[i]@.frame_count()
            },
    {
        let mut out: Vec<(String, u32, usize, usize)> = Vec::new();
        let mut i: usize = 0;
        while i < self.tracks.len()
            invariant
                i <= self.tracks@.len(),
                self.wf(),
                out@.len() == i,
                forall|j: int| 0 <= j < i ==> {
                    &&& (#[trigger] out@[j]).0@ == self.tracks@[j]@.name
                    &&& out@[j].1 == self.tracks@[j]@.sample_rate
                    &&& out@[j].2 == self.tracks@[j]@.channels
                    &&& out@[j].3 == self.tracks@[j]@.frame_count()
                },
            decreases self.tracks@.len() - i,
        {
            let track = &self.tracks[i];
            let frames: usize = track.audio_data.len() / track.channels;
            out.push((track.name.clone(), track.sample_rate, track.channels, frames));
            i = i + 1;
        }
        out
    }

    /// Drop all tracks.
    pub fn clear_tracks(&mut self)
        ensures
            final(self).wf(),
            final(self).tracks@.len() == 0,
    {
        self.tracks = Vec::new();
    }

    /// Duration of the longest track as an exact rational number of
    /// seconds: the largest frame count over rate, or zero with no tracks.
    pub fn get_duration(&self) -> (r: TimePos)
        requires
            self.wf(),
        ensures
            r.wf(),
            forall|i: int| 0 <= i < self.tracks@.len() ==> (r.num as nat) * (#[trigger] self.tracks@[i])@.sample_rate
                >= self.tracks@[i]@.frame_count() * r.den,
            self.tracks@.len() == 0 ==> r.num == 0 && r.den == 1,
            self.tracks@.len() > 0 ==> exists|i: int| #![auto] 0 <= i < self.tracks@.len()
                && r.num == self.tracks@[i]@.frame_count() && r.den
                == self.tracks@[i]@.sample_rate,
    {
        if self.tracks.len() == 0 {
            return TimePos { num: 0, den: 1 };
        }
        let first_frames: usize = self.tracks[0].audio_data.len() / self.tracks[0].channels;
        let mut best = TimePos { num: first_frames as u64, den: self.tracks[0].sample_rate as u64 };
        let mut i: usize = 1;
        proof {
            assert((best.num as nat) * self.tracks@[0]@.sample_rate >= self.tracks@[0]@.frame_count() * best.den) by (nonlinear_arith)
                requires
                    best.num == self.tracks@[0]@.frame_count(),
                    best.den == self.tracks@[0]@.sample_rate,
            ;
        }
        while i < self.tracks.len()
            invariant
                1 <= i <= self.tracks@.len(),
                self.wf(),
                best.wf(),
                best.num <= usize::MAX,
                forall|j: int| 0 <= j < i ==> (best.num as nat) * (#[trigger] self.tracks@[j])@.sample_rate
                    >= self.tracks@[j]@.frame_count() * best.den,
                exists|j: int| #![auto] 0 <= j < i && best.num == self.tracks@[j]@.frame_count()
                    && best.den == self.tracks@[j]@.sample_rate,
            decreases self.tracks@.len() - i,
        {
            let track = &self.tracks[i];
            let frames: usize = track.audio_data.len() / track.channels;
            // compare frames / rate against the best so far by cross
            // multiplication
            proof {
                assert((frames as int) * (best.den as int) < 0x1_0000_0000_0000_0000_0000_0000_0000_0000
                    && (best.num as int) * (track.sample_rate as int)
                    < 0x1_0000_0000_0000_0000_0000_0000_0000_0000) by (nonlinear_arith)
                    requires
                        frames <= 0xFFFF_FFFF_FFFF_FFFF,
                        best.den <= 0xFFFF_FFFF_FFFF_FFFF,
                        best.num <= 0xFFFF_FFFF_FFFF_FFFF,
                        track.sample_rate <= 0xFFFF_FFFF,
                ;
            }
            let lhs: u128 = (frames as u128) * (best.den as u128);
            let rhs: u128 = (best.num as u128) * (track.sample_rate as u128);
            if lhs > rhs {
                let ghost old_best = best;
                best = TimePos { num: frames as u64, den: track.sample_rate as u64 };
                proof {
                    assert forall|j: int| 0 <= j < i + 1 implies (best.num as nat)
                        * (#[trigger] self.tracks@[j])@.sample_rate >= self.tracks@[j]@.frame_count()
                        * best.den by {
                        if j < i {
                            let fj = self.tracks@[j]@.frame_count() as int;
                            let rj = self.tracks@[j]@.sample_rate as int;
                            // frames/rate > best >= fj/rj, so frames/rate >= fj/rj
                            assert((frames as int) * rj >= fj * (track.sample_rate as int)) by (nonlinear_arith)
                                requires
                                    (frames as int) * old_best.den > old_best.num * (track.sample_rate as int),
                                    old_best.num * rj >= fj * old_best.den,
                                    old_best.den >= 1,
                                    rj >= 1,
                                    track.sample_rate >= 1,
                                    fj >= 0,
                                    frames >= 0,
                                    old_best.num >= 0,
                            ;
                        } else {
                            assert((frames as nat) * self.tracks@[i as int]@.sample_rate
                                >= self.tracks@[i as int]@.frame_count() * (track.sample_rate as nat)) by (nonlinear_arith)
                                requires
                                    frames == self.tracks@[i as int]@.frame_count(),
                                    track.sample_rate == self.tracks@[i as int]@.sample_rate,
                            ;
                        }
                    };
                }
            }
            i = i + 1;
        }
        best
    }

    /// Remove the region `[start, end)` from each listed track, walking the
    /// list in order, each track at its own rate. A listed track whose
    /// buffer ends before the region, or an index past the store, is skipped
    /// without error; the delete reports `OutOfBounds` only when a nonempty
    /// list edited nothing.
    pub fn delete_region(&mut self, start_time: &TimePos, end_time: &TimePos, track_indices: &[usize]) -> (r: Result<(), EngineError>)
        requires
            old(self).wf(),
            start_time.wf(),
            end_time.wf(),
            start_time.le(*end_time),
        ensures
            final(self).wf(),
            models_of(final(self).tracks@) == delete_fold(
                models_of(old(self).tracks@),
                track_indices@,
                *start_time,
                *end_time,
            ),
            r is Ok <==> (track_indices@.len() == 0 || delete_any_applied(
                models_of(old(self).tracks@),
                track_indices@,
                *start_time,
                *end_time,
            )),
            r is Err ==> r == Err::<(), EngineError>(EngineError::OutOfBounds),
    {
        let ghost ms0 = models_of(self.tracks@);
        let mut applied_any: bool = false;
        let mut k: usize = 0;
        proof {
            assert(track_indices@.take(0) =~= Seq::<usize>::empty());
        }
        while k < track_indices.len()
            invariant
                k <= track_indices@.len(),
                self.wf(),
                start_time.wf(),
                end_time.wf(),
                start_time.le(*end_time),
                models_of(self.tracks@) == delete_fold(ms0, track_indices@.take(k as int), *start_time, *end_time),
                self.tracks@.len() == ms0.len(),
                applied_any == delete_any_applied(ms0, track_indices@.take(k as int), *start_time, *end_time),
            decreases track_indices@.len() - k,
        {
            let track_idx: usize = track_indices[k];
            let ghost pre_models = models_of(self.tracks@);
            let mut edited: bool = false;
            if track_idx < self.tracks.len() {
                let skipped = self.delete_region_track(track_idx, start_time, end_time);
                edited = !skipped;
            }
            proof {
                assert(models_of(self.tracks@) =~= delete_step(pre_models, track_idx, *start_time, *end_time));
                assert(track_indices@.take(k + 1) =~= track_indices@.take(k as int).push(
                    track_indices@[k as int],
                ));
                lemma_delete_fold_push(ms0, track_indices@.take(k as int), track_indices@[k as int], *start_time, *end_time);
            }
            if edited {
                applied_any = true;
            }
            k = k + 1;
        }
        proof {
            assert(track_indices@.take(track_indices@.len() as int) =~= track_indices@);
        }
        if track_indices.len() == 0 || applied_any {
            Ok(())
        } else {
            Err(EngineError::OutOfBounds)
        }
    }

    /// Remove the region from one track; reports whether the track was
    /// skipped because its buffer ends before the region's start.
    fn delete_region_track(&mut self, track_idx: usize, start_time: &TimePos, end_time: &TimePos) -> (skipped: bool)
        requires
            old(self).wf(),
            track_idx < old(self).tracks@.len(),
            start_time.wf(),
            end_time.wf(),
            start_time.le(*end_time),
        ensures
            final(self).wf(),
            final(self).tracks@.len() == old(self).tracks@.len(),
            skipped == delete_skips(old(self).tracks@[track_idx as int]@, *start_time),
            models_of(final(self).tracks@) == delete_step(
                models_of(old(self).tracks@),
                track_idx,
                *start_time,
                *end_time,
            ),
    {
        let ghost m0 = self.tracks@[track_idx as int]@;
        let rate: u32 = self.tracks[track_idx].sample_rate;
        let channels: usize = self.tracks[track_idx].channels;
        let len: usize = self.tracks[track_idx].audio_data.len();

        let start_frame: usize = frames_of_time(start_time, rate);
        let end_frame: usize = frames_of_time(end_time, rate);

        let start_sample: usize = saturating_mul_usize(start_frame, channels);
        let end_sample0: usize = saturating_mul_usize(end_frame, channels);
        proof {
            assert(start_sample == m0.sample_at(*start_time));
            assert(end_sample0 == m0.sample_at(*end_time));
        }

        if start_sample >= len {
            proof {
                assert(models_of(self.tracks@) =~= delete_step(models_of(old(self).tracks@), track_idx, *start_time, *end_time));
            }
            return true;
        }

        let end_sample: usize = if end_sample0 < len {
            end_sample0
        } else {
            len
        };
        proof {
            lemma_frame_at_mono(*start_time, *end_time, rate);
            assert(start_frame * channels <= end_frame * channels) by (nonlinear_arith)
                requires
                    start_frame <= end_frame,
                    channels >= 0,
            ;
            assert(start_sample <= end_sample);
        }

        // rebuild the buffer without the closed-open sample range
        let mut new_data: Vec<u32> = Vec::new();
        let mut i: usize = 0;
        while i < start_sample
            invariant
                i <= start_sample,
                start_sample < len,
                self.tracks@ == old(self).tracks@,
                track_idx < self.tracks@.len(),
                len == self.tracks@[track_idx as int].audio_data@.len(),
                new_data@ == self.tracks@[track_idx as int].audio_data@.subrange(0, i as int),
            decreases start_sample - i,
        {
            let v = self.tracks[track_idx].audio_data[i];
            new_data.push(v);
            proof {
                assert(new_data@ =~= self.tracks@[track_idx as int].audio_data@.subrange(0, i + 1));
            }
            i = i + 1;
        }
        let mut j: usize = end_sample;
        while j < len
            invariant
                end_sample <= j <= len,
                start_sample <= end_sample,
                start_sample < len,
                self.tracks@ == old(self).tracks@,
                track_idx < self.tracks@.len(),
                len == self.tracks@[track_idx as int].audio_data@.len(),
                new_data@ == self.tracks@[track_idx as int].audio_data@.subrange(
                    0,
                    start_sample as int,
                ) + self.tracks@[track_idx as int].audio_data@.subrange(end_sample as int, j as int),
            decreases len - j,
        {
            let v = self.tracks[track_idx].audio_data[j];
            new_data.push(v);
            proof {
                assert(new_data@ =~= self.tracks@[track_idx as int].audio_data@.subrange(
                    0,
                    start_sample as int,
                ) + self.tracks@[track_idx as int].audio_data@.subrange(end_sample as int, j + 1));
            }
            j = j + 1;
        }

        let name_copy: String = self.tracks[track_idx].name.clone();
        self.tracks.set(
            track_idx,
            AudioTrack { audio_data: new_data, sample_rate: rate, channels, name: name_copy },
        );
        proof {
            // the new buffer still holds a whole number of frames: both cut
            // points are frame boundaries or the buffer's end
            let ch = channels as int;
            assert(start_sample as int % ch == 0) by {
                lemma_mod_multiples_basic(start_frame as int, ch);
            };
            assert(end_sample as int % ch == 0) by {
                if end_sample0 < len {
                    lemma_mod_multiples_basic(end_frame as int, ch);
                }
            };
            let nlen = (len - (end_sample - start_sample)) as int;
            assert(nlen % ch == 0) by {
                lemma_sub_mod_noop(len as int, end_sample as int, ch);
                lemma_add_mod_noop((len - end_sample) as int, start_sample as int, ch);
            };
            assert(final(self).tracks@[track_idx as int]@ =~= deleted_model(m0, *start_time, *end_time)) by {
                assert(final(self).tracks@[track_idx as int].audio_data@ =~= deleted_model(m0, *start_time, *end_time).data);
            };
            assert(models_of(final(self).tracks@) =~= delete_step(
                models_of(old(self).tracks@),
                track_idx,
                *start_time,
                *end_time,
            ));
        }
        false
    }
}

/// Multiply two indexes, saturating at the machine's index range, as the
/// float-to-index casts of time arithmetic would.
pub fn saturating_mul_usize(a: usize, b: usize) -> (r: usize)
    ensures
        r == if a * b > usize::MAX {
            usize::MAX as nat
        } else {
            (a * b) as nat
        },
{
    if b != 0 && a > usize::MAX / b {
        proof {
            vstd::arithmetic::div_mod::lemma_fundamental_div_mod(usize::MAX as int, b as int);
            vstd::arithmetic::div_mod::lemma_mod_division_less_than_divisor(usize::MAX as int, b as int);
            assert(a * b > usize::MAX) by (nonlinear_arith)
                requires
                    b >= 1,
                    a > usize::MAX as int / b as int,
                    usize::MAX as int == (usize::MAX as int / b as int) * b as int + usize::MAX as int % b as int,
                    (usize::MAX as int % b as int) < b as int,
            ;
        }
        usize::MAX
    } else {
        proof {
            if b != 0 {
                vstd::arithmetic::div_mod::lemma_fundamental_div_mod(usize::MAX as int, b as int);
                vstd::arithmetic::div_mod::lemma_mod_division_less_than_divisor(usize::MAX as int, b as int);
                assert(a * b <= usize::MAX) by (nonlinear_arith)
                    requires
                        b >= 1,
                        a <= usize::MAX as int / b as int,
                        usize::MAX as int == (usize::MAX as int / b as int) * b as int + usize::MAX as int % b as int,
                        (usize::MAX as int % b as int) >= 0,
                ;
            }
        }
        a * b
    }
}


/// Every track of a well-formed store holds a whole number of frames: the
/// buffer's length is divisible by its channel count. Every engine operation
/// keeps the store well formed.
pub proof fn lemma_store_holds_whole_frames(engine: AudioEngine)
    requires
        engine.wf(),
    ensures
        forall|i: int| 0 <= i < engine.tracks@.len() ==> (#[trigger] engine.tracks@[i])@.data.len()
            % engine.tracks@[i]@.channels == 0,
{
}

} // verus!
