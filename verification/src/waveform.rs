//! Waveform summariser: min/max per pixel for a time range, switching to
//! individual samples when zoomed past one frame per pixel.
//!
//! Everything but the floating-point min/max fold itself is decided here:
//! the clamped frame range, the mode switch, the per-pixel frame boundaries,
//! and the zoomed-in tuples. The caller folds each pixel's range with float
//! minimum and maximum, starting from zero, which keeps silent ranges at
//! (0, 0).

use vstd::prelude::*;
use crate::engine::{AudioEngine, AudioTrack, TimePos, TrackModel, frames_of_time};

verus! {

/// What a waveform request renders for one track.
pub enum WaveformPlan {
    /// The requested number of zero tuples: the track or range is empty.
    Zeros(usize),
    /// Zoomed-in mode, one tuple per source frame: each holds
    /// `(0, left, 0, right)` as bit patterns (for mono, the sample twice),
    /// the zero being the bar glyph's baseline. The output length is the
    /// frame count, not the pixel count; the caller detects the mode by it.
    Samples(Vec<(u32, u32, u32, u32)>),
    /// Normal mode, one frame range `[start, end)` per pixel: the pixel
    /// shows the per-channel minima and maxima over those frames, folded
    /// from zero.
    Pixels(Vec<(usize, usize)>),
}

/// The start frame of a range, clamped to the track's frame count.
pub open spec fn clamped_frame(m: TrackModel, t: TimePos) -> nat {
    let f = t.frame_at(m.sample_rate);
    if f > m.frame_count() {
        m.frame_count()
    } else {
        f
    }
}

/// The zoomed-in tuple for one frame: the frame's samples over a zero
/// baseline, or zeros past the end of the buffer.
pub open spec fn zoom_tuple(m: TrackModel, frame: int) -> (u32, u32, u32, u32) {
    if m.channels == 2 {
        if 2 * frame + 1 < m.data.len() {
            (0u32, m.data[2 * frame], 0u32, m.data[2 * frame + 1])
        } else {
            (0u32, 0u32, 0u32, 0u32)
        }
    } else if m.channels == 1 {
        if frame < m.data.len() {
            (0u32, m.data[frame], 0u32, m.data[frame])
        } else {
            (0u32, 0u32, 0u32, 0u32)
        }
    } else {
        if frame * m.channels < m.data.len() {
            (0u32, m.data[frame * m.channels], 0u32, m.data[frame * m.channels])
        } else {
            (0u32, 0u32, 0u32, 0u32)
        }
    }
}

/// The frame range pixel `i` of `np` covers within `[sf, ef)`: an exact
/// even split, the remainder spread by the floor of `i * fc / np`.
pub open spec fn pixel_range(sf: nat, ef: nat, np: nat, i: int) -> (usize, usize) {
    let fc = (ef - sf) as nat;
    let ps = sf + (i * fc) as nat / np;
    let pe0 = sf + ((i + 1) * fc) as nat / np;
    (ps as usize, (if pe0 > ef { ef } else { pe0 }) as usize)
}

/// Whether the request falls in zoomed-in mode: a nonempty clamped range
/// with fewer frames than pixels.
pub open spec fn zoomed_in(m: TrackModel, start: TimePos, end: TimePos, np: nat) -> bool {
    let sf = clamped_frame(m, start);
    let ef = clamped_frame(m, end);
    m.data.len() > 0 && np > 0 && sf < ef && ef - sf < np
}

/// Whether the request falls in normal mode.
pub open spec fn normal_mode(m: TrackModel, start: TimePos, end: TimePos, np: nat) -> bool {
    let sf = clamped_frame(m, start);
    let ef = clamped_frame(m, end);
    m.data.len() > 0 && np > 0 && sf < ef && ef - sf >= np
}

impl AudioEngine {
    /// Plan the waveform of one track over a time range: zero tuples for an
    /// empty range, one tuple per frame when zoomed in past one frame per
    /// pixel, else one frame range per pixel for the caller's min/max fold.
    /// The plan is a pure function of the track and the arguments.
    pub fn get_track_waveform(&self, track_index: usize, start_time: &TimePos, end_time: &TimePos, num_pixels: usize) -> (r: WaveformPlan)
        requires
            self.wf(),
            track_index < self.tracks@.len(),
            start_time.wf(),
            end_time.wf(),
        ensures
            ({
                let m = self.tracks@[track_index as int]@;
                let sf = clamped_frame(m, *start_time);
                let ef = clamped_frame(m, *end_time);
                match r {
                    WaveformPlan::Zeros(n) => n == num_pixels && !zoomed_in(m, *start_time, *end_time, num_pixels as nat)
                        && !normal_mode(m, *start_time, *end_time, num_pixels as nat),
                    WaveformPlan::Samples(v) => zoomed_in(m, *start_time, *end_time, num_pixels as nat)
                        && v@.len() == ef - sf && (forall|f: int| 0 <= f < v@.len()
                        ==> v@[f] == zoom_tuple(m, sf + f)),
                    WaveformPlan::Pixels(v) => normal_mode(m, *start_time, *end_time, num_pixels as nat)
                        && v@.len() == num_pixels && (forall|i: int| 0 <= i < v@.len()
                        ==> v@[i] == pixel_range(sf, ef, num_pixels as nat, i)
                        && (#[trigger] v@[i]).0 <= v@[i].1 <= ef
                        && v@[i].1 <= m.frame_count()),
                }
            }),
    {
        let track: &AudioTrack = &self.tracks[track_index];
        let ghost m = track@;
        let frame_count: usize = track.audio_data.len() / track.channels;

        if track.audio_data.len() == 0 || num_pixels == 0 {
            return WaveformPlan::Zeros(num_pixels);
        }

        let sf0: usize = frames_of_time(start_time, track.sample_rate);
        let ef0: usize = frames_of_time(end_time, track.sample_rate);
        let sf: usize = if sf0 < frame_count {
            sf0
        } else {
            frame_count
        };
        let ef: usize = if ef0 < frame_count {
            ef0
        } else {
            frame_count
        };

        if sf >= ef {
            return WaveformPlan::Zeros(num_pixels);
        }

        let fc: usize = ef - sf;

        if fc < num_pixels {
            // zoomed in far enough to see individual samples: one entry per
            // frame so the caller can draw discrete bars
            let mut out: Vec<(u32, u32, u32, u32)> = Vec::new();
            let mut f: usize = 0;
            while f < fc
                invariant
                    f <= fc,
                    self.wf(),
                    track_index < self.tracks@.len(),
                    track == self.tracks@[track_index as int],
                    m == track@,
                    m.channels >= 1,
                    m.data.len() <= usize::MAX,
                    frame_count == m.frame_count(),
                    sf + fc <= frame_count,
                    out@.len() == f,
                    forall|k: int| 0 <= k < f ==> out@[k] == zoom_tuple(m, sf + k),
                decreases fc - f,
            {
                let frame: usize = sf + f;
                proof {
                    vstd::arithmetic::div_mod::lemma_fundamental_div_mod(m.data.len() as int, m.channels as int);
                    vstd::arithmetic::div_mod::lemma_mod_division_less_than_divisor(m.data.len() as int, m.channels as int);
                    assert((frame as int) * (m.channels as int) + (m.channels as int)
                        <= (frame_count as int) * (m.channels as int)) by (nonlinear_arith)
                        requires
                            frame + 1 <= frame_count,
                            m.channels >= 1,
                    ;
                    assert((frame_count as int) * (m.channels as int) <= m.data.len() as int) by (nonlinear_arith)
                        requires
                            frame_count == m.data.len() as int / m.channels as int,
                            m.channels >= 1,
                            m.data.len() as int == (m.data.len() as int / m.channels as int) * m.channels as int
                                + m.data.len() as int % m.channels as int,
                            m.data.len() as int % m.channels as int >= 0,
                    ;
                    assert((frame as int) * 2 <= (frame as int) * (m.channels as int) + (m.channels as int) || m.channels != 2) by (nonlinear_arith);
                }
                let tuple: (u32, u32, u32, u32) = if track.channels == 2 {
                    proof {
                        assert((frame as int) * (m.channels as int) == 2 * (frame as int)) by (nonlinear_arith)
                            requires
                                m.channels == 2,
                        ;
                    }
                    let idx: usize = frame * 2;
                    if idx + 1 < track.audio_data.len() {
                        (0, track.audio_data[idx], 0, track.audio_data[idx + 1])
                    } else {
                        (0, 0, 0, 0)
                    }
                } else if track.channels == 1 {
                    if frame < track.audio_data.len() {
                        (0, track.audio_data[frame], 0, track.audio_data[frame])
                    } else {
                        (0, 0, 0, 0)
                    }
                } else {
                    proof {
                        assert((frame as int) * (track.channels as int) <= m.data.len() as int);
                    }
                    let idx: usize = frame * track.channels;
                    if idx < track.audio_data.len() {
                        (0, track.audio_data[idx], 0, track.audio_data[idx])
                    } else {
                        (0, 0, 0, 0)
                    }
                };
                out.push(tuple);
                f = f + 1;
            }
            return WaveformPlan::Samples(out);
        }

        // normal mode: one frame range per pixel
        let mut ranges: Vec<(usize, usize)> = Vec::new();
        let mut i: usize = 0;
        while i < num_pixels
            invariant
                i <= num_pixels,
                num_pixels >= 1,
                sf < ef,
                ef <= frame_count <= usize::MAX,
                fc == ef - sf,
                fc >= num_pixels,
                ranges@.len() == i,
                forall|k: int| 0 <= k < i ==> ranges@[k] == pixel_range(sf as nat, ef as nat, num_pixels as nat, k)
                    && (#[trigger] ranges@[k]).0 <= ranges@[k].1 <= ef,
            decreases num_pixels - i,
        {
            proof {
                assert((i as int + 1) * (fc as int) < 0x1_0000_0000_0000_0000_0000_0000_0000_0000) by (nonlinear_arith)
                    requires
                        i < 0x1_0000_0000_0000_0000,
                        fc < 0x1_0000_0000_0000_0000,
                ;
                assert((i as int) * (fc as int) <= (i + 1) * (fc as int) && (i + 1) * (fc as int)
                    <= (num_pixels as int) * (fc as int)) by (nonlinear_arith)
                    requires
                        0 <= i,
                        i + 1 <= num_pixels,
                        fc >= 0,
                ;
                vstd::arithmetic::div_mod::lemma_div_is_ordered((i as int) * (fc as int), (i + 1) * (fc as int), num_pixels as int);
                vstd::arithmetic::div_mod::lemma_multiply_divide_le((i + 1) * (fc as int), num_pixels as int, fc as int);
                assert((i + 1) * (fc as int) <= (num_pixels as int) * (fc as int));
                assert((num_pixels as int) * (fc as int) == (fc as int) * (num_pixels as int)) by (nonlinear_arith);
                assert(((i + 1) * (fc as int)) / (num_pixels as int) <= fc as int);
                vstd::arithmetic::div_mod::lemma_div_is_ordered((i as int) * (fc as int), (i + 1) * (fc as int), num_pixels as int);
            }
            let ps_off: u128 = ((i as u128) * (fc as u128)) / (num_pixels as u128);
            let pe_off: u128 = (((i as u128) + 1) * (fc as u128)) / (num_pixels as u128);
            let ps: usize = sf + (ps_off as usize);
            let pe0: usize = sf + (pe_off as usize);
            let pe: usize = if pe0 < ef {
                pe0
            } else {
                ef
            };
            ranges.push((ps, pe));
            i = i + 1;
        }
        WaveformPlan::Pixels(ranges)
    }

    /// Plan the waveform of every track over a time range, in store order;
    /// empty when no tracks are loaded or no pixels were requested.
    pub fn get_waveform_for_range(&self, start_time: &TimePos, end_time: &TimePos, num_pixels: usize) -> (r: Vec<WaveformPlan>)
        requires
            self.wf(),
            start_time.wf(),
            end_time.wf(),
        ensures
            self.tracks@.len() == 0 || num_pixels == 0 ==> r@.len() == 0,
            self.tracks@.len() > 0 && num_pixels > 0 ==> r@.len() == self.tracks@.len(),
    {
        let mut out: Vec<WaveformPlan> = Vec::new();
        if self.tracks.len() == 0 || num_pixels == 0 {
            return out;
        }
        let mut i: usize = 0;
        while i < self.tracks.len()
            invariant
                i <= self.tracks@.len(),
                self.wf(),
                start_time.wf(),
                end_time.wf(),
                out@.len() == i,
            decreases self.tracks@.len() - i,
        {
            let plan = self.get_track_waveform(i, start_time, end_time, num_pixels);
            out.push(plan);
            i = i + 1;
        }
        out
    }
}

/// Two waveform requests with identical arguments render identical plans:
/// the summary is a pure function of the track's samples and the range.
pub proof fn lemma_waveform_deterministic(m: TrackModel, start: TimePos, end: TimePos, np: nat, p1: WaveformPlan, p2: WaveformPlan)
    requires
        plan_matches(m, start, end, np, p1),
        plan_matches(m, start, end, np, p2),
    ensures
        plans_equal(p1, p2),
{
    match (p1, p2) {
        (WaveformPlan::Zeros(a), WaveformPlan::Zeros(b)) => {
        },
        (WaveformPlan::Samples(a), WaveformPlan::Samples(b)) => {
            assert(a@ =~= b@);
        },
        (WaveformPlan::Pixels(a), WaveformPlan::Pixels(b)) => {
            assert(a@ =~= b@);
        },
        _ => {
        },
    }
}

/// The relation `get_track_waveform` establishes between its arguments and
/// its plan.
pub open spec fn plan_matches(m: TrackModel, start: TimePos, end: TimePos, np: nat, r: WaveformPlan) -> bool {
    let sf = clamped_frame(m, start);
    let ef = clamped_frame(m, end);
    match r {
        WaveformPlan::Zeros(n) => n == np && !zoomed_in(m, start, end, np) && !normal_mode(
            m,
            start,
            end,
            np,
        ),
        WaveformPlan::Samples(v) => zoomed_in(m, start, end, np) && v@.len() == ef - sf && (forall|
            f: int,
        | 0 <= f < v@.len() ==> v@[f] == zoom_tuple(m, sf + f)),
        WaveformPlan::Pixels(v) => normal_mode(m, start, end, np) && v@.len() == np && (forall|
            i: int,
        | 0 <= i < v@.len() ==> v@[i] == pixel_range(sf, ef, np, i)),
    }
}

/// Plan equality by contents.
pub open spec fn plans_equal(p1: WaveformPlan, p2: WaveformPlan) -> bool {
    match (p1, p2) {
        (WaveformPlan::Zeros(a), WaveformPlan::Zeros(b)) => a == b,
        (WaveformPlan::Samples(a), WaveformPlan::Samples(b)) => a@ == b@,
        (WaveformPlan::Pixels(a), WaveformPlan::Pixels(b)) => a@ == b@,
        _ => false,
    }
}

} // verus!
