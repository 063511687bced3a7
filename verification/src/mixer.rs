//! Mixer policies: playback mix and export mixes.
//!
//! The two channel-rearranging policies (split and mono-pair-to-stereo) are
//! pure sample selection and are computed here outright. The summing
//! policies (auto, stereo, mono) have every decision here too — which track
//! contributes which sample to which output position — while the caller
//! folds the contributions with floating-point addition and clamps, which
//! cannot be carried out in this crate.

use vstd::prelude::*;
use crate::engine::{AudioEngine, AudioTrack, TimePos, TrackModel, frames_of_time};

verus! {

/// What one track contributes to one output sample of a summing mix.
#[derive(Clone, Copy, Debug, PartialEq, Eq, Structural)]
pub enum MixContribution {
    /// Nothing: the track has ended or does not take part.
    Silence,
    /// One sample's bit pattern, added as is.
    Sample(u32),
    /// A stereo frame's two bit patterns; the caller adds their average.
    Pair(u32, u32),
}

/// Output file name suffix of an export item.
#[derive(Clone, Copy, Debug, PartialEq, Eq, Structural)]
pub enum ChannelSuffix {
    /// No suffix: a single output file.
    Plain,
    /// The left half of a split stereo track.
    Left,
    /// The right half of a split stereo track.
    Right,
}

/// Whether any track is stereo, which decides the playback channel count.
pub open spec fn any_stereo(s: Seq<AudioTrack>) -> bool {
    exists|i: int| 0 <= i < s.len() && (#[trigger] s[i]).channels == 2
}

/// A track's first frame for a range starting at `start`, at its own rate.
pub open spec fn track_start_frame(m: TrackModel, start: TimePos) -> nat {
    start.frame_at(m.sample_rate)
}

/// How many frames of a track fall in `[start, end)`, at its own rate.
pub open spec fn track_range_frames(m: TrackModel, start: TimePos, end: TimePos) -> nat {
    let s = start.frame_at(m.sample_rate);
    let e = end.frame_at(m.sample_rate);
    if e >= s {
        (e - s) as nat
    } else {
        0
    }
}

/// What a track adds to output frame `frame_idx` of a playback-style mix
/// (the auto and stereo policies): its own frame at the same index within
/// the range, stereo frames channel for channel, mono frames into both
/// output channels, nothing once the track or the range runs out. With one
/// output channel only mono tracks contribute.
pub open spec fn playback_contribution_of(m: TrackModel, start: TimePos, end: TimePos, frame_idx: nat, out_channels: nat) -> (Option<u32>, Option<u32>) {
    let tsf = track_start_frame(m, start);
    let tf = tsf + frame_idx;
    if frame_idx >= track_range_frames(m, start, end) || tf >= m.frame_count() {
        (None, None)
    } else if out_channels == 2 {
        if m.channels == 2 {
            if 2 * tf + 1 < m.data.len() {
                (Some(m.data[2 * tf as int]), Some(m.data[2 * tf as int + 1]))
            } else {
                (None, None)
            }
        } else if m.channels == 1 {
            if tf < m.data.len() {
                (Some(m.data[tf as int]), Some(m.data[tf as int]))
            } else {
                (None, None)
            }
        } else {
            (None, None)
        }
    } else {
        if m.channels == 1 && tf < m.data.len() {
            (Some(m.data[tf as int]), None)
        } else {
            (None, None)
        }
    }
}

/// What a track adds to output frame `frame_idx` of the mono downmix:
/// stereo frames as a pair whose average the caller adds, mono samples as
/// they are, nothing once the track runs out.
pub open spec fn mono_contribution_of(m: TrackModel, start: TimePos, frame_idx: nat) -> MixContribution {
    let tsf = track_start_frame(m, start);
    let avail: nat = if m.frame_count() >= tsf {
        (m.frame_count() - tsf) as nat
    } else {
        0
    };
    let tf = tsf + frame_idx;
    if frame_idx >= avail {
        MixContribution::Silence
    } else if m.channels == 2 {
        if 2 * tf + 1 < m.data.len() {
            MixContribution::Pair(m.data[2 * tf as int], m.data[2 * tf as int + 1])
        } else {
            MixContribution::Silence
        }
    } else if m.channels == 1 {
        if tf < m.data.len() {
            MixContribution::Sample(m.data[tf as int])
        } else {
            MixContribution::Silence
        }
    } else {
        MixContribution::Silence
    }
}

/// The left or right channel of one stereo track over the export range:
/// `track_total` frames starting at the track's start frame.
pub open spec fn split_channel_data(m: TrackModel, start: TimePos, total_frames: nat, ch: int) -> Seq<u32> {
    let tsf = track_start_frame(m, start);
    let half: nat = m.data.len() / 2;
    let avail: nat = if half >= tsf {
        (half - tsf) as nat
    } else {
        0
    };
    let track_total: nat = if total_frames <= avail {
        total_frames
    } else {
        avail
    };
    Seq::new(track_total, |k: int| m.data[2 * (tsf + k) + ch])
}

/// Indices of the mono tracks, in store order; pair `p` of the
/// mono-pair-to-stereo policy is tracks `2p` and `2p + 1` of this list.
pub open spec fn mono_indices(s: Seq<AudioTrack>) -> Seq<usize>
    decreases s.len(),
{
    if s.len() == 0 {
        Seq::empty()
    } else {
        let rest = mono_indices(s.drop_last());
        if s.last().channels == 1 {
            rest.push((s.len() - 1) as usize)
        } else {
            rest
        }
    }
}

/// The sample of the mono-pair-to-stereo output at `(frame, ch)` after the
/// first `pairs` pairs have been laid down, later pairs over earlier ones;
/// zero bits where no pair's track covers the frame.
pub open spec fn m2s_value(s: Seq<AudioTrack>, monos: Seq<usize>, start: TimePos, frame: int, ch: int, pairs: nat) -> u32
    decreases pairs,
{
    if pairs == 0 {
        0u32
    } else {
        let prev = m2s_value(s, monos, start, frame, ch, (pairs - 1) as nat);
        let m = s[monos[2 * (pairs - 1) + ch] as int]@;
        let tsf = track_start_frame(m, start);
        if tsf + frame < m.data.len() {
            m.data[tsf + frame as int]
        } else {
            prev
        }
    }
}

impl AudioEngine {
    /// Playback channel count: two when any track is stereo, else one.
    pub fn playback_out_channels(&self) -> (r: usize)
        ensures
            r == if any_stereo(self.tracks@) {
                2usize
            } else {
                1usize
            },
    {
        let mut i: usize = 0;
        while i < self.tracks.len()
            invariant
                i <= self.tracks@.len(),
                forall|j: int| 0 <= j < i ==> (#[trigger] self.tracks@[j]).channels != 2,
            decreases self.tracks@.len() - i,
        {
            if self.tracks[i].channels == 2 {
                return 2;
            }
            i = i + 1;
        }
        1
    }

    /// Number of output frames of a mix over `[start, end)` at the
    /// reference rate.
    pub fn total_mix_frames(&self, start_time: &TimePos, end_time: &TimePos) -> (r: usize)
        requires
            start_time.wf(),
            end_time.wf(),
        ensures
            ({
                let rate = if self.tracks@.len() > 0 {
                    self.tracks@[0].sample_rate
                } else {
                    44100u32
                };
                let s = start_time.frame_at(rate);
                let e = end_time.frame_at(rate);
                r == if e >= s {
                    (e - s) as nat
                } else {
                    0nat
                }
            }),
    {
        let rate = self.get_sample_rate();
        let s = frames_of_time(start_time, rate);
        let e = frames_of_time(end_time, rate);
        if e >= s {
            e - s
        } else {
            0
        }
    }

    /// What one track adds to output frame `frame_idx` of a playback-style
    /// mix: the pair of samples to add to the two output channels (the
    /// second is absent for mono output).
    pub fn playback_contribution(&self, track_index: usize, start_time: &TimePos, end_time: &TimePos, frame_idx: usize, out_channels: usize) -> (r: (Option<u32>, Option<u32>))
        requires
            self.wf(),
            track_index < self.tracks@.len(),
            start_time.wf(),
            end_time.wf(),
        ensures
            r == playback_contribution_of(
                self.tracks@[track_index as int]@,
                *start_time,
                *end_time,
                frame_idx as nat,
                out_channels as nat,
            ),
    {
        let track = &self.tracks[track_index];
        let ghost m = track@;
        let len: usize = track.audio_data.len();
        let frame_count: usize = len / track.channels;

        let tsf: usize = frames_of_time(start_time, track.sample_rate);
        let tef: usize = frames_of_time(end_time, track.sample_rate);
        let track_total: usize = if tef >= tsf {
            tef - tsf
        } else {
            0
        };
        if frame_idx >= track_total {
            return (None, None);
        }
        let tf: usize = tsf + frame_idx;
        if tf >= frame_count {
            return (None, None);
        }
        proof {
            vstd::arithmetic::div_mod::lemma_fundamental_div_mod(len as int, track.channels as int);
            vstd::arithmetic::div_mod::lemma_mod_division_less_than_divisor(len as int, track.channels as int);
            assert((tf as int) * (track.channels as int) + (track.channels as int)
                <= (frame_count as int) * (track.channels as int)) by (nonlinear_arith)
                requires
                    tf + 1 <= frame_count,
                    track.channels >= 1,
            ;
            assert((frame_count as int) * (track.channels as int) <= len as int) by (nonlinear_arith)
                requires
                    frame_count == len as int / track.channels as int,
                    track.channels >= 1,
                    len as int == (len as int / track.channels as int) * track.channels as int
                        + len as int % track.channels as int,
                    (len as int % track.channels as int) >= 0,
            ;
        }
        if out_channels == 2 {
            if track.channels == 2 {
                proof {
                    assert((tf as int) * (m.channels as int) == 2 * (tf as int)) by (nonlinear_arith)
                        requires
                            m.channels == 2,
                    ;
                }
                let idx: usize = tf * 2;
                if idx + 1 < len {
                    (Some(track.audio_data[idx]), Some(track.audio_data[idx + 1]))
                } else {
                    (None, None)
                }
            } else if track.channels == 1 {
                if tf < len {
                    let v = track.audio_data[tf];
                    (Some(v), Some(v))
                } else {
                    (None, None)
                }
            } else {
                (None, None)
            }
        } else {
            if track.channels == 1 && tf < len {
                (Some(track.audio_data[tf]), None)
            } else {
                (None, None)
            }
        }
    }

    /// What one track adds to output frame `frame_idx` of the mono downmix.
    pub fn mono_contribution(&self, track_index: usize, start_time: &TimePos, frame_idx: usize) -> (r: MixContribution)
        requires
            self.wf(),
            track_index < self.tracks@.len(),
            start_time.wf(),
        ensures
            r == mono_contribution_of(self.tracks@[track_index as int]@, *start_time, frame_idx as nat),
    {
        let track = &self.tracks[track_index];
        let ghost m = track@;
        let len: usize = track.audio_data.len();
        let frame_count: usize = len / track.channels;

        let tsf: usize = frames_of_time(start_time, track.sample_rate);
        let avail: usize = if frame_count >= tsf {
            frame_count - tsf
        } else {
            0
        };
        if frame_idx >= avail {
            return MixContribution::Silence;
        }
        let tf: usize = tsf + frame_idx;
        proof {
            vstd::arithmetic::div_mod::lemma_fundamental_div_mod(len as int, track.channels as int);
            vstd::arithmetic::div_mod::lemma_mod_division_less_than_divisor(len as int, track.channels as int);
            assert((tf as int) * (track.channels as int) + (track.channels as int)
                <= (frame_count as int) * (track.channels as int)) by (nonlinear_arith)
                requires
                    tf + 1 <= frame_count,
                    track.channels >= 1,
            ;
            assert((frame_count as int) * (track.channels as int) <= len as int) by (nonlinear_arith)
                requires
                    frame_count == len as int / track.channels as int,
                    track.channels >= 1,
                    len as int == (len as int / track.channels as int) * track.channels as int
                        + len as int % track.channels as int,
                    (len as int % track.channels as int) >= 0,
            ;
        }
        if track.channels == 2 {
            proof {
                assert((tf as int) * (m.channels as int) == 2 * (tf as int)) by (nonlinear_arith)
                    requires
                        m.channels == 2,
                ;
            }
            let idx: usize = tf * 2;
            if idx + 1 < len {
                MixContribution::Pair(track.audio_data[idx], track.audio_data[idx + 1])
            } else {
                MixContribution::Silence
            }
        } else if track.channels == 1 {
            if tf < len {
                MixContribution::Sample(track.audio_data[tf])
            } else {
                MixContribution::Silence
            }
        } else {
            MixContribution::Silence
        }
    }

    /// Split every stereo track into two independent mono outputs, left and
    /// right, over `[start, end)` at the reference rate. Mono tracks
    /// contribute nothing; with no stereo track (or no tracks, or an empty
    /// range) a single empty output is returned.
    pub fn mix_tracks_split(&self, start_time: &TimePos, end_time: &TimePos) -> (r: Vec<(Vec<u32>, u32, usize, ChannelSuffix)>)
        requires
            self.wf(),
            start_time.wf(),
            end_time.wf(),
        ensures
            self.tracks@.len() == 0 ==> r@.len() == 1 && r@[0].0@.len() == 0 && r@[0].1 == 44100
                && r@[0].2 == 2 && r@[0].3 == ChannelSuffix::Plain,
            ({
                let rate = if self.tracks@.len() > 0 {
                    self.tracks@[0].sample_rate
                } else {
                    44100u32
                };
                let total = (if end_time.frame_at(rate) >= start_time.frame_at(rate) {
                    (end_time.frame_at(rate) - start_time.frame_at(rate)) as nat
                } else {
                    0nat
                });
                self.tracks@.len() > 0 && total == 0 ==> r@.len() == 1 && r@[0].0@.len() == 0
                    && r@[0].1 == rate && r@[0].2 == 2 && r@[0].3 == ChannelSuffix::Plain
            }),
            ({
                let rate = self.tracks@[0].sample_rate;
                let total = (if end_time.frame_at(rate) >= start_time.frame_at(rate) {
                    (end_time.frame_at(rate) - start_time.frame_at(rate)) as nat
                } else {
                    0nat
                });
                self.tracks@.len() > 0 && total > 0 ==> {
                    let stereos = Seq::new(self.tracks@.len(), |i: int| self.tracks@[i]).filter(
                        |t: AudioTrack| t.channels == 2,
                    );
                    if stereos.len() == 0 {
                        r@.len() == 1 && r@[0].0@.len() == 0 && r@[0].1 == rate && r@[0].2 == 1
                            && r@[0].3 == ChannelSuffix::Plain
                    } else {
                        r@.len() == 2 * stereos.len() && forall|p: int| 0 <= p < stereos.len()
                            ==> (#[trigger] r@[2 * p]).0@ == split_channel_data(
                            stereos[p]@,
                            *start_time,
                            total,
                            0,
                        ) && r@[2 * p].1 == rate && r@[2 * p].2 == 1 && r@[2 * p].3
                            == ChannelSuffix::Left && r@[2 * p + 1].0@ == split_channel_data(
                            stereos[p]@,
                            *start_time,
                            total,
                            1,
                        ) && r@[2 * p + 1].1 == rate && r@[2 * p + 1].2 == 1 && r@[2 * p + 1].3
                            == ChannelSuffix::Right
                    }
                }
            }),
    {
        let mut results: Vec<(Vec<u32>, u32, usize, ChannelSuffix)> = Vec::new();
        if self.tracks.len() == 0 {
            results.push((Vec::new(), 44100, 2, ChannelSuffix::Plain));
            return results;
        }
        let rate: u32 = self.tracks[0].sample_rate;
        let total_frames: usize = self.total_mix_frames(start_time, end_time);
        if total_frames == 0 {
            results.push((Vec::new(), rate, 2, ChannelSuffix::Plain));
            return results;
        }

        let ghost all = Seq::new(self.tracks@.len(), |i: int| self.tracks@[i]);
        let ghost stereo_pred = |t: AudioTrack| t.channels == 2;
        let mut i: usize = 0;
        proof {
            assert(all.take(0).filter(stereo_pred) =~= Seq::<AudioTrack>::empty());
        }
        while i < self.tracks.len()
            invariant
                i <= self.tracks@.len(),
                self.wf(),
                start_time.wf(),
                end_time.wf(),
                rate == self.tracks@[0].sample_rate,
                self.tracks@.len() > 0,
                total_frames as nat == track_range_frames(self.tracks@[0]@, *start_time, *end_time),
                all == Seq::new(self.tracks@.len(), |j: int| self.tracks@[j]),
                stereo_pred == (|t: AudioTrack| t.channels == 2),
                results@.len() == 2 * all.take(i as int).filter(stereo_pred).len(),
                forall|p: int| 0 <= p < all.take(i as int).filter(stereo_pred).len() ==> {
                    let st = all.take(i as int).filter(stereo_pred)[p];
                    (#[trigger] results@[2 * p]).0@ == split_channel_data(st@, *start_time, total_frames as nat, 0)
                        && results@[2 * p].1 == rate && results@[2 * p].2 == 1 && results@[2 * p].3
                        == ChannelSuffix::Left && results@[2 * p + 1].0@ == split_channel_data(
                        st@,
                        *start_time,
                        total_frames as nat,
                        1,
                    ) && results@[2 * p + 1].1 == rate && results@[2 * p + 1].2 == 1 && results@[2
                        * p + 1].3 == ChannelSuffix::Right
                },
            decreases self.tracks@.len() - i,
        {
            let track = &self.tracks[i];
            let ghost m = track@;
            if track.channels == 2 {
                let len: usize = track.audio_data.len();
                let half: usize = len / 2;
                let tsf: usize = frames_of_time(start_time, track.sample_rate);
                let avail: usize = if half >= tsf {
                    half - tsf
                } else {
                    0
                };
                let track_total: usize = if total_frames <= avail {
                    total_frames
                } else {
                    avail
                };

                let mut left_data: Vec<u32> = Vec::new();
                let mut right_data: Vec<u32> = Vec::new();
                let mut k: usize = 0;
                while k < track_total
                    invariant
                        k <= track_total,
                        m == track@,
                        m.channels == 2,
                        len == m.data.len(),
                        half == len / 2,
                        tsf == track_start_frame(m, *start_time),
                        track_total == 0 || tsf + track_total <= half,
                        left_data@.len() == k,
                        right_data@.len() == k,
                        forall|q: int| 0 <= q < k ==> (#[trigger] left_data@[q]) == m.data[2 * (tsf + q)],
                        forall|q: int| 0 <= q < k ==> (#[trigger] right_data@[q]) == m.data[2 * (tsf + q) + 1],
                    decreases track_total - k,
                {
                    let tf: usize = tsf + k;
                    proof {
                        vstd::arithmetic::div_mod::lemma_fundamental_div_mod(len as int, 2);
                        vstd::arithmetic::div_mod::lemma_mod_division_less_than_divisor(len as int, 2);
                    }
                    let idx: usize = tf * 2;
                    left_data.push(track.audio_data[idx]);
                    right_data.push(track.audio_data[idx + 1]);
                    k = k + 1;
                }
                proof {
                    assert(left_data@ =~= split_channel_data(m, *start_time, total_frames as nat, 0));
                    assert(right_data@ =~= split_channel_data(m, *start_time, total_frames as nat, 1));
                }
                results.push((left_data, rate, 1, ChannelSuffix::Left));
                results.push((right_data, rate, 1, ChannelSuffix::Right));
            }
            proof {
                assert(all.take(i + 1) =~= all.take(i as int).push(all[i as int]));
                all.take(i as int).lemma_filter_push(all[i as int], stereo_pred);
            }
            i = i + 1;
        }
        proof {
            assert(all.take(all.len() as int) =~= all);
        }
        if results.len() == 0 {
            results.push((Vec::new(), rate, 1, ChannelSuffix::Plain));
        }
        results
    }

    /// List the indices of the mono tracks, in store order.
    pub fn mono_track_indices(&self) -> (r: Vec<usize>)
        ensures
            r@ == mono_indices(self.tracks@),
            forall|p: int| 0 <= p < r@.len() ==> (#[trigger] r@[p]) < self.tracks@.len()
                && self.tracks@[r@[p] as int].channels == 1,
    {
        let mut out: Vec<usize> = Vec::new();
        let mut i: usize = 0;
        proof {
            assert(mono_indices(self.tracks@.take(0)) =~= Seq::<usize>::empty());
        }
        while i < self.tracks.len()
            invariant
                i <= self.tracks@.len(),
                out@ == mono_indices(self.tracks@.take(i as int)),
                forall|p: int| 0 <= p < out@.len() ==> (#[trigger] out@[p]) < i
                    && self.tracks@[out@[p] as int].channels == 1,
            decreases self.tracks@.len() - i,
        {
            proof {
                assert(self.tracks@.take(i + 1).drop_last() =~= self.tracks@.take(i as int));
                assert(self.tracks@.take(i + 1).last() == self.tracks@[i as int]);
            }
            if self.tracks[i].channels == 1 {
                out.push(i);
            }
            i = i + 1;
        }
        proof {
            assert(self.tracks@.take(self.tracks@.len() as int) =~= self.tracks@);
        }
        out
    }

    /// Combine pairs of mono tracks into one stereo output over
    /// `[start, end)` at the reference rate: pair `p` puts mono track `2p`
    /// into the left channel and `2p + 1` into the right, later pairs over
    /// earlier ones; an unpaired trailing mono track and all stereo tracks
    /// are ignored. Returns the interleaved stereo buffer.
    pub fn mix_tracks_mono_to_stereo(&self, start_time: &TimePos, end_time: &TimePos) -> (r: Vec<u32>)
        requires
            self.wf(),
            self.tracks@.len() > 0,
            start_time.wf(),
            end_time.wf(),
        ensures
            ({
                let total = track_range_frames(self.tracks@[0]@, *start_time, *end_time);
                let monos = mono_indices(self.tracks@);
                let pairs = monos.len() / 2;
                r@.len() == total * 2 && forall|f: int, c: int| 0 <= f < total && 0 <= c < 2
                    ==> #[trigger] r@[2 * f + c] == m2s_value(self.tracks@, monos, *start_time, f, c, pairs)
            }),
    {
        let total_frames: usize = self.total_mix_frames(start_time, end_time);
        let monos: Vec<usize> = self.mono_track_indices();
        let num_pairs: usize = monos.len() / 2;
        let ghost monos_seq = monos@;
        proof {
            vstd::arithmetic::div_mod::lemma_fundamental_div_mod(monos_seq.len() as int, 2);
            vstd::arithmetic::div_mod::lemma_mod_division_less_than_divisor(monos_seq.len() as int, 2);
            assert(2 * (num_pairs as int) <= monos_seq.len());
        }

        let mut out: Vec<u32> = Vec::new();
        let mut f: usize = 0;
        while f < total_frames
            invariant
                f <= total_frames,
                self.wf(),
                start_time.wf(),
                monos@ == monos_seq,
                monos_seq == mono_indices(self.tracks@),
                num_pairs == monos_seq.len() / 2,
                2 * (num_pairs as int) <= monos_seq.len(),
                monos_seq.len() <= usize::MAX,
                forall|p: int| 0 <= p < monos_seq.len() ==> (#[trigger] monos_seq[p])
                    < self.tracks@.len() && self.tracks@[monos_seq[p] as int].channels == 1,
                out@.len() == 2 * f,
                forall|q: int, c: int| 0 <= q < f && 0 <= c < 2 ==> #[trigger] out@[2 * q + c]
                    == m2s_value(self.tracks@, monos_seq, *start_time, q, c, num_pairs as nat),
            decreases total_frames - f,
        {
            let mut c: usize = 0;
            while c < 2
                invariant
                    c <= 2,
                    f < total_frames,
                    self.wf(),
                    start_time.wf(),
                    monos@ == monos_seq,
                    monos_seq == mono_indices(self.tracks@),
                    num_pairs == monos_seq.len() / 2,
                    2 * (num_pairs as int) <= monos_seq.len(),
                    monos_seq.len() <= usize::MAX,
                    forall|p: int| 0 <= p < monos_seq.len() ==> (#[trigger] monos_seq[p])
                        < self.tracks@.len() && self.tracks@[monos_seq[p] as int].channels == 1,
                    out@.len() == 2 * f + c,
                    forall|q: int, cc: int| 0 <= q < f && 0 <= cc < 2 ==> #[trigger] out@[2 * q + cc]
                        == m2s_value(self.tracks@, monos_seq, *start_time, q, cc, num_pairs as nat),
                    forall|cc: int| 0 <= cc < c ==> #[trigger] out@[2 * f + cc] == m2s_value(
                        self.tracks@,
                        monos_seq,
                        *start_time,
                        f as int,
                        cc,
                        num_pairs as nat,
                    ),
                decreases 2 - c,
            {
                let mut val: u32 = 0;
                let mut p: usize = 0;
                while p < num_pairs
                    invariant
                        p <= num_pairs,
                        c < 2,
                        f < total_frames,
                        self.wf(),
                        start_time.wf(),
                        monos@ == monos_seq,
                        num_pairs == monos_seq.len() / 2,
                        2 * (num_pairs as int) <= monos_seq.len(),
                        monos_seq.len() <= usize::MAX,
                        forall|pp: int| 0 <= pp < monos_seq.len() ==> (#[trigger] monos_seq[pp])
                            < self.tracks@.len() && self.tracks@[monos_seq[pp] as int].channels == 1,
                        val == m2s_value(self.tracks@, monos_seq, *start_time, f as int, c as int, p as nat),
                    decreases num_pairs - p,
                {
                    proof {
                        assert(2 * (p as int) + c < monos_seq.len());
                    }
                    let mono_idx: usize = monos[2 * p + c];
                    let track = &self.tracks[mono_idx];
                    let tsf: usize = frames_of_time(start_time, track.sample_rate);
                    let len: usize = track.audio_data.len();
                    if tsf < len && f < len - tsf {
                        val = track.audio_data[tsf + f];
                    }
                    p = p + 1;
                }
                out.push(val);
                c = c + 1;
            }
            f = f + 1;
        }
        out
    }
}

} // verus!
