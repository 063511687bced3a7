//! Export format dispatch: the file extension, compared without regard to
//! ASCII case, selects the writer, and split-mode outputs get a channel
//! suffix spliced in before the extension.

use vstd::prelude::*;

verus! {

/// The three supported export formats.
#[derive(Clone, Copy, Debug, PartialEq, Eq, Structural)]
pub enum ExportFormat {
    /// 16-bit PCM WAV.
    Wav,
    /// FLAC via this crate's encoder.
    Flac,
    /// MP3 via an external encoder.
    Mp3,
}

/// An ASCII byte lowered to its lowercase form; other bytes unchanged.
pub open spec fn ascii_lower(c: u8) -> u8 {
    if 0x41 <= c <= 0x5A {
        (c + 0x20) as u8
    } else {
        c
    }
}

/// Whether `path` ends with `ext`, ignoring ASCII case in the path.
pub open spec fn ends_with_ci(path: Seq<u8>, ext: Seq<u8>) -> bool {
    path.len() >= ext.len() && forall|k: int| 0 <= k < ext.len() ==> ascii_lower(
        path[path.len() - ext.len() + k],
    ) == ext[k]
}

/// Whether `path` ends with `ext` (a lowercase extension), ignoring ASCII
/// case in the path.
fn ends_with_ci_exec(path: &[u8], ext: &[u8]) -> (r: bool)
    ensures
        r == ends_with_ci(path@, ext@),
{
    if path.len() < ext.len() {
        return false;
    }
    let base: usize = path.len() - ext.len();
    let mut k: usize = 0;
    while k < ext.len()
        invariant
            k <= ext@.len(),
            base + ext@.len() == path@.len(),
            path@.len() <= usize::MAX,
            forall|j: int| 0 <= j < k ==> ascii_lower(path@[base + j]) == ext@[j],
        decreases ext@.len() - k,
    {
        let c: u8 = path[base + k];
        let lowered: u8 = if 0x41 <= c && c <= 0x5A {
            c + 0x20
        } else {
            c
        };
        if lowered != ext[k] {
            return false;
        }
        k = k + 1;
    }
    true
}

/// The writer an export path selects: `.wav`, `.flac` or `.mp3`, compared
/// without regard to ASCII case; anything else is unsupported.
pub fn export_format_of(path: &[u8]) -> (r: Option<ExportFormat>)
    ensures
        r == if ends_with_ci(path@, seq![0x2Eu8, 0x77u8, 0x61u8, 0x76u8]) {
            Some(ExportFormat::Wav)
        } else if ends_with_ci(path@, seq![0x2Eu8, 0x66u8, 0x6Cu8, 0x61u8, 0x63u8]) {
            Some(ExportFormat::Flac)
        } else if ends_with_ci(path@, seq![0x2Eu8, 0x6Du8, 0x70u8, 0x33u8]) {
            Some(ExportFormat::Mp3)
        } else {
            None::<ExportFormat>
        },
{
    let wav: [u8; 4] = [0x2E, 0x77, 0x61, 0x76];
    let flac: [u8; 5] = [0x2E, 0x66, 0x6C, 0x61, 0x63];
    let mp3: [u8; 4] = [0x2E, 0x6D, 0x70, 0x33];
    proof {
        assert(wav@ =~= seq![0x2Eu8, 0x77u8, 0x61u8, 0x76u8]);
        assert(flac@ =~= seq![0x2Eu8, 0x66u8, 0x6Cu8, 0x61u8, 0x63u8]);
        assert(mp3@ =~= seq![0x2Eu8, 0x6Du8, 0x70u8, 0x33u8]);
    }
    if ends_with_ci_exec(path, wav.as_slice()) {
        Some(ExportFormat::Wav)
    } else if ends_with_ci_exec(path, flac.as_slice()) {
        Some(ExportFormat::Flac)
    } else if ends_with_ci_exec(path, mp3.as_slice()) {
        Some(ExportFormat::Mp3)
    } else {
        None
    }
}

/// Index right after the base name: the position of the last dot, or the
/// path's length when it has none.
pub open spec fn last_dot_pos(p: Seq<u8>) -> int
    decreases p.len(),
{
    if p.len() == 0 {
        0
    } else if p.last() == 0x2E {
        p.len() - 1
    } else {
        let q = last_dot_pos(p.drop_last());
        if q == p.len() - 1 {
            p.len() as int
        } else {
            q
        }
    }
}

/// A dot with none after it is the split point.
proof fn lemma_last_dot_at(p: Seq<u8>, pos: int)
    requires
        0 <= pos < p.len(),
        p[pos] == 0x2E,
        forall|j: int| pos < j < p.len() ==> p[j] != 0x2E,
    ensures
        last_dot_pos(p) == pos,
    decreases p.len(),
{
    if pos == p.len() - 1 {
    } else {
        assert(p.drop_last()[pos] == p[pos]);
        lemma_last_dot_at(p.drop_last(), pos);
    }
}

/// With no dot at all, the split point is the end.
proof fn lemma_last_dot_none(p: Seq<u8>)
    requires
        forall|j: int| 0 <= j < p.len() ==> p[j] != 0x2E,
    ensures
        last_dot_pos(p) == p.len(),
    decreases p.len(),
{
    if p.len() > 0 {
        lemma_last_dot_none(p.drop_last());
    }
}

/// Splice a channel suffix into an export path, right before its extension:
/// `base + suffix + extension`, where the extension starts at the last dot
/// (or is empty when the path has none).
pub fn split_output_path(path: &[u8], suffix: &[u8]) -> (r: Vec<u8>)
    ensures
        r@ == path@.take(last_dot_pos(path@)) + suffix@ + path@.skip(last_dot_pos(path@)),
{
    // find the last dot
    let mut pos: usize = path.len();
    let mut i: usize = path.len();
    let mut found: bool = false;
    while i > 0 && !found
        invariant
            i <= path@.len(),
            !found ==> pos == path@.len() && (forall|j: int| i <= j < path@.len() ==> path@[j]
                != 0x2E),
            found ==> pos < path@.len() && path@[pos as int] == 0x2E && (forall|j: int| pos < j
                < path@.len() ==> path@[j] != 0x2E),
        decreases i,
    {
        i = i - 1;
        if path[i] == 0x2E {
            pos = i;
            found = true;
        }
    }
    proof {
        if found {
            lemma_last_dot_at(path@, pos as int);
        } else {
            lemma_last_dot_none(path@);
        }
    }

    let mut out: Vec<u8> = Vec::new();
    let mut a: usize = 0;
    while a < pos
        invariant
            a <= pos <= path@.len(),
            out@ == path@.take(a as int),
        decreases pos - a,
    {
        out.push(path[a]);
        proof {
            assert(out@ =~= path@.take(a + 1));
        }
        a = a + 1;
    }
    let mut b: usize = 0;
    while b < suffix.len()
        invariant
            b <= suffix@.len(),
            pos <= path@.len(),
            out@ == path@.take(pos as int) + suffix@.take(b as int),
        decreases suffix@.len() - b,
    {
        out.push(suffix[b]);
        proof {
            assert(out@ =~= path@.take(pos as int) + suffix@.take(b + 1));
        }
        b = b + 1;
    }
    let mut c: usize = pos;
    while c < path.len()
        invariant
            pos <= c <= path@.len(),
            out@ == path@.take(pos as int) + suffix@ + path@.subrange(pos as int, c as int),
        decreases path@.len() - c,
    {
        out.push(path[c]);
        proof {
            assert(out@ =~= path@.take(pos as int) + suffix@ + path@.subrange(pos as int, c + 1));
        }
        c = c + 1;
    }
    proof {
        assert(suffix@.take(suffix@.len() as int) =~= suffix@);
        assert(path@.take(pos as int) + suffix@.take(suffix@.len() as int) =~= path@.take(pos as int) + suffix@);
        assert(out@ =~= path@.take(last_dot_pos(path@)) + suffix@ + path@.skip(last_dot_pos(path@)));
    }
    out
}

} // verus!
