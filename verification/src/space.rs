//! The size estimator and the disk-space guard: which volume governs an
//! output path, and whether it holds enough room for the estimated output
//! plus a safety margin.

use vstd::prelude::*;
use vstd::arithmetic::div_mod::{
    lemma_div_is_ordered, lemma_div_multiples_vanish, lemma_fundamental_div_mod,
    lemma_hoist_over_denominator,
};
use vstd::arithmetic::mul::lemma_mul_inequality;
use vstd::string::StringExecFns;

use crate::error::AppError;
use crate::strops::{chars_has_prefix, to_chars};

verus! {

/// A mounted volume as the caller enumerated it: where it is attached and
/// how many bytes it has free.
pub struct VolumeInfo {
    pub mount_point: String,
    pub available_bytes: u64,
}

/// What the guard assumes when no volume can be enumerated at all: a fixed,
/// conservative five gibibytes.
pub const FALLBACK_AVAILABLE_BYTES: u64 = 5 * 1024 * 1024 * 1024;

/// The advisory estimate of a stream-copied trim's size: the source size
/// scaled by the selected share of the duration, plus a tenth for container
/// overhead, saturating at the largest representable size.
pub open spec fn estimate_spec(
    input_size: nat,
    start_ms: nat,
    end_ms: nat,
    duration_ms: nat,
) -> nat {
    let exact = (input_size * (end_ms - start_ms) * 11) / (duration_ms * 10) as int;
    if exact > u64::MAX {
        u64::MAX as nat
    } else {
        exact as nat
    }
}

/// Estimates the trimmed output's size from the duration share selected.
///
/// Advisory only: the value feeds the space guard and never blocks a cut by
/// itself.
pub fn estimate_output_size(input_size: u64, start_ms: u64, end_ms: u64, duration_ms: u64) -> (r:
    u64)
    requires
        duration_ms >= 1,
        start_ms <= end_ms,
        end_ms <= duration_ms,
    ensures
        r as nat == estimate_spec(
            input_size as nat,
            start_ms as nat,
            end_ms as nat,
            duration_ms as nat,
        ),
{
    let trim: u128 = (end_ms - start_ms) as u128;
    let size: u128 = input_size as u128;
    let d10: u128 = (duration_ms as u128) * 10;
    proof {
        assert(size * trim <= u64::MAX as int * u64::MAX as int) by (nonlinear_arith)
            requires
                size <= u64::MAX as int,
                trim <= u64::MAX as int,
                0 <= size,
                0 <= trim,
        ;
    }
    let a: u128 = size * trim;
    let q: u128 = a / d10;
    let rem: u128 = a % d10;
    proof {
        // The quotient never exceeds the source size, because the share of
        // the duration selected is at most the whole of it.
        assert(a <= size * d10) by (nonlinear_arith)
            requires
                trim <= d10,
                0 <= size,
                a == size * trim,
        ;
        lemma_div_is_ordered(a as int, (size * d10) as int, d10 as int);
        lemma_div_multiples_vanish(size as int, d10 as int);
        assert(size * d10 == d10 * size) by (nonlinear_arith);
        assert(q <= size);
    }
    let est: u128 = q * 11 + (rem * 11) / d10;
    proof {
        lemma_fundamental_div_mod(a as int, d10 as int);
        assert(a * 11 == rem * 11 + (q * 11) * d10) by (nonlinear_arith)
            requires
                a == d10 * q + rem,
        ;
        lemma_hoist_over_denominator(rem as int * 11, q as int * 11, d10 as nat);
        assert(est == (a * 11) / (d10 as int));
        assert(a * 11 == input_size as int * (end_ms - start_ms) as int * 11) by (nonlinear_arith)
            requires
                a == size * trim,
                size == input_size as int,
                trim == (end_ms - start_ms) as int,
        ;
    }
    if est > u64::MAX as u128 {
        u64::MAX
    } else {
        est as u64
    }
}

/// Whether a volume's mount point is a prefix of the path it would govern.
pub open spec fn vol_matches(v: VolumeInfo, path: Seq<char>) -> bool {
    v.mount_point@.is_prefix_of(path)
}

/// The governing volume's index: the first among those whose mount point is
/// the longest prefix of the path, `-1` when no mount point matches.
pub open spec fn best_volume_idx(vols: Seq<VolumeInfo>, path: Seq<char>) -> int
    decreases vols.len(),
{
    if vols.len() == 0 {
        -1
    } else {
        let rest = best_volume_idx(vols.drop_last(), path);
        if vol_matches(vols.last(), path) && (rest == -1 || vols.last().mount_point@.len()
            > vols[rest].mount_point@.len()) {
            vols.len() - 1
        } else {
            rest
        }
    }
}

pub proof fn lemma_best_volume_in_bounds(vols: Seq<VolumeInfo>, path: Seq<char>)
    ensures
        -1 <= best_volume_idx(vols, path) < vols.len(),
        best_volume_idx(vols, path) >= 0 ==> vol_matches(vols[best_volume_idx(vols, path)], path),
    decreases vols.len(),
{
    if vols.len() > 0 {
        lemma_best_volume_in_bounds(vols.drop_last(), path);
    }
}

/// The free space governing `path`: the best-matching volume's, else the
/// first enumerable volume's, else the fixed conservative fallback.
pub open spec fn resolved_available(vols: Seq<VolumeInfo>, path: Seq<char>) -> nat {
    if best_volume_idx(vols, path) >= 0 {
        vols[best_volume_idx(vols, path)].available_bytes as nat
    } else if vols.len() > 0 {
        vols[0].available_bytes as nat
    } else {
        FALLBACK_AVAILABLE_BYTES as nat
    }
}

/// Resolves the volume whose free space governs `path`: the volume whose
/// mount point is the longest prefix of the path (the first such volume on a
/// tie), falling back to the first enumerable volume, and to a fixed
/// conservative figure when none could be enumerated.
#[verifier::loop_isolation(false)]
pub fn resolve_available_space(path: &str, volumes: &Vec<VolumeInfo>) -> (r: u64)
    ensures
        r as nat == resolved_available(volumes@, path@),
{
    let path_chars = to_chars(path);
    let mut best: Option<usize> = None;
    let mut i: usize = 0;
    while i < volumes.len()
        invariant
            i <= volumes@.len(),
            match best {
                Some(b) => b < i && best_volume_idx(volumes@.take(i as int), path@) == b as int,
                None => best_volume_idx(volumes@.take(i as int), path@) == -1,
            },
        decreases volumes.len() - i,
    {
        let ghost pre = volumes@.take(i as int);
        let ghost cur = volumes@.take(i + 1);
        proof {
            assert(cur.drop_last() =~= pre);
            assert(cur.last() == volumes@[i as int]);
            lemma_best_volume_in_bounds(pre, path@);
        }
        let mount_chars = to_chars(volumes[i].mount_point.as_str());
        if chars_has_prefix(&path_chars, &mount_chars) {
            let take: bool = match best {
                Some(b) => volumes[i].mount_point.as_str().unicode_len()
                    > volumes[b].mount_point.as_str().unicode_len(),
                None => true,
            };
            if take {
                best = Some(i);
            }
        }
        i = i + 1;
    }
    proof {
        assert(volumes@.take(volumes@.len() as int) =~= volumes@);
        lemma_best_volume_in_bounds(volumes@, path@);
    }
    match best {
        Some(b) => volumes[b].available_bytes,
        None => {
            if volumes.len() > 0 {
                volumes[0].available_bytes
            } else {
                FALLBACK_AVAILABLE_BYTES
            }
        },
    }
}

/// The space the guard demands before allowing a write: the estimate plus a
/// twenty percent margin, compounding deliberately with the estimator's own
/// tenth.
pub open spec fn required_with_margin(estimated: nat) -> nat {
    estimated + estimated / 5
}

/// Refuses the write unless the volume governing `output_dir` holds the
/// estimated size plus a twenty percent safety margin; the refusal carries
/// the figures and the checked path.
///
/// A preflight check only: nothing is reserved or locked. The caller
/// resolves the output's parent directory to an absolute form and
/// enumerates the mounted volumes; enumeration failing entirely is already
/// absorbed by the fallback in `resolve_available_space`.
pub fn check_disk_space_for_output(
    output_dir: &str,
    estimated_output_size: u64,
    volumes: &Vec<VolumeInfo>,
) -> (r: Result<(), AppError>)
    ensures
        r is Ok <==> resolved_available(volumes@, output_dir@) >= required_with_margin(
            estimated_output_size as nat,
        ),
        r matches Err(e) ==> e matches AppError::InsufficientSpace {
            needed_bytes,
            available_bytes,
            path,
        } && needed_bytes == required_with_margin(estimated_output_size as nat)
            && available_bytes as nat == resolved_available(volumes@, output_dir@) && path@
            == output_dir@,
{
    let available = resolve_available_space(output_dir, volumes);
    let required: u128 = (estimated_output_size as u128) + (estimated_output_size / 5) as u128;
    if (available as u128) < required {
        return Err(
            AppError::InsufficientSpace {
                needed_bytes: required,
                available_bytes: available,
                path: output_dir.to_owned(),
            },
        );
    }
    Ok(())
}

} // verus!
