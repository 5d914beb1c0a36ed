//! The scoring engine seen by callers: the vectorized CPU backend with
//! explicit failure on buffers too long to score, and the plan for a
//! device launch, whose work is done by the device interface.

use vstd::prelude::*;
use crate::device::{
    GpuDevice,
    LaunchConfig,
    select_launch_config,
    launch_config_for,
    groups_covering,
    ceil_div,
};
use crate::scoring::{
    score_of,
    min_len,
    score_bytes,
    self_score,
    align_chunk_self,
    MAX_SCORED_LEN,
    MIN_SELF_ALIGN_LEN,
};

verus! {

/// Step of a device scoring call that failed.
#[derive(Debug, Clone, Copy, PartialEq, Eq, Structural)]
pub enum DeviceStage {
    Init,
    Allocation,
    Build,
    Launch,
    Wait,
    Readback,
}

/// Why a buffer pair could not be scored.
#[derive(Debug, Clone)]
pub enum ScoreError {
    /// The comparable prefix of `len` bytes is too long to score in one
    /// pass: its score could leave `i32`, or one launch cannot cover it.
    TooLong { len: usize },
    /// The device reported a failure at `stage`.
    Device { stage: DeviceStage, message: String },
}

/// The backend a run scores with, chosen once per run.
#[derive(Debug, Clone)]
pub enum Backend {
    VectorizedCpu,
    Device(GpuDevice),
}

/// Whether a comparable prefix of `len` bytes always scores within `i32`.
pub open spec fn fits_i32_score(len: nat) -> bool {
    2 * len <= i32::MAX
}

/// Scores two buffers on the CPU, failing on buffers whose score could
/// leave the `i32` range.
pub fn score_cpu(a: &[u8], b: &[u8]) -> (r: Result<i32, ScoreError>)
    ensures
        r is Ok <==> fits_i32_score(min_len(a@, b@)),
        r is Ok ==> r->Ok_0 == score_of(a@, b@),
        r is Err ==> r->Err_0 == (ScoreError::TooLong { len: min_len(a@, b@) as usize }),
{
    let len: usize = if a.len() <= b.len() {
        a.len()
    } else {
        b.len()
    };
    if len > MAX_SCORED_LEN {
        return Err(ScoreError::TooLong { len });
    }
    Ok(score_bytes(a, b))
}

/// Self-alignment score of a chunk buffer on the CPU: 0 below the length
/// threshold, failing where the score could leave the `i32` range.
pub fn score_chunk_self_cpu(chunk: &[u8]) -> (r: Result<i32, ScoreError>)
    ensures
        r is Ok <==> (chunk@.len() < MIN_SELF_ALIGN_LEN || fits_i32_score(chunk@.len())),
        r is Ok ==> r->Ok_0 == self_score(chunk@),
        r is Ok && chunk@.len() >= MIN_SELF_ALIGN_LEN ==> r->Ok_0 == 2 * chunk@.len(),
        r is Err ==> r->Err_0 == (ScoreError::TooLong { len: chunk@.len() as usize }),
{
    if chunk.len() < MIN_SELF_ALIGN_LEN {
        return Ok(0);
    }
    if chunk.len() > MAX_SCORED_LEN {
        return Err(ScoreError::TooLong { len: chunk.len() });
    }
    Ok(align_chunk_self(chunk))
}

/// What a device scoring call has to do.
#[derive(Debug, Clone, Copy, PartialEq, Eq, Structural)]
pub enum DevicePlan {
    /// Nothing to compare: the score is 0 and the device is not touched.
    Skip,
    /// Compare the first `len` positions with the given launch shape.
    Launch { len: usize, config: LaunchConfig },
    /// `len` positions need more work groups than the device allows in one
    /// launch; the caller has to split the buffers first.
    Oversized { len: usize },
}

/// Whether one launch on `device` covers `len` positions.
pub open spec fn launch_covers(len: nat, device: GpuDevice) -> bool {
    ceil_div(len, launch_config_for(len, device).work_group_size as nat) <= device.max_work_groups
}

/// Plans the device scoring of buffers of `len_a` and `len_b` bytes: an
/// empty comparable prefix needs no device work.
pub fn plan_device_score(len_a: usize, len_b: usize, device: &GpuDevice) -> (r: DevicePlan)
    requires
        device.wf(),
    ensures
        ({
            let len = if len_a <= len_b {
                len_a
            } else {
                len_b
            };
            if len == 0 {
                r == DevicePlan::Skip
            } else if launch_covers(len as nat, *device) {
                r == (DevicePlan::Launch { len, config: launch_config_for(len as nat, *device) })
            } else {
                r == (DevicePlan::Oversized { len })
            }
        }),
{
    let len: usize = if len_a <= len_b {
        len_a
    } else {
        len_b
    };
    if len == 0 {
        return DevicePlan::Skip;
    }
    let config = select_launch_config(len, device);
    if groups_covering(len, config.work_group_size) > device.max_work_groups {
        DevicePlan::Oversized { len }
    } else {
        DevicePlan::Launch { len, config }
    }
}

/// Plans the device self-alignment of a chunk buffer of `len` bytes:
/// buffers below the length threshold are skipped.
pub fn plan_self_alignment(len: usize, device: &GpuDevice) -> (r: DevicePlan)
    requires
        device.wf(),
    ensures
        len < MIN_SELF_ALIGN_LEN ==> r == DevicePlan::Skip,
        len >= MIN_SELF_ALIGN_LEN && launch_covers(len as nat, *device) ==> r == (DevicePlan::Launch {
            len,
            config: launch_config_for(len as nat, *device),
        }),
        len >= MIN_SELF_ALIGN_LEN && !launch_covers(len as nat, *device) ==> r == (DevicePlan::Oversized {
            len,
        }),
{
    if len < MIN_SELF_ALIGN_LEN {
        DevicePlan::Skip
    } else {
        plan_device_score(len, len, device)
    }
}

} // verus!
