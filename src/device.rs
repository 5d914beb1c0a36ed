//! Parallel-device resources: device descriptions, launch configurations
//! bounded by device limits, a host-side record of device buffers, and the
//! kernel sources handed to the device.

use vstd::prelude::*;
use crate::scoring::{score_prefix, lemma_score_prefix_bounds};

verus! {

/// Preferred number of work items in one work group.
pub const GPU_WORK_GROUP_SIZE: usize = 256;

/// Largest number of work groups launched at once.
pub const GPU_MAX_WORK_GROUPS: usize = 65535;

/// Threads per block of the CUDA-style launch.
pub const THREADS_PER_BLOCK: usize = 256;

/// Largest block count of the CUDA-style launch.
pub const MAX_CUDA_BLOCKS: usize = 65535;

/// Device memory assumed when the device does not report it: 12 GiB.
pub const DEFAULT_VRAM_BYTES: u64 = 12884901888;

/// Size in bytes of the device-side result integer.
pub const RESULT_BYTES: usize = 4;

/// Block of positions that the host-side kernel simulation handles at once.
pub const SIMULATED_BLOCK: usize = 1024;

/// A parallel-compute device and its limits.
#[derive(Debug, Clone)]
pub struct GpuDevice {
    pub name: String,
    pub memory_bytes: u64,
    pub max_work_group_size: usize,
    pub max_work_groups: usize,
}

impl GpuDevice {
    /// The device can run at least one work group of one item.
    pub open spec fn wf(&self) -> bool {
        self.max_work_group_size > 0 && self.max_work_groups > 0
    }
}

/// Number of groups of `size` needed to cover `len` items.
pub open spec fn ceil_div(len: nat, size: nat) -> nat
    recommends
        size > 0,
{
    len / size + if len % size == 0 {
        0nat
    } else {
        1nat
    }
}

pub open spec fn min_nat(a: nat, b: nat) -> nat {
    if a <= b {
        a
    } else {
        b
    }
}

/// Work-group size assumed when a device does not report one.
pub const FALLBACK_WORK_GROUP_SIZE: usize = 1024;

/// The description of a device from what it reported: its name or
/// "Unknown", its work-group limit or `FALLBACK_WORK_GROUP_SIZE`, with the
/// default memory size and work-group count.
pub fn gpu_device_from_query(name: Option<String>, max_work_group_size: Option<usize>) -> (r: GpuDevice)
    ensures
        name is Some ==> r.name@ == name->Some_0@,
        name is None ==> r.name@ == "Unknown"@,
        max_work_group_size is Some ==> r.max_work_group_size == max_work_group_size->Some_0,
        max_work_group_size is None ==> r.max_work_group_size == FALLBACK_WORK_GROUP_SIZE,
        r.memory_bytes == DEFAULT_VRAM_BYTES,
        r.max_work_groups == GPU_MAX_WORK_GROUPS,
{
    let name = match name {
        Some(n) => n,
        None => String::from_str("Unknown"),
    };
    let size = match max_work_group_size {
        Some(s) => s,
        None => FALLBACK_WORK_GROUP_SIZE,
    };
    GpuDevice {
        name,
        memory_bytes: DEFAULT_VRAM_BYTES,
        max_work_group_size: size,
        max_work_groups: GPU_MAX_WORK_GROUPS,
    }
}

/// A launch shape: `work_groups` groups of `work_group_size` items.
#[derive(Debug, Clone, Copy, PartialEq, Eq, Structural)]
pub struct LaunchConfig {
    pub work_groups: usize,
    pub work_group_size: usize,
}

/// Groups of `size` covering `len` items, without overflow.
pub(crate) fn groups_covering(len: usize, size: usize) -> (r: usize)
    requires
        size > 0,
    ensures
        r == ceil_div(len as nat, size as nat),
        r * size >= len,
{
    let q = len / size;
    proof {
        vstd::arithmetic::div_mod::lemma_fundamental_div_mod(len as int, size as int);
        assert(q * size <= len) by (nonlinear_arith)
            requires
                size * q + len % size == len,
                len % size >= 0,
        ;
        if len % size != 0 {
            assert((q + 1) * size == q * size + size) by (nonlinear_arith);
            assert(q < len) by (nonlinear_arith)
                requires
                    size * q + len % size == len,
                    len % size > 0,
                    size > 0,
                    q >= 0,
            ;
        }
    }
    if len % size == 0 {
        q
    } else {
        q + 1
    }
}

/// The launch shape chosen for `len` bytes on `device`.
pub open spec fn launch_config_for(len: nat, device: GpuDevice) -> LaunchConfig {
    let size = min_nat(device.max_work_group_size as nat, GPU_WORK_GROUP_SIZE as nat);
    LaunchConfig {
        work_group_size: size as usize,
        work_groups: min_nat(ceil_div(len, size), device.max_work_groups as nat) as usize,
    }
}

/// Chooses the launch shape for a buffer of `sequence_length` bytes: the
/// largest group size allowed by both the device and the preferred size,
/// and enough groups to cover the buffer, clamped to the device's limit.
pub fn select_launch_config(sequence_length: usize, device: &GpuDevice) -> (r: LaunchConfig)
    requires
        device.wf(),
    ensures
        r == launch_config_for(sequence_length as nat, *device),
        r.work_group_size == min_nat(device.max_work_group_size as nat, GPU_WORK_GROUP_SIZE as nat),
        r.work_groups == min_nat(
            ceil_div(sequence_length as nat, r.work_group_size as nat),
            device.max_work_groups as nat,
        ),
        r.work_groups < device.max_work_groups ==> r.work_groups * r.work_group_size
            >= sequence_length,
{
    let size: usize = if device.max_work_group_size <= GPU_WORK_GROUP_SIZE {
        device.max_work_group_size
    } else {
        GPU_WORK_GROUP_SIZE
    };
    let needed = groups_covering(sequence_length, size);
    let groups: usize = if needed <= device.max_work_groups {
        needed
    } else {
        device.max_work_groups
    };
    LaunchConfig { work_groups: groups, work_group_size: size }
}

/// Block and thread counts that cover `sequence_length` items with
/// `THREADS_PER_BLOCK` threads per block.
pub fn get_optimal_kernel_config(sequence_length: usize) -> (r: (u32, u32))
    requires
        ceil_div(sequence_length as nat, THREADS_PER_BLOCK as nat) <= u32::MAX,
    ensures
        r.1 == THREADS_PER_BLOCK,
        r.0 == ceil_div(sequence_length as nat, THREADS_PER_BLOCK as nat),
{
    let blocks = groups_covering(sequence_length, THREADS_PER_BLOCK);
    (blocks as u32, THREADS_PER_BLOCK as u32)
}

/// Like `get_optimal_kernel_config`, with the block count clamped to
/// `MAX_CUDA_BLOCKS`.
pub fn get_optimal_cuda_config(sequence_length: usize) -> (r: (u32, u32))
    ensures
        r.1 == THREADS_PER_BLOCK,
        r.0 == min_nat(
            ceil_div(sequence_length as nat, THREADS_PER_BLOCK as nat),
            MAX_CUDA_BLOCKS as nat,
        ),
{
    let needed = groups_covering(sequence_length, THREADS_PER_BLOCK);
    let blocks: usize = if needed <= MAX_CUDA_BLOCKS {
        needed
    } else {
        MAX_CUDA_BLOCKS
    };
    (blocks as u32, THREADS_PER_BLOCK as u32)
}

/// Bytes of device memory that scoring two buffers of `sequence_length`
/// bytes needs: both inputs and the result integer.
pub open spec fn required_device_bytes(sequence_length: nat) -> nat {
    (2 * sequence_length + RESULT_BYTES) as nat
}

/// Whether a device of `DEFAULT_VRAM_BYTES` with nothing in use holds the
/// buffers for a pair of sequences of `sequence_length` bytes.
pub fn check_gpu_memory_availability(sequence_length: usize) -> (r: Result<bool, String>)
    requires
        required_device_bytes(sequence_length as nat) <= usize::MAX,
    ensures
        r is Ok,
        r->Ok_0 == (required_device_bytes(sequence_length as nat) <= DEFAULT_VRAM_BYTES),
{
    let required: usize = sequence_length * 2 + RESULT_BYTES;
    let used: u64 = 0;
    let available: u64 = DEFAULT_VRAM_BYTES - used;
    Ok(required as u64 <= available)
}

/// Device memory for one scoring call, held on the host: both input
/// buffers and the result integer.
#[derive(Debug)]
pub struct GpuMemory {
    pub seq1_buffer: Vec<u8>,
    pub seq2_buffer: Vec<u8>,
    pub result: i32,
    pub seq1_size: usize,
    pub seq2_size: usize,
    pub allocated: bool,
}

impl GpuMemory {
    /// Each buffer has the size recorded for it.
    pub open spec fn wf(&self) -> bool {
        &&& self.seq1_buffer@.len() == self.seq1_size
        &&& self.seq2_buffer@.len() == self.seq2_size
    }

    /// Nothing allocated.
    pub open spec fn is_empty(&self) -> bool {
        &&& self.wf()
        &&& !self.allocated
        &&& self.seq1_size == 0
        &&& self.seq2_size == 0
        &&& self.result == 0
    }

    /// A record with nothing allocated.
    pub fn new() -> (r: Self)
        ensures
            r.is_empty(),
    {
        GpuMemory {
            seq1_buffer: Vec::new(),
            seq2_buffer: Vec::new(),
            result: 0,
            seq1_size: 0,
            seq2_size: 0,
            allocated: false,
        }
    }
}

/// The error returned when buffers are used before allocation.
pub open spec fn not_allocated_message() -> Seq<char> {
    "GPU memory not allocated"@
}

/// The error returned when a sequence does not match its buffer's size.
pub open spec fn size_mismatch_message() -> Seq<char> {
    "sequence length does not match the device buffer"@
}

/// A zeroed buffer of `len` bytes.
fn zeroed(len: usize) -> (r: Vec<u8>)
    ensures
        r@ == Seq::new(len as nat, |i: int| 0u8),
{
    let mut v: Vec<u8> = Vec::new();
    while v.len() < len
        invariant
            v@.len() <= len,
            forall|k: int| 0 <= k < v@.len() ==> #[trigger] v@[k] == 0u8,
        decreases len - v@.len(),
    {
        v.push(0);
    }
    assert(v@ =~= Seq::new(len as nat, |i: int| 0u8));
    v
}

/// A copy of a byte slice.
fn copy_bytes(src: &[u8]) -> (r: Vec<u8>)
    ensures
        r@ == src@,
{
    let mut v: Vec<u8> = Vec::new();
    let mut i: usize = 0;
    while i < src.len()
        invariant
            i <= src@.len(),
            v@ == src@.subrange(0, i as int),
        decreases src@.len() - i,
    {
        v.push(src[i]);
        i = i + 1;
        assert(v@ =~= src@.subrange(0, i as int));
    }
    assert(src@.subrange(0, i as int) =~= src@);
    v
}

/// Allocates both input buffers for `sequence_length` bytes each, zeroed,
/// and the result integer.
pub fn allocate_gpu_memory(sequence_length: usize) -> (r: Result<GpuMemory, String>)
    ensures
        r is Ok,
        r->Ok_0.wf(),
        r->Ok_0.allocated,
        r->Ok_0.seq1_size == sequence_length,
        r->Ok_0.seq2_size == sequence_length,
        r->Ok_0.seq1_buffer@ == Seq::new(sequence_length as nat, |i: int| 0u8),
        r->Ok_0.seq2_buffer@ == Seq::new(sequence_length as nat, |i: int| 0u8),
        r->Ok_0.result == 0,
{
    Ok(GpuMemory {
        seq1_buffer: zeroed(sequence_length),
        seq2_buffer: zeroed(sequence_length),
        result: 0,
        seq1_size: sequence_length,
        seq2_size: sequence_length,
        allocated: true,
    })
}

/// Copies both sequences into their buffers and zeroes the result. Each
/// sequence must fill its buffer exactly.
pub fn copy_to_gpu(gpu_mem: &mut GpuMemory, seq1: &[u8], seq2: &[u8]) -> (r: Result<(), String>)
    requires
        old(gpu_mem).wf(),
    ensures
        final(gpu_mem).wf(),
        !old(gpu_mem).allocated ==> r is Err && r->Err_0@ == not_allocated_message()
            && *final(gpu_mem) == *old(gpu_mem),
        old(gpu_mem).allocated && (seq1@.len() != old(gpu_mem).seq1_size || seq2@.len()
            != old(gpu_mem).seq2_size) ==> r is Err && r->Err_0@ == size_mismatch_message()
            && *final(gpu_mem) == *old(gpu_mem),
        old(gpu_mem).allocated && seq1@.len() == old(gpu_mem).seq1_size && seq2@.len()
            == old(gpu_mem).seq2_size ==> {
            &&& r is Ok
            &&& final(gpu_mem).seq1_buffer@ == seq1@
            &&& final(gpu_mem).seq2_buffer@ == seq2@
            &&& final(gpu_mem).result == 0
            &&& final(gpu_mem).allocated
            &&& final(gpu_mem).seq1_size == old(gpu_mem).seq1_size
            &&& final(gpu_mem).seq2_size == old(gpu_mem).seq2_size
        },
{
    if !gpu_mem.allocated {
        return Err(String::from_str("GPU memory not allocated"));
    }
    if seq1.len() != gpu_mem.seq1_size || seq2.len() != gpu_mem.seq2_size {
        return Err(String::from_str("sequence length does not match the device buffer"));
    }
    gpu_mem.seq1_buffer = copy_bytes(seq1);
    gpu_mem.seq2_buffer = copy_bytes(seq2);
    gpu_mem.result = 0;
    Ok(())
}

/// Reads the result integer back.
pub fn copy_from_gpu(gpu_mem: &GpuMemory) -> (r: Result<i32, String>)
    ensures
        !gpu_mem.allocated ==> r is Err && r->Err_0@ == not_allocated_message(),
        gpu_mem.allocated ==> r == Ok::<i32, String>(gpu_mem.result),
{
    if !gpu_mem.allocated {
        return Err(String::from_str("GPU memory not allocated"));
    }
    Ok(gpu_mem.result)
}

/// Releases the buffers; releasing an unallocated record changes nothing.
pub fn free_gpu_memory(gpu_mem: &mut GpuMemory) -> (r: Result<(), String>)
    requires
        old(gpu_mem).wf(),
    ensures
        r is Ok,
        old(gpu_mem).allocated ==> final(gpu_mem).is_empty(),
        !old(gpu_mem).allocated ==> *final(gpu_mem) == *old(gpu_mem),
{
    if !gpu_mem.allocated {
        return Ok(());
    }
    gpu_mem.seq1_buffer = Vec::new();
    gpu_mem.seq2_buffer = Vec::new();
    gpu_mem.result = 0;
    gpu_mem.allocated = false;
    gpu_mem.seq1_size = 0;
    gpu_mem.seq2_size = 0;
    Ok(())
}

/// Runs the scoring kernel over the first `sequence_length` positions of
/// the buffers, block by block as the device would, and stores the score
/// in the result integer.
pub fn simulate_gpu_kernel(gpu_mem: &mut GpuMemory, sequence_length: usize) -> (r: Result<i32, String>)
    requires
        old(gpu_mem).wf(),
        old(gpu_mem).allocated ==> sequence_length <= old(gpu_mem).seq1_size && sequence_length
            <= old(gpu_mem).seq2_size,
        2 * sequence_length <= i32::MAX,
    ensures
        final(gpu_mem).wf(),
        !old(gpu_mem).allocated ==> r is Err && r->Err_0@ == not_allocated_message()
            && *final(gpu_mem) == *old(gpu_mem),
        old(gpu_mem).allocated ==> {
            let score = score_prefix(
                old(gpu_mem).seq1_buffer@,
                old(gpu_mem).seq2_buffer@,
                sequence_length as nat,
            );
            &&& r == Ok::<i32, String>(score as i32)
            &&& final(gpu_mem).result == score
            &&& final(gpu_mem).seq1_buffer == old(gpu_mem).seq1_buffer
            &&& final(gpu_mem).seq2_buffer == old(gpu_mem).seq2_buffer
            &&& final(gpu_mem).allocated
            &&& final(gpu_mem).seq1_size == old(gpu_mem).seq1_size
            &&& final(gpu_mem).seq2_size == old(gpu_mem).seq2_size
        },
{
    if !gpu_mem.allocated {
        return Err(String::from_str("GPU memory not allocated"));
    }
    let seq1 = gpu_mem.seq1_buffer.as_slice();
    let seq2 = gpu_mem.seq2_buffer.as_slice();
    let mut score: i32 = 0;
    let mut offset: usize = 0;
    while offset < sequence_length
        invariant
            offset <= sequence_length,
            sequence_length <= seq1@.len(),
            sequence_length <= seq2@.len(),
            2 * sequence_length <= i32::MAX,
            score == score_prefix(seq1@, seq2@, offset as nat),
        decreases sequence_length - offset,
    {
        let chunk_end: usize = if sequence_length - offset <= SIMULATED_BLOCK {
            sequence_length
        } else {
            offset + SIMULATED_BLOCK
        };
        while offset < chunk_end
            invariant
                offset <= chunk_end,
                chunk_end <= sequence_length,
                sequence_length <= seq1@.len(),
                sequence_length <= seq2@.len(),
                2 * sequence_length <= i32::MAX,
                score == score_prefix(seq1@, seq2@, offset as nat),
            decreases chunk_end - offset,
        {
            proof {
                lemma_score_prefix_bounds(seq1@, seq2@, (offset + 1) as nat);
            }
            if seq1[offset] == seq2[offset] {
                score = score + 2;
            } else {
                score = score - 1;
            }
            offset = offset + 1;
        }
    }
    gpu_mem.result = score;
    Ok(score)
}

/// Launches the scoring kernel for the first `sequence_length` positions
/// with the given grid; here the kernel runs as its host-side simulation.
pub fn launch_alignment_kernel(
    gpu_mem: &mut GpuMemory,
    sequence_length: usize,
    blocks: u32,
    threads_per_block: u32,
) -> (r: Result<i32, String>)
    requires
        old(gpu_mem).wf(),
        old(gpu_mem).allocated ==> sequence_length <= old(gpu_mem).seq1_size && sequence_length
            <= old(gpu_mem).seq2_size,
        2 * sequence_length <= i32::MAX,
    ensures
        final(gpu_mem).wf(),
        !old(gpu_mem).allocated ==> r is Err && r->Err_0@ == not_allocated_message()
            && *final(gpu_mem) == *old(gpu_mem),
        old(gpu_mem).allocated ==> {
            let score = score_prefix(
                old(gpu_mem).seq1_buffer@,
                old(gpu_mem).seq2_buffer@,
                sequence_length as nat,
            );
            &&& r == Ok::<i32, String>(score as i32)
            &&& final(gpu_mem).result == score
            &&& final(gpu_mem).seq1_buffer == old(gpu_mem).seq1_buffer
            &&& final(gpu_mem).seq2_buffer == old(gpu_mem).seq2_buffer
            &&& final(gpu_mem).allocated
        },
{
    simulate_gpu_kernel(gpu_mem, sequence_length)
}

/// OpenCL source of the scoring kernel: each work item scores one position
/// and adds its contribution to the shared result.
pub const OPENCL_KERNEL_SOURCE: &'static str = "
__kernel void smith_waterman_kernel(
    __global const unsigned char* seq1,
    __global const unsigned char* seq2,
    __global int* result,
    int sequence_length
) {
    int idx = get_global_id(0);
    
    if (idx >= sequence_length) {
        return;
    }
    
    // Load sequences
    unsigned char a = seq1[idx];
    unsigned char b = seq2[idx];
    
    // Smith-Waterman scoring
    int score = (a == b) ? 2 : -1;
    
    // Atomic add to result
    atomic_add(result, score);
}
";

/// The OpenCL source of the scoring kernel.
pub fn get_opencl_kernel_source() -> (r: &'static str)
    ensures
        r@ == OPENCL_KERNEL_SOURCE@,
{
    OPENCL_KERNEL_SOURCE
}


/// CUDA source of the scoring kernel: each thread scores one position and
/// adds its contribution to the shared result.
pub const CUDA_KERNEL_SOURCE: &'static str = "
extern \"C\" __global__ void smith_waterman_kernel(
    const unsigned char* seq1,
    const unsigned char* seq2,
    int* result,
    int sequence_length
) {
    int idx = blockIdx.x * blockDim.x + threadIdx.x;
    
    if (idx >= sequence_length) {
        return;
    }
    
    // Load sequences
    unsigned char a = seq1[idx];
    unsigned char b = seq2[idx];
    
    // Smith-Waterman scoring
    int score = (a == b) ? 2 : -1;
    
    // Atomic add to result (for parallel reduction)
    atomicAdd(result, score);
}
";

/// The CUDA source of the scoring kernel.
pub fn get_cuda_kernel_source() -> (r: &'static str)
    ensures
        r@ == CUDA_KERNEL_SOURCE@,
{
    CUDA_KERNEL_SOURCE
}

} // verus!
