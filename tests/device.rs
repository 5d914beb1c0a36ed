use rustseq_mini::device::{
    allocate_gpu_memory, check_gpu_memory_availability, copy_from_gpu, copy_to_gpu, free_gpu_memory, get_opencl_kernel_source,
    get_optimal_cuda_config, get_optimal_kernel_config, launch_alignment_kernel, select_launch_config,
    simulate_gpu_kernel, GpuDevice, GpuMemory, LaunchConfig, GPU_MAX_WORK_GROUPS,
};
use rustseq_mini::engine::{plan_device_score, plan_self_alignment, DevicePlan};

fn device(max_wg: usize) -> GpuDevice {
    GpuDevice {
        name: "test device".to_string(),
        memory_bytes: 1 << 30,
        max_work_group_size: max_wg,
        max_work_groups: GPU_MAX_WORK_GROUPS,
    }
}

#[test]
fn launch_config_covers_sequence() {
    let cfg = select_launch_config(1000, &device(1024));
    assert_eq!(cfg, LaunchConfig { work_groups: 4, work_group_size: 256 });
    let cfg = select_launch_config(1000, &device(64));
    assert_eq!(cfg, LaunchConfig { work_groups: 16, work_group_size: 64 });
    let cfg = select_launch_config(256, &device(256));
    assert_eq!(cfg.work_groups, 1);
}

#[test]
fn launch_config_clamps_to_device_limit() {
    let cfg = select_launch_config(256 * 70000, &device(256));
    assert_eq!(cfg.work_groups, GPU_MAX_WORK_GROUPS);
}

#[test]
fn kernel_configs() {
    assert_eq!(get_optimal_kernel_config(0), (0, 256));
    assert_eq!(get_optimal_kernel_config(257), (2, 256));
    assert_eq!(get_optimal_cuda_config(512), (2, 256));
    assert_eq!(get_optimal_cuda_config(256 * 100000), (65535, 256));
}

#[test]
fn memory_availability() {
    assert_eq!(check_gpu_memory_availability(1000), Ok(true));
    assert_eq!(check_gpu_memory_availability(6442450942), Ok(true));
    assert_eq!(check_gpu_memory_availability(6442450943), Ok(false));
}

#[test]
fn device_plans() {
    let d = device(1024);
    assert_eq!(plan_device_score(0, 10, &d), DevicePlan::Skip);
    assert_eq!(
        plan_device_score(300, 500, &d),
        DevicePlan::Launch { len: 300, config: LaunchConfig { work_groups: 2, work_group_size: 256 } }
    );
    assert_eq!(plan_self_alignment(99, &d), DevicePlan::Skip);
    assert!(matches!(plan_self_alignment(100, &d), DevicePlan::Launch { len: 100, .. }));
}

#[test]
fn simulated_kernel_needs_allocation() {
    let mut mem = GpuMemory::new();
    assert_eq!(simulate_gpu_kernel(&mut mem, 0), Err("GPU memory not allocated".to_string()));
    assert_eq!(copy_to_gpu(&mut mem, b"AC", b"AC"), Err("GPU memory not allocated".to_string()));
    assert_eq!(copy_from_gpu(&mem), Err("GPU memory not allocated".to_string()));
}

#[test]
fn device_memory_round_trip() {
    let mut mem = allocate_gpu_memory(2048).expect("allocation");
    assert!(mem.allocated);
    assert_eq!(mem.seq1_buffer, vec![0u8; 2048]);
    let a = vec![b'A'; 2048];
    let mut b = vec![b'A'; 2048];
    b[1500] = b'C';
    assert_eq!(copy_to_gpu(&mut mem, &a, &b[..10]), Err("sequence length does not match the device buffer".to_string()));
    assert_eq!(copy_to_gpu(&mut mem, &a, &b), Ok(()));
    assert_eq!(simulate_gpu_kernel(&mut mem, 2048), Ok(2 * 2047 - 1));
    assert_eq!(copy_from_gpu(&mem), Ok(2 * 2047 - 1));
    assert_eq!(launch_alignment_kernel(&mut mem, 10, 1, 256), Ok(20));
    assert_eq!(copy_from_gpu(&mem), Ok(20));
    assert_eq!(free_gpu_memory(&mut mem), Ok(()));
    assert!(!mem.allocated);
    assert!(mem.seq1_buffer.is_empty());
    assert_eq!(mem.seq2_size, 0);
}

#[test]
fn opencl_source_defines_kernel() {
    assert!(get_opencl_kernel_source().contains("__kernel void smith_waterman_kernel"));
}

#[test]
fn oversized_buffer_is_refused_not_truncated() {
    let mut d = device(256);
    d.max_work_groups = 2;
    assert!(matches!(plan_device_score(512, 512, &d), DevicePlan::Launch { len: 512, .. }));
    assert_eq!(plan_device_score(513, 600, &d), DevicePlan::Oversized { len: 513 });
    assert_eq!(plan_self_alignment(1000, &d), DevicePlan::Oversized { len: 1000 });
}

#[test]
fn cuda_source_defines_kernel() {
    let src = rustseq_mini::device::get_cuda_kernel_source();
    assert!(src.contains("__global__ void smith_waterman_kernel"));
    assert!(src.contains("atomicAdd(result, score);"));
}

#[test]
fn device_description_from_reported_values() {
    let d = rustseq_mini::device::gpu_device_from_query(Some("RTX".to_string()), Some(512));
    assert_eq!(d.name, "RTX");
    assert_eq!(d.max_work_group_size, 512);
    assert_eq!(d.max_work_groups, GPU_MAX_WORK_GROUPS);
    let d = rustseq_mini::device::gpu_device_from_query(None, None);
    assert_eq!(d.name, "Unknown");
    assert_eq!(d.max_work_group_size, rustseq_mini::device::FALLBACK_WORK_GROUP_SIZE);
}
