use sluggrs::upload::{
    next_copy_buffer_size, plan_border_write, plan_raster_write, plan_uniform_recreate,
    plan_vertex_write, uniform_stride, BufferWrite,
};

#[test]
fn copy_buffers_are_powers_of_two() {
    assert_eq!(next_copy_buffer_size(0), 4);
    assert_eq!(next_copy_buffer_size(1), 4);
    assert_eq!(next_copy_buffer_size(3), 4);
    assert_eq!(next_copy_buffer_size(5), 8);
    assert_eq!(next_copy_buffer_size(4096), 4096);
    assert_eq!(next_copy_buffer_size(4097), 8192);
    assert_eq!(next_copy_buffer_size(1 << 63), 1 << 63);
    for size in [7u64, 48, 480, 100_000] {
        let align_mask = 3;
        let expected = ((size.next_power_of_two() + align_mask) & !align_mask).max(4);
        assert_eq!(next_copy_buffer_size(size), expected);
    }
}

#[test]
fn vertex_buffers_grow_when_they_have_to() {
    assert_eq!(plan_vertex_write(4096, 0), BufferWrite::Keep);
    assert_eq!(plan_vertex_write(4096, 85), BufferWrite::Write);
    assert_eq!(
        plan_vertex_write(4096, 86),
        BufferWrite::Recreate { size: 8192 }
    );
}

#[test]
fn border_buffers_are_written_when_new_or_changed() {
    assert_eq!(plan_border_write(0, 0, true), BufferWrite::Keep);
    assert_eq!(
        plan_border_write(0, 1, false),
        BufferWrite::Recreate { size: 64 }
    );
    assert_eq!(plan_border_write(64, 1, false), BufferWrite::Keep);
    assert_eq!(plan_border_write(64, 1, true), BufferWrite::Write);
}

#[test]
fn raster_buffers_have_a_least_size() {
    assert_eq!(plan_raster_write(4096, 0), BufferWrite::Keep);
    assert_eq!(plan_raster_write(4096, 4096), BufferWrite::Write);
    assert_eq!(
        plan_raster_write(0, 1),
        BufferWrite::Recreate { size: 4096 }
    );
    assert_eq!(
        plan_raster_write(4096, 5000),
        BufferWrite::Recreate { size: 8192 }
    );
}

#[test]
fn uniforms_are_aligned() {
    for alignment in [0u32, 1, 3, 16, 32, 64, 100, 256, u32::MAX] {
        let expected = 32u64.next_multiple_of(u64::from(alignment.max(1)));
        assert_eq!(uniform_stride(alignment), expected, "{alignment}");
    }
    assert_eq!(uniform_stride(256), 256);
    assert_eq!(plan_uniform_recreate(None, 0), Some(32));
    assert_eq!(plan_uniform_recreate(None, 512), Some(512));
    assert_eq!(plan_uniform_recreate(Some(256), 512), Some(512));
    assert_eq!(plan_uniform_recreate(Some(512), 512), None);
}
