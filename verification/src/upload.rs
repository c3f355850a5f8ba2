//! Sizes of the device buffers, and when they are written or made anew.

use crate::instance::INSTANCE_BYTES;
use vstd::arithmetic::div_mod::{lemma_fundamental_div_mod, lemma_mod_multiples_basic};
use vstd::arithmetic::power2::{
    lemma2_to64, lemma2_to64_rest, lemma_pow2_strictly_increases, lemma_pow2_unfold, pow2,
};
use vstd::prelude::*;

verus! {

/// Device buffers are copied in multiples of this many bytes.
pub const COPY_BUFFER_ALIGNMENT: u64 = 4;

/// Bytes of the border uniforms of an area.
pub const BORDER_UNIFORM_BYTES: u64 = 32;

/// The largest buffer for which there is a power of two.
pub const MAX_BUFFER_BYTES: u64 = 0x8000_0000_0000_0000;

/// The least power of two that is at least `n`, among the doublings of `from`.
pub open spec fn power_above(from: int, n: int) -> int
    decreases
            if from >= n {
                0
            } else {
                n - from
            },
{
    if from >= n || from <= 0 {
        from
    } else {
        power_above(2 * from, n)
    }
}

/// The least power of two that is at least `n`.
fn next_power(n: u64) -> (r: u64)
    requires
        n <= MAX_BUFFER_BYTES,
    ensures
        r == power_above(1, n as int),
{
    let mut p: u64 = 1;
    let ghost mut k: nat = 0;
    proof {
        lemma2_to64();
    }
    while p < n
        invariant
            0 < p <= MAX_BUFFER_BYTES,
            n <= MAX_BUFFER_BYTES,
            p == pow2(k),
            k <= 63,
            power_above(p as int, n as int) == power_above(1, n as int),
        decreases MAX_BUFFER_BYTES - p,
    {
        proof {
            lemma2_to64();
            lemma2_to64_rest();
            if k >= 63 {
                assert(p == MAX_BUFFER_BYTES);
            }
            lemma_pow2_unfold(k + 1);
            if k + 1 < 63 {
                lemma_pow2_strictly_increases(k + 1, 63);
            }
            k = k + 1;
        }
        p = p * 2;
    }
    p
}

proof fn lemma_power_above(from: int, n: int)
    requires
        0 < from,
    ensures
        power_above(from, n) >= n,
        power_above(from, n) >= from,
        power_above(from, n) == from || power_above(from, n) < 2 * n,
    decreases
            if from >= n {
                0
            } else {
                n - from
            },
{
    if from < n {
        lemma_power_above(2 * from, n);
    }
}

/// The size of a new device buffer for `size` bytes: the power of two from
/// `size` on, and at least what the device copies at once.
pub open spec fn copy_buffer_size(size: int) -> int {
    let p = power_above(1, size);
    if p < COPY_BUFFER_ALIGNMENT {
        COPY_BUFFER_ALIGNMENT as int
    } else {
        p
    }
}

pub fn next_copy_buffer_size(size: u64) -> (r: u64)
    requires
        size <= MAX_BUFFER_BYTES,
    ensures
        r == copy_buffer_size(size as int),
        r >= size,
{
    proof {
        lemma_power_above(1, size as int);
    }
    let p: u64 = next_power(size);
    if p < COPY_BUFFER_ALIGNMENT {
        COPY_BUFFER_ALIGNMENT
    } else {
        p
    }
}

/// A new device buffer holds what it is made for, and less than twice that
/// unless that is next to nothing. Its size is a multiple of what the device
/// copies at once.
pub proof fn lemma_copy_buffer_size(size: int)
    requires
        0 <= size,
    ensures
        copy_buffer_size(size) >= size,
        copy_buffer_size(size) < 2 * size || copy_buffer_size(size) == COPY_BUFFER_ALIGNMENT,
        copy_buffer_size(size) % COPY_BUFFER_ALIGNMENT as int == 0,
{
    lemma_power_above(1, size);
    lemma_power_multiple(1, size);
}

proof fn lemma_power_multiple(from: int, n: int)
    requires
        from == 1 || from == 2 || (from > 0 && from % 4 == 0),
    ensures
        ({
            let p = power_above(from, n);
            p == 1 || p == 2 || p % 4 == 0
        }),
    decreases
            if from >= n {
                0
            } else {
                n - from
            },
{
    if from < n {
        lemma_power_multiple(2 * from, n);
    }
}

/// What becomes of a device buffer.
#[derive(Clone, Copy, Debug, PartialEq, Eq, Structural)]
pub enum BufferWrite {
    /// It stays as it is.
    Keep,
    /// It is written from its beginning on.
    Write,
    /// A new buffer of this size takes its place and is written.
    Recreate { size: u64 },
}

/// The bytes of a vertex stream.
pub open spec fn stream_bytes(count: int) -> int {
    INSTANCE_BYTES * count
}

/// What becomes of the vertex buffer when a stream of `count` instances is to
/// be uploaded.
pub open spec fn vertex_write(buffer_size: u64, count: int) -> BufferWrite {
    if count == 0 {
        BufferWrite::Keep
    } else if buffer_size >= stream_bytes(count) {
        BufferWrite::Write
    } else {
        BufferWrite::Recreate { size: copy_buffer_size(stream_bytes(count)) as u64 }
    }
}

/// Decides what becomes of the vertex buffer when a stream of `count`
/// instances is to be uploaded.
pub fn plan_vertex_write(buffer_size: u64, count: u32) -> (r: BufferWrite)
    ensures
        r == vertex_write(buffer_size, count as int),
{
    let bytes: u64 = INSTANCE_BYTES * count as u64;
    if count == 0 {
        BufferWrite::Keep
    } else if buffer_size >= bytes {
        BufferWrite::Write
    } else {
        BufferWrite::Recreate { size: next_copy_buffer_size(bytes) }
    }
}

/// What becomes of the border vertex buffer: it is written when the stream is
/// to be uploaded or the buffer is new.
pub open spec fn border_write(buffer_size: u64, count: int, upload: bool) -> BufferWrite {
    if count == 0 {
        BufferWrite::Keep
    } else if buffer_size < stream_bytes(count) {
        BufferWrite::Recreate { size: copy_buffer_size(stream_bytes(count)) as u64 }
    } else if upload {
        BufferWrite::Write
    } else {
        BufferWrite::Keep
    }
}

pub fn plan_border_write(buffer_size: u64, count: u32, upload: bool) -> (r: BufferWrite)
    ensures
        r == border_write(buffer_size, count as int, upload),
{
    let bytes: u64 = INSTANCE_BYTES * count as u64;
    if count == 0 {
        BufferWrite::Keep
    } else if buffer_size < bytes {
        BufferWrite::Recreate { size: next_copy_buffer_size(bytes) }
    } else if upload {
        BufferWrite::Write
    } else {
        BufferWrite::Keep
    }
}

/// The size of the first raster vertex buffer, and the least size of any.
pub const RASTER_BUFFER_BYTES: u64 = 4096;

/// What becomes of the raster vertex buffer.
pub open spec fn raster_write(buffer_size: u64, bytes: u64) -> BufferWrite {
    let p = power_above(1, bytes as int);
    if bytes == 0 {
        BufferWrite::Keep
    } else if buffer_size >= bytes {
        BufferWrite::Write
    } else if p < RASTER_BUFFER_BYTES {
        BufferWrite::Recreate { size: RASTER_BUFFER_BYTES }
    } else {
        BufferWrite::Recreate { size: p as u64 }
    }
}

pub fn plan_raster_write(buffer_size: u64, bytes: u64) -> (r: BufferWrite)
    requires
        bytes <= MAX_BUFFER_BYTES,
    ensures
        r == raster_write(buffer_size, bytes),
{
    if bytes == 0 {
        return BufferWrite::Keep;
    }
    if buffer_size >= bytes {
        return BufferWrite::Write;
    }
    let p: u64 = next_power(bytes);
    if p < RASTER_BUFFER_BYTES {
        BufferWrite::Recreate { size: RASTER_BUFFER_BYTES }
    } else {
        BufferWrite::Recreate { size: p }
    }
}

/// Whether `stride` is the least multiple of `alignment` that holds the
/// uniforms of an area; an alignment of 0 counts as 1.
pub open spec fn is_uniform_stride(stride: int, alignment: u32) -> bool {
    let unit = if alignment == 0 {
        1
    } else {
        alignment as int
    };
    stride % unit == 0 && BORDER_UNIFORM_BYTES <= stride < BORDER_UNIFORM_BYTES + unit
}

/// The distance of the uniforms of two areas in the uniform buffer.
pub fn uniform_stride(alignment: u32) -> (r: u64)
    ensures
        is_uniform_stride(r as int, alignment),
{
    let unit: u64 = if alignment == 0 {
        1
    } else {
        alignment as u64
    };
    let rest: u64 = BORDER_UNIFORM_BYTES % unit;
    if rest == 0 {
        BORDER_UNIFORM_BYTES
    } else {
        let r: u64 = BORDER_UNIFORM_BYTES + (unit - rest);
        proof {
            let k = 32int / unit as int;
            lemma_fundamental_div_mod(32, unit as int);
            assert(r == unit * (k + 1)) by (nonlinear_arith)
                requires
                    r == 32 + (unit - rest),
                    32 == unit * k + rest,
            ;
            lemma_mod_multiples_basic(k + 1, unit as int);
            assert((k + 1) * unit == unit * (k + 1)) by (nonlinear_arith);
        }
        r
    }
}

/// A stride is determined by the alignment.
pub proof fn lemma_uniform_stride_unique(a: int, b: int, alignment: u32)
    requires
        is_uniform_stride(a, alignment),
        is_uniform_stride(b, alignment),
    ensures
        a == b,
{
    let unit = if alignment == 0 {
        1
    } else {
        alignment as int
    };
    lemma_fundamental_div_mod(a, unit);
    lemma_fundamental_div_mod(b, unit);
    let p = a / unit;
    let q = b / unit;
    if p < q {
        assert(unit * (q - p) >= unit) by (nonlinear_arith)
            requires
                unit > 0,
                q - p >= 1,
        ;
        assert(unit * q - unit * p == unit * (q - p)) by (nonlinear_arith);
    } else if q < p {
        assert(unit * (p - q) >= unit) by (nonlinear_arith)
            requires
                unit > 0,
                p - q >= 1,
        ;
        assert(unit * p - unit * q == unit * (p - q)) by (nonlinear_arith);
    }
}

/// The size of a new uniform buffer for `required` bytes, if one is needed.
pub open spec fn uniform_recreate(buffer_size: Option<u64>, required: u64) -> Option<u64> {
    match buffer_size {
        Some(size) if size >= required => None,
        _ => Some(
            if required < BORDER_UNIFORM_BYTES {
                BORDER_UNIFORM_BYTES
            } else {
                required
            },
        ),
    }
}

/// Decides whether a uniform buffer has to be made, and how large.
pub fn plan_uniform_recreate(buffer_size: Option<u64>, required: u64) -> (r: Option<u64>)
    ensures
        r == uniform_recreate(buffer_size, required),
{
    if let Some(size) = buffer_size {
        if size >= required {
            return None;
        }
    }
    if required < BORDER_UNIFORM_BYTES {
        Some(BORDER_UNIFORM_BYTES)
    } else {
        Some(required)
    }
}

} // verus!
