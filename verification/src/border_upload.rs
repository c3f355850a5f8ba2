//! What the borders of a frame bring to the graphics device: their vertex
//! stream, and the uniforms of each bordered area.

use crate::bytes::{in_memory, word_bytes};
use crate::instance::{instance_bytes, stream_words, GlyphInstance};
use crate::text_atlas::BufferUpload;
use crate::text_renderer::BorderUniform;
use crate::upload::{
    border_write, is_uniform_stride, lemma_uniform_stride_unique, plan_border_write,
    plan_uniform_recreate, stream_bytes, uniform_recreate, uniform_stride, BufferWrite,
    BORDER_UNIFORM_BYTES,
};
use vstd::arithmetic::div_mod::{
    lemma_fundamental_div_mod, lemma_mod_multiples_basic, lemma_mod_self_0,
};
use vstd::prelude::*;

verus! {

/// The eight words of border uniforms: the colour, the width, and zeros up to
/// the size that the device asks for.
pub open spec fn uniform_words(uniform: BorderUniform) -> Seq<u32> {
    seq![
        uniform.color.r.bits,
        uniform.color.g.bits,
        uniform.color.b.bits,
        uniform.color.a.bits,
        uniform.width.bits,
        0u32,
        0u32,
        0u32,
    ]
}

/// Writes border uniforms as words.
pub fn border_uniform_words(uniform: &BorderUniform) -> (r: Vec<u32>)
    ensures
        r@ == uniform_words(*uniform),
{
    let mut words: Vec<u32> = Vec::new();
    words.push(uniform.color.r.bits);
    words.push(uniform.color.g.bits);
    words.push(uniform.color.b.bits);
    words.push(uniform.color.a.bits);
    words.push(uniform.width.bits);
    words.push(0);
    words.push(0);
    words.push(0);
    assert(words@ =~= uniform_words(*uniform));
    words
}

/// Where the uniforms of the bordered areas lie.
#[derive(Clone, Copy, Debug, PartialEq, Eq, Structural)]
pub struct UniformPlan {
    /// Distance of the uniforms of two areas in bytes.
    pub stride: u64,
    /// Bytes for all areas.
    pub required: u64,
    /// The size of a new buffer, if one is needed.
    pub recreate: Option<u64>,
}

impl UniformPlan {
    /// The byte at which the uniforms of area `k` begin.
    pub open spec fn offset_of(self, k: int) -> int {
        k * self.stride
    }

    /// The size of the buffer once the plan is carried out.
    pub open spec fn buffer_size(self, size: Option<u64>) -> int {
        match self.recreate {
            Some(new_size) => new_size as int,
            None => size->0 as int,
        }
    }

    /// The byte at which the uniforms of area `k` begin.
    pub fn offset(&self, k: u32) -> (r: u64)
        requires
            self.offset_of(k as int) <= self.required,
        ensures
            r == k * self.stride,
    {
        k as u64 * self.stride
    }
}

/// The plan for the uniforms of `count` areas.
pub open spec fn uniforms_planned(
    plan: UniformPlan,
    size: Option<u64>,
    count: int,
    alignment: u32,
) -> bool {
    &&& is_uniform_stride(plan.stride as int, alignment)
    &&& plan.required == plan.stride * count
    &&& plan.recreate == uniform_recreate(size, plan.required)
}

proof fn lemma_stride_bound(stride: int, alignment: u32)
    requires
        is_uniform_stride(stride, alignment),
    ensures
        stride <= u32::MAX,
{
    if alignment >= BORDER_UNIFORM_BYTES {
        lemma_mod_self_0(alignment as int);
        lemma_uniform_stride_unique(stride, alignment as int, alignment);
    }
}

/// Plans the uniforms of `count` areas in a buffer of a size, if there is one.
pub fn plan_border_uniforms(size: Option<u64>, count: u32, alignment: u32) -> (r: UniformPlan)
    ensures
        uniforms_planned(r, size, count as int, alignment),
        r.required == r.stride * count,
        forall|k: int| #[trigger] r.offset_of(k) == k * r.stride,
{
    let stride: u64 = uniform_stride(alignment);
    proof {
        lemma_stride_bound(stride as int, alignment);
        assert(stride * count <= u64::MAX) by (nonlinear_arith)
            requires
                stride <= u32::MAX,
                count <= u32::MAX,
        ;
    }
    let required: u64 = stride * count as u64;
    UniformPlan { stride, required, recreate: plan_uniform_recreate(size, required) }
}

/// The uniforms of the areas lie in the buffer one behind the other, at offsets
/// that the device takes, and none reaches into the next.
pub proof fn lemma_uniforms_apart(
    plan: UniformPlan,
    size: Option<u64>,
    count: int,
    alignment: u32,
    k: int,
)
    requires
        uniforms_planned(plan, size, count, alignment),
        0 <= k < count,
    ensures
        0 <= plan.offset_of(k),
        plan.offset_of(k) + BORDER_UNIFORM_BYTES <= plan.offset_of(k + 1),
        plan.offset_of(k) + BORDER_UNIFORM_BYTES <= plan.required,
        plan.required <= plan.buffer_size(size),
        alignment > 0 ==> plan.offset_of(k) % alignment as int == 0,
{
    let stride = plan.stride as int;
    assert(k * stride + stride == (k + 1) * stride) by (nonlinear_arith);
    assert((k + 1) * stride <= count * stride) by (nonlinear_arith)
        requires
            k + 1 <= count,
            stride >= 0,
    ;
    assert(count * stride == stride * count) by (nonlinear_arith);
    assert(0 <= k * stride) by (nonlinear_arith)
        requires
            0 <= k,
            0 <= stride,
    ;
    if alignment > 0 {
        let unit = alignment as int;
        lemma_fundamental_div_mod(stride, unit);
        let m = stride / unit;
        assert(k * stride == (k * m) * unit) by (nonlinear_arith)
            requires
                stride == unit * m,
        ;
        lemma_mod_multiples_basic(k * m, unit);
    }
}

/// What the borders of a frame bring to the device.
#[derive(Debug)]
pub struct BorderUpload {
    /// What becomes of the vertex buffer.
    pub vertices: BufferWrite,
    /// What is written from its beginning on, if anything.
    pub vertex_bytes: Option<Vec<u8>>,
    /// What becomes of the uniform buffer.
    pub uniforms: UniformPlan,
    /// What is written to it, area by area.
    pub uniform_writes: Vec<BufferUpload>,
}

/// Whether `writes` holds the uniforms of the first `n` areas in their places.
pub open spec fn uniforms_written(
    writes: Seq<BufferUpload>,
    uniforms: Seq<BorderUniform>,
    plan: UniformPlan,
    n: int,
) -> bool {
    &&& writes.len() == n
    &&& forall|k: int|
        0 <= k < n ==> {
            &&& (#[trigger] writes[k]).byte_offset == plan.offset_of(k)
            &&& in_memory(uniform_words(uniforms[k]), writes[k].bytes@)
        }
}

fn write_uniforms(uniforms: &Vec<BorderUniform>, plan: &UniformPlan) -> (r: Vec<BufferUpload>)
    requires
        uniforms.len() <= u32::MAX,
        plan.required == plan.stride * uniforms.len(),
    ensures
        uniforms_written(r@, uniforms@, *plan, uniforms.len() as int),
{
    let mut writes: Vec<BufferUpload> = Vec::new();
    let mut i: usize = 0;
    while i < uniforms.len()
        invariant
            i <= uniforms.len(),
            uniforms.len() <= u32::MAX,
            plan.required == plan.stride * uniforms.len(),
            uniforms_written(writes@, uniforms@, *plan, i as int),
        decreases uniforms.len() - i,
    {
        proof {
            assert(i * plan.stride <= plan.stride * uniforms.len()) by (nonlinear_arith)
                requires
                    i <= uniforms.len(),
                    0 <= plan.stride,
            ;
        }
        let words = border_uniform_words(&uniforms[i]);
        writes.push(
            BufferUpload { byte_offset: plan.offset(i as u32), bytes: word_bytes(&words) },
        );
        i = i + 1;
    }
    writes
}

/// Plans what the borders of a frame bring to the device; nothing where there
/// are none. `vertex_size` and `uniform_size` are the sizes of the buffers so
/// far. The stream is written where it is to be uploaded or its buffer is new;
/// the uniforms are written in any case.
pub fn plan_border_resources(
    instances: &Vec<GlyphInstance>,
    uniforms: &Vec<BorderUniform>,
    vertex_size: u64,
    uniform_size: Option<u64>,
    alignment: u32,
    upload_instances: bool,
) -> (r: Option<BorderUpload>)
    requires
        instances.len() <= u32::MAX,
        uniforms.len() <= u32::MAX,
    ensures
        match r {
            None => instances.len() == 0,
            Some(upload) => {
                &&& instances.len() > 0
                &&& upload.vertices == border_write(
                    vertex_size,
                    instances.len() as int,
                    upload_instances,
                )
                &&& upload.vertex_bytes is Some <==> upload_instances || vertex_size
                    < stream_bytes(instances.len() as int)
                &&& upload.vertex_bytes matches Some(bytes) ==> in_memory(
                    stream_words(instances@),
                    bytes@,
                )
                &&& uniforms_planned(
                    upload.uniforms,
                    uniform_size,
                    uniforms.len() as int,
                    alignment,
                )
                &&& uniforms_written(
                    upload.uniform_writes@,
                    uniforms@,
                    upload.uniforms,
                    uniforms.len() as int,
                )
            },
        },
{
    if instances.len() == 0 {
        return None;
    }
    let vertices = plan_border_write(vertex_size, instances.len() as u32, upload_instances);
    let vertex_bytes = match vertices {
        BufferWrite::Keep => None,
        _ => Some(instance_bytes(instances)),
    };
    let plan = plan_border_uniforms(uniform_size, uniforms.len() as u32, alignment);
    let uniform_writes = write_uniforms(uniforms, &plan);
    Some(BorderUpload { vertices, vertex_bytes, uniforms: plan, uniform_writes })
}

} // verus!
