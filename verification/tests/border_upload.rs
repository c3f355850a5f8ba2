use sluggrs::border_upload::{
    border_uniform_words, plan_border_resources, plan_border_uniforms, UniformPlan,
};
use sluggrs::instance::{instance_bytes, Rect};
use sluggrs::outline::Rgba;
use sluggrs::scalar::Scalar;
use sluggrs::text_renderer::BorderUniform;
use sluggrs::upload::BufferWrite;
use sluggrs::GlyphInstance;

fn scalar(v: f32) -> Scalar {
    Scalar::from_bits(v.to_bits())
}

fn uniform(width: f32) -> BorderUniform {
    BorderUniform {
        color: Rgba {
            r: scalar(0.25),
            g: scalar(0.5),
            b: scalar(0.75),
            a: scalar(1.0),
        },
        width: scalar(width),
    }
}

fn numbers(bytes: &[u8]) -> Vec<f32> {
    bytes
        .chunks(4)
        .map(|c| f32::from_ne_bytes([c[0], c[1], c[2], c[3]]))
        .collect()
}

fn instance() -> GlyphInstance {
    let one = scalar(1.0);
    GlyphInstance {
        screen_rect: Rect {
            x: one,
            y: one,
            width: one,
            height: one,
        },
        color: uniform(1.0).color,
        glyph_offset: 7,
        cmd_texel_count: 0,
        depth: one,
        ppem: one,
    }
}

#[test]
fn uniforms_are_eight_words() {
    let words: Vec<f32> = border_uniform_words(&uniform(2.5))
        .into_iter()
        .map(f32::from_bits)
        .collect();
    assert_eq!(words, vec![0.25, 0.5, 0.75, 1.0, 2.5, 0.0, 0.0, 0.0]);
}

#[test]
fn uniforms_lie_a_stride_apart() {
    let plan = plan_border_uniforms(None, 3, 256);
    assert_eq!(
        plan,
        UniformPlan {
            stride: 256,
            required: 768,
            recreate: Some(768)
        }
    );
    assert_eq!([0, 1, 2].map(|k| plan.offset(k)), [0, 256, 512]);
    assert_eq!(plan_border_uniforms(Some(768), 3, 256).recreate, None);
    assert_eq!(plan_border_uniforms(Some(767), 3, 256).recreate, Some(768));
    assert_eq!(plan_border_uniforms(None, 0, 0).recreate, Some(32));
    assert_eq!(plan_border_uniforms(None, 2, 24).stride, 48);
    let most = plan_border_uniforms(None, u32::MAX, u32::MAX);
    assert_eq!(most.required, u64::from(u32::MAX) * u64::from(u32::MAX));
}

#[test]
fn frames_without_borders_bring_nothing() {
    let none = plan_border_resources(&Vec::new(), &Vec::new(), 0, None, 256, true);
    assert!(none.is_none());
}

#[test]
fn border_streams_are_written_when_they_have_to() {
    let stream = vec![instance(), instance()];
    let uniforms = vec![uniform(1.0), uniform(2.0)];
    let plan = |size, upload| {
        plan_border_resources(&stream, &uniforms, size, Some(512), 256, upload).unwrap()
    };
    let fresh = plan(0, false);
    assert_eq!(fresh.vertices, BufferWrite::Recreate { size: 128 });
    assert_eq!(fresh.vertex_bytes, Some(instance_bytes(&stream)));
    let kept = plan(128, false);
    assert_eq!(kept.vertices, BufferWrite::Keep);
    assert_eq!(kept.vertex_bytes, None);
    let written = plan(128, true);
    assert_eq!(written.vertices, BufferWrite::Write);
    assert_eq!(written.vertex_bytes, Some(instance_bytes(&stream)));
    // The uniforms are written in any case.
    assert_eq!(kept.uniforms.recreate, None);
    let places: Vec<u64> = kept.uniform_writes.iter().map(|w| w.byte_offset).collect();
    assert_eq!(places, vec![0, 256]);
    assert_eq!(
        numbers(&kept.uniform_writes[1].bytes),
        vec![0.25, 0.5, 0.75, 1.0, 2.0, 0.0, 0.0, 0.0]
    );
}
