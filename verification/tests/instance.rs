use sluggrs::instance::{instance_bytes, instance_stream_unchanged, Rect};
use sluggrs::outline::Rgba;
use sluggrs::scalar::Scalar;
use sluggrs::GlyphInstance;

fn bits(bits: u32) -> Scalar {
    Scalar::from_bits(bits)
}

fn numbered() -> GlyphInstance {
    GlyphInstance {
        screen_rect: Rect {
            x: bits(0x0101_0101),
            y: bits(0x0202_0202),
            width: bits(0x0303_0303),
            height: bits(0x0404_0404),
        },
        color: Rgba {
            r: bits(0x1111_1111),
            g: bits(0x1212_1212),
            b: bits(0x1313_1313),
            a: bits(0x1414_1414),
        },
        glyph_offset: 0x2121_2121,
        cmd_texel_count: 0x3131_3131,
        depth: bits(0x4141_4141),
        ppem: bits(0x5151_5151),
    }
}

#[test]
fn glyph_instance_abi() {
    let bytes = instance_bytes(&vec![numbered(), numbered()]);
    assert_eq!(bytes.len(), 2 * 48);
    for start in [0, 48] {
        let word = |at: usize| bytes[start + at..start + at + 4].to_vec();
        assert_eq!(word(0), [0x01; 4]);
        assert_eq!(word(12), [0x04; 4]);
        assert_eq!(word(16), [0x11; 4]);
        assert_eq!(word(28), [0x14; 4]);
        assert_eq!(word(32), [0x21; 4]);
        assert_eq!(word(36), [0x31; 4]);
        assert_eq!(word(40), [0x41; 4]);
        assert_eq!(word(44), [0x51; 4]);
    }
}

#[test]
fn words_keep_the_byte_order_of_the_machine() {
    let mut instance = numbered();
    instance.glyph_offset = 0x0102_0304;
    let bytes = instance_bytes(&vec![instance]);
    assert_eq!(bytes[32..36], 0x0102_0304u32.to_ne_bytes());
    assert!(instance_bytes(&Vec::new()).is_empty());
}

#[test]
fn order_changed_direct_hit_stream_requires_upload() {
    let one = 1.0f32.to_bits();
    let instance = |x: f32| GlyphInstance {
        screen_rect: Rect {
            x: bits(x.to_bits()),
            y: bits(0),
            width: bits(one),
            height: bits(one),
        },
        color: Rgba {
            r: bits(one),
            g: bits(one),
            b: bits(one),
            a: bits(one),
        },
        glyph_offset: 1,
        cmd_texel_count: 0,
        depth: bits(0),
        ppem: bits(12.0f32.to_bits()),
    };
    let previous = vec![instance(1.0), instance(2.0)];
    let reordered = vec![instance(2.0), instance(1.0)];
    let normal_may_skip = instance_stream_unchanged(&reordered, &previous);
    let border_may_skip = instance_stream_unchanged(&reordered, &previous);
    assert!(!normal_may_skip);
    assert!(!border_may_skip);
    assert!(instance_stream_unchanged(&previous, &previous));
    assert!(!instance_stream_unchanged(&previous[..1].to_vec(), &previous));
}
