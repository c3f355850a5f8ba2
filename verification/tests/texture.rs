use sluggrs::outline::{Point, QuadCurve};
use sluggrs::scalar::Scalar;
use sluggrs::texture::{
    build_band_texture, build_curve_texture, choose_band_count, cpu_calc_root_code, listed_curves,
    BandTexel, PreparedGlyph, TextureCursor,
};

fn scalar(v: f32) -> Scalar {
    Scalar::from_bits(v.to_bits())
}

fn quad(v: [f32; 6]) -> QuadCurve {
    let p = |x, y| Point {
        x: scalar(x),
        y: scalar(y),
    };
    QuadCurve {
        p1: p(v[0], v[1]),
        p2: p(v[2], v[3]),
        p3: p(v[4], v[5]),
    }
}

fn texel(x: u32, y: u32, z: u32, w: u32) -> BandTexel {
    BandTexel { x, y, z, w }
}

fn root_code(y1: f32, y2: f32, y3: f32) -> u32 {
    let i1 = y1.to_bits() >> 31;
    let i2 = y2.to_bits() >> 30;
    let i3 = y3.to_bits() >> 29;
    let mut shift = (i2 & 2) | (i1 & !2);
    shift = (i3 & 4) | (shift & !4);
    (0x2E74u32 >> shift) & 0x0101
}

#[test]
fn root_codes_follow_the_signs() {
    let values = [-1.0, -0.0, 0.0, 2.0, f32::NEG_INFINITY, f32::MAX];
    for a in values {
        for b in values {
            for c in values {
                assert_eq!(
                    cpu_calc_root_code(scalar(a), scalar(b), scalar(c)),
                    root_code(a, b, c),
                    "{a} {b} {c}"
                );
            }
        }
    }
    assert_eq!(
        cpu_calc_root_code(scalar(1.0), scalar(1.0), scalar(-1.0)),
        1
    );
    assert_eq!(
        cpu_calc_root_code(scalar(-1.0), scalar(1.0), scalar(1.0)),
        0x100
    );
}

#[test]
fn band_counts_grow_with_the_curves() {
    assert_eq!(choose_band_count(true, 100), 1);
    assert_eq!(choose_band_count(false, 9), 4);
    assert_eq!(choose_band_count(false, 10), 8);
    assert_eq!(choose_band_count(false, 29), 8);
    assert_eq!(choose_band_count(false, 30), 12);
}

#[test]
fn glyphs_follow_each_other_in_both_textures() {
    let mut cursor = TextureCursor {
        curve_offset: 0,
        band_offset: 0,
    };
    let first = quad([1.0, 2.0, 3.0, 4.0, 5.0, 6.0]);
    let second = quad([7.0, 8.0, 9.0, 10.0, 11.0, 12.0]);
    let glyphs: Vec<PreparedGlyph> = vec![
        cursor.place(vec![first], vec![1, 2, 3, 4]),
        cursor.place(vec![second, first], vec![5, 6, 7, 8, 9, 10, 11, 12]),
    ];
    assert_eq!((glyphs[0].curve_offset, glyphs[0].band_offset), (0, 0));
    assert_eq!((glyphs[1].curve_offset, glyphs[1].band_offset), (2, 1));
    assert_eq!((cursor.curve_offset, cursor.band_offset), (6, 3));
    assert_eq!(cursor.curve_location(2), 10);

    let curves = build_curve_texture(&glyphs);
    assert_eq!(curves.len(), 6);
    assert_eq!(curves[2].x, scalar(7.0));
    assert_eq!(curves[2].w, scalar(10.0));
    assert_eq!(curves[3].y, scalar(12.0));
    assert_eq!(curves[3].z, scalar(0.0));
    assert_eq!(
        build_band_texture(&glyphs),
        vec![
            texel(1, 2, 3, 4),
            texel(5, 6, 7, 8),
            texel(9, 10, 11, 12)
        ]
    );
}

#[test]
fn textures_are_never_empty() {
    let curves = build_curve_texture(&Vec::new());
    assert_eq!(curves.len(), 1);
    assert_eq!(curves[0].x, scalar(0.0));
    assert_eq!(build_band_texture(&Vec::new()), vec![texel(0, 0, 0, 0)]);
}

#[test]
fn the_last_texel_is_filled_up() {
    let mut cursor = TextureCursor {
        curve_offset: 0,
        band_offset: 0,
    };
    let glyph = cursor.place(Vec::new(), vec![1, 2, 3, 4, 5, 6]);
    assert_eq!(
        build_band_texture(&vec![glyph]),
        vec![texel(1, 2, 3, 4), texel(5, 6, 0, 0)]
    );
}

#[test]
fn band_headers_lead_to_curves() {
    let mut texels = vec![texel(2, 3, 0, 0), texel(0, 3, 0, 0), texel(1, 4, 0, 0)];
    texels.push(texel(156, 0, 0, 0));
    texels.push(texel(152, 0, 0, 0));
    assert_eq!(listed_curves(&texels, 0, 152), vec![2, 0]);
    assert_eq!(listed_curves(&texels, 1, 152), Vec::<u32>::new());
    assert_eq!(listed_curves(&texels, 2, 152), vec![0]);
}

#[test]
fn instances_find_the_bands_of_their_glyph() {
    let mut cursor = TextureCursor {
        curve_offset: 3,
        band_offset: 40,
    };
    let glyph = cursor.place(Vec::new(), vec![0; 8]);
    assert_eq!(glyph.glyph_data(8), [40, 0, 7, 7]);
    assert_eq!(cursor.place(Vec::new(), Vec::new()).glyph_data(1), [42, 0, 0, 0]);
}
