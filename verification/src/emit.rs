//! What laying out a text area emits.

use crate::border::takes_border;
use crate::glyph_cache::{ColorGlyphEntry, ColorGlyphLayer, GlyphKey};
use crate::instance::{GlyphInstance, Rect};
use crate::keys::{distinct_keys, distinct_of};
use crate::outline::Rgba;
use crate::scalar::Scalar;
use crate::text_atlas::{AtlasState, TextAtlas};
use vstd::prelude::*;

verus! {

/// A glyph that is drawn from a raster image instead of an outline.
#[derive(Clone, Copy, Debug, PartialEq, Eq, Structural)]
pub struct NonVectorGlyph {
    pub key: GlyphKey,
    /// Size in pixels, as bits.
    pub font_size: Scalar,
    /// Whole pixel position.
    pub x: i32,
    pub y: i32,
    /// Subpixel position in quarters of a pixel.
    pub x_bin: u8,
    pub y_bin: u8,
    pub color: Rgba,
    pub depth: Scalar,
    pub line_y_scaled_rounded: Scalar,
    pub clip_min_x: i32,
    pub clip_min_y: i32,
    pub clip_max_x: i32,
    pub clip_max_y: i32,
}

/// Where something is drawn, and whether that is visible.
#[derive(Clone, Copy, Debug, PartialEq, Eq, Structural)]
pub struct PlacedRect {
    pub rect: Rect,
    pub visible: bool,
}

/// A glyph of an area with its geometry on the screen.
#[derive(Debug)]
pub struct WorkItem {
    pub key: GlyphKey,
    /// One rectangle; for a glyph made of layers one for each layer.
    pub rects: Vec<PlacedRect>,
    /// The colour of the glyph, if it has one of its own.
    pub color: Option<Rgba>,
    pub depth: Scalar,
    pub ppem: Scalar,
    /// How the glyph is drawn if it has no outline.
    pub raster: Option<NonVectorGlyph>,
}

/// What an area emits.
pub struct EmissionView {
    pub instances: Seq<GlyphInstance>,
    pub borders: Seq<GlyphInstance>,
    pub rasters: Seq<NonVectorGlyph>,
    /// Whether nothing of the area was left out.
    pub complete: bool,
}

/// What an area emits, with the keys of its glyphs, each once and in order.
#[derive(Debug)]
pub struct Emission {
    pub instances: Vec<GlyphInstance>,
    pub border_instances: Vec<GlyphInstance>,
    pub non_vector_glyphs: Vec<NonVectorGlyph>,
    pub complete: bool,
    pub distinct_keys: Vec<GlyphKey>,
}

impl Emission {
    pub open spec fn view(&self) -> EmissionView {
        EmissionView {
            instances: self.instances@,
            borders: self.border_instances@,
            rasters: self.non_vector_glyphs@,
            complete: self.complete,
        }
    }
}

/// How an area is drawn.
#[derive(Clone, Copy, Debug, PartialEq, Eq, Structural)]
pub struct AreaStyle {
    /// The colour of glyphs that have none of their own.
    pub default_color: Rgba,
    /// Whether plain outlines get a border.
    pub bordered: bool,
}

/// The colour that a glyph is drawn in.
pub open spec fn item_color(item: WorkItem, style: AreaStyle) -> Rgba {
    match item.color {
        Some(c) => c,
        None => style.default_color,
    }
}

/// An instance of a glyph at a place.
pub open spec fn item_instance(
    item: WorkItem,
    rect: Rect,
    color: Rgba,
    glyph_offset: u32,
    cmd_texel_count: u32,
) -> GlyphInstance {
    GlyphInstance {
        screen_rect: rect,
        color,
        glyph_offset,
        cmd_texel_count,
        depth: item.depth,
        ppem: item.ppem,
    }
}

impl EmissionView {
    /// Something was left out.
    pub open spec fn incomplete(self) -> EmissionView {
        EmissionView { complete: false, ..self }
    }

    /// One more instance.
    pub open spec fn with(self, instance: GlyphInstance) -> EmissionView {
        EmissionView { instances: self.instances.push(instance), ..self }
    }

    /// One more instance where it is visible.
    pub open spec fn with_visible(self, visible: bool, instance: GlyphInstance) -> EmissionView {
        if visible {
            self.with(instance)
        } else {
            self.incomplete()
        }
    }

    /// The first `n` layers of a glyph: layers without an outline are passed
    /// over.
    pub open spec fn with_layers(
        self,
        item: WorkItem,
        style: AreaStyle,
        layers: Seq<ColorGlyphLayer>,
        n: nat,
    ) -> EmissionView
        decreases n,
    {
        if n == 0 {
            self
        } else {
            let before = self.with_layers(item, style, layers, (n - 1) as nat);
            let layer = layers[n - 1];
            if layer.entry.band_offset == u32::MAX {
                before
            } else {
                let color = if layer.use_foreground {
                    item_color(item, style)
                } else {
                    layer.color
                };
                before.with_visible(
                    item.rects@[n - 1].visible,
                    item_instance(
                        item,
                        item.rects@[n - 1].rect,
                        color,
                        layer.entry.band_offset,
                        0,
                    ),
                )
            }
        }
    }

    /// A glyph of the area, by the kind of its entry in the atlas.
    pub open spec fn with_item(
        self,
        atlas: AtlasState,
        item: WorkItem,
        style: AreaStyle,
    ) -> EmissionView {
        let offset = atlas.glyphs@[item.key].band_offset;
        if offset == u32::MAX {
            EmissionView { rasters: self.rasters.push(item.raster->0), ..self }
        } else if offset == u32::MAX - 2 {
            if atlas.color_v1_glyphs.contains_key(item.key) {
                let v1 = atlas.color_v1_glyphs[item.key];
                self.with_visible(
                    item.rects@[0].visible,
                    item_instance(
                        item,
                        item.rects@[0].rect,
                        item_color(item, style),
                        v1.blob_offset,
                        v1.cmd_count,
                    ),
                )
            } else {
                self.incomplete()
            }
        } else if offset == u32::MAX - 1 {
            if atlas.color_glyphs.contains_key(item.key) {
                let layers = atlas.color_glyphs[item.key].layers@;
                self.with_layers(item, style, layers, layers.len())
            } else {
                self.incomplete()
            }
        } else {
            let fill = item_instance(
                item,
                item.rects@[0].rect,
                item_color(item, style),
                offset,
                0,
            );
            let filled = self.with_visible(item.rects@[0].visible, fill);
            if style.bordered && item.rects@[0].visible {
                EmissionView {
                    borders: filled.borders.push(
                        GlyphInstance { glyph_offset: atlas.border_offsets[item.key], ..fill },
                    ),
                    ..filled
                }
            } else {
                filled
            }
        }
    }

    /// The first `n` glyphs of the area.
    pub open spec fn with_items(
        self,
        atlas: AtlasState,
        items: Seq<WorkItem>,
        style: AreaStyle,
        n: nat,
    ) -> EmissionView
        decreases n,
    {
        if n == 0 {
            self
        } else {
            self.with_items(atlas, items, style, (n - 1) as nat).with_item(
                atlas,
                items[n - 1],
                style,
            )
        }
    }
}

/// An area of which nothing is emitted yet. It is not complete if lines were
/// left out.
pub open spec fn nothing_emitted(all_runs_included: bool) -> EmissionView {
    EmissionView {
        instances: Seq::empty(),
        borders: Seq::empty(),
        rasters: Seq::empty(),
        complete: all_runs_included,
    }
}

/// Whether a glyph of an area can be emitted: it is in the atlas, it comes with
/// the geometry that its kind asks for, and its border data is there if it is
/// to have a border.
pub open spec fn item_ready(atlas: AtlasState, item: WorkItem, bordered: bool) -> bool {
    let offset = atlas.glyphs@[item.key].band_offset;
    &&& atlas.glyphs@.contains_key(item.key)
    &&& if offset == u32::MAX {
        item.raster is Some
    } else if offset == u32::MAX - 2 {
        atlas.color_v1_glyphs.contains_key(item.key) ==> item.rects.len() > 0
    } else if offset == u32::MAX - 1 {
        atlas.color_glyphs.contains_key(item.key) ==> item.rects.len()
            >= atlas.color_glyphs[item.key].layers.len()
    } else {
        item.rects.len() > 0 && (bordered ==> atlas.border_offsets.contains_key(item.key))
    }
}

/// The keys of work items.
pub open spec fn item_keys(items: Seq<WorkItem>) -> Seq<GlyphKey> {
    items.map_values(|item: WorkItem| item.key)
}

fn color_of(item: &WorkItem, style: &AreaStyle) -> (r: Rgba)
    ensures
        r == item_color(*item, *style),
{
    match item.color {
        Some(c) => c,
        None => style.default_color,
    }
}

fn instance_of(
    item: &WorkItem,
    rect: Rect,
    color: Rgba,
    glyph_offset: u32,
    cmd_texel_count: u32,
) -> (r: GlyphInstance)
    ensures
        r == item_instance(*item, rect, color, glyph_offset, cmd_texel_count),
{
    GlyphInstance {
        screen_rect: rect,
        color,
        glyph_offset,
        cmd_texel_count,
        depth: item.depth,
        ppem: item.ppem,
    }
}

impl Emission {
    fn push_visible(&mut self, visible: bool, instance: GlyphInstance)
        ensures
            final(self).view() == old(self).view().with_visible(visible, instance),
            final(self).distinct_keys == old(self).distinct_keys,
    {
        if visible {
            self.instances.push(instance);
        } else {
            self.complete = false;
        }
    }

    fn push_layers(&mut self, item: &WorkItem, style: &AreaStyle, glyph: &ColorGlyphEntry)
        requires
            item.rects.len() >= glyph.layers.len(),
        ensures
            final(self).view() == old(self).view().with_layers(
                *item,
                *style,
                glyph.layers@,
                glyph.layers@.len(),
            ),
            final(self).distinct_keys == old(self).distinct_keys,
    {
        let foreground = color_of(item, style);
        let mut i: usize = 0;
        while i < glyph.layers.len()
            invariant
                i <= glyph.layers.len(),
                item.rects.len() >= glyph.layers.len(),
                foreground == item_color(*item, *style),
                self.view() == old(self).view().with_layers(
                    *item,
                    *style,
                    glyph.layers@,
                    i as nat,
                ),
                self.distinct_keys == old(self).distinct_keys,
            decreases glyph.layers.len() - i,
        {
            let layer = glyph.layers[i];
            if !layer.entry.is_non_vector() {
                let color = if layer.use_foreground {
                    foreground
                } else {
                    layer.color
                };
                let placed = item.rects[i];
                let instance = instance_of(item, placed.rect, color, layer.entry.band_offset, 0);
                self.push_visible(placed.visible, instance);
            }
            i = i + 1;
        }
    }

    fn push_item(&mut self, atlas: &TextAtlas, item: &WorkItem, style: &AreaStyle)
        requires
            item_ready(atlas@, *item, style.bordered),
        ensures
            final(self).view() == old(self).view().with_item(atlas@, *item, *style),
            final(self).distinct_keys == old(self).distinct_keys,
    {
        let entry = match atlas.glyph(&item.key) {
            Some(entry) => entry,
            None => {
                return;
            },
        };
        if entry.is_non_vector() {
            if let Some(raster) = item.raster {
                self.non_vector_glyphs.push(raster);
            }
            return;
        }
        if entry.is_color_v1_vector() {
            match atlas.color_v1_glyph(&item.key) {
                Some(v1) => {
                    let placed = item.rects[0];
                    let instance = instance_of(
                        item,
                        placed.rect,
                        color_of(item, style),
                        v1.blob_offset,
                        v1.cmd_count,
                    );
                    self.push_visible(placed.visible, instance);
                },
                None => {
                    self.complete = false;
                },
            }
            return;
        }
        if entry.is_color_vector() {
            match atlas.color_glyph(&item.key) {
                Some(glyph) => self.push_layers(item, style, glyph),
                None => {
                    self.complete = false;
                },
            }
            return;
        }
        let placed = item.rects[0];
        let fill = instance_of(item, placed.rect, color_of(item, style), entry.band_offset, 0);
        self.push_visible(placed.visible, fill);
        if style.bordered && placed.visible {
            if let Some(offset) = atlas.border_descriptor(&item.key) {
                let mut border = fill;
                border.glyph_offset = offset;
                self.border_instances.push(border);
            }
        }
    }
}

/// Emits the glyphs of an area in their order.
pub fn emit_items(
    atlas: &TextAtlas,
    items: &Vec<WorkItem>,
    style: &AreaStyle,
    all_runs_included: bool,
) -> (r: Emission)
    requires
        forall|i: int|
            0 <= i < items.len() ==> item_ready(atlas@, #[trigger] items@[i], style.bordered),
    ensures
        r.view() == nothing_emitted(all_runs_included).with_items(
            atlas@,
            items@,
            *style,
            items@.len(),
        ),
        distinct_of(r.distinct_keys@, item_keys(items@)),
{
    let mut emission = Emission {
        instances: Vec::new(),
        border_instances: Vec::new(),
        non_vector_glyphs: Vec::new(),
        complete: all_runs_included,
        distinct_keys: Vec::new(),
    };
    let mut keys: Vec<GlyphKey> = Vec::new();
    let mut i: usize = 0;
    while i < items.len()
        invariant
            i <= items.len(),
            forall|i: int|
                0 <= i < items.len() ==> item_ready(
                    atlas@,
                    #[trigger] items@[i],
                    style.bordered,
                ),
            emission.view() == nothing_emitted(all_runs_included).with_items(
                atlas@,
                items@,
                *style,
                i as nat,
            ),
            keys@ == item_keys(items@).take(i as int),
        decreases items.len() - i,
    {
        let item = &items[i];
        emission.push_item(atlas, item, style);
        keys.push(item.key);
        i = i + 1;
        assert(keys@ =~= item_keys(items@).take(i as int));
    }
    assert(keys@ =~= item_keys(items@));
    emission.distinct_keys = distinct_keys(&keys);
    emission
}

/// A glyph without a border adds none, and a glyph that is not a plain outline
/// never has one: only plain outlines are drawn over a border.
pub proof fn lemma_only_outlines_have_borders(
    v: EmissionView,
    atlas: AtlasState,
    item: WorkItem,
    style: AreaStyle,
)
    ensures
        !style.bordered || !takes_border(atlas.glyphs@[item.key]) ==> v.with_item(
            atlas,
            item,
            style,
        ).borders == v.borders,
{
    let offset = atlas.glyphs@[item.key].band_offset;
    if offset == u32::MAX - 1 && atlas.color_glyphs.contains_key(item.key) {
        let layers = atlas.color_glyphs[item.key].layers@;
        lemma_layers_add_no_border(v, item, style, layers, layers.len());
    }
}

proof fn lemma_layers_add_no_border(
    v: EmissionView,
    item: WorkItem,
    style: AreaStyle,
    layers: Seq<ColorGlyphLayer>,
    n: nat,
)
    ensures
        v.with_layers(item, style, layers, n).borders == v.borders,
        v.with_layers(item, style, layers, n).rasters == v.rasters,
        v.with_layers(item, style, layers, n).complete ==> v.complete,
    decreases n,
{
    if n > 0 {
        lemma_layers_add_no_border(v, item, style, layers, (n - 1) as nat);
    }
}

/// An area without borders emits none.
pub proof fn lemma_no_borders_without_style(
    v: EmissionView,
    atlas: AtlasState,
    items: Seq<WorkItem>,
    style: AreaStyle,
    n: nat,
)
    requires
        !style.bordered,
    ensures
        v.with_items(atlas, items, style, n).borders == v.borders,
    decreases n,
{
    if n > 0 {
        lemma_no_borders_without_style(v, atlas, items, style, (n - 1) as nat);
        lemma_only_outlines_have_borders(
            v.with_items(atlas, items, style, (n - 1) as nat),
            atlas,
            items[n - 1],
            style,
        );
    }
}

/// Whether all of a glyph that is drawn from outlines is visible.
pub open spec fn item_whole(atlas: AtlasState, item: WorkItem) -> bool {
    let offset = atlas.glyphs@[item.key].band_offset;
    if offset == u32::MAX {
        true
    } else if offset == u32::MAX - 2 {
        atlas.color_v1_glyphs.contains_key(item.key) && item.rects@[0].visible
    } else if offset == u32::MAX - 1 {
        atlas.color_glyphs.contains_key(item.key) && layers_whole(
            item,
            atlas.color_glyphs[item.key].layers@,
            atlas.color_glyphs[item.key].layers@.len(),
        )
    } else {
        item.rects@[0].visible
    }
}

/// Whether the first `n` layers are visible where they have an outline.
pub open spec fn layers_whole(item: WorkItem, layers: Seq<ColorGlyphLayer>, n: nat) -> bool {
    forall|i: int|
        0 <= i < n && (#[trigger] layers[i]).entry.band_offset != u32::MAX ==> item.rects@[i].visible
}

proof fn lemma_layers_complete(
    v: EmissionView,
    item: WorkItem,
    style: AreaStyle,
    layers: Seq<ColorGlyphLayer>,
    n: nat,
)
    ensures
        v.with_layers(item, style, layers, n).complete == (v.complete && layers_whole(
            item,
            layers,
            n,
        )),
    decreases n,
{
    if n > 0 {
        lemma_layers_complete(v, item, style, layers, (n - 1) as nat);
    }
}

/// An area is complete exactly when all of its lines were laid out and every
/// glyph drawn from outlines is visible as a whole.
pub proof fn lemma_complete(
    atlas: AtlasState,
    items: Seq<WorkItem>,
    style: AreaStyle,
    all_runs_included: bool,
    n: nat,
)
    ensures
        nothing_emitted(all_runs_included).with_items(atlas, items, style, n).complete == (
        all_runs_included && forall|i: int|
            0 <= i < n ==> item_whole(atlas, #[trigger] items[i])),
    decreases n,
{
    if n > 0 {
        lemma_complete(atlas, items, style, all_runs_included, (n - 1) as nat);
        let before = nothing_emitted(all_runs_included).with_items(
            atlas,
            items,
            style,
            (n - 1) as nat,
        );
        let item = items[n - 1];
        if atlas.color_glyphs.contains_key(item.key) {
            let layers = atlas.color_glyphs[item.key].layers@;
            lemma_layers_complete(before, item, style, layers, layers.len());
        }
        assert(before.with_item(atlas, item, style).complete == (before.complete && item_whole(
            atlas,
            item,
        )));
    }
}

/// The number of rectangles of the first `n` glyphs.
pub open spec fn rect_count(items: Seq<WorkItem>, n: nat) -> int
    decreases n,
{
    if n == 0 {
        0
    } else {
        rect_count(items, (n - 1) as nat) + items[n - 1].rects@.len()
    }
}

proof fn lemma_layers_size(
    v: EmissionView,
    item: WorkItem,
    style: AreaStyle,
    layers: Seq<ColorGlyphLayer>,
    n: nat,
)
    ensures
        v.with_layers(item, style, layers, n).instances.len() <= v.instances.len() + n,
    decreases n,
{
    if n > 0 {
        lemma_layers_size(v, item, style, layers, (n - 1) as nat);
    }
}

/// An area emits at most one instance for each rectangle, and one border for
/// each glyph.
pub proof fn lemma_emission_size(
    v: EmissionView,
    atlas: AtlasState,
    items: Seq<WorkItem>,
    style: AreaStyle,
    n: nat,
)
    requires
        n <= items.len(),
        forall|i: int|
            0 <= i < items.len() ==> item_ready(atlas, #[trigger] items[i], style.bordered),
    ensures
        v.with_items(atlas, items, style, n).instances.len() <= v.instances.len() + rect_count(
            items,
            n,
        ),
        v.with_items(atlas, items, style, n).borders.len() <= v.borders.len() + n,
    decreases n,
{
    if n > 0 {
        lemma_emission_size(v, atlas, items, style, (n - 1) as nat);
        let before = v.with_items(atlas, items, style, (n - 1) as nat);
        let item = items[n - 1];
        assert(item_ready(atlas, item, style.bordered));
        if atlas.glyphs@[item.key].band_offset == u32::MAX - 1
            && atlas.color_glyphs.contains_key(item.key) {
            let layers = atlas.color_glyphs[item.key].layers@;
            lemma_layers_size(before, item, style, layers, layers.len());
            lemma_layers_add_no_border(before, item, style, layers, layers.len());
        }
    }
}

} // verus!
