use vstd::prelude::*;

use crate::area::{fog_cell, grid_quads, layer_cell, row_quads, AreaState, Layer};
use crate::entity_state::{EntityState, EntityTextureCache};
use crate::geometry::{clamp_i32, Rect, Sizing};
use crate::kind::WidgetKind;
use crate::text::{decimal, int_to_string};
use crate::tree::WidgetTree;
use crate::label::half_toward_zero;
use crate::render::{batch_ok, count_rasterizations, push_cmd, DrawList, Quad, RenderCommand, Source, TextureId};

verus! {

/// The side of each cached terrain texture, in pixels.
pub const TILE_CACHE_TEXTURE_SIZE: i32 = 2048;

/// The side of one tile in a cached texture, in pixels.
pub const TILE_SIZE: i32 = 16;

/// The side of the window of tiles a cached texture holds: the texture's
/// side over the tile's side.
pub const CACHE_TILES: i32 = 128;

/// `a / b` rounded toward zero, as machine division does, for `b > 0`.
pub open spec fn tdiv(a: int, b: int) -> int {
    if a >= 0 {
        a / b
    } else {
        -((-a) / b)
    }
}

/// `v` clamped into `[0, max]`.
pub open spec fn clamp_scroll(v: int, max: int) -> int {
    if v < 0 {
        0
    } else if v > max {
        max
    } else {
        v
    }
}

/// The largest scroll offset along one axis: the area's extent less the
/// tiles the viewport shows, never below zero.
pub open spec fn max_scroll(area_extent: int, viewport_extent: int, scale: int) -> int {
    let m = clamp_i32(area_extent - tdiv(viewport_extent, scale));
    if m < 0 {
        0
    } else {
        m
    }
}

/// The sprite drawn under the cursor in the area.
#[derive(Clone, Copy, Debug, PartialEq, Eq, Structural)]
pub struct HoverSprite {
    pub sprite: usize,
    pub x: i32,
    pub y: i32,
    pub w: i32,
    pub h: i32,
    /// Whether a left click here would do something; drawn red when not.
    pub left_click_action_valid: bool,
}

/// Which mouse button.
#[derive(Clone, Copy, Debug, PartialEq, Eq, Structural)]
pub enum ClickKind {
    Left,
    Right,
    Middle,
}

/// The widget showing the current area: scrolling, caching the terrain and
/// the fog of war into textures, and drawing entities over them.
#[derive(Debug)]
pub struct AreaView {
    /// The widget that shows the tile under the cursor.
    pub mouse_over: usize,
    pub scale_x: i32,
    pub scale_y: i32,
    /// Set when the terrain textures must be rasterized again.
    pub cache_invalid: bool,
    pub layers: Vec<String>,
    pub scroll_x: i32,
    pub scroll_y: i32,
    pub max_scroll_x: i32,
    pub max_scroll_y: i32,
    pub hover_sprite: Option<HoverSprite>,
    /// The tile of the last left click, whose default action (moving or
    /// attacking, decided by the game rules) the game layer is to carry out.
    pub default_action: Option<(i32, i32)>,
}

impl AreaView {
    pub open spec fn wf(&self) -> bool {
        &&& self.scale_x >= 1
        &&& self.scale_y >= 1
        &&& self.max_scroll_x >= 0
        &&& self.max_scroll_y >= 0
    }

    pub fn new(mouse_over: usize) -> (r: AreaView)
        ensures
            r.wf(),
            r.mouse_over == mouse_over,
            r.scale_x == 1 && r.scale_y == 1,
            r.cache_invalid,
            r.layers@.len() == 0,
            r.scroll_x == 0 && r.scroll_y == 0,
            r.max_scroll_x == 0 && r.max_scroll_y == 0,
            r.hover_sprite is None,
            r.default_action is None,
    {
        AreaView {
            mouse_over,
            scale_x: 1,
            scale_y: 1,
            cache_invalid: true,
            layers: Vec::new(),
            scroll_x: 0,
            scroll_y: 0,
            max_scroll_x: 0,
            max_scroll_y: 0,
            hover_sprite: None,
            default_action: None,
        }
    }

    pub fn get_name(&self) -> (r: &'static str)
        ensures
            r@ == "area"@,
    {
        "area"
    }

    /// The screen position for the hover widget of an object at `(x, y)`
    /// with the given size: centred below it.
    pub open spec fn spec_mouseover_pos(&self, x: int, y: int, width: int, height: int) -> (i32, i32) {
        (
            clamp_i32((x + half_toward_zero(width) - self.scroll_x) * self.scale_x) as i32,
            clamp_i32((y + height - self.scroll_y) * self.scale_y) as i32,
        )
    }

    /// The sizing of a hover widget for an object at `(x, y)` with the given size.
    pub open spec fn hover_sizing(&self, x: int, y: int, width: int, height: int) -> Sizing {
        let p = self.spec_mouseover_pos(x, y, width, height);
        Sizing { x: p.0, y: p.1, width: 0, height: 0, border: crate::geometry::Border { top: 0, bottom: 0, left: 0, right: 0 } }
    }

    /// True when `new` differs from `self` at most in its scroll offsets.
    pub open spec fn same_but_scroll(&self, new: &AreaView) -> bool {
        &&& new.mouse_over == self.mouse_over
        &&& new.scale_x == self.scale_x
        &&& new.scale_y == self.scale_y
        &&& new.cache_invalid == self.cache_invalid
        &&& new.layers == self.layers
        &&& new.hover_sprite == self.hover_sprite
        &&& new.default_action == self.default_action
    }

    /// Scrolls to `(scroll_x, scroll_y)`, clamped into `[0, max_scroll]` on
    /// each axis.
    pub fn set_scroll(&mut self, scroll_x: i32, scroll_y: i32)
        requires
            old(self).wf(),
        ensures
            final(self).wf(),
            old(self).same_but_scroll(final(self)),
            final(self).max_scroll_x == old(self).max_scroll_x,
            final(self).max_scroll_y == old(self).max_scroll_y,
            final(self).scroll_x == clamp_scroll(scroll_x as int, old(self).max_scroll_x as int),
            final(self).scroll_y == clamp_scroll(scroll_y as int, old(self).max_scroll_y as int),
            0 <= final(self).scroll_x <= final(self).max_scroll_x,
            0 <= final(self).scroll_y <= final(self).max_scroll_y,
    {
        let mut x = scroll_x;
        let mut y = scroll_y;
        if x < 0 {
            x = 0;
        } else if x > self.max_scroll_x {
            x = self.max_scroll_x;
        }
        if y < 0 {
            y = 0;
        } else if y > self.max_scroll_y {
            y = self.max_scroll_y;
        }
        self.scroll_x = x;
        self.scroll_y = y;
    }

    /// Recomputes how far the view may scroll for an area and a viewport of
    /// the given sizes.
    pub fn recompute_max_scroll(&mut self, area_width: i32, area_height: i32, inner_width: i32, inner_height: i32)
        requires
            old(self).wf(),
        ensures
            final(self).wf(),
            old(self).same_but_scroll(final(self)),
            final(self).scroll_x == old(self).scroll_x,
            final(self).scroll_y == old(self).scroll_y,
            final(self).max_scroll_x == max_scroll(area_width as int, inner_width as int, old(self).scale_x as int),
            final(self).max_scroll_y == max_scroll(area_height as int, inner_height as int, old(self).scale_y as int),
    {
        self.max_scroll_x = max_scroll_exec(area_width, inner_width, self.scale_x);
        self.max_scroll_y = max_scroll_exec(area_height, inner_height, self.scale_y);
    }

    /// Scrolls so that `entity` is at the centre of the viewport, as far as
    /// the scroll limits allow.
    pub fn center_scroll_on(&mut self, entity: &EntityState, area_width: i32, area_height: i32, inner_width: i32, inner_height: i32)
        requires
            old(self).wf(),
        ensures
            final(self).wf(),
            old(self).same_but_scroll(final(self)),
            final(self).max_scroll_x == max_scroll(area_width as int, inner_width as int, old(self).scale_x as int),
            final(self).max_scroll_y == max_scroll(area_height as int, inner_height as int, old(self).scale_y as int),
            final(self).scroll_x == clamp_scroll(
                clamp_i32(entity.location.x + half_toward_zero(entity.size.width as int) - half_toward_zero(tdiv(inner_width as int, old(self).scale_x as int))),
                final(self).max_scroll_x as int,
            ),
            final(self).scroll_y == clamp_scroll(
                clamp_i32(entity.location.y + half_toward_zero(entity.size.height as int) - half_toward_zero(tdiv(inner_height as int, old(self).scale_y as int))),
                final(self).max_scroll_y as int,
            ),
    {
        self.recompute_max_scroll(area_width, area_height, inner_width, inner_height);
        let x: i64 = entity.location.x as i64 + (entity.size.width / 2) as i64 - ((inner_width / self.scale_x) / 2) as i64;
        let y: i64 = entity.location.y as i64 + (entity.size.height / 2) as i64 - ((inner_height / self.scale_y) / 2) as i64;
        self.set_scroll(clamp_i64(x), clamp_i64(y));
    }

    /// The screen position for the hover widget of an object at `(x, y)`
    /// with the given size: centred below it.
    pub fn get_mouseover_pos(&self, x: i32, y: i32, width: i32, height: i32) -> (r: (i32, i32))
        requires
            self.wf(),
        ensures
            r == self.spec_mouseover_pos(x as int, y as int, width as int, height as int),
    {
        let ax: i64 = x as i64 + (width / 2) as i64 - self.scroll_x as i64;
        let ay: i64 = y as i64 + height as i64 - self.scroll_y as i64;
        (clamp_mul(ax, self.scale_x), clamp_mul(ay, self.scale_y))
    }

    /// The area tile under the cursor at `(cursor_x, cursor_y)`, for a view
    /// whose inner rectangle starts at `(pos_x, pos_y)`.
    pub fn get_cursor_pos(&self, cursor_x: i32, cursor_y: i32, pos_x: i32, pos_y: i32) -> (r: (i32, i32))
        requires
            self.wf(),
        ensures
            r.0 == clamp_i32((cursor_x - pos_x) / self.scale_x as int + self.scroll_x),
            r.1 == clamp_i32((cursor_y - pos_y) / self.scale_y as int + self.scroll_y),
    {
        let (x, y) = self.get_cursor_pos_scaled(cursor_x, cursor_y, pos_x, pos_y);
        (clamp_i64(x + self.scroll_x as i64), clamp_i64(y + self.scroll_y as i64))
    }

    /// The cursor's offset from `(pos_x, pos_y)` in tiles, rounded down.
    pub fn get_cursor_pos_scaled(&self, cursor_x: i32, cursor_y: i32, pos_x: i32, pos_y: i32) -> (r: (i64, i64))
        requires
            self.wf(),
        ensures
            r.0 == (cursor_x - pos_x) / self.scale_x as int,
            r.1 == (cursor_y - pos_y) / self.scale_y as int,
            -0x1_0000_0000 <= r.0 <= 0x1_0000_0000,
            -0x1_0000_0000 <= r.1 <= 0x1_0000_0000,
    {
        let x = floor_div(cursor_x as i64 - pos_x as i64, self.scale_x as i64);
        let y = floor_div(cursor_y as i64 - pos_y as i64, self.scale_y as i64);
        (x, y)
    }

    /// Rasterizes the cached window of `layer` into texture `texture_id`.
    pub fn draw_layer_to_texture(&self, layer: &Layer, texture_id: TextureId) -> (r: RenderCommand)
        requires
            layer.wf(),
        ensures
            rasterizes_into(r, texture_id, layer_window_quads(*layer)),
    {
        let mut draw_list = DrawList::empty();
        draw_list.quads = layer_quads(layer);
        AreaView::draw_list_to_texture(draw_list, texture_id)
    }

    /// Clears the visibility texture and rasterizes into it an opaque tile
    /// for every tile of the cached window the party cannot see.
    pub fn draw_visibility_to_texture(&self, area: &AreaState) -> (r: Vec<RenderCommand>)
        requires
            area.wf(),
        ensures
            r@.len() == 2,
            r@[0] == RenderCommand::ClearTexture(TextureId::Visibility),
            rasterizes_into(r@[1], TextureId::Visibility, fog_window_quads(*area)),
    {
        let mut draw_list = DrawList::empty();
        draw_list.quads = fog_quads(area);
        let mut cmds: Vec<RenderCommand> = Vec::new();
        cmds.push(RenderCommand::ClearTexture(TextureId::Visibility));
        cmds.push(AreaView::draw_list_to_texture(draw_list, TextureId::Visibility));
        cmds
    }

    /// The command rasterizing `draw_list` into `texture_id`, with linear
    /// filtering.
    pub fn draw_list_to_texture(draw_list: DrawList, texture_id: TextureId) -> (r: RenderCommand)
        ensures
            rasterizes_into(r, texture_id, draw_list.quads@),
    {
        let mut draw_list = draw_list;
        draw_list.linear = true;
        RenderCommand::DrawToTexture(texture_id, draw_list)
    }

    /// The command drawing cached texture `id` at the view's inner position,
    /// shifted by the scroll offsets.
    pub fn draw_layer(&self, pos_x: i32, pos_y: i32, id: TextureId) -> (r: RenderCommand)
        ensures
            layer_draw_ok(r, id, pos_x - self.scroll_x, pos_y - self.scroll_y, self.scale_x, self.scale_y),
    {
        let mut draw_list = DrawList::empty();
        draw_list.quads.push(Quad {
            source: Source::Texture(id),
            x: clamp_i64(pos_x as i64 - self.scroll_x as i64),
            y: clamp_i64(pos_y as i64 - self.scroll_y as i64),
            w: CACHE_TILES,
            h: CACHE_TILES,
        });
        draw_list.scale_x = self.scale_x;
        draw_list.scale_y = self.scale_y;
        assert(draw_list.quads@ =~= seq![draw_list.quads@[0]]);
        RenderCommand::Draw(draw_list)
    }

    /// Draws the props, then every entity the party sees, over the terrain,
    /// each batch only when it holds something.
    pub fn draw_entities(&self, pos_x: i32, pos_y: i32, area: &AreaState, cmds: &mut Vec<RenderCommand>)
        requires
            area.wf(),
            forall|i: int| 0 <= i < area.entities@.len() && entity_seen(*area, #[trigger] area.entities@[i])
                ==> area.entities@[i].spec_slot() is Some,
        ensures
            entity_quads(*area, area.entities@.len() as int,
                clamp_i32(pos_x - self.scroll_x) as i32, clamp_i32(pos_y - self.scroll_y) as i32).len()
                == seen_count(*area, area.entities@.len() as int),
            ({
                let n = old(cmds)@.len() as int;
                let r = final(cmds)@;
                let pq = prop_quads(area.props@, pos_x - self.scroll_x, pos_y - self.scroll_y);
                let eq = entity_quads(*area, area.entities@.len() as int,
                    clamp_i32(pos_x - self.scroll_x) as i32, clamp_i32(pos_y - self.scroll_y) as i32);
                let k = n + if pq.len() == 0 { 0int } else { 1int };
                &&& n <= k <= r.len()
                &&& r.subrange(0, n) == old(cmds)@
                &&& batch_ok(r.subrange(n, k), pq, self.scale_x, self.scale_y)
                &&& batch_ok(r.subrange(k, r.len() as int), eq, self.scale_x, self.scale_y)
            }),
            count_rasterizations(final(cmds)@) == count_rasterizations(old(cmds)@),
    {
        let ox: i64 = pos_x as i64 - self.scroll_x as i64;
        let oy: i64 = pos_y as i64 - self.scroll_y as i64;
        let mut props = DrawList::empty();
        props.scale_x = self.scale_x;
        props.scale_y = self.scale_y;
        let mut i: usize = 0;
        while i < area.props.len()
            invariant
                i <= area.props@.len(),
                props.quads@ == prop_quads(area.props@.subrange(0, i as int), ox as int, oy as int),
                props.scale_x == self.scale_x && props.scale_y == self.scale_y && !props.red,
                ox == pos_x - self.scroll_x,
                oy == pos_y - self.scroll_y,
            decreases area.props@.len() - i,
        {
            let p = area.props[i];
            props.quads.push(Quad {
                source: Source::Sprite(p.sprite),
                x: clamp_i64(p.x as i64 + ox),
                y: clamp_i64(p.y as i64 + oy),
                w: p.width,
                h: p.height,
            });
            assert(area.props@.subrange(0, i + 1).drop_last() =~= area.props@.subrange(0, i as int));
            i = i + 1;
        }
        assert(area.props@.subrange(0, area.props@.len() as int) =~= area.props@);
        let ghost n = cmds@.len();
        let has_props = props.quads.len() > 0;
        if has_props {
            push_cmd(cmds, RenderCommand::Draw(props));
        }
        let ex = clamp_i64(ox);
        let ey = clamp_i64(oy);
        let mut ents = DrawList::empty();
        ents.scale_x = self.scale_x;
        ents.scale_y = self.scale_y;
        let mut j: usize = 0;
        while j < area.entities.len()
            invariant
                area.wf(),
                j <= area.entities@.len(),
                ents.quads@ == entity_quads(*area, j as int, ex, ey),
                ents.scale_x == self.scale_x && ents.scale_y == self.scale_y && !ents.red,
            decreases area.entities@.len() - j,
        {
            let e = &area.entities[j];
            if is_entity_seen(area, e) {
                match e.draw(ex, ey) {
                    Some(q) => {
                        ents.quads.push(q);
                    },
                    None => {},
                }
            }
            j = j + 1;
        }
        proof { lemma_every_seen_entity_drawn(*area, area.entities@.len() as int, ex, ey); }
        let ghost k = cmds@.len();
        if ents.quads.len() > 0 {
            push_cmd(cmds, RenderCommand::Draw(ents));
        }
        proof {
            assert(cmds@.subrange(0, n as int) =~= old(cmds)@);
            assert(cmds@.subrange(n as int, k as int) =~= if has_props { seq![cmds@[n as int]] } else { Seq::empty() });
            assert(cmds@.subrange(k as int, cmds@.len() as int) =~= if k < cmds@.len() { seq![cmds@[k as int]] } else { Seq::empty() });
        }
    }

    /// Draws the area for one frame. Centres the view on an entity when
    /// asked to; rasterizes the terrain textures when they are invalid (area
    /// loaded or changed) and the fog of war when the visibility changed;
    /// gives every entity in sight its texture slot, drawn or redrawn as
    /// needed; then draws the base terrain, the transitions, the props, every
    /// entity in sight, the aerial terrain, the fog of war and the hover
    /// sprite, in that order.
    #[verifier::rlimit(60)]
    pub fn draw_graphics_mode(
        &mut self,
        area: &mut AreaState,
        texture_cache: &mut EntityTextureCache,
        inner: &Rect,
        scale_x: i32,
        scale_y: i32,
        present: TexturePresence,
    ) -> (r: Vec<RenderCommand>)
        requires
            old(self).wf(),
            old(area).wf(),
            old(texture_cache).slots_used + old(area).entities@.len() <= usize::MAX,
            scale_x >= 1,
            scale_y >= 1,
        ensures
            final(self).wf(),
            !final(self).cache_invalid,
            !final(area).pc_vis_cache_invalid,
            final(area).scroll_to is None,
            *final(area) == (AreaState {
                entities: final(area).entities,
                pc_vis_cache_invalid: false,
                scroll_to: None,
                ..*old(area)
            }),
            slots_cached(*old(area), *final(area)),
            entity_quads(*final(area), old(area).entities@.len() as int,
                clamp_i32(inner.x - final(self).scroll_x) as i32, clamp_i32(inner.y - final(self).scroll_y) as i32).len()
                == seen_count(*final(area), old(area).entities@.len() as int),
            final(self).scale_x == scale_x && final(self).scale_y == scale_y,
            final(self).layers == old(self).layers,
            final(self).hover_sprite == old(self).hover_sprite,
            final(self).mouse_over == old(self).mouse_over,
            match old(area).scroll_to {
                Some(e) => {
                    let ent = old(area).entities@[e as int];
                    &&& final(self).max_scroll_x == max_scroll(old(area).width as int, inner.width as int, scale_x as int)
                    &&& final(self).max_scroll_y == max_scroll(old(area).height as int, inner.height as int, scale_y as int)
                    &&& final(self).scroll_x == clamp_scroll(
                        clamp_i32(ent.location.x + half_toward_zero(ent.size.width as int) - half_toward_zero(tdiv(inner.width as int, scale_x as int))),
                        final(self).max_scroll_x as int)
                    &&& final(self).scroll_y == clamp_scroll(
                        clamp_i32(ent.location.y + half_toward_zero(ent.size.height as int) - half_toward_zero(tdiv(inner.height as int, scale_y as int))),
                        final(self).max_scroll_y as int)
                },
                None => {
                    &&& final(self).scroll_x == old(self).scroll_x && final(self).scroll_y == old(self).scroll_y
                    &&& final(self).max_scroll_x == old(self).max_scroll_x && final(self).max_scroll_y == old(self).max_scroll_y
                },
            },
            count_rasterizations(r@) == (if old(self).cache_invalid { old(area).layers@.len() as int } else { 0int })
                + if old(area).pc_vis_cache_invalid { 1int } else { 0int },
            old(self).cache_invalid ==> {
                &&& r@.len() >= 3 + old(area).layers@.len()
                &&& prepare_cmd_ok(r@[0], TextureId::Visibility, present.visibility)
                &&& prepare_cmd_ok(r@[1], TextureId::BaseLayer, present.base)
                &&& prepare_cmd_ok(r@[2], TextureId::AerialLayer, present.aerial)
                &&& forall|i: int| 0 <= i < old(area).layers@.len() ==> rasterizes_into(
                    #[trigger] r@[3 + i],
                    layer_target(i, old(area).entity_layer_index as int),
                    layer_window_quads(old(area).layers@[i]),
                )
            },
            ({
                let v = if old(self).cache_invalid { 3 + old(area).layers@.len() as int } else { 0int };
                old(area).pc_vis_cache_invalid ==> {
                    &&& r@.len() >= v + 2
                    &&& r@[v] == RenderCommand::ClearTexture(TextureId::Visibility)
                    &&& rasterizes_into(r@[v + 1], TextureId::Visibility, fog_window_quads(*old(area)))
                }
            }),
            ({
                let u = (if old(self).cache_invalid { 3 + old(area).layers@.len() as int } else { 0int })
                    + if old(area).pc_vis_cache_invalid { 2int } else { 0int };
                let ox = inner.x - final(self).scroll_x;
                let oy = inner.y - final(self).scroll_y;
                &&& u <= r@.len()
                &&& frame_draws_ok(
                    r@.subrange(u, r@.len() as int),
                    ox,
                    oy,
                    scale_x,
                    scale_y,
                    transition_quads(old(area).transitions@, ox, oy),
                    prop_quads(old(area).props@, ox, oy),
                    entity_quads(*final(area), old(area).entities@.len() as int, clamp_i32(ox) as i32, clamp_i32(oy) as i32),
                    old(self).hover_sprite,
                )
                &&& forall|i: int| u <= i < r@.len() ==> (#[trigger] r@[i]) is Draw
            }),
    {
        self.scale_x = scale_x;
        self.scale_y = scale_y;
        match area.pop_scroll_to_callback() {
            None => {},
            Some(e) => {
                self.center_scroll_on(&area.entities[e], area.width, area.height, inner.width, inner.height);
            },
        }
        let ghost area0 = *area;
        let mut cmds: Vec<RenderCommand> = Vec::new();
        if self.cache_invalid {
            push_cmd(&mut cmds, if present.visibility {
                RenderCommand::ClearTexture(TextureId::Visibility)
            } else {
                RenderCommand::RegisterTexture(TextureId::Visibility)
            });
            push_cmd(&mut cmds, if present.base {
                RenderCommand::ClearTexture(TextureId::BaseLayer)
            } else {
                RenderCommand::RegisterTexture(TextureId::BaseLayer)
            });
            push_cmd(&mut cmds, if present.aerial {
                RenderCommand::ClearTexture(TextureId::AerialLayer)
            } else {
                RenderCommand::RegisterTexture(TextureId::AerialLayer)
            });
            let mut index: usize = 0;
            while index < area.layers.len()
                invariant
                    *area == area0,
                    area.wf(),
                    index <= area.layers@.len(),
                    cmds@.len() == 3 + index,
                    count_rasterizations(cmds@) == index,
                    prepare_cmd_ok(cmds@[0], TextureId::Visibility, present.visibility),
                    prepare_cmd_ok(cmds@[1], TextureId::BaseLayer, present.base),
                    prepare_cmd_ok(cmds@[2], TextureId::AerialLayer, present.aerial),
                    forall|i: int| 0 <= i < index ==> rasterizes_into(
                        #[trigger] cmds@[3 + i],
                        layer_target(i, area.entity_layer_index as int),
                        layer_window_quads(area.layers@[i]),
                    ),
                decreases area.layers@.len() - index,
            {
                let target = if index <= area.entity_layer_index {
                    TextureId::BaseLayer
                } else {
                    TextureId::AerialLayer
                };
                let c = self.draw_layer_to_texture(&area.layers[index], target);
                push_cmd(&mut cmds, c);
                index = index + 1;
            }
            self.cache_invalid = false;
        }
        if area.pc_vis_cache_invalid {
            let mut vis = self.draw_visibility_to_texture(area);
            let c1 = vis.pop().unwrap();
            let c0 = vis.pop().unwrap();
            push_cmd(&mut cmds, c0);
            push_cmd(&mut cmds, c1);
            area.pc_vis_cache_invalid = false;
        }
        let _redrawn = cache_entities(area, texture_cache);
        proof {
            lemma_every_seen_entity_drawn(*area, area.entities@.len() as int,
                clamp_i32(inner.x - self.scroll_x) as i32, clamp_i32(inner.y - self.scroll_y) as i32);
        }
        let ghost c_vis = cmds@;
        self.draw_frame(area, inner.x, inner.y, &mut cmds);
        proof {
            assert(cmds@.subrange(0, c_vis.len() as int) == c_vis);
            assert forall|i: int| 0 <= i < c_vis.len() implies #[trigger] cmds@[i] == c_vis[i] by {
                assert(cmds@.subrange(0, c_vis.len() as int)[i] == c_vis[i]);
            }
        }
        cmds
    }

    /// Appends the drawing part of a frame to `cmds` (see `frame_draws_ok`).
    #[verifier::rlimit(60)]
    fn draw_frame(&self, area: &AreaState, px: i32, py: i32, cmds: &mut Vec<RenderCommand>)
        requires
            area.wf(),
            forall|i: int| 0 <= i < area.entities@.len() && entity_seen(*area, #[trigger] area.entities@[i])
                ==> area.entities@[i].spec_slot() is Some,
        ensures
            old(cmds)@.len() <= final(cmds)@.len(),
            final(cmds)@.subrange(0, old(cmds)@.len() as int) == old(cmds)@,
            frame_draws_ok(
                final(cmds)@.subrange(old(cmds)@.len() as int, final(cmds)@.len() as int),
                px - self.scroll_x,
                py - self.scroll_y,
                self.scale_x,
                self.scale_y,
                transition_quads(area.transitions@, px - self.scroll_x, py - self.scroll_y),
                prop_quads(area.props@, px - self.scroll_x, py - self.scroll_y),
                entity_quads(*area, area.entities@.len() as int, clamp_i32(px - self.scroll_x) as i32, clamp_i32(py - self.scroll_y) as i32),
                self.hover_sprite,
            ),
            forall|i: int| old(cmds)@.len() <= i < final(cmds)@.len() ==> (#[trigger] final(cmds)@[i]) is Draw,
            count_rasterizations(final(cmds)@) == count_rasterizations(old(cmds)@),
    {
        let ghost c0 = cmds@;
        let ghost u = cmds@.len();
        push_cmd(cmds, self.draw_layer(px, py, TextureId::BaseLayer));
        let transitions = self.transition_list(px, py, area);
        let ghost tq = transitions.quads@;
        if transitions.quads.len() > 0 {
            push_cmd(cmds, RenderCommand::Draw(transitions));
        }
        let ghost before_ents = cmds@;
        self.draw_entities(px, py, area, cmds);
        let ghost after_ents = cmds@;
        let aerial = self.draw_layer(px, py, TextureId::AerialLayer);
        push_cmd(cmds, aerial);
        let fog = self.draw_layer(px, py, TextureId::Visibility);
        push_cmd(cmds, fog);
        if let Some(hover) = self.hover_sprite {
            let mut hl = DrawList::empty();
            hl.quads.push(Quad {
                source: Source::Sprite(hover.sprite),
                x: clamp_i64(hover.x as i64 + px as i64 - self.scroll_x as i64),
                y: clamp_i64(hover.y as i64 + py as i64 - self.scroll_y as i64),
                w: hover.w,
                h: hover.h,
            });
            hl.red = !hover.left_click_action_valid;
            hl.scale_x = self.scale_x;
            hl.scale_y = self.scale_y;
            assert(hl.quads@ =~= seq![hl.quads@[0]]);
            push_cmd(cmds, RenderCommand::Draw(hl));
        }
        proof {
            let r = cmds@;
            let n = r.len() as int;
            let ui = u as int;
            let t = if tq.len() == 0 { 0int } else { 1int };
            let be = before_ents.len() as int;
            let ae = after_ents.len() as int;
            assert(be == ui + 1 + t);
            assert forall|i: int| 0 <= i < ui implies #[trigger] r[i] == c0[i] by {
                assert(after_ents.subrange(0, be)[i] == before_ents[i]);
            }
            assert(r.subrange(0, ui) =~= c0);
            let d = r.subrange(ui, n);
            assert(after_ents.subrange(0, be)[ui] == before_ents[ui]);
            assert(d[0] == before_ents[ui]);
            assert forall|i: int| ui < i < be implies #[trigger] r[i] == before_ents[i] by {
                assert(after_ents.subrange(0, be)[i] == before_ents[i]);
            }
            assert(d.subrange(1, 1 + t) =~= before_ents.subrange(ui + 1, be));
            let ox = px - self.scroll_x;
            let oy = py - self.scroll_y;
            let pq = prop_quads(area.props@, ox, oy);
            let eq = entity_quads(*area, area.entities@.len() as int, clamp_i32(ox) as i32, clamp_i32(oy) as i32);
            let p = if pq.len() == 0 { 0int } else { 1int };
            assert(d.subrange(1 + t, 1 + t + p) =~= after_ents.subrange(be, be + p));
            assert(d.subrange(1 + t + p, ae - ui) =~= after_ents.subrange(be + p, ae));
            assert(d[ae - ui] == r[ae]);
            assert(d[ae - ui + 1] == r[ae + 1]);
            assert forall|i: int| ui <= i < n implies (#[trigger] r[i]) is Draw by {
                if i == ui {
                } else if i < be {
                    assert(before_ents.subrange(ui + 1, be)[i - ui - 1] == r[i]);
                } else if i < ae {
                    lemma_batches_draw(after_ents.subrange(be, ae), i - be, pq, eq, self.scale_x, self.scale_y);
                    assert(after_ents.subrange(be, ae)[i - be] == r[i]);
                } else {
                }
            }
        }
    }

    /// The batch drawing the area's transitions at the view's position.
    pub fn transition_list(&self, px: i32, py: i32, area: &AreaState) -> (r: DrawList)
        ensures
            r.quads@.len() == area.transitions@.len(),
            r.scale_x == self.scale_x && r.scale_y == self.scale_y,
            !r.red,
            r.quads@ == transition_quads(area.transitions@, px - self.scroll_x, py - self.scroll_y),
            forall|i: int| 0 <= i < area.transitions@.len() ==> #[trigger] r.quads@[i] == (Quad {
                source: Source::Sprite(area.transitions@[i].sprite),
                x: clamp_i32(area.transitions@[i].x + px - self.scroll_x) as i32,
                y: clamp_i32(area.transitions@[i].y + py - self.scroll_y) as i32,
                w: area.transitions@[i].width,
                h: area.transitions@[i].height,
            }),
    {
        let mut transitions = DrawList::empty();
        transitions.scale_x = self.scale_x;
        transitions.scale_y = self.scale_y;
        let mut t: usize = 0;
        while t < area.transitions.len()
            invariant
                t <= area.transitions@.len(),
                transitions.quads@.len() == t,
                transitions.scale_x == self.scale_x && transitions.scale_y == self.scale_y,
                !transitions.red,
                forall|i: int| 0 <= i < t ==> #[trigger] transitions.quads@[i] == (Quad {
                    source: Source::Sprite(area.transitions@[i].sprite),
                    x: clamp_i32(area.transitions@[i].x + px - self.scroll_x) as i32,
                    y: clamp_i32(area.transitions@[i].y + py - self.scroll_y) as i32,
                    w: area.transitions@[i].width,
                    h: area.transitions@[i].height,
                }),
            decreases area.transitions@.len() - t,
        {
            let tr = area.transitions[t];
            transitions.quads.push(Quad {
                source: Source::Sprite(tr.sprite),
                x: clamp_i64(tr.x as i64 + px as i64 - self.scroll_x as i64),
                y: clamp_i64(tr.y as i64 + py as i64 - self.scroll_y as i64),
                w: tr.width,
                h: tr.height,
            });
            t = t + 1;
        }
        assert(transitions.quads@ =~= transition_quads(area.transitions@, px - self.scroll_x, py - self.scroll_y));
        transitions
    }

    /// Prepares the view for the area being shown: blank coordinates in the
    /// hover label, the area's layer ids, and terrain textures to rebuild.
    pub fn on_add(&mut self, tree: &mut WidgetTree, area: &AreaState)
        requires
            old(self).wf(),
            old(tree).wf(),
            old(tree).alive(old(self).mouse_over as int),
        ensures
            final(self).wf(),
            final(tree).wf(),
            final(tree).len() == old(tree).len(),
            final(self).hover_sprite is None,
            final(self).cache_invalid,
            final(self).layers@.len() == old(self).layers@.len() + area.layers@.len(),
            forall|i: int| 0 <= i < area.layers@.len() ==> (#[trigger] final(self).layers@[old(self).layers@.len() + i])@ == area.layers@[i].id@,
            final(tree).node(old(self).mouse_over as int).state.arg("0"@) == Some(Seq::<char>::empty()),
            final(tree).node(old(self).mouse_over as int).state.arg("1"@) == Some(Seq::<char>::empty()),
            final(self).mouse_over == old(self).mouse_over,
            final(self).scroll_x == old(self).scroll_x && final(self).scroll_y == old(self).scroll_y,
    {
        self.hover_sprite = None;
        proof {
            reveal_strlit("0");
            reveal_strlit("1");
            reveal_strlit("");
        }
        tree.add_text_arg(self.mouse_over, "0", "");
        tree.add_text_arg(self.mouse_over, "1", "");
        let ghost l0 = self.layers@;
        let ghost m0 = self.mouse_over;
        let ghost s0 = (self.scroll_x, self.scroll_y);
        let mut i: usize = 0;
        while i < area.layers.len()
            invariant
                i <= area.layers@.len(),
                self.hover_sprite is None,
                self.mouse_over == m0,
                (self.scroll_x, self.scroll_y) == s0,
                self.layers@.len() == l0.len() + i,
                forall|j: int| 0 <= j < l0.len() ==> #[trigger] self.layers@[j] == l0[j],
                forall|j: int| 0 <= j < i ==> (#[trigger] self.layers@[l0.len() + j])@ == area.layers@[j].id@,
                self.wf(),
            decreases area.layers@.len() - i,
        {
            self.layers.push(area.layers[i].id.clone());
            i = i + 1;
        }
        self.cache_invalid = true;
    }

    /// Handles a released mouse button at the cursor position. Off the
    /// area's top or left edge nothing happens. A left click shows the
    /// hover widget for the entity clicked, if any; a right click opens the
    /// action menu for the tile as a child of the view. The event is always
    /// consumed.
    pub fn on_mouse_release(&mut self, tree: &mut WidgetTree, widget: usize, area: &AreaState, kind: ClickKind, cursor_x: i32, cursor_y: i32) -> (consumed: bool)
        requires
            old(self).wf(),
            old(tree).wf(),
            old(tree).alive(widget as int),
            !old(tree).node(widget as int).kind.is_hover(),
            old(tree).len() < usize::MAX,
        ensures
            consumed,
            final(tree).wf(),
            ({
                let inner = old(tree).node(widget as int).state.inner;
                let x = clamp_i32((cursor_x - inner.x) / old(self).scale_x as int + old(self).scroll_x);
                let y = clamp_i32((cursor_y - inner.y) / old(self).scale_y as int + old(self).scroll_y);
                let n = old(tree).len();
                &&& *final(self) == (AreaView {
                    default_action: if x >= 0 && y >= 0 && kind == ClickKind::Left {
                        Some((x as i32, y as i32))
                    } else {
                        old(self).default_action
                    },
                    ..*old(self)
                })
                &&& if x < 0 || y < 0 {
                    *final(tree) == *old(tree)
                } else if kind == ClickKind::Right {
                    &&& final(tree).len() == n + 1
                    &&& final(tree).node(n).kind == WidgetKind::ActionMenu(x as i32, y as i32)
                    &&& final(tree).node(n).parent == Some(widget)
                    &&& final(tree).node(n).state.sizing == Sizing::new_spec(x as i32, y as i32, 0, 0)
                    &&& final(tree).children_of(widget as int) == old(tree).children_of(widget as int).push(n as usize)
                    &&& forall|i: int| 0 <= i < n && i != widget ==> #[trigger] final(tree).node(i) == old(tree).node(i)
                } else if kind == ClickKind::Left && area.spec_entity_at(x, y) is Some {
                    let e = area.entities@[area.spec_entity_at(x, y)->0];
                    &&& old(tree).replaced_hover(final(tree), WidgetKind::EntityMouseover(area.spec_entity_at(x, y)->0 as usize), n as usize)
                    &&& final(tree).node(n).state.sizing == old(self).hover_sizing(e.location.x as int, e.location.y as int, e.size.width as int, e.size.height as int)
                } else {
                    *final(tree) == *old(tree)
                }
            }),
    {
        let inner = tree.nodes[widget].state.inner;
        let (x, y) = self.get_cursor_pos(cursor_x, cursor_y, inner.x, inner.y);
        if x < 0 || y < 0 {
            return true;
        }
        match kind {
            ClickKind::Left => {
                self.default_action = Some((x, y));
                if let Some(e) = area.get_entity_at(x, y) {
                    let ent = &area.entities[e];
                    let (mx, my) = self.get_mouseover_pos(ent.location.x, ent.location.y, ent.size.width, ent.size.height);
                    tree.set_mouse_over(WidgetKind::EntityMouseover(e), Sizing::new(mx, my, 0, 0));
                }
            },
            ClickKind::Right => {
                tree.add_child(widget, WidgetKind::ActionMenu(x, y), "action_menu", Sizing::new(x, y, 0, 0));
            },
            ClickKind::Middle => {},
        }
        true
    }

    /// Handles a drag: with the middle button held, scrolls against the
    /// drag, within the limits for the area and viewport sizes given. The
    /// event is always consumed.
    pub fn on_mouse_drag(&mut self, kind: ClickKind, delta_x: i32, delta_y: i32, area_width: i32, area_height: i32, inner_width: i32, inner_height: i32) -> (consumed: bool)
        requires
            old(self).wf(),
        ensures
            consumed,
            final(self).wf(),
            old(self).same_but_scroll(final(self)),
            final(self).max_scroll_x == max_scroll(area_width as int, inner_width as int, old(self).scale_x as int),
            final(self).max_scroll_y == max_scroll(area_height as int, inner_height as int, old(self).scale_y as int),
            kind == ClickKind::Middle ==> final(self).scroll_x == clamp_scroll(clamp_i32(old(self).scroll_x - delta_x), final(self).max_scroll_x as int)
                && final(self).scroll_y == clamp_scroll(clamp_i32(old(self).scroll_y - delta_y), final(self).max_scroll_y as int),
            kind != ClickKind::Middle ==> final(self).scroll_x == old(self).scroll_x && final(self).scroll_y == old(self).scroll_y,
    {
        self.recompute_max_scroll(area_width, area_height, inner_width, inner_height);
        if let ClickKind::Middle = kind {
            let x = clamp_i64(self.scroll_x as i64 - delta_x as i64);
            let y = clamp_i64(self.scroll_y as i64 - delta_y as i64);
            self.set_scroll(x, y);
        }
        true
    }

    /// Handles the cursor moving over the area: the hover label shows the
    /// tile coordinates, the hover widget is replaced by one for the entity
    /// or else the prop under the cursor, and the hover sprite, the size of
    /// the party leader `pc_size` tiles wide, is centred on the tile. The
    /// event is always consumed.
    pub fn on_mouse_move(
        &mut self,
        tree: &mut WidgetTree,
        widget: usize,
        area: &AreaState,
        cursor_x: i32,
        cursor_y: i32,
        cursor_sprite: usize,
        pc_size: i32,
        left_click_action_valid: bool,
    ) -> (consumed: bool)
        requires
            old(self).wf(),
            old(tree).wf(),
            old(tree).alive(widget as int),
            old(tree).alive(old(self).mouse_over as int),
            !old(tree).node(old(self).mouse_over as int).kind.is_hover(),
            old(tree).len() < usize::MAX,
        ensures
            consumed,
            final(self).wf(),
            final(tree).wf(),
            ({
                let inner = old(tree).node(widget as int).state.inner;
                let x = clamp_i32((cursor_x - inner.x) / old(self).scale_x as int + old(self).scroll_x);
                let y = clamp_i32((cursor_y - inner.y) / old(self).scale_y as int + old(self).scroll_y);
                let label = final(tree).node(old(self).mouse_over as int).state;
                &&& label.text_args@.len() == 2
                &&& label.arg("0"@) == Some(decimal(x))
                &&& label.arg("1"@) == Some(decimal(y))
                &&& final(self).hover_sprite == Some(HoverSprite {
                    sprite: cursor_sprite,
                    x: clamp_i32(x - half_toward_zero(pc_size as int)) as i32,
                    y: clamp_i32(y - half_toward_zero(pc_size as int)) as i32,
                    w: pc_size,
                    h: pc_size,
                    left_click_action_valid,
                })
                &&& final(tree).node(old(self).mouse_over as int).layout_invalid
                &&& match area.spec_entity_at(x, y) {
                    Some(e) => {
                        let ent = area.entities@[e];
                        &&& old(tree).replaced_hover(final(tree), WidgetKind::EntityMouseover(e as usize), old(tree).len() as usize)
                        &&& final(tree).node(old(tree).len()).state.sizing == old(self).hover_sizing(
                            ent.location.x as int, ent.location.y as int, ent.size.width as int, ent.size.height as int)
                    },
                    None => match area.spec_prop_at(x, y) {
                        Some(p) => {
                            let prop = area.props@[p];
                            &&& old(tree).replaced_hover(final(tree), WidgetKind::PropMouseover(p as usize), old(tree).len() as usize)
                            &&& final(tree).node(old(tree).len()).state.sizing == old(self).hover_sizing(
                                prop.x as int, prop.y as int, prop.width as int, prop.height as int)
                        },
                        None => {
                            &&& final(tree).mouse_over == old(tree).mouse_over
                            &&& final(tree).len() == old(tree).len()
                        },
                    },
                }
            }),
            *final(self) == (AreaView { hover_sprite: final(self).hover_sprite, ..*old(self) }),
    {
        let inner = tree.nodes[widget].state.inner;
        let (area_x, area_y) = self.get_cursor_pos(cursor_x, cursor_y, inner.x, inner.y);
        let label = self.mouse_over;
        let ghost t0 = *tree;
        tree.clear_text_args(label);
        proof {
            reveal_strlit("0");
            reveal_strlit("1");
        }
        let sx = int_to_string(area_x);
        let sy = int_to_string(area_y);
        tree.add_text_arg(label, "0", sx.as_str());
        proof {
            let a1 = tree.node(label as int).state.text_args@;
            assert(a1.len() == 1);
            assert(tree.node(label as int).state.arg("0"@) is Some);
            assert(crate::widget_state::has_key(a1, "0"@));
            assert(a1[0].key@ == "0"@);
            assert("0"@ != "1"@) by {
                assert("0"@[0] != "1"@[0]);
            }
            assert(!crate::widget_state::has_key(a1, "1"@));
        }
        tree.add_text_arg(label, "1", sy.as_str());
        proof {
            let st = tree.node(label as int).state;
            assert(st.text_args@.len() == 2);
        }
        tree.invalidate_layout(label);
        let ghost label_state = tree.node(label as int).state;
        assert(tree.mouse_over != Some(label));
        self.hover_sprite = None;
        if let Some(e) = area.get_entity_at(area_x, area_y) {
            let ent = &area.entities[e];
            let (mx, my) = self.get_mouseover_pos(ent.location.x, ent.location.y, ent.size.width, ent.size.height);
            tree.set_mouse_over(WidgetKind::EntityMouseover(e), Sizing::new(mx, my, 0, 0));
        } else if let Some(p) = area.prop_index_at(area_x, area_y) {
            let prop = area.props[p];
            let (mx, my) = self.get_mouseover_pos(prop.x, prop.y, prop.width, prop.height);
            tree.set_mouse_over(WidgetKind::PropMouseover(p), Sizing::new(mx, my, 0, 0));
        }
        proof {
            if label as int == 0 {
                assert(tree.node(0).state == label_state);
                assert(tree.node(0).layout_invalid);
            } else {
                assert(tree.node(label as int).state == label_state);
            }
        }
        self.hover_sprite = Some(HoverSprite {
            sprite: cursor_sprite,
            x: clamp_i64(area_x as i64 - (pc_size / 2) as i64),
            y: clamp_i64(area_y as i64 - (pc_size / 2) as i64),
            w: pc_size,
            h: pc_size,
            left_click_action_valid,
        });
        true
    }

    /// Handles the cursor leaving the area: the hover label is blanked and
    /// the hover sprite hidden. The event is always consumed.
    pub fn on_mouse_exit(&mut self, tree: &mut WidgetTree) -> (consumed: bool)
        requires
            old(self).wf(),
            old(tree).wf(),
            old(tree).alive(old(self).mouse_over as int),
        ensures
            consumed,
            final(self).wf(),
            final(tree).wf(),
            final(tree).node(old(self).mouse_over as int).state.text_args@.len() == 0,
            final(tree).node(old(self).mouse_over as int).state.same_but_args(&old(tree).node(old(self).mouse_over as int).state),
            final(tree).len() == old(tree).len(),
            final(tree).mouse_over == old(tree).mouse_over,
            forall|i: int| 0 <= i < old(tree).len() && i != old(self).mouse_over ==> #[trigger] final(tree).node(i) == old(tree).node(i),
            *final(self) == (AreaView { hover_sprite: None, ..*old(self) }),
    {
        tree.clear_text_args(self.mouse_over);
        self.hover_sprite = None;
        true
    }

    /// The part of a `width` by `height` grid that fits in a cached texture.
    pub fn get_texture_cache_max(width: i32, height: i32) -> (r: (i32, i32))
        ensures
            r.0 == if width < CACHE_TILES { width } else { CACHE_TILES },
            r.1 == if height < CACHE_TILES { height } else { CACHE_TILES },
    {
        let x = if width < CACHE_TILES { width } else { CACHE_TILES };
        let y = if height < CACHE_TILES { height } else { CACHE_TILES };
        (x, y)
    }
}

/// Which of the cached textures the renderer already holds.
#[derive(Clone, Copy, Debug, PartialEq, Eq, Structural)]
pub struct TexturePresence {
    pub visibility: bool,
    pub base: bool,
    pub aerial: bool,
}

/// The command that prepares texture `id` for rasterizing: cleared when the
/// renderer holds it, registered when not.
pub open spec fn prepare_cmd_ok(c: RenderCommand, id: TextureId, present: bool) -> bool {
    if present {
        c == RenderCommand::ClearTexture(id)
    } else {
        c == RenderCommand::RegisterTexture(id)
    }
}

/// `c` rasterizes exactly the quads `q` into texture `id`.
pub open spec fn rasterizes_into(c: RenderCommand, id: TextureId, q: Seq<Quad>) -> bool {
    match c {
        RenderCommand::DrawToTexture(t, l) => t == id && l.quads@ == q && l.linear,
        _ => false,
    }
}

/// The cached texture that terrain layer `index` goes to.
pub open spec fn layer_target(index: int, entity_layer_index: int) -> TextureId {
    if index <= entity_layer_index {
        TextureId::BaseLayer
    } else {
        TextureId::AerialLayer
    }
}

/// `c` draws the whole of cached texture `id` with its corner at `(x, y)`.
pub open spec fn layer_draw_ok(c: RenderCommand, id: TextureId, x: int, y: int, sx: i32, sy: i32) -> bool {
    match c {
        RenderCommand::Draw(l) => {
            &&& l.quads@ == seq![Quad {
                source: Source::Texture(id),
                x: clamp_i32(x) as i32,
                y: clamp_i32(y) as i32,
                w: CACHE_TILES,
                h: CACHE_TILES,
            }]
            &&& l.scale_x == sx
            &&& l.scale_y == sy
        },
        _ => false,
    }
}

/// `c` draws the hover sprite `h` offset by `(ox, oy)`, red when a left
/// click would do nothing.
pub open spec fn hover_draw_ok(c: RenderCommand, h: HoverSprite, ox: int, oy: int, sx: i32, sy: i32) -> bool {
    match c {
        RenderCommand::Draw(l) => {
            &&& l.quads@ == seq![Quad {
                source: Source::Sprite(h.sprite),
                x: clamp_i32(h.x + ox) as i32,
                y: clamp_i32(h.y + oy) as i32,
                w: h.w,
                h: h.h,
            }]
            &&& l.red == !h.left_click_action_valid
            &&& l.scale_x == sx
            &&& l.scale_y == sy
        },
        _ => false,
    }
}

/// The quads of the transitions, shifted by `(ox, oy)`.
pub open spec fn transition_quads(ts: Seq<crate::area::Transition>, ox: int, oy: int) -> Seq<Quad> {
    Seq::new(ts.len(), |i: int| Quad {
        source: Source::Sprite(ts[i].sprite),
        x: clamp_i32(ts[i].x + ox) as i32,
        y: clamp_i32(ts[i].y + oy) as i32,
        w: ts[i].width,
        h: ts[i].height,
    })
}

/// `d` is the drawing part of a frame, in order: the base terrain with its
/// corner at `(ox, oy)`, the transitions `tq`, the props `pq` and the
/// entities `eq` (each batch only when not empty), the aerial terrain, the
/// fog of war, and the hover sprite if there is one.
pub open spec fn frame_draws_ok(
    d: Seq<RenderCommand>,
    ox: int,
    oy: int,
    sx: i32,
    sy: i32,
    tq: Seq<Quad>,
    pq: Seq<Quad>,
    eq: Seq<Quad>,
    hover: Option<HoverSprite>,
) -> bool {
    let t = if tq.len() == 0 { 0int } else { 1int };
    let p = if pq.len() == 0 { 0int } else { 1int };
    let e = if eq.len() == 0 { 0int } else { 1int };
    let h = if hover is Some { 1int } else { 0int };
    let m = 1 + t + p + e;
    &&& d.len() == m + 2 + h
    &&& layer_draw_ok(d[0], TextureId::BaseLayer, ox, oy, sx, sy)
    &&& batch_ok(d.subrange(1, 1 + t), tq, sx, sy)
    &&& batch_ok(d.subrange(1 + t, 1 + t + p), pq, sx, sy)
    &&& batch_ok(d.subrange(1 + t + p, m), eq, sx, sy)
    &&& layer_draw_ok(d[m], TextureId::AerialLayer, ox, oy, sx, sy)
    &&& layer_draw_ok(d[m + 1], TextureId::Visibility, ox, oy, sx, sy)
    &&& match hover {
        Some(hs) => hover_draw_ok(d[m + 2], hs, ox, oy, sx, sy),
        None => true,
    }
}

/// Every command of two consecutive batches is a draw.
proof fn lemma_batches_draw(d: Seq<RenderCommand>, i: int, pq: Seq<Quad>, eq: Seq<Quad>, sx: i32, sy: i32)
    requires
        0 <= i < d.len(),
        ({
            let k = if pq.len() == 0 { 0int } else { 1int };
            &&& k <= d.len()
            &&& batch_ok(d.subrange(0, k), pq, sx, sy)
            &&& batch_ok(d.subrange(k, d.len() as int), eq, sx, sy)
        }),
    ensures
        d[i] is Draw,
{
    let k = if pq.len() == 0 { 0int } else { 1int };
    if i < k {
        assert(d.subrange(0, k)[i] == d[i]);
    } else {
        assert(d.subrange(k, d.len() as int)[i - k] == d[i]);
    }
}

/// The quads of a layer's cached window, row by row.
pub open spec fn layer_window_quads(layer: Layer) -> Seq<Quad> {
    let mx = if layer.width < CACHE_TILES { layer.width } else { CACHE_TILES };
    let my = if layer.height < CACHE_TILES { layer.height } else { CACHE_TILES };
    grid_quads(layer_cell(layer), mx as int, my as int)
}

/// The fog-of-war quads of an area's cached window, row by row.
pub open spec fn fog_window_quads(area: AreaState) -> Seq<Quad> {
    let mx = if area.width < CACHE_TILES { area.width } else { CACHE_TILES };
    let my = if area.height < CACHE_TILES { area.height } else { CACHE_TILES };
    grid_quads(fog_cell(area.width as int, area.height as int, area.pc_visible@, area.visibility_sprite), mx as int, my as int)
}

proof fn lemma_grid_step(f: spec_fn(int, int) -> Seq<Quad>, mx: int, ty: int, tx: int, q: Seq<Quad>, cell: Seq<Quad>)
    requires
        q == grid_quads(f, mx, ty) + row_quads(f, ty, tx),
        tx >= 0,
        cell == f(tx, ty),
    ensures
        q + cell == grid_quads(f, mx, ty) + row_quads(f, ty, tx + 1),
{
    assert(row_quads(f, ty, tx + 1) == row_quads(f, ty, tx) + f(tx, ty));
    assert(q + cell =~= grid_quads(f, mx, ty) + row_quads(f, ty, tx + 1));
}

proof fn lemma_grid_row(f: spec_fn(int, int) -> Seq<Quad>, mx: int, ty: int, q: Seq<Quad>)
    requires
        q == grid_quads(f, mx, ty) + row_quads(f, ty, mx),
        ty >= 0,
    ensures
        q == grid_quads(f, mx, ty + 1),
{
}

/// The quads of the cached window of `layer`: one per tile present.
fn layer_quads(layer: &Layer) -> (r: Vec<Quad>)
    requires
        layer.wf(),
    ensures
        r@ == layer_window_quads(*layer),
{
    let (mx, my) = AreaView::get_texture_cache_max(layer.width, layer.height);
    let ghost f = layer_cell(*layer);
    let mut quads: Vec<Quad> = Vec::new();
    let mut ty: i32 = 0;
    assert(quads@ =~= grid_quads(f, mx as int, 0));
    while ty < my
        invariant
            f == layer_cell(*layer),
            layer.wf(),
            0 <= ty <= my,
            my <= layer.height,
            mx <= layer.width,
            mx == (if layer.width < CACHE_TILES { layer.width } else { CACHE_TILES }),
            quads@ == grid_quads(f, mx as int, ty as int),
        decreases my - ty,
    {
        let mut tx: i32 = 0;
        assert(quads@ =~= grid_quads(f, mx as int, ty as int) + row_quads(f, ty as int, 0));
        while tx < mx
            invariant
                f == layer_cell(*layer),
                layer.wf(),
                0 <= ty < my,
                0 <= tx <= mx,
                my <= layer.height,
                mx <= layer.width,
                quads@ == grid_quads(f, mx as int, ty as int) + row_quads(f, ty as int, tx as int),
            decreases mx - tx,
        {
            let ghost q0 = quads@;
            match layer.tile_at(tx, ty) {
                Some(t) => {
                    quads.push(Quad { source: Source::Sprite(t.sprite), x: tx, y: ty, w: t.width, h: t.height });
                    proof {
                        lemma_grid_step(f, mx as int, ty as int, tx as int, q0, seq![quads@.last()]);
                        assert(quads@ =~= q0 + seq![quads@.last()]);
                    }
                },
                None => {
                    proof {
                        lemma_grid_step(f, mx as int, ty as int, tx as int, q0, Seq::empty());
                        assert(q0 + Seq::<Quad>::empty() =~= q0);
                    }
                },
            }
            tx = tx + 1;
        }
        proof { lemma_grid_row(f, mx as int, ty as int, quads@); }
        ty = ty + 1;
    }
    quads
}

/// The fog-of-war quads of the cached window of `area`: one per tile the
/// party cannot see.
fn fog_quads(area: &AreaState) -> (r: Vec<Quad>)
    requires
        area.wf(),
    ensures
        r@ == fog_window_quads(*area),
{
    let (mx, my) = AreaView::get_texture_cache_max(area.width, area.height);
    let ghost f = fog_cell(area.width as int, area.height as int, area.pc_visible@, area.visibility_sprite);
    let mut quads: Vec<Quad> = Vec::new();
    let mut ty: i32 = 0;
    assert(quads@ =~= grid_quads(f, mx as int, 0));
    while ty < my
        invariant
            f == fog_cell(area.width as int, area.height as int, area.pc_visible@, area.visibility_sprite),
            area.wf(),
            0 <= ty <= my,
            mx == (if area.width < CACHE_TILES { area.width } else { CACHE_TILES }),
            quads@ == grid_quads(f, mx as int, ty as int),
        decreases my - ty,
    {
        let mut tx: i32 = 0;
        assert(quads@ =~= grid_quads(f, mx as int, ty as int) + row_quads(f, ty as int, 0));
        while tx < mx
            invariant
                f == fog_cell(area.width as int, area.height as int, area.pc_visible@, area.visibility_sprite),
                area.wf(),
                0 <= ty < my,
                0 <= tx <= mx,
                quads@ == grid_quads(f, mx as int, ty as int) + row_quads(f, ty as int, tx as int),
            decreases mx - tx,
        {
            let ghost q0 = quads@;
            if area.is_pc_visible(tx, ty) {
                proof {
                    lemma_grid_step(f, mx as int, ty as int, tx as int, q0, Seq::empty());
                    assert(q0 + Seq::<Quad>::empty() =~= q0);
                }
            } else {
                quads.push(Quad { source: Source::Sprite(area.visibility_sprite), x: tx, y: ty, w: 1, h: 1 });
                proof {
                    lemma_grid_step(f, mx as int, ty as int, tx as int, q0, seq![quads@.last()]);
                    assert(quads@ =~= q0 + seq![quads@.last()]);
                }
            }
            tx = tx + 1;
        }
        proof { lemma_grid_row(f, mx as int, ty as int, quads@); }
        ty = ty + 1;
    }
    quads
}

/// True when the party sees at least one tile the entity covers.
pub open spec fn entity_seen(area: AreaState, e: EntityState) -> bool {
    exists|x: int, y: int| e.spec_covers(x, y) && area.spec_pc_visible(x, y)
}

/// The quads of the props, shifted by `(ox, oy)`.
pub open spec fn prop_quads(props: Seq<crate::area::PropState>, ox: int, oy: int) -> Seq<Quad>
    decreases props.len(),
{
    if props.len() == 0 {
        Seq::empty()
    } else {
        let p = props.last();
        prop_quads(props.drop_last(), ox, oy).push(Quad {
            source: Source::Sprite(p.sprite),
            x: clamp_i32(p.x + ox) as i32,
            y: clamp_i32(p.y + oy) as i32,
            w: p.width,
            h: p.height,
        })
    }
}

/// The quads of the first `n` entities that the party sees and that have a
/// texture slot, each drawn from its slot at offset `(ox, oy)`.
pub open spec fn entity_quads(area: AreaState, n: int, ox: i32, oy: i32) -> Seq<Quad>
    decreases n,
{
    if n <= 0 || n > area.entities@.len() {
        Seq::empty()
    } else {
        let e = area.entities@[n - 1];
        let rest = entity_quads(area, n - 1, ox, oy);
        if entity_seen(area, e) {
            match e.spec_slot() {
                Some(s) => rest.push(Quad {
                    source: Source::EntitySlot(s),
                    x: clamp_i32(ox + e.location.x) as i32,
                    y: clamp_i32(oy + e.location.y) as i32,
                    w: e.size.width,
                    h: e.size.height,
                }),
                None => rest,
            }
        } else {
            rest
        }
    }
}

/// What caching the slots of the first `n` entities does, starting with
/// `used` slots taken: the slots then taken, and the slots drawn into, in
/// entity order. An entity in sight without a slot gets the next free one,
/// drawn as it is reserved; one whose appearance changed is redrawn.
pub open spec fn cache_plan(area: AreaState, used: int, n: int) -> (int, Seq<usize>)
    decreases n,
{
    if n <= 0 || n > area.entities@.len() {
        (used, Seq::empty())
    } else {
        let prev = cache_plan(area, used, n - 1);
        let e = area.entities@[n - 1];
        if !entity_seen(area, e) {
            prev
        } else {
            match e.spec_slot() {
                None => (prev.0 + 1, prev.1.push(prev.0 as usize)),
                Some(s) => if e.actor.texture_cache_invalid {
                    (prev.0, prev.1.push(s))
                } else {
                    prev
                },
            }
        }
    }
}

proof fn lemma_cache_plan_bound(area: AreaState, used: int, n: int)
    requires
        0 <= n <= area.entities@.len(),
    ensures
        used <= cache_plan(area, used, n).0 <= used + n,
    decreases n,
{
    if n > 0 {
        lemma_cache_plan_bound(area, used, n - 1);
    }
}

/// Entity `e1` is `e0` after its slot was brought up to date, where it was
/// reserved as slot `next` if it had none.
pub open spec fn slot_cached(e0: EntityState, e1: EntityState, next: int) -> bool {
    &&& e1.spec_slot() == match e0.spec_slot() {
        Some(s) => Some(s),
        None => Some(next as usize),
    }
    &&& e1.actor == (crate::entity_state::ActorState { texture_cache_invalid: false, ..e0.actor })
    &&& e1.location == e0.location
    &&& e1.size == e0.size
    &&& e1.index == e0.index
}

/// `a1` is `a0` with the slot of every entity in sight brought up to date,
/// and every other entity untouched; afterwards every entity in sight has
/// a slot.
pub open spec fn slots_cached(a0: AreaState, a1: AreaState) -> bool {
    &&& a1.entities@.len() == a0.entities@.len()
    &&& forall|i: int| 0 <= i < a0.entities@.len() ==> if entity_seen(a0, a0.entities@[i]) {
        let e0 = a0.entities@[i];
        let e1 = #[trigger] a1.entities@[i];
        &&& e1.spec_slot() is Some
        &&& (e0.spec_slot() is Some ==> e1.spec_slot() == e0.spec_slot())
        &&& e1.actor == (crate::entity_state::ActorState { texture_cache_invalid: false, ..e0.actor })
        &&& e1.location == e0.location
        &&& e1.size == e0.size
        &&& e1.index == e0.index
    } else {
        a1.entities@[i] == a0.entities@[i]
    }
    &&& forall|i: int| 0 <= i < a1.entities@.len() && entity_seen(a1, #[trigger] a1.entities@[i]) ==> a1.entities@[i].spec_slot() is Some
}

/// How many of the first `n` entities the party sees.
pub open spec fn seen_count(area: AreaState, n: int) -> int
    decreases n,
{
    if n <= 0 || n > area.entities@.len() {
        0
    } else {
        seen_count(area, n - 1) + if entity_seen(area, area.entities@[n - 1]) { 1int } else { 0int }
    }
}

/// When every entity in sight has a texture slot, each of them is drawn:
/// there is one entity quad per entity in sight.
pub proof fn lemma_every_seen_entity_drawn(area: AreaState, n: int, ox: i32, oy: i32)
    requires
        0 <= n <= area.entities@.len(),
        forall|i: int| 0 <= i < area.entities@.len() && entity_seen(area, #[trigger] area.entities@[i])
            ==> area.entities@[i].spec_slot() is Some,
    ensures
        entity_quads(area, n, ox, oy).len() == seen_count(area, n),
    decreases n,
{
    if n > 0 {
        lemma_every_seen_entity_drawn(area, n - 1, ox, oy);
        let e = area.entities@[n - 1];
        if entity_seen(area, e) {
            assert(e.spec_slot() is Some);
        }
    }
}

/// Brings the texture slot of every entity the party sees up to date (see
/// `EntityState::cache`): a slot is reserved on an entity's first showing
/// and redrawn only after its appearance changed. Entities out of sight are
/// left alone. Returns the slots drawn into, in entity order.
pub fn cache_entities(area: &mut AreaState, texture_cache: &mut EntityTextureCache) -> (redrawn: Vec<usize>)
    requires
        old(area).wf(),
        old(texture_cache).slots_used + old(area).entities@.len() <= usize::MAX,
    ensures
        final(area).wf(),
        *final(area) == (AreaState { entities: final(area).entities, ..*old(area) }),
        slots_cached(*old(area), *final(area)),
        forall|i: int| 0 <= i < old(area).entities@.len() && entity_seen(*old(area), old(area).entities@[i]) ==> slot_cached(
            old(area).entities@[i],
            #[trigger] final(area).entities@[i],
            cache_plan(*old(area), old(texture_cache).slots_used as int, i).0,
        ),
        redrawn@ == cache_plan(*old(area), old(texture_cache).slots_used as int, old(area).entities@.len() as int).1,
        final(texture_cache).slots_used == cache_plan(*old(area), old(texture_cache).slots_used as int, old(area).entities@.len() as int).0,
{
    let ghost a0 = *area;
    let ghost used0 = texture_cache.slots_used as int;
    let mut redrawn: Vec<usize> = Vec::new();
    let mut i: usize = 0;
    while i < area.entities.len()
        invariant
            a0.wf(),
            i <= area.entities@.len(),
            *area == (AreaState { entities: area.entities, ..a0 }),
            area.entities@.len() == a0.entities@.len(),
            used0 + a0.entities@.len() <= usize::MAX,
            texture_cache.slots_used == cache_plan(a0, used0, i as int).0,
            redrawn@ == cache_plan(a0, used0, i as int).1,
            forall|j: int| i <= j < a0.entities@.len() ==> #[trigger] area.entities@[j] == a0.entities@[j],
            forall|j: int| 0 <= j < i ==> if entity_seen(a0, a0.entities@[j]) {
                slot_cached(a0.entities@[j], #[trigger] area.entities@[j], cache_plan(a0, used0, j).0)
            } else {
                area.entities@[j] == a0.entities@[j]
            },
        decreases a0.entities@.len() - i,
    {
        proof {
            lemma_cache_plan_bound(a0, used0, i as int);
            assert(area.wf());
            assert(entity_seen(*area, area.entities@[i as int]) == entity_seen(a0, a0.entities@[i as int]));
        }
        let seen = is_entity_seen(area, &area.entities[i]);
        if seen {
            let slot = area.entities[i].cache(texture_cache);
            if let Some(s) = slot {
                redrawn.push(s);
            }
        }
        i = i + 1;
    }
    proof {
        let a1 = *area;
        assert forall|i: int| 0 <= i < a1.entities@.len() && entity_seen(a1, #[trigger] a1.entities@[i]) implies a1.entities@[i].spec_slot() is Some by {
            if !entity_seen(a0, a0.entities@[i]) {
                assert(a1.entities@[i] == a0.entities@[i]);
                assert(entity_seen(a0, a0.entities@[i]) == entity_seen(a1, a1.entities@[i]));
            }
        }
    }
    redrawn
}

/// True when the party sees at least one tile `e` covers.
fn is_entity_seen(area: &AreaState, e: &EntityState) -> (r: bool)
    requires
        area.wf(),
    ensures
        r == entity_seen(*area, *e),
{
    let x0: i64 = if e.location.x < 0 { 0 } else { e.location.x as i64 };
    let y0: i64 = if e.location.y < 0 { 0 } else { e.location.y as i64 };
    let xe: i64 = e.location.x as i64 + e.size.width as i64;
    let ye: i64 = e.location.y as i64 + e.size.height as i64;
    let x1: i64 = if xe < area.width as i64 { xe } else { area.width as i64 };
    let y1: i64 = if ye < area.height as i64 { ye } else { area.height as i64 };
    let mut x: i64 = x0;
    while x < x1
        invariant
            area.wf(),
            x0 <= x,
            x0 == (if e.location.x < 0 { 0 } else { e.location.x as int }),
            y0 == (if e.location.y < 0 { 0 } else { e.location.y as int }),
            x1 == (if xe < area.width { xe as int } else { area.width as int }),
            y1 == (if ye < area.height { ye as int } else { area.height as int }),
            xe == e.location.x + e.size.width,
            ye == e.location.y + e.size.height,
            forall|a: int, b: int| x0 <= a < x && #[trigger] e.spec_covers(a, b) ==> !area.spec_pc_visible(a, b),
        decreases x1 - x,
    {
        let mut y: i64 = y0;
        while y < y1
            invariant
                area.wf(),
                x0 <= x < x1,
                y0 <= y,
                x0 == (if e.location.x < 0 { 0 } else { e.location.x as int }),
                y0 == (if e.location.y < 0 { 0 } else { e.location.y as int }),
                x1 == (if xe < area.width { xe as int } else { area.width as int }),
                y1 == (if ye < area.height { ye as int } else { area.height as int }),
                xe == e.location.x + e.size.width,
                ye == e.location.y + e.size.height,
                forall|a: int, b: int| x0 <= a < x && #[trigger] e.spec_covers(a, b) ==> !area.spec_pc_visible(a, b),
                forall|b: int| y0 <= b < y && e.spec_covers(x as int, b) ==> !area.spec_pc_visible(x as int, b),
            decreases y1 - y,
        {
            if area.is_pc_visible(x as i32, y as i32) {
                assert(e.spec_covers(x as int, y as int));
                return true;
            }
            y = y + 1;
        }
        assert forall|a: int, b: int| x0 <= a < x + 1 && #[trigger] e.spec_covers(a, b) implies !area.spec_pc_visible(a, b) by {
            if a == x && e.spec_covers(a, b) && area.spec_pc_visible(a, b) {
                assert(y0 <= b < y);
            }
        }
        x = x + 1;
    }
    false
}

/// `a / b` rounded down, for `b >= 1`.
fn floor_div(a: i64, b: i64) -> (r: i64)
    requires
        -0x1_0000_0000 <= a <= 0x1_0000_0000,
        1 <= b <= 0x7fff_ffff,
    ensures
        r == a as int / b as int,
        -0x1_0000_0000 <= r <= 0x1_0000_0000,
{
    if a >= 0 {
        let r = a / b;
        assert(0 <= r <= a) by (nonlinear_arith) requires r == a / b, a >= 0, b >= 1;
        r
    } else {
        let n = -a;
        let r = -((n + b - 1) / b);
        proof {
            let ni = n as int;
            let bi = b as int;
            let q: int = (ni + bi - 1) / bi;
            assert(a as int / bi == -q) by (nonlinear_arith)
                requires ni == -(a as int), ni > 0, bi >= 1, q == (ni + bi - 1) / bi;
            assert(0 <= q <= ni) by (nonlinear_arith) requires q == (ni + bi - 1) / bi, ni > 0, bi >= 1;
        }
        r
    }
}

fn clamp_i64(v: i64) -> (r: i32)
    ensures
        r as int == clamp_i32(v as int),
{
    if v < i32::MIN as i64 {
        i32::MIN
    } else if v > i32::MAX as i64 {
        i32::MAX
    } else {
        v as i32
    }
}

/// `a * s` clamped into `i32`.
fn clamp_mul(a: i64, s: i32) -> (r: i32)
    requires
        -0x4_0000_0000 <= a <= 0x4_0000_0000,
        s >= 1,
    ensures
        r as int == clamp_i32(a * s),
{
    proof {
        assert(-0x4_0000_0000 * 0x8000_0000 <= a * s <= 0x4_0000_0000 * 0x8000_0000) by (nonlinear_arith)
            requires -0x4_0000_0000 <= a <= 0x4_0000_0000, 1 <= s <= 0x7fff_ffff;
    }
    let v: i128 = a as i128 * s as i128;
    if v < i32::MIN as i128 {
        i32::MIN
    } else if v > i32::MAX as i128 {
        i32::MAX
    } else {
        v as i32
    }
}

fn max_scroll_exec(area_extent: i32, viewport_extent: i32, scale: i32) -> (r: i32)
    requires
        scale >= 1,
    ensures
        r == max_scroll(area_extent as int, viewport_extent as int, scale as int),
        r >= 0,
{
    let m = clamp_i64(area_extent as i64 - (viewport_extent / scale) as i64);
    if m < 0 {
        0
    } else {
        m
    }
}

} // verus!
