use vstd::prelude::*;

use crate::entity_state::EntityState;
use crate::render::{Quad, Source};

verus! {

/// One terrain tile: the sprite it shows and its size in tiles.
#[derive(Clone, Copy, Debug, PartialEq, Eq, Structural)]
pub struct Tile {
    pub sprite: usize,
    pub width: i32,
    pub height: i32,
}

/// A terrain layer: a row-major grid of optional tiles.
#[derive(Debug)]
pub struct Layer {
    pub id: String,
    pub width: i32,
    pub height: i32,
    pub tiles: Vec<Option<Tile>>,
}

impl Layer {
    pub open spec fn wf(&self) -> bool {
        &&& self.width >= 0
        &&& self.height >= 0
        &&& self.tiles@.len() == self.width * self.height
    }

    pub open spec fn spec_tile_at(&self, x: int, y: int) -> Option<Tile> {
        self.tiles@[y * self.width + x]
    }

    pub fn tile_at(&self, x: i32, y: i32) -> (r: Option<Tile>)
        requires
            self.wf(),
            0 <= x < self.width,
            0 <= y < self.height,
        ensures
            r == self.spec_tile_at(x as int, y as int),
    {
        let n = self.tiles.len();
        proof { lemma_grid_index(x as int, y as int, self.width as int, self.height as int); }
        let i: usize = y as usize * self.width as usize + x as usize;
        self.tiles[i]
    }
}

proof fn lemma_grid_index(x: int, y: int, w: int, h: int)
    requires
        0 <= x < w,
        0 <= y < h,
    ensures
        0 <= y * w <= y * w + x < w * h,
{
    assert(0 <= y * w <= y * w + x < w * h) by (nonlinear_arith)
        requires 0 <= x < w, 0 <= y < h;
}

/// A prop placed in an area.
#[derive(Clone, Copy, Debug, PartialEq, Eq, Structural)]
pub struct PropState {
    pub x: i32,
    pub y: i32,
    pub width: i32,
    pub height: i32,
    pub sprite: usize,
}

/// A transition to another area, drawn as a sprite.
#[derive(Clone, Copy, Debug, PartialEq, Eq, Structural)]
pub struct Transition {
    pub x: i32,
    pub y: i32,
    pub width: i32,
    pub height: i32,
    pub sprite: usize,
}

/// The state of the area on screen, as far as the view reads it.
#[derive(Debug)]
pub struct AreaState {
    pub id: String,
    pub width: i32,
    pub height: i32,
    pub layers: Vec<Layer>,
    /// Layers up to and including this index are drawn below entities.
    pub entity_layer_index: usize,
    /// Row-major: whether the player's party sees each tile.
    pub pc_visible: Vec<bool>,
    /// Set by the visibility computation when `pc_visible` changed.
    pub pc_vis_cache_invalid: bool,
    /// The sprite drawn over tiles the party cannot see.
    pub visibility_sprite: usize,
    pub entities: Vec<EntityState>,
    pub props: Vec<PropState>,
    pub transitions: Vec<Transition>,
    /// An entity the view has been asked to centre on.
    pub scroll_to: Option<usize>,
}

impl AreaState {
    pub open spec fn wf(&self) -> bool {
        &&& self.width >= 0
        &&& self.height >= 0
        &&& self.pc_visible@.len() == self.width * self.height
        &&& forall|i: int| 0 <= i < self.layers@.len() ==> (#[trigger] self.layers@[i]).wf()
        &&& match self.scroll_to {
            Some(e) => e < self.entities@.len(),
            None => true,
        }
    }

    /// Whether the party sees tile `(x, y)`; tiles outside the area are unseen.
    pub open spec fn spec_pc_visible(&self, x: int, y: int) -> bool {
        if 0 <= x < self.width && 0 <= y < self.height {
            self.pc_visible@[y * self.width + x]
        } else {
            false
        }
    }

    pub fn is_pc_visible(&self, x: i32, y: i32) -> (r: bool)
        requires
            self.wf(),
        ensures
            r == self.spec_pc_visible(x as int, y as int),
    {
        if 0 <= x && x < self.width && 0 <= y && y < self.height {
            let n = self.pc_visible.len();
            proof { lemma_grid_index(x as int, y as int, self.width as int, self.height as int); }
            let i: usize = y as usize * self.width as usize + x as usize;
            self.pc_visible[i]
        } else {
            false
        }
    }

    /// The first entity covering tile `(x, y)`.
    pub open spec fn spec_entity_at(&self, x: int, y: int) -> Option<int> {
        first_entity_at(self.entities@, x, y, 0)
    }

    pub fn get_entity_at(&self, x: i32, y: i32) -> (r: Option<usize>)
        ensures
            match r {
                Some(i) => self.spec_entity_at(x as int, y as int) == Some(i as int) && i < self.entities@.len(),
                None => self.spec_entity_at(x as int, y as int) is None,
            },
    {
        let mut i: usize = 0;
        while i < self.entities.len()
            invariant
                i <= self.entities@.len(),
                self.spec_entity_at(x as int, y as int) == first_entity_at(self.entities@, x as int, y as int, i as int),
            decreases self.entities@.len() - i,
        {
            if self.entities[i].covers(x, y) {
                return Some(i);
            }
            i = i + 1;
        }
        None
    }

    /// The first prop covering tile `(x, y)`.
    pub open spec fn spec_prop_at(&self, x: int, y: int) -> Option<int> {
        first_prop_at(self.props@, x, y, 0)
    }

    pub fn prop_index_at(&self, x: i32, y: i32) -> (r: Option<usize>)
        ensures
            match r {
                Some(i) => self.spec_prop_at(x as int, y as int) == Some(i as int) && i < self.props@.len(),
                None => self.spec_prop_at(x as int, y as int) is None,
            },
    {
        let mut i: usize = 0;
        while i < self.props.len()
            invariant
                i <= self.props@.len(),
                self.spec_prop_at(x as int, y as int) == first_prop_at(self.props@, x as int, y as int, i as int),
            decreases self.props@.len() - i,
        {
            let p = self.props[i];
            let right: i64 = p.x as i64 + p.width as i64;
            let bottom: i64 = p.y as i64 + p.height as i64;
            if p.x <= x && (x as i64) < right && p.y <= y && (y as i64) < bottom {
                return Some(i);
            }
            i = i + 1;
        }
        None
    }

    /// Takes the pending request to centre the view on an entity.
    pub fn pop_scroll_to_callback(&mut self) -> (r: Option<usize>)
        ensures
            r == old(self).scroll_to,
            final(self).scroll_to is None,
            final(self).entities == old(self).entities,
            final(self).layers == old(self).layers,
            final(self).pc_visible == old(self).pc_visible,
            final(self).pc_vis_cache_invalid == old(self).pc_vis_cache_invalid,
            final(self).width == old(self).width,
            final(self).height == old(self).height,
            final(self).entity_layer_index == old(self).entity_layer_index,
            final(self).visibility_sprite == old(self).visibility_sprite,
            final(self).props == old(self).props,
            final(self).transitions == old(self).transitions,
            final(self).id == old(self).id,
    {
        let r = self.scroll_to;
        self.scroll_to = None;
        r
    }
}

/// The first entity from position `i` on that covers tile `(x, y)`.
pub open spec fn first_entity_at(es: Seq<EntityState>, x: int, y: int, i: int) -> Option<int>
    decreases es.len() - i,
{
    if i < 0 || i >= es.len() {
        None
    } else if es[i].spec_covers(x, y) {
        Some(i)
    } else {
        first_entity_at(es, x, y, i + 1)
    }
}

/// The first prop from position `i` on that covers tile `(x, y)`.
pub open spec fn first_prop_at(ps: Seq<PropState>, x: int, y: int, i: int) -> Option<int>
    decreases ps.len() - i,
{
    if i < 0 || i >= ps.len() {
        None
    } else if ps[i].x <= x < ps[i].x + ps[i].width && ps[i].y <= y < ps[i].y + ps[i].height {
        Some(i)
    } else {
        first_prop_at(ps, x, y, i + 1)
    }
}

/// The quads for the cells `(0, y) .. (n - 1, y)`, in order.
pub open spec fn row_quads(f: spec_fn(int, int) -> Seq<Quad>, y: int, n: int) -> Seq<Quad>
    decreases n,
{
    if n <= 0 {
        Seq::empty()
    } else {
        row_quads(f, y, n - 1) + f(n - 1, y)
    }
}

/// The quads for the rows `0 .. m - 1` of a grid `mx` cells wide, row by row.
pub open spec fn grid_quads(f: spec_fn(int, int) -> Seq<Quad>, mx: int, m: int) -> Seq<Quad>
    decreases m,
{
    if m <= 0 {
        Seq::empty()
    } else {
        grid_quads(f, mx, m - 1) + row_quads(f, m - 1, mx)
    }
}

/// The quad a layer's cell contributes: its tile, if it has one.
pub open spec fn layer_cell(layer: Layer) -> spec_fn(int, int) -> Seq<Quad> {
    |x: int, y: int| match layer.spec_tile_at(x, y) {
        Some(t) => seq![Quad { source: Source::Sprite(t.sprite), x: x as i32, y: y as i32, w: t.width, h: t.height }],
        None => Seq::empty(),
    }
}

/// The quad a cell contributes to the fog of war: one opaque tile where the
/// party cannot see.
pub open spec fn fog_cell(width: int, height: int, visible: Seq<bool>, sprite: usize) -> spec_fn(int, int) -> Seq<Quad> {
    |x: int, y: int| if 0 <= x < width && 0 <= y < height && visible[y * width + x] {
        Seq::empty()
    } else {
        seq![Quad { source: Source::Sprite(sprite), x: x as i32, y: y as i32, w: 1, h: 1 }]
    }
}

} // verus!
