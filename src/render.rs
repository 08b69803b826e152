use vstd::prelude::*;

verus! {

/// The GPU textures the area view caches into.
#[derive(Clone, Copy, Debug, PartialEq, Eq, Structural)]
pub enum TextureId {
    /// Marks the tiles the player's party cannot see.
    Visibility,
    /// Terrain layers at or below the entity layer.
    BaseLayer,
    /// Terrain layers above the entity layer.
    AerialLayer,
}

/// What a quad shows.
#[derive(Clone, Copy, Debug, PartialEq, Eq, Structural)]
pub enum Source {
    /// A sprite of the loaded resources, by id.
    Sprite(usize),
    /// The whole of a cached texture.
    Texture(TextureId),
    /// One slot of the entity texture cache.
    EntitySlot(usize),
}

/// One textured rectangle, in tile units.
#[derive(Clone, Copy, Debug, PartialEq, Eq, Structural)]
pub struct Quad {
    pub source: Source,
    pub x: i32,
    pub y: i32,
    pub w: i32,
    pub h: i32,
}

/// A batch of quads drawn with one transform, built for a single draw call.
#[derive(Clone, Debug)]
pub struct DrawList {
    pub quads: Vec<Quad>,
    pub scale_x: i32,
    pub scale_y: i32,
    /// Tinted red: the action under the cursor is not possible.
    pub red: bool,
    /// Sampled with linear rather than nearest filtering.
    pub linear: bool,
}

impl DrawList {
    pub fn empty() -> (r: DrawList)
        ensures
            r.quads@.len() == 0,
            r.scale_x == 1 && r.scale_y == 1,
            !r.red,
            !r.linear,
    {
        DrawList { quads: Vec::new(), scale_x: 1, scale_y: 1, red: false, linear: false }
    }
}

/// One operation for the renderer.
#[derive(Clone, Debug)]
pub enum RenderCommand {
    RegisterTexture(TextureId),
    ClearTexture(TextureId),
    DrawToTexture(TextureId, DrawList),
    Draw(DrawList),
}

impl RenderCommand {
    /// True for the commands that rasterize into a cached texture.
    pub open spec fn rasterizes(&self) -> bool {
        self is DrawToTexture
    }
}

/// Counts the commands that rasterize into a cached texture.
pub open spec fn count_rasterizations(cmds: Seq<RenderCommand>) -> nat
    decreases cmds.len(),
{
    if cmds.len() == 0 {
        0
    } else {
        count_rasterizations(cmds.drop_last()) + if cmds.last().rasterizes() { 1nat } else { 0nat }
    }
}

/// Appends a command, keeping count of rasterizations.
pub fn push_cmd(cmds: &mut Vec<RenderCommand>, c: RenderCommand)
    ensures
        final(cmds)@ == old(cmds)@.push(c),
        count_rasterizations(final(cmds)@) == count_rasterizations(old(cmds)@) + if c.rasterizes() { 1nat } else { 0nat },
{
    let ghost c0 = c;
    cmds.push(c);
    assert(cmds@.drop_last() =~= old(cmds)@);
}

/// `c` draws exactly the quads `q`, untinted, at scale `(sx, sy)`.
pub open spec fn is_draw_of(c: RenderCommand, q: Seq<Quad>, sx: i32, sy: i32) -> bool {
    match c {
        RenderCommand::Draw(l) => l.quads@ == q && l.scale_x == sx && l.scale_y == sy && !l.red,
        _ => false,
    }
}

/// `cmds` is the batch drawing `q`: nothing when `q` is empty, else one draw.
pub open spec fn batch_ok(cmds: Seq<RenderCommand>, q: Seq<Quad>, sx: i32, sy: i32) -> bool {
    if q.len() == 0 {
        cmds.len() == 0
    } else {
        cmds.len() == 1 && is_draw_of(cmds[0], q, sx, sy)
    }
}

/// Counts the commands that rasterize into a cached texture.
pub fn rasterization_count(cmds: &Vec<RenderCommand>) -> (r: usize)
    ensures
        r == count_rasterizations(cmds@),
{
    let mut n: usize = 0;
    let mut i: usize = 0;
    while i < cmds.len()
        invariant
            i <= cmds@.len(),
            n == count_rasterizations(cmds@.subrange(0, i as int)),
            n <= i,
        decreases cmds@.len() - i,
    {
        proof {
            assert(cmds@.subrange(0, i + 1).drop_last() =~= cmds@.subrange(0, i as int));
        }
        if let RenderCommand::DrawToTexture(_, _) = &cmds[i] {
            n = n + 1;
        }
        i = i + 1;
    }
    assert(cmds@.subrange(0, cmds@.len() as int) =~= cmds@);
    n
}

} // verus!
