//! Maps built from LDtk level data: tile layers and the collision grid, and
//! the collision lookup for the cells around an entity.
use crate::math::{CellUnits, PixelUnits, Vec2};
use crate::text::str_eq;
use vstd::prelude::*;

verus! {

/// Truncating integer division, as Rust's `/` computes it.
pub open spec fn tdiv(a: int, b: int) -> int {
    if a >= 0 {
        a / b
    } else {
        -((-a) / b)
    }
}

/// A tile placed in a layer: its pixel position in the level and its id in
/// the tileset.
#[derive(Clone, Debug)]
pub struct LdtkTile {
    pub px: Vec<i64>,
    pub t: i64,
}

/// The parts of an LDtk layer instance that maps are built from.
#[derive(Clone, Debug)]
pub struct LdtkLayer {
    pub identifier: String,
    pub layer_instance_type: String,
    pub tileset_rel_path: Option<String>,
    pub px_total_offset_x: i64,
    pub px_total_offset_y: i64,
    pub grid_tiles: Vec<LdtkTile>,
    pub auto_layer_tiles: Vec<LdtkTile>,
    pub int_grid_csv: Vec<i64>,
}

/// The parts of an LDtk level that maps are built from.
#[derive(Clone, Debug)]
pub struct LdtkLevel {
    pub identifier: String,
    pub px_wid: i64,
    pub px_hei: i64,
    pub world_x: i64,
    pub world_y: i64,
    pub layer_instances: Option<Vec<LdtkLayer>>,
}

/// The parts of an LDtk world that maps are built from.
#[derive(Clone, Debug)]
pub struct LdtkWorld {
    pub identifier: String,
    pub levels: Vec<LdtkLevel>,
}

/// One drawable layer of a map: a tile id (or nothing) per cell, row by row.
pub struct TileLayer {
    pub name: String,
    pub tileset_path: String,
    pub tile_ids: Vec<Option<u32>>,
    pub offset: Vec2<i32, PixelUnits>,
}

/// A map: its size in cells, the cell of its top-left corner, its tile
/// layers (drawn first to last) and its collision grid.
pub struct GameMap {
    pub name: String,
    pub dimensions: Vec2<i32, CellUnits>,
    pub offset: Vec2<i32, CellUnits>,
    pub tile_layers: Vec<TileLayer>,
    pub collision_map: Vec<Option<()>>,
}

/// Whether a layer carries tiles to draw.
pub open spec fn tile_layer_spec(layer: LdtkLayer) -> bool {
    ||| layer.layer_instance_type@ == "Tiles"@
    ||| layer.layer_instance_type@ == "AutoLayer"@
    ||| (layer.layer_instance_type@ == "IntGrid"@ && layer.tileset_rel_path is Some)
}

/// Whether a layer carries tiles to draw: tile and auto layers, and int-grid
/// layers that have a tileset.
pub fn is_tile_layer(layer: &LdtkLayer) -> (b: bool)
    ensures
        b == tile_layer_spec(*layer),
{
    str_eq(layer.layer_instance_type.as_str(), "Tiles") || str_eq(layer.layer_instance_type.as_str(), "AutoLayer")
        || (str_eq(layer.layer_instance_type.as_str(), "IntGrid") && layer.tileset_rel_path.is_some())
}

/// Whether a value fits in an `i32`.
pub open spec fn fits_i32(v: int) -> bool {
    i32::MIN <= v <= i32::MAX
}

/// Whether a value fits in an `i64`.
pub open spec fn fits_i64(v: int) -> bool {
    i64::MIN <= v <= i64::MAX
}

/// The cell column of a tile within its level (its pixel x, narrowed to
/// `i32`, over the cell size).
pub open spec fn tile_x(tile: LdtkTile) -> int {
    tdiv(tile.px@[0] as i32 as int, 16)
}

/// The cell row of a tile within its level.
pub open spec fn tile_y(tile: LdtkTile) -> int {
    tdiv(tile.px@[1] as i32 as int, 16)
}

/// The cell index a tile lands on in a grid `w` cells wide, its cell
/// coordinates shifted by (`sx`, `sy`).
pub open spec fn tile_cell(tile: LdtkTile, sx: int, sy: int, w: int) -> int {
    (tile_y(tile) + sy) * w + (tile_x(tile) + sx)
}

/// A tile of a level whose cell origin is (`bx`, `by`) can be written to a
/// grid of `n` cells, `w` wide, whose top-left cell is (`left`, `top`):
/// every step of the index arithmetic fits an `i32` and the index lands in
/// the grid.
pub open spec fn tile_ok(tile: LdtkTile, bx: int, by: int, left: int, top: int, w: int, n: int) -> bool {
    let x = tile_x(tile) + bx;
    let y = tile_y(tile) + by;
    &&& tile.px@.len() >= 2
    &&& fits_i32(x)
    &&& fits_i32(y)
    &&& fits_i32(x - left)
    &&& fits_i32(y - top)
    &&& fits_i32((y - top) * w)
    &&& 0 <= (y - top) * w + (x - left) < n
}

/// Tiles to paint, each with the shift of its cell coordinates.
pub open spec fn placed(tiles: Seq<LdtkTile>, sx: int, sy: int) -> Seq<(LdtkTile, int, int)> {
    tiles.map_values(|t: LdtkTile| (t, sx, sy))
}

/// The tile id that painting `writes` in order leaves at cell `c` of a grid
/// `w` cells wide: the id of the last tile that lands there, or nothing.
pub open spec fn painted(writes: Seq<(LdtkTile, int, int)>, w: int, c: int) -> Option<u32>
    decreases writes.len(),
{
    if writes.len() == 0 {
        None
    } else if tile_cell(writes.last().0, writes.last().1, writes.last().2, w) == c {
        Some(writes.last().0.t as u32)
    } else {
        painted(writes.drop_last(), w, c)
    }
}

/// The grid of `n` cells that painting `writes` yields.
pub open spec fn painted_grid(writes: Seq<(LdtkTile, int, int)>, w: int, n: int) -> Seq<Option<u32>> {
    Seq::new(n as nat, |c: int| painted(writes, w, c))
}

/// The tiles of a layer in the order they are painted.
pub open spec fn layer_tiles(layer: LdtkLayer) -> Seq<LdtkTile> {
    layer.grid_tiles@ + layer.auto_layer_tiles@
}

/// The tile layers among `layers[j..]`, last first.
pub open spec fn tile_layers_from(layers: Seq<LdtkLayer>, j: int) -> Seq<LdtkLayer>
    decreases layers.len() - j,
{
    if j >= layers.len() || j < 0 {
        Seq::empty()
    } else if tile_layer_spec(layers[j]) {
        tile_layers_from(layers, j + 1).push(layers[j])
    } else {
        tile_layers_from(layers, j + 1)
    }
}

/// The tile layers of a level, in drawing order (the reverse of LDtk's).
pub open spec fn tile_layers_of(layers: Seq<LdtkLayer>) -> Seq<LdtkLayer> {
    tile_layers_from(layers, 0)
}

/// The layers of a level (none where LDtk left them out).
pub open spec fn level_layers(level: LdtkLevel) -> Seq<LdtkLayer> {
    match level.layer_instances {
        Some(v) => v@,
        None => Seq::empty(),
    }
}

/// A level's width in cells, as the loader computes it.
pub open spec fn level_width(level: LdtkLevel) -> int {
    tdiv(level.px_wid as i32 as int, 16)
}

/// A level's height in cells, as the loader computes it.
pub open spec fn level_height(level: LdtkLevel) -> int {
    tdiv(level.px_hei as i32 as int, 16)
}

/// The cell column of a level's top-left corner in its world.
pub open spec fn level_bx(level: LdtkLevel) -> int {
    tdiv(level.world_x as i32 as int, 16)
}

/// The cell row of a level's top-left corner in its world.
pub open spec fn level_by(level: LdtkLevel) -> int {
    tdiv(level.world_y as i32 as int, 16)
}

/// Every tile of every tile layer of `level`, shifted by (`bx`, `by`) cells,
/// can be written to a grid of `n` cells, `w` wide, whose top-left cell is
/// (`left`, `top`).
pub open spec fn level_tiles_fit(level: LdtkLevel, bx: int, by: int, left: int, top: int, w: int, n: int) -> bool {
    let ls = level_layers(level);
    forall|m: int, k: int|
        0 <= m < ls.len() && tile_layer_spec(ls[m]) && 0 <= k < layer_tiles(ls[m]).len() ==> tile_ok(
            #[trigger] layer_tiles(ls[m])[k],
            bx,
            by,
            left,
            top,
            w,
            n,
        )
}

/// Every tile layer among `layers` names its tileset.
pub open spec fn tilesets_named(layers: Seq<LdtkLayer>) -> bool {
    forall|m: int| 0 <= m < layers.len() && tile_layer_spec(#[trigger] layers[m]) ==> layers[m].tileset_rel_path is Some
}

/// Whether some layer is named `name`.
pub open spec fn has_layer_named(layers: Seq<LdtkLayer>, name: Seq<char>) -> bool {
    exists|i: int| 0 <= i < layers.len() && (#[trigger] layers[i]).identifier@ == name
}

/// A level can be made into a map without a panic: it has its layers, every
/// tile layer names its tileset and lands its tiles inside the grid (whose
/// size fits an `i32`), and it has a collision layer.
pub open spec fn level_loadable(level: LdtkLevel) -> bool {
    let w = level_width(level);
    let h = level_height(level);
    let ls = level_layers(level);
    &&& level.layer_instances is Some
    &&& tile_layers_of(ls).len() > 0 ==> 0 <= w * h <= i32::MAX
    &&& tilesets_named(ls)
    &&& level_tiles_fit(level, 0, 0, 0, 0, w, w * h)
    &&& has_layer_named(ls, "collision_map"@)
}

/// The index of the first layer named `name`.
pub open spec fn first_named(layers: Seq<LdtkLayer>, name: Seq<char>) -> int
    recommends
        has_layer_named(layers, name),
{
    choose|i: int| 0 <= i < layers.len() && layers[i].identifier@ == name
        && forall|j: int| 0 <= j < i ==> (#[trigger] layers[j]).identifier@ != name
}

/// The collision grid an int-grid holds: value 1 blocks, others do not.
pub open spec fn collision_of(csv: Seq<i64>) -> Seq<Option<()>> {
    csv.map_values(|v: i64| if v == 1 { Some(()) } else { None })
}

/// The int-grid values of a level's collision layer.
pub open spec fn level_csv(level: LdtkLevel) -> Seq<i64> {
    let ls = level_layers(level);
    ls[first_named(ls, "collision_map"@)].int_grid_csv@
}

/// Name, tileset and pixel offset of a map tile layer are those of the LDtk
/// layer it was made from.
pub open spec fn tile_layer_header(t: TileLayer, l: LdtkLayer) -> bool {
    &&& t.name@ == l.identifier@
    &&& l.tileset_rel_path matches Some(p) && t.tileset_path@ == p@
    &&& t.offset.x == l.px_total_offset_x as i32
    &&& t.offset.y == l.px_total_offset_y as i32
}

/// The map tile layer built from an LDtk layer, with the given tiles.
pub open spec fn tile_layer_matches(t: TileLayer, l: LdtkLayer, grid: Seq<Option<u32>>) -> bool {
    &&& tile_layer_header(t, l)
    &&& t.tile_ids@ == grid
}

/// The least of a non-empty sequence.
pub open spec fn seq_min(s: Seq<i64>) -> i64
    decreases s.len(),
{
    if s.len() <= 1 {
        s[0]
    } else if s.last() < seq_min(s.drop_last()) {
        s.last()
    } else {
        seq_min(s.drop_last())
    }
}

/// The greatest of a non-empty sequence.
pub open spec fn seq_max(s: Seq<i64>) -> i64
    decreases s.len(),
{
    if s.len() <= 1 {
        s[0]
    } else if s.last() > seq_max(s.drop_last()) {
        s.last()
    } else {
        seq_max(s.drop_last())
    }
}

/// The left edge of a world map, in cells: the least level x.
pub open spec fn world_left(levels: Seq<LdtkLevel>) -> int {
    tdiv(seq_min(levels.map_values(|l: LdtkLevel| l.world_x)) as i32 as int, 16)
}

/// The top edge of a world map, in cells: the least level y.
pub open spec fn world_top(levels: Seq<LdtkLevel>) -> int {
    tdiv(seq_min(levels.map_values(|l: LdtkLevel| l.world_y)) as i32 as int, 16)
}

/// The right edge of a world map, in cells: the greatest level x plus the
/// level's pixel width.
pub open spec fn world_right(levels: Seq<LdtkLevel>) -> int {
    tdiv(seq_max(levels.map_values(|l: LdtkLevel| (l.world_x + l.px_wid) as i64)) as i32 as int, 16)
}

/// The bottom edge of a world map, in cells: the greatest level y plus the
/// level's pixel height.
pub open spec fn world_bottom(levels: Seq<LdtkLevel>) -> int {
    tdiv(seq_max(levels.map_values(|l: LdtkLevel| (l.world_y + l.px_hei) as i64)) as i32 as int, 16)
}

/// The tiles that a level paints onto tile layer `k` of a world map whose
/// top-left cell is (`left`, `top`).
pub open spec fn level_layer_writes(level: LdtkLevel, k: int, left: int, top: int) -> Seq<(LdtkTile, int, int)> {
    let tl = tile_layers_of(level_layers(level));
    if 0 <= k < tl.len() {
        placed(layer_tiles(tl[k]), level_bx(level) - left, level_by(level) - top)
    } else {
        Seq::empty()
    }
}

/// The tiles that `levels`, in order, paint onto tile layer `k` of a world
/// map.
pub open spec fn world_tile_writes(levels: Seq<LdtkLevel>, k: int, left: int, top: int) -> Seq<(LdtkTile, int, int)>
    decreases levels.len(),
{
    if levels.len() == 0 {
        Seq::empty()
    } else {
        world_tile_writes(levels.drop_last(), k, left, top) + level_layer_writes(levels.last(), k, left, top)
    }
}

/// The row length of a level's collision int-grid (two entries per cell).
pub open spec fn coll_stride(level: LdtkLevel) -> int {
    level_width(level) * 2
}

/// The column, in the world collision grid, of entry `i` of a level's
/// collision int-grid, before the shift by the map's left edge.
pub open spec fn coll_x(level: LdtkLevel, i: int) -> int {
    i % coll_stride(level) + level_bx(level) * 2
}

/// The row of entry `i`, before the shift by the map's top edge.
pub open spec fn coll_y(level: LdtkLevel, i: int) -> int {
    i / coll_stride(level) + level_by(level) * 2
}

/// The index in a world collision grid (`w` cells wide, top-left cell
/// (`left`, `top`)) of entry `i` of a level's collision int-grid.
pub open spec fn coll_index(level: LdtkLevel, i: int, left: int, top: int, w: int) -> int {
    (coll_y(level, i) - top * 2) * w * 2 + (coll_x(level, i) - left * 2)
}

/// Entry `i` of a level's collision int-grid can be written to a world
/// collision grid of `n` entries: the arithmetic fits an `i32` and the index
/// lands in the grid.
pub open spec fn coll_ok(level: LdtkLevel, i: int, left: int, top: int, w: int, n: int) -> bool {
    &&& coll_stride(level) != 0
    &&& fits_i32(coll_x(level, i))
    &&& fits_i32(coll_y(level, i))
    &&& fits_i32(coll_x(level, i) - left * 2)
    &&& fits_i32(coll_y(level, i) - top * 2)
    &&& fits_i32((coll_y(level, i) - top * 2) * w)
    &&& fits_i32((coll_y(level, i) - top * 2) * w * 2)
    &&& 0 <= coll_index(level, i, left, top, w) < n
}

/// The collision writes of one level: each int-grid entry to its world index.
pub open spec fn level_collision_writes(level: LdtkLevel, left: int, top: int, w: int) -> Seq<(int, bool)> {
    let csv = level_csv(level);
    Seq::new(csv.len(), |i: int| (coll_index(level, i, left, top, w), csv[i] == 1))
}

/// The collision writes of `levels`, in order.
pub open spec fn world_collision_writes(levels: Seq<LdtkLevel>, left: int, top: int, w: int) -> Seq<(int, bool)>
    decreases levels.len(),
{
    if levels.len() == 0 {
        Seq::empty()
    } else {
        world_collision_writes(levels.drop_last(), left, top, w) + level_collision_writes(levels.last(), left, top, w)
    }
}

/// What the last write to entry `c` left there (nothing if none did).
pub open spec fn collision_at(writes: Seq<(int, bool)>, c: int) -> Option<()>
    decreases writes.len(),
{
    if writes.len() == 0 {
        None
    } else if writes.last().0 == c {
        if writes.last().1 { Some(()) } else { None }
    } else {
        collision_at(writes.drop_last(), c)
    }
}

/// The collision grid of `n` entries that `writes` yield.
pub open spec fn collision_grid(writes: Seq<(int, bool)>, n: int) -> Seq<Option<()>> {
    Seq::new(n as nat, |c: int| collision_at(writes, c))
}

/// Every collision entry of `level` can be written to the world grid.
pub open spec fn level_collision_fits(level: LdtkLevel, left: int, top: int, w: int, n: int) -> bool {
    &&& level_csv(level).len() <= i32::MAX
    &&& forall|i: int| 0 <= i < level_csv(level).len() ==> #[trigger] coll_ok(level, i, left, top, w, n)
}

/// A world can be made into one map without a panic: it has levels, the
/// bounds and grid sizes fit, the first level names the tilesets of its tile
/// layers and no level has more tile layers than the first, and every tile
/// and collision entry lands inside the grids.
pub open spec fn world_loadable(world: LdtkWorld) -> bool {
    let ls = world.levels@;
    let left = world_left(ls);
    let top = world_top(ls);
    let w = world_right(ls) - left;
    let h = world_bottom(ls) - top;
    &&& ls.len() > 0
    &&& forall|i: int| 0 <= i < ls.len() ==> fits_i64((#[trigger] ls[i]).world_x + ls[i].px_wid)
    &&& forall|i: int| 0 <= i < ls.len() ==> fits_i64((#[trigger] ls[i]).world_y + ls[i].px_hei)
    &&& 0 <= w * h * 4 <= i32::MAX
    &&& forall|i: int| 0 <= i < ls.len() ==> (#[trigger] ls[i]).layer_instances is Some
    &&& tilesets_named(level_layers(ls[0]))
    &&& forall|i: int| 0 <= i < ls.len() ==>
        tile_layers_of(level_layers(#[trigger] ls[i])).len() <= tile_layers_of(level_layers(ls[0])).len()
    &&& forall|i: int| 0 <= i < ls.len() ==> level_tiles_fit(#[trigger] ls[i], level_bx(ls[i]), level_by(ls[i]), left, top, w, w * h)
    &&& forall|i: int| 0 <= i < ls.len() ==> has_layer_named(level_layers(#[trigger] ls[i]), "collision_map"@)
    &&& forall|i: int| 0 <= i < ls.len() ==> level_collision_fits(#[trigger] ls[i], left, top, w, w * h * 4)
}


/// A grid of `n` empty cells.
fn empty_grid(n: usize) -> (g: Vec<Option<u32>>)
    ensures
        g@ == Seq::new(n as nat, |c: int| None::<u32>),
{
    let mut g: Vec<Option<u32>> = Vec::new();
    let mut i: usize = 0;
    while i < n
        invariant
            i <= n,
            g@ == Seq::new(i as nat, |c: int| None::<u32>),
        decreases n - i,
    {
        g.push(None);
        i = i + 1;
        assert(g@ =~= Seq::new(i as nat, |c: int| None::<u32>));
    }
    g
}

/// A collision grid of `n` free entries.
fn empty_collision(n: usize) -> (g: Vec<Option<()>>)
    ensures
        g@ == collision_grid(Seq::empty(), n as int),
{
    let mut g: Vec<Option<()>> = Vec::new();
    let mut i: usize = 0;
    while i < n
        invariant
            i <= n,
            g@ == Seq::new(i as nat, |c: int| None::<()>),
        decreases n - i,
    {
        g.push(None);
        i = i + 1;
        assert(g@ =~= Seq::new(i as nat, |c: int| None::<()>));
    }
    assert(g@ =~= collision_grid(Seq::empty(), n as int));
    g
}

proof fn lemma_painted_empty(w: int, n: int)
    requires
        n >= 0,
    ensures
        painted_grid(Seq::empty(), w, n) == Seq::new(n as nat, |c: int| None::<u32>),
{
    assert(painted_grid(Seq::empty(), w, n) =~= Seq::new(n as nat, |c: int| None::<u32>));
}

proof fn lemma_painted_step(prefix: Seq<(LdtkTile, int, int)>, tile: LdtkTile, sx: int, sy: int, w: int, n: int)
    requires
        0 <= tile_cell(tile, sx, sy, w) < n,
    ensures
        painted_grid(prefix.push((tile, sx, sy)), w, n) == painted_grid(prefix, w, n).update(
            tile_cell(tile, sx, sy, w),
            Some(tile.t as u32),
        ),
{
    let s = prefix.push((tile, sx, sy));
    assert(s.drop_last() =~= prefix);
    assert(painted_grid(s, w, n) =~= painted_grid(prefix, w, n).update(
        tile_cell(tile, sx, sy, w),
        Some(tile.t as u32),
    ));
}

proof fn lemma_collision_step(prefix: Seq<(int, bool)>, c: int, b: bool, n: int)
    requires
        0 <= c < n,
    ensures
        collision_grid(prefix.push((c, b)), n) == collision_grid(prefix, n).update(
            c,
            if b { Some(()) } else { None },
        ),
{
    let s = prefix.push((c, b));
    assert(s.drop_last() =~= prefix);
    assert(collision_grid(s, n) =~= collision_grid(prefix, n).update(c, if b { Some(()) } else { None }));
}

proof fn lemma_tile_layers_from_len(ls: Seq<LdtkLayer>, j: int)
    requires
        0 <= j <= ls.len(),
    ensures
        tile_layers_from(ls, j).len() <= tile_layers_of(ls).len(),
    decreases j,
{
    if j > 0 {
        lemma_tile_layers_from_len(ls, j - 1);
    }
}

/// Paints tiles onto a grid `w` cells wide, each tile shifted by its level's
/// cell origin (`bx`, `by`) less the grid's top-left cell (`left`, `top`).
fn paint_tiles(
    grid: &mut Vec<Option<u32>>,
    tiles: &Vec<LdtkTile>,
    w: i32,
    bx: i32,
    by: i32,
    left: i32,
    top: i32,
    Ghost(prefix): Ghost<Seq<(LdtkTile, int, int)>>,
)
    requires
        old(grid)@.len() <= i32::MAX,
        old(grid)@ == painted_grid(prefix, w as int, old(grid)@.len() as int),
        forall|k: int| 0 <= k < tiles@.len() ==> tile_ok(#[trigger] tiles@[k], bx as int, by as int, left as int, top as int, w as int, old(grid)@.len() as int),
    ensures
        final(grid)@.len() == old(grid)@.len(),
        final(grid)@ == painted_grid(prefix + placed(tiles@, bx - left, by - top), w as int, old(grid)@.len() as int),
{
    let ghost n = grid@.len() as int;
    let ghost sx = bx - left;
    let ghost sy = by - top;
    let mut j: usize = 0;
    while j < tiles.len()
        invariant
            grid@.len() == n,
            n <= i32::MAX,
            sx == bx - left,
            sy == by - top,
            j <= tiles@.len(),
            forall|k: int| 0 <= k < tiles@.len() ==> tile_ok(#[trigger] tiles@[k], bx as int, by as int, left as int, top as int, w as int, n),
            grid@ == painted_grid(prefix + placed(tiles@.take(j as int), sx, sy), w as int, n),
        decreases tiles.len() - j,
    {
        let tile = &tiles[j];
        assert(tile_ok(tiles@[j as int], bx as int, by as int, left as int, top as int, w as int, n));
        let x = #[verifier::truncate] (tile.px[0] as i32) / 16;
        let y = #[verifier::truncate] (tile.px[1] as i32) / 16;
        assert(x == tile_x(*tile));
        assert(y == tile_y(*tile));
        let vx = (x + bx) - left;
        let vy = (y + by) - top;
        let index = vy * w + vx;
        assert(vy == tile_y(*tile) + sy);
        assert(vx == tile_x(*tile) + sx);
        assert(vy * w == (tile_y(*tile) + sy) * w);
        assert(index == tile_cell(*tile, sx, sy, w as int));
        grid.set(index as usize, Some(#[verifier::truncate] (tile.t as u32)));
        proof {
            lemma_painted_step(prefix + placed(tiles@.take(j as int), sx, sy), *tile, sx, sy, w as int, n);
            assert(prefix + placed(tiles@.take(j + 1), sx, sy) =~= (prefix + placed(tiles@.take(j as int), sx, sy)).push((*tile, sx, sy)));
        }
        j = j + 1;
    }
    assert(tiles@.take(tiles@.len() as int) =~= tiles@);
}

/// Paints the tiles of a layer (grid tiles, then auto-layer tiles).
fn paint_layer_tiles(
    grid: &mut Vec<Option<u32>>,
    layer: &LdtkLayer,
    w: i32,
    bx: i32,
    by: i32,
    left: i32,
    top: i32,
    Ghost(prefix): Ghost<Seq<(LdtkTile, int, int)>>,
)
    requires
        old(grid)@.len() <= i32::MAX,
        old(grid)@ == painted_grid(prefix, w as int, old(grid)@.len() as int),
        forall|k: int| 0 <= k < layer_tiles(*layer).len() ==> tile_ok(
            #[trigger] layer_tiles(*layer)[k], bx as int, by as int, left as int, top as int, w as int, old(grid)@.len() as int),
    ensures
        final(grid)@.len() == old(grid)@.len(),
        final(grid)@ == painted_grid(prefix + placed(layer_tiles(*layer), bx - left, by - top), w as int, old(grid)@.len() as int),
{
    let ghost n = grid@.len() as int;
    let ghost sx = bx - left;
    let ghost sy = by - top;
    proof {
        assert forall|k: int| 0 <= k < layer.grid_tiles@.len() implies tile_ok(
            #[trigger] layer.grid_tiles@[k], bx as int, by as int, left as int, top as int, w as int, n) by {
            assert(layer_tiles(*layer)[k] == layer.grid_tiles@[k]);
        }
        assert forall|k: int| 0 <= k < layer.auto_layer_tiles@.len() implies tile_ok(
            #[trigger] layer.auto_layer_tiles@[k], bx as int, by as int, left as int, top as int, w as int, n) by {
            assert(layer_tiles(*layer)[layer.grid_tiles@.len() + k] == layer.auto_layer_tiles@[k]);
        }
    }
    paint_tiles(grid, &layer.grid_tiles, w, bx, by, left, top, Ghost(prefix));
    paint_tiles(grid, &layer.auto_layer_tiles, w, bx, by, left, top, Ghost(prefix + placed(layer.grid_tiles@, sx, sy)));
    assert(prefix + placed(layer.grid_tiles@, sx, sy) + placed(layer.auto_layer_tiles@, sx, sy) =~= prefix + placed(layer_tiles(*layer), sx, sy));
}

/// The index of the first layer named `collision_map`.
fn find_collision_layer(layers: &Vec<LdtkLayer>) -> (c: usize)
    requires
        has_layer_named(layers@, "collision_map"@),
    ensures
        c < layers@.len(),
        c == first_named(layers@, "collision_map"@),
        layers@[c as int].identifier@ == "collision_map"@,
{
    let ghost ls = layers@;
    let mut c: usize = 0;
    while c < layers.len() && !str_eq(layers[c].identifier.as_str(), "collision_map")
        invariant
            layers@ == ls,
            has_layer_named(ls, "collision_map"@),
            c <= ls.len(),
            forall|i: int| 0 <= i < c ==> (#[trigger] ls[i]).identifier@ != "collision_map"@,
        decreases ls.len() - c,
    {
        c = c + 1;
    }
    proof {
        let wit = choose|i: int| 0 <= i < ls.len() && (#[trigger] ls[i]).identifier@ == "collision_map"@;
        assert(ls[wit].identifier@ == "collision_map"@);
        assert(c < ls.len());
        let f = first_named(ls, "collision_map"@);
        assert(0 <= c < ls.len() && ls[c as int].identifier@ == "collision_map"@ && forall|jj: int| 0 <= jj < c ==> (#[trigger] ls[jj]).identifier@ != "collision_map"@);
        assert(f == c) by {
            if f < c {
                assert(ls[f].identifier@ != "collision_map"@);
            } else if f > c {
                assert(ls[c as int].identifier@ != "collision_map"@);
            }
        }
    }
    c
}

/// The collision grid of an int-grid: value 1 blocks, others do not.
fn collision_from_csv(csv: &Vec<i64>) -> (g: Vec<Option<()>>)
    ensures
        g@ == collision_of(csv@),
{
    let mut g: Vec<Option<()>> = Vec::new();
    let mut i: usize = 0;
    while i < csv.len()
        invariant
            i <= csv@.len(),
            g@ == collision_of(csv@.take(i as int)),
        decreases csv.len() - i,
    {
        if csv[i] == 1 {
            g.push(Some(()));
        } else {
            g.push(None);
        }
        i = i + 1;
        assert(g@ =~= collision_of(csv@.take(i as int)));
    }
    assert(csv@.take(csv@.len() as int) =~= csv@);
    g
}

/// The tiles a level's layers `layers[j..]` have painted onto tile layer `k`
/// of a world map, each shifted by (`sx`, `sy`).
spec fn partial_writes(layers: Seq<LdtkLayer>, j: int, k: int, sx: int, sy: int) -> Seq<(LdtkTile, int, int)> {
    let f = tile_layers_from(layers, j);
    if 0 <= k < f.len() {
        placed(layer_tiles(f[k]), sx, sy)
    } else {
        Seq::empty()
    }
}

/// The edges of a world map: left, top, right and bottom, in cells.
fn world_bounds(levels: &Vec<LdtkLevel>) -> (r: (i32, i32, i32, i32))
    requires
        levels@.len() > 0,
        forall|i: int| 0 <= i < levels@.len() ==> fits_i64((#[trigger] levels@[i]).world_x + levels@[i].px_wid),
        forall|i: int| 0 <= i < levels@.len() ==> fits_i64((#[trigger] levels@[i]).world_y + levels@[i].px_hei),
    ensures
        r.0 == world_left(levels@),
        r.1 == world_top(levels@),
        r.2 == world_right(levels@),
        r.3 == world_bottom(levels@),
        -0x800_0000 <= r.0 <= 0x800_0000,
        -0x800_0000 <= r.1 <= 0x800_0000,
        -0x800_0000 <= r.2 <= 0x800_0000,
        -0x800_0000 <= r.3 <= 0x800_0000,
{
    let ghost xs = levels@.map_values(|l: LdtkLevel| l.world_x);
    let ghost ys = levels@.map_values(|l: LdtkLevel| l.world_y);
    let ghost rs = levels@.map_values(|l: LdtkLevel| (l.world_x + l.px_wid) as i64);
    let ghost bs = levels@.map_values(|l: LdtkLevel| (l.world_y + l.px_hei) as i64);
    let mut min_x = levels[0].world_x;
    let mut min_y = levels[0].world_y;
    let mut max_r = levels[0].world_x + levels[0].px_wid;
    let mut max_b = levels[0].world_y + levels[0].px_hei;
    let mut i: usize = 1;
    proof {
        assert(xs.take(1)[0] == xs[0]);
        assert(ys.take(1)[0] == ys[0]);
        assert(rs.take(1)[0] == rs[0]);
        assert(bs.take(1)[0] == bs[0]);
    }
    while i < levels.len()
        invariant
            1 <= i <= levels@.len(),
            xs == levels@.map_values(|l: LdtkLevel| l.world_x),
            ys == levels@.map_values(|l: LdtkLevel| l.world_y),
            rs == levels@.map_values(|l: LdtkLevel| (l.world_x + l.px_wid) as i64),
            bs == levels@.map_values(|l: LdtkLevel| (l.world_y + l.px_hei) as i64),
            forall|i: int| 0 <= i < levels@.len() ==> fits_i64((#[trigger] levels@[i]).world_x + levels@[i].px_wid),
            forall|i: int| 0 <= i < levels@.len() ==> fits_i64((#[trigger] levels@[i]).world_y + levels@[i].px_hei),
            min_x == seq_min(xs.take(i as int)),
            min_y == seq_min(ys.take(i as int)),
            max_r == seq_max(rs.take(i as int)),
            max_b == seq_max(bs.take(i as int)),
        decreases levels@.len() - i,
    {
        let l = &levels[i];
        assert(fits_i64(levels@[i as int].world_x + levels@[i as int].px_wid));
        assert(fits_i64(levels@[i as int].world_y + levels@[i as int].px_hei));
        let r = l.world_x + l.px_wid;
        let b = l.world_y + l.px_hei;
        proof {
            assert(xs.take(i + 1).drop_last() =~= xs.take(i as int));
            assert(ys.take(i + 1).drop_last() =~= ys.take(i as int));
            assert(rs.take(i + 1).drop_last() =~= rs.take(i as int));
            assert(bs.take(i + 1).drop_last() =~= bs.take(i as int));
        }
        if l.world_x < min_x {
            min_x = l.world_x;
        }
        if l.world_y < min_y {
            min_y = l.world_y;
        }
        if r > max_r {
            max_r = r;
        }
        if b > max_b {
            max_b = b;
        }
        i = i + 1;
    }
    proof {
        assert(xs.take(levels@.len() as int) =~= xs);
        assert(ys.take(levels@.len() as int) =~= ys);
        assert(rs.take(levels@.len() as int) =~= rs);
        assert(bs.take(levels@.len() as int) =~= bs);
    }
    let left = #[verifier::truncate] (min_x as i32) / 16;
    let top = #[verifier::truncate] (min_y as i32) / 16;
    let right = #[verifier::truncate] (max_r as i32) / 16;
    let bottom = #[verifier::truncate] (max_b as i32) / 16;
    (left, top, right, bottom)
}

/// The empty tile layers of a world map: one per tile layer of its first
/// level, in drawing order.
fn empty_world_layers(layers: &Vec<LdtkLayer>, w: i32, area: i32) -> (v: Vec<TileLayer>)
    requires
        tilesets_named(layers@),
        0 <= area,
    ensures
        v@.len() == tile_layers_of(layers@).len(),
        forall|k: int| 0 <= k < v@.len() ==> tile_layer_matches(
            #[trigger] v@[k],
            tile_layers_of(layers@)[k],
            painted_grid(Seq::empty(), w as int, area as int),
        ),
{
    let ghost ls = layers@;
    proof {
        lemma_painted_empty(w as int, area as int);
    }
    let mut v: Vec<TileLayer> = Vec::new();
    let mut j: usize = layers.len();
    while j > 0
        invariant
            layers@ == ls,
            tilesets_named(ls),
            0 <= area,
            painted_grid(Seq::empty(), w as int, area as int) == Seq::new(area as nat, |c: int| None::<u32>),
            j <= ls.len(),
            v@.len() == tile_layers_from(ls, j as int).len(),
            forall|k: int| 0 <= k < v@.len() ==> tile_layer_matches(
                #[trigger] v@[k],
                tile_layers_from(ls, j as int)[k],
                painted_grid(Seq::empty(), w as int, area as int),
            ),
        decreases j,
    {
        j = j - 1;
        let layer = &layers[j];
        if is_tile_layer(layer) {
            assert(tile_layers_from(ls, j as int) == tile_layers_from(ls, j + 1).push(ls[j as int]));
            assert(ls[j as int].tileset_rel_path is Some);
            let path = layer.tileset_rel_path.as_ref().unwrap().clone();
            let t = TileLayer {
                name: layer.identifier.clone(),
                tileset_path: path,
                tile_ids: empty_grid(area as usize),
                offset: Vec2::new(
                    #[verifier::truncate] (layer.px_total_offset_x as i32),
                    #[verifier::truncate] (layer.px_total_offset_y as i32),
                ),
            };
            let ghost before = v@;
            v.push(t);
            proof {
                assert forall|k: int| 0 <= k < v@.len() implies tile_layer_matches(
                    #[trigger] v@[k],
                    tile_layers_from(ls, j as int)[k],
                    painted_grid(Seq::empty(), w as int, area as int),
                ) by {
                    if k < before.len() {
                        assert(v@[k] == before[k]);
                    }
                }
            }
        } else {
            assert(tile_layers_from(ls, j as int) == tile_layers_from(ls, j + 1));
        }
    }
    v
}

/// Paints one level's tile layers onto the tile layers of a world map (`w`
/// cells wide, `area` cells, top-left cell (`left`, `top`)) that the levels
/// `done` have painted so far.
fn paint_world_level_tiles(
    tile_layers: &mut Vec<TileLayer>,
    level: &LdtkLevel,
    left: i32,
    top: i32,
    w: i32,
    area: i32,
    Ghost(done): Ghost<Seq<LdtkLevel>>,
)
    requires
        0 <= area,
        level.layer_instances is Some,
        tile_layers_of(level_layers(*level)).len() <= old(tile_layers)@.len(),
        level_tiles_fit(*level, level_bx(*level), level_by(*level), left as int, top as int, w as int, area as int),
        forall|k: int| 0 <= k < old(tile_layers)@.len() ==> (#[trigger] old(tile_layers)@[k]).tile_ids@
            == painted_grid(world_tile_writes(done, k, left as int, top as int), w as int, area as int),
    ensures
        final(tile_layers)@.len() == old(tile_layers)@.len(),
        forall|k: int| 0 <= k < old(tile_layers)@.len() ==> {
            &&& (#[trigger] final(tile_layers)@[k]).name == old(tile_layers)@[k].name
            &&& final(tile_layers)@[k].tileset_path == old(tile_layers)@[k].tileset_path
            &&& final(tile_layers)@[k].offset == old(tile_layers)@[k].offset
            &&& final(tile_layers)@[k].tile_ids@ == painted_grid(
                world_tile_writes(done.push(*level), k, left as int, top as int), w as int, area as int)
        },
{
    let ghost orig = tile_layers@;
    let ghost n = orig.len() as int;
    let layers = level.layer_instances.as_ref().unwrap();
    let ghost ls = layers@;
    let bx = #[verifier::truncate] (level.world_x as i32) / 16;
    let by = #[verifier::truncate] (level.world_y as i32) / 16;
    let ghost sx = bx - left;
    let ghost sy = by - top;
    proof {
        assert forall|k: int| 0 <= k < n implies (#[trigger] tile_layers@[k]).tile_ids@ == painted_grid(
            world_tile_writes(done, k, left as int, top as int) + partial_writes(ls, ls.len() as int, k, sx, sy), w as int, area as int) by {
            assert(world_tile_writes(done, k, left as int, top as int) + partial_writes(ls, ls.len() as int, k, sx, sy)
                =~= world_tile_writes(done, k, left as int, top as int));
        }
    }
    let mut ti: usize = 0;
    let mut j: usize = layers.len();
    while j > 0
        invariant
            layers@ == ls,
            ls == level_layers(*level),
            j <= ls.len(),
            0 <= area,
            ti == tile_layers_from(ls, j as int).len(),
            tile_layers_of(ls).len() <= n,
            tile_layers@.len() == n,
            n == orig.len(),
            sx == bx - left,
            sy == by - top,
            bx == level_bx(*level),
            by == level_by(*level),
            level_tiles_fit(*level, level_bx(*level), level_by(*level), left as int, top as int, w as int, area as int),
            forall|k: int| 0 <= k < n ==> {
                &&& (#[trigger] tile_layers@[k]).name == orig[k].name
                &&& tile_layers@[k].tileset_path == orig[k].tileset_path
                &&& tile_layers@[k].offset == orig[k].offset
                &&& tile_layers@[k].tile_ids@ == painted_grid(
                    world_tile_writes(done, k, left as int, top as int) + partial_writes(ls, j as int, k, sx, sy), w as int, area as int)
            },
        decreases j,
    {
        j = j - 1;
        let layer = &layers[j];
        if is_tile_layer(layer) {
            let ghost before = tile_layers@;
            let ghost base = world_tile_writes(done, ti as int, left as int, top as int);
            proof {
                assert(tile_layers_from(ls, j as int) == tile_layers_from(ls, j + 1).push(ls[j as int]));
                lemma_tile_layers_from_len(ls, j as int);
                assert(ls[j as int] == *layer);
                assert(base + partial_writes(ls, j + 1, ti as int, sx, sy) =~= base);
                assert forall|k: int| 0 <= k < layer_tiles(*layer).len() implies tile_ok(
                    #[trigger] layer_tiles(*layer)[k], bx as int, by as int, left as int, top as int, w as int, area as int) by {
                    assert(tile_layer_spec(ls[j as int]));
                    assert(tile_ok(layer_tiles(ls[j as int])[k], bx as int, by as int, left as int, top as int, w as int, area as int));
                }
            }
            paint_layer_tiles(&mut tile_layers[ti].tile_ids, layer, w, bx, by, left, top, Ghost(base));
            proof {
                assert forall|k: int| 0 <= k < n implies {
                    &&& (#[trigger] tile_layers@[k]).name == orig[k].name
                    &&& tile_layers@[k].tileset_path == orig[k].tileset_path
                    &&& tile_layers@[k].offset == orig[k].offset
                    &&& tile_layers@[k].tile_ids@ == painted_grid(
                        world_tile_writes(done, k, left as int, top as int) + partial_writes(ls, j as int, k, sx, sy), w as int, area as int)
                } by {
                    if k != ti {
                        assert(tile_layers@[k] == before[k]);
                        assert(partial_writes(ls, j as int, k, sx, sy) == partial_writes(ls, j + 1, k, sx, sy));
                    }
                }
            }
            assert(ti < tile_layers.len());
            ti = ti + 1;
        } else {
            assert(tile_layers_from(ls, j as int) == tile_layers_from(ls, j + 1));
        }
    }
    proof {
        assert(done.push(*level).drop_last() =~= done);
        assert forall|k: int| 0 <= k < n implies (#[trigger] tile_layers@[k]).tile_ids@ == painted_grid(
            world_tile_writes(done.push(*level), k, left as int, top as int), w as int, area as int) by {
            assert(partial_writes(ls, 0, k, sx, sy) == level_layer_writes(*level, k, left as int, top as int));
        }
    }
}

/// Paints one level's collision int-grid onto the collision grid of a world
/// map (`w` cells wide, top-left cell (`left`, `top`)).
fn paint_world_level_collision(
    cmap: &mut Vec<Option<()>>,
    level: &LdtkLevel,
    left: i32,
    top: i32,
    w: i32,
    Ghost(base): Ghost<Seq<(int, bool)>>,
)
    requires
        level.layer_instances is Some,
        has_layer_named(level_layers(*level), "collision_map"@),
        level_collision_fits(*level, left as int, top as int, w as int, old(cmap)@.len() as int),
        fits_i32(left * 2),
        fits_i32(top * 2),
        old(cmap)@.len() <= i32::MAX,
        old(cmap)@ == collision_grid(base, old(cmap)@.len() as int),
    ensures
        final(cmap)@ == collision_grid(base + level_collision_writes(*level, left as int, top as int, w as int), old(cmap)@.len() as int),
{
    let ghost n = cmap@.len() as int;
    let layers = level.layer_instances.as_ref().unwrap();
    let c = find_collision_layer(layers);
    let csv = &layers[c].int_grid_csv;
    let bx = #[verifier::truncate] (level.world_x as i32) / 16;
    let by = #[verifier::truncate] (level.world_y as i32) / 16;
    let stride = (#[verifier::truncate] (level.px_wid as i32) / 16) * 2;
    let ghost lw = level_collision_writes(*level, left as int, top as int, w as int);
    assert(csv@ == level_csv(*level));
    let mut i: usize = 0;
    while i < csv.len()
        invariant
            csv@ == level_csv(*level),
            lw == level_collision_writes(*level, left as int, top as int, w as int),
            level_collision_fits(*level, left as int, top as int, w as int, n),
            cmap@.len() == n,
            n <= i32::MAX,
            fits_i32(left * 2),
            fits_i32(top * 2),
            bx == level_bx(*level),
            by == level_by(*level),
            stride == coll_stride(*level),
            i <= csv@.len(),
            cmap@ == collision_grid(base + lw.take(i as int), n),
        decreases csv.len() - i,
    {
        assert(coll_ok(*level, i as int, left as int, top as int, w as int, n));
        let ii = i as i32;
        assert(ii == i);
        // Rust rounds a quotient toward zero; written over the divisor's
        // magnitude so that both signs of the row length read the same way.
        let (q, r) = if stride > 0 {
            (ii / stride, ii % stride)
        } else {
            (-(ii / (-stride)), ii % (-stride))
        };
        assert(q == (i as int) / coll_stride(*level) && r == (i as int) % coll_stride(*level)) by {
            if stride < 0 {
                lemma_div_by_negative(i as int, coll_stride(*level));
            }
        }
        assert(fits_i32(q + by * 2));
        let px = r + bx * 2;
        let py = q + by * 2;
        let vx = px - left * 2;
        let vy = py - top * 2;
        let index = vy * w * 2 + vx;
        assert(index == coll_index(*level, i as int, left as int, top as int, w as int));
        let blocked = csv[i] == 1;
        if blocked {
            cmap.set(index as usize, Some(()));
        } else {
            cmap.set(index as usize, None);
        }
        proof {
            lemma_collision_step(base + lw.take(i as int), index as int, blocked, n);
            assert(base + lw.take(i + 1) =~= (base + lw.take(i as int)).push(lw[i as int]));
        }
        i = i + 1;
    }
    assert(lw.take(csv@.len() as int) =~= lw);
}

impl GameMap {
    /// The map of a single LDtk level: one tile layer per LDtk tile layer
    /// (in drawing order), each tile written to the cell of its pixel
    /// position, and the level's `collision_map` int-grid.
    pub fn from_ldtk_level(level: &LdtkLevel) -> (m: GameMap)
        requires
            level_loadable(*level),
        ensures
            level_map_of(m, *level),
    {
        let name = level.identifier.clone();
        let w = level.px_wid as i32 / 16;
        let h = level.px_hei as i32 / 16;
        let layers = level.layer_instances.as_ref().unwrap();
        let ghost ls = layers@;
        let mut tile_layers: Vec<TileLayer> = Vec::new();
        let mut j: usize = layers.len();
        while j > 0
            invariant
                ls == level_layers(*level),
                layers@ == ls,
                level_loadable(*level),
                w == level_width(*level),
                h == level_height(*level),
                j <= ls.len(),
                tile_layers@.len() == tile_layers_from(ls, j as int).len(),
                forall|k: int| 0 <= k < tile_layers@.len() ==> tile_layer_matches(
                    #[trigger] tile_layers@[k],
                    tile_layers_from(ls, j as int)[k],
                    painted_grid(placed(layer_tiles(tile_layers_from(ls, j as int)[k]), 0, 0), w as int, w * h),
                ),
            decreases j,
        {
            j = j - 1;
            let layer = &layers[j];
            if is_tile_layer(layer) {
                proof {
                    assert(tile_layers_from(ls, j as int) == tile_layers_from(ls, j + 1).push(ls[j as int]));
                    lemma_tile_layers_from_len(ls, j as int);
                    lemma_painted_empty(w as int, w * h);
                    assert(ls[j as int] == *layer);
                    assert forall|k: int| 0 <= k < layer_tiles(*layer).len() implies tile_ok(
                        #[trigger] layer_tiles(*layer)[k], 0, 0, 0, 0, w as int, w * h) by {
                        assert(tile_layer_spec(ls[j as int]));
                        assert(tile_ok(layer_tiles(ls[j as int])[k], 0, 0, 0, 0, w as int, w * h));
                    }
                    assert(Seq::<(LdtkTile, int, int)>::empty() + placed(layer_tiles(*layer), 0, 0) =~= placed(layer_tiles(*layer), 0, 0));
                }
                let area = w * h;
                let mut tiles = empty_grid(area as usize);
                paint_layer_tiles(&mut tiles, layer, w, 0, 0, 0, 0, Ghost(Seq::empty()));
                let path = layer.tileset_rel_path.as_ref().unwrap().clone();
                let t = TileLayer {
                    name: layer.identifier.clone(),
                    tileset_path: path,
                    tile_ids: tiles,
                    offset: Vec2::new(layer.px_total_offset_x as i32, layer.px_total_offset_y as i32),
                };
                let ghost before = tile_layers@;
                tile_layers.push(t);
                proof {
                    assert forall|k: int| 0 <= k < tile_layers@.len() implies tile_layer_matches(
                        #[trigger] tile_layers@[k],
                        tile_layers_from(ls, j as int)[k],
                        painted_grid(placed(layer_tiles(tile_layers_from(ls, j as int)[k]), 0, 0), w as int, w * h),
                    ) by {
                        if k < before.len() {
                            assert(tile_layers@[k] == before[k]);
                        }
                    }
                }
            } else {
                assert(tile_layers_from(ls, j as int) == tile_layers_from(ls, j + 1));
            }
        }
        let c = find_collision_layer(layers);
        let collision_map = collision_from_csv(&layers[c].int_grid_csv);
        GameMap {
            name,
            dimensions: Vec2::new(w, h),
            offset: Vec2::new(0, 0),
            tile_layers,
            collision_map,
        }
    }
    /// The single map made of all levels of an LDtk world: its bounds are
    /// those of the levels together, its tile layers are those of the first
    /// level, and every level paints its tiles and collision entries, in
    /// order, at its own place.
    #[verifier::rlimit(40)]
    pub fn from_ldtk_world(world: &LdtkWorld) -> (m: GameMap)
        requires
            world_loadable(*world),
        ensures
            world_map_of(m, *world),
    {
        let levels = &world.levels;
        let ghost ls = levels@;
        let (left, top, right, bottom) = world_bounds(levels);
        let w = right - left;
        let h = bottom - top;
        let area = w * h;
        let n4 = area * 2 * 2;
        let first = levels[0].layer_instances.as_ref().unwrap();
        assert(first@ == level_layers(ls[0]));
        let mut tile_layers = empty_world_layers(first, w, area);
        let ghost firsts = tile_layers_of(first@);
        let ghost nt = tile_layers@.len();
        let mut collision_map = empty_collision(n4 as usize);
        let mut li: usize = 0;
        proof {
            assert forall|k: int| 0 <= k < nt implies (#[trigger] tile_layers@[k]).tile_ids@
                == painted_grid(world_tile_writes(ls.take(0), k, left as int, top as int), w as int, area as int) by {
                assert(world_tile_writes(ls.take(0), k, left as int, top as int) =~= Seq::empty());
            }
            assert(world_collision_writes(ls.take(0), left as int, top as int, w as int) =~= Seq::empty());
        }
        while li < levels.len()
            invariant
                levels@ == ls,
                world_loadable(*world),
                ls == world.levels@,
                left == world_left(ls),
                top == world_top(ls),
                w == world_right(ls) - left,
                area == w * h,
                h == world_bottom(ls) - top,
                n4 == area * 4,
                0 <= area,
                li <= ls.len(),
                fits_i32(left * 2),
                fits_i32(top * 2),
                firsts == tile_layers_of(level_layers(ls[0])),
                tile_layers@.len() == nt,
                nt == firsts.len(),
                forall|k: int| 0 <= k < nt ==> {
                    &&& tile_layer_header(#[trigger] tile_layers@[k], firsts[k])
                    &&& tile_layers@[k].tile_ids@ == painted_grid(
                        world_tile_writes(ls.take(li as int), k, left as int, top as int), w as int, area as int)
                },
                collision_map@ == collision_grid(world_collision_writes(ls.take(li as int), left as int, top as int, w as int), n4 as int),
            decreases ls.len() - li,
        {
            let level = &levels[li];
            let ghost done = ls.take(li as int);
            assert(level_tiles_fit(ls[li as int], level_bx(ls[li as int]), level_by(ls[li as int]), left as int, top as int, w as int, w * h));
            assert(tile_layers_of(level_layers(ls[li as int])).len() <= firsts.len());
            assert(level_collision_fits(ls[li as int], left as int, top as int, w as int, w * h * 4));
            assert(has_layer_named(level_layers(ls[li as int]), "collision_map"@));
            let ghost before = tile_layers@;
            paint_world_level_tiles(&mut tile_layers, level, left, top, w, area, Ghost(done));
            paint_world_level_collision(&mut collision_map, level, left, top, w,
                Ghost(world_collision_writes(done, left as int, top as int, w as int)));
            proof {
                assert(ls.take(li + 1) =~= done.push(ls[li as int]));
                assert(ls.take(li + 1).drop_last() =~= done);
                assert forall|k: int| 0 <= k < nt implies tile_layer_header(#[trigger] tile_layers@[k], firsts[k]) by {
                    assert(tile_layer_header(before[k], firsts[k]));
                }
            }
            li = li + 1;
        }
        assert(ls.take(ls.len() as int) =~= ls);
        GameMap {
            name: world.identifier.clone(),
            dimensions: Vec2::new(w, h),
            offset: Vec2::new(left, top),
            tile_layers,
            collision_map,
        }
    }
}


/// The ensures of `GameMap::from_ldtk_level`: `m` is the map of `level`.
pub open spec fn level_map_of(m: GameMap, level: LdtkLevel) -> bool {
    let layers = level_layers(level);
    let w = level_width(level);
    let h = level_height(level);
    &&& m.name@ == level.identifier@
    &&& m.dimensions.x == w
    &&& m.dimensions.y == h
    &&& m.offset.x == 0
    &&& m.offset.y == 0
    &&& m.tile_layers@.len() == tile_layers_of(layers).len()
    &&& forall|k: int| 0 <= k < m.tile_layers@.len() ==> tile_layer_matches(
        #[trigger] m.tile_layers@[k],
        tile_layers_of(layers)[k],
        painted_grid(placed(layer_tiles(tile_layers_of(layers)[k]), 0, 0), w, w * h),
    )
    &&& m.collision_map@ == collision_of(level_csv(level))
}

/// `m` is the single map of all levels of `world`.
pub open spec fn world_map_of(m: GameMap, world: LdtkWorld) -> bool {
    let ls = world.levels@;
    let left = world_left(ls);
    let top = world_top(ls);
    let w = world_right(ls) - left;
    let h = world_bottom(ls) - top;
    let first = tile_layers_of(level_layers(ls[0]));
    &&& m.name@ == world.identifier@
    &&& m.dimensions.x == w
    &&& m.dimensions.y == h
    &&& m.offset.x == left
    &&& m.offset.y == top
    &&& m.tile_layers@.len() == first.len()
    &&& forall|k: int| 0 <= k < m.tile_layers@.len() ==> tile_layer_matches(
        #[trigger] m.tile_layers@[k],
        first[k],
        painted_grid(world_tile_writes(ls, k, left, top), w, w * h),
    )
    &&& m.collision_map@ == collision_grid(world_collision_writes(ls, left, top, w), w * h * 4)
}

/// Whether a world is drawn as one map: it has a level named `_world_map`.
pub open spec fn single_map_spec(world: LdtkWorld) -> bool {
    exists|i: int| 0 <= i < world.levels@.len() && (#[trigger] world.levels@[i]).identifier@ == "_world_map"@
}

/// Whether a world is drawn as one map (it has a level named `_world_map`)
/// rather than one map per level.
pub fn is_single_map(world: &LdtkWorld) -> (b: bool)
    ensures
        b == single_map_spec(*world),
{
    let mut i: usize = 0;
    while i < world.levels.len()
        invariant
            i <= world.levels@.len(),
            forall|j: int| 0 <= j < i ==> (#[trigger] world.levels@[j]).identifier@ != "_world_map"@,
        decreases world.levels@.len() - i,
    {
        if str_eq(world.levels[i].identifier.as_str(), "_world_map") {
            return true;
        }
        i = i + 1;
    }
    false
}

/// Whether the maps have pairwise distinct names.
pub open spec fn names_distinct(maps: Seq<GameMap>) -> bool {
    forall|i: int, j: int| 0 <= i < maps.len() && 0 <= j < maps.len() && i != j ==> (#[trigger] maps[i]).name@ != (#[trigger] maps[j]).name@
}

/// Whether `maps[i]` is named `name`.
pub open spec fn named_at(maps: Seq<GameMap>, name: Seq<char>, i: int) -> bool {
    0 <= i < maps.len() && maps[i].name@ == name
}

/// The maps after `m` is stored: it replaces the map of the same name, or
/// comes last if there is none.
pub open spec fn stored(maps: Seq<GameMap>, m: GameMap) -> Seq<GameMap> {
    if exists|i: int| named_at(maps, m.name@, i) {
        maps.update(choose|i: int| named_at(maps, m.name@, i), m)
    } else {
        maps.push(m)
    }
}

/// The maps after each of `ms` is stored in order.
pub open spec fn stored_all(maps: Seq<GameMap>, ms: Seq<GameMap>) -> Seq<GameMap>
    decreases ms.len(),
{
    if ms.len() == 0 {
        maps
    } else {
        stored(stored_all(maps, ms.drop_last()), ms.last())
    }
}

/// Every level of a world can be made into its own map.
pub open spec fn levels_loadable(world: LdtkWorld) -> bool {
    forall|i: int| 0 <= i < world.levels@.len() ==> level_loadable(#[trigger] world.levels@[i])
}

/// All maps of the game, looked up by name.
pub struct World {
    pub maps: Vec<GameMap>,
}

impl World {
    /// No two maps share a name.
    pub open spec fn wf(&self) -> bool {
        names_distinct(self.maps@)
    }

    /// A world with no maps.
    pub fn new() -> (w: World)
        ensures
            w.wf(),
            w.maps@.len() == 0,
    {
        World { maps: Vec::new() }
    }

    /// Stores a map under its name, replacing any map of that name.
    pub fn insert_map(&mut self, map: GameMap)
        requires
            old(self).wf(),
        ensures
            final(self).wf(),
            final(self).maps@ == stored(old(self).maps@, map),
    {
        let ghost ms = self.maps@;
        let mut i: usize = 0;
        while i < self.maps.len()
            invariant
                self.maps@ == ms,
                ms == old(self).maps@,
                names_distinct(ms),
                i <= ms.len(),
                forall|j: int| 0 <= j < i ==> (#[trigger] ms[j]).name@ != map.name@,
            decreases ms.len() - i,
        {
            if str_eq(self.maps[i].name.as_str(), map.name.as_str()) {
                proof {
                    assert(named_at(ms, map.name@, i as int));
                    let c = choose|c: int| named_at(ms, map.name@, c);
                    assert(c == i) by {
                        if c != i {
                            assert(ms[c].name@ == ms[i as int].name@);
                        }
                    }
                    assert(stored(ms, map) == ms.update(i as int, map));
                }
                self.maps.set(i, map);
                proof {
                    let ns = self.maps@;
                    assert forall|a: int, b: int| 0 <= a < ns.len() && 0 <= b < ns.len() && a != b
                        implies (#[trigger] ns[a]).name@ != (#[trigger] ns[b]).name@ by {
                        if a != i && b != i {
                            assert(ns[a] == ms[a] && ns[b] == ms[b]);
                        } else if a == i {
                            assert(ms[i as int].name@ == ns[a].name@);
                            assert(ns[b] == ms[b]);
                        } else {
                            assert(ms[i as int].name@ == ns[b].name@);
                            assert(ns[a] == ms[a]);
                        }
                    }
                }
                return;
            }
            i = i + 1;
        }
        proof {
            assert(!exists|c: int| named_at(ms, map.name@, c));
        }
        self.maps.push(map);
        proof {
            let ns = self.maps@;
            assert forall|a: int, b: int| 0 <= a < ns.len() && 0 <= b < ns.len() && a != b
                implies (#[trigger] ns[a]).name@ != (#[trigger] ns[b]).name@ by {
                if a < ms.len() && b < ms.len() {
                    assert(ns[a] == ms[a] && ns[b] == ms[b]);
                } else if a == ms.len() {
                    assert(ns[b] == ms[b]);
                } else {
                    assert(ns[a] == ms[a]);
                }
            }
        }
    }

    /// Adds the maps of an LDtk world: the whole world as one map when it has
    /// a level named `_world_map`, else one map per level, in order.
    pub fn add_ldtk_world(&mut self, world: &LdtkWorld)
        requires
            old(self).wf(),
            single_map_spec(*world) ==> world_loadable(*world),
            !single_map_spec(*world) ==> levels_loadable(*world),
        ensures
            final(self).wf(),
            single_map_spec(*world) ==> exists|m: GameMap| #[trigger] world_map_of(m, *world)
                && final(self).maps@ == stored(old(self).maps@, m),
            !single_map_spec(*world) ==> exists|ms: Seq<GameMap>| {
                &&& ms.len() == world.levels@.len()
                &&& forall|i: int| 0 <= i < ms.len() ==> level_map_of(#[trigger] ms[i], world.levels@[i])
                &&& final(self).maps@ == stored_all(old(self).maps@, ms)
            },
    {
        if is_single_map(world) {
            let m = GameMap::from_ldtk_world(world);
            let ghost gm = m;
            self.insert_map(m);
            assert(world_map_of(gm, *world));
        } else {
            let ghost start = self.maps@;
            let ghost mut built: Seq<GameMap> = Seq::empty();
            let mut i: usize = 0;
            while i < world.levels.len()
                invariant
                    self.wf(),
                    levels_loadable(*world),
                    i <= world.levels@.len(),
                    built.len() == i,
                    forall|k: int| 0 <= k < i ==> level_map_of(#[trigger] built[k], world.levels@[k]),
                    self.maps@ == stored_all(start, built),
                decreases world.levels@.len() - i,
            {
                assert(level_loadable(world.levels@[i as int]));
                let m = GameMap::from_ldtk_level(&world.levels[i]);
                let ghost gm = m;
                self.insert_map(m);
                proof {
                    let nb = built.push(gm);
                    assert(nb.drop_last() =~= built);
                    assert forall|k: int| 0 <= k < i + 1 implies level_map_of(#[trigger] nb[k], world.levels@[k]) by {
                        if k < i {
                            assert(nb[k] == built[k]);
                        }
                    }
                    built = nb;
                }
                i = i + 1;
            }
        }
    }

    /// The index of the map named `name`.
    pub fn get_map_id_by_name(&self, name: &str) -> (id: usize)
        requires
            exists|i: int| named_at(self.maps@, name@, i),
        ensures
            named_at(self.maps@, name@, id as int),
    {
        let mut i: usize = 0;
        while i < self.maps.len()
            invariant
                i <= self.maps@.len(),
                exists|j: int| named_at(self.maps@, name@, j),
                forall|j: int| 0 <= j < i ==> (#[trigger] self.maps@[j]).name@ != name@,
            decreases self.maps@.len() - i,
        {
            if str_eq(self.maps[i].name.as_str(), name) {
                return i;
            }
            i = i + 1;
        }
        proof {
            let j = choose|j: int| named_at(self.maps@, name@, j);
            assert(self.maps@[j].name@ == name@);
        }
        0
    }
}

/// Which quarters of a cell are blocked.
#[derive(Clone, Copy, Debug, PartialEq, Eq)]
pub struct CellQuarters {
    pub top_left: bool,
    pub top_right: bool,
    pub bottom_left: bool,
    pub bottom_right: bool,
}

/// Whether entry `index` of a collision grid exists and blocks.
pub open spec fn blocked_at(grid: Seq<Option<()>>, index: int) -> bool {
    0 <= index < grid.len() && grid[index] is Some
}

/// The collision grid index of quarter (`dx`, `dy`) of the cell at (`cx`,
/// `cy`) in a map: two entries per cell along each axis.
pub open spec fn quarter_index(m: GameMap, cx: int, cy: int, dx: int, dy: int) -> int {
    ((cy - m.offset.y) * 2 + dy) * m.dimensions.x * 2 + ((cx - m.offset.x) * 2 + dx)
}

/// Whether quarter (`dx`, `dy`) of the cell at (`cx`, `cy`) lies inside a
/// map's collision grid (two columns and two rows per cell) and its entry
/// blocks; a quarter outside the grid never blocks.
pub open spec fn quarter_blocked(m: GameMap, cx: int, cy: int, dx: int, dy: int) -> bool {
    let col = (cx - m.offset.x) * 2 + dx;
    let row = (cy - m.offset.y) * 2 + dy;
    &&& 0 <= col < m.dimensions.x * 2
    &&& 0 <= row < m.dimensions.y * 2
    &&& blocked_at(m.collision_map@, quarter_index(m, cx, cy, dx, dy))
}

/// Whether (`col`, `row`) lies inside a grid of `w` by `h` cells, two
/// columns and two rows per cell.
fn in_quarter_grid(col: i32, row: i32, w: i32, h: i32) -> (b: bool)
    ensures
        b == (0 <= col < w * 2 && 0 <= row < h * 2),
{
    let c = col as i64;
    let r = row as i64;
    0 <= c && c < (w as i64) * 2 && 0 <= r && r < (h as i64) * 2
}

/// The index arithmetic for the quarters of cell (`cx`, `cy`) fits an `i32`.
pub open spec fn quarters_fit(m: GameMap, cx: int, cy: int) -> bool {
    let tx = (cx - m.offset.x) * 2;
    let ty = (cy - m.offset.y) * 2;
    &&& fits_i32(cx - m.offset.x)
    &&& fits_i32(cy - m.offset.y)
    &&& fits_i32(tx + 1)
    &&& fits_i32(ty + 1)
    &&& fits_i32(tx)
    &&& fits_i32(ty)
    &&& fits_i32(ty * m.dimensions.x)
    &&& fits_i32(ty * m.dimensions.x * 2)
    &&& fits_i32((ty + 1) * m.dimensions.x)
    &&& fits_i32((ty + 1) * m.dimensions.x * 2)
    &&& fits_i32(ty * m.dimensions.x * 2 + tx)
    &&& fits_i32(ty * m.dimensions.x * 2 + tx + 1)
    &&& fits_i32((ty + 1) * m.dimensions.x * 2 + tx)
    &&& fits_i32((ty + 1) * m.dimensions.x * 2 + tx + 1)
}

/// Whether collision grid entry `index`, as an `i32`, exists and blocks.
fn blocked(grid: &Vec<Option<()>>, index: i32) -> (b: bool)
    ensures
        b == blocked_at(grid@, index as int),
{
    if index < 0 {
        false
    } else if (index as usize) < grid.len() {
        grid[index as usize].is_some()
    } else {
        false
    }
}

impl GameMap {
    /// Whether the quarters of the cell at (`cx`, `cy`) can be looked up:
    /// the index arithmetic of `collision_quarters` fits an `i32`.
    pub fn quarters_fit_check(&self, cx: i32, cy: i32) -> (b: bool)
        ensures
            b == quarters_fit(*self, cx as int, cy as int),
    {
        let w = self.dimensions.x as i64;
        let dx = cx as i64 - self.offset.x as i64;
        let dy = cy as i64 - self.offset.y as i64;
        if !in_i32(dx) || !in_i32(dy) {
            return false;
        }
        let tx = dx * 2;
        let ty = dy * 2;
        if !in_i32(tx) || !in_i32(ty) || !in_i32(tx + 1) || !in_i32(ty + 1) {
            return false;
        }
        assert(-0x4000_0000_0000_0000 <= ty * w <= 0x4000_0000_0000_0000) by (nonlinear_arith)
            requires
                -0x8000_0000 <= ty <= 0x7fff_ffff,
                -0x8000_0000 <= w <= 0x7fff_ffff,
        {
        }
        let a = ty * w;
        if !in_i32(a) || !in_i32(a * 2) {
            return false;
        }
        assert(-0x4000_0000_0000_0000 <= (ty + 1) * w <= 0x4000_0000_0000_0000) by (nonlinear_arith)
            requires
                -0x8000_0000 <= ty + 1 <= 0x7fff_ffff,
                -0x8000_0000 <= w <= 0x7fff_ffff,
        {
        }
        let b = (ty + 1) * w;
        if !in_i32(b) || !in_i32(b * 2) {
            return false;
        }
        in_i32(a * 2 + tx) && in_i32(a * 2 + tx + 1) && in_i32(b * 2 + tx) && in_i32(b * 2 + tx + 1)
    }

    /// Which quarters of the cell at (`cx`, `cy`) are blocked: each cell has
    /// two collision entries along each axis; a quarter outside the map's
    /// grid (so every quarter of a cell outside the map) does not block.
    pub fn collision_quarters(&self, cx: i32, cy: i32) -> (q: CellQuarters)
        requires
            quarters_fit(*self, cx as int, cy as int),
        ensures
            q.top_left == quarter_blocked(*self, cx as int, cy as int, 0, 0),
            q.top_right == quarter_blocked(*self, cx as int, cy as int, 1, 0),
            q.bottom_left == quarter_blocked(*self, cx as int, cy as int, 0, 1),
            q.bottom_right == quarter_blocked(*self, cx as int, cy as int, 1, 1),
    {
        let w = self.dimensions.x;
        let h = self.dimensions.y;
        let tx = (cx - self.offset.x) * 2;
        let ty = (cy - self.offset.y) * 2;
        let top_left_index = ty * w * 2 + tx;
        let top_right_index = ty * w * 2 + (tx + 1);
        let bottom_left_index = (ty + 1) * w * 2 + tx;
        let bottom_right_index = (ty + 1) * w * 2 + (tx + 1);
        CellQuarters {
            top_left: in_quarter_grid(tx, ty, w, h) && blocked(&self.collision_map, top_left_index),
            top_right: in_quarter_grid(tx + 1, ty, w, h) && blocked(&self.collision_map, top_right_index),
            bottom_left: in_quarter_grid(tx, ty + 1, w, h) && blocked(&self.collision_map, bottom_left_index),
            bottom_right: in_quarter_grid(tx + 1, ty + 1, w, h) && blocked(&self.collision_map, bottom_right_index),
        }
    }
}


// ------------------------------------------------------------------
// Checking LDtk data before building maps
// ------------------------------------------------------------------

/// Whether a value fits an `i32`.
fn in_i32(v: i64) -> (b: bool)
    ensures
        b == fits_i32(v as int),
{
    -2147483648i64 <= v && v <= 2147483647i64
}

/// Whether a tile can be written to a grid (see `tile_ok`).
fn tile_fits(tile: &LdtkTile, bx: i32, by: i32, left: i32, top: i32, w: i32, n: i64) -> (b: bool)
    ensures
        b == tile_ok(*tile, bx as int, by as int, left as int, top as int, w as int, n as int),
{
    if tile.px.len() < 2 {
        return false;
    }
    let x = ((#[verifier::truncate] (tile.px[0] as i32)) / 16) as i64 + bx as i64;
    let y = ((#[verifier::truncate] (tile.px[1] as i32)) / 16) as i64 + by as i64;
    assert(x == tile_x(*tile) + bx);
    assert(y == tile_y(*tile) + by);
    if !in_i32(x) || !in_i32(y) {
        return false;
    }
    let vx = x - left as i64;
    let vy = y - top as i64;
    if !in_i32(vx) || !in_i32(vy) {
        return false;
    }
    assert(-0x8000_0000 * 0x8000_0000 <= vy * w <= 0x8000_0000 * 0x8000_0000) by (nonlinear_arith)
        requires
            fits_i32(vy as int),
            fits_i32(w as int);
    let row = vy * (w as i64);
    if !in_i32(row) {
        return false;
    }
    let index = row + vx;
    0 <= index && index < n
}

/// Whether every tile of a layer can be written to the grid.
fn layer_tiles_fit(layer: &LdtkLayer, bx: i32, by: i32, left: i32, top: i32, w: i32, n: i64) -> (b: bool)
    ensures
        b == forall|k: int| 0 <= k < layer_tiles(*layer).len() ==> tile_ok(
            #[trigger] layer_tiles(*layer)[k], bx as int, by as int, left as int, top as int, w as int, n as int),
{
    let ghost all = layer_tiles(*layer);
    let mut k: usize = 0;
    while k < layer.grid_tiles.len()
        invariant
            all == layer_tiles(*layer),
            k <= layer.grid_tiles@.len(),
            forall|j: int| 0 <= j < k ==> tile_ok(#[trigger] all[j], bx as int, by as int, left as int, top as int, w as int, n as int),
        decreases layer.grid_tiles@.len() - k,
    {
        assert(all[k as int] == layer.grid_tiles@[k as int]);
        if !tile_fits(&layer.grid_tiles[k], bx, by, left, top, w, n) {
            return false;
        }
        k = k + 1;
    }
    let g = layer.grid_tiles.len();
    let mut k: usize = 0;
    while k < layer.auto_layer_tiles.len()
        invariant
            all == layer_tiles(*layer),
            g == layer.grid_tiles@.len(),
            k <= layer.auto_layer_tiles@.len(),
            forall|j: int| 0 <= j < g + k ==> tile_ok(#[trigger] all[j], bx as int, by as int, left as int, top as int, w as int, n as int),
        decreases layer.auto_layer_tiles@.len() - k,
    {
        assert(all[g + k] == layer.auto_layer_tiles@[k as int]);
        if !tile_fits(&layer.auto_layer_tiles[k], bx, by, left, top, w, n) {
            return false;
        }
        k = k + 1;
    }
    true
}

/// Whether every tile layer of a level names its tileset and lands its
/// tiles in the grid, and whether it has a tile layer at all.
fn level_layers_ok(layers: &Vec<LdtkLayer>, bx: i32, by: i32, left: i32, top: i32, w: i32, n: i64, need_tilesets: bool) -> (r: (bool, bool))
    ensures
        r.0 == ((need_tilesets ==> tilesets_named(layers@)) && forall|m: int, k: int|
            0 <= m < layers@.len() && tile_layer_spec(layers@[m]) && 0 <= k < layer_tiles(layers@[m]).len() ==> tile_ok(
                #[trigger] layer_tiles(layers@[m])[k], bx as int, by as int, left as int, top as int, w as int, n as int)),
        r.1 == exists|m: int| 0 <= m < layers@.len() && tile_layer_spec(#[trigger] layers@[m]),
{
    let mut any = false;
    let mut m: usize = 0;
    while m < layers.len()
        invariant
            m <= layers@.len(),
            any == exists|j: int| 0 <= j < m && tile_layer_spec(#[trigger] layers@[j]),
            need_tilesets ==> forall|j: int| 0 <= j < m && tile_layer_spec(#[trigger] layers@[j]) ==> layers@[j].tileset_rel_path is Some,
            forall|j: int, k: int| 0 <= j < m && tile_layer_spec(layers@[j]) && 0 <= k < layer_tiles(layers@[j]).len() ==> tile_ok(
                #[trigger] layer_tiles(layers@[j])[k], bx as int, by as int, left as int, top as int, w as int, n as int),
        decreases layers@.len() - m,
    {
        let layer = &layers[m];
        if is_tile_layer(layer) {
            any = true;
            if need_tilesets && layer.tileset_rel_path.is_none() {
                assert(!tilesets_named(layers@)) by {
                    assert(tile_layer_spec(layers@[m as int]));
                }
                assert(tile_layer_spec(layers@[m as int]));
                return (false, true);
            }
            if !layer_tiles_fit(layer, bx, by, left, top, w, n) {
                proof {
                    let k = choose|k: int| 0 <= k < layer_tiles(*layer).len() && !tile_ok(
                        layer_tiles(*layer)[k], bx as int, by as int, left as int, top as int, w as int, n as int);
                    assert(layers@[m as int] == *layer);
                    assert(!tile_ok(layer_tiles(layers@[m as int])[k], bx as int, by as int, left as int, top as int, w as int, n as int));
                    assert(tile_layer_spec(layers@[m as int]));
                }
                return (false, true);
            }
        }
        m = m + 1;
    }
    (true, any)
}

/// Whether some layer is named `collision_map`.
fn has_collision_layer(layers: &Vec<LdtkLayer>) -> (b: bool)
    ensures
        b == has_layer_named(layers@, "collision_map"@),
{
    let mut i: usize = 0;
    while i < layers.len()
        invariant
            i <= layers@.len(),
            forall|j: int| 0 <= j < i ==> (#[trigger] layers@[j]).identifier@ != "collision_map"@,
        decreases layers@.len() - i,
    {
        if str_eq(layers[i].identifier.as_str(), "collision_map") {
            return true;
        }
        i = i + 1;
    }
    false
}

proof fn lemma_some_tile_layer(ls: Seq<LdtkLayer>, j: int)
    requires
        0 <= j <= ls.len(),
    ensures
        tile_layers_from(ls, j).len() > 0 <==> exists|m: int| j <= m < ls.len() && tile_layer_spec(#[trigger] ls[m]),
    decreases ls.len() - j,
{
    if j < ls.len() {
        lemma_some_tile_layer(ls, j + 1);
        if tile_layer_spec(ls[j]) {
            assert(tile_layers_from(ls, j).len() > 0);
        } else {
            assert(tile_layers_from(ls, j) == tile_layers_from(ls, j + 1));
            if exists|m: int| j <= m < ls.len() && tile_layer_spec(#[trigger] ls[m]) {
                let m = choose|m: int| j <= m < ls.len() && tile_layer_spec(#[trigger] ls[m]);
                assert(m != j);
                assert(j + 1 <= m);
            }
        }
    }
}

/// Whether a level can be made into a map (see `level_loadable`).
pub fn level_is_loadable(level: &LdtkLevel) -> (b: bool)
    ensures
        b == level_loadable(*level),
{
    let layers = match &level.layer_instances {
        None => {
            return false;
        },
        Some(l) => l,
    };
    let w = (#[verifier::truncate] (level.px_wid as i32)) / 16;
    let h = (#[verifier::truncate] (level.px_hei as i32)) / 16;
    assert(-0x8000_0000 * 0x8000_0000 <= w * h <= 0x8000_0000 * 0x8000_0000) by (nonlinear_arith)
        requires
            fits_i32(w as int),
            fits_i32(h as int);
    let area = (w as i64) * (h as i64);
    let (tiles_ok, any) = level_layers_ok(layers, 0, 0, 0, 0, w, area, true);
    proof {
        lemma_some_tile_layer(layers@, 0);
    }
    if !tiles_ok {
        return false;
    }
    if any && !(0 <= area && area <= 2147483647) {
        return false;
    }
    has_collision_layer(layers)
}

/// The number of tile layers among `layers`.
fn count_tile_layers(layers: &Vec<LdtkLayer>) -> (n: usize)
    ensures
        n == tile_layers_of(layers@).len(),
{
    let mut n: usize = 0;
    let mut j: usize = layers.len();
    while j > 0
        invariant
            j <= layers@.len(),
            n == tile_layers_from(layers@, j as int).len(),
            n <= layers.len() - j,
        decreases j,
    {
        j = j - 1;
        if is_tile_layer(&layers[j]) {
            n = n + 1;
        }
    }
    n
}

proof fn lemma_div_by_negative(a: int, b: int)
    by (nonlinear_arith)
    requires
        a >= 0,
        b < 0,
    ensures
        a / b == -(a / (-b)),
        a % b == a % (-b),
{
}

/// Whether entry `i` of a level's collision int-grid can be written to the
/// world collision grid (see `coll_ok`).
fn coll_entry_fits(level: &LdtkLevel, i: usize, left: i32, top: i32, w: i32, n: i64) -> (b: bool)
    requires
        i <= i32::MAX,
        -0x1000_0000 <= w <= 0x1000_0000,
        -0x800_0000 <= left <= 0x800_0000,
        -0x800_0000 <= top <= 0x800_0000,
    ensures
        b == coll_ok(*level, i as int, left as int, top as int, w as int, n as int),
{
    let stride = ((#[verifier::truncate] (level.px_wid as i32)) / 16) as i64 * 2;
    if stride == 0 {
        return false;
    }
    let ii = i as i64;
    assert(stride == coll_stride(*level));
    let (q, r) = if stride > 0 {
        (ii / stride, ii % stride)
    } else {
        (-(ii / (-stride)), ii % (-stride))
    };
    proof {
        if stride < 0 {
            lemma_div_by_negative(i as int, coll_stride(*level));
        }
    }
    let bx = (#[verifier::truncate] (level.world_x as i32)) / 16;
    let by = (#[verifier::truncate] (level.world_y as i32)) / 16;
    let cx = r + bx as i64 * 2;
    let cy = q + by as i64 * 2;
    assert(cx == coll_x(*level, i as int));
    assert(cy == coll_y(*level, i as int));
    if !in_i32(cx) || !in_i32(cy) {
        return false;
    }
    let vx = cx - left as i64 * 2;
    let vy = cy - top as i64 * 2;
    if !in_i32(vx) || !in_i32(vy) {
        return false;
    }
    assert(-0x8000_0000 * 0x1000_0000 <= vy * w <= 0x8000_0000 * 0x1000_0000) by (nonlinear_arith)
        requires
            fits_i32(vy as int),
            -0x1000_0000 <= w <= 0x1000_0000;
    let row = vy * (w as i64);
    if !in_i32(row) {
        return false;
    }
    let row2 = row * 2;
    if !in_i32(row2) {
        return false;
    }
    let index = row2 + vx;
    0 <= index && index < n
}

/// Whether every entry of a level's collision int-grid can be written to
/// the world collision grid (see `level_collision_fits`).
fn level_collision_entries_fit(level: &LdtkLevel, left: i32, top: i32, w: i32, n: i64) -> (b: bool)
    requires
        level.layer_instances is Some,
        has_layer_named(level_layers(*level), "collision_map"@),
        -0x1000_0000 <= w <= 0x1000_0000,
        -0x800_0000 <= left <= 0x800_0000,
        -0x800_0000 <= top <= 0x800_0000,
    ensures
        b == level_collision_fits(*level, left as int, top as int, w as int, n as int),
{
    let layers = level.layer_instances.as_ref().unwrap();
    let c = find_collision_layer(layers);
    let csv = &layers[c].int_grid_csv;
    assert(csv@ == level_csv(*level));
    if csv.len() > 2147483647 {
        return false;
    }
    let mut i: usize = 0;
    while i < csv.len()
        invariant
            csv@ == level_csv(*level),
            csv@.len() <= i32::MAX,
            i <= csv@.len(),
            -0x1000_0000 <= w <= 0x1000_0000,
            -0x800_0000 <= left <= 0x800_0000,
            -0x800_0000 <= top <= 0x800_0000,
            forall|j: int| 0 <= j < i ==> #[trigger] coll_ok(*level, j, left as int, top as int, w as int, n as int),
        decreases csv@.len() - i,
    {
        if !coll_entry_fits(level, i, left, top, w, n) {
            return false;
        }
        i = i + 1;
    }
    true
}

/// What `world_loadable` asks of one level of a world whose map has the
/// top-left cell (`left`, `top`) and is `w` by `h` cells, and whose first
/// level has `nfirst` tile layers.
pub open spec fn level_fits_world(l: LdtkLevel, is_first: bool, nfirst: int, left: int, top: int, w: int, h: int) -> bool {
    &&& l.layer_instances is Some
    &&& tile_layers_of(level_layers(l)).len() <= nfirst
    &&& (is_first ==> tilesets_named(level_layers(l)))
    &&& level_tiles_fit(l, level_bx(l), level_by(l), left, top, w, w * h)
    &&& has_layer_named(level_layers(l), "collision_map"@)
    &&& level_collision_fits(l, left, top, w, w * h * 4)
}

/// Whether every level's corners fit an `i64` (the first condition of
/// `world_loadable`).
fn corners_fit(levels: &Vec<LdtkLevel>) -> (b: bool)
    ensures
        b == ((forall|i: int| 0 <= i < levels@.len() ==> fits_i64((#[trigger] levels@[i]).world_x + levels@[i].px_wid))
            && (forall|i: int| 0 <= i < levels@.len() ==> fits_i64((#[trigger] levels@[i]).world_y + levels@[i].px_hei))),
{
    let mut i: usize = 0;
    while i < levels.len()
        invariant
            i <= levels@.len(),
            forall|j: int| 0 <= j < i ==> fits_i64((#[trigger] levels@[j]).world_x + levels@[j].px_wid),
            forall|j: int| 0 <= j < i ==> fits_i64((#[trigger] levels@[j]).world_y + levels@[j].px_hei),
        decreases levels@.len() - i,
    {
        let l = &levels[i];
        if l.world_x.checked_add(l.px_wid).is_none() {
            assert(!fits_i64(levels@[i as int].world_x + levels@[i as int].px_wid));
            return false;
        }
        if l.world_y.checked_add(l.px_hei).is_none() {
            assert(!fits_i64(levels@[i as int].world_y + levels@[i as int].px_hei));
            return false;
        }
        i = i + 1;
    }
    true
}

/// Whether one level fits its world (see `level_fits_world`).
fn level_fits(level: &LdtkLevel, is_first: bool, nfirst: usize, left: i32, top: i32, w: i32, h: i32) -> (b: bool)
    requires
        -0x800_0000 <= left <= 0x800_0000,
        -0x800_0000 <= top <= 0x800_0000,
        -0x1000_0000 <= w <= 0x1000_0000,
        -0x1000_0000 <= h <= 0x1000_0000,
    ensures
        b == level_fits_world(*level, is_first, nfirst as int, left as int, top as int, w as int, h as int),
{
    let layers = match &level.layer_instances {
        None => {
            return false;
        },
        Some(l) => l,
    };
    assert(layers@ == level_layers(*level));
    if count_tile_layers(layers) > nfirst {
        return false;
    }
    assert(-0x1000_0000 * 0x1000_0000 <= w * h <= 0x1000_0000 * 0x1000_0000) by (nonlinear_arith)
        requires
            -0x1000_0000 <= w <= 0x1000_0000,
            -0x1000_0000 <= h <= 0x1000_0000;
    let area = w as i64 * h as i64;
    let bx = (#[verifier::truncate] (level.world_x as i32)) / 16;
    let by = (#[verifier::truncate] (level.world_y as i32)) / 16;
    let (ok, _) = level_layers_ok(layers, bx, by, left, top, w, area, is_first);
    if !ok {
        return false;
    }
    if !has_collision_layer(layers) {
        return false;
    }
    level_collision_entries_fit(level, left, top, w, area * 4)
}

proof fn lemma_world_levels(world: LdtkWorld, i: int)
    requires
        world_loadable(world),
        0 <= i < world.levels@.len(),
    ensures
        level_fits_world(
            world.levels@[i],
            i == 0,
            tile_layers_of(level_layers(world.levels@[0])).len() as int,
            world_left(world.levels@),
            world_top(world.levels@),
            world_right(world.levels@) - world_left(world.levels@),
            world_bottom(world.levels@) - world_top(world.levels@),
        ),
{
    let ls = world.levels@;
    assert(ls[i].layer_instances is Some);
    assert(tile_layers_of(level_layers(ls[i])).len() <= tile_layers_of(level_layers(ls[0])).len());
    assert(has_layer_named(level_layers(ls[i]), "collision_map"@));
}

/// Whether a world can be made into one map (see `world_loadable`).
pub fn world_is_loadable(world: &LdtkWorld) -> (b: bool)
    ensures
        b == world_loadable(*world),
{
    let levels = &world.levels;
    let ghost ls = levels@;
    if levels.len() == 0 {
        return false;
    }
    if !corners_fit(levels) {
        return false;
    }
    let (left, top, right, bottom) = world_bounds(levels);
    let w = right - left;
    let h = bottom - top;
    assert(-0x1000_0000 * 0x1000_0000 <= w * h <= 0x1000_0000 * 0x1000_0000) by (nonlinear_arith)
        requires
            -0x1000_0000 <= w <= 0x1000_0000,
            -0x1000_0000 <= h <= 0x1000_0000;
    let area = w as i64 * h as i64;
    let area4 = area * 4;
    if !(0 <= area4 && area4 <= 2147483647) {
        return false;
    }
    let first = match &levels[0].layer_instances {
        None => {
            proof {
                if world_loadable(*world) {
                    lemma_world_levels(*world, 0);
                }
            }
            return false;
        },
        Some(l) => l,
    };
    let nfirst = count_tile_layers(first);
    let ghost nf = nfirst as int;
    let mut i: usize = 0;
    while i < levels.len()
        invariant
            ls == levels@,
            ls == world.levels@,
            ls.len() > 0,
            i <= ls.len(),
            nf == tile_layers_of(level_layers(ls[0])).len(),
            nf == nfirst,
            left == world_left(ls),
            top == world_top(ls),
            w == world_right(ls) - left,
            h == world_bottom(ls) - top,
            -0x800_0000 <= left <= 0x800_0000,
            -0x800_0000 <= top <= 0x800_0000,
            -0x1000_0000 <= w <= 0x1000_0000,
            -0x1000_0000 <= h <= 0x1000_0000,
            forall|j: int| 0 <= j < i ==> level_fits_world(#[trigger] ls[j], j == 0, nf, left as int, top as int, w as int, h as int),
        decreases ls.len() - i,
    {
        if !level_fits(&levels[i], i == 0, nfirst, left, top, w, h) {
            proof {
                if world_loadable(*world) {
                    lemma_world_levels(*world, i as int);
                }
            }
            return false;
        }
        i = i + 1;
    }
    proof {
        assert forall|j: int| 0 <= j < ls.len() implies (#[trigger] ls[j]).layer_instances is Some by {
            assert(level_fits_world(ls[j], j == 0, nf, left as int, top as int, w as int, h as int));
        }
        assert(level_fits_world(ls[0], true, nf, left as int, top as int, w as int, h as int));
        assert forall|j: int| 0 <= j < ls.len() implies tile_layers_of(level_layers(#[trigger] ls[j])).len() <= tile_layers_of(level_layers(ls[0])).len() by {
            assert(level_fits_world(ls[j], j == 0, nf, left as int, top as int, w as int, h as int));
        }
        assert forall|j: int| 0 <= j < ls.len() implies level_tiles_fit(#[trigger] ls[j], level_bx(ls[j]), level_by(ls[j]), left as int, top as int, w as int, w * h) by {
            assert(level_fits_world(ls[j], j == 0, nf, left as int, top as int, w as int, h as int));
        }
        assert forall|j: int| 0 <= j < ls.len() implies has_layer_named(level_layers(#[trigger] ls[j]), "collision_map"@) by {
            assert(level_fits_world(ls[j], j == 0, nf, left as int, top as int, w as int, h as int));
        }
        assert forall|j: int| 0 <= j < ls.len() implies level_collision_fits(#[trigger] ls[j], left as int, top as int, w as int, w * h * 4) by {
            assert(level_fits_world(ls[j], j == 0, nf, left as int, top as int, w as int, h as int));
        }
    }
    true
}

// ------------------------------------------------------------------
// Laws
// ------------------------------------------------------------------

/// The last tile painted on a cell is the one the cell shows.
pub proof fn law_painted_last_wins(writes: Seq<(LdtkTile, int, int)>, w: int, c: int, k: int)
    requires
        0 <= k < writes.len(),
        tile_cell(writes[k].0, writes[k].1, writes[k].2, w) == c,
        forall|j: int| k < j < writes.len() ==> tile_cell(#[trigger] writes[j].0, writes[j].1, writes[j].2, w) != c,
    ensures
        painted(writes, w, c) == Some(writes[k].0.t as u32),
    decreases writes.len(),
{
    if k < writes.len() - 1 {
        let j = writes.len() - 1;
        assert(tile_cell(writes[j].0, writes[j].1, writes[j].2, w) != c);
        law_painted_last_wins(writes.drop_last(), w, c, k);
    }
}

/// A cell that no tile lands on stays empty.
pub proof fn law_painted_untouched(writes: Seq<(LdtkTile, int, int)>, w: int, c: int)
    requires
        forall|j: int| 0 <= j < writes.len() ==> tile_cell(#[trigger] writes[j].0, writes[j].1, writes[j].2, w) != c,
    ensures
        painted(writes, w, c) is None,
    decreases writes.len(),
{
    if writes.len() > 0 {
        let j = writes.len() - 1;
        assert(tile_cell(writes[j].0, writes[j].1, writes[j].2, w) != c);
        law_painted_untouched(writes.drop_last(), w, c);
    }
}

/// The last collision entry written to a cell quarter decides whether it
/// blocks; one never written does not block.
pub proof fn law_collision_last_wins(writes: Seq<(int, bool)>, c: int, k: int)
    requires
        0 <= k < writes.len(),
        writes[k].0 == c,
        forall|j: int| k < j < writes.len() ==> (#[trigger] writes[j]).0 != c,
    ensures
        collision_at(writes, c) == (if writes[k].1 { Some(()) } else { None }),
    decreases writes.len(),
{
    if k < writes.len() - 1 {
        let j = writes.len() - 1;
        assert(writes[j].0 != c);
        law_collision_last_wins(writes.drop_last(), c, k);
    }
}

/// Storing a map makes it the map found under its name.
pub proof fn law_stored_map_found(maps: Seq<GameMap>, m: GameMap)
    requires
        names_distinct(maps),
    ensures
        exists|i: int| named_at(stored(maps, m), m.name@, i) && stored(maps, m)[i] == m,
{
    if exists|i: int| named_at(maps, m.name@, i) {
        let i = choose|i: int| named_at(maps, m.name@, i);
        assert(named_at(stored(maps, m), m.name@, i));
    } else {
        assert(named_at(stored(maps, m), m.name@, maps.len() as int));
    }
}

/// Storing a map leaves the maps of other names where and as they were.
pub proof fn law_stored_keeps_others(maps: Seq<GameMap>, m: GameMap, i: int)
    requires
        0 <= i < maps.len(),
        maps[i].name@ != m.name@,
    ensures
        stored(maps, m)[i] == maps[i],
        stored(maps, m).len() >= maps.len(),
{
    if exists|j: int| named_at(maps, m.name@, j) {
        let j = choose|j: int| named_at(maps, m.name@, j);
        assert(j != i);
    }
}


/// Where the four quarters of a cell sit in a map's collision grid, which is
/// twice the map's width across: the top-left quarter of cell (`cx`, `cy`)
/// is entry `row * across + col` with `col = (cx - offset.x) * 2` and
/// `row = (cy - offset.y) * 2`; the top-right quarter is the next entry in
/// the same grid row, the bottom-left one a whole grid row (`across`
/// entries) further on, the bottom-right one after that. A quarter blocks
/// exactly when it lies inside the grid's columns and rows and its entry is
/// set.
pub proof fn law_quarter_layout(m: GameMap, cx: int, cy: int)
    ensures
        ({
            let col = (cx - m.offset.x) * 2;
            let row = (cy - m.offset.y) * 2;
            let across = m.dimensions.x * 2;
            let down = m.dimensions.y * 2;
            let top_left = row * across + col;
            &&& quarter_blocked(m, cx, cy, 0, 0) == (0 <= col < across && 0 <= row < down
                && blocked_at(m.collision_map@, top_left))
            &&& quarter_blocked(m, cx, cy, 1, 0) == (0 <= col + 1 < across && 0 <= row < down
                && blocked_at(m.collision_map@, top_left + 1))
            &&& quarter_blocked(m, cx, cy, 0, 1) == (0 <= col < across && 0 <= row + 1 < down
                && blocked_at(m.collision_map@, top_left + across))
            &&& quarter_blocked(m, cx, cy, 1, 1) == (0 <= col + 1 < across && 0 <= row + 1 < down
                && blocked_at(m.collision_map@, top_left + across + 1))
        }),
{
    let col = (cx - m.offset.x) * 2;
    let row = (cy - m.offset.y) * 2;
    let w = m.dimensions.x as int;
    assert(row * w * 2 == row * (w * 2)) by (nonlinear_arith);
    assert((row + 1) * w * 2 == row * (w * 2) + w * 2) by (nonlinear_arith);
}

} // verus!
