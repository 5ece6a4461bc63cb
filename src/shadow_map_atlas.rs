use vstd::prelude::*;
use vstd::arithmetic::div_mod::lemma_fundamental_div_mod_converse;

verus! {

/// Side of every tile that the atlas hands out, in texels.
pub const ENTRY_SIZE: u32 = 1024;

/// Texel coordinates of a tile's top-left corner inside the atlas.
#[derive(Clone, Copy, Debug, PartialEq, Eq, Structural)]
pub struct AtlasPosition {
    pub x: u32,
    pub y: u32,
}

/// Number of whole tiles that fit along a side of `extent` texels.
pub open spec fn tiles_along(extent: int) -> int {
    extent / (ENTRY_SIZE as int)
}

/// Where the `n`-th tile lands when tiles fill rows of `columns` tiles,
/// left to right and then top to bottom.
pub open spec fn tile_position(columns: int, n: int) -> (int, int) {
    ((n % columns) * ENTRY_SIZE, (n / columns) * ENTRY_SIZE)
}

/// Two tiles overlap when their squares share an interior point.
pub open spec fn tiles_overlap(a: (int, int), b: (int, int)) -> bool {
    &&& a.0 < b.0 + ENTRY_SIZE
    &&& b.0 < a.0 + ENTRY_SIZE
    &&& a.1 < b.1 + ENTRY_SIZE
    &&& b.1 < a.1 + ENTRY_SIZE
}

/// A bump allocator of square tiles in a rectangular texture region. Tiles
/// are never given back.
pub struct ShadowMapAtlas {
    capacity_x: u32,
    capacity_y: u32,
    columns: u32,
    rows: u32,
    column: u32,
    row: u32,
}

/// One tile handed out by a [`ShadowMapAtlas`].
#[derive(Clone, Copy, Debug)]
pub struct ShadowMapAtlasEntry {
    position: AtlasPosition,
}

impl ShadowMapAtlas {
    pub closed spec fn width(&self) -> int {
        self.capacity_x as int
    }

    pub closed spec fn height(&self) -> int {
        self.capacity_y as int
    }

    /// How many tiles have been handed out so far.
    pub closed spec fn allocated(&self) -> int {
        self.row * self.columns + self.column
    }

    pub open spec fn columns(&self) -> int {
        tiles_along(self.width())
    }

    pub open spec fn rows(&self) -> int {
        tiles_along(self.height())
    }

    /// How many tiles the atlas holds in all.
    pub open spec fn capacity(&self) -> int {
        self.columns() * self.rows()
    }

    pub closed spec fn wf(&self) -> bool {
        &&& self.columns == tiles_along(self.capacity_x as int)
        &&& self.rows == tiles_along(self.capacity_y as int)
        &&& self.columns > 0 ==> self.column < self.columns
        &&& self.columns == 0 ==> self.column == 0 && self.row == 0
        &&& self.row <= self.rows
        &&& self.row == self.rows ==> self.column == 0
    }

    /// An atlas of `size` by `size` texels with nothing handed out yet.
    pub fn new(size: u32) -> (r: Self)
        ensures
            r.wf(),
            r.width() == size,
            r.height() == size,
            r.capacity() == (size as int / 1024) * (size as int / 1024),
            r.allocated() == 0,
    {
        let tiles = size / ENTRY_SIZE;
        ShadowMapAtlas {
            capacity_x: size,
            capacity_y: size,
            columns: tiles,
            rows: tiles,
            column: 0,
            row: 0,
        }
    }

    proof fn lemma_allocated_bound(&self)
        requires
            self.wf(),
        ensures
            0 <= self.allocated() <= self.capacity(),
            self.allocated() == self.capacity() <==> !(self.columns > 0 && self.row < self.rows),
            self.columns <= 0x40_0000,
            self.rows <= 0x40_0000,
    {
        let c = self.columns as int;
        let n = self.rows as int;
        let r = self.row as int;
        let k = self.column as int;
        assert(self.capacity() == c * n);
        assert(self.allocated() == r * c + k);
        if c == 0 {
            assert(c * n == 0 && r * c == 0) by (nonlinear_arith)
                requires
                    c == 0,
            ;
        } else if r < n {
            assert(0 <= r * c + k < c * n) by (nonlinear_arith)
                requires
                    0 <= r < n,
                    0 <= k < c,
            ;
        } else {
            assert(r * c + k == c * n) by (nonlinear_arith)
                requires
                    r == n,
                    k == 0,
            ;
        }
    }

    /// Whether another tile fits.
    pub fn has_room(&self) -> (r: bool)
        requires
            self.wf(),
        ensures
            r == (self.allocated() < self.capacity()),
    {
        proof {
            self.lemma_allocated_bound();
        }
        self.columns > 0 && self.row < self.rows
    }

    /// Hands out the next free tile: the row fills left to right, then the
    /// next row starts at the left edge.
    pub fn allocate(&mut self) -> (r: ShadowMapAtlasEntry)
        requires
            old(self).wf(),
            old(self).allocated() < old(self).capacity(),
        ensures
            final(self).wf(),
            final(self).width() == old(self).width(),
            final(self).height() == old(self).height(),
            final(self).allocated() == old(self).allocated() + 1,
            (r.position().x as int, r.position().y as int) == tile_position(
                old(self).columns(),
                old(self).allocated(),
            ),
            r.position().x + ENTRY_SIZE <= old(self).width(),
            r.position().y + ENTRY_SIZE <= old(self).height(),
    {
        proof {
            self.lemma_allocated_bound();
            let c = self.columns as int;
            if c == 0 || self.row >= self.rows {
                assert(self.capacity() == 0 || self.allocated() >= self.capacity()) by (
                nonlinear_arith)
                    requires
                        c == 0 ==> self.allocated() == 0,
                        c > 0 ==> self.row == self.rows && self.column == 0,
                        self.allocated() == self.row * c + self.column,
                        self.capacity() == c * self.rows,
                ;
            }
            lemma_fundamental_div_mod_converse(
                self.allocated(),
                c,
                self.row as int,
                self.column as int,
            );
            assert((self.column + 1) * ENTRY_SIZE <= self.capacity_x) by (nonlinear_arith)
                requires
                    self.column < self.columns,
                    self.columns == self.capacity_x / 1024,
            ;
            assert((self.row + 1) * ENTRY_SIZE <= self.capacity_y) by (nonlinear_arith)
                requires
                    self.row < self.rows,
                    self.rows == self.capacity_y / 1024,
            ;
        }
        let position = AtlasPosition { x: self.column * ENTRY_SIZE, y: self.row * ENTRY_SIZE };
        if self.column + 1 < self.columns {
            self.column = self.column + 1;
        } else {
            self.column = 0;
            self.row = self.row + 1;
            proof {
                assert((self.row - 1) * self.columns + self.columns == self.row * self.columns)
                    by (nonlinear_arith);
            }
        }
        ShadowMapAtlasEntry { position }
    }

    /// How many tiles have been handed out so far.
    pub fn len(&self) -> (r: u64)
        requires
            self.wf(),
        ensures
            r == self.allocated(),
    {
        proof {
            self.lemma_allocated_bound();
            assert(self.row * self.columns <= 0x40_0000u64 * 0x40_0000u64) by (nonlinear_arith)
                requires
                    self.columns <= 0x40_0000u64,
                    self.row <= 0x40_0000u64,
            ;
        }
        self.row as u64 * self.columns as u64 + self.column as u64
    }
}

impl ShadowMapAtlasEntry {
    pub closed spec fn spec_position(&self) -> AtlasPosition {
        self.position
    }

    #[verifier::when_used_as_spec(spec_position)]
    pub fn position(&self) -> (r: AtlasPosition)
        ensures
            r == self.spec_position(),
    {
        self.position
    }

    /// Side of the tile in texels.
    pub fn size(&self) -> (r: u32)
        ensures
            r == ENTRY_SIZE,
    {
        ENTRY_SIZE
    }
}

/// Distinct tiles of one atlas never overlap, and each lies inside it.
pub proof fn lemma_tiles_disjoint(columns: int, rows: int, i: int, j: int)
    requires
        columns > 0,
        0 <= i < columns * rows,
        0 <= j < columns * rows,
        i != j,
    ensures
        !tiles_overlap(tile_position(columns, i), tile_position(columns, j)),
        tile_position(columns, i).0 + ENTRY_SIZE <= columns * ENTRY_SIZE,
        tile_position(columns, i).1 + ENTRY_SIZE <= rows * ENTRY_SIZE,
{
    let (ci, ri) = (i % columns, i / columns);
    let (cj, rj) = (j % columns, j / columns);
    assert(0 <= ci < columns && 0 <= cj < columns) by (nonlinear_arith)
        requires
            columns > 0,
            ci == i % columns,
            cj == j % columns,
    ;
    assert(i == ri * columns + ci && j == rj * columns + cj) by (nonlinear_arith)
        requires
            columns > 0,
            ci == i % columns,
            cj == j % columns,
            ri == i / columns,
            rj == j / columns,
    ;
    assert(ri < rows) by (nonlinear_arith)
        requires
            columns > 0,
            0 <= ci,
            i == ri * columns + ci,
            i < columns * rows,
    ;
    if ci == cj {
        assert(ri != rj);
        assert(ri >= rj + 1 || rj >= ri + 1);
        assert(ri * ENTRY_SIZE >= rj * ENTRY_SIZE + ENTRY_SIZE || rj * ENTRY_SIZE >= ri
            * ENTRY_SIZE + ENTRY_SIZE) by (nonlinear_arith)
            requires
                ri >= rj + 1 || rj >= ri + 1,
        ;
    } else {
        assert(ci * ENTRY_SIZE >= cj * ENTRY_SIZE + ENTRY_SIZE || cj * ENTRY_SIZE >= ci
            * ENTRY_SIZE + ENTRY_SIZE) by (nonlinear_arith)
            requires
                ci >= cj + 1 || cj >= ci + 1,
        ;
    }
    assert(ci * ENTRY_SIZE + ENTRY_SIZE <= columns * ENTRY_SIZE) by (nonlinear_arith)
        requires
            ci < columns,
    ;
    assert(ri * ENTRY_SIZE + ENTRY_SIZE <= rows * ENTRY_SIZE) by (nonlinear_arith)
        requires
            ri < rows,
    ;
}

} // verus!
