use vstd::prelude::*;

use crate::text::{append_str, decimal, push_decimal, string_from};

verus! {

/// The three tile layers of a level.
#[derive(Clone, Copy, Debug, PartialEq, Eq, Structural)]
pub enum LayerKind {
    Ground,
    Detail,
    Logic,
}

/// A level: a `width` by `height` grid of tile IDs on each of three layers.
///
/// Each layer is stored row by row: the tile at `(x, y)` sits at index `y * width + x`.
/// `entity_count` is the number of entities the level carries; the editor does not change it.
#[derive(Debug)]
pub struct Level {
    pub width: u16,
    pub height: u16,
    pub entity_count: usize,
    pub ground: Vec<u16>,
    pub detail: Vec<u16>,
    pub logic: Vec<u16>,
}

/// What a level holds, as mathematical values.
pub struct LevelView {
    pub width: u16,
    pub height: u16,
    pub entity_count: usize,
    pub ground: Seq<u16>,
    pub detail: Seq<u16>,
    pub logic: Seq<u16>,
}

impl View for Level {
    type V = LevelView;

    open spec fn view(&self) -> LevelView {
        LevelView {
            width: self.width,
            height: self.height,
            entity_count: self.entity_count,
            ground: self.ground@,
            detail: self.detail@,
            logic: self.logic@,
        }
    }
}

impl LevelView {
    pub open spec fn size(self) -> int {
        self.width * self.height
    }

    pub open spec fn wf(self) -> bool {
        &&& self.ground.len() == self.size()
        &&& self.detail.len() == self.size()
        &&& self.logic.len() == self.size()
    }

    pub open spec fn in_bounds(self, x: int, y: int) -> bool {
        0 <= x < self.width && 0 <= y < self.height
    }

    pub open spec fn cells(self, layer: LayerKind) -> Seq<u16> {
        match layer {
            LayerKind::Ground => self.ground,
            LayerKind::Detail => self.detail,
            LayerKind::Logic => self.logic,
        }
    }

    /// The tile ID at `(x, y)` on `layer`.
    pub open spec fn tile(self, layer: LayerKind, x: int, y: int) -> u16 {
        self.cells(layer)[y * self.width + x]
    }

    pub open spec fn with_cells(self, layer: LayerKind, cells: Seq<u16>) -> LevelView {
        match layer {
            LayerKind::Ground => LevelView { ground: cells, ..self },
            LayerKind::Detail => LevelView { detail: cells, ..self },
            LayerKind::Logic => LevelView { logic: cells, ..self },
        }
    }

    /// The level with the tile at `(x, y)` on `layer` set to `value`.
    pub open spec fn with_tile(self, layer: LayerKind, x: int, y: int, value: u16) -> LevelView {
        self.with_cells(layer, self.cells(layer).update(y * self.width + x, value))
    }

    /// The level with every tile of `layer` set to `value`.
    pub open spec fn filled(self, layer: LayerKind, value: u16) -> LevelView {
        self.with_cells(layer, Seq::new(self.cells(layer).len(), |i: int| value))
    }
}

pub proof fn lemma_cell_index(width: int, height: int, x: int, y: int)
    requires
        0 <= x < width,
        0 <= y < height,
    ensures
        0 <= y * width + x < width * height,
{
    assert(0 <= y * width) by (nonlinear_arith)
        requires
            0 <= y,
            0 <= width,
    ;
    assert(y * width + x < width * height) by (nonlinear_arith)
        requires
            0 <= x < width,
            0 <= y < height,
    ;
}

pub proof fn lemma_cell_index_distinct(width: int, x1: int, y1: int, x2: int, y2: int)
    requires
        0 <= x1 < width,
        0 <= x2 < width,
        0 <= y1,
        0 <= y2,
        (x1 != x2 || y1 != y2),
    ensures
        y1 * width + x1 != y2 * width + x2,
{
    if y1 == y2 {
    } else if y1 < y2 {
        assert(y1 * width + x1 < y2 * width + x2) by (nonlinear_arith)
            requires
                0 <= x1 < width,
                0 <= x2,
                y1 < y2,
        ;
    } else {
        assert(y2 * width + x2 < y1 * width + x1) by (nonlinear_arith)
            requires
                0 <= x2 < width,
                0 <= x1,
                y2 < y1,
        ;
    }
}

/// A blank `width` by `height` level.
pub open spec fn blank_view(width: u16, height: u16) -> LevelView {
    LevelView {
        width,
        height,
        entity_count: 0,
        ground: Seq::new((width * height) as nat, |i: int| 0u16),
        detail: Seq::new((width * height) as nat, |i: int| 0u16),
        logic: Seq::new((width * height) as nat, |i: int| 0u16),
    }
}

/// Why a level operation was refused.
#[derive(Clone, Copy, Debug, PartialEq, Eq, Structural)]
pub enum LevelError {
    /// A level needs at least one tile in each direction.
    EmptyLevel { width: u16, height: u16 },
    /// The coordinates lie outside the level.
    OutOfBounds { x: u16, y: u16, width: u16, height: u16 },
}

/// The text of a level error.
pub open spec fn level_error_text(e: LevelError) -> Seq<char> {
    match e {
        LevelError::EmptyLevel { width, height } => "level must be at least 1x1, got "@ + decimal(
            width as nat,
        ) + "x"@ + decimal(height as nat),
        LevelError::OutOfBounds { x, y, width, height } => "tile ("@ + decimal(x as nat) + ", "@
            + decimal(y as nat) + ") is outside the "@ + decimal(width as nat) + "x"@ + decimal(
            height as nat,
        ) + " level"@,
    }
}

impl LevelError {
    /// The error as text.
    pub fn to_string(&self) -> (s: String)
        ensures
            s@ == level_error_text(*self),
    {
        match *self {
            LevelError::EmptyLevel { width, height } => {
                let mut s = string_from("level must be at least 1x1, got ");
                push_decimal(&mut s, width as u64);
                append_str(&mut s, "x");
                push_decimal(&mut s, height as u64);
                s
            },
            LevelError::OutOfBounds { x, y, width, height } => {
                let mut s = string_from("tile (");
                push_decimal(&mut s, x as u64);
                append_str(&mut s, ", ");
                push_decimal(&mut s, y as u64);
                append_str(&mut s, ") is outside the ");
                push_decimal(&mut s, width as u64);
                append_str(&mut s, "x");
                push_decimal(&mut s, height as u64);
                append_str(&mut s, " level");
                s
            },
        }
    }
}

fn zeros(n: usize) -> (v: Vec<u16>)
    ensures
        v@ == Seq::new(n as nat, |i: int| 0u16),
{
    let mut v: Vec<u16> = Vec::new();
    let mut i: usize = 0;
    while i < n
        invariant
            0 <= i <= n,
            v@ == Seq::new(i as nat, |k: int| 0u16),
        decreases n - i,
    {
        v.push(0);
        i = i + 1;
        proof {
            assert(v@ =~= Seq::new(i as nat, |k: int| 0u16));
        }
    }
    v
}

impl Level {
    pub open spec fn wf(&self) -> bool {
        self@.wf()
    }

    /// A blank level: every tile of every layer is 0, and it holds no entities.
    /// Refused when either dimension is 0.
    pub fn new(width: u16, height: u16) -> (r: Result<Level, LevelError>)
        ensures
            (width == 0 || height == 0) <==> r is Err,
            r matches Err(e) ==> e == (LevelError::EmptyLevel { width, height }),
            r matches Ok(level) ==> {
                &&& level.wf()
                &&& level@ == blank_view(width, height)
                &&& forall|layer: LayerKind, x: int, y: int|
                    level@.in_bounds(x, y) ==> #[trigger] level@.tile(layer, x, y) == 0
            },
    {
        if width == 0 || height == 0 {
            return Err(LevelError::EmptyLevel { width, height });
        }
        proof {
            assert(width * height <= 65535 * 65535) by (nonlinear_arith)
                requires
                    width <= 65535,
                    height <= 65535,
            ;
        }
        let n = (width as usize) * (height as usize);
        let level = Level {
            width,
            height,
            entity_count: 0,
            ground: zeros(n),
            detail: zeros(n),
            logic: zeros(n),
        };
        proof {
            assert forall|layer: LayerKind, x: int, y: int| level@.in_bounds(x, y) implies #[trigger] level@.tile(
                layer,
                x,
                y,
            ) == 0 by {
                lemma_cell_index(width as int, height as int, x, y);
            }
        }
        Ok(level)
    }

    /// The tile ID at `(x, y)` on `layer`; refused outside the level.
    pub fn tile(&self, layer: LayerKind, x: u16, y: u16) -> (r: Result<u16, LevelError>)
        requires
            self.wf(),
        ensures
            self@.in_bounds(x as int, y as int) <==> r is Ok,
            r matches Ok(v) ==> v == self@.tile(layer, x as int, y as int),
            r matches Err(e) ==> e == (LevelError::OutOfBounds {
                x,
                y,
                width: self.width,
                height: self.height,
            }),
    {
        if x >= self.width || y >= self.height {
            return Err(LevelError::OutOfBounds { x, y, width: self.width, height: self.height });
        }
        let n = self.ground.len();
        proof {
            lemma_cell_index(self.width as int, self.height as int, x as int, y as int);
            assert(y * self.width + x < n);
            assert((y as usize) * (self.width as usize) == y * self.width);
        }
        let i = (y as usize) * (self.width as usize) + (x as usize);
        let v = match layer {
            LayerKind::Ground => self.ground[i],
            LayerKind::Detail => self.detail[i],
            LayerKind::Logic => self.logic[i],
        };
        Ok(v)
    }

    /// Sets the tile at `(x, y)` on `layer` to `value`; refused outside the level, in which
    /// case nothing changes.
    pub fn set_tile(&mut self, layer: LayerKind, x: u16, y: u16, value: u16) -> (r: Result<
        (),
        LevelError,
    >)
        requires
            old(self).wf(),
        ensures
            final(self).wf(),
            old(self)@.in_bounds(x as int, y as int) <==> r is Ok,
            r is Ok ==> final(self)@ == old(self)@.with_tile(layer, x as int, y as int, value),
            r is Err ==> final(self)@ == old(self)@,
            r matches Err(e) ==> e == (LevelError::OutOfBounds {
                x,
                y,
                width: old(self).width,
                height: old(self).height,
            }),
    {
        if x >= self.width || y >= self.height {
            return Err(LevelError::OutOfBounds { x, y, width: self.width, height: self.height });
        }
        let n = self.ground.len();
        proof {
            lemma_cell_index(self.width as int, self.height as int, x as int, y as int);
            assert(y * self.width + x < n);
            assert((y as usize) * (self.width as usize) == y * self.width);
        }
        let i = (y as usize) * (self.width as usize) + (x as usize);
        match layer {
            LayerKind::Ground => self.ground.set(i, value),
            LayerKind::Detail => self.detail.set(i, value),
            LayerKind::Logic => self.logic.set(i, value),
        }
        Ok(())
    }

    /// An independent copy of the level.
    pub fn duplicate(&self) -> (r: Level)
        ensures
            r@ == self@,
    {
        Level {
            width: self.width,
            height: self.height,
            entity_count: self.entity_count,
            ground: copy_cells(&self.ground),
            detail: copy_cells(&self.detail),
            logic: copy_cells(&self.logic),
        }
    }
}

fn copy_cells(v: &Vec<u16>) -> (r: Vec<u16>)
    ensures
        r@ == v@,
{
    let mut r: Vec<u16> = Vec::new();
    let mut i: usize = 0;
    while i < v.len()
        invariant
            0 <= i <= v.len(),
            r@ == v@.take(i as int),
        decreases v.len() - i,
    {
        r.push(v[i]);
        proof {
            assert(v@.take(i + 1) =~= v@.take(i as int).push(v@[i as int]));
        }
        i = i + 1;
    }
    proof {
        assert(v@.take(v.len() as int) =~= v@);
    }
    r
}

/// Reading a tile gives back what the last write to it wrote, and a write to one tile leaves
/// every other tile, on every layer, as it was.
pub proof fn law_read_after_write(
    level: LevelView,
    layer: LayerKind,
    x: int,
    y: int,
    value: u16,
    other_layer: LayerKind,
    ox: int,
    oy: int,
)
    requires
        level.wf(),
        level.in_bounds(x, y),
        level.in_bounds(ox, oy),
    ensures
        level.with_tile(layer, x, y, value).wf(),
        level.with_tile(layer, x, y, value).tile(layer, x, y) == value,
        (other_layer != layer || ox != x || oy != y) ==> level.with_tile(layer, x, y, value).tile(
            other_layer,
            ox,
            oy,
        ) == level.tile(other_layer, ox, oy),
{
    lemma_cell_index(level.width as int, level.height as int, x, y);
    lemma_cell_index(level.width as int, level.height as int, ox, oy);
    if other_layer == layer && (ox != x || oy != y) {
        lemma_cell_index_distinct(level.width as int, x, y, ox, oy);
    }
}


/// A write to one tile, seen from every tile: it changes that tile only, and only on its
/// layer.
pub proof fn lemma_with_tile_everywhere(level: LevelView, layer: LayerKind, x: int, y: int, value: u16)
    requires
        level.wf(),
        level.in_bounds(x, y),
    ensures
        ({
            let after = level.with_tile(layer, x, y, value);
            &&& after.wf()
            &&& after.width == level.width
            &&& after.height == level.height
            &&& after.entity_count == level.entity_count
            &&& forall|l: LayerKind| l != layer ==> #[trigger] after.cells(l) == level.cells(l)
            &&& forall|ox: int, oy: int|
                level.in_bounds(ox, oy) ==> #[trigger] after.tile(layer, ox, oy) == (if ox == x
                    && oy == y {
                    value
                } else {
                    level.tile(layer, ox, oy)
                })
        }),
{
    let after = level.with_tile(layer, x, y, value);
    lemma_cell_index(level.width as int, level.height as int, x, y);
    assert forall|ox: int, oy: int| level.in_bounds(ox, oy) implies #[trigger] after.tile(
        layer,
        ox,
        oy,
    ) == (if ox == x && oy == y {
        value
    } else {
        level.tile(layer, ox, oy)
    }) by {
        law_read_after_write(level, layer, x, y, value, layer, ox, oy);
    }
}

} // verus!
