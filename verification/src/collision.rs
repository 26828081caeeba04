//! The static collision grid of a map: one flag per cell of a bounded
//! rectangle, read-only during simulation. Cells outside the rectangle count
//! as blocked, so the world is walled at its edges.

use vstd::prelude::*;
use crate::spatial::{SpatialHash, cell_coords, CHECK_RADIUS, GRID_SIZE};

verus! {

/// Collision flags over a rectangle of cells.
pub struct CollisionArray {
    map: Vec<bool>,
    topleftx: i32,
    toplefty: i32,
    width: i32,
    height: i32,
    mapsize: i32,
}

impl CollisionArray {
    pub closed spec fn wf(self) -> bool {
        &&& 0 <= self.width
        &&& 0 <= self.height
        &&& self.mapsize == self.width * self.height
        &&& self.map@.len() == self.mapsize
        &&& self.topleftx + self.width <= i32::MAX + 1
        &&& self.toplefty + self.height <= i32::MAX + 1
    }

    pub closed spec fn spec_topleft(self) -> (i32, i32) {
        (self.topleftx, self.toplefty)
    }

    pub closed spec fn spec_width(self) -> i32 {
        self.width
    }

    pub closed spec fn spec_height(self) -> i32 {
        self.height
    }

    /// Whether a cell lies inside the covered rectangle.
    pub closed spec fn in_rect(self, x: int, y: int) -> bool {
        &&& self.topleftx <= x < self.topleftx + self.width
        &&& self.toplefty <= y < self.toplefty + self.height
    }

    /// Whether a cell blocks movement: its stored flag inside the rectangle,
    /// blocked everywhere outside it.
    pub closed spec fn blocked(self, x: int, y: int) -> bool {
        if self.in_rect(x, y) {
            self.map@[(x - self.topleftx) + (y - self.toplefty) * self.width]
        } else {
            true
        }
    }

    proof fn lemma_index_in_range(self, x: int, y: int)
        requires
            self.wf(),
            self.in_rect(x, y),
        ensures
            0 <= (x - self.topleftx) + (y - self.toplefty) * self.width < self.map@.len(),
    {
        let xr = x - self.topleftx;
        let yr = y - self.toplefty;
        let w = self.width as int;
        let h = self.height as int;
        assert(0 <= xr + yr * w < w * h) by (nonlinear_arith)
            requires 0 <= xr < w, 0 <= yr < h;
    }

    /// A grid with no cells: every query is out of range, so everything is
    /// blocked until a real grid replaces it.
    pub fn new() -> (r: Self)
        ensures
            r.wf(),
            r.spec_width() == 0,
            r.spec_height() == 0,
            forall|x: int, y: int| #[trigger] r.blocked(x, y),
    {
        CollisionArray {
            map: Vec::new(),
            topleftx: 0,
            toplefty: 0,
            width: 0,
            height: 0,
            mapsize: 0,
        }
    }

    /// A clear grid covering the rectangle that starts at `topleft` and
    /// extends `size` cells beyond it in each direction (inclusive).
    pub fn from_used_rect(topleft: (i32, i32), size: (i32, i32)) -> (r: Self)
        requires
            0 <= size.0 < i32::MAX,
            0 <= size.1 < i32::MAX,
            (size.0 + 1) * (size.1 + 1) <= i32::MAX,
            topleft.0 + size.0 + 1 <= i32::MAX + 1,
            topleft.1 + size.1 + 1 <= i32::MAX + 1,
        ensures
            r.wf(),
            r.spec_topleft() == topleft,
            r.spec_width() == size.0 + 1,
            r.spec_height() == size.1 + 1,
            forall|x: int, y: int| #[trigger] r.blocked(x, y) <==> !r.in_rect(x, y),
    {
        let width = size.0 + 1;
        let height = size.1 + 1;
        proof {
            assert(width * height >= width && width * height >= height) by (nonlinear_arith)
                requires width >= 1, height >= 1;
        }
        let mapsize = width * height;
        let mut map: Vec<bool> = Vec::new();
        let mut i: i32 = 0;
        while i < mapsize
            invariant
                0 <= i <= mapsize,
                map@.len() == i,
                forall|k: int| 0 <= k < i ==> !(#[trigger] map@[k]),
            decreases mapsize - i,
        {
            map.push(false);
            i = i + 1;
        }
        let r = CollisionArray {
            map,
            topleftx: topleft.0,
            toplefty: topleft.1,
            width,
            height,
            mapsize,
        };
        proof {
            assert forall|x: int, y: int| r.in_rect(x, y) implies !(#[trigger] r.blocked(x, y)) by {
                r.lemma_index_in_range(x, y);
            }
        }
        r
    }

    /// Whether the cell at `(x, y)` blocks movement; out-of-range cells do.
    pub fn get_at(&self, x: i32, y: i32) -> (r: bool)
        requires
            self.wf(),
        ensures
            r == self.blocked(x as int, y as int),
    {
        if x < self.topleftx || y < self.toplefty {
            return true;
        }
        let xr = x as i64 - self.topleftx as i64;
        let yr = y as i64 - self.toplefty as i64;
        if xr >= self.width as i64 || yr >= self.height as i64 {
            return true;
        }
        proof {
            self.lemma_index_in_range(x as int, y as int);
        }
        let at = (xr + yr * self.width as i64) as usize;
        self.map[at]
    }

    /// Sets the flag of the cell at `(x, y)`; out-of-range cells stay as
    /// they are.
    pub fn set_at(&mut self, x: i32, y: i32, to: bool)
        requires
            old(self).wf(),
        ensures
            final(self).wf(),
            final(self).spec_topleft() == old(self).spec_topleft(),
            final(self).spec_width() == old(self).spec_width(),
            final(self).spec_height() == old(self).spec_height(),
            forall|a: int, b: int| !(a == x as int && b == y as int)
                ==> #[trigger] final(self).blocked(a, b) == old(self).blocked(a, b),
            old(self).in_rect(x as int, y as int)
                ==> final(self).blocked(x as int, y as int) == to,
            !old(self).in_rect(x as int, y as int)
                ==> *final(self) == *old(self),
    {
        if x < self.topleftx || y < self.toplefty {
            return;
        }
        let xr = x as i64 - self.topleftx as i64;
        let yr = y as i64 - self.toplefty as i64;
        if xr >= self.width as i64 || yr >= self.height as i64 {
            return;
        }
        proof {
            self.lemma_index_in_range(x as int, y as int);
        }
        let at = (xr + yr * self.width as i64) as usize;
        self.map.set(at, to);
        proof {
            assert forall|a: int, b: int| !(a == x as int && b == y as int) implies
                #[trigger] final(self).blocked(a, b) == old(self).blocked(a, b) by {
                if old(self).in_rect(a, b) {
                    old(self).lemma_index_in_range(a, b);
                    let w = old(self).width as int;
                    let h = old(self).height as int;
                    let x1 = a - old(self).topleftx;
                    let y1 = b - old(self).toplefty;
                    let x2 = x - old(self).topleftx;
                    let y2 = y as int - old(self).toplefty;
                    assert(x1 + y1 * w == x2 + y2 * w ==> x1 == x2 && y1 == y2)
                        by (nonlinear_arith)
                        requires 0 <= x1 < w, 0 <= y1 < h, 0 <= x2 < w, 0 <= y2 < h;
                }
            }
        }
    }

    /// A copy with the same rectangle and the same flags.
    pub fn duplicate(&self) -> (r: Self)
        requires
            self.wf(),
        ensures
            r.wf(),
            r.spec_topleft() == self.spec_topleft(),
            r.spec_width() == self.spec_width(),
            r.spec_height() == self.spec_height(),
            forall|x: int, y: int| #[trigger] r.blocked(x, y) == self.blocked(x, y),
    {
        let r = CollisionArray {
            map: crate::clone_vec_copy(&self.map),
            topleftx: self.topleftx,
            toplefty: self.toplefty,
            width: self.width,
            height: self.height,
            mapsize: self.mapsize,
        };
        proof {
            assert forall|x: int, y: int| #[trigger] r.blocked(x, y) == self.blocked(x, y) by {
            }
        }
        r
    }

    /// The dimensions as a pair of corners, both inclusive.
    pub fn get_dimensions(&self) -> (r: ((i32, i32), (i32, i32)))
        requires
            self.wf(),
            self.spec_width() >= 1,
            self.spec_height() >= 1,
        ensures
            r.0 == self.spec_topleft(),
            r.1.0 as int == self.spec_topleft().0 + self.spec_width() - 1,
            r.1.1 as int == self.spec_topleft().1 + self.spec_height() - 1,
    {
        let brx = (self.topleftx as i64 + self.width as i64 - 1) as i32;
        let bry = (self.toplefty as i64 + self.height as i64 - 1) as i32;
        ((self.topleftx, self.toplefty), (brx, bry))
    }

    /// A spatial index with the default cell size and radius, covering this
    /// grid's rectangle.
    pub fn get_default_spatialhash<T>(&self) -> (r: SpatialHash<T>)
        requires
            self.wf(),
            self.spec_width() >= 1,
            self.spec_height() >= 1,
            ({
                let tl = self.spec_topleft();
                let br = ((tl.0 + self.spec_width() - 1) as i32, (tl.1 + self.spec_height() - 1) as i32);
                (cell_coords(br, GRID_SIZE as int).0 - cell_coords(tl, GRID_SIZE as int).0 + 1)
                    * (cell_coords(br, GRID_SIZE as int).1 - cell_coords(tl, GRID_SIZE as int).1 + 1)
                    <= usize::MAX
            }),
        ensures
            r.wf(),
            r.spec_grid_size() == GRID_SIZE,
            r.spec_check_radius() == CHECK_RADIUS,
            forall|c: (int, int)| r.cell_valid(c) ==> r.bucket(c) =~= Seq::<(i32, T)>::empty(),
    {
        let (topleft, bottomright) = self.get_dimensions();
        SpatialHash::new(GRID_SIZE, topleft, bottomright, CHECK_RADIUS)
    }
}

} // verus!
