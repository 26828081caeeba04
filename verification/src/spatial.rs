//! Grid-bucketed 2D spatial index.
//!
//! The index covers a bounded integer coordinate rectangle, divided into
//! square cells of side `grid_size`. Each cell owns an unordered bucket of
//! `(id, payload)` entries. Coordinates may be negative; a position is mapped
//! to its cell with floor (Euclidean) division, so negative coordinates land
//! in the correct cell instead of clustering at zero.

use vstd::prelude::*;

verus! {

/// Default cell side of a map's spatial index.
pub const GRID_SIZE: i32 = 8;

/// Default Chebyshev radius (in cells) of adjacency queries.
pub const CHECK_RADIUS: i32 = 3;

/// Chebyshev distance between two cells: square adjacency, not circular.
pub open spec fn cheb(a: (int, int), b: (int, int)) -> int {
    vstd::math::max(vstd::math::abs(a.0 - b.0) as int, vstd::math::abs(a.1 - b.1) as int)
}

/// The cell that holds a position, for a given cell side `g`
/// (`/` on `int` is Euclidean division, which floors for positive `g`).
pub open spec fn cell_coords(pos: (i32, i32), g: int) -> (int, int) {
    (pos.0 as int / g, pos.1 as int / g)
}

/// Euclidean quotients by a positive divisor stay between the dividend and zero.
proof fn lemma_div_bounds(x: int, g: int)
    requires
        g >= 1,
    ensures
        x >= 0 ==> 0 <= x / g <= x,
        x < 0 ==> x <= x / g <= 0,
{
    vstd::arithmetic::div_mod::lemma_fundamental_div_mod(x, g);
    vstd::arithmetic::div_mod::lemma_mod_bound(x, g);
    let q = x / g;
    let r = x % g;
    assert(x >= 0 ==> 0 <= q <= x) by (nonlinear_arith)
        requires x == g * q + r, 0 <= r < g, g >= 1;
    assert(x < 0 ==> x <= q <= 0) by (nonlinear_arith)
        requires x == g * q + r, 0 <= r < g, g >= 1;
}

/// Floor division of a position onto the cell grid.
pub fn get_smallpos(grid_size: i32, pos: (i32, i32)) -> (r: (i32, i32))
    requires
        grid_size >= 1,
    ensures
        (r.0 as int, r.1 as int) == cell_coords(pos, grid_size as int),
{
    proof {
        lemma_div_bounds(pos.0 as int, grid_size as int);
        lemma_div_bounds(pos.1 as int, grid_size as int);
    }
    let x = pos.0.checked_div_euclid(grid_size).unwrap();
    let y = pos.1.checked_div_euclid(grid_size).unwrap();
    (x, y)
}

/// Chebyshev distance between two positions, widened so it never overflows.
pub fn distance(a: (i32, i32), b: (i32, i32)) -> (d: i64)
    ensures
        d == cheb((a.0 as int, a.1 as int), (b.0 as int, b.1 as int)),
{
    let dx = a.0 as i64 - b.0 as i64;
    let dy = a.1 as i64 - b.1 as i64;
    let ax = if dx < 0 { -dx } else { dx };
    let ay = if dy < 0 { -dy } else { dy };
    if ax > ay { ax } else { ay }
}

/// Law: with a cell side of 8, every position of the square
/// `[-16, -9] x [-16, -9]` falls in cell `(-2, -2)`: floor division sends
/// negative coordinates to their own cells instead of clustering them at zero.
pub proof fn lemma_negative_quadrant_cell(p: (i32, i32))
    requires
        -16 <= p.0 <= -9,
        -16 <= p.1 <= -9,
    ensures
        cell_coords(p, 8) == (-2int, -2int),
{
    vstd::arithmetic::div_mod::lemma_fundamental_div_mod(p.0 as int, 8);
    vstd::arithmetic::div_mod::lemma_mod_bound(p.0 as int, 8);
    vstd::arithmetic::div_mod::lemma_fundamental_div_mod(p.1 as int, 8);
    vstd::arithmetic::div_mod::lemma_mod_bound(p.1 as int, 8);
}

/// Index of the first entry of a bucket carrying a given id, if any.
pub open spec fn find_id<T>(s: Seq<(i32, T)>, id: i32) -> Option<int>
    decreases s.len(),
{
    if s.len() == 0 {
        None
    } else if s[0].0 == id {
        Some(0int)
    } else {
        match find_id(s.skip(1), id) {
            Some(j) => Some(j + 1),
            None => None,
        }
    }
}

/// `find_id` returns the first matching index, and `None` exactly when no
/// entry carries the id.
pub proof fn lemma_find_id_spec<T>(s: Seq<(i32, T)>, id: i32)
    ensures
        match find_id(s, id) {
            Some(j) => 0 <= j < s.len() && s[j].0 == id
                && (forall|k: int| 0 <= k < j ==> s[k].0 != id),
            None => forall|k: int| 0 <= k < s.len() ==> s[k].0 != id,
        },
    decreases s.len(),
{
    if s.len() > 0 && s[0].0 != id {
        lemma_find_id_spec(s.skip(1), id);
        let tail = s.skip(1);
        match find_id(tail, id) {
            Some(j) => {
                assert(tail[j] == s[j + 1]);
                assert forall|k: int| 0 <= k < j + 1 implies s[k].0 != id by {
                    if k >= 1 {
                        assert(tail[k - 1] == s[k]);
                    }
                }
            },
            None => {
                assert forall|k: int| 0 <= k < s.len() implies s[k].0 != id by {
                    if k >= 1 {
                        assert(tail[k - 1] == s[k]);
                    }
                }
            },
        }
    }
}

/// Concatenation of `f` over the cells `(cx, cy0), ..., (cx, cy0 + k - 1)`,
/// in the order an adjacency walk visits one row of cells.
pub open spec fn row_concat<T>(
    f: spec_fn((int, int)) -> Seq<(i32, T)>,
    cx: int,
    cy0: int,
    k: nat,
) -> Seq<(i32, T)>
    decreases k,
{
    if k == 0 {
        Seq::empty()
    } else {
        row_concat(f, cx, cy0, (k - 1) as nat) + f((cx, cy0 + k - 1))
    }
}

/// Concatenation of `f` over a `rows` by `rowlen` block of cells whose
/// lowest cell is `(cx0, cy0)`, row by row.
pub open spec fn block_concat<T>(
    f: spec_fn((int, int)) -> Seq<(i32, T)>,
    cx0: int,
    cy0: int,
    rows: nat,
    rowlen: nat,
) -> Seq<(i32, T)>
    decreases rows,
{
    if rows == 0 {
        Seq::empty()
    } else {
        block_concat(f, cx0, cy0, (rows - 1) as nat, rowlen) + row_concat(f, cx0 + rows - 1, cy0, rowlen)
    }
}

/// Membership in a concatenation splits into membership in either part.
proof fn lemma_add_contains<A>(a: Seq<A>, b: Seq<A>, e: A)
    ensures
        (a + b).contains(e) <==> a.contains(e) || b.contains(e),
{
    if (a + b).contains(e) {
        let i = choose|i: int| 0 <= i < (a + b).len() && (a + b)[i] == e;
        if i < a.len() {
            assert(a[i] == e);
        } else {
            assert(b[i - a.len()] == e);
        }
    }
    if a.contains(e) {
        let i = choose|i: int| 0 <= i < a.len() && a[i] == e;
        assert((a + b)[i] == e);
    }
    if b.contains(e) {
        let i = choose|i: int| 0 <= i < b.len() && b[i] == e;
        assert((a + b)[a.len() + i] == e);
    }
}

/// An entry is in a row concatenation exactly when some cell of the row holds it.
proof fn lemma_row_concat_contains<T>(
    f: spec_fn((int, int)) -> Seq<(i32, T)>,
    cx: int,
    cy0: int,
    k: nat,
    e: (i32, T),
)
    ensures
        row_concat(f, cx, cy0, k).contains(e)
            <==> exists|cy: int| cy0 <= cy < cy0 + k && #[trigger] f((cx, cy)).contains(e),
    decreases k,
{
    if k > 0 {
        lemma_row_concat_contains(f, cx, cy0, (k - 1) as nat, e);
        lemma_add_contains(row_concat(f, cx, cy0, (k - 1) as nat), f((cx, cy0 + k - 1)), e);
        if exists|cy: int| cy0 <= cy < cy0 + k && #[trigger] f((cx, cy)).contains(e) {
            let cy = choose|cy: int| cy0 <= cy < cy0 + k && #[trigger] f((cx, cy)).contains(e);
            if cy < cy0 + k - 1 {
                assert(exists|cy2: int| cy0 <= cy2 < cy0 + k - 1 && #[trigger] f((cx, cy2)).contains(e));
            }
        }
    }
}

/// An entry is in a block concatenation exactly when some cell of the block holds it.
proof fn lemma_block_concat_contains<T>(
    f: spec_fn((int, int)) -> Seq<(i32, T)>,
    cx0: int,
    cy0: int,
    rows: nat,
    rowlen: nat,
    e: (i32, T),
)
    ensures
        block_concat(f, cx0, cy0, rows, rowlen).contains(e)
            <==> exists|cx: int, cy: int|
                cx0 <= cx < cx0 + rows && cy0 <= cy < cy0 + rowlen && #[trigger] f((cx, cy)).contains(e),
    decreases rows,
{
    if rows > 0 {
        lemma_block_concat_contains(f, cx0, cy0, (rows - 1) as nat, rowlen, e);
        lemma_row_concat_contains(f, cx0 + rows - 1, cy0, rowlen, e);
        lemma_add_contains(
            block_concat(f, cx0, cy0, (rows - 1) as nat, rowlen),
            row_concat(f, cx0 + rows - 1, cy0, rowlen),
            e,
        );
        if exists|cx: int, cy: int|
            cx0 <= cx < cx0 + rows && cy0 <= cy < cy0 + rowlen && #[trigger] f((cx, cy)).contains(e) {
            let (cx, cy) = choose|cx: int, cy: int|
                cx0 <= cx < cx0 + rows && cy0 <= cy < cy0 + rowlen && #[trigger] f((cx, cy)).contains(e);
            if cx < cx0 + rows - 1 {
                assert(exists|cx2: int, cy2: int|
                    cx0 <= cx2 < cx0 + rows - 1 && cy0 <= cy2 < cy0 + rowlen
                        && #[trigger] f((cx2, cy2)).contains(e));
            }
        }
    }
}

/// Membership after a push: the pushed element, or an earlier one.
proof fn lemma_push_contains<A>(s: Seq<A>, x: A, e: A)
    ensures
        s.push(x).contains(e) <==> s.contains(e) || e == x,
{
    if s.push(x).contains(e) {
        let i = choose|i: int| 0 <= i < s.push(x).len() && s.push(x)[i] == e;
        if i < s.len() {
            assert(s[i] == e);
        }
    }
    if s.contains(e) {
        let i = choose|i: int| 0 <= i < s.len() && s[i] == e;
        assert(s.push(x)[i] == e);
    }
    if e == x {
        assert(s.push(x)[s.len() as int] == e);
    }
}

/// Filtering keeps exactly the members that satisfy the predicate.
proof fn lemma_filter_contains<A>(s: Seq<A>, pred: spec_fn(A) -> bool, e: A)
    ensures
        s.filter(pred).contains(e) <==> s.contains(e) && pred(e),
    decreases s.len(),
{
    reveal(Seq::filter);
    if s.len() > 0 {
        lemma_filter_contains(s.drop_last(), pred, e);
        assert(s =~= s.drop_last().push(s.last()));
        lemma_push_contains(s.drop_last(), s.last(), e);
        if pred(s.last()) {
            lemma_push_contains(s.drop_last().filter(pred), s.last(), e);
        }
    }
}

/// One filtering step: a pushed element stays exactly when it satisfies the
/// predicate.
proof fn lemma_filter_push<A>(s: Seq<A>, pred: spec_fn(A) -> bool, x: A)
    ensures
        s.push(x).filter(pred) == if pred(x) {
            s.filter(pred).push(x)
        } else {
            s.filter(pred)
        },
{
    reveal(Seq::filter);
    assert(s.push(x).drop_last() =~= s);
    assert(s.push(x).last() == x);
}

/// Keeps the entries whose id differs from `exclude`.
pub open spec fn not_id<T>(exclude: i32) -> spec_fn((i32, T)) -> bool {
    |e: (i32, T)| e.0 != exclude
}

/// Result of relocating an entry: either nothing crossed a cell boundary, or
/// a descriptor of the boundary crossing, later expanded by
/// [`MoveDelta::for_each_with`] into the newly-adjacent entries.
pub enum MoveDelta {
    Delta { from: (i32, i32), to: (i32, i32), check_radius: i32, exclude_id: i32 },
    NoMove,
}

/// A placeholder index with no cells at all; it satisfies no query and is
/// meant to be replaced by a properly constructed one before use.
impl<T> Default for SpatialHash<T> {
    fn default() -> (r: Self)
        ensures
            r.spec_grid_size() == 0,
            r.spec_topleft() == (0i32, 0i32),
            r.spec_width() == 0,
            r.spec_height() == 0,
            r.spec_check_radius() == 0,
            r.buckets().len() == 0,
    {
        SpatialHash {
            grid_size: 0,
            topleft: (0, 0),
            width: 0,
            height: 0,
            check_radius: 0,
            map: Vec::new(),
        }
    }
}

/// Grid-bucketed spatial index of `(id, payload)` entries.
pub struct SpatialHash<T> {
    grid_size: i32,
    /// Top-left corner, in cell units.
    topleft: (i32, i32),
    width: usize,
    height: usize,
    check_radius: i32,
    map: Vec<Vec<(i32, T)>>,
}

impl<T> SpatialHash<T> {
    /// Structural invariant: a positive cell size, a non-empty cell grid, a
    /// bounded query radius, and one bucket per cell.
    pub closed spec fn wf(self) -> bool {
        &&& self.grid_size >= 1
        &&& self.width >= 1
        &&& self.height >= 1
        &&& 0 <= self.check_radius < i32::MAX
        &&& self.map@.len() == self.width * self.height
        &&& self.topleft.0 + self.width <= i32::MAX + 1
        &&& self.topleft.1 + self.height <= i32::MAX + 1
    }

    /// The cell a position belongs to.
    pub open spec fn cell_of(self, pos: (i32, i32)) -> (int, int) {
        cell_coords(pos, self.spec_grid_size() as int)
    }

    /// Whether a cell lies inside the allocated grid.
    pub open spec fn cell_valid(self, c: (int, int)) -> bool {
        &&& self.spec_topleft().0 <= c.0 < self.spec_topleft().0 + self.spec_width()
        &&& self.spec_topleft().1 <= c.1 < self.spec_topleft().1 + self.spec_height()
    }

    /// Row-major bucket index of a valid cell.
    pub open spec fn cell_index(self, c: (int, int)) -> int {
        (c.0 - self.spec_topleft().0) + (c.1 - self.spec_topleft().1) * self.spec_width()
    }

    /// The entries currently stored in a valid cell.
    pub open spec fn bucket(self, c: (int, int)) -> Seq<(i32, T)> {
        self.buckets()[self.cell_index(c)]
    }

    /// All buckets, row-major.
    pub closed spec fn buckets(self) -> Seq<Seq<(i32, T)>> {
        self.map@.map_values(|b: Vec<(i32, T)>| b@)
    }

    /// The grid configuration (everything but the bucket contents).
    pub open spec fn same_config(self, other: Self) -> bool {
        &&& self.spec_grid_size() == other.spec_grid_size()
        &&& self.spec_topleft() == other.spec_topleft()
        &&& self.spec_width() == other.spec_width()
        &&& self.spec_height() == other.spec_height()
        &&& self.spec_check_radius() == other.spec_check_radius()
    }

    /// Equal indexes share a configuration.
    pub broadcast proof fn lemma_same_config_refl(a: Self, b: Self)
        ensures
            a == b ==> #[trigger] a.same_config(b),
    {
    }

    /// Shared configurations chain.
    pub proof fn lemma_same_config_trans(a: Self, b: Self, c: Self)
        requires
            a.same_config(b),
            b.same_config(c),
        ensures
            a.same_config(c),
    {
    }

    pub closed spec fn spec_grid_size(self) -> i32 {
        self.grid_size
    }

    pub closed spec fn spec_topleft(self) -> (i32, i32) {
        self.topleft
    }

    pub closed spec fn spec_width(self) -> usize {
        self.width
    }

    pub closed spec fn spec_height(self) -> usize {
        self.height
    }

    pub closed spec fn spec_check_radius(self) -> i32 {
        self.check_radius
    }

    /// Valid cells are exactly the cells with a bucket index in range;
    /// distinct valid cells use distinct buckets.
    pub proof fn lemma_cell_index_injective(self, c1: (int, int), c2: (int, int))
        requires
            self.wf(),
            self.cell_valid(c1),
            self.cell_valid(c2),
        ensures
            0 <= self.cell_index(c1) < self.buckets().len(),
            self.buckets().len() == self.spec_width() * self.spec_height(),
            self.cell_index(c1) == self.cell_index(c2) ==> c1 == c2,
    {
        assert(self.buckets().len() == self.map@.len());
        let w = self.width as int;
        let h = self.height as int;
        let x1 = c1.0 - self.topleft.0;
        let y1 = c1.1 - self.topleft.1;
        let x2 = c2.0 - self.topleft.0;
        let y2 = c2.1 - self.topleft.1;
        assert(0 <= x1 + y1 * w < w * h) by (nonlinear_arith)
            requires 0 <= x1 < w, 0 <= y1 < h;
        assert(x1 + y1 * w == x2 + y2 * w ==> x1 == x2 && y1 == y2) by (nonlinear_arith)
            requires 0 <= x1 < w, 0 <= y1 < h, 0 <= x2 < w, 0 <= y2 < h;
    }

    pub fn grid_size(&self) -> (r: i32)
        ensures
            r == self.spec_grid_size(),
    {
        self.grid_size
    }

    pub fn topleft(&self) -> (r: (i32, i32))
        ensures
            r == self.spec_topleft(),
    {
        self.topleft
    }

    pub fn width(&self) -> (r: usize)
        ensures
            r == self.spec_width(),
    {
        self.width
    }

    pub fn height(&self) -> (r: usize)
        ensures
            r == self.spec_height(),
    {
        self.height
    }

    pub fn check_radius(&self) -> (r: i32)
        ensures
            r == self.spec_check_radius(),
    {
        self.check_radius
    }

    /// How many buckets the grid holds.
    pub fn bucket_count(&self) -> (r: usize)
        ensures
            r == self.buckets().len(),
    {
        self.map.len()
    }

    /// Builds an index whose cell grid covers the rectangle from `topleft`
    /// to `bottomright` (both inclusive), with every bucket empty.
    pub fn new(grid_size: i32, topleft: (i32, i32), bottomright: (i32, i32), check_radius: i32) -> (r: Self)
        requires
            1 <= grid_size,
            0 <= check_radius < i32::MAX,
            topleft.0 <= bottomright.0,
            topleft.1 <= bottomright.1,
            (cell_coords(bottomright, grid_size as int).0 - cell_coords(topleft, grid_size as int).0 + 1)
                * (cell_coords(bottomright, grid_size as int).1 - cell_coords(topleft, grid_size as int).1 + 1)
                <= usize::MAX,
        ensures
            r.wf(),
            r.spec_grid_size() == grid_size,
            r.spec_check_radius() == check_radius,
            (r.spec_topleft().0 as int, r.spec_topleft().1 as int)
                == cell_coords(topleft, grid_size as int),
            r.spec_width() == cell_coords(bottomright, grid_size as int).0
                - cell_coords(topleft, grid_size as int).0 + 1,
            r.spec_height() == cell_coords(bottomright, grid_size as int).1
                - cell_coords(topleft, grid_size as int).1 + 1,
            r.buckets().len() == r.spec_width() * r.spec_height(),
            forall|c: (int, int)| r.cell_valid(c) ==> r.bucket(c) =~= Seq::<(i32, T)>::empty(),
    {
        let smalltopleft = get_smallpos(grid_size, topleft);
        let smallbottomright = get_smallpos(grid_size, bottomright);

        proof {
            vstd::arithmetic::div_mod::lemma_div_is_ordered(
                topleft.0 as int, bottomright.0 as int, grid_size as int);
            vstd::arithmetic::div_mod::lemma_div_is_ordered(
                topleft.1 as int, bottomright.1 as int, grid_size as int);
        }
        let xspan: i64 = smallbottomright.0 as i64 - smalltopleft.0 as i64 + 1;
        let yspan: i64 = smallbottomright.1 as i64 - smalltopleft.1 as i64 + 1;
        proof {
            assert(xspan <= usize::MAX && yspan <= usize::MAX) by (nonlinear_arith)
                requires
                    xspan as int * yspan as int <= usize::MAX as int,
                    xspan >= 1,
                    yspan >= 1;
        }
        let xsize = xspan as usize;
        let ysize = yspan as usize;
        let total = xsize * ysize;

        let mut map: Vec<Vec<(i32, T)>> = Vec::new();
        let mut i: usize = 0;
        while i < total
            invariant
                i <= total,
                map@.len() == i,
                forall|k: int| 0 <= k < i ==> map@[k]@ =~= Seq::<(i32, T)>::empty(),
            decreases total - i,
        {
            map.push(Vec::new());
            i = i + 1;
        }

        let r = Self {
            grid_size,
            topleft: smalltopleft,
            width: xsize,
            height: ysize,
            check_radius,
            map,
        };
        proof {
            assert forall|c: (int, int)| r.cell_valid(c) implies
                r.bucket(c) =~= Seq::<(i32, T)>::empty() by {
                r.lemma_cell_index_injective(c, c);
            }
        }
        r
    }

    /// The cell a position belongs to.
    pub fn get_smallpos(&self, pos: (i32, i32)) -> (r: (i32, i32))
        requires
            self.wf(),
        ensures
            (r.0 as int, r.1 as int) == self.cell_of(pos),
    {
        get_smallpos(self.grid_size, pos)
    }

    /// Bucket index of a cell, or `None` for a cell outside the grid.
    pub fn smallpos_to_index(&self, smallpos: (i32, i32)) -> (r: Option<usize>)
        requires
            self.wf(),
        ensures
            r is Some <==> self.cell_valid((smallpos.0 as int, smallpos.1 as int)),
            r is Some ==> r->0 as int == self.cell_index((smallpos.0 as int, smallpos.1 as int))
                && r->0 < self.buckets().len(),
    {
        self.cell_lookup(smallpos.0 as i64, smallpos.1 as i64)
    }

    /// Bucket index of a cell given in widened coordinates, so that callers
    /// can probe cells adjacent to the grid edge without overflow.
    fn cell_lookup(&self, cx: i64, cy: i64) -> (r: Option<usize>)
        requires
            self.wf(),
        ensures
            r is Some <==> self.cell_valid((cx as int, cy as int)),
            r is Some ==> r->0 as int == self.cell_index((cx as int, cy as int))
                && r->0 < self.buckets().len(),
    {
        if cx < i32::MIN as i64 || cx > i32::MAX as i64 || cy < i32::MIN as i64
            || cy > i32::MAX as i64 {
            return None;
        }
        if cx < self.topleft.0 as i64 || cy < self.topleft.1 as i64 {
            return None;
        }
        let xpos = cx - self.topleft.0 as i64;
        let ypos = cy - self.topleft.1 as i64;
        if xpos >= self.width as i64 || ypos >= self.height as i64 {
            return None;
        }
        let total = self.map.len();
        proof {
            self.lemma_cell_index_injective((cx as int, cy as int), (cx as int, cy as int));
        }
        Some((xpos as usize) + (ypos as usize) * self.width)
    }

    /// Bucket index of the cell holding a position, or `None` if outside.
    pub fn pos_to_index(&self, pos: (i32, i32)) -> (r: Option<usize>)
        requires
            self.wf(),
        ensures
            r is Some <==> self.cell_valid(self.cell_of(pos)),
            r is Some ==> r->0 as int == self.cell_index(self.cell_of(pos))
                && r->0 < self.buckets().len(),
    {
        let smallpos = self.get_smallpos(pos);
        self.smallpos_to_index(smallpos)
    }

    /// Read-only access to one bucket, for inspection.
    pub fn bucket_at(&self, i: usize) -> (r: &Vec<(i32, T)>)
        requires
            i < self.buckets().len(),
        ensures
            r@ == self.buckets()[i as int],
    {
        &self.map[i]
    }

    /// Appends an entry to the bucket of `pos`'s cell. A position outside the
    /// covered rectangle is silently dropped: the world is clamped at its
    /// edges, out of range is not an error.
    pub fn insert(&mut self, id: i32, object: T, pos: (i32, i32))
        requires
            old(self).wf(),
        ensures
            final(self).wf(),
            old(self).same_config(*final(self)),
            forall|c: (int, int)|
                old(self).cell_valid(c) && c != old(self).cell_of(pos)
                    ==> final(self).bucket(c) == old(self).bucket(c),
            old(self).cell_valid(old(self).cell_of(pos))
                ==> final(self).bucket(old(self).cell_of(pos))
                    == old(self).bucket(old(self).cell_of(pos)).push((id, object)),
            !old(self).cell_valid(old(self).cell_of(pos))
                ==> final(self).bucket(old(self).cell_of(pos))
                    == old(self).bucket(old(self).cell_of(pos)),
    {
        let ghost target = self.cell_of(pos);
        if let Some(i) = self.pos_to_index(pos) {
            let bucket = &mut self.map[i];
            bucket.push((id, object));
            proof {
                assert forall|c: (int, int)| self.cell_valid(c) && c != target implies
                    self.bucket(c) == old(self).bucket(c) by {
                    self.lemma_cell_index_injective(c, target);
                }
            }
        }
    }

    /// Scans a bucket for the first entry with the given id; returns the
    /// number of entries checked before the match (the bucket length if none).
    fn scan_bucket(&self, i: usize, id: i32) -> (j: usize)
        requires
            self.wf(),
            i < self.buckets().len(),
        ensures
            j <= self.buckets()[i as int].len(),
            forall|k: int| 0 <= k < j ==> self.buckets()[i as int][k].0 != id,
            j < self.buckets()[i as int].len() ==> self.buckets()[i as int][j as int].0 == id,
            find_id(self.buckets()[i as int], id) == if j < self.buckets()[i as int].len() {
                Some(j as int)
            } else {
                None::<int>
            },
    {
        let bucket = &self.map[i];
        let ghost s = self.buckets()[i as int];
        assert(bucket@ == s);
        let n = bucket.len();
        let mut j: usize = 0;
        while j < n && bucket[j].0 != id
            invariant
                n == s.len(),
                bucket@ == s,
                j <= n,
                forall|k: int| 0 <= k < j ==> s[k].0 != id,
            decreases n - j,
        {
            j = j + 1;
        }
        proof {
            lemma_find_id_spec(s, id);
            if j < s.len() {
                if let Some(jj) = find_id(s, id) {
                    assert(jj == j) by {
                        if jj < j {
                            assert(s[jj].0 != id);
                        }
                        if j < jj {
                            assert(s[j as int].0 != id);
                        }
                    }
                }
            }
        }
        j
    }

    /// Removes the first entry with a matching id from the bucket of `pos`'s
    /// cell and returns it; `None` (and no change) when the id is absent or
    /// the position falls outside the grid. Absence is not an error: callers
    /// may remove speculatively.
    pub fn remove(&mut self, net_id: i32, pos: (i32, i32)) -> (r: Option<(i32, T)>)
        requires
            old(self).wf(),
        ensures
            final(self).wf(),
            old(self).same_config(*final(self)),
            forall|c: (int, int)|
                old(self).cell_valid(c) && c != old(self).cell_of(pos)
                    ==> final(self).bucket(c) == old(self).bucket(c),
            ({
                let c = old(self).cell_of(pos);
                if old(self).cell_valid(c) {
                    match find_id(old(self).bucket(c), net_id) {
                        Some(j) => r == Some(old(self).bucket(c)[j])
                            && final(self).bucket(c) == old(self).bucket(c).remove(j),
                        None => r is None && final(self).bucket(c) == old(self).bucket(c),
                    }
                } else {
                    r is None
                }
            }),
    {
        let ghost target = self.cell_of(pos);
        let smallpos = self.get_smallpos(pos);
        if let Some(i) = self.smallpos_to_index(smallpos) {
            let j = self.scan_bucket(i, net_id);
            if j < self.map[i].len() {
                let bucket = &mut self.map[i];
                let entry = bucket.remove(j);
                proof {
                    assert forall|c: (int, int)| self.cell_valid(c) && c != target implies
                        self.bucket(c) == old(self).bucket(c) by {
                        self.lemma_cell_index_injective(c, target);
                    }
                }
                return Some(entry);
            }
        }
        None
    }

    /// Point lookup of the payload stored for an id in `pos`'s cell.
    pub fn get(&self, pos: (i32, i32), id: i32) -> (r: Option<&T>)
        requires
            self.wf(),
        ensures
            ({
                let c = self.cell_of(pos);
                if self.cell_valid(c) {
                    match find_id(self.bucket(c), id) {
                        Some(j) => r is Some && *r->0 == self.bucket(c)[j].1,
                        None => r is None,
                    }
                } else {
                    r is None
                }
            }),
    {
        let smallpos = self.get_smallpos(pos);
        if let Some(i) = self.smallpos_to_index(smallpos) {
            let j = self.scan_bucket(i, id);
            if j < self.map[i].len() {
                return Some(&self.map[i][j].1);
            }
        }
        None
    }

    /// Point lookup with mutable access to the stored payload: whatever the
    /// caller writes through the reference lands in the entry's payload
    /// slot, and nothing else moves.
    pub fn get_mut(&mut self, pos: (i32, i32), id: i32) -> (r: Option<&mut T>)
        requires
            old(self).wf(),
        ensures
            final(self).wf(),
            old(self).same_config(*final(self)),
            ({
                let c = old(self).cell_of(pos);
                match r {
                    Some(t) => old(self).cell_valid(c)
                        && find_id(old(self).bucket(c), id) is Some
                        && *t == old(self).bucket(c)[find_id(old(self).bucket(c), id)->0].1
                        && (forall|c2: (int, int)|
                            old(self).cell_valid(c2) && c2 != c
                                ==> final(self).bucket(c2) == old(self).bucket(c2))
                        && final(self).bucket(c) == old(self).bucket(c).update(
                            find_id(old(self).bucket(c), id)->0,
                            (id, *final(t)),
                        ),
                    None => *final(self) == *old(self)
                        && (old(self).cell_valid(c)
                            ==> find_id(old(self).bucket(c), id) is None),
                }
            }),
    {
        let ghost c = old(self).cell_of(pos);
        let smallpos = self.get_smallpos(pos);
        if let Some(i) = self.smallpos_to_index(smallpos) {
            let j = self.scan_bucket(i, id);
            if j < self.map[i].len() {
                proof {
                    assert forall|c2: (int, int)| old(self).cell_valid(c2) && c2 != c implies
                        0 <= old(self).cell_index(c2) < old(self).map@.len()
                            && old(self).cell_index(c2) != i as int by {
                        old(self).lemma_cell_index_injective(c2, c);
                        assert(old(self).buckets().len() == old(self).map@.len());
                    }
                }
                let bucket = &mut self.map[i];
                let entry = &mut bucket[j];
                return Some(&mut entry.1);
            }
        }
        None
    }

    /// Relocates an id from `oldpos`'s cell to `newpos`'s cell. When both
    /// positions share a cell (the common case), nothing changes and `NoMove`
    /// comes back; otherwise the entry is moved and the boundary crossing is
    /// described by a `Delta` for later expansion.
    pub fn update_pos(&mut self, id: i32, oldpos: (i32, i32), newpos: (i32, i32)) -> (r: MoveDelta)
        requires
            old(self).wf(),
        ensures
            final(self).wf(),
            old(self).same_config(*final(self)),
            ({
                let co = old(self).cell_of(oldpos);
                let cn = old(self).cell_of(newpos);
                if co == cn || !old(self).cell_valid(co) || !old(self).cell_valid(cn)
                    || find_id(old(self).bucket(co), id) is None {
                    r is NoMove && *final(self) == *old(self)
                } else {
                    let j = find_id(old(self).bucket(co), id)->0;
                    &&& r matches MoveDelta::Delta { from, to, check_radius, exclude_id }
                        && (from.0 as int, from.1 as int) == co
                        && (to.0 as int, to.1 as int) == cn
                        && check_radius == old(self).spec_check_radius()
                        && exclude_id == id
                    &&& final(self).bucket(co) == old(self).bucket(co).remove(j)
                    &&& final(self).bucket(cn)
                        == old(self).bucket(cn).push(old(self).bucket(co)[j])
                    &&& forall|c: (int, int)|
                        old(self).cell_valid(c) && c != co && c != cn
                            ==> final(self).bucket(c) == old(self).bucket(c)
                }
            }),
    {
        let ghost co = self.cell_of(oldpos);
        let ghost cn = self.cell_of(newpos);
        let oldsmallpos = self.get_smallpos(oldpos);
        let newsmallpos = self.get_smallpos(newpos);

        if oldsmallpos.0 == newsmallpos.0 && oldsmallpos.1 == newsmallpos.1 {
            return MoveDelta::NoMove;
        }

        let oldi_maybe = self.smallpos_to_index(oldsmallpos);
        let newi_maybe = self.smallpos_to_index(newsmallpos);

        if let (Some(oldi), Some(newi)) = (oldi_maybe, newi_maybe) {
            let j = self.scan_bucket(oldi, id);
            if j < self.map[oldi].len() {
                let bucket = &mut self.map[oldi];
                let entry = bucket.remove(j);
                let newbucket = &mut self.map[newi];
                newbucket.push(entry);
                proof {
                    self.lemma_cell_index_injective(co, cn);
                    assert forall|c: (int, int)| self.cell_valid(c) && c != co && c != cn implies
                        self.bucket(c) == old(self).bucket(c) by {
                        self.lemma_cell_index_injective(c, co);
                        self.lemma_cell_index_injective(c, cn);
                    }
                }
                return MoveDelta::Delta {
                    from: oldsmallpos,
                    to: newsmallpos,
                    check_radius: self.check_radius,
                    exclude_id: id,
                };
            }
        }
        MoveDelta::NoMove
    }

    /// The entries of a cell, empty for a cell outside the grid.
    pub open spec fn cell_entries(self, c: (int, int)) -> Seq<(i32, T)> {
        if self.cell_valid(c) {
            self.bucket(c)
        } else {
            Seq::empty()
        }
    }

    /// `cell_entries` as a function value, for concatenation over cell blocks.
    pub open spec fn entries_fn(self) -> spec_fn((int, int)) -> Seq<(i32, T)> {
        |c: (int, int)| self.cell_entries(c)
    }

    /// Everything an adjacency query at `pos` visits: the entries of the
    /// `(2 * check_radius + 1)^2` cell block centered on `pos`'s cell, row
    /// by row.
    pub open spec fn adjacent_seq(self, pos: (i32, i32)) -> Seq<(i32, T)> {
        let c = self.cell_of(pos);
        let r = self.spec_check_radius() as int;
        block_concat(self.entries_fn(), c.0 - r, c.1 - r, (2 * r + 1) as nat, (2 * r + 1) as nat)
    }

    /// The entries a move delta yields from one cell: entries of cells beyond
    /// `radius` of the old cell, with the mover itself excluded.
    pub open spec fn delta_entries_fn(
        self,
        from: (int, int),
        radius: int,
        exclude: i32,
    ) -> spec_fn((int, int)) -> Seq<(i32, T)> {
        |c: (int, int)| if cheb(c, from) > radius {
            self.cell_entries(c).filter(not_id(exclude))
        } else {
            Seq::empty()
        }
    }

    /// Everything a newly-adjacent walk over `md` visits.
    pub open spec fn delta_seq(self, md: MoveDelta) -> Seq<(i32, T)> {
        match md {
            MoveDelta::NoMove => Seq::empty(),
            MoveDelta::Delta { from, to, check_radius, exclude_id } => {
                let fromc = (from.0 as int, from.1 as int);
                let toc = (to.0 as int, to.1 as int);
                let r = check_radius as int;
                if r < 0 {
                    Seq::empty()
                } else {
                    block_concat(
                        self.delta_entries_fn(fromc, r, exclude_id),
                        toc.0 - r,
                        toc.1 - r,
                        (2 * r + 1) as nat,
                        (2 * r + 1) as nat,
                    )
                }
            },
        }
    }

    /// Law: an adjacency query yields exactly the entries currently stored in
    /// cells within `check_radius` (Chebyshev) of the queried position's
    /// cell — whatever the order the entries were inserted in.
    pub proof fn lemma_adjacent_exact(self, pos: (i32, i32), e: (i32, T))
        requires
            self.wf(),
        ensures
            self.adjacent_seq(pos).contains(e) <==> exists|c: (int, int)|
                cheb(c, self.cell_of(pos)) <= self.spec_check_radius()
                    && self.cell_entries(c).contains(e),
    {
        let center = self.cell_of(pos);
        let r = self.spec_check_radius() as int;
        lemma_block_concat_contains(
            self.entries_fn(), center.0 - r, center.1 - r, (2 * r + 1) as nat, (2 * r + 1) as nat, e);
        if exists|cx: int, cy: int|
            center.0 - r <= cx < center.0 + r + 1 && center.1 - r <= cy < center.1 + r + 1
                && #[trigger] self.entries_fn()((cx, cy)).contains(e) {
            let (cx, cy) = choose|cx: int, cy: int|
                center.0 - r <= cx < center.0 + r + 1 && center.1 - r <= cy < center.1 + r + 1
                    && #[trigger] self.entries_fn()((cx, cy)).contains(e);
            assert(cheb((cx, cy), center) <= r && self.cell_entries((cx, cy)).contains(e));
        }
        if exists|c: (int, int)| cheb(c, center) <= r && self.cell_entries(c).contains(e) {
            let c = choose|c: (int, int)| cheb(c, center) <= r && self.cell_entries(c).contains(e);
            assert(self.entries_fn()((c.0, c.1)).contains(e));
            assert(exists|cx: int, cy: int|
                center.0 - r <= cx < center.0 + r + 1 && center.1 - r <= cy < center.1 + r + 1
                    && #[trigger] self.entries_fn()((cx, cy)).contains(e));
        }
    }

    /// Law: a newly-adjacent walk never yields the mover itself, and every
    /// entry it yields is stored strictly beyond the delta's radius of the
    /// old cell (and within it of the new cell): nothing already adjacent
    /// before the move is reported again.
    pub proof fn lemma_newly_adjacent_sound(
        self,
        from: (i32, i32),
        to: (i32, i32),
        check_radius: i32,
        exclude_id: i32,
        e: (i32, T),
    )
        requires
            self.wf(),
            self.delta_seq(MoveDelta::Delta { from, to, check_radius, exclude_id }).contains(e),
        ensures
            e.0 != exclude_id,
            exists|c: (int, int)|
                cheb(c, (from.0 as int, from.1 as int)) > check_radius
                    && cheb(c, (to.0 as int, to.1 as int)) <= check_radius
                    && self.cell_entries(c).contains(e),
    {
        let fromc = (from.0 as int, from.1 as int);
        let toc = (to.0 as int, to.1 as int);
        let r = check_radius as int;
        let f = self.delta_entries_fn(fromc, r, exclude_id);
        lemma_block_concat_contains(f, toc.0 - r, toc.1 - r, (2 * r + 1) as nat, (2 * r + 1) as nat, e);
        let (cx, cy) = choose|cx: int, cy: int|
            toc.0 - r <= cx < toc.0 + r + 1 && toc.1 - r <= cy < toc.1 + r + 1
                && #[trigger] f((cx, cy)).contains(e);
        assert(cheb((cx, cy), fromc) > r) by {
            if cheb((cx, cy), fromc) <= r {
                assert(f((cx, cy)) =~= Seq::<(i32, T)>::empty());
            }
        }
        lemma_filter_contains(self.cell_entries((cx, cy)), not_id(exclude_id), e);
        assert(cheb((cx, cy), toc) <= r && self.cell_entries((cx, cy)).contains(e));
    }

    /// Every stored id sits in exactly one bucket slot: the invariant callers
    /// keep by inserting an id only once until it is removed.
    pub open spec fn ids_unique(self) -> bool {
        forall|c1: (int, int), c2: (int, int), i: int, j: int|
            self.cell_valid(c1) && self.cell_valid(c2)
                && 0 <= i < self.bucket(c1).len() && 0 <= j < self.bucket(c2).len()
                && #[trigger] self.bucket(c1)[i].0 == #[trigger] self.bucket(c2)[j].0
                ==> c1 == c2 && i == j
    }

    /// No bucket of the index holds an entry with the given id.
    pub open spec fn id_absent(self, id: i32) -> bool {
        forall|c: (int, int), k: int|
            self.cell_valid(c) && 0 <= k < self.bucket(c).len()
                ==> (#[trigger] self.bucket(c)[k]).0 != id
    }

    /// Law: inserting an id that is absent keeps every stored id in exactly
    /// one bucket slot — the discipline `insert` callers follow makes the
    /// uniqueness invariant self-sustaining.
    pub proof fn lemma_insert_preserves_ids_unique(pre: Self, post: Self, id: i32, object: T,
        pos: (i32, i32))
        requires
            pre.wf(),
            pre.ids_unique(),
            pre.id_absent(id),
            pre.same_config(post),
            pre.cell_valid(pre.cell_of(pos)) ==> post.bucket(pre.cell_of(pos))
                == pre.bucket(pre.cell_of(pos)).push((id, object)),
            forall|c: (int, int)| pre.cell_valid(c) && c != pre.cell_of(pos)
                ==> post.bucket(c) == pre.bucket(c),
            !pre.cell_valid(pre.cell_of(pos)) ==> post.bucket(pre.cell_of(pos))
                == pre.bucket(pre.cell_of(pos)),
        ensures
            post.ids_unique(),
    {
        let c0 = pre.cell_of(pos);
        let n0 = pre.bucket(c0).len() as int;
        assert forall|c1: (int, int), c2: (int, int), i: int, j: int|
            post.cell_valid(c1) && post.cell_valid(c2)
                && 0 <= i < post.bucket(c1).len() && 0 <= j < post.bucket(c2).len()
                && #[trigger] post.bucket(c1)[i].0 == #[trigger] post.bucket(c2)[j].0
            implies c1 == c2 && i == j by {
            let fresh1 = c1 == c0 && pre.cell_valid(c0) && i == n0;
            let fresh2 = c2 == c0 && pre.cell_valid(c0) && j == n0;
            if !fresh1 {
                assert(post.bucket(c1)[i] == pre.bucket(c1)[i]);
            }
            if !fresh2 {
                assert(post.bucket(c2)[j] == pre.bucket(c2)[j]);
            }
            if fresh1 && fresh2 {
            } else if fresh1 {
                assert(pre.bucket(c2)[j].0 != id);
                assert(post.bucket(c1)[i].0 == id);
            } else if fresh2 {
                assert(pre.bucket(c1)[i].0 != id);
                assert(post.bucket(c2)[j].0 == id);
            } else {
                assert(pre.bucket(c1)[i].0 == pre.bucket(c2)[j].0);
            }
        }
    }

    /// Law: with unique ids, an id yielded by a newly-adjacent walk was not
    /// stored in any cell within the delta's radius of the old cell, so no
    /// watcher already adjacent before the move hears of the mover twice.
    pub proof fn lemma_newly_adjacent_fresh(
        self,
        from: (i32, i32),
        to: (i32, i32),
        check_radius: i32,
        exclude_id: i32,
        e: (i32, T),
    )
        requires
            self.wf(),
            self.ids_unique(),
            self.delta_seq(MoveDelta::Delta { from, to, check_radius, exclude_id }).contains(e),
        ensures
            forall|c: (int, int), k: int|
                cheb(c, (from.0 as int, from.1 as int)) <= check_radius && self.cell_valid(c)
                    && 0 <= k < self.bucket(c).len()
                    ==> (#[trigger] self.bucket(c)[k]).0 != e.0,
    {
        self.lemma_newly_adjacent_sound(from, to, check_radius, exclude_id, e);
        let fromc = (from.0 as int, from.1 as int);
        let c0 = choose|c: (int, int)|
            cheb(c, fromc) > check_radius
                && cheb(c, (to.0 as int, to.1 as int)) <= check_radius
                && self.cell_entries(c).contains(e);
        assert(self.cell_valid(c0));
        let i0 = choose|i: int| 0 <= i < self.bucket(c0).len() && self.bucket(c0)[i] == e;
        assert forall|c: (int, int), k: int|
            cheb(c, fromc) <= check_radius && self.cell_valid(c)
                && 0 <= k < self.bucket(c).len()
                implies (#[trigger] self.bucket(c)[k]).0 != e.0 by {
            if self.bucket(c)[k].0 == e.0 {
                assert(self.bucket(c)[k].0 == self.bucket(c0)[i0].0);
            }
        }
    }
}

impl<T: Copy> SpatialHash<T> {
    /// Collects the entries of all cells within `check_radius` (Chebyshev)
    /// of `pos`'s cell: "everyone near `pos`", e.g. for an initial spawn
    /// broadcast.
    pub fn for_each_adjacent(&self, pos: (i32, i32)) -> (r: Vec<(i32, T)>)
        requires
            self.wf(),
        ensures
            r@ == self.adjacent_seq(pos),
    {
        let center = self.get_smallpos(pos);
        let rad = self.check_radius;
        let ghost f = self.entries_fn();
        let cx0: i64 = center.0 as i64 - rad as i64;
        let cy0: i64 = center.1 as i64 - rad as i64;
        let size: i64 = 2 * (rad as i64) + 1;

        let mut out: Vec<(i32, T)> = Vec::new();
        let mut xi: i64 = 0;
        while xi < size
            invariant
                self.wf(),
                0 <= xi <= size,
                size == 2 * (self.spec_check_radius() as int) + 1,
                -0x1_0000_0000 <= cx0 <= 0x1_0000_0000,
                -0x1_0000_0000 <= cy0 <= 0x1_0000_0000,
                cx0 == self.cell_of(pos).0 - self.spec_check_radius(),
                cy0 == self.cell_of(pos).1 - self.spec_check_radius(),
                f == self.entries_fn(),
                out@ == block_concat(f, cx0 as int, cy0 as int, xi as nat, size as nat),
            decreases size - xi,
        {
            let cx: i64 = cx0 + xi;
            let mut yi: i64 = 0;
            let ghost row_base = out@;
            while yi < size
                invariant
                    self.wf(),
                    0 <= yi <= size,
                    size == 2 * (self.spec_check_radius() as int) + 1,
                    -0x1_0000_0000 <= cx0 <= 0x1_0000_0000,
                    -0x1_0000_0000 <= cy0 <= 0x1_0000_0000,
                    0 <= xi <= size,
                    cx == cx0 + xi,
                    cy0 == self.cell_of(pos).1 - self.spec_check_radius(),
                    f == self.entries_fn(),
                    row_base == block_concat(f, cx0 as int, cy0 as int, xi as nat, size as nat),
                    out@ == row_base + row_concat(f, cx as int, cy0 as int, yi as nat),
                decreases size - yi,
            {
                let cy: i64 = cy0 + yi;
                let ghost before = out@;
                if let Some(i) = self.cell_lookup(cx, cy) {
                    let bucket = &self.map[i];
                    let ghost s = f((cx as int, cy as int));
                    assert(bucket@ == s);
                    let mut k: usize = 0;
                    while k < bucket.len()
                        invariant
                            k <= bucket.len(),
                            bucket@ == s,
                            out@ == before + s.take(k as int),
                        decreases bucket.len() - k,
                    {
                        out.push(bucket[k]);
                        proof {
                            assert(s.take(k + 1) =~= s.take(k as int).push(s[k as int]));
                        }
                        k = k + 1;
                    }
                    proof {
                        assert(s.take(s.len() as int) =~= s);
                    }
                } else {
                    proof {
                        assert(f((cx as int, cy as int)) =~= Seq::<(i32, T)>::empty());
                        assert(out@ =~= before + f((cx as int, cy as int)));
                    }
                }
                proof {
                    assert(out@ == row_base + row_concat(f, cx as int, cy0 as int, (yi + 1) as nat));
                }
                yi = yi + 1;
            }
            proof {
                assert(out@ == block_concat(f, cx0 as int, cy0 as int, (xi + 1) as nat, size as nat));
            }
            xi = xi + 1;
        }
        out
    }
}

impl MoveDelta {
    /// Expands the delta against an index: collects, from the cells within
    /// the delta's radius of the destination cell but beyond it of the source
    /// cell, every entry other than the mover itself. Cost follows the
    /// boundary band of the neighborhood, not its area.
    pub fn for_each_with<T: Copy>(&self, hash: &SpatialHash<T>) -> (r: Vec<(i32, T)>)
        requires
            hash.wf(),
        ensures
            r@ == hash.delta_seq(*self),
    {
        let (from, to, radius, exclude_id) = match self {
            MoveDelta::Delta { from, to, check_radius, exclude_id } =>
                (*from, *to, *check_radius, *exclude_id),
            MoveDelta::NoMove => {
                return Vec::new();
            },
        };
        if radius < 0 {
            return Vec::new();
        }
        let ghost fromc = (from.0 as int, from.1 as int);
        let ghost f = hash.delta_entries_fn(fromc, radius as int, exclude_id);
        let cx0: i64 = to.0 as i64 - radius as i64;
        let cy0: i64 = to.1 as i64 - radius as i64;
        let size: i64 = 2 * (radius as i64) + 1;

        let mut out: Vec<(i32, T)> = Vec::new();
        let mut xi: i64 = 0;
        while xi < size
            invariant
                hash.wf(),
                0 <= xi <= size,
                0 <= radius,
                size == 2 * (radius as int) + 1,
                -0x1_0000_0000 <= cx0 <= 0x1_0000_0000,
                -0x1_0000_0000 <= cy0 <= 0x1_0000_0000,
                cx0 == to.0 - radius,
                cy0 == to.1 - radius,
                fromc == (from.0 as int, from.1 as int),
                f == hash.delta_entries_fn(fromc, radius as int, exclude_id),
                out@ == block_concat(f, cx0 as int, cy0 as int, xi as nat, size as nat),
            decreases size - xi,
        {
            let cx: i64 = cx0 + xi;
            let mut yi: i64 = 0;
            let ghost row_base = out@;
            while yi < size
                invariant
                    hash.wf(),
                    0 <= yi <= size,
                    0 <= radius,
                    size == 2 * (radius as int) + 1,
                    -0x1_0000_0000 <= cx0 <= 0x1_0000_0000,
                    -0x1_0000_0000 <= cy0 <= 0x1_0000_0000,
                    0 <= xi <= size,
                    cx == cx0 + xi,
                    cy0 == to.1 - radius,
                    fromc == (from.0 as int, from.1 as int),
                    f == hash.delta_entries_fn(fromc, radius as int, exclude_id),
                    row_base == block_concat(f, cx0 as int, cy0 as int, xi as nat, size as nat),
                    out@ == row_base + row_concat(f, cx as int, cy0 as int, yi as nat),
                decreases size - yi,
            {
                let cy: i64 = cy0 + yi;
                let ghost before = out@;
                let dx = if from.0 as i64 >= cx { from.0 as i64 - cx } else { cx - from.0 as i64 };
                let dy = if from.1 as i64 >= cy { from.1 as i64 - cy } else { cy - from.1 as i64 };
                let from_distance = if dx > dy { dx } else { dy };
                if from_distance > radius as i64 {
                    if let Some(i) = hash.cell_lookup(cx, cy) {
                        let bucket = &hash.map[i];
                        let ghost s = hash.cell_entries((cx as int, cy as int));
                        let ghost pred = not_id::<T>(exclude_id);
                        assert(bucket@ == s);
                        assert(f((cx as int, cy as int)) == s.filter(pred));
                        let mut k: usize = 0;
                        while k < bucket.len()
                            invariant
                                k <= bucket.len(),
                                bucket@ == s,
                                pred == not_id::<T>(exclude_id),
                                out@ == before + s.take(k as int).filter(pred),
                            decreases bucket.len() - k,
                        {
                            let entry = bucket[k];
                            proof {
                                assert(s.take(k + 1) =~= s.take(k as int).push(s[k as int]));
                                lemma_filter_push(s.take(k as int), pred, s[k as int]);
                            }
                            if entry.0 != exclude_id {
                                out.push(entry);
                            }
                            k = k + 1;
                        }
                        proof {
                            assert(s.take(s.len() as int) =~= s);
                        }
                    } else {
                        proof {
                            reveal(Seq::filter);
                            assert(hash.cell_entries((cx as int, cy as int))
                                =~= Seq::<(i32, T)>::empty());
                            assert(f((cx as int, cy as int)) =~= Seq::<(i32, T)>::empty());
                            assert(out@ =~= before + f((cx as int, cy as int)));
                        }
                    }
                } else {
                    proof {
                        assert(f((cx as int, cy as int)) =~= Seq::<(i32, T)>::empty());
                        assert(out@ =~= before + f((cx as int, cy as int)));
                    }
                }
                proof {
                    assert(out@ == row_base + row_concat(f, cx as int, cy0 as int, (yi + 1) as nat));
                }
                yi = yi + 1;
            }
            proof {
                assert(out@ == block_concat(f, cx0 as int, cy0 as int, (xi + 1) as nat, size as nat));
            }
            xi = xi + 1;
        }
        out
    }
}

} // verus!
