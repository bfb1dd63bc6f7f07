use vstd::prelude::*;
use vstd::arithmetic::div_mod::{
    lemma_add_mod_noop_right, lemma_fundamental_div_mod_converse, lemma_sub_mod_noop_right,
};
use rand::rngs::ThreadRng;

verus! {

// ---------------------------------------------------------------------------
// Game of Life engine, on a torus
// ---------------------------------------------------------------------------

/// Animation loops every CYCLE_LEN frames, then re-seeds.
pub const CYCLE_LEN: usize = 128;

/// The cells of a grid, row by row.
pub open spec fn cells(g: Seq<Vec<bool>>) -> Seq<Seq<bool>> {
    g.map_values(|r: Vec<bool>| r@)
}

/// The characters of a grid, row by row.
pub open spec fn chars_of(g: Seq<Vec<char>>) -> Seq<Seq<char>> {
    g.map_values(|r: Vec<char>| r@)
}

/// `g` has `h` rows of `w` cells each.
pub open spec fn is_rect<T>(g: Seq<Seq<T>>, w: int, h: int) -> bool {
    g.len() == h && forall|y: int| 0 <= y < h ==> (#[trigger] g[y]).len() == w
}

/// 1 when the cell at `(x, y)`, both taken modulo the grid's size, is alive.
pub open spec fn alive_at(g: Seq<Seq<bool>>, w: int, h: int, x: int, y: int) -> int {
    if g[y % h][x % w] { 1 } else { 0 }
}

/// The number of live cells among the eight neighbours of `(x, y)`, the grid wrapping at its edges.
#[verifier::opaque]
pub open spec fn neighbor_count(g: Seq<Seq<bool>>, w: int, h: int, x: int, y: int) -> int {
    alive_at(g, w, h, x - 1, y - 1) + alive_at(g, w, h, x, y - 1) + alive_at(g, w, h, x + 1, y - 1)
        + alive_at(g, w, h, x - 1, y) + alive_at(g, w, h, x + 1, y)
        + alive_at(g, w, h, x - 1, y + 1) + alive_at(g, w, h, x, y + 1) + alive_at(g, w, h, x + 1, y + 1)
}

/// Conway's rule: a live cell with two or three neighbours lives on, a dead one with three is born.
pub open spec fn gol_rule(alive: bool, n: int) -> bool {
    (alive && (n == 2 || n == 3)) || (!alive && n == 3)
}

/// One generation of the game on a toroidal grid.
pub open spec fn gol_next(g: Seq<Seq<bool>>) -> Seq<Seq<bool>> {
    let h = g.len() as int;
    let w = g[0].len() as int;
    Seq::new(h as nat, |y: int| Seq::new(w as nat, |x: int| gol_rule(g[y][x], neighbor_count(g, w, h, x, y))))
}

/// `n` generations of the game.
pub open spec fn gol_iter(g: Seq<Seq<bool>>, n: nat) -> Seq<Seq<bool>>
    decreases n,
{
    if n == 0 { g } else { gol_next(gol_iter(g, (n - 1) as nat)) }
}

/// Whether some cell of the grid is alive.
pub open spec fn any_alive(g: Seq<Seq<bool>>) -> bool {
    exists|y: int, x: int| 0 <= y < g.len() && 0 <= x < g[y].len() && #[trigger] g[y][x]
}

proof fn lemma_wrap(x: int, n: int)
    requires
        0 <= x < n,
    ensures
        x % n == x,
        (x - 1) % n == if x == 0 { n - 1 } else { x - 1 },
        (x + 1) % n == if x + 1 == n { 0 } else { x + 1 },
{
    lemma_fundamental_div_mod_converse(x, n, 0, x);
    if x == 0 {
        lemma_fundamental_div_mod_converse(x - 1, n, -1, n - 1);
    } else {
        lemma_fundamental_div_mod_converse(x - 1, n, 0, x - 1);
    }
    if x + 1 == n {
        lemma_fundamental_div_mod_converse(x + 1, n, 1, 0);
    } else {
        lemma_fundamental_div_mod_converse(x + 1, n, 0, x + 1);
    }
}

fn cell_value(grid: &Vec<Vec<bool>>, x: usize, y: usize) -> (r: u8)
    requires
        y < grid@.len(),
        x < grid@[y as int]@.len(),
    ensures
        r == bit(grid@[y as int]@[x as int]),
{
    if grid[y][x] { 1 } else { 0 }
}

pub open spec fn bit(b: bool) -> int {
    if b { 1 } else { 0 }
}

proof fn lemma_neighbor_count_unwrapped(g: Seq<Seq<bool>>, w: int, h: int, x: int, y: int, xl: int, xr: int, yu: int, yd: int)
    requires
        0 <= x < w,
        0 <= y < h,
        xl == if x == 0 { w - 1 } else { x - 1 },
        xr == if x + 1 == w { 0 } else { x + 1 },
        yu == if y == 0 { h - 1 } else { y - 1 },
        yd == if y + 1 == h { 0 } else { y + 1 },
    ensures
        neighbor_count(g, w, h, x, y) == bit(g[yu][xl]) + bit(g[yu][x]) + bit(g[yu][xr]) + bit(g[y][xl])
            + bit(g[y][xr]) + bit(g[yd][xl]) + bit(g[yd][x]) + bit(g[yd][xr]),
{
    lemma_wrap(x, w);
    lemma_wrap(y, h);
    reveal(neighbor_count);
}

/// Count the live neighbours of `(x, y)`, wrapping around the edges.
#[verifier::rlimit(50)]
#[verifier::spinoff_prover]
fn count_neighbors(grid: &Vec<Vec<bool>>, x: usize, y: usize) -> (r: u8)
    requires
        grid@.len() > 0,
        is_rect(cells(grid@), grid@[0]@.len() as int, grid@.len() as int),
        x < grid@[0]@.len(),
        y < grid@.len(),
    ensures
        r == neighbor_count(cells(grid@), grid@[0]@.len() as int, grid@.len() as int, x as int, y as int),
{
    let h = grid.len();
    let w = grid[0].len();
    let ghost g = cells(grid@);
    let xl = if x == 0 { w - 1 } else { x - 1 };
    let xr = if x + 1 == w { 0 } else { x + 1 };
    let yu = if y == 0 { h - 1 } else { y - 1 };
    let yd = if y + 1 == h { 0 } else { y + 1 };
    proof {
        lemma_neighbor_count_unwrapped(g, w as int, h as int, x as int, y as int, xl as int, xr as int, yu as int, yd as int);
        assert(g[yu as int] == grid@[yu as int]@ && g[yu as int].len() == w);
        assert(g[y as int] == grid@[y as int]@ && g[y as int].len() == w);
        assert(g[yd as int] == grid@[yd as int]@ && g[yd as int].len() == w);
        assert(grid@[yu as int]@.len() == w);
        assert(grid@[y as int]@.len() == w);
        assert(grid@[yd as int]@.len() == w);
    }
    let a = cell_value(grid, xl, yu);
    let b = cell_value(grid, x, yu);
    let c = cell_value(grid, xr, yu);
    let d = cell_value(grid, xl, y);
    let e = cell_value(grid, xr, y);
    let f = cell_value(grid, xl, yd);
    let k = cell_value(grid, x, yd);
    let l = cell_value(grid, xr, yd);
    assert(a <= 1 && b <= 1 && c <= 1 && d <= 1 && e <= 1 && f <= 1 && k <= 1 && l <= 1);
    a + b + c + d + e + f + k + l
}

/// One generation of the game on a toroidal grid.
pub fn gol_step(grid: &Vec<Vec<bool>>) -> (r: Vec<Vec<bool>>)
    requires
        grid@.len() > 0,
        is_rect(cells(grid@), grid@[0]@.len() as int, grid@.len() as int),
    ensures
        cells(r@) == gol_next(cells(grid@)),
{
    let h = grid.len();
    let w = grid[0].len();
    let ghost g = cells(grid@);
    let ghost target = gol_next(g);
    assert(g[0] == grid@[0]@);
    let mut next: Vec<Vec<bool>> = Vec::new();
    let mut y: usize = 0;
    while y < h
        invariant
            h == grid@.len(),
            w == grid@[0]@.len(),
            g == cells(grid@),
            target == gol_next(g),
            is_rect(g, w as int, h as int),
            y <= h,
            next@.len() == y,
            forall|k: int| 0 <= k < y ==> (#[trigger] next@[k])@ == target[k],
        decreases h - y,
    {
        let mut row: Vec<bool> = Vec::new();
        let mut x: usize = 0;
        assert(g[y as int] == grid@[y as int]@);
        while x < w
            invariant
                h == grid@.len(),
                w == grid@[0]@.len(),
                g == cells(grid@),
                target == gol_next(g),
                is_rect(g, w as int, h as int),
                y < h,
                x <= w,
                row@.len() == x,
                forall|k: int| 0 <= k < x ==> row@[k] == target[y as int][k],
            decreases w - x,
        {
            let n = count_neighbors(grid, x, y);
            assert(g[y as int] == grid@[y as int]@);
            let alive = grid[y][x];
            row.push((alive && (n == 2 || n == 3)) || (!alive && n == 3));
            x += 1;
        }
        assert(row@ =~= target[y as int]);
        next.push(row);
        y += 1;
    }
    assert(cells(next@) =~= target);
    next
}

/// The display symbol of a live cell, varied by position.
pub open spec fn symbol_at(x: int, y: int) -> char {
    let k = (x + y * 3) % 5;
    if k == 0 { '◆' } else if k == 1 || k == 2 { '∙' } else { '·' }
}

/// Pick a display symbol based on cell position for visual variety.
fn symbol_for(x: usize, y: usize) -> (r: char)
    requires
        x + y * 3 <= usize::MAX,
    ensures
        r == symbol_at(x as int, y as int),
{
    match (x + y * 3) % 5 {
        0 => '◆',
        1 | 2 => '∙',
        _ => '·',
    }
}

// ---------------------------------------------------------------------------
// Deterministic seed
// ---------------------------------------------------------------------------

/// Initial live cells as (dx, dy) offsets from the centre: an R-pentomino, a blinker,
/// a block and a glider.
pub open spec fn seed_offsets() -> Seq<(int, int)> {
    seq![
        (0, -1), (1, -1), (-1, 0), (0, 0), (0, 1),
        (-5, -2), (-5, -1), (-5, 0),
        (4, 1), (5, 1), (4, 2), (5, 2),
        (-4, 2), (-3, 3), (-5, 3), (-4, 3), (-3, 2),
    ]
}

/// Whether `(x, y)` is one of the seed's cells on a `w` by `h` torus.
pub open spec fn is_seed_cell(w: int, h: int, x: int, y: int) -> bool {
    exists|k: int| 0 <= k < seed_offsets().len()
        && x == (w / 2 + (#[trigger] seed_offsets()[k]).0) % w
        && y == (h / 2 + seed_offsets()[k].1) % h
}

/// The deterministic seed grid.
pub open spec fn seed_grid(w: int, h: int) -> Seq<Seq<bool>> {
    Seq::new(h as nat, |y: int| Seq::new(w as nat, |x: int| is_seed_cell(w, h, x, y)))
}

/// Initial live cells as (dx, dy) offsets from the centre.
pub const SEED_OFFSETS: [(i8, i8); 17] = [
    // R-pentomino (chaotic, long-lived)
    (0, -1), (1, -1), (-1, 0), (0, 0), (0, 1),
    // Blinker top-left
    (-5, -2), (-5, -1), (-5, 0),
    // Block bottom-right (stable, acts as obstacle)
    (4, 1), (5, 1), (4, 2), (5, 2),
    // Glider seed bottom-left
    (-4, 2), (-3, 3), (-5, 3), (-4, 3), (-3, 2),
];

fn seed_offset(k: usize) -> (r: (i8, i8))
    requires
        k < 17,
    ensures
        (r.0 as int, r.1 as int) == seed_offsets()[k as int],
{
    let r = SEED_OFFSETS[k];
    assert(SEED_OFFSETS@.map_values(|p: (i8, i8)| (p.0 as int, p.1 as int)) =~= seed_offsets());
    r
}

/// `(c + d)` modulo `n`, as the Euclidean remainder.
fn wrap_add(c: usize, d: i8, n: usize) -> (r: usize)
    requires
        0 < n,
        c < n,
        -5 <= d <= 5,
    ensures
        r == (c + d) % (n as int),
        r < n,
{
    if d >= 0 {
        let e: usize = d as usize;
        let m = e % n;
        proof {
            lemma_add_mod_noop_right(c as int, e as int, n as int);
        }
        if m >= n - c {
            proof { lemma_fundamental_div_mod_converse(c + m, n as int, 1, c + m - n); }
            c - (n - m)
        } else {
            proof { lemma_fundamental_div_mod_converse(c + m, n as int, 0, c + m); }
            c + m
        }
    } else {
        let e: usize = (-(d as i16)) as usize;
        let m = e % n;
        proof {
            lemma_sub_mod_noop_right(c as int, e as int, n as int);
        }
        if c >= m {
            proof { lemma_fundamental_div_mod_converse(c - m, n as int, 0, c - m); }
            c - m
        } else {
            proof { lemma_fundamental_div_mod_converse(c - m, n as int, -1, n - (m - c)); }
            n - (m - c)
        }
    }
}

fn blank_grid(w: usize, h: usize) -> (r: Vec<Vec<bool>>)
    ensures
        is_rect(cells(r@), w as int, h as int),
        forall|y: int, x: int| 0 <= y < h && 0 <= x < w ==> !(#[trigger] cells(r@)[y][x]),
{
    let mut g: Vec<Vec<bool>> = Vec::new();
    let mut y: usize = 0;
    while y < h
        invariant
            y <= h,
            g@.len() == y,
            forall|k: int| 0 <= k < y ==> (#[trigger] g@[k])@ == Seq::new(w as nat, |x: int| false),
        decreases h - y,
    {
        let mut row: Vec<bool> = Vec::new();
        let mut x: usize = 0;
        while x < w
            invariant
                x <= w,
                row@.len() == x,
                forall|k: int| 0 <= k < x ==> !row@[k],
            decreases w - x,
        {
            row.push(false);
            x += 1;
        }
        assert(row@ =~= Seq::new(w as nat, |x: int| false));
        g.push(row);
        y += 1;
    }
    g
}

/// The deterministic seed: a few well-known patterns around the centre.
pub fn gol_seed(width: usize, height: usize) -> (r: Vec<Vec<bool>>)
    requires
        width > 0,
        height > 0,
    ensures
        cells(r@) == seed_grid(width as int, height as int),
{
    let mut grid = blank_grid(width, height);
    let cx = width / 2;
    let cy = height / 2;
    let ghost w = width as int;
    let ghost h = height as int;
    let mut k: usize = 0;
    while k < 17
        invariant
            width > 0,
            height > 0,
            cx == w / 2,
            cy == h / 2,
            w == width,
            h == height,
            k <= 17,
            is_rect(cells(grid@), w, h),
            forall|y: int, x: int| 0 <= y < h && 0 <= x < w ==> (#[trigger] cells(grid@)[y][x]
                <==> exists|j: int| 0 <= j < k && x == (w / 2 + (#[trigger] seed_offsets()[j]).0) % w
                    && y == (h / 2 + seed_offsets()[j].1) % h),
        decreases 17 - k,
    {
        let (dx, dy) = seed_offset(k);
        let x = wrap_add(cx, dx, width);
        let y = wrap_add(cy, dy, height);
        let ghost before = cells(grid@);
        let mut row = grid[y].clone();
        assert(row@ =~= before[y as int]);
        row.set(x, true);
        grid.set(y, row);
        proof {
            let after = cells(grid@);
            assert forall|yy: int, xx: int| 0 <= yy < h && 0 <= xx < w implies (#[trigger] after[yy][xx]
                <==> exists|j: int| 0 <= j < k + 1 && xx == (w / 2 + (#[trigger] seed_offsets()[j]).0) % w
                    && yy == (h / 2 + seed_offsets()[j].1) % h) by {
                if yy == y && xx == x {
                    assert(0 <= k < k + 1 && xx == (w / 2 + seed_offsets()[k as int].0) % w
                        && yy == (h / 2 + seed_offsets()[k as int].1) % h);
                } else {
                    assert(after[yy][xx] == before[yy][xx]);
                    if exists|j: int| 0 <= j < k + 1 && xx == (w / 2 + (#[trigger] seed_offsets()[j]).0) % w
                        && yy == (h / 2 + seed_offsets()[j].1) % h {
                        let j = choose|j: int| 0 <= j < k + 1 && xx == (w / 2 + (#[trigger] seed_offsets()[j]).0) % w
                            && yy == (h / 2 + seed_offsets()[j].1) % h;
                        assert(j != k);
                    }
                }
            }
            assert forall|yy: int| 0 <= yy < h implies (#[trigger] after[yy]).len() == w by {
                if yy != y {
                    assert(after[yy] == before[yy]);
                }
            }
        }
        k += 1;
    }
    assert(seed_offsets().len() == 17);
    assert(cells(grid@) =~= seed_grid(w, h)) by {
        assert forall|yy: int| 0 <= yy < h implies cells(grid@)[yy] =~= #[trigger] seed_grid(w, h)[yy] by {
            assert forall|xx: int| 0 <= xx < w implies cells(grid@)[yy][xx] == #[trigger] seed_grid(w, h)[yy][xx] by {
                assert(cells(grid@)[yy][xx] == is_seed_cell(w, h, xx, yy));
            }
        }
    }
    grid
}

// ---------------------------------------------------------------------------
// Random seed
// ---------------------------------------------------------------------------

#[verifier::external_type_specification]
#[verifier::external_body]
pub struct ExThreadRng(ThreadRng);

/// rand's `rand::rng()`: a handle on the thread-local generator. Nothing is claimed of it.
#[verifier::external_body]
fn thread_rng() -> ThreadRng {
    rand::rng()
}

/// rand's `Rng::random_ratio`: a `bool` that is true with probability
/// `numerator / denominator`. Its documentation guarantees `false` for a zero numerator and
/// `true` when numerator and denominator are equal; it panics on a zero denominator or a
/// numerator above the denominator, which `requires` leaves out. Which value comes back
/// otherwise rests on chance and is not stated.
#[verifier::external_body]
fn random_ratio(rng: &mut ThreadRng, numerator: u32, denominator: u32) -> (r: bool)
    requires
        0 < denominator,
        numerator <= denominator,
    ensures
        numerator == 0 ==> !r,
        numerator == denominator ==> r,
{
    rand::Rng::random_ratio(rng, numerator, denominator)
}

/// A `width` by `height` grid whose cells are alive with probability 7 in 20.
fn random_seed(width: usize, height: usize) -> (r: Vec<Vec<bool>>)
    ensures
        is_rect(cells(r@), width as int, height as int),
{
    let mut rng = thread_rng();
    let mut g: Vec<Vec<bool>> = Vec::new();
    let mut y: usize = 0;
    while y < height
        invariant
            y <= height,
            g@.len() == y,
            forall|k: int| 0 <= k < y ==> (#[trigger] g@[k])@.len() == width,
        decreases height - y,
    {
        let mut row: Vec<bool> = Vec::new();
        let mut x: usize = 0;
        while x < width
            invariant
                x <= width,
                row@.len() == x,
            decreases width - x,
        {
            row.push(random_ratio(&mut rng, 7, 20));
            x += 1;
        }
        g.push(row);
        y += 1;
    }
    g
}

// ---------------------------------------------------------------------------
// LogoState: cached Game of Life grid (one step per frame, not replay)
// ---------------------------------------------------------------------------

pub struct LogoState {
    pub grid: Vec<Vec<bool>>,
    pub prev_grid: Vec<Vec<bool>>,
    pub width: usize,
    pub height: usize,
    pub frame_count: usize,
}

/// The grid is large enough to animate.
pub open spec fn animated(width: int, height: int) -> bool {
    width >= 5 && height >= 3
}

impl LogoState {
    /// The grid has the state's size when it is large enough to animate and is empty
    /// otherwise, and the cycle counter never passes CYCLE_LEN.
    pub open spec fn wf(&self) -> bool {
        &&& self.frame_count <= CYCLE_LEN
        &&& if animated(self.width as int, self.height as int) {
            is_rect(cells(self.grid@), self.width as int, self.height as int)
        } else {
            self.grid@.len() == 0
        }
    }

    /// A fresh random generation of the state's size has just been seeded.
    pub open spec fn reseeded(&self) -> bool {
        &&& self.frame_count == 0
        &&& self.prev_grid@.len() == 0
        &&& is_rect(cells(self.grid@), self.width as int, self.height as int)
    }

    pub fn new() -> (s: Self)
        ensures
            s.grid@.len() == 0,
            s.prev_grid@.len() == 0,
            s.width == 0,
            s.height == 0,
            s.frame_count == 0,
            s.wf(),
    {
        LogoState { grid: Vec::new(), prev_grid: Vec::new(), width: 0, height: 0, frame_count: 0 }
    }

    /// Advance the GoL simulation by one step.
    ///
    /// Re-seeds on: size change, cycle limit, stagnation (grid == prev), or all dead.
    pub fn advance(&mut self, width: usize, height: usize)
        requires
            old(self).wf(),
        ensures
            final(self).wf(),
            final(self).width == width,
            final(self).height == height,
            ({
                let o = *old(self);
                let f = *final(self);
                let resized = width != o.width || height != o.height || !animated(width as int, height as int);
                if resized {
                    &&& f.frame_count == 0
                    &&& f.prev_grid@.len() == 0
                    &&& animated(width as int, height as int) ==> f.reseeded()
                    &&& !animated(width as int, height as int) ==> f.grid@.len() == 0
                } else if o.frame_count >= CYCLE_LEN || cells(o.grid@) == cells(o.prev_grid@)
                    || !any_alive(cells(o.grid@)) {
                    f.reseeded()
                } else {
                    &&& cells(f.prev_grid@) == cells(o.grid@)
                    &&& cells(f.grid@) == gol_next(cells(o.grid@))
                    &&& f.frame_count == o.frame_count + 1
                }
            }),
    {
        if width != self.width || height != self.height || width < 5 || height < 3 {
            self.width = width;
            self.height = height;
            if width >= 5 && height >= 3 {
                self.grid = random_seed(width, height);
                self.prev_grid = Vec::new();
            } else {
                self.grid = Vec::new();
                self.prev_grid = Vec::new();
            }
            self.frame_count = 0;
            return;
        }
        // Forced reseed after CYCLE_LEN frames
        if self.frame_count >= CYCLE_LEN {
            self.grid = random_seed(width, height);
            self.prev_grid = Vec::new();
            self.frame_count = 0;
            return;
        }
        // Stagnation: grid unchanged from previous step (stable pattern)
        if grids_equal(&self.grid, &self.prev_grid) {
            self.grid = random_seed(width, height);
            self.prev_grid = Vec::new();
            self.frame_count = 0;
            return;
        }
        // All dead
        if !grid_any_alive(&self.grid) {
            self.grid = random_seed(width, height);
            self.prev_grid = Vec::new();
            self.frame_count = 0;
            return;
        }
        let ghost old_cells = cells(self.grid@);
        proof {
            assert(cells(self.grid@)[0] == self.grid@[0]@);
            lemma_gol_next_rect(old_cells, width as int, height as int);
        }
        std::mem::swap(&mut self.grid, &mut self.prev_grid);
        self.grid = gol_step(&self.prev_grid);
        self.frame_count += 1;
    }
}

/// Whether two grids hold the same cells.
fn grids_equal(a: &Vec<Vec<bool>>, b: &Vec<Vec<bool>>) -> (r: bool)
    ensures
        r == (cells(a@) == cells(b@)),
{
    if a.len() != b.len() {
        assert(cells(a@).len() != cells(b@).len());
        return false;
    }
    let mut y: usize = 0;
    while y < a.len()
        invariant
            a@.len() == b@.len(),
            y <= a@.len(),
            forall|k: int| 0 <= k < y ==> (#[trigger] a@[k])@ == b@[k]@,
        decreases a@.len() - y,
    {
        if a[y].len() != b[y].len() {
            assert(cells(a@)[y as int] != cells(b@)[y as int]);
            return false;
        }
        let mut x: usize = 0;
        while x < a[y].len()
            invariant
                a@.len() == b@.len(),
                y < a@.len(),
                a@[y as int]@.len() == b@[y as int]@.len(),
                x <= a@[y as int]@.len(),
                forall|k: int| 0 <= k < x ==> a@[y as int]@[k] == b@[y as int]@[k],
            decreases a@[y as int]@.len() - x,
        {
            if a[y][x] != b[y][x] {
                assert(cells(a@)[y as int][x as int] != cells(b@)[y as int][x as int]);
                return false;
            }
            x += 1;
        }
        assert(a@[y as int]@ =~= b@[y as int]@);
        y += 1;
    }
    assert(cells(a@) =~= cells(b@));
    true
}

/// Whether some cell of the grid is alive.
fn grid_any_alive(g: &Vec<Vec<bool>>) -> (r: bool)
    ensures
        r == any_alive(cells(g@)),
{
    let mut y: usize = 0;
    while y < g.len()
        invariant
            y <= g@.len(),
            forall|yy: int, xx: int| 0 <= yy < y && 0 <= xx < g@[yy]@.len() ==> !(#[trigger] cells(g@)[yy][xx]),
        decreases g@.len() - y,
    {
        let mut x: usize = 0;
        while x < g[y].len()
            invariant
                y < g@.len(),
                x <= g@[y as int]@.len(),
                forall|yy: int, xx: int| 0 <= yy < y && 0 <= xx < g@[yy]@.len() ==> !(#[trigger] cells(g@)[yy][xx]),
                forall|xx: int| 0 <= xx < x ==> !(#[trigger] g@[y as int]@[xx]),
            decreases g@[y as int]@.len() - x,
        {
            if g[y][x] {
                assert(cells(g@)[y as int][x as int]);
                return true;
            }
            x += 1;
        }
        proof {
            assert forall|yy: int, xx: int| 0 <= yy < y + 1 && 0 <= xx < g@[yy]@.len() implies !(#[trigger] cells(g@)[yy][xx]) by {
                if yy == y {
                    assert(cells(g@)[yy][xx] == g@[y as int]@[xx]);
                }
            }
        }
        y += 1;
    }
    false
}

// ---------------------------------------------------------------------------
// Frame generation
// ---------------------------------------------------------------------------

/// The character shown at `(x, y)` of a `w` by `h` frame: the centre mark, the crosshair
/// around it, the symbol of a live cell, or a blank.
pub open spec fn frame_char(alive: bool, w: int, h: int, x: int, y: int) -> char {
    let cx = w / 2;
    let cy = h / 2;
    if x == cx && y == cy {
        '◉'
    } else if y == cy && (x == cx - 2 || x == cx - 1 || x == cx + 1 || x == cx + 2) {
        '─'
    } else if x == cx && (y == cy - 1 || y == cy + 1) {
        '┼'
    } else if (x == cx - 1 || x == cx + 1) && (y == cy - 1 || y == cy + 1) {
        '─'
    } else if alive {
        symbol_at(x, y)
    } else {
        ' '
    }
}

/// Whether the cell at `(x, y)` exists in `g` and is alive.
pub open spec fn cell_alive(g: Seq<Seq<bool>>, x: int, y: int) -> bool {
    0 <= y < g.len() && 0 <= x < g[y].len() && g[y][x]
}

/// The `w` by `h` frame showing the cells `g`: blank when too small to animate.
pub open spec fn logo_frame(g: Seq<Seq<bool>>, w: int, h: int) -> Seq<Seq<char>> {
    Seq::new(h as nat, |y: int| Seq::new(w as nat, |x: int|
        if animated(w, h) { frame_char(cell_alive(g, x, y), w, h, x, y) } else { ' ' }))
}

/// The frame for `frame_index` of the deterministic animation.
pub open spec fn generated_frame(w: int, h: int, frame_index: int) -> Seq<Seq<char>> {
    if animated(w, h) {
        logo_frame(gol_iter(seed_grid(w, h), (frame_index % (CYCLE_LEN as int)) as nat), w, h)
    } else {
        logo_frame(Seq::empty(), w, h)
    }
}

fn frame_char_exec(alive: bool, w: usize, h: usize, x: usize, y: usize) -> (r: char)
    requires
        x < w,
        y < h,
        w + h * 3 <= usize::MAX,
    ensures
        r == frame_char(alive, w as int, h as int, x as int, y as int),
{
    let cx = w / 2;
    let cy = h / 2;
    if x == cx && y == cy {
        '◉'
    } else if y == cy && (x + 2 == cx || x + 1 == cx || x == cx + 1 || x == cx + 2) {
        '─'
    } else if x == cx && (y + 1 == cy || y == cy + 1) {
        '┼'
    } else if (x + 1 == cx || x == cx + 1) && (y + 1 == cy || y == cy + 1) {
        '─'
    } else if alive {
        symbol_for(x, y)
    } else {
        ' '
    }
}

/// Lay out the cells `g` as a `w` by `h` frame.
fn render_cells(g: &Vec<Vec<bool>>, w: usize, h: usize) -> (r: Vec<Vec<char>>)
    requires
        w + h * 3 <= usize::MAX,
    ensures
        chars_of(r@) == logo_frame(cells(g@), w as int, h as int),
{
    let ghost target = logo_frame(cells(g@), w as int, h as int);
    let big = w >= 5 && h >= 3;
    let mut out: Vec<Vec<char>> = Vec::new();
    let mut y: usize = 0;
    while y < h
        invariant
            w + h * 3 <= usize::MAX,
            big == animated(w as int, h as int),
            target == logo_frame(cells(g@), w as int, h as int),
            y <= h,
            out@.len() == y,
            forall|k: int| 0 <= k < y ==> (#[trigger] out@[k])@ == target[k],
        decreases h - y,
    {
        let mut row: Vec<char> = Vec::new();
        let mut x: usize = 0;
        while x < w
            invariant
                w + h * 3 <= usize::MAX,
                big == animated(w as int, h as int),
                target == logo_frame(cells(g@), w as int, h as int),
                y < h,
                x <= w,
                row@.len() == x,
                forall|k: int| 0 <= k < x ==> row@[k] == target[y as int][k],
            decreases w - x,
        {
            let c = if big {
                let alive = y < g.len() && x < g[y].len() && g[y][x];
                proof {
                    if y < g@.len() {
                        assert(cells(g@)[y as int] == g@[y as int]@);
                    }
                }
                frame_char_exec(alive, w, h, x, y)
            } else {
                ' '
            };
            row.push(c);
            x += 1;
        }
        assert(row@ =~= target[y as int]);
        out.push(row);
        y += 1;
    }
    assert(chars_of(out@) =~= target);
    out
}

/// The current frame of a logo state.
pub fn state_to_char_grid(state: &LogoState) -> (r: Vec<Vec<char>>)
    requires
        state.width + state.height * 3 <= usize::MAX,
    ensures
        chars_of(r@) == logo_frame(cells(state.grid@), state.width as int, state.height as int),
{
    render_cells(&state.grid, state.width, state.height)
}

/// A frame of the deterministic animation, seeded with `gol_seed`; it loops every CYCLE_LEN frames.
pub fn generate_frame(width: usize, height: usize, frame_index: usize) -> (r: Vec<Vec<char>>)
    requires
        width + height * 3 <= usize::MAX,
    ensures
        chars_of(r@) == generated_frame(width as int, height as int, frame_index as int),
{
    if width < 5 || height < 3 {
        let e: Vec<Vec<bool>> = Vec::new();
        assert(cells(e@) =~= Seq::<Seq<bool>>::empty());
        return render_cells(&e, width, height);
    }
    let steps = frame_index % CYCLE_LEN;
    let mut state = gol_seed(width, height);
    let mut i: usize = 0;
    proof {
        lemma_seed_rect(width as int, height as int);
    }
    while i < steps
        invariant
            width >= 5,
            height >= 3,
            i <= steps,
            cells(state@) == gol_iter(seed_grid(width as int, height as int), i as nat),
            is_rect(cells(state@), width as int, height as int),
        decreases steps - i,
    {
        proof {
            assert(cells(state@)[0] == state@[0]@);
        }
        state = gol_step(&state);
        proof {
            lemma_gol_next_rect(gol_iter(seed_grid(width as int, height as int), i as nat), width as int, height as int);
        }
        i += 1;
    }
    render_cells(&state, width, height)
}

proof fn lemma_seed_rect(w: int, h: int)
    requires
        w >= 0,
        h >= 0,
    ensures
        is_rect(seed_grid(w, h), w, h),
{
}

/// One generation keeps the size of the grid.
pub proof fn lemma_gol_next_rect(g: Seq<Seq<bool>>, w: int, h: int)
    requires
        w > 0,
        h > 0,
        is_rect(g, w, h),
    ensures
        is_rect(gol_next(g), w, h),
{
    assert(g[0].len() == w);
}

/// The deterministic animation loops: frame `i` and frame `i + CYCLE_LEN` are the same.
pub proof fn lemma_frame_cycle(w: int, h: int, i: int)
    requires
        i >= 0,
    ensures
        generated_frame(w, h, i) == generated_frame(w, h, i + CYCLE_LEN as int),
{
    vstd::arithmetic::div_mod::lemma_mod_add_multiples_vanish(i, CYCLE_LEN as int);
}

/// Whatever the cells, a frame large enough to animate shows the centre mark at its centre
/// and the crosshair's arms beside it.
pub proof fn lemma_frame_crosshair(g: Seq<Seq<bool>>, w: int, h: int)
    requires
        animated(w, h),
    ensures
        logo_frame(g, w, h)[h / 2][w / 2] == '◉',
        logo_frame(g, w, h)[h / 2][w / 2 - 1] == '─',
        logo_frame(g, w, h)[h / 2][w / 2 + 1] == '─',
        logo_frame(g, w, h)[h / 2 - 1][w / 2] == '┼',
        logo_frame(g, w, h)[h / 2 + 1][w / 2] == '┼',
{
}

} // verus!
