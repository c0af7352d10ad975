//! Grass cells that age, reproduce into nearby empty cells and die.
use vstd::prelude::*;

use crate::random::random_between;

verus! {

/// Lowest variation of a seed's death age, in thousandths.
pub const VARIATION_MIN: u32 = 800;

/// Highest variation of a seed's death age, in thousandths.
pub const VARIATION_MAX: u32 = 1200;

/// `d * permille / 1000`, saturated at `u32::MAX`.
pub open spec fn scaled_age(d: u32, permille: u32) -> int {
    let v = (d as int * permille as int) / 1000;
    if v > u32::MAX as int { u32::MAX as int } else { v }
}

/// `d` lies within the variation of a seed's death age around `death_age`.
pub open spec fn varied_from(d: u32, death_age: u32) -> bool {
    scaled_age(death_age, VARIATION_MIN) <= d <= scaled_age(death_age, VARIATION_MAX)
}

/// One grass cell: how old it is, and the age at which it dies.
#[derive(Clone, Copy, Debug, PartialEq, Eq, Structural)]
pub struct Grass {
    pub age: u32,
    pub death_age: u32,
}

impl Grass {
    /// A new cell whose death age is `death_age` scaled by `permille / 1000`,
    /// rounded down and saturated at `u32::MAX`.
    pub fn with_variation(death_age: u32, permille: u32) -> (g: Grass)
        ensures
            g.age == 0,
            g.death_age == scaled_age(death_age, permille),
    {
        proof {
            assert(death_age as int * permille as int <= u32::MAX as int * u32::MAX as int)
                by (nonlinear_arith);
        }
        let v: u64 = death_age as u64 * permille as u64 / 1000;
        let d: u32 = if v > u32::MAX as u64 { u32::MAX } else { v as u32 };
        Grass { age: 0, death_age: d }
    }

    /// A new cell whose death age varies at random between 0.8 and 1.2 times
    /// `death_age`, the variation being drawn in thousandths.
    pub fn new(death_age: u32) -> (g: Grass)
        ensures
            g.age == 0,
            varied_from(g.death_age, death_age),
    {
        let permille = random_between(VARIATION_MIN as i64, VARIATION_MAX as i64) as u32;
        proof {
            assert(death_age as int * VARIATION_MIN as int <= death_age as int * permille as int)
                by (nonlinear_arith)
                requires VARIATION_MIN <= permille;
            assert(death_age as int * permille as int <= death_age as int * VARIATION_MAX as int)
                by (nonlinear_arith)
                requires permille <= VARIATION_MAX;
            vstd::arithmetic::div_mod::lemma_div_is_ordered(
                death_age as int * VARIATION_MIN as int, death_age as int * permille as int, 1000);
            vstd::arithmetic::div_mod::lemma_div_is_ordered(
                death_age as int * permille as int, death_age as int * VARIATION_MAX as int, 1000);
        }
        Grass::with_variation(death_age, permille)
    }

    /// Ages the cell by one step.
    pub fn update(&mut self)
        requires
            old(self).age < u32::MAX,
        ensures
            final(self).age == old(self).age + 1,
            final(self).death_age == old(self).death_age,
    {
        self.age = self.age + 1;
    }

    /// Whether the cell is old enough to seed and not yet dead.
    pub fn can_reproduce(&self, reproduce_age: u32) -> (r: bool)
        ensures
            r == (reproduce_age <= self.age && self.age < self.death_age),
    {
        self.age >= reproduce_age && self.age < self.death_age
    }

    /// Whether the cell has reached its death age.
    pub fn is_dead(&self) -> (r: bool)
        ensures
            r == (self.age >= self.death_age),
    {
        self.age >= self.death_age
    }

    /// Whether the cell is still too young to seed (drawn in a lighter shade).
    pub fn is_young(&self, reproduce_age: u32) -> (r: bool)
        ensures
            r == (self.age < reproduce_age),
    {
        self.age < reproduce_age
    }
}

/// A square grid of cells, each empty or holding one grass cell.
pub struct World {
    grid: Vec<Vec<Option<Grass>>>,
}

/// Every row is as long as there are rows.
pub open spec fn is_square(cells: Seq<Seq<Option<Grass>>>) -> bool {
    forall|i: int| 0 <= i < cells.len() ==> #[trigger] cells[i].len() == cells.len()
}

/// No cell is so old that one more step would overflow its age.
pub open spec fn ages_fit(cells: Seq<Seq<Option<Grass>>>) -> bool {
    forall|i: int, j: int|
        0 <= i < cells.len() && 0 <= j < cells[i].len() && (#[trigger] cells[i][j]) is Some
            ==> cells[i][j]->0.age < u32::MAX
}

/// A seed just placed: age 0, its death age varied from `death_age`.
pub open spec fn is_seed(g: Grass, death_age: u32) -> bool {
    g.age == 0 && varied_from(g.death_age, death_age)
}

/// What a cell holds after its own turn: nothing if it was empty or has now
/// reached its death age, else the cell one step older.
pub open spec fn turn_of(c: Option<Grass>) -> Option<Grass> {
    match c {
        None => None,
        Some(g) => if g.age + 1 >= g.death_age {
            None
        } else {
            Some(Grass { age: (g.age + 1) as u32, death_age: g.death_age })
        },
    }
}

/// A cell whose turn has not come yet: unchanged, or an empty cell that a
/// neighbour has seeded.
pub open spec fn before_turn(was: Option<Grass>, now: Option<Grass>, death_age: u32) -> bool {
    now == was || (was is None && now is Some && is_seed(now->0, death_age))
}

/// A cell whose turn has passed. A live cell is one step older, unless it
/// reached its death age: then it is gone, and at most a new seed stands in
/// its place. An empty cell stays empty or holds a seed that is at most one
/// step old.
pub open spec fn after_turn(was: Option<Grass>, now: Option<Grass>, death_age: u32) -> bool {
    match was {
        Some(g) => if g.age + 1 >= g.death_age {
            now is None || is_seed(now->0, death_age)
        } else {
            now == turn_of(was)
        },
        None => now is None || (now->0.age <= 1 && varied_from(now->0.death_age, death_age)),
    }
}

/// `(i, j)` is another cell than `(si, sj)`, at most `r` away from it along
/// each axis.
pub open spec fn near(i: int, j: int, si: int, sj: int, r: int) -> bool {
    (i != si || j != sj) && si - r <= i <= si + r && sj - r <= j <= sj + r
}

/// A cell holding grass that is old enough to seed and not dead.
pub open spec fn is_seeder(c: Option<Grass>, reproduce_age: u32) -> bool {
    c is Some && reproduce_age <= c->0.age < c->0.death_age
}

/// Some cell `r` or fewer steps away from `(i, j)`, whose turn comes before
/// that of `(x, y)`, holds a seeder.
spec fn seeder_near(
    cells: Seq<Seq<Option<Grass>>>,
    i: int,
    j: int,
    r: int,
    reproduce_age: u32,
    x: int,
    y: int,
) -> bool {
    exists|si: int, sj: int|
        0 <= si < cells.len() && 0 <= sj < cells.len() && (si < x || (si == x && sj < y))
            && #[trigger] near(i, j, si, sj, r) && is_seeder(cells[si][sj], reproduce_age)
}

/// Some cell `r` or fewer steps away from `(i, j)` holds a seeder.
pub open spec fn has_seeder_near(
    cells: Seq<Seq<Option<Grass>>>,
    i: int,
    j: int,
    r: int,
    reproduce_age: u32,
) -> bool {
    exists|si: int, sj: int|
        0 <= si < cells.len() && 0 <= sj < cells.len() && #[trigger] near(i, j, si, sj, r)
            && is_seeder(cells[si][sj], reproduce_age)
}

/// A cell that holds grass which did not come from its own past: it was
/// empty or, once its turn has passed, its old grass died.
pub open spec fn is_new_cell(was: Option<Grass>, now: Option<Grass>, turn_passed: bool) -> bool {
    now is Some && if turn_passed { turn_of(was) is None } else { was is None }
}

/// A seeder whose turn has passed stays where it is, whatever the turn of
/// `(x, y)` changed: that turn changes only `(x, y)` and the empty cell `t`.
proof fn lemma_seeder_kept(
    prev: Seq<Seq<Option<Grass>>>,
    next: Seq<Seq<Option<Grass>>>,
    i: int,
    j: int,
    r: int,
    reproduce_age: u32,
    x: int,
    y: int,
    t: Option<(usize, usize)>,
)
    requires
        seeder_near(prev, i, j, r, reproduce_age, x, y),
        next.len() == prev.len() <= usize::MAX,
        forall|a: int, b: int|
            0 <= a < prev.len() && 0 <= b < prev.len() && (a != x || b != y)
            && t != Some((a as usize, b as usize)) ==> #[trigger] next[a][b] == prev[a][b],
        t matches Some((nx, ny)) ==> nx < prev.len() && ny < prev.len()
            && prev[nx as int][ny as int] is None,
    ensures
        seeder_near(next, i, j, r, reproduce_age, x, y + 1),
{
    let (si, sj) = choose|si: int, sj: int|
        0 <= si < prev.len() && 0 <= sj < prev.len() && (si < x || (si == x && sj < y))
            && #[trigger] near(i, j, si, sj, r) && is_seeder(prev[si][sj], reproduce_age);
    assert(t != Some((si as usize, sj as usize)));
    assert(next[si][sj] == prev[si][sj]);
    assert(near(i, j, si, sj, r));
}

/// A seeder whose turn came before `(x, n)`, past the end of row `x`, came
/// before the first cell of row `x + 1`.
proof fn lemma_seeder_next_row(
    cells: Seq<Seq<Option<Grass>>>,
    i: int,
    j: int,
    r: int,
    reproduce_age: u32,
    x: int,
)
    requires
        seeder_near(cells, i, j, r, reproduce_age, x, cells.len() as int),
    ensures
        seeder_near(cells, i, j, r, reproduce_age, x + 1, 0),
{
    let (si, sj) = choose|si: int, sj: int|
        0 <= si < cells.len() && 0 <= sj < cells.len() && (si < x || (si == x && sj < cells.len()))
            && #[trigger] near(i, j, si, sj, r) && is_seeder(cells[si][sj], reproduce_age);
    assert(near(i, j, si, sj, r));
}

/// After every turn has passed, the seeders found before stand anywhere.
proof fn lemma_seeder_anywhere(
    cells: Seq<Seq<Option<Grass>>>,
    i: int,
    j: int,
    r: int,
    reproduce_age: u32,
)
    requires
        seeder_near(cells, i, j, r, reproduce_age, cells.len() as int, 0),
    ensures
        has_seeder_near(cells, i, j, r, reproduce_age),
{
    let (si, sj) = choose|si: int, sj: int|
        0 <= si < cells.len() && 0 <= sj < cells.len() && (si < cells.len() || (si == cells.len() && sj < 0))
            && #[trigger] near(i, j, si, sj, r) && is_seeder(cells[si][sj], reproduce_age);
    assert(near(i, j, si, sj, r));
}

impl View for World {
    type V = Seq<Seq<Option<Grass>>>;

    closed spec fn view(&self) -> Seq<Seq<Option<Grass>>> {
        self.grid@.map_values(|row: Vec<Option<Grass>>| row@)
    }
}

impl World {
    pub open spec fn wf(&self) -> bool {
        is_square(self@) && ages_fit(self@)
    }

    /// An empty world of `size` by `size` cells.
    pub fn new(size: usize) -> (w: World)
        ensures
            w.wf(),
            w@.len() == size,
            forall|i: int, j: int| 0 <= i < size && 0 <= j < size ==> (#[trigger] w@[i][j]) is None,
    {
        let mut grid: Vec<Vec<Option<Grass>>> = Vec::new();
        let mut i: usize = 0;
        while i < size
            invariant
                i <= size,
                grid@.len() == i,
                forall|k: int| 0 <= k < i ==> #[trigger] grid@[k]@.len() == size,
                forall|k: int, j: int| 0 <= k < i && 0 <= j < size ==> (#[trigger] grid@[k]@[j]) is None,
            decreases size - i,
        {
            let mut row: Vec<Option<Grass>> = Vec::new();
            let mut j: usize = 0;
            while j < size
                invariant
                    j <= size,
                    row@.len() == j,
                    forall|k: int| 0 <= k < j ==> (#[trigger] row@[k]) is None,
                decreases size - j,
            {
                row.push(None);
                j = j + 1;
            }
            grid.push(row);
            i = i + 1;
        }
        World { grid }
    }

    /// Number of rows (and of columns).
    pub fn size(&self) -> (n: usize)
        ensures
            n == self@.len(),
    {
        self.grid.len()
    }

    /// The cell at column `x`, row `y`.
    pub fn cell(&self, x: usize, y: usize) -> (c: Option<Grass>)
        requires
            self.wf(),
            x < self@.len(),
            y < self@.len(),
        ensures
            c == self@[x as int][y as int],
    {
        assert(self@[x as int] == self.grid@[x as int]@);
        self.grid[x][y]
    }

    /// Puts `grass` at column `x`, row `y` when that cell lies in the world,
    /// replacing what was there; reports whether it did.
    pub fn plant(&mut self, x: usize, y: usize, grass: Grass) -> (placed: bool)
        requires
            old(self).wf(),
            grass.age < u32::MAX,
        ensures
            final(self).wf(),
            placed == (x < old(self)@.len() && y < old(self)@.len()),
            placed ==> final(self)@ == old(self)@.update(
                x as int,
                old(self)@[x as int].update(y as int, Some(grass)),
            ),
            !placed ==> final(self)@ == old(self)@,
    {
        if x < self.grid.len() && y < self.grid.len() {
            self.set_cell(x, y, Some(grass));
            true
        } else {
            false
        }
    }

    /// The cell that a seed from column `x`, row `y` lands on when thrown by
    /// `(dx, dy)`: the target if it lies in the world and is empty.
    pub fn seed_target(&self, x: usize, y: usize, dx: i64, dy: i64) -> (t: Option<(usize, usize)>)
        requires
            self.wf(),
        ensures
            t is Some <==> (0 <= x + dx < self@.len() && 0 <= y + dy < self@.len()
                && self@[x + dx][y + dy] is None),
            t matches Some((nx, ny)) ==> nx == x + dx && ny == y + dy,
    {
        let nx: i128 = x as i128 + dx as i128;
        let ny: i128 = y as i128 + dy as i128;
        let n = self.grid.len();
        if 0 <= nx && nx < n as i128 && 0 <= ny && ny < n as i128 {
            let cx = nx as usize;
            let cy = ny as usize;
            if self.cell(cx, cy).is_none() {
                return Some((cx, cy));
            }
        }
        None
    }

    /// Throws up to `max_seeds` seeds at random offsets within `radius` of
    /// column `x`, row `y`, and plants one new cell on the first that lands on
    /// an empty cell; returns where it planted.
    fn spread_seeds(&mut self, x: usize, y: usize, max_seeds: usize, radius: isize, death_age: u32)
        -> (t: Option<(usize, usize)>)
        requires
            old(self).wf(),
            x < old(self)@.len(),
            y < old(self)@.len(),
            radius >= 0,
        ensures
            final(self).wf(),
            t is None ==> final(self)@ == old(self)@,
            t matches Some((nx, ny)) ==> {
                &&& max_seeds > 0
                &&& nx < old(self)@.len() && ny < old(self)@.len()
                &&& x - radius <= nx <= x + radius && y - radius <= ny <= y + radius
                &&& old(self)@[nx as int][ny as int] is None
                &&& final(self)@[nx as int][ny as int] is Some
                &&& is_seed(final(self)@[nx as int][ny as int]->0, death_age)
                &&& final(self)@ == old(self)@.update(
                    nx as int,
                    old(self)@[nx as int].update(ny as int, final(self)@[nx as int][ny as int]),
                )
            },
    {
        let r: i64 = radius as i64;
        let mut k: usize = 0;
        while k < max_seeds
            invariant
                self.wf(),
                self@ == old(self)@,
                x < self@.len(),
                y < self@.len(),
                0 <= r == radius,
            decreases max_seeds - k,
        {
            let dx = random_between(-r, r);
            let dy = random_between(-r, r);
            if let Some((nx, ny)) = self.seed_target(x, y, dx, dy) {
                let g = Grass::new(death_age);
                self.set_cell(nx, ny, Some(g));
                proof {
                    assert forall|i: int, j: int|
                        0 <= i < self@.len() && 0 <= j < self@[i].len() && (#[trigger] self@[i][j]) is Some
                        implies self@[i][j]->0.age < u32::MAX by {
                        if i != nx || j != ny {
                            assert(self@[i][j] == old(self)@[i][j]);
                        }
                    }
                }
                return Some((nx, ny));
            }
            k = k + 1;
        }
        None
    }

    /// The turn of the cell at column `x`, row `y`: it ages one step, is
    /// cleared once it reaches its death age, and else seeds when it is old
    /// enough to.
    fn take_turn(
        &mut self,
        x: usize,
        y: usize,
        max_seeds: usize,
        reproduce_age: u32,
        death_age: u32,
        repro_radius: isize,
    ) -> (t: Option<(usize, usize)>)
        requires
            old(self).wf(),
            x < old(self)@.len(),
            y < old(self)@.len(),
            repro_radius >= 0,
        ensures
            final(self).wf(),
            final(self)@.len() == old(self)@.len(),
            final(self)@[x as int][y as int] == turn_of(old(self)@[x as int][y as int]),
            forall|i: int, j: int|
                0 <= i < old(self)@.len() && 0 <= j < old(self)@.len() && (i != x || j != y)
                && t != Some((i as usize, j as usize))
                    ==> #[trigger] final(self)@[i][j] == old(self)@[i][j],
            t matches Some((nx, ny)) ==> {
                &&& max_seeds > 0
                &&& nx < old(self)@.len() && ny < old(self)@.len()
                &&& near(nx as int, ny as int, x as int, y as int, repro_radius as int)
                &&& old(self)@[nx as int][ny as int] is None
                &&& final(self)@[nx as int][ny as int] is Some
                &&& is_seed(final(self)@[nx as int][ny as int]->0, death_age)
                &&& is_seeder(final(self)@[x as int][y as int], reproduce_age)
            },
    {
        if let Some(mut grass) = self.cell(x, y) {
            grass.update();
            if grass.is_dead() {
                self.set_cell(x, y, None);
            } else {
                self.set_cell(x, y, Some(grass));
                assert(self.wf()) by {
                    assert forall|i: int, j: int|
                        0 <= i < self@.len() && 0 <= j < self@[i].len() && (#[trigger] self@[i][j]) is Some
                        implies self@[i][j]->0.age < u32::MAX by {
                        if i != x || j != y {
                            assert(self@[i][j] == old(self)@[i][j]);
                        }
                    }
                }
                if grass.can_reproduce(reproduce_age) {
                    let ghost mid = self@;
                    let t = self.spread_seeds(x, y, max_seeds, repro_radius, death_age);
                    proof {
                        if let Some((nx, ny)) = t {
                            assert(mid[nx as int][ny as int] is None);
                            assert(nx != x || ny != y);
                        }
                    }
                    return t;
                }
            }
        }
        None
    }

    /// One step of the world. Each cell, row by row, takes its turn: it ages
    /// one step; once it reaches its death age it is removed; otherwise, if
    /// it is at least `reproduce_age` old, it throws up to `max_seeds` seeds at
    /// random offsets within `repro_radius` and a new cell, whose death age
    /// varies around `death_age`, grows on the first that lands on an empty
    /// cell. A seed that lands on a cell whose turn is still to come takes that
    /// turn in the same step.
    pub fn update(&mut self, max_seeds: usize, reproduce_age: u32, death_age: u32, repro_radius: isize)
        requires
            old(self).wf(),
            repro_radius >= 0,
        ensures
            final(self).wf(),
            final(self)@.len() == old(self)@.len(),
            forall|i: int, j: int|
                0 <= i < old(self)@.len() && 0 <= j < old(self)@.len()
                    ==> after_turn(#[trigger] old(self)@[i][j], final(self)@[i][j], death_age),
            forall|i: int, j: int|
                0 <= i < old(self)@.len() && 0 <= j < old(self)@.len()
                && (#[trigger] old(self)@[i][j]) is Some
                && old(self)@[i][j]->0.age >= old(self)@[i][j]->0.death_age
                    ==> final(self)@[i][j] is None || final(self)@[i][j]->0.age == 0,
            forall|i: int, j: int|
                0 <= i < old(self)@.len() && 0 <= j < old(self)@.len()
                && is_new_cell(old(self)@[i][j], #[trigger] final(self)@[i][j], true)
                    ==> max_seeds > 0
                    && has_seeder_near(final(self)@, i, j, repro_radius as int, reproduce_age),
    {
        let n = self.grid.len();
        let mut x: usize = 0;
        while x < n
            invariant
                self.wf(),
                self@.len() == n == old(self)@.len(),
                x <= n,
                forall|i: int, j: int| 0 <= i < x && 0 <= j < n
                    ==> after_turn(#[trigger] old(self)@[i][j], self@[i][j], death_age),
                forall|i: int, j: int| x <= i < n && 0 <= j < n
                    ==> before_turn(#[trigger] old(self)@[i][j], self@[i][j], death_age),
                forall|i: int, j: int| 0 <= i < n && 0 <= j < n
                    && is_new_cell(old(self)@[i][j], #[trigger] self@[i][j], i < x)
                    ==> max_seeds > 0
                    && seeder_near(self@, i, j, repro_radius as int, reproduce_age, x as int, 0),
                repro_radius >= 0,
            decreases n - x,
        {
            let mut y: usize = 0;
            while y < n
                invariant
                    self.wf(),
                    self@.len() == n == old(self)@.len(),
                    x < n,
                    y <= n,
                    forall|i: int, j: int| 0 <= i < n && 0 <= j < n && (i < x || (i == x && j < y))
                        ==> after_turn(#[trigger] old(self)@[i][j], self@[i][j], death_age),
                    forall|i: int, j: int| 0 <= i < n && 0 <= j < n && (i > x || (i == x && j >= y))
                        ==> before_turn(#[trigger] old(self)@[i][j], self@[i][j], death_age),
                    forall|i: int, j: int| 0 <= i < n && 0 <= j < n
                        && is_new_cell(old(self)@[i][j], #[trigger] self@[i][j], i < x || (i == x && j < y))
                        ==> max_seeds > 0
                        && seeder_near(self@, i, j, repro_radius as int, reproduce_age, x as int, y as int),
                    repro_radius >= 0,
                decreases n - y,
            {
                let ghost prev = self@;
                let t = self.take_turn(x, y, max_seeds, reproduce_age, death_age, repro_radius);
                proof {
                    assert forall|i: int, j: int| 0 <= i < n && 0 <= j < n
                        && is_new_cell(old(self)@[i][j], #[trigger] self@[i][j], i < x || (i == x && j < y + 1))
                        implies max_seeds > 0
                        && seeder_near(self@, i, j, repro_radius as int, reproduce_age, x as int, y + 1) by {
                        if t == Some((i as usize, j as usize)) {
                            assert(near(i, j, x as int, y as int, repro_radius as int));
                        } else if i == x && j == y {
                            assert(before_turn(old(self)@[i][j], prev[i][j], death_age));
                            assert(is_new_cell(old(self)@[i][j], prev[i][j], false));
                            lemma_seeder_kept(prev, self@, i, j, repro_radius as int, reproduce_age,
                                x as int, y as int, t);
                        } else {
                            assert(self@[i][j] == prev[i][j]);
                            lemma_seeder_kept(prev, self@, i, j, repro_radius as int, reproduce_age,
                                x as int, y as int, t);
                        }
                    }
                    assert forall|i: int, j: int|
                        0 <= i < n && 0 <= j < n && (i < x || (i == x && j < y + 1))
                        implies after_turn(#[trigger] old(self)@[i][j], self@[i][j], death_age) by {
                        if i == x && j == y {
                            assert(before_turn(old(self)@[i][j], prev[i][j], death_age));
                        } else {
                            assert(before_turn(prev[i][j], self@[i][j], death_age));
                        }
                    }
                    assert forall|i: int, j: int|
                        0 <= i < n && 0 <= j < n && (i > x || (i == x && j >= y + 1))
                        implies before_turn(#[trigger] old(self)@[i][j], self@[i][j], death_age) by {
                        assert(before_turn(prev[i][j], self@[i][j], death_age));
                    }
                }
                y = y + 1;
            }
            proof {
                assert forall|i: int, j: int| 0 <= i < n && 0 <= j < n
                    && is_new_cell(old(self)@[i][j], #[trigger] self@[i][j], i < x + 1)
                    implies max_seeds > 0
                    && seeder_near(self@, i, j, repro_radius as int, reproduce_age, x + 1, 0) by {
                    assert(is_new_cell(old(self)@[i][j], self@[i][j], i < x || (i == x && j < n)));
                    lemma_seeder_next_row(self@, i, j, repro_radius as int, reproduce_age, x as int);
                }
            }
            x = x + 1;
        }
        proof {
            assert forall|i: int, j: int| 0 <= i < n && 0 <= j < n
                && is_new_cell(old(self)@[i][j], #[trigger] self@[i][j], true)
                implies max_seeds > 0
                && has_seeder_near(self@, i, j, repro_radius as int, reproduce_age) by {
                assert(is_new_cell(old(self)@[i][j], self@[i][j], i < n));
                lemma_seeder_anywhere(self@, i, j, repro_radius as int, reproduce_age);
            }
        }
    }

    fn set_cell(&mut self, x: usize, y: usize, c: Option<Grass>)
        requires
            is_square(old(self)@),
            x < old(self)@.len(),
            y < old(self)@.len(),
        ensures
            final(self)@ == old(self)@.update(x as int, old(self)@[x as int].update(y as int, c)),
    {
        assert(self@[x as int] == self.grid@[x as int]@);
        self.grid[x][y] = c;
        assert(self@ =~= old(self)@.update(x as int, old(self)@[x as int].update(y as int, c)));
    }
}

} // verus!
