use vstd::prelude::*;
use crate::map_coordinate::MapCoordinate;

verus! {

/// A scan pattern and its size.
///
/// Rows grow downwards: `DirectionUp` goes towards row 0, `DirectionLeft`
/// towards column 0. An `Area` is a square centred on the agent whose side is
/// the size. Every other pattern is made of rays: a ray of size `n` holds the
/// `n` cells next to the agent in its direction, not the agent's own cell. The
/// two stars are their four rays and the agent's cell.
#[derive(Debug, Clone, Copy, PartialEq, Eq, Structural)]
pub enum Pattern {
    Area(usize),
    DirectionUp(usize),
    DirectionRight(usize),
    DirectionLeft(usize),
    DirectionDown(usize),
    DiagonalUpperLeft(usize),
    DiagonalUpperRight(usize),
    DiagonalLowerLeft(usize),
    DiagonalLowerRight(usize),
    StraightStar(usize),
    DiagonalStar(usize),
}

/// The eight directions in which a ray leaves the agent.
#[derive(Debug, Clone, Copy, PartialEq, Eq, Structural)]
pub enum Heading {
    Up,
    Down,
    Left,
    Right,
    UpperLeft,
    UpperRight,
    LowerLeft,
    LowerRight,
}

/// The size that a pattern carries.
pub open spec fn size_of(p: Pattern) -> int {
    match p {
        Pattern::Area(n) => n as int,
        Pattern::DirectionUp(n) => n as int,
        Pattern::DirectionRight(n) => n as int,
        Pattern::DirectionLeft(n) => n as int,
        Pattern::DirectionDown(n) => n as int,
        Pattern::DiagonalUpperLeft(n) => n as int,
        Pattern::DiagonalUpperRight(n) => n as int,
        Pattern::DiagonalLowerLeft(n) => n as int,
        Pattern::DiagonalLowerRight(n) => n as int,
        Pattern::StraightStar(n) => n as int,
        Pattern::DiagonalStar(n) => n as int,
    }
}

/// An area's side is odd and at least 3; every other size is at least 1.
pub open spec fn valid_size(p: Pattern) -> bool {
    if p is Area {
        size_of(p) % 2 == 1 && size_of(p) >= 3
    } else {
        size_of(p) >= 1
    }
}

/// The cell `i` steps from `(x, y)` in direction `h`.
pub open spec fn step(h: Heading, x: int, y: int, i: int) -> (int, int) {
    match h {
        Heading::Up => (x, y - i),
        Heading::Down => (x, y + i),
        Heading::Left => (x - i, y),
        Heading::Right => (x + i, y),
        Heading::UpperLeft => (x - i, y - i),
        Heading::UpperRight => (x + i, y - i),
        Heading::LowerLeft => (x - i, y + i),
        Heading::LowerRight => (x + i, y + i),
    }
}

/// How many steps in direction `h` lead from `(x, y)` to `c`, if any do.
pub open spec fn distance(h: Heading, x: int, y: int, c: (int, int)) -> int {
    match h {
        Heading::Up => y - c.1,
        Heading::Down => c.1 - y,
        Heading::Left => x - c.0,
        Heading::Right => c.0 - x,
        Heading::UpperLeft => x - c.0,
        Heading::UpperRight => c.0 - x,
        Heading::LowerLeft => x - c.0,
        Heading::LowerRight => c.0 - x,
    }
}

/// `c` is one of the `n` cells that follow `(x, y)` in direction `h`.
pub open spec fn on_ray(h: Heading, n: int, x: int, y: int, c: (int, int)) -> bool {
    let i = distance(h, x, y, c);
    1 <= i <= n && c == step(h, x, y, i)
}

/// `c` lies in the square of side `n` centred on `(x, y)`.
pub open spec fn in_square(n: int, x: int, y: int, c: (int, int)) -> bool {
    &&& x - n / 2 <= c.0 <= x + n / 2
    &&& y - n / 2 <= c.1 <= y + n / 2
}

/// Pattern `p`, with the agent at `(x, y)`, covers cell `c`; the world's
/// bounds are not applied.
pub open spec fn covers(p: Pattern, x: int, y: int, c: (int, int)) -> bool {
    match p {
        Pattern::Area(n) => in_square(n as int, x, y, c),
        Pattern::DirectionUp(n) => on_ray(Heading::Up, n as int, x, y, c),
        Pattern::DirectionRight(n) => on_ray(Heading::Right, n as int, x, y, c),
        Pattern::DirectionLeft(n) => on_ray(Heading::Left, n as int, x, y, c),
        Pattern::DirectionDown(n) => on_ray(Heading::Down, n as int, x, y, c),
        Pattern::DiagonalUpperLeft(n) => on_ray(Heading::UpperLeft, n as int, x, y, c),
        Pattern::DiagonalUpperRight(n) => on_ray(Heading::UpperRight, n as int, x, y, c),
        Pattern::DiagonalLowerLeft(n) => on_ray(Heading::LowerLeft, n as int, x, y, c),
        Pattern::DiagonalLowerRight(n) => on_ray(Heading::LowerRight, n as int, x, y, c),
        Pattern::StraightStar(n) => {
            ||| c == (x, y)
            ||| on_ray(Heading::Up, n as int, x, y, c)
            ||| on_ray(Heading::Down, n as int, x, y, c)
            ||| on_ray(Heading::Left, n as int, x, y, c)
            ||| on_ray(Heading::Right, n as int, x, y, c)
        },
        Pattern::DiagonalStar(n) => {
            ||| c == (x, y)
            ||| on_ray(Heading::UpperLeft, n as int, x, y, c)
            ||| on_ray(Heading::UpperRight, n as int, x, y, c)
            ||| on_ray(Heading::LowerLeft, n as int, x, y, c)
            ||| on_ray(Heading::LowerRight, n as int, x, y, c)
        },
    }
}

/// `c` is a cell of the square world whose side is `bound`.
pub open spec fn in_world(c: (int, int), bound: int) -> bool {
    0 <= c.0 < bound && 0 <= c.1 < bound
}

/// All cells that `p` covers around `(x, y)`, before clipping.
pub open spec fn shape_cells(p: Pattern, x: int, y: int) -> Set<(int, int)> {
    Set::new(|c: (int, int)| covers(p, x, y, c))
}

/// The cells that `p` covers around `(x, y)` inside the world.
pub open spec fn target_cells(p: Pattern, x: int, y: int, bound: int) -> Set<(int, int)> {
    Set::new(|c: (int, int)| covers(p, x, y, c) && in_world(c, bound))
}

/// A coordinate as the pair `(column, row)`.
pub open spec fn cell(c: MapCoordinate) -> (int, int) {
    (c.width as int, c.height as int)
}

/// A sequence of coordinates as pairs.
pub open spec fn cells(s: Seq<MapCoordinate>) -> Seq<(int, int)> {
    s.map_values(|c: MapCoordinate| cell(c))
}

/// Appending a cell that is not there yet keeps the cells distinct and adds
/// it to their set.
pub(crate) proof fn lemma_push_new_cell(s: Seq<MapCoordinate>, m: MapCoordinate)
    requires
        cells(s).no_duplicates(),
        !cells(s).to_set().contains(cell(m)),
    ensures
        cells(s.push(m)).no_duplicates(),
        cells(s.push(m)).to_set() == cells(s).to_set().insert(cell(m)),
{
    assert(cells(s.push(m)) =~= cells(s).push(cell(m)));
    let t = cells(s);
    assert forall|i: int, j: int|
        0 <= i < t.push(cell(m)).len() && 0 <= j < t.push(cell(m)).len() && i != j implies
        t.push(cell(m))[i] != t.push(cell(m))[j] by {
        if i == t.len() {
            assert(t.contains(t[j]));
        } else if j == t.len() {
            assert(t.contains(t[i]));
        }
    }
    t.lemma_push_to_set_commute(cell(m));
}

/// The cells of a ray that lie inside the world.
pub open spec fn ray_cells(h: Heading, n: int, x: int, y: int, bound: int) -> Set<(int, int)> {
    Set::new(|c: (int, int)| on_ray(h, n, x, y, c) && in_world(c, bound))
}

/// The cells of a square that lie inside the world.
pub open spec fn square_cells(n: int, x: int, y: int, bound: int) -> Set<(int, int)> {
    Set::new(|c: (int, int)| in_square(n, x, y, c) && in_world(c, bound))
}

/// The cell `i` steps from `(x, y)` in direction `h`, where it lies in the
/// world.
fn step_in_world(h: Heading, x: usize, y: usize, i: usize, bound: usize)
    -> (r: Option<MapCoordinate>)
    requires
        x < bound,
        y < bound,
    ensures
        r is Some <==> in_world(step(h, x as int, y as int, i as int), bound as int),
        r matches Some(m) ==> cell(m) == step(h, x as int, y as int, i as int),
{
    let down = i < bound - y;
    let right = i < bound - x;
    let up = i <= y;
    let left = i <= x;
    match h {
        Heading::Up => if up {
            Some(MapCoordinate { width: x, height: y - i })
        } else {
            None
        },
        Heading::Down => if down {
            Some(MapCoordinate { width: x, height: y + i })
        } else {
            None
        },
        Heading::Left => if left {
            Some(MapCoordinate { width: x - i, height: y })
        } else {
            None
        },
        Heading::Right => if right {
            Some(MapCoordinate { width: x + i, height: y })
        } else {
            None
        },
        Heading::UpperLeft => if left && up {
            Some(MapCoordinate { width: x - i, height: y - i })
        } else {
            None
        },
        Heading::UpperRight => if right && up {
            Some(MapCoordinate { width: x + i, height: y - i })
        } else {
            None
        },
        Heading::LowerLeft => if left && down {
            Some(MapCoordinate { width: x - i, height: y + i })
        } else {
            None
        },
        Heading::LowerRight => if right && down {
            Some(MapCoordinate { width: x + i, height: y + i })
        } else {
            None
        },
    }
}

/// Appends the in-world cells of the ray of `n` cells from `(x, y)` in
/// direction `h`, nearest first. None of them may be in `out` already.
pub(crate) fn push_ray(
    out: &mut Vec<MapCoordinate>,
    h: Heading,
    n: usize,
    x: usize,
    y: usize,
    bound: usize,
)
    requires
        x < bound,
        y < bound,
        cells(old(out)@).no_duplicates(),
        forall|c: (int, int)|
            cells(old(out)@).to_set().contains(c) ==> !on_ray(h, n as int, x as int, y as int, c),
    ensures
        cells(final(out)@).no_duplicates(),
        cells(final(out)@).to_set() == cells(old(out)@).to_set() + ray_cells(
            h,
            n as int,
            x as int,
            y as int,
            bound as int,
        ),
{
    let ghost before = cells(out@).to_set();
    let ghost (xi, yi, b) = (x as int, y as int, bound as int);
    let mut i: usize = 1;
    assert(before + ray_cells(h, 0, xi, yi, b) =~= before);
    while i <= n && i < bound
        invariant
            1 <= i <= bound,
            i - 1 <= n,
            x < bound,
            y < bound,
            xi == x,
            yi == y,
            b == bound,
            cells(out@).no_duplicates(),
            forall|c: (int, int)| before.contains(c) ==> !on_ray(h, n as int, xi, yi, c),
            cells(out@).to_set() == before + ray_cells(h, i - 1, xi, yi, b),
        decreases bound - i,
    {
        let next = step_in_world(h, x, y, i, bound);
        let ghost c = step(h, xi, yi, i as int);
        assert(distance(h, xi, yi, c) == i);
        assert(before + ray_cells(h, i as int, xi, yi, b) =~= if in_world(c, b) {
            (before + ray_cells(h, i - 1, xi, yi, b)).insert(c)
        } else {
            before + ray_cells(h, i - 1, xi, yi, b)
        });
        match next {
            Some(m) => {
                proof {
                    assert(on_ray(h, n as int, xi, yi, c));
                    lemma_push_new_cell(out@, m);
                }
                out.push(m);
            },
            None => {},
        }
        i = i + 1;
    }
    assert(ray_cells(h, i - 1, xi, yi, b) =~= ray_cells(h, n as int, xi, yi, b));
}

/// The in-world cells of the square of side `n` centred on `(x, y)`, row by
/// row.
pub(crate) fn square_in_world(n: usize, x: usize, y: usize, bound: usize) -> (r: Vec<MapCoordinate>)
    requires
        x < bound,
        y < bound,
    ensures
        cells(r@).no_duplicates(),
        cells(r@).to_set() == square_cells(n as int, x as int, y as int, bound as int),
{
    let half = n / 2;
    let lo_x = if half <= x {
        x - half
    } else {
        0
    };
    let hi_x = if half < bound - x {
        x + half
    } else {
        bound - 1
    };
    let lo_y = if half <= y {
        y - half
    } else {
        0
    };
    let hi_y = if half < bound - y {
        y + half
    } else {
        bound - 1
    };
    let mut out: Vec<MapCoordinate> = Vec::new();
    let mut row: usize = lo_y;
    assert(cells(out@).to_set() =~= Set::empty());
    while row <= hi_y
        invariant
            lo_y <= row <= hi_y + 1,
            lo_x <= hi_x < bound,
            hi_y < bound,
            cells(out@).no_duplicates(),
            cells(out@).to_set() == Set::new(
                |c: (int, int)| lo_x <= c.0 <= hi_x && lo_y <= c.1 < row,
            ),
        decreases hi_y + 1 - row,
    {
        let mut col: usize = lo_x;
        while col <= hi_x
            invariant
                lo_x <= col <= hi_x + 1,
                lo_y <= row <= hi_y,
                hi_x < bound,
                hi_y < bound,
                cells(out@).no_duplicates(),
                cells(out@).to_set() == Set::new(
                    |c: (int, int)|
                        (lo_x <= c.0 <= hi_x && lo_y <= c.1 < row) || (c.1 == row && lo_x <= c.0
                            < col),
                ),
            decreases hi_x + 1 - col,
        {
            let m = MapCoordinate { width: col, height: row };
            proof {
                lemma_push_new_cell(out@, m);
            }
            out.push(m);
            col = col + 1;
            assert(cells(out@).to_set() =~= Set::new(
                |c: (int, int)|
                    (lo_x <= c.0 <= hi_x && lo_y <= c.1 < row) || (c.1 == row && lo_x <= c.0
                        < col),
            ));
        }
        row = row + 1;
        assert(cells(out@).to_set() =~= Set::new(
            |c: (int, int)| lo_x <= c.0 <= hi_x && lo_y <= c.1 < row,
        ));
    }
    assert(cells(out@).to_set() =~= square_cells(n as int, x as int, y as int, bound as int));
    out
}

/// The pairs in columns `[x0, x0 + w)` and rows `[y0, y0 + h)`.
spec fn rectangle(x0: int, w: nat, y0: int, h: nat) -> Set<(int, int)> {
    Set::new(|c: (int, int)| x0 <= c.0 < x0 + w && y0 <= c.1 < y0 + h)
}

proof fn lemma_row_len(x0: int, w: nat, y: int)
    ensures
        rectangle(x0, w, y, 1).finite(),
        rectangle(x0, w, y, 1).len() == w,
    decreases w,
{
    if w == 0 {
        assert(rectangle(x0, w, y, 1) =~= Set::empty());
    } else {
        lemma_row_len(x0, (w - 1) as nat, y);
        assert(rectangle(x0, w, y, 1) =~= rectangle(x0, (w - 1) as nat, y, 1).insert(
            (x0 + w - 1, y),
        ));
    }
}

proof fn lemma_rectangle_len(x0: int, w: nat, y0: int, h: nat)
    ensures
        rectangle(x0, w, y0, h).finite(),
        rectangle(x0, w, y0, h).len() == w * h,
    decreases h,
{
    if h == 0 {
        assert(rectangle(x0, w, y0, h) =~= Set::empty());
    } else {
        let top = rectangle(x0, w, y0, (h - 1) as nat);
        let last = rectangle(x0, w, y0 + h - 1, 1);
        lemma_rectangle_len(x0, w, y0, (h - 1) as nat);
        lemma_row_len(x0, w, y0 + h - 1);
        assert(rectangle(x0, w, y0, h) =~= top + last);
        assert(top.disjoint(last));
        vstd::set_lib::lemma_set_disjoint_lens(top, last);
        assert(w * h == w * (h - 1) + w) by (nonlinear_arith);
    }
}

/// An area of odd side `n` covers exactly `n * n` cells before clipping;
/// clipping to the world keeps some of them and adds none.
pub proof fn area_covers_side_squared(n: usize, x: int, y: int, bound: int)
    requires
        valid_size(Pattern::Area(n)),
    ensures
        shape_cells(Pattern::Area(n), x, y).finite(),
        shape_cells(Pattern::Area(n), x, y).len() == n * n,
        target_cells(Pattern::Area(n), x, y, bound).subset_of(shape_cells(Pattern::Area(n), x, y)),
        target_cells(Pattern::Area(n), x, y, bound).len() <= n * n,
{
    let h = n as int / 2;
    assert(shape_cells(Pattern::Area(n), x, y) =~= rectangle(x - h, n as nat, y - h, n as nat));
    lemma_rectangle_len(x - h, n as nat, y - h, n as nat);
    vstd::set_lib::lemma_len_subset(
        target_cells(Pattern::Area(n), x, y, bound),
        shape_cells(Pattern::Area(n), x, y),
    );
}

impl Pattern {
    /// Whether the pattern's size is allowed: an area's side must be odd and
    /// at least 3, every other size at least 1.
    pub fn check_size(&self) -> (r: bool)
        ensures
            r == valid_size(*self),
    {
        match self {
            Pattern::Area(size) => *size % 2 == 1 && *size >= 3,
            Pattern::DirectionUp(size) => *size >= 1,
            Pattern::DirectionRight(size) => *size >= 1,
            Pattern::DirectionLeft(size) => *size >= 1,
            Pattern::DirectionDown(size) => *size >= 1,
            Pattern::DiagonalUpperLeft(size) => *size >= 1,
            Pattern::DiagonalUpperRight(size) => *size >= 1,
            Pattern::DiagonalLowerLeft(size) => *size >= 1,
            Pattern::DiagonalLowerRight(size) => *size >= 1,
            Pattern::StraightStar(size) => *size >= 1,
            Pattern::DiagonalStar(size) => *size >= 1,
        }
    }
}

} // verus!
