use vstd::prelude::*;
use crate::content::CellContent;
use crate::map_coordinate::MapCoordinate;
use crate::tool_errors::ToolError;
use crate::pattern::{
    Heading, Pattern, cell, cells, in_world, lemma_push_new_cell, push_ray, square_in_world, target_cells,
    valid_size,
};

verus! {

/// What the agent knows of the world: one row after another, each cell either
/// known with its content or unknown.
pub type KnownMap = Vec<Vec<Option<CellContent>>>;

/// Cell `c` is known in the snapshot `known`, whose rows are indexed first.
pub open spec fn is_known(known: Seq<Vec<Option<CellContent>>>, c: (int, int)) -> bool {
    &&& 0 <= c.1 < known.len()
    &&& 0 <= c.0 < known[c.1]@.len()
    &&& known[c.1]@[c.0] is Some
}

/// The coordinates of `s` that `known` does not know yet, in their order.
pub open spec fn sanitized(s: Seq<MapCoordinate>, known: Seq<Vec<Option<CellContent>>>) -> Seq<
    MapCoordinate,
> {
    s.filter(|m: MapCoordinate| !is_known(known, cell(m)))
}

/// The cells that `p` covers in the world around `(x, y)` and that `known`
/// does not know yet; the world's side is the snapshot's number of rows.
pub open spec fn pending_cells(
    p: Pattern,
    x: int,
    y: int,
    known: Seq<Vec<Option<CellContent>>>,
) -> Set<(int, int)> {
    Set::new(
        |c: (int, int)| target_cells(p, x, y, known.len() as int).contains(c) && !is_known(known, c),
    )
}

/// Sanitizing keeps the cells distinct and keeps exactly the unknown ones.
proof fn lemma_sanitized_cells(t: Seq<MapCoordinate>, known: Seq<Vec<Option<CellContent>>>)
    requires
        cells(t).no_duplicates(),
    ensures
        cells(sanitized(t, known)).no_duplicates(),
        cells(sanitized(t, known)).to_set() == Set::new(
            |c: (int, int)| cells(t).to_set().contains(c) && !is_known(known, c),
        ),
    decreases t.len(),
{
    let target = Set::new(|c: (int, int)| cells(t).to_set().contains(c) && !is_known(known, c));
    if t.len() == 0 {
        reveal(Seq::filter);
        assert(cells(sanitized(t, known)).to_set() =~= target);
    } else {
        let u = t.drop_last();
        let m = t.last();
        assert(t =~= u.push(m));
        assert(cells(t) =~= cells(u).push(cell(m)));
        assert(cells(u) =~= cells(t).drop_last());
        assert(!cells(u).to_set().contains(cell(m))) by {
            if cells(u).contains(cell(m)) {
                let i = choose|i: int| 0 <= i < cells(u).len() && cells(u)[i] == cell(m);
                assert(cells(t)[i] == cells(t)[cells(t).len() - 1]);
            }
        }
        cells(u).lemma_push_to_set_commute(cell(m));
        lemma_sanitized_cells(u, known);
        u.lemma_filter_push(m, |m: MapCoordinate| !is_known(known, cell(m)));
        if !is_known(known, cell(m)) {
            lemma_push_new_cell(sanitized(u, known), m);
        }
        assert(cells(sanitized(t, known)).to_set() =~= target);
    }
}

/// How the cells that a scan still needs are to be disclosed.
#[derive(Debug)]
pub enum Discovery {
    /// Read the agent's own neighbourhood, which costs nothing.
    LocalView,
    /// Ask the map service to disclose these cells, none of them known yet.
    Disclose(Vec<MapCoordinate>),
    /// Every covered cell is known already: no request is to be made.
    NothingToDisclose,
}

/// Cells with what was disclosed of them.
pub type Disclosed = Vec<(MapCoordinate, Option<CellContent>)>;

/// The cells of a disclosure, as pairs.
pub open spec fn disclosed_cells(d: Seq<(MapCoordinate, Option<CellContent>)>) -> Seq<(int, int)> {
    d.map_values(|e: (MapCoordinate, Option<CellContent>)| cell(e.0))
}

/// What the local view `view`, whose rows come first and whose middle is the
/// agent at `robot`, shows at cell `c`; nothing where it does not reach.
pub open spec fn view_at(
    view: Seq<Vec<Option<CellContent>>>,
    robot: MapCoordinate,
    c: (int, int),
) -> Option<CellContent> {
    let half = view.len() as int / 2;
    let i = c.1 - robot.height + half;
    let j = c.0 - robot.width + half;
    if 0 <= i < view.len() && 0 <= j < view[i]@.len() {
        view[i]@[j]
    } else {
        None
    }
}

/// The cells of the world that the local view shows with a content.
pub open spec fn view_cells(
    view: Seq<Vec<Option<CellContent>>>,
    robot: MapCoordinate,
    bound: int,
) -> Set<(int, int)> {
    Set::new(|c: (int, int)| in_world(c, bound) && view_at(view, robot, c) is Some)
}

/// `base + idx - half`, where it lies in `[0, bound)`.
fn shift(base: usize, idx: usize, half: usize, bound: usize) -> (r: Option<usize>)
    requires
        base < bound,
    ensures
        r is Some <==> 0 <= base + idx - half < bound,
        r matches Some(v) ==> v == base + idx - half,
{
    if idx >= half {
        let d = idx - half;
        if d < bound - base {
            Some(base + d)
        } else {
            None
        }
    } else {
        let d = half - idx;
        if d <= base {
            Some(base - d)
        } else {
            None
        }
    }
}

/// The entry `e` holds a content of the kind of `want`.
pub open spec fn matches_kind(e: (MapCoordinate, Option<CellContent>), want: CellContent) -> bool {
    e.1 matches Some(v) && v.kind == want.kind
}

/// The quantity of a disclosed entry.
pub open spec fn quantity_of(e: (MapCoordinate, Option<CellContent>)) -> int {
    e.1->0.quantity->0 as int
}

/// Every entry holds a content, and every one of the wanted kind holds a
/// quantity.
pub open spec fn well_formed(d: Seq<(MapCoordinate, Option<CellContent>)>, want: CellContent) -> bool {
    forall|k: int|
        0 <= k < d.len() ==> (d[k].1 is Some && (matches_kind(d[k], want) ==> d[k].1->0.quantity is Some))
}

/// Coordinate `a` comes before or equals `b`, by column and then by row.
pub open spec fn coordinate_le(a: MapCoordinate, b: MapCoordinate) -> bool {
    a.width < b.width || (a.width == b.width && a.height <= b.height)
}

/// Candidate `a` ranks at least as high as `b`: a larger quantity, or the same
/// quantity at a coordinate that does not come later.
pub open spec fn ranks_over(a: (MapCoordinate, int), b: (MapCoordinate, int)) -> bool {
    a.1 > b.1 || (a.1 == b.1 && coordinate_le(a.0, b.0))
}

/// Some entry of the wanted kind is among the first `n` of `d`.
pub open spec fn has_match(d: Seq<(MapCoordinate, Option<CellContent>)>, want: CellContent, n: int) -> bool {
    exists|k: int| 0 <= k < n && #[trigger] matches_kind(d[k], want)
}

/// `b` is the best of the first `n` entries of the wanted kind: one of them,
/// and ranked at least as high as each.
pub open spec fn is_best(
    d: Seq<(MapCoordinate, Option<CellContent>)>,
    want: CellContent,
    n: int,
    b: (MapCoordinate, usize),
) -> bool {
    &&& exists|k: int|
        0 <= k < n && #[trigger] matches_kind(d[k], want) && d[k].0 == b.0 && quantity_of(d[k]) == b.1
    &&& forall|k: int|
        0 <= k < n && #[trigger] matches_kind(d[k], want) ==> ranks_over(
            (b.0, b.1 as int),
            (d[k].0, quantity_of(d[k])),
        )
}

/// Sanitizing is idempotent: sanitizing an already sanitized sequence against
/// the same snapshot gives it back unchanged.
pub proof fn sanitize_is_idempotent(s: Seq<MapCoordinate>, known: Seq<Vec<Option<CellContent>>>)
    ensures
        sanitized(sanitized(s, known), known) == sanitized(s, known),
    decreases s.len(),
{
    let unknown = |m: MapCoordinate| !is_known(known, cell(m));
    if s.len() == 0 {
        reveal(Seq::filter);
    } else {
        let u = s.drop_last();
        let m = s.last();
        assert(s =~= u.push(m));
        sanitize_is_idempotent(u, known);
        u.lemma_filter_push(m, unknown);
        if unknown(m) {
            sanitized(u, known).lemma_filter_push(m, unknown);
        }
    }
}

/// Scanning again what a scan has disclosed asks for nothing. Where a later
/// snapshot of the same world knows every cell that was pending in an earlier
/// one, and forgets nothing that the earlier one knew, the same pattern from
/// the same place leaves no cell pending.
pub proof fn rescan_leaves_nothing_pending(
    p: Pattern,
    x: int,
    y: int,
    before: Seq<Vec<Option<CellContent>>>,
    after: Seq<Vec<Option<CellContent>>>,
)
    requires
        after.len() == before.len(),
        forall|c: (int, int)| #[trigger] pending_cells(p, x, y, before).contains(c) ==> is_known(after, c),
        forall|c: (int, int)| #[trigger] is_known(before, c) ==> is_known(after, c),
    ensures
        pending_cells(p, x, y, after) == Set::<(int, int)>::empty(),
{
    assert forall|c: (int, int)| !pending_cells(p, x, y, after).contains(c) by {
        if target_cells(p, x, y, after.len() as int).contains(c) && !is_known(before, c) {
            assert(pending_cells(p, x, y, before).contains(c));
        }
    }
    assert(pending_cells(p, x, y, after) =~= Set::empty());
}

/// At most one candidate is the best: equal quantities are told apart by
/// coordinate, so the choice does not depend on the order of the entries.
pub proof fn best_is_unique(
    d: Seq<(MapCoordinate, Option<CellContent>)>,
    want: CellContent,
    n: int,
    a: (MapCoordinate, usize),
    b: (MapCoordinate, usize),
)
    requires
        is_best(d, want, n, a),
        is_best(d, want, n, b),
    ensures
        a == b,
{
    let ka = choose|k: int|
        0 <= k < n && #[trigger] matches_kind(d[k], want) && d[k].0 == a.0 && quantity_of(d[k]) == a.1;
    let kb = choose|k: int|
        0 <= k < n && #[trigger] matches_kind(d[k], want) && d[k].0 == b.0 && quantity_of(d[k]) == b.1;
    assert(ranks_over((a.0, a.1 as int), (d[kb].0, quantity_of(d[kb]))));
    assert(ranks_over((b.0, b.1 as int), (d[ka].0, quantity_of(d[ka]))));
}

/// The scanning tool.
pub struct ResourceScanner {}

impl ResourceScanner {
    /// The cells of the world that `pattern` covers with the agent at
    /// `robot`, each once, in a square world of side `world_size`. Cells
    /// outside the world are dropped.
    pub fn get_target_coordinates(pattern: &Pattern, robot: MapCoordinate, world_size: usize) -> (r:
        Vec<MapCoordinate>)
        requires
            robot.width < world_size,
            robot.height < world_size,
        ensures
            cells(r@).no_duplicates(),
            cells(r@).to_set() == target_cells(
                *pattern,
                robot.width as int,
                robot.height as int,
                world_size as int,
            ),
            forall|k: int| 0 <= k < r@.len() ==> r@[k].width < world_size && r@[k].height < world_size,
    {
        let x = robot.width;
        let y = robot.height;
        let ghost (xi, yi, b) = (x as int, y as int, world_size as int);
        let mut out: Vec<MapCoordinate> = Vec::new();
        assert(cells(out@).to_set() =~= Set::empty());
        match *pattern {
            Pattern::Area(n) => {
                out = square_in_world(n, x, y, world_size);
            },
            Pattern::DirectionUp(n) => push_ray(&mut out, Heading::Up, n, x, y, world_size),
            Pattern::DirectionRight(n) => push_ray(&mut out, Heading::Right, n, x, y, world_size),
            Pattern::DirectionLeft(n) => push_ray(&mut out, Heading::Left, n, x, y, world_size),
            Pattern::DirectionDown(n) => push_ray(&mut out, Heading::Down, n, x, y, world_size),
            Pattern::DiagonalUpperLeft(n) => push_ray(
                &mut out,
                Heading::UpperLeft,
                n,
                x,
                y,
                world_size,
            ),
            Pattern::DiagonalUpperRight(n) => push_ray(
                &mut out,
                Heading::UpperRight,
                n,
                x,
                y,
                world_size,
            ),
            Pattern::DiagonalLowerLeft(n) => push_ray(
                &mut out,
                Heading::LowerLeft,
                n,
                x,
                y,
                world_size,
            ),
            Pattern::DiagonalLowerRight(n) => push_ray(
                &mut out,
                Heading::LowerRight,
                n,
                x,
                y,
                world_size,
            ),
            Pattern::StraightStar(n) => {
                proof {
                    lemma_push_new_cell(out@, robot);
                }
                out.push(robot);
                push_ray(&mut out, Heading::Up, n, x, y, world_size);
                push_ray(&mut out, Heading::Down, n, x, y, world_size);
                push_ray(&mut out, Heading::Left, n, x, y, world_size);
                push_ray(&mut out, Heading::Right, n, x, y, world_size);
            },
            Pattern::DiagonalStar(n) => {
                proof {
                    lemma_push_new_cell(out@, robot);
                }
                out.push(robot);
                push_ray(&mut out, Heading::UpperLeft, n, x, y, world_size);
                push_ray(&mut out, Heading::UpperRight, n, x, y, world_size);
                push_ray(&mut out, Heading::LowerLeft, n, x, y, world_size);
                push_ray(&mut out, Heading::LowerRight, n, x, y, world_size);
            },
        }
        assert(cells(out@).to_set() =~= target_cells(*pattern, xi, yi, b));
        assert forall|k: int| 0 <= k < out@.len() implies out@[k].width < world_size
            && out@[k].height < world_size by {
            assert(cells(out@)[k] == cell(out@[k]));
            assert(cells(out@).to_set().contains(cell(out@[k])));
        }
        out
    }

    /// Whether `known` knows the cell `c`; a cell outside the snapshot is
    /// unknown.
    fn is_known_cell(known: &KnownMap, c: MapCoordinate) -> (r: bool)
        ensures
            r == is_known(known@, cell(c)),
    {
        if c.height < known.len() && c.width < known[c.height].len() {
            known[c.height][c.width].is_some()
        } else {
            false
        }
    }

    /// The coordinates of `candidates` that `known` does not know yet, in
    /// their order.
    pub fn get_sanitized_tiles(candidates: &Vec<MapCoordinate>, known: &KnownMap) -> (r: Vec<
        MapCoordinate,
    >)
        ensures
            r@ == sanitized(candidates@, known@),
    {
        let mut out: Vec<MapCoordinate> = Vec::new();
        let mut i: usize = 0;
        proof {
            reveal(Seq::filter);
            assert(candidates@.take(0) =~= Seq::empty());
        }
        while i < candidates.len()
            invariant
                i <= candidates@.len(),
                out@ == sanitized(candidates@.take(i as int), known@),
            decreases candidates@.len() - i,
        {
            let c = candidates[i];
            proof {
                assert(candidates@.take(i + 1) =~= candidates@.take(i as int).push(c));
                candidates@.take(i as int).lemma_filter_push(
                    c,
                    |m: MapCoordinate| !is_known(known@, cell(m)),
                );
            }
            if !Self::is_known_cell(known, c) {
                out.push(c);
            }
            i = i + 1;
        }
        assert(candidates@.take(i as int) =~= candidates@);
        out
    }

    /// Decides how a scan with `pattern` from `robot` is to proceed, given
    /// what the agent knows. The world is square and its side is the number of
    /// rows of `known`.
    ///
    /// An invalid size is refused before anything else, and a pattern that
    /// covers no cell of the world is refused next. The smallest area, the
    /// agent's own neighbourhood, is read from the local view. Any other
    /// pattern asks for the covered cells that are not known yet, each once,
    /// or for nothing when all are known.
    pub fn plan(pattern: &Pattern, robot: MapCoordinate, known: &KnownMap) -> (r: Result<
        Discovery,
        ToolError,
    >)
        requires
            robot.width < known@.len(),
            robot.height < known@.len(),
        ensures
            !valid_size(*pattern) ==> r matches Err(ToolError::InvalidSizeError),
            valid_size(*pattern) && target_cells(
                *pattern,
                robot.width as int,
                robot.height as int,
                known@.len() as int,
            ) == Set::<(int, int)>::empty() ==> r matches Err(ToolError::EmptyCoordinates),
            valid_size(*pattern) && target_cells(
                *pattern,
                robot.width as int,
                robot.height as int,
                known@.len() as int,
            ) != Set::<(int, int)>::empty() ==> {
                if *pattern == Pattern::Area(3) {
                    r matches Ok(Discovery::LocalView)
                } else if pending_cells(*pattern, robot.width as int, robot.height as int, known@)
                    == Set::<(int, int)>::empty() {
                    r matches Ok(Discovery::NothingToDisclose)
                } else {
                    &&& r matches Ok(Discovery::Disclose(v))
                    &&& cells(v@).no_duplicates()
                    &&& cells(v@).to_set() == pending_cells(
                        *pattern,
                        robot.width as int,
                        robot.height as int,
                        known@,
                    )
                }
            },
    {
        if !pattern.check_size() {
            return Err(ToolError::InvalidSizeError);
        }
        let ghost (x, y) = (robot.width as int, robot.height as int);
        let targets = Self::get_target_coordinates(pattern, robot, known.len());
        if targets.len() == 0 {
            assert(cells(targets@).to_set() =~= Set::empty());
            return Err(ToolError::EmptyCoordinates);
        }
        assert(cells(targets@).to_set().contains(cells(targets@)[0]));
        if *pattern == Pattern::Area(3) {
            return Ok(Discovery::LocalView);
        }
        let pending = Self::get_sanitized_tiles(&targets, known);
        proof {
            lemma_sanitized_cells(targets@, known@);
            assert(cells(pending@).to_set() =~= pending_cells(*pattern, x, y, known@));
        }
        if pending.len() == 0 {
            assert(cells(pending@).to_set() =~= Set::empty());
            Ok(Discovery::NothingToDisclose)
        } else {
            assert(cells(pending@).to_set().contains(cells(pending@)[0]));
            Ok(Discovery::Disclose(pending))
        }
    }

    /// The cells that the local view `view` shows with a content, with that
    /// content. The view's rows come first and its middle cell is the agent
    /// at `robot`; cells outside the square world of side `world_size` are
    /// dropped.
    pub fn get_view_tiles(robot: MapCoordinate, view: &KnownMap, world_size: usize) -> (r: Disclosed)
        requires
            robot.width < world_size,
            robot.height < world_size,
        ensures
            disclosed_cells(r@).no_duplicates(),
            disclosed_cells(r@).to_set() == view_cells(view@, robot, world_size as int),
            forall|k: int|
                0 <= k < r@.len() ==> #[trigger] r@[k].1 == view_at(view@, robot, cell(r@[k].0)),
    {
        let half = view.len() / 2;
        let ghost (x, y, h) = (robot.width as int, robot.height as int, half as int);
        let mut out: Disclosed = Vec::new();
        let mut i: usize = 0;
        assert(disclosed_cells(out@).to_set() =~= Set::empty());
        while i < view.len()
            invariant
                i <= view@.len(),
                half == view@.len() / 2,
                x == robot.width,
                y == robot.height,
                h == half,
                robot.width < world_size,
                robot.height < world_size,
                disclosed_cells(out@).no_duplicates(),
                disclosed_cells(out@).to_set() == Set::new(
                    |c: (int, int)|
                        view_cells(view@, robot, world_size as int).contains(c) && c.1 - y + h < i,
                ),
                forall|k: int|
                    0 <= k < out@.len() ==> #[trigger] out@[k].1 == view_at(view@, robot, cell(out@[k].0)),
            decreases view@.len() - i,
        {
            let row = &view[i];
            let mut j: usize = 0;
            while j < row.len()
                invariant
                    i < view@.len(),
                    j <= row@.len(),
                    row == view@[i as int],
                    half == view@.len() / 2,
                    x == robot.width,
                    y == robot.height,
                    h == half,
                    robot.width < world_size,
                    robot.height < world_size,
                    disclosed_cells(out@).no_duplicates(),
                    disclosed_cells(out@).to_set() == Set::new(
                        |c: (int, int)|
                            view_cells(view@, robot, world_size as int).contains(c) && (c.1 - y + h
                                < i || (c.1 - y + h == i && c.0 - x + h < j)),
                    ),
                    forall|k: int|
                        0 <= k < out@.len() ==> #[trigger] out@[k].1 == view_at(view@, robot, cell(out@[k].0)),
                decreases row@.len() - j,
            {
                let ghost before = out@;
                let ghost c = (x + j - h, y + i - h);
                if let Some(content) = row[j] {
                    let col = shift(robot.width, j, half, world_size);
                    let line = shift(robot.height, i, half, world_size);
                    if let (Some(cx), Some(cy)) = (col, line) {
                        let m = MapCoordinate { width: cx, height: cy };
                        proof {
                            assert(cell(m) == c);
                            assert(!disclosed_cells(before).to_set().contains(c));
                            assert(disclosed_cells(before.push((m, Some(content)))) =~= disclosed_cells(
                                before,
                            ).push(c));
                            let t = disclosed_cells(before);
                            assert forall|a: int, b: int|
                                0 <= a < t.push(c).len() && 0 <= b < t.push(c).len() && a != b implies t.push(
                                    c,
                                )[a] != t.push(c)[b] by {
                                if a == t.len() {
                                    assert(t.contains(t[b]));
                                } else if b == t.len() {
                                    assert(t.contains(t[a]));
                                }
                            }
                            t.lemma_push_to_set_commute(c);
                        }
                        out.push((m, Some(content)));
                    }
                }
                j = j + 1;
                assert(disclosed_cells(out@).to_set() =~= Set::new(
                    |c: (int, int)|
                        view_cells(view@, robot, world_size as int).contains(c) && (c.1 - y + h < i
                            || (c.1 - y + h == i && c.0 - x + h < j)),
                ));
            }
            i = i + 1;
            assert(disclosed_cells(out@).to_set() =~= Set::new(
                |c: (int, int)|
                    view_cells(view@, robot, world_size as int).contains(c) && c.1 - y + h < i,
            ));
        }
        assert(disclosed_cells(out@).to_set() =~= view_cells(view@, robot, world_size as int));
        out
    }

    /// The best disclosed cell holding content of the kind of `want`: the
    /// largest quantity, and of equal quantities the first coordinate by
    /// column and then by row. `None` when no disclosed cell holds that kind.
    ///
    /// An entry without a content, or one of the wanted kind without a
    /// quantity, breaks the disclosure's contract: the result is then
    /// `Other`.
    pub fn select(disclosed: &Disclosed, want: &CellContent) -> (r: Result<
        Option<(MapCoordinate, usize)>,
        ToolError,
    >)
        ensures
            !well_formed(disclosed@, *want) <==> r is Err,
            r is Err ==> r->Err_0 is Other,
            well_formed(disclosed@, *want) && !has_match(disclosed@, *want, disclosed@.len() as int)
                ==> r == Ok::<Option<(MapCoordinate, usize)>, ToolError>(None),
            well_formed(disclosed@, *want) && has_match(disclosed@, *want, disclosed@.len() as int)
                ==> (r matches Ok(Some(b)) && is_best(disclosed@, *want, disclosed@.len() as int, b)),
    {
        let ghost d = disclosed@;
        let mut best: Option<(MapCoordinate, usize)> = None;
        let mut i: usize = 0;
        while i < disclosed.len()
            invariant
                i <= d.len(),
                d == disclosed@,
                forall|k: int|
                    0 <= k < i ==> (d[k].1 is Some && (matches_kind(d[k], *want) ==> d[k].1->0.quantity is Some)),
                best is None <==> !has_match(d, *want, i as int),
                best matches Some(b) ==> is_best(d, *want, i as int, b),
            decreases d.len() - i,
        {
            let (m, entry) = disclosed[i];
            match entry {
                None => {
                    return Err(ToolError::Other(String::from_str("disclosed cell without content")));
                },
                Some(content) => {
                    if content.kind == want.kind {
                        match content.quantity {
                            None => {
                                return Err(
                                    ToolError::Other(
                                        String::from_str("wanted content without quantity"),
                                    ),
                                );
                            },
                            Some(q) => {
                                let take = match best {
                                    None => true,
                                    Some((bm, bq)) => q > bq || (q == bq && (m.width < bm.width || (
                                    m.width == bm.width && m.height < bm.height))),
                                };
                                if take {
                                    best = Some((m, q));
                                }
                                proof {
                                    assert(matches_kind(d[i as int], *want));
                                    assert(has_match(d, *want, i + 1));
                                    if let Some(b) = best {
                                        assert forall|k: int|
                                            0 <= k < i + 1 && #[trigger] matches_kind(
                                                d[k],
                                                *want,
                                            ) implies ranks_over(
                                            (b.0, b.1 as int),
                                            (d[k].0, quantity_of(d[k])),
                                        ) by {
                                            if k < i {
                                                assert(has_match(d, *want, i as int));
                                            }
                                        }
                                        if take {
                                            assert(d[i as int].0 == m);
                                        } else {
                                            assert(has_match(d, *want, i as int));
                                        }
                                    }
                                }
                            },
                        }
                    } else {
                        assert(!matches_kind(d[i as int], *want));
                        assert(has_match(d, *want, i + 1) ==> has_match(d, *want, i as int));
                    }
                },
            }
            i = i + 1;
        }
        Ok(best)
    }
}

} // verus!
