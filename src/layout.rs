use vstd::prelude::*;
use crate::model::{SasDigraph, SasGeometry};
use crate::rank::{columns_view, valid_columns};

verus! {

/// Left margin of the first column.
pub const X_MARGIN: u32 = 850;

/// Top margin of the first row.
pub const Y_MARGIN: u32 = 10;

/// Horizontal distance between two columns.
pub const COLUMN_STRIDE: u32 = 250;

/// Vertical distance between two rows.
pub const ROW_UNIT: u32 = 100;

/// Width of a vertex's box.
pub const VTX_WIDTH: u32 = 180;

/// Height of a vertex's box.
pub const VTX_HEIGHT: u32 = 70;

/// The largest number of columns, and of entries in one column, that the
/// drawing's 32-bit coordinates can hold.
pub const LAYOUT_LIMIT: usize = 10000000;

/// The largest column length.
pub open spec fn max_height(c: Seq<Seq<usize>>) -> nat
    decreases c.len(),
{
    if c.len() == 0 {
        0
    } else if c.last().len() > max_height(c.drop_last()) {
        c.last().len()
    } else {
        max_height(c.drop_last())
    }
}

/// Where entry `i` of the column of rank `r` goes, in a column of `n`
/// entries, where the longest column has `h`.
pub open spec fn cell(r: int, i: int, n: int, h: int) -> SasGeometry {
    let factor = if i == 0 { 1 } else { h / n };
    SasGeometry {
        x: ((r - 1) * COLUMN_STRIDE + X_MARGIN) as u32,
        y: (i * ROW_UNIT * factor + Y_MARGIN) as u32,
        width: VTX_WIDTH,
        height: VTX_HEIGHT,
    }
}

/// `geo` gives each entry of the columns its cell.
pub open spec fn laid_out(c: Seq<Seq<usize>>, h: int, geo: Seq<Seq<SasGeometry>>) -> bool {
    &&& geo.len() == c.len()
    &&& forall|r: int| 0 <= r < c.len() ==> #[trigger] geo[r].len() == c[r].len()
    &&& forall|r: int, i: int|
        0 <= r < c.len() && 0 <= i < c[r].len() ==> #[trigger] geo[r][i] == cell(r + 1, i, c[r].len() as int, h)
}

/// The geometry as sequences.
pub open spec fn geometry_view(g: Seq<Vec<SasGeometry>>) -> Seq<Seq<SasGeometry>> {
    g.map_values(|v: Vec<SasGeometry>| v@)
}

/// No column is longer than the longest.
pub proof fn lemma_max_height_bounds(c: Seq<Seq<usize>>, r: int)
    requires
        0 <= r < c.len(),
    ensures
        c[r].len() <= max_height(c),
    decreases c.len(),
{
    if r < c.len() - 1 {
        assert(c.drop_last()[r] == c[r]);
        lemma_max_height_bounds(c.drop_last(), r);
    }
}

/// The length of the longest column.
pub fn column_max_height(cols: &Vec<Vec<usize>>) -> (r: usize)
    ensures
        r == max_height(columns_view(cols@)),
{
    let ghost c = columns_view(cols@);
    let mut h: usize = 0;
    let mut r: usize = 0;
    while r < cols.len()
        invariant
            r <= cols@.len(),
            c == columns_view(cols@),
            h == max_height(c.subrange(0, r as int)),
        decreases cols@.len() - r,
    {
        proof {
            assert(c.subrange(0, r + 1).drop_last() =~= c.subrange(0, r as int));
        }
        if cols[r].len() > h {
            h = cols[r].len();
        }
        r = r + 1;
    }
    proof {
        assert(c.subrange(0, cols@.len() as int) =~= c);
    }
    h
}

/// The cell of entry `i` of the column of rank `r`.
pub fn place(r: usize, i: usize, n: usize, h: usize) -> (g: SasGeometry)
    requires
        1 <= r <= LAYOUT_LIMIT,
        i < n <= h <= LAYOUT_LIMIT,
    ensures
        g == cell(r as int, i as int, n as int, h as int),
        g.x <= 2600000000 && g.y <= 2600000000,
{
    let factor: usize = if i == 0 { 1 } else { h / n };
    proof {
        if i > 0 {
            assert(i * factor <= h) by (nonlinear_arith)
                requires
                    factor == h / n,
                    i < n,
                    n > 0,
            ;
        }
        assert(i * factor <= LAYOUT_LIMIT) by (nonlinear_arith)
            requires
                i * factor <= h || (i == 0),
                h <= LAYOUT_LIMIT,
                factor >= 0,
        ;
        assert(i * 100 * factor == 100 * (i * factor)) by (nonlinear_arith);
    }
    let x = ((r - 1) as u32) * COLUMN_STRIDE + X_MARGIN;
    let y = (i as u32) * ROW_UNIT * (factor as u32) + Y_MARGIN;
    SasGeometry::new(x, y, VTX_WIDTH, VTX_HEIGHT)
}

/// The cell of every entry of the columns, column by column.
pub fn layout_cells(cols: &Vec<Vec<usize>>, max_height: usize) -> (geo: Vec<Vec<SasGeometry>>)
    requires
        cols@.len() <= LAYOUT_LIMIT,
        max_height == crate::layout::max_height(columns_view(cols@)),
        max_height <= LAYOUT_LIMIT,
    ensures
        laid_out(columns_view(cols@), max_height as int, geometry_view(geo@)),
        forall|r: int, i: int|
            0 <= r < geo@.len() && 0 <= i < geo@[r]@.len() ==> bounded(#[trigger] geo@[r]@[i]),
{
    let ghost c = columns_view(cols@);
    let mut geo: Vec<Vec<SasGeometry>> = Vec::new();
    let mut r: usize = 0;
    while r < cols.len()
        invariant
            r <= cols@.len(),
            c == columns_view(cols@),
            cols@.len() <= LAYOUT_LIMIT,
            max_height == crate::layout::max_height(c),
            max_height <= LAYOUT_LIMIT,
            laid_out(c.subrange(0, r as int), max_height as int, geometry_view(geo@)),
            forall|q: int, i: int|
                0 <= q < geo@.len() && 0 <= i < geo@[q]@.len() ==> bounded(#[trigger] geo@[q]@[i]),
        decreases cols@.len() - r,
    {
        let n = cols[r].len();
        proof {
            lemma_max_height_bounds(c, r as int);
        }
        let mut column: Vec<SasGeometry> = Vec::new();
        let mut i: usize = 0;
        while i < n
            invariant
                i <= n,
                n == c[r as int].len(),
                r < cols@.len(),
                cols@.len() <= LAYOUT_LIMIT,
                n <= max_height <= LAYOUT_LIMIT,
                column@.len() == i,
                forall|k: int| 0 <= k < i ==> #[trigger] column@[k] == cell(r + 1, k, n as int, max_height as int),
                forall|k: int| 0 <= k < i ==> bounded(#[trigger] column@[k]),
            decreases n - i,
        {
            let cellg = place(r + 1, i, n, max_height);
            column.push(cellg);
            i = i + 1;
        }
        let ghost before = geometry_view(geo@);
        geo.push(column);
        proof {
            let cs = c.subrange(0, r + 1);
            let gv = geometry_view(geo@);
            assert(gv =~= before.push(column@));
            assert forall|q: int, i: int| 0 <= q < cs.len() && 0 <= i < cs[q].len() implies #[trigger] gv[q][i]
                == cell(q + 1, i, cs[q].len() as int, max_height as int) by {
                if q < r {
                    assert(c.subrange(0, r as int)[q] == cs[q]);
                }
            }
            assert forall|q: int| 0 <= q < cs.len() implies #[trigger] gv[q].len() == cs[q].len() by {
                if q < r {
                    assert(c.subrange(0, r as int)[q] == cs[q]);
                }
            }
        }
        r = r + 1;
    }
    proof {
        assert(c.subrange(0, cols@.len() as int) =~= c);
    }
    geo
}

/// Coordinates that leave room for a box and its connector in 32 bits.
pub open spec fn bounded(g: SasGeometry) -> bool {
    g.x <= 2600000000 && g.y <= 2600000000
}

/// Every vertex's geometry is bounded.
pub open spec fn graph_bounded(g: &SasDigraph) -> bool {
    forall|v: int| 0 <= v < g.vertices@.len() ==> bounded(#[trigger] g.vertices@[v].geometry)
}

/// `v` stands somewhere in the columns.
pub open spec fn occurs(c: Seq<Seq<usize>>, v: int) -> bool {
    occurs_before(c, c.len() as int, 0, v)
}

/// Entry `k` of column `q` is `v`.
pub open spec fn is_occ(c: Seq<Seq<usize>>, q: int, k: int, v: int) -> bool {
    0 <= q < c.len() && 0 <= k < c[q].len() && c[q][k] == v
}

/// Entry `k` of column `q` comes before entry `i` of column `r`.
pub open spec fn before_pos(q: int, k: int, r: int, i: int) -> bool {
    q < r || (q == r && k < i)
}

/// `v` stands in the columns before entry `i` of column `r`.
pub open spec fn occurs_before(c: Seq<Seq<usize>>, r: int, i: int, v: int) -> bool {
    exists|q: int, k: int| #[trigger] is_occ(c, q, k, v) && before_pos(q, k, r, i)
}

/// Entry `k` of column `q` is the last occurrence of `v` before entry `i`
/// of column `r`.
pub open spec fn last_before(c: Seq<Seq<usize>>, r: int, i: int, v: int, q: int, k: int) -> bool {
    &&& is_occ(c, q, k, v)
    &&& before_pos(q, k, r, i)
    &&& forall|q2: int, k2: int|
        #[trigger] is_occ(c, q2, k2, v) && before_pos(q2, k2, r, i) ==> !before_pos(q, k, q2, k2)
}

/// The geometry of `v` after the entries before entry `i` of column `r`
/// are written: the cell of its last occurrence there, else `start`.
pub open spec fn geom_upto(
    c: Seq<Seq<usize>>,
    geo: Seq<Seq<SasGeometry>>,
    r: int,
    i: int,
    v: int,
    geom: SasGeometry,
    start: SasGeometry,
) -> bool {
    &&& occurs_before(c, r, i, v) ==> exists|q: int, k: int|
        #[trigger] last_before(c, r, i, v, q, k) && geom == geo[q][k]
    &&& !occurs_before(c, r, i, v) ==> geom == start
}

/// The vertices of `after` are those of `before` but for the geometry of
/// the entries before entry `i` of column `r`: each such vertex has the
/// cell of its last occurrence there.
pub open spec fn placed_upto(
    c: Seq<Seq<usize>>,
    geo: Seq<Seq<SasGeometry>>,
    before: &SasDigraph,
    after: &SasDigraph,
    r: int,
    i: int,
) -> bool {
    &&& after.vertices@.len() == before.vertices@.len()
    &&& forall|v: int|
        0 <= v < after.vertices@.len() ==> {
            let a = #[trigger] after.vertices@[v];
            let b = before.vertices@[v];
            &&& a.fmri == b.fmri
            &&& a.name == b.name
            &&& a.instance == b.instance
            &&& a.outgoing_edges == b.outgoing_edges
            &&& a.properties == b.properties
            &&& geom_upto(c, geo, r, i, v, a.geometry, b.geometry)
        }
}

/// Each vertex has the cell of its last occurrence in column order, and is
/// otherwise unchanged; one that occurs nowhere keeps its geometry.
pub open spec fn placed(
    c: Seq<Seq<usize>>,
    geo: Seq<Seq<SasGeometry>>,
    before: &SasDigraph,
    after: &SasDigraph,
) -> bool {
    placed_upto(c, geo, before, after, c.len() as int, 0)
}

proof fn lemma_step_other(c: Seq<Seq<usize>>, r: int, i: int, u: int)
    requires
        0 <= r < c.len(),
        0 <= i < c[r].len(),
        c[r][i] != u,
    ensures
        occurs_before(c, r, i + 1, u) == occurs_before(c, r, i, u),
        forall|q: int, k: int| #[trigger] last_before(c, r, i + 1, u, q, k) == last_before(c, r, i, u, q, k),
{
    assert forall|q2: int, k2: int| #[trigger] is_occ(c, q2, k2, u) implies (before_pos(q2, k2, r, i + 1) == before_pos(q2, k2, r, i)) by {}
}

proof fn lemma_step_write(c: Seq<Seq<usize>>, r: int, i: int)
    requires
        0 <= r < c.len(),
        0 <= i < c[r].len(),
    ensures
        occurs_before(c, r, i + 1, c[r][i] as int),
        last_before(c, r, i + 1, c[r][i] as int, r, i),
{
    assert(is_occ(c, r, i, c[r][i] as int));
}

proof fn lemma_column_end(c: Seq<Seq<usize>>, r: int, u: int)
    requires
        0 <= r < c.len(),
    ensures
        occurs_before(c, r, c[r].len() as int, u) == occurs_before(c, r + 1, 0, u),
        forall|q: int, k: int| #[trigger] last_before(c, r, c[r].len() as int, u, q, k) == last_before(c, r + 1, 0, u, q, k),
{
    assert forall|q2: int, k2: int| #[trigger] is_occ(c, q2, k2, u) implies (before_pos(q2, k2, r, c[r].len() as int) == before_pos(q2, k2, r + 1, 0)) by {}
}

/// Writes onto each vertex the cell of its occurrences, column by column; a
/// vertex met more than once keeps the cell of the last.
pub fn apply_layout(g: &mut SasDigraph, cols: &Vec<Vec<usize>>, geo: &Vec<Vec<SasGeometry>>)
    requires
        old(g).wf(),
        valid_columns(old(g), columns_view(cols@)),
        geometry_view(geo@).len() == cols@.len(),
        forall|r: int| 0 <= r < cols@.len() ==> #[trigger] geo@[r]@.len() == cols@[r]@.len(),
    ensures
        final(g).wf(),
        final(g).nodename == old(g).nodename,
        final(g).os_version == old(g).os_version,
        final(g).timestamp == old(g).timestamp,
        final(g).initiators == old(g).initiators,
        placed(columns_view(cols@), geometry_view(geo@), old(g), final(g)),
{
    let ghost c = columns_view(cols@);
    let ghost gv = geometry_view(geo@);
    let ghost g0 = *g;
    let mut r: usize = 0;
    while r < cols.len()
        invariant
            r <= cols@.len(),
            c == columns_view(cols@),
            gv == geometry_view(geo@),
            gv.len() == c.len(),
            forall|q: int| 0 <= q < c.len() ==> #[trigger] gv[q].len() == c[q].len(),
            valid_columns(&g0, c),
            g0.vertices@.len() == g.vertices@.len(),
            g.nodename == g0.nodename,
            g.os_version == g0.os_version,
            g.timestamp == g0.timestamp,
            g.initiators == g0.initiators,
            placed_upto(c, gv, &g0, g, r as int, 0),
        decreases cols@.len() - r,
    {
        let mut i: usize = 0;
        while i < cols[r].len()
            invariant
                r < cols@.len(),
                i <= c[r as int].len(),
                c == columns_view(cols@),
                gv == geometry_view(geo@),
                gv.len() == c.len(),
                forall|q: int| 0 <= q < c.len() ==> #[trigger] gv[q].len() == c[q].len(),
                valid_columns(&g0, c),
                g0.vertices@.len() == g.vertices@.len(),
                g.nodename == g0.nodename,
                g.os_version == g0.os_version,
                g.timestamp == g0.timestamp,
                g.initiators == g0.initiators,
                placed_upto(c, gv, &g0, g, r as int, i as int),
            decreases c[r as int].len() - i,
        {
            let v = cols[r][i];
            let ghost gprev = *g;
            assert(c[r as int][i as int] == v);
            assert(gv[r as int] == geo@[r as int]@);
            g.vertices[v].geometry = geo[r][i];
            proof {
                lemma_step_write(c, r as int, i as int);
                assert forall|u: int| 0 <= u < g.vertices@.len() implies {
                    let a = #[trigger] g.vertices@[u];
                    let b = g0.vertices@[u];
                    &&& a.fmri == b.fmri
                    &&& a.name == b.name
                    &&& a.instance == b.instance
                    &&& a.outgoing_edges == b.outgoing_edges
                    &&& a.properties == b.properties
                    &&& geom_upto(c, gv, r as int, i + 1, u, a.geometry, b.geometry)
                } by {
                    if u == v {
                        assert(g.vertices@[u].geometry == gv[r as int][i as int]);
                        assert(last_before(c, r as int, i + 1, u, r as int, i as int));
                    } else {
                        assert(g.vertices@[u] == gprev.vertices@[u]);
                        lemma_step_other(c, r as int, i as int, u);
                        if occurs_before(c, r as int, i as int, u) {
                            let (q, k) = choose|q: int, k: int|
                                #[trigger] last_before(c, r as int, i as int, u, q, k) && gprev.vertices@[u].geometry == gv[q][k];
                            assert(last_before(c, r as int, i + 1, u, q, k));
                        }
                    }
                }
            }
            i = i + 1;
        }
        proof {
            assert forall|u: int| 0 <= u < g.vertices@.len() implies {
                let a = #[trigger] g.vertices@[u];
                let b = g0.vertices@[u];
                geom_upto(c, gv, r + 1, 0, u, a.geometry, b.geometry)
            } by {
                lemma_column_end(c, r as int, u);
                if occurs_before(c, r as int, c[r as int].len() as int, u) {
                    let (q, k) = choose|q: int, k: int|
                        #[trigger] last_before(c, r as int, c[r as int].len() as int, u, q, k) && g.vertices@[u].geometry == gv[q][k];
                    assert(last_before(c, r + 1, 0, u, q, k));
                }
            }
        }
        r = r + 1;
    }
    proof {
        assert forall|a: int, b: int| 0 <= a < b < g.vertices@.len() implies #[trigger] g.vertices@[a].fmri@
            != #[trigger] g.vertices@[b].fmri@ by {
            assert(g.vertices@[a].fmri == g0.vertices@[a].fmri);
            assert(g.vertices@[b].fmri == g0.vertices@[b].fmri);
        }
    }
}

/// Placement is a function of the columns and cells: two graphs placed
/// from the same graph by the same columns and cells have the same geometry
/// on every vertex.
pub proof fn placement_is_deterministic(
    c: Seq<Seq<usize>>,
    geo: Seq<Seq<SasGeometry>>,
    before: &SasDigraph,
    first: &SasDigraph,
    second: &SasDigraph,
)
    requires
        placed(c, geo, before, first),
        placed(c, geo, before, second),
    ensures
        forall|v: int| 0 <= v < first.vertices@.len() ==> #[trigger] first.vertices@[v].geometry
            == second.vertices@[v].geometry,
{
    assert forall|v: int| 0 <= v < first.vertices@.len() implies #[trigger] first.vertices@[v].geometry
        == second.vertices@[v].geometry by {
        let n = c.len() as int;
        assert(geom_upto(c, geo, n, 0, v, first.vertices@[v].geometry, before.vertices@[v].geometry));
        assert(geom_upto(c, geo, n, 0, v, second.vertices@[v].geometry, before.vertices@[v].geometry));
        if occurs_before(c, n, 0, v) {
            let (q, k) = choose|q: int, k: int| #[trigger] last_before(c, n, 0, v, q, k) && first.vertices@[v].geometry == geo[q][k];
            let (q2, k2) = choose|q: int, k: int| #[trigger] last_before(c, n, 0, v, q, k) && second.vertices@[v].geometry == geo[q][k];
            assert(is_occ(c, q2, k2, v));
            assert(is_occ(c, q, k, v));
            assert(!before_pos(q, k, q2, k2));
            assert(!before_pos(q2, k2, q, k));
        }
    }
}

} // verus!
