use vstd::prelude::*;
use crate::draw::{document_of, scene_svg, svg_markup, SvgDoc};
use crate::error::SasError;
use crate::layout::{
    apply_layout, bounded, placed, cell, column_max_height, geometry_view, graph_bounded, laid_out,
    layout_cells, lemma_max_height_bounds, max_height, LAYOUT_LIMIT,
};
use crate::model::{SasDigraph, SasGeometry};
use crate::rank::{
    all_complete, assign_ranks, ranks_of, dangling, lost_initiator, columns_view, entry_complete, has_edge, has_pred, is_new, ranked,
    reached, valid_columns, complete_columns_have_no_dangling_edge,
};
use crate::record::{
    build_digraph, built_from, dangling_record, from_record, from_records, initiator_fmris, record_edges,
    record_ok, TopoDocument,
};
use crate::scene::{all_connectors, build_scene, canvas, flat, flatten, Scene, VertexBox};

verus! {

/// A topology with its ranks, layout and scene.
#[derive(Debug)]
pub struct Diagram {
    /// The topology, with each vertex's geometry written.
    pub digraph: SasDigraph,
    /// Column `r` lists the vertices at rank `r + 1`, in the order met.
    pub columns: Vec<Vec<usize>>,
    pub max_rank: u32,
    /// The length of the longest column.
    pub max_height: usize,
    pub scene: Scene,
}

/// The cell of every entry of the columns.
pub open spec fn cells_of(c: Seq<Seq<usize>>, h: int) -> Seq<Seq<SasGeometry>> {
    Seq::new(c.len(), |r: int| Seq::new(c[r].len(), |i: int| cell(r + 1, i, c[r].len() as int, h)))
}

/// The grid layout is a function of the columns and the longest column:
/// laying out the same columns twice gives the same geometry.
pub proof fn layout_is_deterministic(
    c: Seq<Seq<usize>>,
    h: int,
    first: Seq<Seq<SasGeometry>>,
    second: Seq<Seq<SasGeometry>>,
)
    requires
        laid_out(c, h, first),
        laid_out(c, h, second),
    ensures
        first == second,
        first == cells_of(c, h),
{
    assert forall|r: int| 0 <= r < c.len() implies #[trigger] first[r] == cells_of(c, h)[r] by {
        assert(first[r].len() == c[r].len());
        assert(first[r] =~= cells_of(c, h)[r]);
    }
    assert(first =~= cells_of(c, h));
    assert forall|r: int| 0 <= r < c.len() implies #[trigger] second[r] == cells_of(c, h)[r] by {
        assert(second[r].len() == c[r].len());
        assert(second[r] =~= cells_of(c, h)[r]);
    }
    assert(second =~= cells_of(c, h));
}

/// What a laid-out diagram of document `doc` holds.
pub open spec fn diagram_of(doc: &TopoDocument, d: &Diagram) -> bool {
    let c = columns_view(d.columns@);
    let g = &d.digraph;
    &&& g.wf()
    &&& g.nodename == doc.nodename
    &&& g.os_version == doc.os_version
    &&& g.timestamp == doc.timestamp
    &&& g.initiators@.map_values(|s: String| s@) == initiator_fmris(doc.vertices@)
    &&& forall|i: int| 0 <= i < doc.vertices@.len() ==> g.has(#[trigger] doc.vertices@[i].fmri@)
    &&& valid_columns(g, c)
    &&& ranked(g, c)
    &&& all_complete(g, c)
    &&& d.max_rank == c.len()
    &&& d.max_height == max_height(c)
    &&& d.max_rank <= LAYOUT_LIMIT
    &&& d.max_height <= LAYOUT_LIMIT
    &&& g.initiators@.len() > 0 ==> c.len() > 0 && c[0].len() == g.initiators@.len()
        && forall|k: int|
        0 <= k < g.initiators@.len() ==> g.vertices@[#[trigger] c[0][k] as int].fmri@
            == g.initiators@[k]@
    &&& (d.scene.width as int, d.scene.height as int) == canvas(c.len() as int, max_height(c) as int)
    &&& d.scene.boxes@.len() == flat(c).len()
    &&& forall|k: int|
        0 <= k < flat(c).len() ==> #[trigger] d.scene.boxes@[k] == (VertexBox {
            vertex: flat(c)[k],
            geometry: flat(cells_of(c, max_height(c) as int))[k],
        })
    &&& d.scene.connectors@ == all_connectors(g, flat(c))
    &&& exists|g0: SasDigraph|
        #[trigger] built_from(doc, &g0) && ranks_of(&g0) == Ok::<(Seq<Seq<usize>>, int), SasError>(
            (c, d.max_rank as int),
        ) && same_shape(&g0, g) && placed(c, cells_of(c, max_height(c) as int), &g0, g)
}

/// Where the columns of a rank assignment fit the drawing's 32-bit coordinates.
pub open spec fn fits(c: Seq<Seq<usize>>) -> bool {
    c.len() <= LAYOUT_LIMIT && max_height(c) <= LAYOUT_LIMIT
}

/// How laying out a built graph ends: no error where its ranks exist and
/// fit, else the error of rank assignment, or `TooLarge`.
pub open spec fn layout_outcome(g: &SasDigraph) -> Option<SasError> {
    match ranks_of(g) {
        Err(e) => Some(e),
        Ok((c, m)) => if fits(c) { None } else { Some(SasError::TooLarge) },
    }
}

/// Two graphs whose vertices differ in geometry alone.
pub open spec fn same_shape(a: &SasDigraph, b: &SasDigraph) -> bool {
    &&& a.vertices@.len() == b.vertices@.len()
    &&& forall|v: int|
        0 <= v < a.vertices@.len() ==> (#[trigger] a.vertices@[v]).fmri == b.vertices@[v].fmri
            && a.vertices@[v].outgoing_edges == b.vertices@[v].outgoing_edges
}

proof fn lemma_same_shape(a: &SasDigraph, b: &SasDigraph, c: Seq<Seq<usize>>)
    requires
        same_shape(a, b),
        valid_columns(a, c),
        ranked(a, c),
        all_complete(a, c),
    ensures
        valid_columns(b, c),
        ranked(b, c),
        all_complete(b, c),
        forall|f: Seq<char>| a.has(f) ==> #[trigger] b.has(f),
{
    assert forall|u: int, v: int| 0 <= u < a.vertices@.len() && 0 <= v < a.vertices@.len() && #[trigger] has_edge(a, u, v) implies has_edge(b, u, v) by {
        assert(a.vertices@[u].edges() == b.vertices@[u].edges());
        assert(a.vertices@[v].fmri == b.vertices@[v].fmri);
    }
    assert forall|r: int, j: int| 1 <= r < c.len() && 0 <= j < c[r].len() implies has_pred(b, c[r - 1], #[trigger] c[r][j]) by {
        assert(has_pred(a, c[r - 1], c[r][j]));
        let k = choose|k: int| 0 <= k < c[r - 1].len() && has_edge(a, #[trigger] c[r - 1][k] as int, c[r][j] as int);
        assert(has_edge(b, c[r - 1][k] as int, c[r][j] as int));
    }
    assert forall|r: int, j: int| 0 <= r < c.len() && 0 <= j < c[r].len() && is_new(Seq::empty(), r, j)
        implies #[trigger] entry_complete(b, c, r, j) by {
        assert(entry_complete(a, c, r, j));
        let u = c[r][j] as int;
        assert(a.vertices@[u].edges() == b.vertices@[u].edges());
        assert forall|e: int| 0 <= e < b.vertices@[u].edges().len() implies reached(
            b,
            c,
            r + 1,
            #[trigger] b.vertices@[u].edges()[e]@,
        ) by {
            let f = a.vertices@[u].edges()[e]@;
            assert(reached(a, c, r + 1, f));
            let idx = choose|idx: int| 0 <= idx < c[r + 1].len() && a.vertices@[#[trigger] c[r + 1][idx] as int].fmri@ == f;
            assert(a.vertices@[c[r + 1][idx] as int].fmri == b.vertices@[c[r + 1][idx] as int].fmri);
        }
    }
    assert forall|f: Seq<char>| a.has(f) implies #[trigger] b.has(f) by {
        let i = choose|i: int| 0 <= i < a.vertices@.len() && a.vertices@[i].fmri@ == f;
        assert(a.vertices@[i].fmri == b.vertices@[i].fmri);
    }
}

proof fn lemma_flat_index<T>(c: Seq<Seq<T>>, k: int) -> (rk: (int, int))
    requires
        0 <= k < flat(c).len(),
    ensures
        0 <= rk.0 < c.len(),
        0 <= rk.1 < c[rk.0].len(),
        flat(c)[k] == c[rk.0][rk.1],
    decreases c.len(),
{
    let p = flat(c.drop_last());
    if k < p.len() {
        let (r, i) = lemma_flat_index(c.drop_last(), k);
        (r, i)
    } else {
        (c.len() - 1, k - p.len())
    }
}

proof fn lemma_flat_len_same<T, U>(c: Seq<Seq<T>>, d: Seq<Seq<U>>)
    requires
        c.len() == d.len(),
        forall|r: int| 0 <= r < c.len() ==> #[trigger] c[r].len() == d[r].len(),
    ensures
        flat(c).len() == flat(d).len(),
    decreases c.len(),
{
    if c.len() > 0 {
        lemma_flat_len_same(c.drop_last(), d.drop_last());
    }
}

proof fn lemma_dangling_record(doc: &TopoDocument, g: &SasDigraph)
    requires
        from_records(g, doc.vertices@),
        forall|i: int| 0 <= i < doc.vertices@.len() ==> g.has(#[trigger] doc.vertices@[i].fmri@),
        forall|k: int| 0 <= k < g.initiators@.len() ==> g.has(#[trigger] g.initiators@[k]@),
        dangling(g) || lost_initiator(g),
    ensures
        dangling_record(doc.vertices@),
{
    if lost_initiator(g) {
        let k = choose|k: int| 0 <= k < g.initiators@.len() && !g.has(#[trigger] g.initiators@[k]@);
        assert(false);
    }
    let (u, e) = choose|u: int, e: int|
        0 <= u < g.vertices@.len() && 0 <= e < g.vertices@[u].edges().len() && !g.has(
            #[trigger] g.vertices@[u].edges()[e]@,
        );
    let recs = doc.vertices@;
    assert(from_record(g.vertices@[u], recs));
    let i = choose|i: int| 0 <= i < recs.len() && #[trigger] recs[i].fmri == g.vertices@[u].fmri && record_edges(recs[i]) == g.vertices@[u].edges();
    assert forall|j: int| 0 <= j < recs.len() implies recs[j].fmri@ != #[trigger] record_edges(recs[i])[e]@ by {
        assert(g.has(recs[j].fmri@));
    }
}

/// Builds the topology of `doc`, assigns ranks from its initiators, lays
/// the columns out on the grid and builds the scene.
pub fn lay_out(doc: &TopoDocument) -> (r: Result<Diagram, SasError>)
    ensures
        r matches Ok(d) ==> diagram_of(doc, &d),
        r matches Err(e) ==> (e == SasError::Lookup ==> dangling_record(doc.vertices@)),
        r matches Err(e) ==> ((e == SasError::Parse || e == SasError::Format) <==> exists|i: int|
            0 <= i < doc.vertices@.len() && !#[trigger] record_ok(doc.vertices@[i])),
        (forall|i: int| 0 <= i < doc.vertices@.len() ==> #[trigger] record_ok(doc.vertices@[i]))
            ==> exists|g0: SasDigraph| #[trigger] built_from(doc, &g0) && (r is Ok <==> layout_outcome(&g0) is None)
            && (r matches Err(e) ==> layout_outcome(&g0) == Some(e)),
{
    let mut g = match build_digraph(doc) {
        Ok(g) => g,
        Err(e) => {
            return Err(e);
        },
    };
    let (max_rank, columns) = match assign_ranks(&g) {
        Ok(x) => x,
        Err(e) => {
            proof {
                if e == SasError::Lookup {
                    lemma_dangling_record(doc, &g);
                }
                assert(built_from(doc, &g));
            }
            return Err(e);
        },
    };
    let h = column_max_height(&columns);
    if columns.len() > LAYOUT_LIMIT || h > LAYOUT_LIMIT {
        proof {
            assert(built_from(doc, &g));
            assert(!fits(columns_view(columns@)));
        }
        return Err(SasError::TooLarge);
    }
    let geo = layout_cells(&columns, h);
    let ghost g0 = g;
    proof {
        assert forall|r: int| 0 <= r < columns@.len() implies #[trigger] geo@[r]@.len() == columns@[r]@.len() by {
            assert(geometry_view(geo@)[r] == geo@[r]@);
            assert(columns_view(columns@)[r] == columns@[r]@);
        }
    }
    apply_layout(&mut g, &columns, &geo);
    let occ = flatten(&columns);
    let cells = flatten(&geo);
    let ghost c = columns_view(columns@);
    let ghost gv = geometry_view(geo@);
    proof {
        layout_is_deterministic(c, h as int, gv, gv);
        lemma_flat_len_same(c, gv);
        assert(columns@.map_values(|v: Vec<usize>| v@) == c);
        assert(geo@.map_values(|v: Vec<SasGeometry>| v@) == gv);
        assert forall|k: int| 0 <= k < occ@.len() implies #[trigger] occ@[k] < g.vertices@.len() by {
            let (q, i) = lemma_flat_index(c, k);
        }
        assert forall|v: int| 0 <= v < g.vertices@.len() implies bounded(#[trigger] g.vertices@[v].geometry) by {
            if crate::layout::occurs(c, v) {
                let (q, i) = choose|q: int, i: int|
                    0 <= q < c.len() && 0 <= i < c[q].len() && #[trigger] c[q][i] == v
                        && g.vertices@[v].geometry == gv[q][i];
                assert(gv[q] == geo@[q]@);
            } else {
                assert(bounded(g0.vertices@[v].geometry));
            }
        }
    }
    proof {
        assert forall|k: int, e: int|
            0 <= k < occ@.len() && 0 <= e < g.vertices@[occ@[k] as int].edges().len() implies g.has(
                #[trigger] g.vertices@[#[trigger] occ@[k] as int].edges()[e]@,
            ) by {
            let (q, i) = lemma_flat_index(c, k);
            lemma_same_shape(&g0, &g, c);
            complete_columns_have_no_dangling_edge(&g, c, q, i, e);
        }
    }
    let scene = build_scene(&g, &occ, &cells, columns.len(), h);
    let d = Diagram { digraph: g, columns, max_rank, max_height: h, scene };
    proof {
        let cs = cells_of(c, h as int);
        assert(cs == gv);
        assert(d.scene.boxes@.len() == flat(c).len());
        assert(same_shape(&g0, &d.digraph));
        lemma_same_shape(&g0, &d.digraph, c);
        assert forall|k: int| 0 <= k < g0.initiators@.len() implies d.digraph.vertices@[#[trigger] c[0][k] as int].fmri@
            == d.digraph.initiators@[k]@ by {
            assert(d.digraph.vertices@[c[0][k] as int].fmri == g0.vertices@[c[0][k] as int].fmri);
        }
        assert(built_from(doc, &g0));
        assert(placed(c, cells_of(c, max_height(c) as int), &g0, &d.digraph));
        assert(diagram_of(doc, &d));
        assert(layout_outcome(&g0) is None);
    }
    Ok(d)
}

/// The size of the page frame that shows the drawing: at least 2000 by 1100.
pub open spec fn page_dims(max_rank: int, max_height: int) -> (int, int) {
    (
        if max_rank * 350 > 2000 { max_rank * 350 } else { 2000 },
        if max_height * 105 > 1100 { max_height * 105 } else { 1100 },
    )
}

/// The size of the page frame for `max_rank` columns, the longest of
/// `max_height` entries.
pub fn page_size(max_rank: u32, max_height: usize) -> (r: (u32, u32))
    requires
        max_rank <= LAYOUT_LIMIT,
        max_height <= LAYOUT_LIMIT,
    ensures
        (r.0 as int, r.1 as int) == page_dims(max_rank as int, max_height as int),
{
    let w = max_rank * 350;
    let h = (max_height as u32) * 105;
    (if w > 2000 { w } else { 2000 }, if h > 1100 { h } else { 1100 })
}

/// The drawing of a topology and the size of the page frame around it.
#[derive(Debug)]
pub struct Rendering {
    pub diagram: Diagram,
    pub document: SvgDoc,
    /// The document as svg markup.
    pub svg: String,
    pub page_width: u32,
    pub page_height: u32,
}

/// Lays out the topology of `doc` and draws it, with `script` and `panel`
/// as the page's script and details panel.
pub fn build_and_render(doc: &TopoDocument, script: &str, panel: &str) -> (r: Result<Rendering, SasError>)
    ensures
        r matches Ok(x) ==> {
            &&& diagram_of(doc, &x.diagram)
            &&& document_of(&x.diagram.digraph, &x.diagram.scene, script@, panel@, &x.document)
            &&& (x.page_width as int, x.page_height as int) == page_dims(
                x.diagram.max_rank as int,
                x.diagram.max_height as int,
            )
        },
        r matches Err(e) ==> (e == SasError::Lookup ==> dangling_record(doc.vertices@)),
        r matches Err(e) ==> ((e == SasError::Parse || e == SasError::Format) <==> exists|i: int|
            0 <= i < doc.vertices@.len() && !#[trigger] record_ok(doc.vertices@[i])),
        (forall|i: int| 0 <= i < doc.vertices@.len() ==> #[trigger] record_ok(doc.vertices@[i]))
            ==> exists|g0: SasDigraph| #[trigger] built_from(doc, &g0) && (r is Ok <==> layout_outcome(&g0) is None)
            && (r matches Err(e) ==> layout_outcome(&g0) == Some(e)),
{
    let d = match lay_out(doc) {
        Ok(d) => d,
        Err(e) => {
            return Err(e);
        },
    };
    proof {
        let c = columns_view(d.columns@);
        let cs = cells_of(c, max_height(c) as int);
        assert forall|k: int| 0 <= k < d.scene.boxes@.len() implies #[trigger] d.scene.boxes@[k].vertex
            < d.digraph.vertices@.len() by {
            assert(d.scene.boxes@[k].vertex == flat(c)[k]);
            let (q, i) = lemma_flat_index(c, k);
        }
        assert forall|k: int| 0 <= k < d.scene.boxes@.len() implies bounded(#[trigger] d.scene.boxes@[k].geometry) by {
            assert(d.scene.boxes@[k] == (VertexBox { vertex: flat(c)[k], geometry: flat(cs)[k] }));
            lemma_flat_len_same(c, cs);
            let (q2, i2) = lemma_flat_index(cs, k);
            assert(cs[q2].len() == c[q2].len());
            lemma_max_height_bounds(c, q2);
            assert(flat(cs)[k] == cell(q2 + 1, i2, c[q2].len() as int, max_height(c) as int));
            lemma_cell_bounded(q2 + 1, i2, c[q2].len() as int, max_height(c) as int);
        }
    }
    let document = scene_svg(&d.digraph, &d.scene, script, panel);
    let svg = svg_markup(&document);
    let (page_width, page_height) = page_size(d.max_rank, d.max_height);
    Ok(Rendering { diagram: d, document, svg, page_width, page_height })
}

proof fn lemma_cell_bounded(r: int, i: int, n: int, h: int)
    requires
        1 <= r <= LAYOUT_LIMIT,
        0 <= i < n <= h <= LAYOUT_LIMIT,
    ensures
        bounded(cell(r, i, n, h)),
{
    if i > 0 {
        assert(i * (h / n) <= h) by (nonlinear_arith)
            requires
                i < n,
                n > 0,
                h >= 0,
        ;
        assert(i * 100 * (h / n) == 100 * (i * (h / n))) by (nonlinear_arith);
    }
}

} // verus!
