use vstd::prelude::*;
use crate::layout::{bounded, graph_bounded, VTX_HEIGHT, VTX_WIDTH, LAYOUT_LIMIT};
use crate::model::{SasDigraph, SasGeometry};
use crate::rank::index_of;

verus! {

/// Length of the horizontal stub that leaves a box's right edge.
pub const STUB_LENGTH: u32 = 50;

/// A straight line from (x1, y1) to (x2, y2).
#[derive(Debug, Clone, Copy, PartialEq, Eq, Structural)]
pub struct Segment {
    pub x1: u32,
    pub y1: u32,
    pub x2: u32,
    pub y2: u32,
}

/// The three lines that draw an edge: a stub from the source's right edge,
/// a vertical run to the target's middle height, and a run into the
/// target's left edge.
#[derive(Debug, Clone, Copy, PartialEq, Eq, Structural)]
pub struct Connector {
    pub source: usize,
    pub target: usize,
    pub stub: Segment,
    pub run: Segment,
    pub entry: Segment,
}

/// A vertex's box at one of its places in the columns.
#[derive(Debug, Clone, Copy, PartialEq, Eq, Structural)]
pub struct VertexBox {
    pub vertex: usize,
    pub geometry: SasGeometry,
}

/// What the diagram draws: the canvas size, the boxes, then the connectors.
#[derive(Debug)]
pub struct Scene {
    pub width: u32,
    pub height: u32,
    pub boxes: Vec<VertexBox>,
    pub connectors: Vec<Connector>,
}

/// The columns one after another.
pub open spec fn flat<T>(c: Seq<Seq<T>>) -> Seq<T>
    decreases c.len(),
{
    if c.len() == 0 {
        Seq::empty()
    } else {
        flat(c.drop_last()) + c.last()
    }
}

/// Lays the columns end to end.
pub fn flatten<T: Copy>(cols: &Vec<Vec<T>>) -> (r: Vec<T>)
    ensures
        r@ == flat(cols@.map_values(|v: Vec<T>| v@)),
{
    let ghost c = cols@.map_values(|v: Vec<T>| v@);
    let mut out: Vec<T> = Vec::new();
    let mut r: usize = 0;
    while r < cols.len()
        invariant
            r <= cols@.len(),
            c == cols@.map_values(|v: Vec<T>| v@),
            out@ == flat(c.subrange(0, r as int)),
        decreases cols@.len() - r,
    {
        let ghost start = out@;
        let mut i: usize = 0;
        while i < cols[r].len()
            invariant
                r < cols@.len(),
                c == cols@.map_values(|v: Vec<T>| v@),
                i <= c[r as int].len(),
                out@ == start + c[r as int].subrange(0, i as int),
            decreases c[r as int].len() - i,
        {
            out.push(cols[r][i]);
            proof {
                assert(out@ =~= start + c[r as int].subrange(0, i + 1));
            }
            i = i + 1;
        }
        proof {
            assert(c.subrange(0, r + 1).drop_last() =~= c.subrange(0, r as int));
            assert(c[r as int].subrange(0, c[r as int].len() as int) =~= c[r as int]);
        }
        r = r + 1;
    }
    proof {
        assert(c.subrange(0, cols@.len() as int) =~= c);
    }
    out
}

/// The connector from vertex `s` to vertex `t`, from their geometry.
pub open spec fn connector_of(g: &SasDigraph, s: int, t: int) -> Connector {
    let a = g.vertices@[s].geometry;
    let b = g.vertices@[t].geometry;
    let sx = (a.x + VTX_WIDTH) as u32;
    let sy = (a.y + VTX_HEIGHT / 2) as u32;
    let mx = (sx + STUB_LENGTH) as u32;
    let ty = (b.y + VTX_HEIGHT / 2) as u32;
    Connector {
        source: s as usize,
        target: t as usize,
        stub: Segment { x1: sx, y1: sy, x2: mx, y2: sy },
        run: Segment { x1: mx, y1: sy, x2: mx, y2: ty },
        entry: Segment { x1: mx, y1: ty, x2: b.x, y2: ty },
    }
}

/// The connectors of vertex `s`, one for each of its edges, in order.
pub open spec fn edge_connectors(g: &SasDigraph, s: int) -> Seq<Connector> {
    g.vertices@[s].edges().map_values(|e: String| connector_of(g, s, index_of(g, e@)))
}

/// The connectors of every entry, in order.
pub open spec fn all_connectors(g: &SasDigraph, occ: Seq<usize>) -> Seq<Connector>
    decreases occ.len(),
{
    if occ.len() == 0 {
        Seq::empty()
    } else {
        all_connectors(g, occ.drop_last()) + edge_connectors(g, occ.last() as int)
    }
}

fn connector(g: &SasDigraph, s: usize, t: usize) -> (c: Connector)
    requires
        s < g.vertices@.len(),
        t < g.vertices@.len(),
        graph_bounded(g),
    ensures
        c == connector_of(g, s as int, t as int),
{
    let a = g.vertices[s].geometry;
    let b = g.vertices[t].geometry;
    proof {
        assert(bounded(g.vertices@[s as int].geometry));
        assert(bounded(g.vertices@[t as int].geometry));
    }
    let sx = a.x + VTX_WIDTH;
    let sy = a.y + VTX_HEIGHT / 2;
    let mx = sx + STUB_LENGTH;
    let ty = b.y + VTX_HEIGHT / 2;
    Connector {
        source: s,
        target: t,
        stub: Segment { x1: sx, y1: sy, x2: mx, y2: sy },
        run: Segment { x1: mx, y1: sy, x2: mx, y2: ty },
        entry: Segment { x1: mx, y1: ty, x2: b.x, y2: ty },
    }
}

/// The canvas size for `max_rank` columns whose longest has `max_height` entries.
pub open spec fn canvas(max_rank: int, max_height: int) -> (int, int) {
    (100 * max_rank, 250 * max_height)
}

/// Builds the scene: one box for each entry of the columns, with the
/// entry's cell, then the connectors of each entry's edges, from the
/// geometry written onto the vertices.
pub fn build_scene(
    g: &SasDigraph,
    occ: &Vec<usize>,
    cells: &Vec<SasGeometry>,
    max_rank: usize,
    max_height: usize,
) -> (s: Scene)
    requires
        g.wf(),
        graph_bounded(g),
        occ@.len() == cells@.len(),
        forall|k: int| 0 <= k < occ@.len() ==> #[trigger] occ@[k] < g.vertices@.len(),
        forall|k: int, e: int|
            0 <= k < occ@.len() && 0 <= e < g.vertices@[occ@[k] as int].edges().len() ==> g.has(
                #[trigger] g.vertices@[#[trigger] occ@[k] as int].edges()[e]@,
            ),
        max_rank <= LAYOUT_LIMIT,
        max_height <= LAYOUT_LIMIT,
    ensures
        (s.width as int, s.height as int) == canvas(max_rank as int, max_height as int),
        s.boxes@.len() == occ@.len(),
        forall|k: int|
            0 <= k < occ@.len() ==> #[trigger] s.boxes@[k] == (VertexBox {
                vertex: occ@[k],
                geometry: cells@[k],
            }),
        s.connectors@ == all_connectors(g, occ@),
{
    let mut boxes: Vec<VertexBox> = Vec::new();
    let mut k: usize = 0;
    while k < occ.len()
        invariant
            k <= occ@.len(),
            occ@.len() == cells@.len(),
            boxes@.len() == k,
            forall|j: int|
                0 <= j < k ==> #[trigger] boxes@[j] == (VertexBox {
                    vertex: occ@[j],
                    geometry: cells@[j],
                }),
        decreases occ@.len() - k,
    {
        boxes.push(VertexBox { vertex: occ[k], geometry: cells[k] });
        k = k + 1;
    }
    let mut connectors: Vec<Connector> = Vec::new();
    let mut k: usize = 0;
    while k < occ.len()
        invariant
            g.wf(),
            graph_bounded(g),
            k <= occ@.len(),
            forall|j: int| 0 <= j < occ@.len() ==> #[trigger] occ@[j] < g.vertices@.len(),
            forall|j: int, e: int|
                0 <= j < occ@.len() && 0 <= e < g.vertices@[occ@[j] as int].edges().len() ==> g.has(
                    #[trigger] g.vertices@[#[trigger] occ@[j] as int].edges()[e]@,
                ),
            connectors@ == all_connectors(g, occ@.subrange(0, k as int)),
        decreases occ@.len() - k,
    {
        let s = occ[k];
        let ghost start = connectors@;
        proof {
            assert forall|x: int| 0 <= x < g.vertices@[s as int].edges().len() implies g.has(
                #[trigger] g.vertices@[s as int].edges()[x]@,
            ) by {
                assert(occ@[k as int] == s);
            }
        }
        proof {
            assert(occ@.subrange(0, k + 1).drop_last() =~= occ@.subrange(0, k as int));
        }
        match g.vertices[s].outgoing_edges.as_ref() {
            None => {
                proof {
                    assert(edge_connectors(g, s as int) =~= Seq::<Connector>::empty());
                    assert(connectors@ =~= start + edge_connectors(g, s as int));
                }
            },
            Some(edges) => {
                let mut e: usize = 0;
                while e < edges.len()
                    invariant
                        g.wf(),
                        graph_bounded(g),
                        s < g.vertices@.len(),
                        g.vertices@[s as int].outgoing_edges == Some(*edges),
                        forall|x: int| 0 <= x < g.vertices@[s as int].edges().len() ==> g.has(
                            #[trigger] g.vertices@[s as int].edges()[x]@,
                        ),
                        e <= edges@.len(),
                        connectors@ == start + edge_connectors(g, s as int).subrange(0, e as int),
                    decreases edges@.len() - e,
                {
                    proof {
                        assert(g.vertices@[s as int].edges()[e as int] == edges@[e as int]);
                    }
                    let found = g.find(&edges[e]);
                    let t = found.unwrap();
                    let cn = connector(g, s, t);
                    proof {
                        let ec = edge_connectors(g, s as int);
                        assert(g.vertices@[s as int].edges()[e as int] == edges@[e as int]);
                        assert(index_of(g, edges@[e as int]@) == t as int) by {
                            let w = index_of(g, edges@[e as int]@);
                            assert(g.vertices@[w].fmri@ == g.vertices@[t as int].fmri@);
                        }
                        assert(ec[e as int] == cn);
                    }
                    connectors.push(cn);
                    proof {
                        assert(connectors@ =~= start + edge_connectors(g, s as int).subrange(0, e + 1));
                    }
                    e = e + 1;
                }
                proof {
                    let ec = edge_connectors(g, s as int);
                    assert(ec.subrange(0, ec.len() as int) =~= ec);
                }
            },
        }
        k = k + 1;
    }
    proof {
        assert(occ@.subrange(0, occ@.len() as int) =~= occ@);
    }
    let width = 100 * (max_rank as u32);
    let height = 250 * (max_height as u32);
    Scene { width, height, boxes, connectors }
}

} // verus!
