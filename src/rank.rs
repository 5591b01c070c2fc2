use vstd::prelude::*;
use crate::error::SasError;
use crate::model::{SasDigraph, SasDigraphVertex};

verus! {

/// Vertex `u` has an edge to vertex `v` (both positions in the graph).
pub open spec fn has_edge(g: &SasDigraph, u: int, v: int) -> bool {
    exists|e: int|
        0 <= e < g.vertices@[u].edges().len() && #[trigger] g.vertices@[u].edges()[e]@
            == g.vertices@[v].fmri@
}

/// Some edge names an identifier that has no vertex.
pub open spec fn dangling(g: &SasDigraph) -> bool {
    exists|u: int, e: int|
        0 <= u < g.vertices@.len() && 0 <= e < g.vertices@[u].edges().len() && !g.has(
            #[trigger] g.vertices@[u].edges()[e]@,
        )
}

/// The columns as sequences: column `r` holds the vertices of rank `r + 1`.
pub open spec fn columns_view(c: Seq<Vec<usize>>) -> Seq<Seq<usize>> {
    c.map_values(|v: Vec<usize>| v@)
}

/// Every entry is a vertex of the graph and no column is empty.
pub open spec fn valid_columns(g: &SasDigraph, c: Seq<Seq<usize>>) -> bool {
    forall|r: int|
        0 <= r < c.len() ==> c[r].len() > 0 && forall|j: int|
            0 <= j < c[r].len() ==> #[trigger] c[r][j] < g.vertices@.len()
}

/// Each entry past the first column has an edge into it from an entry of the
/// column before: its rank is one more than that of a predecessor.
pub open spec fn ranked(g: &SasDigraph, c: Seq<Seq<usize>>) -> bool {
    forall|r: int, j: int|
        1 <= r < c.len() && 0 <= j < c[r].len() ==> has_pred(g, c[r - 1], #[trigger] c[r][j])
}

/// Some entry of `prev` has an edge to `v`.
pub open spec fn has_pred(g: &SasDigraph, prev: Seq<usize>, v: usize) -> bool {
    exists|k: int| 0 <= k < prev.len() && has_edge(g, #[trigger] prev[k] as int, v as int)
}

/// `b` holds `a`: no fewer columns, and each column of `a` starts `b`'s.
pub open spec fn grows(a: Seq<Seq<usize>>, b: Seq<Seq<usize>>) -> bool {
    &&& a.len() <= b.len()
    &&& forall|r: int|
        0 <= r < a.len() ==> a[r].len() <= b[r].len() && forall|j: int|
            0 <= j < a[r].len() ==> #[trigger] b[r][j] == a[r][j]
}

/// `a` with `v` appended to column `d`, a new column where `d` is one past the last.
pub open spec fn push_at(a: Seq<Seq<usize>>, d: int, v: usize) -> Seq<Seq<usize>> {
    if d < a.len() {
        a.update(d, a[d].push(v))
    } else {
        a.push(seq![v])
    }
}

proof fn lemma_grows_trans(a: Seq<Seq<usize>>, b: Seq<Seq<usize>>, c: Seq<Seq<usize>>)
    requires
        grows(a, b),
        grows(b, c),
    ensures
        grows(a, c),
{
    assert forall|r: int| 0 <= r < a.len() implies a[r].len() <= c[r].len() && forall|j: int|
        0 <= j < a[r].len() ==> #[trigger] c[r][j] == a[r][j] by {
        assert forall|j: int| 0 <= j < a[r].len() implies #[trigger] c[r][j] == a[r][j] by {
            assert(b[r][j] == a[r][j]);
        }
    }
}

proof fn lemma_push_at(g: &SasDigraph, a: Seq<Seq<usize>>, d: int, v: usize)
    requires
        valid_columns(g, a),
        ranked(g, a),
        0 <= d <= a.len(),
        v < g.vertices@.len(),
        d > 0 ==> has_pred(g, a[d - 1], v),
    ensures
        valid_columns(g, push_at(a, d, v)),
        ranked(g, push_at(a, d, v)),
        grows(a, push_at(a, d, v)),
        push_at(a, d, v).len() == if d < a.len() { a.len() } else { a.len() + 1 },
        push_at(a, d, v)[d] == (if d < a.len() { a[d] } else { Seq::<usize>::empty() }).push(v),
        forall|r: int| 0 <= r < a.len() && r != d ==> #[trigger] push_at(a, d, v)[r] == a[r],
{
    let b = push_at(a, d, v);
    if d >= a.len() {
        assert(seq![v] =~= Seq::<usize>::empty().push(v));
    }
    assert forall|r: int, j: int| 1 <= r < b.len() && 0 <= j < b[r].len() implies has_pred(
        g,
        b[r - 1],
        #[trigger] b[r][j],
    ) by {
        if r == d && j == b[r].len() - 1 {
            let k = choose|k: int| 0 <= k < a[d - 1].len() && has_edge(g, #[trigger] a[d - 1][k] as int, v as int);
            assert(b[r - 1][k] == a[d - 1][k]);
        } else {
            assert(b[r][j] == a[r][j]);
            let k = choose|k: int| 0 <= k < a[r - 1].len() && has_edge(g, #[trigger] a[r - 1][k] as int, a[r][j] as int);
            assert(b[r - 1][k] == a[r - 1][k]);
        }
    }
}

/// The larger of two integers.
pub open spec fn max_int(a: int, b: int) -> int {
    if a >= b { a } else { b }
}

/// The visit of vertex `v` below depth `d`: the (vertex, column) entries
/// it records in pre-order, one for each path from `v`, and the largest
/// rank reached; or the error that stops it.
pub open spec fn walk(g: &SasDigraph, v: int, d: int) -> Result<(Seq<(usize, int)>, int), SasError>
    decreases (g.vertices@.len() - d) as nat, 0nat,
{
    if d >= g.vertices@.len() {
        Err(SasError::Cycle)
    } else if d >= u32::MAX {
        Err(SasError::TooLarge)
    } else {
        match walk_list(g, g.vertices@[v].edges(), d + 1) {
            Ok((occ, m)) => Ok((seq![(v as usize, d)] + occ, max_int(d + 1, m))),
            Err(e) => Err(e),
        }
    }
}

/// The visits of the targets of edges `es`, in order, below depth `d`.
pub open spec fn walk_list(g: &SasDigraph, es: Seq<String>, d: int) -> Result<(Seq<(usize, int)>, int), SasError>
    decreases (g.vertices@.len() - d) as nat, es.len(),
{
    if es.len() == 0 {
        Ok((Seq::empty(), 0))
    } else {
        match walk_list(g, es.drop_last(), d) {
            Err(e) => Err(e),
            Ok((o1, m1)) => if !g.has(es.last()@) {
                Err(SasError::Lookup)
            } else {
                match walk(g, index_of(g, es.last()@), d) {
                    Err(e) => Err(e),
                    Ok((o2, m2)) => Ok((o1 + o2, max_int(m1, m2))),
                }
            },
        }
    }
}

/// The position of the vertex with identifier `f`.
pub open spec fn index_of(g: &SasDigraph, f: Seq<char>) -> int {
    choose|i: int| 0 <= i < g.vertices@.len() && g.vertices@[i].fmri@ == f
}

/// The columns `a` with each entry of `occ` appended to its column in turn.
pub open spec fn record(a: Seq<Seq<usize>>, occ: Seq<(usize, int)>) -> Seq<Seq<usize>>
    decreases occ.len(),
{
    if occ.len() == 0 {
        a
    } else {
        push_at(record(a, occ.drop_last()), occ.last().1, occ.last().0)
    }
}

proof fn lemma_record_concat(a: Seq<Seq<usize>>, o1: Seq<(usize, int)>, o2: Seq<(usize, int)>)
    ensures
        record(a, o1 + o2) == record(record(a, o1), o2),
    decreases o2.len(),
{
    if o2.len() == 0 {
        assert(o1 + o2 =~= o1);
    } else {
        assert((o1 + o2).drop_last() =~= o1 + o2.drop_last());
        lemma_record_concat(a, o1, o2.drop_last());
    }
}

proof fn lemma_walk_list_prefix_err(g: &SasDigraph, es: Seq<String>, i: int, d: int)
    requires
        0 <= i < es.len(),
        walk_list(g, es.subrange(0, i + 1), d) is Err,
    ensures
        walk_list(g, es, d) == walk_list(g, es.subrange(0, i + 1), d),
    decreases es.len() - i,
{
    if i + 1 < es.len() {
        assert(es.subrange(0, i + 2).drop_last() =~= es.subrange(0, i + 1));
        lemma_walk_list_prefix_err(g, es, i + 1, d);
    } else {
        assert(es.subrange(0, i + 1) =~= es);
    }
}

proof fn lemma_index_of(g: &SasDigraph, i: int)
    requires
        g.wf(),
        0 <= i < g.vertices@.len(),
    ensures
        index_of(g, g.vertices@[i].fmri@) == i,
{
    let w = index_of(g, g.vertices@[i].fmri@);
    assert(g.vertices@[w].fmri@ == g.vertices@[i].fmri@);
}

/// Visits vertex `v` below caller depth `depth`: records it at rank
/// `depth + 1`, then visits the target of each of its edges one rank deeper.
/// Returns the largest rank reached in the visit.
pub fn visit_vertex(
    g: &SasDigraph,
    v: usize,
    column_hash: &mut Vec<Vec<usize>>,
    depth: u32,
) -> (r: Result<u32, SasError>)
    requires
        g.wf(),
        v < g.vertices@.len(),
        depth <= old(column_hash)@.len(),
        valid_columns(g, columns_view(old(column_hash)@)),
        ranked(g, columns_view(old(column_hash)@)),
        depth > 0 ==> has_pred(g, columns_view(old(column_hash)@)[depth - 1], v),
    ensures
        r matches Ok(m) ==> visited(
            g,
            v,
            depth as int,
            m as int,
            columns_view(old(column_hash)@),
            columns_view(final(column_hash)@),
        ),
        r matches Ok(m) ==> (walk(g, v as int, depth as int) matches Ok((occ, mx)) && mx == m
            && columns_view(final(column_hash)@) == record(columns_view(old(column_hash)@), occ)),
        r matches Err(e) ==> walk(g, v as int, depth as int) == Err::<(Seq<(usize, int)>, int), SasError>(e),
        r is Err ==> grows(columns_view(old(column_hash)@), columns_view(final(column_hash)@)),
        r matches Err(e) ==> e == SasError::Lookup || e == SasError::Cycle || e == SasError::TooLarge,
    decreases g.vertices@.len() - depth,
{
    if depth as usize >= g.vertices.len() {
        return Err(SasError::Cycle);
    }
    if depth == u32::MAX {
        return Err(SasError::TooLarge);
    }
    let ghost a = columns_view(column_hash@);
    let d = depth as usize;
    let ghost pos: int = if d < a.len() { a[d as int].len() as int } else { 0 };
    proof {
        lemma_push_at(g, a, d as int, v);
    }
    if d < column_hash.len() {
        column_hash[d].push(v);
    } else {
        let mut col: Vec<usize> = Vec::new();
        col.push(v);
        column_hash.push(col);
    }
    let ghost b = columns_view(column_hash@);
    proof {
        assert(b =~= push_at(a, d as int, v));
    }
    let mut max_depth: u32 = depth + 1;
    let vtx = &g.vertices[v];
    match vtx.outgoing_edges.as_ref() {
        None => {},
        Some(edges) => {
            let mut i: usize = 0;
            while i < edges.len()
                invariant
                    g.wf(),
                    v < g.vertices@.len(),
                    vtx == g.vertices@[v as int],
                    vtx.outgoing_edges == Some(*edges),
                    d == depth,
                    depth < g.vertices@.len(),
                    depth < u32::MAX,
                    i <= edges@.len(),
                    depth < max_depth,
                    b.len() > d,
                    b[d as int].len() == pos + 1,
                    b[d as int][pos] == v,
                    grows(b, columns_view(column_hash@)),
                    valid_columns(g, columns_view(column_hash@)),
                    ranked(g, columns_view(column_hash@)),
                    forall|r: int| 0 <= r <= d ==> #[trigger] columns_view(column_hash@)[r] == b[r],
                    columns_view(column_hash@).len() == if b.len() >= max_depth {
                        b.len() as int
                    } else {
                        max_depth as int
                    },
                    forall|e: int|
                        0 <= e < i ==> reached(g, columns_view(column_hash@), d + 1, #[trigger] edges@[e]@),
                    new_complete(g, b, columns_view(column_hash@)),
                    grows(a, b),
                    a == columns_view(old(column_hash)@),
                    b == push_at(a, d as int, v),
                    walk_list(g, edges@.subrange(0, i as int), d + 1) matches Ok((occ, mm)) && columns_view(column_hash@)
                        == record(b, occ) && max_depth == max_int(d + 1, mm),
                decreases edges@.len() - i,
            {
                let ghost before = columns_view(column_hash@);
                let ghost pre = walk_list(g, edges@.subrange(0, i as int), d + 1);
                proof {
                    assert(edges@.subrange(0, i + 1).drop_last() =~= edges@.subrange(0, i as int));
                    lemma_grows_trans(a, b, before);
                }
                let next = match g.find(&edges[i]) {
                    Some(n) => n,
                    None => {
                        proof {
                            assert(vtx.edges()[i as int] == edges@[i as int]);
                            assert(!g.has(g.vertices@[v as int].edges()[i as int]@));
                            lemma_walk_list_prefix_err(g, edges@, i as int, d + 1);
                        }
                        return Err(SasError::Lookup);
                    },
                };
                proof {
                    lemma_index_of(g, next as int);
                }
                proof {
                    assert(vtx.edges()[i as int] == edges@[i as int]);
                    assert(has_edge(g, v as int, next as int));
                    assert(before[d as int][pos] == v);
                    assert(has_pred(g, before[d as int], next));
                }
                let rc = match visit_vertex(g, next, column_hash, depth + 1) {
                    Ok(rc) => rc,
                    Err(e) => {
                        proof {
                            lemma_grows_trans(a, before, columns_view(column_hash@));
                            lemma_walk_list_prefix_err(g, edges@, i as int, d + 1);
                        }
                        return Err(e);
                    },
                };
                proof {
                    let after = columns_view(column_hash@);
                    let (o1, m1) = pre->Ok_0;
                    let (o2, m2) = walk(g, next as int, d + 1)->Ok_0;
                    lemma_record_concat(b, o1, o2);
                    assert(walk_list(g, edges@.subrange(0, i + 1), d + 1) == Ok::<(Seq<(usize, int)>, int), SasError>((o1 + o2, max_int(m1, m2))));
                    lemma_grows_trans(b, before, after);
                    assert forall|e: int| 0 <= e < i + 1 implies reached(g, after, d + 1, #[trigger] edges@[e]@) by {
                        if e < i {
                            let idx = choose|idx: int| 0 <= idx < before[d + 1].len() && g.vertices@[#[trigger] before[d + 1][idx] as int].fmri@ == edges@[e]@;
                            assert(after[d + 1][idx] == before[d + 1][idx]);
                        } else {
                            let idx = visited_pos(before, d as int + 1);
                            assert(after[d + 1][idx] == next);
                        }
                    }
                    assert forall|r: int, j: int| 0 <= r < after.len() && 0 <= j < after[r].len() && is_new(b, r, j)
                        implies #[trigger] entry_complete(g, after, r, j) by {
                        if !is_new(before, r, j) {
                            assert(entry_complete(g, before, r, j));
                            lemma_complete_grows(g, before, after, r, j);
                        }
                    }
                }
                if rc > max_depth {
                    max_depth = rc;
                }
                i = i + 1;
            }
            proof {
                assert(edges@.subrange(0, edges@.len() as int) =~= edges@);
            }
        },
    }
    proof {
        let es = vtx.edges();
        if vtx.outgoing_edges is None {
            assert(es =~= Seq::<String>::empty());
            assert(columns_view(column_hash@) == record(b, Seq::<(usize, int)>::empty()));
        }
        assert(es == g.vertices@[v as int].edges());
        let (occ, mm) = walk_list(g, es, d + 1)->Ok_0;
        let single = seq![(v, d as int)];
        assert(single.drop_last() =~= Seq::<(usize, int)>::empty());
        assert(record(a, single.drop_last()) == a);
        assert(record(a, single) == b);
        lemma_record_concat(a, single, occ);
        assert(walk(g, v as int, depth as int) == Ok::<(Seq<(usize, int)>, int), SasError>((single + occ, max_int(d + 1, mm))));
    }
    proof {
        let c = columns_view(column_hash@);
        lemma_grows_trans(a, b, c);
        assert forall|r: int| 0 <= r < d implies #[trigger] c[r] == a[r] by {
            assert(c[r] == b[r]);
        }
        if vtx.outgoing_edges is None {
            assert(vtx.edges().len() == 0);
            assert(c == b);
            assert(vtx.edges() =~= Seq::<String>::empty());
        } else {
            assert(vtx.outgoing_edges->Some_0@.subrange(0, vtx.outgoing_edges->Some_0@.len() as int) =~= vtx.edges());
            assert forall|e: int| 0 <= e < vtx.edges().len() implies reached(g, c, d + 1, #[trigger] vtx.edges()[e]@) by {
                assert(vtx.edges()[e] == vtx.outgoing_edges->Some_0@[e]);
            }
        }
        assert(c[d as int][pos] == v);
        assert(entry_complete(g, c, d as int, pos));
        assert forall|r: int, j: int| 0 <= r < c.len() && 0 <= j < c[r].len() && is_new(a, r, j)
            implies #[trigger] entry_complete(g, c, r, j) by {
            if r != d || j != pos {
                assert(is_new(b, r, j));
            }
        }
    }
    Ok(max_depth)
}

/// Where the next entry of column `d` goes: its current length, or 0 past the last.
pub open spec fn visited_pos(a: Seq<Seq<usize>>, d: int) -> int {
    if d < a.len() { a[d].len() as int } else { 0 }
}

/// A vertex with identifier `f` is recorded in column `d`.
pub open spec fn reached(g: &SasDigraph, c: Seq<Seq<usize>>, d: int, f: Seq<char>) -> bool {
    &&& 0 <= d < c.len()
    &&& exists|idx: int| 0 <= idx < c[d].len() && g.vertices@[#[trigger] c[d][idx] as int].fmri@ == f
}

/// Position `j` of column `r` is past the end of `a`.
pub open spec fn is_new(a: Seq<Seq<usize>>, r: int, j: int) -> bool {
    r >= a.len() || j >= a[r].len()
}

/// The target of each edge of the entry at position `j` of column `r` is
/// recorded in the next column.
pub open spec fn entry_complete(g: &SasDigraph, c: Seq<Seq<usize>>, r: int, j: int) -> bool {
    forall|e: int|
        0 <= e < g.vertices@[c[r][j] as int].edges().len() ==> reached(
            g,
            c,
            r + 1,
            #[trigger] g.vertices@[c[r][j] as int].edges()[e]@,
        )
}

/// Every entry of `b` past the end of `a` is complete.
pub open spec fn new_complete(g: &SasDigraph, a: Seq<Seq<usize>>, b: Seq<Seq<usize>>) -> bool {
    forall|r: int, j: int|
        0 <= r < b.len() && 0 <= j < b[r].len() && is_new(a, r, j) ==> #[trigger] entry_complete(
            g,
            b,
            r,
            j,
        )
}

/// Every entry of the columns is complete.
pub open spec fn all_complete(g: &SasDigraph, c: Seq<Seq<usize>>) -> bool {
    new_complete(g, Seq::empty(), c)
}

proof fn lemma_reached_grows(g: &SasDigraph, a: Seq<Seq<usize>>, b: Seq<Seq<usize>>, d: int, f: Seq<char>)
    requires
        reached(g, a, d, f),
        grows(a, b),
    ensures
        reached(g, b, d, f),
{
    let idx = choose|idx: int| 0 <= idx < a[d].len() && g.vertices@[#[trigger] a[d][idx] as int].fmri@ == f;
    assert(b[d][idx] == a[d][idx]);
}

proof fn lemma_complete_grows(g: &SasDigraph, a: Seq<Seq<usize>>, b: Seq<Seq<usize>>, r: int, j: int)
    requires
        0 <= r < a.len(),
        0 <= j < a[r].len(),
        entry_complete(g, a, r, j),
        grows(a, b),
    ensures
        entry_complete(g, b, r, j),
{
    assert(b[r][j] == a[r][j]);
    assert forall|e: int| 0 <= e < g.vertices@[b[r][j] as int].edges().len() implies reached(
        g,
        b,
        r + 1,
        #[trigger] g.vertices@[b[r][j] as int].edges()[e]@,
    ) by {
        lemma_reached_grows(g, a, b, r + 1, g.vertices@[a[r][j] as int].edges()[e]@);
    }
}

/// What a visit of `v` below depth `d` that reached rank `m` leaves in the
/// columns, from `a` before to `b` after.
pub open spec fn visited(
    g: &SasDigraph,
    v: usize,
    d: int,
    m: int,
    a: Seq<Seq<usize>>,
    b: Seq<Seq<usize>>,
) -> bool {
    &&& valid_columns(g, b)
    &&& ranked(g, b)
    &&& grows(a, b)
    &&& d < m
    &&& b.len() == if a.len() >= m { a.len() as int } else { m }
    &&& forall|r: int| 0 <= r < d ==> #[trigger] b[r] == a[r]
    &&& b[d][visited_pos(a, d)] == v
    &&& b[d].len() == visited_pos(a, d) + 1
    &&& new_complete(g, a, b)
    &&& forall|e: int|
        0 <= e < g.vertices@[v as int].edges().len() ==> reached(
            g,
            b,
            d + 1,
            #[trigger] g.vertices@[v as int].edges()[e]@,
        )
}

/// An initiator names an identifier that has no vertex.
pub open spec fn lost_initiator(g: &SasDigraph) -> bool {
    exists|k: int| 0 <= k < g.initiators@.len() && !g.has(#[trigger] g.initiators@[k]@)
}

/// The visits of the initiators `inits`, in order, from depth 0.
pub open spec fn walk_all(g: &SasDigraph, inits: Seq<String>) -> Result<(Seq<(usize, int)>, int), SasError>
    decreases inits.len(),
{
    if inits.len() == 0 {
        Ok((Seq::empty(), 0))
    } else {
        match walk_all(g, inits.drop_last()) {
            Err(e) => Err(e),
            Ok((o1, m1)) => if !g.has(inits.last()@) {
                Err(SasError::Lookup)
            } else {
                match walk(g, index_of(g, inits.last()@), 0) {
                    Err(e) => Err(e),
                    Ok((o2, m2)) => Ok((o1 + o2, max_int(m1, m2))),
                }
            },
        }
    }
}

/// Rank assignment of `g`: `Lookup` where any edge dangles; else the columns
/// that the visits of the initiators record, and the largest rank.
pub open spec fn ranks_of(g: &SasDigraph) -> Result<(Seq<Seq<usize>>, int), SasError> {
    if dangling(g) {
        Err(SasError::Lookup)
    } else {
        match walk_all(g, g.initiators@) {
            Ok((occ, m)) => Ok((record(Seq::empty(), occ), m)),
            Err(e) => Err(e),
        }
    }
}

/// Whether some edge names an identifier that has no vertex.
pub fn has_dangling_edge(g: &SasDigraph) -> (r: bool)
    ensures
        r == dangling(g),
{
    let mut u: usize = 0;
    while u < g.vertices.len()
        invariant
            u <= g.vertices@.len(),
            forall|x: int, e: int|
                0 <= x < u && 0 <= e < g.vertices@[x].edges().len() ==> g.has(
                    #[trigger] g.vertices@[x].edges()[e]@,
                ),
        decreases g.vertices@.len() - u,
    {
        match g.vertices[u].outgoing_edges.as_ref() {
            None => {},
            Some(edges) => {
                let mut e: usize = 0;
                while e < edges.len()
                    invariant
                        u < g.vertices@.len(),
                        g.vertices@[u as int].outgoing_edges == Some(*edges),
                        e <= edges@.len(),
                        forall|x: int, k: int|
                            0 <= x < u && 0 <= k < g.vertices@[x].edges().len() ==> g.has(
                                #[trigger] g.vertices@[x].edges()[k]@,
                            ),
                        forall|k: int| 0 <= k < e ==> g.has(#[trigger] g.vertices@[u as int].edges()[k]@),
                    decreases edges@.len() - e,
                {
                    if g.find(&edges[e]).is_none() {
                        proof {
                            assert(g.vertices@[u as int].edges()[e as int] == edges@[e as int]);
                        }
                        return true;
                    }
                    proof {
                        assert(g.vertices@[u as int].edges()[e as int] == edges@[e as int]);
                    }
                    e = e + 1;
                }
            },
        }
        proof {
            assert forall|x: int, k: int|
                0 <= x < u + 1 && 0 <= k < g.vertices@[x].edges().len() implies g.has(
                    #[trigger] g.vertices@[x].edges()[k]@,
                ) by {
                if x == u && g.vertices@[x].outgoing_edges is None {
                    assert(g.vertices@[x].edges().len() == 0);
                }
            }
        }
        u = u + 1;
    }
    false
}

proof fn lemma_walk_all_prefix_err(g: &SasDigraph, es: Seq<String>, i: int)
    requires
        0 <= i < es.len(),
        walk_all(g, es.subrange(0, i + 1)) is Err,
    ensures
        walk_all(g, es) == walk_all(g, es.subrange(0, i + 1)),
    decreases es.len() - i,
{
    if i + 1 < es.len() {
        assert(es.subrange(0, i + 2).drop_last() =~= es.subrange(0, i + 1));
        lemma_walk_all_prefix_err(g, es, i + 1);
    } else {
        assert(es.subrange(0, i + 1) =~= es);
    }
}

/// Without a dangling edge, a visit never fails with `Lookup`.
proof fn lemma_no_lookup(g: &SasDigraph, v: int, d: int)
    requires
        !dangling(g),
        g.wf(),
        0 <= v < g.vertices@.len(),
    ensures
        walk(g, v, d) != Err::<(Seq<(usize, int)>, int), SasError>(SasError::Lookup),
    decreases (g.vertices@.len() - d) as nat, 0nat,
{
    if d < g.vertices@.len() && d < u32::MAX {
        lemma_no_lookup_list(g, g.vertices@[v].edges(), d + 1, v);
    }
}

proof fn lemma_no_lookup_list(g: &SasDigraph, es: Seq<String>, d: int, u: int)
    requires
        !dangling(g),
        g.wf(),
        0 <= u < g.vertices@.len(),
        es.len() <= g.vertices@[u].edges().len(),
        forall|k: int| 0 <= k < es.len() ==> es[k] == #[trigger] g.vertices@[u].edges()[k],
    ensures
        walk_list(g, es, d) != Err::<(Seq<(usize, int)>, int), SasError>(SasError::Lookup),
    decreases (g.vertices@.len() - d) as nat, es.len(),
{
    if es.len() > 0 {
        lemma_no_lookup_list(g, es.drop_last(), d, u);
        let k = es.len() - 1;
        assert(es.last() == g.vertices@[u].edges()[k]);
        assert(g.has(g.vertices@[u].edges()[k]@));
        let t = index_of(g, es.last()@);
        lemma_no_lookup(g, t, d);
    }
}

/// Visits every initiator in order from depth 0. Returns the largest rank
/// and the columns: column `r` lists, in the order met, the vertices at rank
/// `r + 1`, a vertex once for each path on which it is met.
pub fn assign_ranks(g: &SasDigraph) -> (r: Result<(u32, Vec<Vec<usize>>), SasError>)
    requires
        g.wf(),
    ensures
        r matches Ok((m, cols)) ==> {
            let c = columns_view(cols@);
            &&& ranks_of(g) == Ok::<(Seq<Seq<usize>>, int), SasError>((c, m as int))
            &&& m == c.len()
            &&& valid_columns(g, c)
            &&& ranked(g, c)
            &&& all_complete(g, c)
            &&& g.initiators@.len() == 0 ==> c.len() == 0
            &&& g.initiators@.len() > 0 ==> c.len() > 0 && c[0].len() == g.initiators@.len()
                && forall|k: int|
                0 <= k < g.initiators@.len() ==> g.vertices@[#[trigger] c[0][k] as int].fmri@
                    == g.initiators@[k]@
        },
        r matches Err(e) ==> ranks_of(g) == Err::<(Seq<Seq<usize>>, int), SasError>(e),
        r matches Err(e) ==> (e == SasError::Lookup ==> dangling(g) || lost_initiator(g)),
        r matches Err(e) ==> (dangling(g) ==> e == SasError::Lookup),
        r matches Err(e) ==> e == SasError::Lookup || e == SasError::Cycle || e == SasError::TooLarge,
{
    if has_dangling_edge(g) {
        return Err(SasError::Lookup);
    }
    let mut max_depth: u32 = 0;
    let mut column_hash: Vec<Vec<usize>> = Vec::new();
    let mut i: usize = 0;
    while i < g.initiators.len()
        invariant
            g.wf(),
            i <= g.initiators@.len(),
            max_depth == columns_view(column_hash@).len(),
            valid_columns(g, columns_view(column_hash@)),
            ranked(g, columns_view(column_hash@)),
            all_complete(g, columns_view(column_hash@)),
            i == 0 ==> column_hash@.len() == 0,
            i > 0 ==> column_hash@.len() > 0 && columns_view(column_hash@)[0].len() == i,
            forall|k: int|
                0 <= k < i ==> g.vertices@[#[trigger] columns_view(column_hash@)[0][k] as int].fmri@
                    == g.initiators@[k]@,
            !dangling(g),
            forall|k: int| 0 <= k < i ==> g.has(#[trigger] g.initiators@[k]@),
            walk_all(g, g.initiators@.subrange(0, i as int)) matches Ok((occ, mm)) && columns_view(column_hash@)
                == record(Seq::empty(), occ) && max_depth == mm,
        decreases g.initiators@.len() - i,
    {
        let ghost a = columns_view(column_hash@);
        let ghost pre = walk_all(g, g.initiators@.subrange(0, i as int));
        proof {
            assert(g.initiators@.subrange(0, i + 1).drop_last() =~= g.initiators@.subrange(0, i as int));
        }
        let vtx = match g.find(&g.initiators[i]) {
            Some(v) => v,
            None => {
                proof {
                    lemma_walk_all_prefix_err(g, g.initiators@, i as int);
                    assert(lost_initiator(g));
                }
                return Err(SasError::Lookup);
            },
        };
        proof {
            lemma_index_of(g, vtx as int);
        }
        let rc = match visit_vertex(g, vtx, &mut column_hash, 0) {
            Ok(rc) => rc,
            Err(e) => {
                proof {
                    lemma_walk_all_prefix_err(g, g.initiators@, i as int);
                    lemma_no_lookup(g, vtx as int, 0);
                }
                return Err(e);
            },
        };
        proof {
            let b = columns_view(column_hash@);
            let (o1, m1) = pre->Ok_0;
            let (o2, m2) = walk(g, vtx as int, 0)->Ok_0;
            lemma_record_concat(Seq::empty(), o1, o2);
            assert forall|k: int| 0 <= k < i + 1 implies g.vertices@[#[trigger] b[0][k] as int].fmri@
                == g.initiators@[k]@ by {
                if k < i {
                    assert(b[0][k] == a[0][k]);
                }
            }
            if i > 0 {
                assert(b[0].len() >= a[0].len());
            }
            assert forall|r: int, j: int| 0 <= r < b.len() && 0 <= j < b[r].len() && is_new(Seq::empty(), r, j)
                implies #[trigger] entry_complete(g, b, r, j) by {
                if !is_new(a, r, j) {
                    assert(is_new(Seq::<Seq<usize>>::empty(), r, j));
                    assert(entry_complete(g, a, r, j));
                    lemma_complete_grows(g, a, b, r, j);
                }
            }
        }
        if rc > max_depth {
            max_depth = rc;
        }
        i = i + 1;
    }
    proof {
        assert(g.initiators@.subrange(0, g.initiators@.len() as int) =~= g.initiators@);
        assert(!lost_initiator(g));
    }
    Ok((max_depth, column_hash))
}

/// In columns where every entry is complete, no entry has an edge that
/// dangles, and each edge's target stands in the next column. So rank
/// assignment that meets a dangling edge on a vertex that it reaches cannot
/// succeed.
pub proof fn complete_columns_have_no_dangling_edge(g: &SasDigraph, c: Seq<Seq<usize>>, r: int, j: int, e: int)
    requires
        valid_columns(g, c),
        all_complete(g, c),
        0 <= r < c.len(),
        0 <= j < c[r].len(),
        0 <= e < g.vertices@[c[r][j] as int].edges().len(),
    ensures
        g.has(g.vertices@[c[r][j] as int].edges()[e]@),
        reached(g, c, r + 1, g.vertices@[c[r][j] as int].edges()[e]@),
{
    assert(entry_complete(g, c, r, j));
    let f = g.vertices@[c[r][j] as int].edges()[e]@;
    assert(reached(g, c, r + 1, f));
    let idx = choose|idx: int| 0 <= idx < c[r + 1].len() && g.vertices@[#[trigger] c[r + 1][idx] as int].fmri@ == f;
    assert(c[r + 1][idx] < g.vertices@.len());
    assert(g.vertices@[c[r + 1][idx] as int].fmri@ == f);
}

/// `p` is a path of vertices of `g` along edges.
pub open spec fn is_path(g: &SasDigraph, p: Seq<int>) -> bool {
    &&& p.len() >= 1
    &&& forall|i: int| 0 <= i < p.len() ==> 0 <= #[trigger] p[i] < g.vertices@.len()
    &&& forall|i: int| 0 <= i < p.len() - 1 ==> has_edge(g, #[trigger] p[i], p[i + 1])
}

/// A visit of `v` below depth `d` reports a cycle only where a path of more
/// than `n - d` vertices starts at `v` (n the number of vertices): from the
/// initiators, a path of `n + 1` vertices, on which some vertex repeats.
pub proof fn cycle_needs_long_path(g: &SasDigraph, v: int, d: int)
    requires
        g.wf(),
        0 <= v < g.vertices@.len(),
        walk(g, v, d) == Err::<(Seq<(usize, int)>, int), SasError>(SasError::Cycle),
    ensures
        exists|p: Seq<int>| #[trigger] is_path(g, p) && p[0] == v && p.len() >= g.vertices@.len() - d + 1,
    decreases (g.vertices@.len() - d) as nat, 0nat,
{
    if d >= g.vertices@.len() {
        let p = seq![v];
        assert(is_path(g, p));
    } else {
        let es = g.vertices@[v].edges();
        let k = lemma_cycle_in_list(g, es, d + 1);
        let t = index_of(g, es[k]@);
        cycle_needs_long_path(g, t, d + 1);
        let q = choose|q: Seq<int>| #[trigger] is_path(g, q) && q[0] == t && q.len() >= g.vertices@.len() - (d + 1) + 1;
        let p = seq![v] + q;
        assert(g.vertices@[t].fmri@ == es[k]@);
        assert(has_edge(g, v, t));
        assert forall|i: int| 0 <= i < p.len() - 1 implies has_edge(g, #[trigger] p[i], p[i + 1]) by {
            if i > 0 {
                assert(p[i] == q[i - 1]);
                assert(p[i + 1] == q[i]);
            }
        }
        assert forall|i: int| 0 <= i < p.len() implies 0 <= #[trigger] p[i] < g.vertices@.len() by {
            if i > 0 {
                assert(p[i] == q[i - 1]);
            }
        }
        assert(is_path(g, p));
    }
}

proof fn lemma_cycle_in_list(g: &SasDigraph, es: Seq<String>, d: int) -> (k: int)
    requires
        g.wf(),
        walk_list(g, es, d) == Err::<(Seq<(usize, int)>, int), SasError>(SasError::Cycle),
    ensures
        0 <= k < es.len(),
        g.has(es[k]@),
        walk(g, index_of(g, es[k]@), d) == Err::<(Seq<(usize, int)>, int), SasError>(SasError::Cycle),
        0 <= index_of(g, es[k]@) < g.vertices@.len(),
        g.vertices@[index_of(g, es[k]@)].fmri@ == es[k]@,
    decreases es.len(),
{
    if walk_list(g, es.drop_last(), d) is Err {
        let k = lemma_cycle_in_list(g, es.drop_last(), d);
        assert(es.drop_last()[k] == es[k]);
        k
    } else {
        es.len() - 1
    }
}

proof fn lemma_walk_errors(g: &SasDigraph, v: int, d: int)
    ensures
        walk(g, v, d) matches Err(e) ==> e == SasError::Cycle || e == SasError::Lookup || (e
            == SasError::TooLarge && g.vertices@.len() > u32::MAX),
    decreases (g.vertices@.len() - d) as nat, 0nat,
{
    if d < g.vertices@.len() && d < u32::MAX {
        lemma_walk_list_errors(g, g.vertices@[v].edges(), d + 1);
    }
}

proof fn lemma_walk_list_errors(g: &SasDigraph, es: Seq<String>, d: int)
    ensures
        walk_list(g, es, d) matches Err(e) ==> e == SasError::Cycle || e == SasError::Lookup || (e
            == SasError::TooLarge && g.vertices@.len() > u32::MAX),
    decreases (g.vertices@.len() - d) as nat, es.len(),
{
    if es.len() > 0 {
        lemma_walk_list_errors(g, es.drop_last(), d);
        lemma_walk_errors(g, index_of(g, es.last()@), d);
    }
}

/// A visit succeeds where no edge dangles, the vertices can be counted in
/// 32 bits, and no path from the vertex has more than `n - d` vertices.
pub proof fn visit_succeeds(g: &SasDigraph, v: int, d: int)
    requires
        g.wf(),
        !dangling(g),
        g.vertices@.len() <= u32::MAX,
        0 <= v < g.vertices@.len(),
        forall|p: Seq<int>| #[trigger] is_path(g, p) && p[0] == v ==> p.len() <= g.vertices@.len() - d,
    ensures
        walk(g, v, d) is Ok,
{
    lemma_walk_errors(g, v, d);
    lemma_no_lookup(g, v, d);
    if walk(g, v, d) == Err::<(Seq<(usize, int)>, int), SasError>(SasError::Cycle) {
        cycle_needs_long_path(g, v, d);
    }
}

/// Rank assignment succeeds where no edge dangles, every initiator names a
/// vertex, the vertices can be counted in 32 bits, and no path from a vertex
/// has more vertices than the graph (so none holds a cycle).
pub proof fn ranks_succeed(g: &SasDigraph)
    requires
        g.wf(),
        !dangling(g),
        !lost_initiator(g),
        g.vertices@.len() <= u32::MAX,
        forall|p: Seq<int>| #[trigger] is_path(g, p) ==> p.len() <= g.vertices@.len(),
    ensures
        ranks_of(g) is Ok,
{
    lemma_walk_all_ok(g, g.initiators@);
}

proof fn lemma_walk_all_ok(g: &SasDigraph, inits: Seq<String>)
    requires
        g.wf(),
        !dangling(g),
        g.vertices@.len() <= u32::MAX,
        forall|k: int| 0 <= k < inits.len() ==> g.has(#[trigger] inits[k]@),
        forall|p: Seq<int>| #[trigger] is_path(g, p) ==> p.len() <= g.vertices@.len(),
    ensures
        walk_all(g, inits) is Ok,
    decreases inits.len(),
{
    if inits.len() > 0 {
        assert forall|k: int| 0 <= k < inits.drop_last().len() implies g.has(#[trigger] inits.drop_last()[k]@) by {
            assert(inits.drop_last()[k] == inits[k]);
        }
        lemma_walk_all_ok(g, inits.drop_last());
        assert(g.has(inits[inits.len() - 1]@));
        let t = index_of(g, inits.last()@);
        visit_succeeds(g, t, 0);
    }
}

} // verus!
