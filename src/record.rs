use vstd::prelude::*;
use crate::error::SasError;
use crate::instance::{instance_of, parse_instance};
use crate::layout::{bounded, graph_bounded};
use crate::model::{SasDigraph, SasDigraphProperty, SasDigraphVertex};
use crate::text::{join_comma, join_with_commas, same_text};

verus! {

/// Tag of the entry that names a property group.
pub const PG_NAME: &'static str = "property-group-name";

/// Tag of the entry that holds a property group's values.
pub const PG_VALS: &'static str = "property-values";

/// Tag of the entry that names a property.
pub const PROP_NAME: &'static str = "property-name";

/// Tag of the entry that holds a property's value.
pub const PROP_VALUE: &'static str = "property-value";

/// Category of the vertices that traversal starts from.
pub const INITIATOR: &'static str = "initiator";

/// Name of the property group that only restates a vertex's identifier.
pub const PROTOCOL: &'static str = "protocol";

/// One tagged entry of a property record. Where `elements` is present the
/// value is a list, and each element's text is in it.
#[derive(Debug, Clone)]
pub struct PropEntry {
    pub name: Option<String>,
    pub value: Option<String>,
    pub elements: Option<Vec<Option<String>>>,
}

/// A property as the parsed input holds it: a list of tagged entries.
#[derive(Debug, Clone)]
pub struct PropRecord {
    pub nvpairs: Vec<PropEntry>,
}

/// One tagged entry of a property group: its name, or its values.
#[derive(Debug, Clone)]
pub struct GroupEntry {
    pub name: Option<String>,
    pub value: Option<String>,
    pub props: Option<Vec<PropRecord>>,
}

/// A property group as the parsed input holds it.
#[derive(Debug, Clone)]
pub struct GroupRecord {
    pub nvpairs: Vec<GroupEntry>,
}

/// A vertex as the parsed input holds it.
#[derive(Debug, Clone)]
pub struct VertexRecord {
    pub fmri: String,
    pub name: String,
    /// The instance number as hexadecimal text with a `0x` prefix.
    pub instance: String,
    pub outgoing_edges: Option<Vec<String>>,
    pub propgroups: Vec<GroupRecord>,
}

/// A parsed topology snapshot.
#[derive(Debug, Clone)]
pub struct TopoDocument {
    pub nodename: String,
    pub os_version: String,
    pub timestamp: String,
    pub vertices: Vec<VertexRecord>,
}

/// The texts of a list value, or none where an element has no text.
pub open spec fn element_texts(es: Seq<Option<String>>) -> Option<Seq<Seq<char>>>
    decreases es.len(),
{
    if es.len() == 0 {
        Some(Seq::empty())
    } else {
        match (element_texts(es.drop_last()), es.last()) {
            (Some(t), Some(s)) => Some(t.push(s@)),
            _ => None,
        }
    }
}

/// The value that a value entry gives: the list joined with commas, or the scalar.
pub open spec fn entry_value(e: PropEntry) -> Option<Seq<char>> {
    match e.elements {
        Some(es) => match element_texts(es@) {
            Some(t) => Some(join_comma(t)),
            None => None,
        },
        None => match e.value {
            Some(v) => Some(v@),
            None => None,
        },
    }
}

/// The name and value that the entries set so far (later entries win), or
/// none where an entry is malformed.
pub open spec fn scan_prop(es: Seq<PropEntry>) -> Option<(Option<Seq<char>>, Option<Seq<char>>)>
    decreases es.len(),
{
    if es.len() == 0 {
        Some((None, None))
    } else {
        match scan_prop(es.drop_last()) {
            None => None,
            Some((n, v)) => {
                let e = es.last();
                match e.name {
                    None => None,
                    Some(tag) => if tag@ == PROP_NAME@ {
                        match e.value {
                            Some(x) => Some((Some(x@), v)),
                            None => None,
                        }
                    } else if tag@ == PROP_VALUE@ {
                        match entry_value(e) {
                            Some(x) => Some((n, Some(x))),
                            None => None,
                        }
                    } else {
                        Some((n, v))
                    }
                }
            },
        }
    }
}

/// The property that a record denotes: both its name and its value set.
pub open spec fn prop_of(r: PropRecord) -> Option<(Seq<char>, Seq<char>)> {
    match scan_prop(r.nvpairs@) {
        Some((Some(n), Some(v))) => Some((n, v)),
        _ => None,
    }
}

fn entry_value_of(e: &PropEntry) -> (r: Option<String>)
    ensures
        r matches Some(s) ==> entry_value(*e) == Some(s@),
        r is None ==> entry_value(*e) is None,
{
    match e.elements.as_ref() {
        Some(es) => {
            let mut texts: Vec<String> = Vec::new();
            let mut i: usize = 0;
            while i < es.len()
                invariant
                    i <= es@.len(),
                    e.elements == Some(*es),
                    element_texts(es@.subrange(0, i as int)) == Some(
                        texts@.map_values(|p: String| p@),
                    ),
                decreases es@.len() - i,
            {
                proof {
                    assert(es@.subrange(0, i + 1).drop_last() =~= es@.subrange(0, i as int));
                }
                match &es[i] {
                    Some(s) => {
                        texts.push(s.clone());
                    },
                    None => {
                        proof {
                            assert(es@[i as int] is None);
                            lemma_element_texts_none(es@, i as int);
                        }
                        return None;
                    },
                }
                i = i + 1;
            }
            proof {
                assert(es@.subrange(0, es@.len() as int) =~= es@);
            }
            Some(join_with_commas(&texts))
        },
        None => match e.value.as_ref() {
            Some(v) => Some(v.clone()),
            None => None,
        },
    }
}

proof fn lemma_element_texts_none(es: Seq<Option<String>>, i: int)
    requires
        0 <= i < es.len(),
        es[i] is None,
    ensures
        element_texts(es) is None,
    decreases es.len(),
{
    if i < es.len() - 1 {
        assert(es.drop_last()[i] == es[i]);
        lemma_element_texts_none(es.drop_last(), i);
    }
}

} // verus!

verus! {

/// The property that a record denotes, or `Format` where it is malformed.
pub fn parse_prop(nvl: &PropRecord) -> (r: Result<SasDigraphProperty, SasError>)
    ensures
        r matches Ok(p) ==> prop_of(*nvl) == Some((p.name@, p.value@)),
        r is Err ==> prop_of(*nvl) is None && r == Err::<SasDigraphProperty, SasError>(
            SasError::Format,
        ),
{
    let mut propname: Option<String> = None;
    let mut propval: Option<String> = None;
    let mut i: usize = 0;
    while i < nvl.nvpairs.len()
        invariant
            i <= nvl.nvpairs@.len(),
            scan_prop(nvl.nvpairs@.subrange(0, i as int)) == Some(
                (opt_view(propname), opt_view(propval)),
            ),
        decreases nvl.nvpairs@.len() - i,
    {
        let ghost es = nvl.nvpairs@.subrange(0, i + 1);
        proof {
            assert(es.drop_last() =~= nvl.nvpairs@.subrange(0, i as int));
        }
        let e = &nvl.nvpairs[i];
        let tag = match e.name.as_ref() {
            Some(t) => t,
            None => {
                proof {
                    lemma_scan_prop_fails(nvl.nvpairs@, i as int);
                }
                return Err(SasError::Format);
            },
        };
        if same_text(tag.as_str(), PROP_NAME) {
            match e.value.as_ref() {
                Some(v) => {
                    propname = Some(v.clone());
                },
                None => {
                    proof {
                        lemma_scan_prop_fails(nvl.nvpairs@, i as int);
                    }
                    return Err(SasError::Format);
                },
            }
        } else if same_text(tag.as_str(), PROP_VALUE) {
            match entry_value_of(e) {
                Some(v) => {
                    propval = Some(v);
                },
                None => {
                    proof {
                        lemma_scan_prop_fails(nvl.nvpairs@, i as int);
                    }
                    return Err(SasError::Format);
                },
            }
        }
        i = i + 1;
    }
    proof {
        assert(nvl.nvpairs@.subrange(0, nvl.nvpairs@.len() as int) =~= nvl.nvpairs@);
    }
    match (propname, propval) {
        (Some(n), Some(v)) => Ok(SasDigraphProperty::new(n, v)),
        _ => Err(SasError::Format),
    }
}

/// The view of an optional string.
pub open spec fn opt_view(s: Option<String>) -> Option<Seq<char>> {
    match s {
        Some(x) => Some(x@),
        None => None,
    }
}

proof fn lemma_scan_prop_fails(es: Seq<PropEntry>, i: int)
    requires
        0 <= i < es.len(),
        scan_prop(es.subrange(0, i + 1)) is None,
    ensures
        scan_prop(es) is None,
    decreases es.len() - i,
{
    if i + 1 < es.len() {
        assert(es.subrange(0, i + 2).drop_last() =~= es.subrange(0, i + 1));
        lemma_scan_prop_fails(es, i + 1);
    } else {
        assert(es.subrange(0, i + 1) =~= es);
    }
}

} // verus!

verus! {

/// The group's name ("" where unset) and its values, as the entries set
/// them (later entries win), or none where an entry is malformed.
pub open spec fn scan_group(es: Seq<GroupEntry>) -> Option<(Seq<char>, Option<Seq<PropRecord>>)>
    decreases es.len(),
{
    if es.len() == 0 {
        Some((Seq::empty(), None))
    } else {
        match scan_group(es.drop_last()) {
            None => None,
            Some((n, p)) => {
                let e = es.last();
                match e.name {
                    None => None,
                    Some(tag) => if tag@ == PG_NAME@ {
                        match e.value {
                            Some(x) => Some((x@, p)),
                            None => None,
                        }
                    } else if tag@ == PG_VALS@ {
                        match e.props {
                            Some(ps) => Some((n, Some(ps@))),
                            None => Some((n, p)),
                        }
                    } else {
                        None
                    }
                }
            },
        }
    }
}

/// The properties of a list of records, or none where one is malformed.
pub open spec fn props_of(ps: Seq<PropRecord>) -> Option<Seq<(Seq<char>, Seq<char>)>>
    decreases ps.len(),
{
    if ps.len() == 0 {
        Some(Seq::empty())
    } else {
        match (props_of(ps.drop_last()), prop_of(ps.last())) {
            (Some(t), Some(p)) => Some(t.push(p)),
            _ => None,
        }
    }
}

/// The properties that a group contributes to its vertex, or none where it
/// is malformed. A group without values, and the protocol group, give none.
pub open spec fn group_props(g: GroupRecord) -> Option<Seq<(Seq<char>, Seq<char>)>> {
    match scan_group(g.nvpairs@) {
        None => None,
        Some((n, p)) => if n.len() == 0 {
            None
        } else {
            match p {
                None => Some(Seq::empty()),
                Some(ps) => if n == PROTOCOL@ {
                    Some(Seq::empty())
                } else {
                    props_of(ps)
                },
            }
        },
    }
}

/// The properties of all the groups, in order.
pub open spec fn groups_props(gs: Seq<GroupRecord>) -> Option<Seq<(Seq<char>, Seq<char>)>>
    decreases gs.len(),
{
    if gs.len() == 0 {
        Some(Seq::empty())
    } else {
        match (groups_props(gs.drop_last()), group_props(gs.last())) {
            (Some(t), Some(p)) => Some(t + p),
            _ => None,
        }
    }
}

/// The name and value of each property.
pub open spec fn props_view(ps: Seq<SasDigraphProperty>) -> Seq<(Seq<char>, Seq<char>)> {
    ps.map_values(|p: SasDigraphProperty| (p.name@, p.value@))
}

proof fn lemma_scan_group_fails(es: Seq<GroupEntry>, i: int)
    requires
        0 <= i < es.len(),
        scan_group(es.subrange(0, i + 1)) is None,
    ensures
        scan_group(es) is None,
    decreases es.len() - i,
{
    if i + 1 < es.len() {
        assert(es.subrange(0, i + 2).drop_last() =~= es.subrange(0, i + 1));
        lemma_scan_group_fails(es, i + 1);
    } else {
        assert(es.subrange(0, i + 1) =~= es);
    }
}

proof fn lemma_props_of_fails(ps: Seq<PropRecord>, i: int)
    requires
        0 <= i < ps.len(),
        prop_of(ps[i]) is None,
    ensures
        props_of(ps) is None,
    decreases ps.len(),
{
    if i < ps.len() - 1 {
        assert(ps.drop_last()[i] == ps[i]);
        lemma_props_of_fails(ps.drop_last(), i);
    }
}

/// Appends to `out` the properties that group `g` contributes.
pub fn extract_group(g: &GroupRecord, out: &mut Vec<SasDigraphProperty>) -> (r: Result<(), SasError>)
    ensures
        r is Ok ==> (group_props(*g) matches Some(p) && props_view(final(out)@) == props_view(
            old(out)@,
        ) + p),
        r is Err ==> group_props(*g) is None && r == Err::<(), SasError>(SasError::Format),
{
    let mut pgname: Option<&String> = None;
    let mut props: Option<&Vec<PropRecord>> = None;
    let mut i: usize = 0;
    while i < g.nvpairs.len()
        invariant
            i <= g.nvpairs@.len(),
            scan_group(g.nvpairs@.subrange(0, i as int)) == Some(
                (
                    match pgname {
                        Some(n) => n@,
                        None => Seq::<char>::empty(),
                    },
                    match props {
                        Some(ps) => Some(ps@),
                        None => None::<Seq<PropRecord>>,
                    },
                ),
            ),
            out@ == old(out)@,
        decreases g.nvpairs@.len() - i,
    {
        proof {
            assert(g.nvpairs@.subrange(0, i + 1).drop_last() =~= g.nvpairs@.subrange(0, i as int));
        }
        let e = &g.nvpairs[i];
        let tag = match e.name.as_ref() {
            Some(t) => t,
            None => {
                proof {
                    lemma_scan_group_fails(g.nvpairs@, i as int);
                }
                return Err(SasError::Format);
            },
        };
        if same_text(tag.as_str(), PG_NAME) {
            match e.value.as_ref() {
                Some(v) => {
                    pgname = Some(v);
                },
                None => {
                    proof {
                        lemma_scan_group_fails(g.nvpairs@, i as int);
                    }
                    return Err(SasError::Format);
                },
            }
        } else if same_text(tag.as_str(), PG_VALS) {
            match e.props.as_ref() {
                Some(ps) => {
                    props = Some(ps);
                },
                None => {},
            }
        } else {
            proof {
                lemma_scan_group_fails(g.nvpairs@, i as int);
            }
            return Err(SasError::Format);
        }
        i = i + 1;
    }
    proof {
        assert(g.nvpairs@.subrange(0, g.nvpairs@.len() as int) =~= g.nvpairs@);
    }
    let name = match pgname {
        Some(n) => n,
        None => {
            return Err(SasError::Format);
        },
    };
    if name.unicode_len() == 0 {
        return Err(SasError::Format);
    }
    let ps = match props {
        Some(ps) => ps,
        None => {
            proof {
                assert(props_view(out@) =~= props_view(old(out)@) + Seq::empty());
            }
            return Ok(());
        },
    };
    if same_text(name.as_str(), PROTOCOL) {
        proof {
            assert(props_view(out@) =~= props_view(old(out)@) + Seq::empty());
        }
        return Ok(());
    }
    let mut k: usize = 0;
    while k < ps.len()
        invariant
            k <= ps@.len(),
            group_props(*g) == props_of(ps@),
            props_of(ps@.subrange(0, k as int)) matches Some(p) && props_view(out@)
                == props_view(old(out)@) + p,
        decreases ps@.len() - k,
    {
        let prop = match parse_prop(&ps[k]) {
            Ok(p) => p,
            Err(e) => {
                proof {
                    lemma_props_of_fails(ps@, k as int);
                }
                return Err(e);
            },
        };
        let ghost before = out@;
        out.push(prop);
        proof {
            let sub = ps@.subrange(0, k + 1);
            assert(sub.drop_last() =~= ps@.subrange(0, k as int));
            let p = props_of(ps@.subrange(0, k as int))->Some_0;
            assert(props_view(out@) =~= props_view(before).push((prop.name@, prop.value@)));
            assert(props_view(out@) =~= props_view(old(out)@) + p.push(
                (prop.name@, prop.value@),
            ));
        }
        k = k + 1;
    }
    proof {
        assert(ps@.subrange(0, ps@.len() as int) =~= ps@);
    }
    Ok(())
}

} // verus!

verus! {

/// The targets of an optional edge list.
pub open spec fn edge_list(o: Option<Vec<String>>) -> Option<Seq<String>> {
    match o {
        Some(v) => Some(v@),
        None => None,
    }
}

/// A record that builds into a vertex: its instance parses and its groups are well formed.
pub open spec fn record_ok(r: VertexRecord) -> bool {
    instance_of(r.instance@) is Some && groups_props(r.propgroups@) is Some
}

proof fn lemma_groups_props_fails(gs: Seq<GroupRecord>, i: int)
    requires
        0 <= i < gs.len(),
        group_props(gs[i]) is None,
    ensures
        groups_props(gs) is None,
    decreases gs.len(),
{
    if i < gs.len() - 1 {
        assert(gs.drop_last()[i] == gs[i]);
        lemma_groups_props_fails(gs.drop_last(), i);
    }
}

fn clone_strings(v: &Vec<String>) -> (r: Vec<String>)
    ensures
        r@ == v@,
{
    let mut r: Vec<String> = Vec::new();
    let mut i: usize = 0;
    while i < v.len()
        invariant
            i <= v@.len(),
            r@ == v@.subrange(0, i as int),
        decreases v@.len() - i,
    {
        r.push(v[i].clone());
        proof {
            assert(r@ =~= v@.subrange(0, i + 1));
        }
        i = i + 1;
    }
    proof {
        assert(r@ =~= v@);
    }
    r
}

/// Builds the vertex that a record describes.
pub fn build_vertex(rec: &VertexRecord) -> (r: Result<SasDigraphVertex, SasError>)
    ensures
        r matches Ok(v) ==> {
            &&& record_ok(*rec)
            &&& v.fmri == rec.fmri
            &&& v.name == rec.name
            &&& Some(v.instance) == instance_of(rec.instance@)
            &&& edge_list(v.outgoing_edges) == edge_list(rec.outgoing_edges)
            &&& Some(props_view(v.properties@)) == groups_props(rec.propgroups@)
            &&& v.geometry.x == 0 && v.geometry.y == 0
        },
        r matches Err(e) ==> !record_ok(*rec) && (instance_of(rec.instance@) is None ==> e
            == SasError::Parse) && (instance_of(rec.instance@) is Some ==> e == SasError::Format),
{
    let instance = parse_instance(rec.instance.as_str())?;
    let edges = match rec.outgoing_edges.as_ref() {
        Some(es) => Some(clone_strings(es)),
        None => None,
    };
    let mut vtx = SasDigraphVertex::new(rec.fmri.clone(), rec.name.clone(), instance, edges);
    let mut i: usize = 0;
    while i < rec.propgroups.len()
        invariant
            i <= rec.propgroups@.len(),
            vtx.fmri == rec.fmri,
            vtx.name == rec.name,
            Some(vtx.instance) == instance_of(rec.instance@),
            edge_list(vtx.outgoing_edges) == edge_list(rec.outgoing_edges),
            vtx.geometry.x == 0 && vtx.geometry.y == 0,
            groups_props(rec.propgroups@.subrange(0, i as int)) == Some(
                props_view(vtx.properties@),
            ),
        decreases rec.propgroups@.len() - i,
    {
        proof {
            assert(rec.propgroups@.subrange(0, i + 1).drop_last() =~= rec.propgroups@.subrange(
                0,
                i as int,
            ));
        }
        match extract_group(&rec.propgroups[i], &mut vtx.properties) {
            Ok(()) => {},
            Err(e) => {
                proof {
                    lemma_groups_props_fails(rec.propgroups@, i as int);
                }
                return Err(e);
            },
        }
        i = i + 1;
    }
    proof {
        assert(rec.propgroups@.subrange(0, rec.propgroups@.len() as int) =~= rec.propgroups@);
    }
    Ok(vtx)
}

/// The targets of a record's edges; none where it has no edge list.
pub open spec fn record_edges(r: VertexRecord) -> Seq<String> {
    match r.outgoing_edges {
        Some(e) => e@,
        None => Seq::empty(),
    }
}

/// Vertex `v` has the identifier and the edges of one of the records.
pub open spec fn from_record(v: SasDigraphVertex, recs: Seq<VertexRecord>) -> bool {
    exists|i: int| 0 <= i < recs.len() && #[trigger] recs[i].fmri == v.fmri && record_edges(recs[i]) == v.edges()
}

/// Every vertex of `g` has the identifier and the edges of one of the records.
pub open spec fn from_records(g: &SasDigraph, recs: Seq<VertexRecord>) -> bool {
    forall|v: int| 0 <= v < g.vertices@.len() ==> from_record(#[trigger] g.vertices@[v], recs)
}

/// Some record has an edge to an identifier that no record has.
pub open spec fn dangling_record(recs: Seq<VertexRecord>) -> bool {
    exists|i: int, k: int|
        0 <= i < recs.len() && 0 <= k < record_edges(recs[i]).len() && forall|j: int|
            0 <= j < recs.len() ==> recs[j].fmri@ != #[trigger] record_edges(recs[i])[k]@
}

/// The identifiers of the records whose category is initiator, in order.
pub open spec fn initiator_fmris(recs: Seq<VertexRecord>) -> Seq<Seq<char>>
    decreases recs.len(),
{
    if recs.len() == 0 {
        Seq::empty()
    } else if recs.last().name@ == INITIATOR@ {
        initiator_fmris(recs.drop_last()).push(recs.last().fmri@)
    } else {
        initiator_fmris(recs.drop_last())
    }
}

/// The position of the last record with identifier `f`, or -1.
pub open spec fn last_record(recs: Seq<VertexRecord>, f: Seq<char>) -> int
    decreases recs.len(),
{
    if recs.len() == 0 {
        -1
    } else if recs.last().fmri@ == f {
        recs.len() - 1
    } else {
        last_record(recs.drop_last(), f)
    }
}

/// Vertex `v` is what record `rec` builds into.
pub open spec fn vertex_matches(v: SasDigraphVertex, rec: VertexRecord) -> bool {
    &&& v.fmri == rec.fmri
    &&& v.name == rec.name
    &&& Some(v.instance) == instance_of(rec.instance@)
    &&& v.edges() == record_edges(rec)
    &&& Some(props_view(v.properties@)) == groups_props(rec.propgroups@)
}

/// Each vertex is what the last record with its identifier builds into.
pub open spec fn last_wins(g: &SasDigraph, recs: Seq<VertexRecord>) -> bool {
    forall|v: int|
        0 <= v < g.vertices@.len() ==> 0 <= last_record(recs, (#[trigger] g.vertices@[v]).fmri@)
            && vertex_matches(g.vertices@[v], recs[last_record(recs, g.vertices@[v].fmri@)])
}

proof fn lemma_last_record_range(recs: Seq<VertexRecord>, f: Seq<char>)
    ensures
        -1 <= last_record(recs, f) < recs.len(),
    decreases recs.len(),
{
    if recs.len() > 0 {
        lemma_last_record_range(recs.drop_last(), f);
    }
}

/// What building `doc` gives: every record well formed, a vertex for each
/// identifier, the initiators in order, zero geometry, and each vertex
/// with the identifier and edges of one of the records.
pub open spec fn built_from(doc: &TopoDocument, g: &SasDigraph) -> bool {
    &&& g.wf()
    &&& g.nodename == doc.nodename
    &&& g.os_version == doc.os_version
    &&& g.timestamp == doc.timestamp
    &&& forall|i: int| 0 <= i < doc.vertices@.len() ==> #[trigger] record_ok(doc.vertices@[i])
    &&& forall|i: int| 0 <= i < doc.vertices@.len() ==> g.has(#[trigger] doc.vertices@[i].fmri@)
    &&& g.initiators@.map_values(|s: String| s@) == initiator_fmris(doc.vertices@)
    &&& graph_bounded(g)
    &&& from_records(g, doc.vertices@)
    &&& last_wins(g, doc.vertices@)
    &&& forall|k: int| 0 <= k < g.initiators@.len() ==> g.has(#[trigger] g.initiators@[k]@)
}

/// Builds the topology that a document describes. A later record with an
/// identifier already seen replaces the earlier vertex.
pub fn build_digraph(doc: &TopoDocument) -> (r: Result<SasDigraph, SasError>)
    ensures
        r matches Ok(g) ==> built_from(doc, &g),
        r is Err ==> exists|i: int| 0 <= i < doc.vertices@.len() && !#[trigger] record_ok(doc.vertices@[i]),
        r matches Err(e) ==> e == SasError::Parse || e == SasError::Format,
{
    let mut g = SasDigraph::new(doc.nodename.clone(), doc.os_version.clone(), doc.timestamp.clone());
    let mut i: usize = 0;
    while i < doc.vertices.len()
        invariant
            i <= doc.vertices@.len(),
            g.wf(),
            g.nodename == doc.nodename,
            g.os_version == doc.os_version,
            g.timestamp == doc.timestamp,
            forall|k: int| 0 <= k < i ==> #[trigger] record_ok(doc.vertices@[k]),
            forall|k: int| 0 <= k < i ==> g.has(#[trigger] doc.vertices@[k].fmri@),
            g.initiators@.map_values(|s: String| s@) == initiator_fmris(doc.vertices@.subrange(0, i as int)),
            graph_bounded(&g),
            from_records(&g, doc.vertices@),
            last_wins(&g, doc.vertices@.subrange(0, i as int)),
            forall|k: int| 0 <= k < g.initiators@.len() ==> g.has(#[trigger] g.initiators@[k]@),
        decreases doc.vertices@.len() - i,
    {
        let rec = &doc.vertices[i];
        let vtx = match build_vertex(rec) {
            Ok(v) => v,
            Err(e) => {
                return Err(e);
            },
        };
        let ghost old_g = g;
        proof {
            assert(doc.vertices@.subrange(0, i + 1).drop_last() =~= doc.vertices@.subrange(0, i as int));
        }
        if same_text(vtx.name.as_str(), INITIATOR) {
            g.initiators.push(vtx.fmri.clone());
            proof {
                assert(g.initiators@.map_values(|s: String| s@) =~= old_g.initiators@.map_values(
                    |s: String| s@,
                ).push(vtx.fmri@));
            }
        }
        let ghost mid = g;
        let ghost nv = vtx;
        g.insert_vertex(vtx);
        proof {
            assert(mid.initiators == g.initiators);
            assert forall|v: int| 0 <= v < g.vertices@.len() implies from_record(
                #[trigger] g.vertices@[v],
                doc.vertices@,
            ) by {
                if g.vertices@[v] == nv {
                    assert(doc.vertices@[i as int] == *rec);
                    assert(record_edges(*rec) == nv.edges());
                } else {
                    if mid.has(nv.fmri@) {
                        let p = choose|p: int| 0 <= p < mid.vertices@.len() && mid.vertices@[p].fmri@ == nv.fmri@
                            && g.vertices@ == mid.vertices@.update(p, nv);
                        assert(g.vertices@[v] == mid.vertices@[v]);
                    } else {
                        assert(g.vertices@[v] == mid.vertices@[v]);
                    }
                }
            }
            assert forall|f: Seq<char>| mid.has(f) implies #[trigger] g.has(f) by {
                let j = choose|j: int| 0 <= j < mid.vertices@.len() && mid.vertices@[j].fmri@ == f;
                if mid.has(nv.fmri@) {
                    let p = choose|p: int| 0 <= p < mid.vertices@.len() && mid.vertices@[p].fmri@ == nv.fmri@
                        && g.vertices@ == mid.vertices@.update(p, nv);
                    assert(g.vertices@[j].fmri@ == f);
                } else {
                    assert(g.vertices@[j].fmri@ == f);
                }
            }
            if mid.has(nv.fmri@) {
                let p = choose|p: int| 0 <= p < mid.vertices@.len() && mid.vertices@[p].fmri@ == nv.fmri@
                    && g.vertices@ == mid.vertices@.update(p, nv);
                assert(g.vertices@[p].fmri@ == nv.fmri@);
            } else {
                assert(g.vertices@[mid.vertices@.len() as int].fmri@ == nv.fmri@);
            }
            assert(g.has(nv.fmri@));
            let pre = doc.vertices@.subrange(0, i as int);
            let post = doc.vertices@.subrange(0, i + 1);
            assert(post.drop_last() =~= pre);
            assert(post.last() == *rec);
            assert forall|v: int| 0 <= v < g.vertices@.len() implies 0 <= last_record(post, (#[trigger] g.vertices@[v]).fmri@)
                && vertex_matches(g.vertices@[v], post[last_record(post, g.vertices@[v].fmri@)]) by {
                let f = g.vertices@[v].fmri@;
                if f == nv.fmri@ {
                    assert(last_record(post, f) == i);
                    if mid.has(nv.fmri@) {
                        let p = choose|p: int| 0 <= p < mid.vertices@.len() && mid.vertices@[p].fmri@ == nv.fmri@
                            && g.vertices@ == mid.vertices@.update(p, nv);
                        if v != p {
                            assert(g.vertices@[v] == mid.vertices@[v]);
                            assert(false);
                        }
                    } else {
                        if v < mid.vertices@.len() {
                            assert(g.vertices@[v] == mid.vertices@[v]);
                            assert(false);
                        }
                    }
                    assert(g.vertices@[v] == nv);
                } else {
                    assert(last_record(post, f) == last_record(pre, f));
                    let lr = last_record(pre, f);
                    if mid.has(nv.fmri@) {
                        let p = choose|p: int| 0 <= p < mid.vertices@.len() && mid.vertices@[p].fmri@ == nv.fmri@
                            && g.vertices@ == mid.vertices@.update(p, nv);
                        assert(v != p);
                        assert(g.vertices@[v] == mid.vertices@[v]);
                    } else {
                        assert(v < mid.vertices@.len());
                        assert(g.vertices@[v] == mid.vertices@[v]);
                    }
                    assert(vertex_matches(mid.vertices@[v], pre[lr]));
                    lemma_last_record_range(pre, f);
                    assert(pre[lr] == post[lr]);
                }
            }
            assert forall|k: int| 0 <= k < g.initiators@.len() implies g.has(#[trigger] g.initiators@[k]@) by {
                if k < old_g.initiators@.len() {
                    assert(g.initiators@[k] == old_g.initiators@[k]);
                    assert(mid.has(old_g.initiators@[k]@));
                } else {
                    assert(g.initiators@[k]@ == nv.fmri@);
                }
            }
            assert forall|v: int| 0 <= v < g.vertices@.len() implies bounded(#[trigger] g.vertices@[v].geometry) by {
                if mid.has(vtx.fmri@) {
                    let p = choose|p: int| 0 <= p < mid.vertices@.len() && mid.vertices@[p].fmri@ == vtx.fmri@
                        && g.vertices@ == mid.vertices@.update(p, vtx);
                    if v != p {
                        assert(g.vertices@[v] == mid.vertices@[v]);
                    }
                } else {
                    if v < mid.vertices@.len() {
                        assert(g.vertices@[v] == mid.vertices@[v]);
                    }
                }
            }
            assert forall|k: int| 0 <= k < i + 1 implies g.has(#[trigger] doc.vertices@[k].fmri@) by {
                if k < i {
                    let j = choose|j: int| 0 <= j < mid.vertices@.len() && mid.vertices@[j].fmri@ == doc.vertices@[k].fmri@;
                    if mid.has(rec.fmri@) {
                        let p = choose|p: int| 0 <= p < mid.vertices@.len() && mid.vertices@[p].fmri@ == rec.fmri@
                            && g.vertices@ == mid.vertices@.update(p, vtx);
                        assert(g.vertices@[j].fmri@ == doc.vertices@[k].fmri@);
                    } else {
                        assert(g.vertices@[j].fmri@ == doc.vertices@[k].fmri@);
                    }
                } else {
                    if mid.has(rec.fmri@) {
                        let p = choose|p: int| 0 <= p < mid.vertices@.len() && mid.vertices@[p].fmri@ == rec.fmri@
                            && g.vertices@ == mid.vertices@.update(p, vtx);
                        assert(g.vertices@[p].fmri@ == rec.fmri@);
                    } else {
                        assert(g.vertices@[mid.vertices@.len() as int].fmri@ == rec.fmri@);
                    }
                }
            }
        }
        i = i + 1;
    }
    proof {
        assert(doc.vertices@.subrange(0, doc.vertices@.len() as int) =~= doc.vertices@);
    }
    Ok(g)
}

} // verus!

verus! {

/// A well-formed group named `protocol` adds no property to its vertex,
/// whatever values it holds.
pub proof fn protocol_group_adds_nothing(g: GroupRecord)
    requires
        scan_group(g.nvpairs@) matches Some((n, _)) && n == PROTOCOL@,
    ensures
        group_props(g) == Some(Seq::<(Seq<char>, Seq<char>)>::empty()),
{
    reveal_strlit("protocol");
}

/// A group whose entries set no name (or an empty one) is malformed.
pub proof fn unnamed_group_is_malformed(g: GroupRecord)
    requires
        scan_group(g.nvpairs@) matches Some((n, _)) && n.len() == 0,
    ensures
        group_props(g) is None,
{
}

/// A vertex's properties hold those of each of its groups in turn, so a
/// group that adds none (the protocol group among them) leaves no trace.
pub proof fn group_props_concatenate(gs: Seq<GroupRecord>, g: GroupRecord)
    requires
        groups_props(gs) is Some,
        group_props(g) is Some,
    ensures
        groups_props(gs.push(g)) == Some(groups_props(gs)->Some_0 + group_props(g)->Some_0),
{
    assert(gs.push(g).drop_last() =~= gs);
}

} // verus!

verus! {

/// Both property lists, one after the other, where both exist.
pub open spec fn join_props(
    x: Option<Seq<(Seq<char>, Seq<char>)>>,
    y: Option<Seq<(Seq<char>, Seq<char>)>>,
) -> Option<Seq<(Seq<char>, Seq<char>)>> {
    match (x, y) {
        (Some(p), Some(q)) => Some(p + q),
        _ => None,
    }
}

proof fn lemma_groups_props_concat(a: Seq<GroupRecord>, b: Seq<GroupRecord>)
    ensures
        groups_props(a + b) == join_props(groups_props(a), groups_props(b)),
    decreases b.len(),
{
    if b.len() == 0 {
        assert(a + b =~= a);
        if let Some(p) = groups_props(a) {
            assert(p + Seq::<(Seq<char>, Seq<char>)>::empty() =~= p);
        }
    } else {
        assert((a + b).drop_last() =~= a + b.drop_last());
        lemma_groups_props_concat(a, b.drop_last());
        match (groups_props(a), groups_props(b.drop_last()), group_props(b.last())) {
            (Some(p), Some(q), Some(t)) => {
                assert(p + q + t =~= p + (q + t));
            },
            _ => {},
        }
    }
}

/// A vertex's properties are the same with or without a well-formed group
/// named `protocol` among its groups, wherever that group stands: no
/// property of such a group ever reaches the vertex.
pub proof fn protocol_group_leaves_vertex_properties(
    a: Seq<GroupRecord>,
    b: Seq<GroupRecord>,
    pg: GroupRecord,
)
    requires
        scan_group(pg.nvpairs@) matches Some((n, _)) && n == PROTOCOL@,
    ensures
        groups_props(a + seq![pg] + b) == groups_props(a + b),
{
    protocol_group_adds_nothing(pg);
    lemma_groups_props_concat(a, seq![pg]);
    lemma_groups_props_concat(a + seq![pg], b);
    lemma_groups_props_concat(a, b);
    assert(seq![pg] =~= Seq::<GroupRecord>::empty().push(pg));
    assert(Seq::<GroupRecord>::empty().push(pg).drop_last() =~= Seq::<GroupRecord>::empty());
    assert(seq![pg].drop_last() =~= Seq::<GroupRecord>::empty());
    assert(seq![pg].last() == pg);
    assert(groups_props(Seq::<GroupRecord>::empty()) == Some(Seq::<(Seq<char>, Seq<char>)>::empty()));
    assert(Seq::<(Seq<char>, Seq<char>)>::empty() + Seq::<(Seq<char>, Seq<char>)>::empty() =~= Seq::<(Seq<char>, Seq<char>)>::empty());
    assert(groups_props(seq![pg]) == Some(Seq::<(Seq<char>, Seq<char>)>::empty()));
    if let Some(p) = groups_props(a) {
        assert(p + Seq::<(Seq<char>, Seq<char>)>::empty() =~= p);
    }
}

/// A vertex record with a group that sets no name (or an empty one) does not
/// build: building it fails with `Format` where its instance parses.
pub proof fn unnamed_group_fails_vertex(rec: VertexRecord, i: int)
    requires
        0 <= i < rec.propgroups@.len(),
        scan_group(rec.propgroups@[i].nvpairs@) matches Some((n, _)) && n.len() == 0,
    ensures
        !record_ok(rec),
        groups_props(rec.propgroups@) is None,
{
    unnamed_group_is_malformed(rec.propgroups@[i]);
    lemma_groups_props_fails(rec.propgroups@, i);
}

} // verus!
