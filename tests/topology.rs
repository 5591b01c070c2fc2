use sastopo2svg::error::SasError;
use sastopo2svg::instance::parse_instance;
use sastopo2svg::model::{Config, SasDigraph, SasGeometry};
use sastopo2svg::pipeline::{build_and_render, lay_out, page_size};
use sastopo2svg::rank::{assign_ranks, visit_vertex};
use sastopo2svg::record::{
    build_digraph, build_vertex, extract_group, parse_prop, GroupEntry, GroupRecord, PropEntry,
    PropRecord, TopoDocument, VertexRecord,
};

fn s(x: &str) -> String {
    x.to_string()
}

fn vertex(fmri: &str, name: &str, instance: &str, edges: &[&str]) -> VertexRecord {
    VertexRecord {
        fmri: s(fmri),
        name: s(name),
        instance: s(instance),
        outgoing_edges: if edges.is_empty() {
            None
        } else {
            Some(edges.iter().map(|e| s(e)).collect())
        },
        propgroups: Vec::new(),
    }
}

fn doc(vertices: Vec<VertexRecord>) -> TopoDocument {
    TopoDocument {
        nodename: s("host"),
        os_version: s("5.11"),
        timestamp: s("2019-01-01T00:00:00Z"),
        vertices,
    }
}

fn scalar(name: &str, value: &str) -> PropEntry {
    PropEntry { name: Some(s(name)), value: Some(s(value)), elements: None }
}

fn prop(name: &str, value: &str) -> PropRecord {
    PropRecord { nvpairs: vec![scalar("property-name", name), scalar("property-value", value)] }
}

fn group(name: Option<&str>, props: Option<Vec<PropRecord>>) -> GroupRecord {
    let mut nvpairs = Vec::new();
    if let Some(n) = name {
        nvpairs.push(GroupEntry { name: Some(s("property-group-name")), value: Some(s(n)), props: None });
    }
    nvpairs.push(GroupEntry { name: Some(s("property-values")), value: None, props });
    GroupRecord { nvpairs }
}

fn index_of(g: &SasDigraph, fmri: &str) -> usize {
    g.vertices.iter().position(|v| v.fmri == fmri).unwrap()
}

#[test]
fn instance_hex_with_prefix() {
    assert_eq!(parse_instance("0x1a"), Ok(26));
    assert_eq!(parse_instance("0x0"), Ok(0));
    assert_eq!(parse_instance("0xFFFFFFFFFFFFFFFF"), Ok(u64::MAX));
}

#[test]
fn instance_rejects_bad_text() {
    assert_eq!(parse_instance("0xzz"), Err(SasError::Parse));
    assert_eq!(parse_instance("1a"), Err(SasError::Parse));
    assert_eq!(parse_instance("0x"), Err(SasError::Parse));
    assert_eq!(parse_instance("0x10000000000000000"), Err(SasError::Parse));
}

#[test]
fn array_value_flattens_with_commas() {
    let entry = PropEntry {
        name: Some(s("property-value")),
        value: None,
        elements: Some(vec![Some(s("a")), Some(s("b")), Some(s("c"))]),
    };
    let rec = PropRecord { nvpairs: vec![scalar("property-name", "ports"), entry] };
    let p = parse_prop(&rec).unwrap();
    assert_eq!(p.name, "ports");
    assert_eq!(p.value, "a,b,c");
}

#[test]
fn property_without_value_is_malformed() {
    let rec = PropRecord { nvpairs: vec![scalar("property-name", "x")] };
    assert!(matches!(parse_prop(&rec), Err(SasError::Format)));
}

#[test]
fn protocol_group_is_skipped() {
    let mut out = Vec::new();
    let g = group(Some("protocol"), Some(vec![prop("resource", "hc://x")]));
    assert_eq!(extract_group(&g, &mut out), Ok(()));
    assert!(out.is_empty());
    let g = group(Some("authority"), Some(vec![prop("product-id", "acme"), prop("serial", "42")]));
    assert_eq!(extract_group(&g, &mut out), Ok(()));
    assert_eq!(out.len(), 2);
    assert_eq!(out[0].name, "product-id");
    assert_eq!(out[1].value, "42");
}

#[test]
fn group_without_name_is_malformed() {
    let mut out = Vec::new();
    let g = group(None, Some(vec![prop("a", "b")]));
    assert_eq!(extract_group(&g, &mut out), Err(SasError::Format));
}

#[test]
fn group_without_values_is_skipped() {
    let mut out = Vec::new();
    let g = group(Some("authority"), None);
    assert_eq!(extract_group(&g, &mut out), Ok(()));
    assert!(out.is_empty());
}

#[test]
fn unknown_group_entry_is_malformed() {
    let mut out = Vec::new();
    let g = GroupRecord {
        nvpairs: vec![GroupEntry { name: Some(s("other")), value: Some(s("v")), props: None }],
    };
    assert_eq!(extract_group(&g, &mut out), Err(SasError::Format));
}

#[test]
fn vertex_properties_leave_out_protocol() {
    let mut rec = vertex("hc://i0", "initiator", "0x5", &[]);
    rec.propgroups = vec![
        group(Some("protocol"), Some(vec![prop("resource", "hc://i0")])),
        group(Some("authority"), Some(vec![prop("product-id", "acme")])),
    ];
    let v = build_vertex(&rec).unwrap();
    assert_eq!(v.instance, 5);
    assert_eq!(v.properties.len(), 1);
    assert_eq!(v.properties[0].name, "product-id");
    assert_eq!(v.geometry, SasGeometry::new(0, 0, 0, 0));
}

#[test]
fn bad_instance_fails_build() {
    let d = doc(vec![vertex("hc://i0", "initiator", "0xzz", &[])]);
    assert_eq!(build_digraph(&d).err(), Some(SasError::Parse));
}

#[test]
fn duplicate_identifier_replaces_vertex() {
    let d = doc(vec![vertex("hc://a", "port", "0x1", &[]), vertex("hc://a", "port", "0x2", &[])]);
    let g = build_digraph(&d).unwrap();
    assert_eq!(g.vertices.len(), 1);
    assert_eq!(g.vertices[0].instance, 2);
}

#[test]
fn single_vertex_graph() {
    let d = lay_out(&doc(vec![vertex("hc://i0", "initiator", "0x1", &[])])).unwrap();
    assert_eq!(d.max_rank, 1);
    assert_eq!(d.columns, vec![vec![0]]);
    assert_eq!(d.max_height, 1);
    let geo = d.digraph.vertices[0].geometry;
    assert_eq!((geo.x, geo.y, geo.width, geo.height), (850, 10, 180, 70));
    assert!(d.scene.connectors.is_empty());
}

#[test]
fn chain_of_three() {
    let d = lay_out(&doc(vec![
        vertex("hc://i", "initiator", "0x1", &["hc://p"]),
        vertex("hc://p", "port", "0x2", &["hc://e"]),
        vertex("hc://e", "expander", "0x3", &[]),
    ]))
    .unwrap();
    let g = &d.digraph;
    let (i, p, e) = (index_of(g, "hc://i"), index_of(g, "hc://p"), index_of(g, "hc://e"));
    assert_eq!(d.max_rank, 3);
    assert_eq!(d.columns, vec![vec![i], vec![p], vec![e]]);
    assert_eq!(d.scene.connectors.len(), 2);
    assert_eq!((d.scene.connectors[0].source, d.scene.connectors[0].target), (i, p));
    assert_eq!((d.scene.connectors[1].source, d.scene.connectors[1].target), (p, e));
    assert_eq!(g.vertices[p].geometry.x, 1100);
    assert_eq!(g.vertices[e].geometry.x, 1350);
    let c = d.scene.connectors[0];
    assert_eq!((c.stub.x1, c.stub.y1, c.stub.x2, c.stub.y2), (1030, 45, 1080, 45));
    assert_eq!((c.run.x1, c.run.y1, c.run.x2, c.run.y2), (1080, 45, 1080, 45));
    assert_eq!((c.entry.x1, c.entry.y1, c.entry.x2, c.entry.y2), (1080, 45, 1100, 45));
}

#[test]
fn fan_out_places_targets_in_one_column() {
    let d = lay_out(&doc(vec![
        vertex("hc://i", "initiator", "0x1", &["hc://pa", "hc://pb"]),
        vertex("hc://pa", "port", "0x2", &[]),
        vertex("hc://pb", "port", "0x3", &[]),
    ]))
    .unwrap();
    let g = &d.digraph;
    let (i, pa, pb) = (index_of(g, "hc://i"), index_of(g, "hc://pa"), index_of(g, "hc://pb"));
    assert_eq!(d.columns, vec![vec![i], vec![pa, pb]]);
    assert_eq!(d.max_height, 2);
    let (a, b) = (g.vertices[pa].geometry, g.vertices[pb].geometry);
    assert_eq!((a.x, a.y), (1100, 10));
    assert_eq!((b.x, b.y), (1100, 110));
    assert_eq!(d.scene.connectors.len(), 2);
    assert!(d.scene.connectors.iter().all(|c| c.source == i));
    assert_eq!(d.scene.connectors[0].target, pa);
    assert_eq!(d.scene.connectors[1].target, pb);
    assert_eq!(d.scene.connectors[1].run.y2, 145);
    assert_eq!((d.scene.width, d.scene.height), (200, 500));
}

#[test]
fn dangling_edge_is_lookup_error() {
    let r = lay_out(&doc(vec![vertex("hc://i", "initiator", "0x1", &["hc://missing"])]));
    assert_eq!(r.err().map(|e| e.message()), Some(SasError::Lookup.message()));
}

#[test]
fn cycle_is_reported() {
    let r = lay_out(&doc(vec![
        vertex("hc://i", "initiator", "0x1", &["hc://p"]),
        vertex("hc://p", "port", "0x2", &["hc://i"]),
    ]));
    assert!(matches!(r, Err(SasError::Cycle)));
}

#[test]
fn diamond_visits_shared_vertex_per_path() {
    let d = lay_out(&doc(vec![
        vertex("hc://i", "initiator", "0x1", &["hc://a", "hc://b"]),
        vertex("hc://a", "port", "0x2", &["hc://t"]),
        vertex("hc://b", "port", "0x3", &["hc://t"]),
        vertex("hc://t", "target", "0x4", &[]),
    ]))
    .unwrap();
    let t = index_of(&d.digraph, "hc://t");
    assert_eq!(d.columns[2], vec![t, t]);
    assert_eq!(d.scene.boxes.len(), 5);
}

#[test]
fn layout_repeats_identically() {
    let input = doc(vec![
        vertex("hc://i", "initiator", "0x1", &["hc://pa", "hc://pb"]),
        vertex("hc://pa", "port", "0x2", &["hc://e"]),
        vertex("hc://pb", "port", "0x3", &[]),
        vertex("hc://e", "expander", "0x4", &[]),
    ]);
    let first = lay_out(&input).unwrap();
    let second = lay_out(&input).unwrap();
    let a: Vec<SasGeometry> = first.digraph.vertices.iter().map(|v| v.geometry).collect();
    let b: Vec<SasGeometry> = second.digraph.vertices.iter().map(|v| v.geometry).collect();
    assert_eq!(a, b);
    assert_eq!(first.scene.boxes, second.scene.boxes);
    assert_eq!(first.scene.connectors, second.scene.connectors);
}

#[test]
fn render_writes_instance_in_hex_and_properties() {
    let mut rec = vertex("hc://i0", "initiator", "0x1a", &[]);
    rec.propgroups = vec![group(Some("authority"), Some(vec![prop("product-id", "acme")]))];
    let r = build_and_render(&doc(vec![rec]), "", "").unwrap();
    assert!(r.svg.contains(">1a<") || r.svg.contains("\n1a\n") || r.svg.contains(">1a\n"));
    assert!(r.svg.contains("fmri=\"hc://i0\""));
    assert!(r.svg.contains("product-id=\"acme\""));
    assert!(r.svg.contains("viewBox=\"0 0 100 250\""));
    assert_eq!((r.page_width, r.page_height), (2000, 1100));
}

#[test]
fn page_size_has_minimums() {
    assert_eq!(page_size(1, 1), (2000, 1100));
    assert_eq!(page_size(10, 20), (3500, 2100));
}

#[test]
fn config_keeps_paths() {
    let c = Config::new(s("out.html"), s("in.xml"));
    assert_eq!(c.html_path, "out.html");
    assert_eq!(c.xml_path, "in.xml");
}

#[test]
fn empty_topology_has_no_columns() {
    let d = lay_out(&doc(Vec::new())).unwrap();
    assert_eq!(d.max_rank, 0);
    assert!(d.columns.is_empty());
    assert!(d.scene.boxes.is_empty());
    assert_eq!((d.scene.width, d.scene.height), (0, 0));
}

#[test]
fn unreached_dangling_edge_is_lookup_error() {
    let r = lay_out(&doc(vec![
        vertex("hc://i", "initiator", "0x1", &[]),
        vertex("hc://orphan", "port", "0x2", &["hc://missing"]),
    ]));
    assert_eq!(r.err(), Some(SasError::Lookup));
}

#[test]
fn lost_initiator_is_lookup_error() {
    let mut g = SasDigraph::new(s("h"), s("v"), s("t"));
    g.initiators.push(s("hc://nowhere"));
    assert_eq!(assign_ranks(&g).err(), Some(SasError::Lookup));
}

#[test]
fn document_model_describes_the_drawing() {
    let mut rec = vertex("hc://i", "initiator", "0x1a", &["hc://pa"]);
    rec.propgroups = vec![group(Some("authority"), Some(vec![prop("product-id", "acme")]))];
    let r = build_and_render(
        &doc(vec![rec, vertex("hc://pa", "port", "0xff", &[])]),
        "js",
        "<table id=\"vertex-info\"></table>",
    )
    .unwrap();
    let d = &r.document;
    let root: Vec<(String, String)> = d.attrs.iter().map(|a| (a.name.clone(), a.value.clone())).collect();
    assert_eq!(root[2], (s("viewBox"), s("0 0 200 250")));
    assert_eq!(d.groups.len(), 2);
    let g0: Vec<(String, String)> = d.groups[0].attrs.iter().map(|a| (a.name.clone(), a.value.clone())).collect();
    assert_eq!(g0[0], (s("onclick"), s("showInfo(evt)")));
    assert_eq!(g0[1], (s("name"), s("initiator")));
    assert_eq!(g0[2], (s("fmri"), s("hc://i")));
    assert_eq!(g0[3], (s("product-id"), s("acme")));
    let shapes = &d.groups[0].shapes;
    assert_eq!(shapes[0].tag, "rect");
    assert_eq!(shapes[0].attrs[0].value, "850");
    assert_eq!(shapes[1].text, Some(s("initiator")));
    assert_eq!(shapes[1].attrs[1].value, "30");
    assert_eq!(shapes[2].text, Some(s("1a")));
    assert_eq!(shapes[2].attrs[1].value, "60");
    assert_eq!(d.groups[1].shapes[2].text, Some(s("ff")));
    assert_eq!(d.lines.len(), 3);
    assert_eq!(d.lines[0].tag, "line");
    assert_eq!(d.lines[0].attrs[0].value, "1030");
    assert_eq!(d.lines[2].attrs[2].value, "1100");
    assert!(r.svg.contains("<table id=\"vertex-info\"></table>"));
}

#[test]
fn malformed_group_fails_build() {
    let mut rec = vertex("hc://i0", "initiator", "0x1", &[]);
    rec.propgroups = vec![group(None, Some(vec![prop("a", "b")]))];
    assert_eq!(lay_out(&doc(vec![rec])).err(), Some(SasError::Format));
}

#[test]
fn initiators_fill_first_column_in_order() {
    let d = lay_out(&doc(vec![
        vertex("hc://i1", "initiator", "0x1", &["hc://t"]),
        vertex("hc://t", "target", "0x2", &[]),
        vertex("hc://i0", "initiator", "0x3", &[]),
    ]))
    .unwrap();
    let g = &d.digraph;
    assert_eq!(g.initiators, vec![s("hc://i1"), s("hc://i0")]);
    assert_eq!(d.columns[0], vec![index_of(g, "hc://i1"), index_of(g, "hc://i0")]);
    let second = g.vertices[index_of(g, "hc://i0")].geometry;
    assert_eq!((second.x, second.y), (850, 110));
}

#[test]
fn visit_records_one_entry_per_path() {
    let d = doc(vec![
        vertex("hc://i", "initiator", "0x1", &["hc://a", "hc://b"]),
        vertex("hc://a", "port", "0x2", &["hc://t"]),
        vertex("hc://b", "port", "0x3", &["hc://t"]),
        vertex("hc://t", "target", "0x4", &[]),
    ]);
    let g = build_digraph(&d).unwrap();
    let mut columns: Vec<Vec<usize>> = Vec::new();
    let m = visit_vertex(&g, index_of(&g, "hc://i"), &mut columns, 0).unwrap();
    assert_eq!(m, 3);
    let (i, a, b, t) =
        (index_of(&g, "hc://i"), index_of(&g, "hc://a"), index_of(&g, "hc://b"), index_of(&g, "hc://t"));
    assert_eq!(columns, vec![vec![i], vec![a, b], vec![t, t]]);
}

#[test]
fn later_record_wins() {
    let mut second = vertex("hc://a", "expander", "0x2", &[]);
    second.propgroups = vec![group(Some("authority"), Some(vec![prop("k", "v")]))];
    let g = build_digraph(&doc(vec![vertex("hc://a", "port", "0x1", &[]), second])).unwrap();
    assert_eq!(g.vertices.len(), 1);
    assert_eq!(g.vertices[0].name, "expander");
    assert_eq!(g.vertices[0].properties.len(), 1);
}
