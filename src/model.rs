use vstd::prelude::*;

verus! {

/// Where a vertex's box stands on the canvas, and its size.
#[derive(Debug, Clone, Copy, PartialEq, Eq, Structural)]
pub struct SasGeometry {
    pub x: u32,
    pub y: u32,
    pub width: u32,
    pub height: u32,
}

impl SasGeometry {
    pub fn new(x: u32, y: u32, width: u32, height: u32) -> (r: SasGeometry)
        ensures
            r == (SasGeometry { x, y, width, height }),
    {
        SasGeometry { x, y, width, height }
    }
}

/// A property shown for a vertex: a name and its value as text.
#[derive(Debug, Clone)]
pub struct SasDigraphProperty {
    pub name: String,
    pub value: String,
}

impl SasDigraphProperty {
    pub fn new(name: String, value: String) -> (r: SasDigraphProperty)
        ensures
            r.name == name,
            r.value == value,
    {
        SasDigraphProperty { name, value }
    }
}

/// A device of the fabric.
#[derive(Debug)]
pub struct SasDigraphVertex {
    /// The identifier, unique in the graph.
    pub fmri: String,
    /// The category: initiator, port, expander or target.
    pub name: String,
    pub instance: u64,
    pub properties: Vec<SasDigraphProperty>,
    pub geometry: SasGeometry,
    /// The identifiers of the vertices that this one has edges to.
    pub outgoing_edges: Option<Vec<String>>,
}

impl SasDigraphVertex {
    pub fn new(fmri: String, name: String, instance: u64, outgoing_edges: Option<Vec<String>>) -> (r:
        SasDigraphVertex)
        ensures
            r.fmri == fmri,
            r.name == name,
            r.instance == instance,
            r.outgoing_edges == outgoing_edges,
            r.properties@.len() == 0,
            r.geometry == (SasGeometry { x: 0, y: 0, width: 0, height: 0 }),
    {
        let properties = Vec::new();
        let geometry = SasGeometry::new(0, 0, 0, 0);
        SasDigraphVertex { fmri, name, instance, properties, geometry, outgoing_edges }
    }

    /// The identifiers of the edges' targets, in order; none where there are no edges.
    pub open spec fn edges(&self) -> Seq<String> {
        match self.outgoing_edges {
            Some(e) => e@,
            None => Seq::empty(),
        }
    }
}

/// The topology: host facts, the vertices and the initiators.
#[derive(Debug)]
pub struct SasDigraph {
    /// The machine's node name.
    pub nodename: String,
    pub os_version: String,
    /// When the snapshot was taken, in ISO-8601.
    pub timestamp: String,
    /// The vertices; no two share an identifier.
    pub vertices: Vec<SasDigraphVertex>,
    /// The identifiers of the initiator vertices, in the order first met.
    pub initiators: Vec<String>,
}

impl SasDigraph {
    pub fn new(nodename: String, os_version: String, timestamp: String) -> (r: SasDigraph)
        ensures
            r.nodename == nodename,
            r.os_version == os_version,
            r.timestamp == timestamp,
            r.vertices@.len() == 0,
            r.initiators@.len() == 0,
            r.wf(),
    {
        let vertices = Vec::new();
        let initiators = Vec::new();
        SasDigraph { nodename, os_version, timestamp, vertices, initiators }
    }

    /// The identifiers of the vertices are pairwise distinct.
    pub open spec fn wf(&self) -> bool {
        forall|i: int, j: int|
            0 <= i < j < self.vertices@.len() ==> #[trigger] self.vertices@[i].fmri@
                != #[trigger] self.vertices@[j].fmri@
    }

    /// Some vertex has identifier `f`.
    pub open spec fn has(&self, f: Seq<char>) -> bool {
        exists|i: int| 0 <= i < self.vertices@.len() && self.vertices@[i].fmri@ == f
    }

    /// Looks a vertex up by identifier.
    pub fn find(&self, fmri: &String) -> (r: Option<usize>)
        ensures
            r matches Some(i) ==> i < self.vertices@.len() && self.vertices@[i as int].fmri@
                == fmri@,
            r is None ==> !self.has(fmri@),
    {
        let mut i: usize = 0;
        while i < self.vertices.len()
            invariant
                i <= self.vertices@.len(),
                forall|k: int| 0 <= k < i ==> self.vertices@[k].fmri@ != fmri@,
            decreases self.vertices@.len() - i,
        {
            if self.vertices[i].fmri == *fmri {
                return Some(i);
            }
            i = i + 1;
        }
        None
    }

    /// Adds a vertex; one with the same identifier is replaced in place.
    pub fn insert_vertex(&mut self, v: SasDigraphVertex)
        requires
            old(self).wf(),
        ensures
            final(self).wf(),
            final(self).nodename == old(self).nodename,
            final(self).os_version == old(self).os_version,
            final(self).timestamp == old(self).timestamp,
            final(self).initiators == old(self).initiators,
            old(self).has(v.fmri@) ==> exists|i: int|
                0 <= i < old(self).vertices@.len() && old(self).vertices@[i].fmri@ == v.fmri@
                    && final(self).vertices@ == old(self).vertices@.update(i, v),
            !old(self).has(v.fmri@) ==> final(self).vertices@ == old(self).vertices@.push(v),
    {
        match self.find(&v.fmri) {
            Some(i) => {
                self.vertices.set(i, v);
            },
            None => {
                self.vertices.push(v);
            },
        }
    }
}

/// Options of a run: where the page goes and where the topology is read from.
#[derive(Debug)]
pub struct Config {
    pub html_path: String,
    pub xml_path: String,
}

impl Config {
    pub fn new(html_path: String, xml_path: String) -> (r: Config)
        ensures
            r.html_path == html_path,
            r.xml_path == xml_path,
    {
        Config { html_path, xml_path }
    }
}

} // verus!
