//! Resolution of OBJ face records into triangles over the vertex records that
//! precede them.
use vstd::prelude::*;
use crate::obj::{Decimal, DecimalView, FaceVertex, ObjLine, ObjLineView};

verus! {

/// A vertex as the text writes it.
#[derive(Clone, Debug)]
pub struct ObjVertex {
    pub x: Decimal,
    pub y: Decimal,
    pub z: Decimal,
}

pub type VertexView = (DecimalView, DecimalView, DecimalView);

impl View for ObjVertex {
    type V = VertexView;

    open spec fn view(&self) -> VertexView {
        (self.x@, self.y@, self.z@)
    }
}

impl ObjVertex {
    /// A copy of this vertex.
    pub fn duplicate(&self) -> (r: ObjVertex)
        ensures
            r@ == self@,
    {
        ObjVertex { x: self.x.duplicate(), y: self.y.duplicate(), z: self.z.duplicate() }
    }
}

/// A triangle of three vertices, in the order the face names them.
#[derive(Clone, Debug)]
pub struct ObjTriangle {
    pub v0: ObjVertex,
    pub v1: ObjVertex,
    pub v2: ObjVertex,
}

pub type TriangleView = (VertexView, VertexView, VertexView);

impl View for ObjTriangle {
    type V = TriangleView;

    open spec fn view(&self) -> TriangleView {
        (self.v0@, self.v1@, self.v2@)
    }
}

/// The vertices read so far and the triangles emitted so far.
pub struct MeshView {
    pub vertices: Seq<VertexView>,
    pub triangles: Seq<TriangleView>,
}

/// The 1-based vertex index of a face corner.
pub open spec fn vertex_index(f: FaceVertex) -> int {
    match f {
        FaceVertex::Vertex(i) => i as int,
        FaceVertex::VertexTexture(i, _) => i as int,
        FaceVertex::VertexTextureNormal(i, _, _) => i as int,
        FaceVertex::VertexNormal(i, _) => i as int,
    }
}

/// The vertex that a face corner names among `vs`, if it names one.
pub open spec fn corner(vs: Seq<VertexView>, f: FaceVertex) -> Option<VertexView> {
    if 1 <= vertex_index(f) <= vs.len() {
        Some(vs[vertex_index(f) - 1])
    } else {
        None
    }
}

/// The mesh that the records `recs` describe: each vertex record appends a
/// vertex, each face record a triangle of vertices read before it; a face
/// that names a vertex not yet read leaves no mesh.
pub open spec fn mesh_of(recs: Seq<ObjLineView>) -> Option<MeshView>
    decreases recs.len(),
{
    if recs.len() == 0 {
        Some(MeshView { vertices: seq![], triangles: seq![] })
    } else {
        match mesh_of(recs.drop_last()) {
            None => None,
            Some(m) => match recs.last() {
                ObjLineView::Vertex(x, y, z) => Some(
                    MeshView { vertices: m.vertices.push((x, y, z)), triangles: m.triangles },
                ),
                ObjLineView::Face(a, b, c) => match (
                    corner(m.vertices, a),
                    corner(m.vertices, b),
                    corner(m.vertices, c),
                ) {
                    (Some(p), Some(q), Some(r)) => Some(
                        MeshView { vertices: m.vertices, triangles: m.triangles.push((p, q, r)) },
                    ),
                    _ => None,
                },
                _ => Some(m),
            },
        }
    }
}

pub open spec fn line_views(objs: Seq<ObjLine>) -> Seq<ObjLineView> {
    objs.map_values(|l: ObjLine| l@)
}

/// A face record that names a vertex not read before it: its position among the records.
#[derive(Clone, Copy, Debug, PartialEq, Eq, Structural)]
pub struct FaceError {
    pub record: usize,
}

/// The vertex index of a face corner.
pub fn get_index_from_face(f: FaceVertex) -> (r: i32)
    ensures
        r as int == vertex_index(f),
{
    match f {
        FaceVertex::Vertex(i) => i,
        FaceVertex::VertexNormal(i, _) => i,
        FaceVertex::VertexTexture(i, _) => i,
        FaceVertex::VertexTextureNormal(i, _, _) => i,
    }
}

/// Looks up the vertex that a face corner names.
fn corner_vertex(vs: &Vec<ObjVertex>, f: FaceVertex) -> (r: Option<ObjVertex>)
    ensures
        match r {
            Some(v) => corner(vs@.map_values(|w: ObjVertex| w@), f) == Some(v@),
            None => corner(vs@.map_values(|w: ObjVertex| w@), f) is None,
        },
{
    let i = get_index_from_face(f);
    if 1 <= i && (i as usize) <= vs.len() {
        Some(vs[(i - 1) as usize].duplicate())
    } else {
        None
    }
}

/// The triangles of the faces among `objs`, each made of the vertices that its
/// corners name by 1-based position among the vertex records before it.
pub fn obj_to_triangles(objs: &Vec<ObjLine>) -> (r: Result<Vec<ObjTriangle>, FaceError>)
    ensures
        match r {
            Ok(ts) => {
                &&& mesh_of(line_views(objs@)) is Some
                &&& mesh_of(line_views(objs@))->Some_0.triangles == ts@.map_values(
                    |t: ObjTriangle| t@,
                )
            },
            Err(e) => {
                &&& e.record < objs@.len()
                &&& mesh_of(line_views(objs@).take(e.record as int)) is Some
                &&& mesh_of(line_views(objs@).take(e.record as int + 1)) is None
            },
        },
{
    let mut vertices: Vec<ObjVertex> = Vec::new();
    let mut triangles: Vec<ObjTriangle> = Vec::new();
    let ghost views = line_views(objs@);
    let mut k: usize = 0;
    assert(views.take(0) =~= seq![]);
    assert(vertices@.map_values(|w: ObjVertex| w@) =~= seq![]);
    assert(triangles@.map_values(|t: ObjTriangle| t@) =~= seq![]);
    while k < objs.len()
        invariant
            k <= objs@.len(),
            views == line_views(objs@),
            mesh_of(views.take(k as int)) == Some(
                MeshView {
                    vertices: vertices@.map_values(|w: ObjVertex| w@),
                    triangles: triangles@.map_values(|t: ObjTriangle| t@),
                },
            ),
        decreases objs@.len() - k,
    {
        assert(views.take(k as int + 1).drop_last() =~= views.take(k as int));
        assert(views.take(k as int + 1).last() == objs@[k as int]@);
        match &objs[k] {
            ObjLine::Vertex(x, y, z) => {
                let v = ObjVertex { x: x.duplicate(), y: y.duplicate(), z: z.duplicate() };
                let ghost before = vertices@.map_values(|w: ObjVertex| w@);
                vertices.push(v);
                assert(vertices@.map_values(|w: ObjVertex| w@) =~= before.push(v@));
            },
            ObjLine::Face(a, b, c) => {
                let p = corner_vertex(&vertices, *a);
                let q = corner_vertex(&vertices, *b);
                let s = corner_vertex(&vertices, *c);
                match (p, q, s) {
                    (Some(p), Some(q), Some(s)) => {
                        let t = ObjTriangle { v0: p, v1: q, v2: s };
                        let ghost before = triangles@.map_values(|t: ObjTriangle| t@);
                        triangles.push(t);
                        assert(triangles@.map_values(|t: ObjTriangle| t@) =~= before.push(t@));
                    },
                    _ => {
                        return Err(FaceError { record: k });
                    },
                }
            },
            _ => {},
        }
        k = k + 1;
    }
    assert(views.take(objs@.len() as int) =~= views);
    Ok(triangles)
}

} // verus!
