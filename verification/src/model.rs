//! The parsed data model: materials with typed attributes, and mesh files
//! made of objects, groups and index records.
//!
//! Numeric fields that the source writes as decimal floats are kept as
//! their validated tokens (byte strings); everything else is plain data.

use crate::assoc::assoc_map;
use crate::assoc::keys_unique;
use vstd::prelude::*;

verus! {

/// One material attribute: a signed integer, a float token, a colour of
/// three or four float tokens, or the raw text of an unrecognised key.
#[derive(Debug, Clone, PartialEq, Eq)]
pub enum MtlAttribute {
    Integer(i32),
    Float(Vec<u8>),
    Text(Vec<u8>),
    Color { red: Vec<u8>, green: Vec<u8>, blue: Vec<u8>, alpha: Vec<u8> },
}

pub ghost enum MtlAttributeView {
    Integer(int),
    Float(Seq<u8>),
    Text(Seq<u8>),
    Color { red: Seq<u8>, green: Seq<u8>, blue: Seq<u8>, alpha: Seq<u8> },
}

impl View for MtlAttribute {
    type V = MtlAttributeView;

    open spec fn view(&self) -> MtlAttributeView {
        match self {
            MtlAttribute::Integer(n) => MtlAttributeView::Integer(*n as int),
            MtlAttribute::Float(t) => MtlAttributeView::Float(t@),
            MtlAttribute::Text(t) => MtlAttributeView::Text(t@),
            MtlAttribute::Color { red, green, blue, alpha } => MtlAttributeView::Color {
                red: red@,
                green: green@,
                blue: blue@,
                alpha: alpha@,
            },
        }
    }
}

/// A material read from a material library file: a name and a key-unique
/// mapping of attributes.
#[derive(Debug, Clone, PartialEq, Eq)]
pub struct ObjMaterial {
    pub file_name: Vec<u8>,
    pub name: Vec<u8>,
    pub attributes: Vec<(Vec<u8>, MtlAttribute)>,
}

pub ghost struct MaterialView {
    pub file_name: Seq<u8>,
    pub name: Seq<u8>,
    pub attributes: Map<Seq<u8>, MtlAttributeView>,
}

impl View for ObjMaterial {
    type V = MaterialView;

    open spec fn view(&self) -> MaterialView {
        MaterialView {
            file_name: self.file_name@,
            name: self.name@,
            attributes: assoc_map(self.attributes@),
        }
    }
}

impl ObjMaterial {
    /// The attribute list carries each key at most once.
    pub open spec fn wf(&self) -> bool {
        keys_unique(self.attributes@)
    }
}

/// One corner of a face or line: 1-based indices into an object's data,
/// stored exactly as parsed.
#[derive(Debug, Clone, Copy, PartialEq, Eq, Structural)]
pub enum Index {
    Vertex { v: u32 },
    VertexNormal { v: u32, n: u32 },
    VertexTexture { v: u32, t: u32 },
    VertexTextureNormal { v: u32, t: u32, n: u32 },
}

/// A named run of primitives sharing one material and smoothing setting.
#[derive(Debug, Clone, PartialEq, Eq)]
pub struct ObjGroup {
    pub name: Vec<u8>,
    pub smoothing_group: u32,
    pub material: Vec<u8>,
    pub faces: Vec<Index>,
    pub lines: Vec<Index>,
    pub points: Vec<u32>,
}

pub ghost struct GroupView {
    pub name: Seq<u8>,
    pub smoothing_group: u32,
    pub material: Seq<u8>,
    pub faces: Seq<Index>,
    pub lines: Seq<Index>,
    pub points: Seq<u32>,
}

impl View for ObjGroup {
    type V = GroupView;

    open spec fn view(&self) -> GroupView {
        GroupView {
            name: self.name@,
            smoothing_group: self.smoothing_group,
            material: self.material@,
            faces: self.faces@,
            lines: self.lines@,
            points: self.points@,
        }
    }
}

/// One named sub-mesh: flat streams of float tokens, and its groups.
#[derive(Debug, Clone, PartialEq, Eq)]
pub struct ObjObject {
    pub name: Vec<u8>,
    pub vertices: Vec<Vec<u8>>,
    pub normals: Vec<Vec<u8>>,
    pub textures: Vec<Vec<u8>>,
    pub parameters: Vec<Vec<u8>>,
    pub groups: Vec<ObjGroup>,
}

pub ghost struct ObjectView {
    pub name: Seq<u8>,
    pub vertices: Seq<Seq<u8>>,
    pub normals: Seq<Seq<u8>>,
    pub textures: Seq<Seq<u8>>,
    pub parameters: Seq<Seq<u8>>,
    pub groups: Seq<GroupView>,
}

impl View for ObjObject {
    type V = ObjectView;

    open spec fn view(&self) -> ObjectView {
        ObjectView {
            name: self.name@,
            vertices: self.vertices@.map_values(|t: Vec<u8>| t@),
            normals: self.normals@.map_values(|t: Vec<u8>| t@),
            textures: self.textures@.map_values(|t: Vec<u8>| t@),
            parameters: self.parameters@.map_values(|t: Vec<u8>| t@),
            groups: self.groups@.map_values(|g: ObjGroup| g@),
        }
    }
}

/// A parsed geometry file: its path, its objects in source order, and the
/// materials its library references brought in, keyed by material name.
#[derive(Debug, Clone, PartialEq, Eq)]
pub struct ObjFile {
    pub file_name: Vec<u8>,
    pub objects: Vec<ObjObject>,
    pub materials: Vec<(Vec<u8>, ObjMaterial)>,
}

pub ghost struct FileView {
    pub file_name: Seq<u8>,
    pub objects: Seq<ObjectView>,
    pub materials: Map<Seq<u8>, MaterialView>,
}

impl View for ObjFile {
    type V = FileView;

    open spec fn view(&self) -> FileView {
        FileView {
            file_name: self.file_name@,
            objects: self.objects@.map_values(|o: ObjObject| o@),
            materials: assoc_map(self.materials@),
        }
    }
}

impl ObjFile {
    /// Material names are unique keys, and every material is well formed.
    pub open spec fn wf(&self) -> bool {
        &&& keys_unique(self.materials@)
        &&& forall|i: int| 0 <= i < self.materials@.len() ==> (#[trigger] self.materials@[i].1).wf()
    }
}

/// Why a parse stopped.
#[derive(Debug, Clone, Copy, PartialEq, Eq, Structural)]
pub enum ErrKind {
    BadFloat,
    BadInt,
    NoObject,
    NoGroup,
}

/// A structured parse error: the file, the 1-based line number, and the
/// reason.
#[derive(Debug, Clone, PartialEq, Eq)]
pub struct ObjError {
    pub file_name: Vec<u8>,
    pub line: usize,
    pub kind: ErrKind,
}

pub ghost struct ObjErrorView {
    pub file_name: Seq<u8>,
    pub line: int,
    pub kind: ErrKind,
}

impl View for ObjError {
    type V = ObjErrorView;

    open spec fn view(&self) -> ObjErrorView {
        ObjErrorView { file_name: self.file_name@, line: self.line as int, kind: self.kind }
    }
}

} // verus!
