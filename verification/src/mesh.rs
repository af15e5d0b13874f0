//! The mesh parser: turns the lines of a geometry file into one
//! [`ObjFile`].
//!
//! Each non-comment line is split into an opcode and a remainder and
//! dispatched; handlers work on the current object and group, the last
//! ones created.  Malformed numeric data under `v` `vn` `vp` `vt` or `s`,
//! and data arriving before any object or group exists, stop the parse
//! with a structured error naming the file, the 1-based line number and
//! the reason.  Face, line and point directives of an unsupported shape
//! are dropped silently, as are unrecognised opcodes.
//!
//! A `mtllib` reference is resolved against the geometry file's own
//! directory (the prefix through the last `/`); the caller hands in the
//! lines of each material library it could read, and references to any
//! other library are dropped silently.

use crate::assoc::assoc_set;
use crate::model::ErrKind;
use crate::model::FileView;
use crate::model::GroupView;
use crate::model::Index;
use crate::model::ObjError;
use crate::model::ObjErrorView;
use crate::model::ObjFile;
use crate::model::ObjGroup;
use crate::model::ObjObject;
use crate::model::ObjectView;
use crate::mtl::mtl_from_lines;
use crate::mtl::mtl_parse;
use crate::numbers::is_float_token;
use crate::numbers::is_float_bytes;
use crate::numbers::is_u32_token;
use crate::numbers::parse_u32;
use crate::numbers::u32_token_val;
use crate::text::ScanKind;
use crate::text::key_of;
use crate::text::pieces_view;
use crate::text::remove_comments;
use crate::text::rest_of;
use crate::text::split_at;
use crate::text::split_bytes;
use crate::text::split_key_rest;
use crate::text::split_ws_fields;
use crate::text::strip_comment;
use crate::text::ws_fields;
use crate::text::eq_bytes;
use vstd::prelude::*;
use vstd::slice::slice_index_get;
use vstd::slice::slice_to_vec;
use vstd::slice::slice_subrange;

verus! {

// --- opcodes ---------------------------------------------------------

pub open spec fn kw_usemtl() -> Seq<u8> {
    seq![117u8, 115u8, 101u8, 109u8, 116u8, 108u8]
}

pub open spec fn kw_mtllib() -> Seq<u8> {
    seq![109u8, 116u8, 108u8, 108u8, 105u8, 98u8]
}

/// The directives this format knows.
#[derive(Debug, Clone, Copy, PartialEq, Eq, Structural)]
pub enum MeshOp {
    V,
    Vn,
    Vp,
    Vt,
    G,
    Usemtl,
    F,
    L,
    P,
    O,
    S,
    Mtllib,
    Comment,
    Other,
}

/// Which directive an opcode token names; anything unrecognised is
/// `Other` and is ignored.
pub open spec fn mesh_op(k: Seq<u8>) -> MeshOp {
    if k == seq![118u8] {
        MeshOp::V
    } else if k == seq![118u8, 110u8] {
        MeshOp::Vn
    } else if k == seq![118u8, 112u8] {
        MeshOp::Vp
    } else if k == seq![118u8, 116u8] {
        MeshOp::Vt
    } else if k == seq![103u8] {
        MeshOp::G
    } else if k == kw_usemtl() {
        MeshOp::Usemtl
    } else if k == seq![102u8] {
        MeshOp::F
    } else if k == seq![108u8] {
        MeshOp::L
    } else if k == seq![112u8] {
        MeshOp::P
    } else if k == seq![111u8] {
        MeshOp::O
    } else if k == seq![115u8] {
        MeshOp::S
    } else if k == kw_mtllib() {
        MeshOp::Mtllib
    } else if k == seq![35u8] {
        MeshOp::Comment
    } else {
        MeshOp::Other
    }
}

fn classify_mesh_op(key: &[u8]) -> (c: MeshOp)
    ensures
        c == mesh_op(key@),
{
    let n = key.len();
    if n == 1 {
        let b0 = *slice_index_get(key, 0);
        let c = if b0 == 118 {
            MeshOp::V
        } else if b0 == 103 {
            MeshOp::G
        } else if b0 == 102 {
            MeshOp::F
        } else if b0 == 108 {
            MeshOp::L
        } else if b0 == 112 {
            MeshOp::P
        } else if b0 == 111 {
            MeshOp::O
        } else if b0 == 115 {
            MeshOp::S
        } else if b0 == 35 {
            MeshOp::Comment
        } else {
            MeshOp::Other
        };
        proof {
            if b0 == 118 {
                assert(key@ =~= seq![118u8]);
            } else if b0 == 103 {
                assert(key@ =~= seq![103u8]);
            } else if b0 == 102 {
                assert(key@ =~= seq![102u8]);
            } else if b0 == 108 {
                assert(key@ =~= seq![108u8]);
            } else if b0 == 112 {
                assert(key@ =~= seq![112u8]);
            } else if b0 == 111 {
                assert(key@ =~= seq![111u8]);
            } else if b0 == 115 {
                assert(key@ =~= seq![115u8]);
            } else if b0 == 35 {
                assert(key@ =~= seq![35u8]);
            }
        }
        c
    } else if n == 2 {
        let b0 = *slice_index_get(key, 0);
        let b1 = *slice_index_get(key, 1);
        if b0 == 118 && b1 == 110 {
            proof {
                assert(key@ =~= seq![118u8, 110u8]);
            }
            MeshOp::Vn
        } else if b0 == 118 && b1 == 112 {
            proof {
                assert(key@ =~= seq![118u8, 112u8]);
            }
            MeshOp::Vp
        } else if b0 == 118 && b1 == 116 {
            proof {
                assert(key@ =~= seq![118u8, 116u8]);
            }
            MeshOp::Vt
        } else {
            MeshOp::Other
        }
    } else if n == 6 {
        let b0 = *slice_index_get(key, 0);
        let b1 = *slice_index_get(key, 1);
        let b2 = *slice_index_get(key, 2);
        let b3 = *slice_index_get(key, 3);
        let b4 = *slice_index_get(key, 4);
        let b5 = *slice_index_get(key, 5);
        if b0 == 117 && b1 == 115 && b2 == 101 && b3 == 109 && b4 == 116 && b5 == 108 {
            proof {
                assert(key@ =~= kw_usemtl());
            }
            MeshOp::Usemtl
        } else if b0 == 109 && b1 == 116 && b2 == 108 && b3 == 108 && b4 == 105 && b5 == 98 {
            proof {
                assert(key@ =~= kw_mtllib());
            }
            MeshOp::Mtllib
        } else {
            MeshOp::Other
        }
    } else {
        MeshOp::Other
    }
}

// --- the current object and group ------------------------------------

pub open spec fn has_object(st: FileView) -> bool {
    st.objects.len() > 0
}

pub open spec fn cur_object(st: FileView) -> ObjectView {
    st.objects.last()
}

pub open spec fn with_cur_object(st: FileView, o: ObjectView) -> FileView {
    FileView { objects: st.objects.update(st.objects.len() - 1, o), ..st }
}

pub open spec fn has_group(st: FileView) -> bool {
    has_object(st) && cur_object(st).groups.len() > 0
}

pub open spec fn cur_group(st: FileView) -> GroupView {
    cur_object(st).groups.last()
}

pub open spec fn with_cur_group(st: FileView, g: GroupView) -> FileView {
    with_cur_object(
        st,
        ObjectView {
            groups: cur_object(st).groups.update(cur_object(st).groups.len() - 1, g),
            ..cur_object(st)
        },
    )
}

/// The four flat streams a vertex-data directive can append to.
#[derive(Debug, Clone, Copy, PartialEq, Eq, Structural)]
pub enum VertKind {
    Pos,
    Norm,
    Tex,
    Param,
}

pub open spec fn vert_get(o: ObjectView, k: VertKind) -> Seq<Seq<u8>> {
    match k {
        VertKind::Pos => o.vertices,
        VertKind::Norm => o.normals,
        VertKind::Tex => o.textures,
        VertKind::Param => o.parameters,
    }
}

pub open spec fn vert_set(o: ObjectView, k: VertKind, s: Seq<Seq<u8>>) -> ObjectView {
    match k {
        VertKind::Pos => ObjectView { vertices: s, ..o },
        VertKind::Norm => ObjectView { normals: s, ..o },
        VertKind::Tex => ObjectView { textures: s, ..o },
        VertKind::Param => ObjectView { parameters: s, ..o },
    }
}

// --- mutation helpers -------------------------------------------------

/// One change to the current group.
pub enum GroupAct {
    PushFace(Index),
    PushLine(Index),
    PushPoint(u32),
    SetMaterial(Vec<u8>),
    SetSmoothing(u32),
}

pub open spec fn group_apply(g: GroupView, a: GroupAct) -> GroupView {
    match a {
        GroupAct::PushFace(ix) => GroupView { faces: g.faces.push(ix), ..g },
        GroupAct::PushLine(ix) => GroupView { lines: g.lines.push(ix), ..g },
        GroupAct::PushPoint(p) => GroupView { points: g.points.push(p), ..g },
        GroupAct::SetMaterial(m) => GroupView { material: m@, ..g },
        GroupAct::SetSmoothing(s) => GroupView { smoothing_group: s, ..g },
    }
}

fn apply_cur_group(f: &mut ObjFile, a: GroupAct)
    requires
        old(f).wf(),
        has_group(old(f)@),
    ensures
        final(f).wf(),
        final(f)@ == with_cur_group(old(f)@, group_apply(cur_group(old(f)@), a)),
{
    let ghost st0 = f@;
    let ghost act = a;
    let mut ob = f.objects.pop().unwrap();
    let ghost ob0 = ob@;
    let mut g = ob.groups.pop().unwrap();
    match a {
        GroupAct::PushFace(ix) => g.faces.push(ix),
        GroupAct::PushLine(ix) => g.lines.push(ix),
        GroupAct::PushPoint(p) => g.points.push(p),
        GroupAct::SetMaterial(m) => {
            g.material = m;
        },
        GroupAct::SetSmoothing(s) => {
            g.smoothing_group = s;
        },
    }
    let ghost gv = g@;
    ob.groups.push(g);
    f.objects.push(ob);
    proof {
        assert(gv == group_apply(cur_group(st0), act));
        assert(ob@.groups =~= ob0.groups.update(ob0.groups.len() - 1, gv));
        assert(ob@ == ObjectView { groups: ob0.groups.update(ob0.groups.len() - 1, gv), ..ob0 });
        assert(f@.objects =~= st0.objects.update(st0.objects.len() - 1, ob@));
        assert(f@ == with_cur_group(st0, group_apply(cur_group(st0), act)));
    }
}

/// One change to the current object.
pub enum ObjectAct {
    AppendData(VertKind, Vec<Vec<u8>>),
    PushGroup(ObjGroup),
}

pub open spec fn object_apply(o: ObjectView, a: ObjectAct) -> ObjectView {
    match a {
        ObjectAct::AppendData(k, toks) => vert_set(o, k, vert_get(o, k) + pieces_view(toks@)),
        ObjectAct::PushGroup(g) => ObjectView { groups: o.groups.push(g@), ..o },
    }
}

fn apply_cur_object(f: &mut ObjFile, a: ObjectAct)
    requires
        old(f).wf(),
        has_object(old(f)@),
    ensures
        final(f).wf(),
        final(f)@ == with_cur_object(old(f)@, object_apply(cur_object(old(f)@), a)),
{
    let ghost st0 = f@;
    let ghost act = a;
    let mut ob = f.objects.pop().unwrap();
    let ghost ob0 = ob@;
    match a {
        ObjectAct::AppendData(k, toks) => {
            let mut toks = toks;
            let ghost tv = pieces_view(toks@);
            match k {
                VertKind::Pos => ob.vertices.append(&mut toks),
                VertKind::Norm => ob.normals.append(&mut toks),
                VertKind::Tex => ob.textures.append(&mut toks),
                VertKind::Param => ob.parameters.append(&mut toks),
            }
            proof {
                match k {
                    VertKind::Pos => {
                        assert(pieces_view(ob.vertices@) =~= ob0.vertices + tv);
                    },
                    VertKind::Norm => {
                        assert(pieces_view(ob.normals@) =~= ob0.normals + tv);
                    },
                    VertKind::Tex => {
                        assert(pieces_view(ob.textures@) =~= ob0.textures + tv);
                    },
                    VertKind::Param => {
                        assert(pieces_view(ob.parameters@) =~= ob0.parameters + tv);
                    },
                }
                assert(ob@ == object_apply(ob0, act));
            }
        },
        ObjectAct::PushGroup(g) => {
            let ghost gv = g@;
            ob.groups.push(g);
            proof {
                assert(ob@.groups =~= ob0.groups.push(gv));
                assert(ob@ == object_apply(ob0, act));
            }
        },
    }
    f.objects.push(ob);
    proof {
        assert(f@.objects =~= st0.objects.update(st0.objects.len() - 1, ob@));
        assert(f@ == with_cur_object(st0, object_apply(cur_object(st0), act)));
    }
}

// --- handler specifications ------------------------------------------

/// What a vertex-data line does: every whitespace field must be a float
/// token, and the fields are appended in order to the current object's
/// stream; a malformed field stops the parse, and a field arriving with
/// no object to hold it does too.
pub open spec fn read_vertex_spec(st: FileView, r: Seq<u8>, k: VertKind) -> Result<
    FileView,
    ErrKind,
> {
    let toks = ws_fields(r);
    if toks.len() == 0 {
        Ok(st)
    } else if !is_float_token(toks[0]) {
        Err(ErrKind::BadFloat)
    } else if !has_object(st) {
        Err(ErrKind::NoObject)
    } else if exists|i: int| 0 <= i < toks.len() && !is_float_token(toks[i]) {
        Err(ErrKind::BadFloat)
    } else {
        Ok(with_cur_object(st, vert_set(cur_object(st), k, vert_get(cur_object(st), k) + toks)))
    }
}

/// A fresh group: named, with smoothing 0, no material and no primitives.
pub open spec fn new_group(name: Seq<u8>) -> GroupView {
    GroupView {
        name: name,
        smoothing_group: 0,
        material: Seq::empty(),
        faces: Seq::empty(),
        lines: Seq::empty(),
        points: Seq::empty(),
    }
}

/// A `g` line appends a fresh group to the current object; repeated names
/// are not merged.
pub open spec fn read_group_spec(st: FileView, r: Seq<u8>) -> Result<FileView, ErrKind> {
    if !has_object(st) {
        Err(ErrKind::NoObject)
    } else {
        Ok(
            with_cur_object(
                st,
                ObjectView { groups: cur_object(st).groups.push(new_group(r)), ..cur_object(st) },
            ),
        )
    }
}

/// A `usemtl` line sets the current group's material name verbatim.
pub open spec fn read_usemtl_spec(st: FileView, r: Seq<u8>) -> Result<FileView, ErrKind> {
    if !has_object(st) {
        Err(ErrKind::NoObject)
    } else if !has_group(st) {
        Err(ErrKind::NoGroup)
    } else {
        Ok(with_cur_group(st, GroupView { material: r, ..cur_group(st) }))
    }
}

/// An `s` line sets the current group's smoothing id; a malformed integer
/// stops the parse.
pub open spec fn read_smoothing_spec(st: FileView, r: Seq<u8>) -> Result<FileView, ErrKind> {
    if !is_u32_token(r) {
        Err(ErrKind::BadInt)
    } else if !has_object(st) {
        Err(ErrKind::NoObject)
    } else if !has_group(st) {
        Err(ErrKind::NoGroup)
    } else {
        Ok(
            with_cur_group(
                st,
                GroupView { smoothing_group: u32_token_val(r) as u32, ..cur_group(st) },
            ),
        )
    }
}

/// A fresh object: named, with empty streams and no groups.
pub open spec fn new_object(name: Seq<u8>) -> ObjectView {
    ObjectView {
        name: name,
        vertices: Seq::empty(),
        normals: Seq::empty(),
        textures: Seq::empty(),
        parameters: Seq::empty(),
        groups: Seq::empty(),
    }
}

/// An `o` line appends a fresh object, which becomes current.
pub open spec fn read_object_spec(st: FileView, r: Seq<u8>) -> Result<FileView, ErrKind> {
    Ok(FileView { objects: st.objects.push(new_object(r)), ..st })
}

/// The index record one face corner yields, decided by which of its
/// slash-separated segments read as unsigned integers; `None` when the
/// shape matches no known form.
pub open spec fn corner_of(c: Seq<u8>) -> Option<Index> {
    let segs = split_at(ScanKind::Slash, c);
    if segs.len() == 1 && is_u32_token(segs[0]) {
        Some(Index::Vertex { v: u32_token_val(segs[0]) as u32 })
    } else if segs.len() == 2 && is_u32_token(segs[0]) && is_u32_token(segs[1]) {
        Some(
            Index::VertexTexture {
                v: u32_token_val(segs[0]) as u32,
                t: u32_token_val(segs[1]) as u32,
            },
        )
    } else if segs.len() == 3 && is_u32_token(segs[0]) && !is_u32_token(segs[1]) && is_u32_token(
        segs[2],
    ) {
        Some(
            Index::VertexNormal {
                v: u32_token_val(segs[0]) as u32,
                n: u32_token_val(segs[2]) as u32,
            },
        )
    } else if segs.len() == 3 && is_u32_token(segs[0]) && is_u32_token(segs[1]) && is_u32_token(
        segs[2],
    ) {
        Some(
            Index::VertexTextureNormal {
                v: u32_token_val(segs[0]) as u32,
                t: u32_token_val(segs[1]) as u32,
                n: u32_token_val(segs[2]) as u32,
            },
        )
    } else {
        None
    }
}

/// The corners from `i` on, classified and appended one by one: an
/// unclassifiable corner ends the line silently, keeping what earlier
/// corners already appended.
pub open spec fn face_corners(st: FileView, cs: Seq<Seq<u8>>, i: int) -> Result<FileView, ErrKind>
    decreases cs.len() - i,
{
    if i < 0 || i >= cs.len() {
        Ok(st)
    } else {
        match corner_of(cs[i]) {
            None => Ok(st),
            Some(ix) => if !has_object(st) {
                Err(ErrKind::NoObject)
            } else if !has_group(st) {
                Err(ErrKind::NoGroup)
            } else {
                face_corners(
                    with_cur_group(st, GroupView { faces: cur_group(st).faces.push(ix), ..cur_group(st) }),
                    cs,
                    i + 1,
                )
            },
        }
    }
}

/// An `f` line: exactly three whitespace-separated corners are required
/// (single whitespace bytes separate, so a doubled space makes an empty
/// corner); any other count is dropped silently.
pub open spec fn read_face_spec(st: FileView, r: Seq<u8>) -> Result<FileView, ErrKind> {
    let cs = split_at(ScanKind::Ws, r);
    if cs.len() != 3 {
        Ok(st)
    } else {
        face_corners(st, cs, 0)
    }
}

/// An `l` line, split on `/` alone: one integer segment appends a vertex
/// index to the current group's line list; two integer segments append a
/// vertex-texture record to its face list, a long-standing quirk kept
/// deliberately; anything else is dropped silently.
pub open spec fn read_line_spec(st: FileView, r: Seq<u8>) -> Result<FileView, ErrKind> {
    let segs = split_at(ScanKind::Slash, r);
    if segs.len() == 1 && is_u32_token(segs[0]) {
        if !has_object(st) {
            Err(ErrKind::NoObject)
        } else if !has_group(st) {
            Err(ErrKind::NoGroup)
        } else {
            Ok(
                with_cur_group(
                    st,
                    GroupView {
                        lines: cur_group(st).lines.push(
                            Index::Vertex { v: u32_token_val(segs[0]) as u32 },
                        ),
                        ..cur_group(st)
                    },
                ),
            )
        }
    } else if segs.len() == 2 && is_u32_token(segs[0]) && is_u32_token(segs[1]) {
        if !has_object(st) {
            Err(ErrKind::NoObject)
        } else if !has_group(st) {
            Err(ErrKind::NoGroup)
        } else {
            Ok(
                with_cur_group(
                    st,
                    GroupView {
                        faces: cur_group(st).faces.push(
                            Index::VertexTexture {
                                v: u32_token_val(segs[0]) as u32,
                                t: u32_token_val(segs[1]) as u32,
                            },
                        ),
                        ..cur_group(st)
                    },
                ),
            )
        }
    } else {
        Ok(st)
    }
}

/// A `p` line: exactly one whitespace field that reads as an unsigned
/// integer appends a point index; anything else is dropped silently.
pub open spec fn read_point_spec(st: FileView, r: Seq<u8>) -> Result<FileView, ErrKind> {
    let ps = split_at(ScanKind::Ws, r);
    if ps.len() == 1 && is_u32_token(ps[0]) {
        if !has_object(st) {
            Err(ErrKind::NoObject)
        } else if !has_group(st) {
            Err(ErrKind::NoGroup)
        } else {
            Ok(
                with_cur_group(
                    st,
                    GroupView {
                        points: cur_group(st).points.push(u32_token_val(ps[0]) as u32),
                        ..cur_group(st)
                    },
                ),
            )
        }
    } else {
        Ok(st)
    }
}

// --- material library references --------------------------------------

/// Length of the prefix of `s` through its last `/`, or 0 when `s` has
/// none.
pub open spec fn slash_prefix_len(s: Seq<u8>) -> nat
    decreases s.len(),
{
    if s.len() == 0 {
        0
    } else if s.last() == 47 {
        s.len()
    } else {
        slash_prefix_len(s.drop_last())
    }
}

pub proof fn lemma_slash_prefix_is(s: Seq<u8>, m: int)
    requires
        0 <= m <= s.len(),
        m > 0 ==> s[m - 1] == 47,
        forall|i: int| m <= i < s.len() ==> s[i] != 47,
    ensures
        slash_prefix_len(s) == m,
    decreases s.len(),
{
    if s.len() == 0 {
    } else if s.last() == 47 {
        assert(m == s.len());
    } else {
        let d = s.drop_last();
        assert forall|i: int| m <= i < d.len() implies d[i] != 47 by {
            assert(d[i] == s[i]);
        }
        if m > 0 {
            assert(d[m - 1] == s[m - 1]);
        }
        lemma_slash_prefix_is(d, m);
    }
}

/// The path a library reference resolves to: the geometry file's prefix
/// through its last `/`, then the reference.
pub open spec fn mtl_target(file: Seq<u8>, lib: Seq<u8>) -> Seq<u8> {
    file.take(slash_prefix_len(file) as int) + lib
}

/// A geometry file named `""` or `"/"` has no parent directory to
/// resolve against, and its library references are dropped.
pub open spec fn mtllib_skips(file: Seq<u8>) -> bool {
    file.len() == 0 || file == seq![47u8]
}

/// The lines handed in for a resolved library path: the first entry with
/// that path, when there is one.
pub open spec fn libs_find(libs: Seq<(Vec<u8>, Vec<Vec<u8>>)>, k: Seq<u8>) -> Option<Seq<Seq<u8>>>
    decreases libs.len(),
{
    if libs.len() == 0 {
        None
    } else if libs[0].0@ == k {
        Some(pieces_view(libs[0].1@))
    } else {
        libs_find(libs.drop_first(), k)
    }
}

pub proof fn lemma_libs_find_skip(libs: Seq<(Vec<u8>, Vec<Vec<u8>>)>, k: Seq<u8>, i: int)
    requires
        0 <= i <= libs.len(),
        forall|j: int| 0 <= j < i ==> libs[j].0@ != k,
    ensures
        libs_find(libs, k) == libs_find(libs.skip(i), k),
    decreases i,
{
    if i > 0 {
        let d = libs.drop_first();
        assert forall|j: int| 0 <= j < i - 1 implies d[j].0@ != k by {
            assert(d[j] == libs[j + 1]);
        }
        lemma_libs_find_skip(d, k, i - 1);
        assert(d.skip(i - 1) =~= libs.skip(i));
    } else {
        assert(libs.skip(0) =~= libs);
    }
}

/// A `mtllib` line: the reference is resolved against the file's
/// directory; when the caller handed in that library's lines, the
/// material they write down is recorded under its parsed name,
/// overwriting any earlier material of that name; otherwise nothing
/// happens.
pub open spec fn read_mtllib_spec(
    st: FileView,
    r: Seq<u8>,
    libs: Seq<(Vec<u8>, Vec<Vec<u8>>)>,
) -> Result<FileView, ErrKind> {
    if mtllib_skips(st.file_name) {
        Ok(st)
    } else {
        let p = mtl_target(st.file_name, r);
        match libs_find(libs, p) {
            None => Ok(st),
            Some(ls) => Ok(
                FileView {
                    materials: st.materials.insert(mtl_parse(p, ls).name, mtl_parse(p, ls)),
                    ..st
                },
            ),
        }
    }
}

// --- exec handlers ----------------------------------------------------

/// Whether the current group exists; `Err` names what is missing.
fn require_group(f: &ObjFile) -> (r: Result<(), ErrKind>)
    ensures
        r == (if !has_object(f@) {
            Result::<(), ErrKind>::Err(ErrKind::NoObject)
        } else if !has_group(f@) {
            Result::<(), ErrKind>::Err(ErrKind::NoGroup)
        } else {
            Result::<(), ErrKind>::Ok(())
        }),
{
    let n = f.objects.len();
    if n == 0 {
        return Err(ErrKind::NoObject);
    }
    proof {
        assert(cur_object(f@) == f.objects@[n - 1]@);
    }
    if f.objects[n - 1].groups.len() == 0 {
        return Err(ErrKind::NoGroup);
    }
    Ok(())
}

fn read_vertex(f: &mut ObjFile, r: &[u8], k: VertKind) -> (res: Result<(), ErrKind>)
    requires
        old(f).wf(),
    ensures
        final(f).wf(),
        (match res {
            Result::Ok(()) => read_vertex_spec(old(f)@, r@, k) == Result::<FileView, ErrKind>::Ok(
                final(f)@,
            ),
            Result::Err(e) => read_vertex_spec(old(f)@, r@, k) == Result::<FileView, ErrKind>::Err(
                e,
            ),
        }),
{
    let toks = split_ws_fields(r);
    let ghost tv = pieces_view(toks@);
    if toks.len() == 0 {
        return Ok(());
    }
    proof {
        assert(tv[0] == toks@[0]@);
    }
    if !is_float_bytes(toks[0].as_slice()) {
        return Err(ErrKind::BadFloat);
    }
    if f.objects.len() == 0 {
        return Err(ErrKind::NoObject);
    }
    let mut i: usize = 1;
    while i < toks.len()
        invariant
            1 <= i <= toks@.len(),
            tv == pieces_view(toks@),
            tv == ws_fields(r@),
            forall|j: int| 0 <= j < i ==> is_float_token(tv[j]),
            f@ == old(f)@,
            f.wf(),
            has_object(f@),
        decreases toks@.len() - i,
    {
        proof {
            assert(tv[i as int] == toks@[i as int]@);
        }
        if !is_float_bytes(toks[i].as_slice()) {
            return Err(ErrKind::BadFloat);
        }
        i = i + 1;
    }
    apply_cur_object(f, ObjectAct::AppendData(k, toks));
    Ok(())
}

fn read_group(f: &mut ObjFile, name: Vec<u8>) -> (res: Result<(), ErrKind>)
    requires
        old(f).wf(),
    ensures
        final(f).wf(),
        (match res {
            Result::Ok(()) => read_group_spec(old(f)@, name@) == Result::<FileView, ErrKind>::Ok(
                final(f)@,
            ),
            Result::Err(e) => read_group_spec(old(f)@, name@) == Result::<FileView, ErrKind>::Err(
                e,
            ),
        }),
{
    if f.objects.len() == 0 {
        return Err(ErrKind::NoObject);
    }
    let ghost nv = name@;
    let g = ObjGroup {
        name,
        smoothing_group: 0,
        material: Vec::new(),
        faces: Vec::new(),
        lines: Vec::new(),
        points: Vec::new(),
    };
    proof {
        assert(g@.material =~= new_group(nv).material);
        assert(g@.faces =~= new_group(nv).faces);
        assert(g@.lines =~= new_group(nv).lines);
        assert(g@.points =~= new_group(nv).points);
        assert(g@ == new_group(nv));
    }
    apply_cur_object(f, ObjectAct::PushGroup(g));
    Ok(())
}

fn read_usemtl(f: &mut ObjFile, material: Vec<u8>) -> (res: Result<(), ErrKind>)
    requires
        old(f).wf(),
    ensures
        final(f).wf(),
        (match res {
            Result::Ok(()) => read_usemtl_spec(old(f)@, material@) == Result::<
                FileView,
                ErrKind,
            >::Ok(final(f)@),
            Result::Err(e) => read_usemtl_spec(old(f)@, material@) == Result::<
                FileView,
                ErrKind,
            >::Err(e),
        }),
{
    match require_group(f) {
        Err(e) => Err(e),
        Ok(()) => {
            apply_cur_group(f, GroupAct::SetMaterial(material));
            Ok(())
        },
    }
}

fn read_smoothing_group(f: &mut ObjFile, r: &[u8]) -> (res: Result<(), ErrKind>)
    requires
        old(f).wf(),
    ensures
        final(f).wf(),
        (match res {
            Result::Ok(()) => read_smoothing_spec(old(f)@, r@) == Result::<FileView, ErrKind>::Ok(
                final(f)@,
            ),
            Result::Err(e) => read_smoothing_spec(old(f)@, r@) == Result::<FileView, ErrKind>::Err(
                e,
            ),
        }),
{
    match parse_u32(r) {
        None => Err(ErrKind::BadInt),
        Some(v) => match require_group(f) {
            Err(e) => Err(e),
            Ok(()) => {
                apply_cur_group(f, GroupAct::SetSmoothing(v));
                Ok(())
            },
        },
    }
}

fn read_object(f: &mut ObjFile, name: Vec<u8>) -> (res: Result<(), ErrKind>)
    requires
        old(f).wf(),
    ensures
        final(f).wf(),
        res == Result::<(), ErrKind>::Ok(()),
        read_object_spec(old(f)@, name@) == Result::<FileView, ErrKind>::Ok(final(f)@),
{
    let ghost st0 = f@;
    let ghost nv = name@;
    let ob = ObjObject {
        name,
        vertices: Vec::new(),
        normals: Vec::new(),
        textures: Vec::new(),
        parameters: Vec::new(),
        groups: Vec::new(),
    };
    proof {
        assert(ob@.vertices =~= new_object(nv).vertices);
        assert(ob@.normals =~= new_object(nv).normals);
        assert(ob@.textures =~= new_object(nv).textures);
        assert(ob@.parameters =~= new_object(nv).parameters);
        assert(ob@.groups =~= new_object(nv).groups);
        assert(ob@ == new_object(nv));
    }
    f.objects.push(ob);
    proof {
        assert(f@.objects =~= st0.objects.push(new_object(nv)));
        assert(f@ == FileView { objects: st0.objects.push(new_object(nv)), ..st0 });
    }
    Ok(())
}

fn corner_index(c: &[u8]) -> (r: Option<Index>)
    ensures
        r == corner_of(c@),
{
    let segs = split_bytes(ScanKind::Slash, c);
    let ghost sv = pieces_view(segs@);
    if segs.len() == 1 {
        match parse_u32(segs[0].as_slice()) {
            Some(v) => Some(Index::Vertex { v }),
            None => None,
        }
    } else if segs.len() == 2 {
        let a = parse_u32(segs[0].as_slice());
        let b = parse_u32(segs[1].as_slice());
        match (a, b) {
            (Some(v), Some(t)) => Some(Index::VertexTexture { v, t }),
            _ => None,
        }
    } else if segs.len() == 3 {
        let a = parse_u32(segs[0].as_slice());
        let b = parse_u32(segs[1].as_slice());
        let c2 = parse_u32(segs[2].as_slice());
        match (a, b, c2) {
            (Some(v), None, Some(n)) => Some(Index::VertexNormal { v, n }),
            (Some(v), Some(t), Some(n)) => Some(Index::VertexTextureNormal { v, t, n }),
            _ => None,
        }
    } else {
        None
    }
}

fn read_face(f: &mut ObjFile, r: &[u8]) -> (res: Result<(), ErrKind>)
    requires
        old(f).wf(),
    ensures
        final(f).wf(),
        (match res {
            Result::Ok(()) => read_face_spec(old(f)@, r@) == Result::<FileView, ErrKind>::Ok(
                final(f)@,
            ),
            Result::Err(e) => read_face_spec(old(f)@, r@) == Result::<FileView, ErrKind>::Err(e),
        }),
{
    let cs = split_bytes(ScanKind::Ws, r);
    let ghost csv = pieces_view(cs@);
    if cs.len() != 3 {
        return Ok(());
    }
    let mut i: usize = 0;
    while i < cs.len()
        invariant
            0 <= i <= csv.len(),
            csv == pieces_view(cs@),
            csv == split_at(ScanKind::Ws, r@),
            csv.len() == 3,
            f.wf(),
            face_corners(old(f)@, csv, 0) == face_corners(f@, csv, i as int),
        decreases csv.len() - i,
    {
        match corner_index(cs[i].as_slice()) {
            None => {
                return Ok(());
            },
            Some(ix) => {
                match require_group(f) {
                    Err(e) => {
                        return Err(e);
                    },
                    Ok(()) => {
                        let ghost before = f@;
                        apply_cur_group(f, GroupAct::PushFace(ix));
                        proof {
                            assert(face_corners(before, csv, i as int) == face_corners(
                                f@,
                                csv,
                                i + 1,
                            ));
                        }
                    },
                }
            },
        }
        i = i + 1;
    }
    Ok(())
}

fn read_line(f: &mut ObjFile, r: &[u8]) -> (res: Result<(), ErrKind>)
    requires
        old(f).wf(),
    ensures
        final(f).wf(),
        (match res {
            Result::Ok(()) => read_line_spec(old(f)@, r@) == Result::<FileView, ErrKind>::Ok(
                final(f)@,
            ),
            Result::Err(e) => read_line_spec(old(f)@, r@) == Result::<FileView, ErrKind>::Err(e),
        }),
{
    let segs = split_bytes(ScanKind::Slash, r);
    if segs.len() == 1 {
        match parse_u32(segs[0].as_slice()) {
            Some(v) => match require_group(f) {
                Err(e) => Err(e),
                Ok(()) => {
                    apply_cur_group(f, GroupAct::PushLine(Index::Vertex { v }));
                    Ok(())
                },
            },
            None => Ok(()),
        }
    } else if segs.len() == 2 {
        let a = parse_u32(segs[0].as_slice());
        let b = parse_u32(segs[1].as_slice());
        match (a, b) {
            (Some(v), Some(t)) => match require_group(f) {
                Err(e) => Err(e),
                Ok(()) => {
                    apply_cur_group(f, GroupAct::PushFace(Index::VertexTexture { v, t }));
                    Ok(())
                },
            },
            _ => Ok(()),
        }
    } else {
        Ok(())
    }
}

fn read_point(f: &mut ObjFile, r: &[u8]) -> (res: Result<(), ErrKind>)
    requires
        old(f).wf(),
    ensures
        final(f).wf(),
        (match res {
            Result::Ok(()) => read_point_spec(old(f)@, r@) == Result::<FileView, ErrKind>::Ok(
                final(f)@,
            ),
            Result::Err(e) => read_point_spec(old(f)@, r@) == Result::<FileView, ErrKind>::Err(e),
        }),
{
    let ps = split_bytes(ScanKind::Ws, r);
    if ps.len() == 1 {
        match parse_u32(ps[0].as_slice()) {
            Some(v) => match require_group(f) {
                Err(e) => Err(e),
                Ok(()) => {
                    apply_cur_group(f, GroupAct::PushPoint(v));
                    Ok(())
                },
            },
            None => Ok(()),
        }
    } else {
        Ok(())
    }
}

/// Resolves a library reference against the geometry file's directory:
/// the file name's prefix through its last `/`, then the reference.
pub fn mtllib_target(file_name: &[u8], lib: &[u8]) -> (r: Vec<u8>)
    ensures
        r@ == mtl_target(file_name@, lib@),
{
    let mut m = file_name.len();
    while m > 0 && *slice_index_get(file_name, m - 1) != 47
        invariant
            m <= file_name@.len(),
            forall|i: int| m <= i < file_name@.len() ==> file_name@[i] != 47,
        decreases m,
    {
        m = m - 1;
    }
    proof {
        lemma_slash_prefix_is(file_name@, m as int);
    }
    let mut t = slice_to_vec(slice_subrange(file_name, 0, m));
    let mut libv = slice_to_vec(lib);
    t.append(&mut libv);
    proof {
        assert(t@ =~= mtl_target(file_name@, lib@));
    }
    t
}

fn read_mtllib(f: &mut ObjFile, r: &[u8], libs: &Vec<(Vec<u8>, Vec<Vec<u8>>)>) -> (res: Result<
    (),
    ErrKind,
>)
    requires
        old(f).wf(),
    ensures
        final(f).wf(),
        res == Result::<(), ErrKind>::Ok(()),
        read_mtllib_spec(old(f)@, r@, libs@) == Result::<FileView, ErrKind>::Ok(final(f)@),
{
    if f.file_name.len() == 0 {
        return Ok(());
    }
    if f.file_name.len() == 1 && f.file_name[0] == 47 {
        proof {
            assert(f@.file_name =~= seq![47u8]);
        }
        return Ok(());
    }
    proof {
        assert(!mtllib_skips(f@.file_name));
    }
    let target = mtllib_target(f.file_name.as_slice(), r);
    let ghost tg = target@;
    let mut i: usize = 0;
    while i < libs.len()
        invariant
            i <= libs@.len(),
            tg == mtl_target(old(f)@.file_name, r@),
            !mtllib_skips(old(f)@.file_name),
            f@ == old(f)@,
            f.wf(),
            target@ == tg,
            forall|j: int| 0 <= j < i ==> libs@[j].0@ != tg,
        decreases libs@.len() - i,
    {
        if eq_bytes(libs[i].0.as_slice(), target.as_slice()) {
            proof {
                lemma_libs_find_skip(libs@, tg, i as int);
                assert(libs@.skip(i as int)[0] == libs@[i as int]);
                assert(libs@.skip(i as int).drop_first() =~= libs@.skip(i + 1));
                assert(libs_find(libs@, tg) == Some(pieces_view(libs@[i as int].1@)));
            }
            let m = mtl_from_lines(target, &libs[i].1);
            let key = slice_to_vec(m.name.as_slice());
            let ghost st0 = f@;
            let ghost mv = m@;
            assoc_set(&mut f.materials, key, m);
            proof {
                assert(f@.materials =~= st0.materials.insert(mv.name, mv));
                assert(f@ == FileView { materials: st0.materials.insert(mv.name, mv), ..st0 });
                assert forall|p: int| 0 <= p < f.materials@.len() implies (
                #[trigger] f.materials@[p].1).wf() by {}
            }
            return Ok(());
        }
        i = i + 1;
    }
    proof {
        lemma_libs_find_skip(libs@, tg, libs@.len() as int);
        assert(libs@.skip(libs@.len() as int).len() == 0);
    }
    Ok(())
}

// --- line dispatch ----------------------------------------------------

/// What one source line does to the parse state: comment lines and lines
/// without a remainder do nothing; otherwise the remainder, stripped of
/// trailing comments and whitespace, goes to the opcode's handler, and
/// unrecognised opcodes are ignored.
pub open spec fn obj_line_step(
    st: FileView,
    line: Seq<u8>,
    libs: Seq<(Vec<u8>, Vec<Vec<u8>>)>,
) -> Result<FileView, ErrKind> {
    if line.len() > 0 && line[0] == 35 {
        Ok(st)
    } else {
        match rest_of(line) {
            None => Ok(st),
            Some(r0) => {
                let r = strip_comment(r0);
                match mesh_op(key_of(line)) {
                    MeshOp::V => read_vertex_spec(st, r, VertKind::Pos),
                    MeshOp::Vn => read_vertex_spec(st, r, VertKind::Norm),
                    MeshOp::Vp => read_vertex_spec(st, r, VertKind::Param),
                    MeshOp::Vt => read_vertex_spec(st, r, VertKind::Tex),
                    MeshOp::G => read_group_spec(st, r),
                    MeshOp::Usemtl => read_usemtl_spec(st, r),
                    MeshOp::F => read_face_spec(st, r),
                    MeshOp::L => read_line_spec(st, r),
                    MeshOp::P => read_point_spec(st, r),
                    MeshOp::O => read_object_spec(st, r),
                    MeshOp::S => read_smoothing_spec(st, r),
                    MeshOp::Mtllib => read_mtllib_spec(st, r, libs),
                    MeshOp::Comment => Ok(st),
                    MeshOp::Other => Ok(st),
                }
            },
        }
    }
}

/// The names of a state's objects, in order.
pub open spec fn object_names(objs: Seq<ObjectView>) -> Seq<Seq<u8>> {
    objs.map_values(|o: ObjectView| o.name)
}

/// Whether a line is an `o` directive that reaches its handler.
pub open spec fn is_object_line(line: Seq<u8>) -> bool {
    &&& !(line.len() > 0 && line[0] == 35)
    &&& rest_of(line) is Some
    &&& mesh_op(key_of(line)) == MeshOp::O
}

/// The object name an `o` line writes down.
pub open spec fn object_line_name(line: Seq<u8>) -> Seq<u8> {
    match rest_of(line) {
        Some(r0) => strip_comment(r0),
        None => Seq::empty(),
    }
}

/// The names the `o` lines among `lines[i..]` write down, in order.
pub open spec fn o_line_names(lines: Seq<Seq<u8>>, i: int) -> Seq<Seq<u8>>
    decreases lines.len() - i,
{
    if i < 0 || i >= lines.len() {
        Seq::empty()
    } else {
        (if is_object_line(lines[i]) {
            seq![object_line_name(lines[i])]
        } else {
            Seq::empty()
        }) + o_line_names(lines, i + 1)
    }
}

/// Appending face corners never changes the file name or the objects'
/// names.
pub proof fn lemma_face_corners_preserves(st: FileView, cs: Seq<Seq<u8>>, i: int)
    ensures
        face_corners(st, cs, i) matches Ok(st2) ==> st2.file_name == st.file_name
            && object_names(st2.objects) == object_names(st.objects),
    decreases cs.len() - i,
{
    if i < 0 || i >= cs.len() {
    } else {
        match corner_of(cs[i]) {
            None => {},
            Some(ix) => {
                if has_group(st) {
                    let st3 = with_cur_group(
                        st,
                        GroupView { faces: cur_group(st).faces.push(ix), ..cur_group(st) },
                    );
                    assert(object_names(st3.objects) =~= object_names(st.objects));
                    lemma_face_corners_preserves(st3, cs, i + 1);
                }
            },
        }
    }
}

/// One line keeps the file name, and changes the object names exactly by
/// what an `o` line appends.
pub proof fn lemma_line_step_objects(
    st: FileView,
    line: Seq<u8>,
    libs: Seq<(Vec<u8>, Vec<Vec<u8>>)>,
)
    ensures
        obj_line_step(st, line, libs) matches Ok(st2) ==> st2.file_name == st.file_name
            && object_names(st2.objects) == object_names(st.objects) + (if is_object_line(line) {
            seq![object_line_name(line)]
        } else {
            Seq::<Seq<u8>>::empty()
        }),
{
    if obj_line_step(st, line, libs) is Ok {
        let st2 = obj_line_step(st, line, libs)->Ok_0;
        if is_object_line(line) {
            assert(object_names(st2.objects) =~= object_names(st.objects) + seq![
                object_line_name(line),
            ]);
        } else {
            if !(line.len() > 0 && line[0] == 35) && rest_of(line) is Some {
                let r = strip_comment(rest_of(line)->Some_0);
                match mesh_op(key_of(line)) {
                    MeshOp::F => {
                        let cs = split_at(ScanKind::Ws, r);
                        if cs.len() == 3 {
                            lemma_face_corners_preserves(st, cs, 0);
                        }
                    },
                    _ => {},
                }
            }
            assert(object_names(st2.objects) =~= object_names(st.objects) + Seq::<
                Seq<u8>,
            >::empty());
        }
    }
}

/// The lines from `i` on, folded over the state; an error stops the fold
/// and carries the file name, the 1-based line number and the reason.
pub open spec fn obj_fold(
    st: FileView,
    lines: Seq<Seq<u8>>,
    libs: Seq<(Vec<u8>, Vec<Vec<u8>>)>,
    i: int,
) -> Result<FileView, ObjErrorView>
    decreases lines.len() - i,
{
    if i < 0 || i >= lines.len() {
        Ok(st)
    } else {
        match obj_line_step(st, lines[i], libs) {
            Ok(st2) => obj_fold(st2, lines, libs, i + 1),
            Err(kind) => Err(ObjErrorView { file_name: st.file_name, line: i + 1, kind }),
        }
    }
}

/// The empty parse state for a geometry file.
pub open spec fn obj_init(file: Seq<u8>) -> FileView {
    FileView { file_name: file, objects: Seq::empty(), materials: Map::empty() }
}

/// The mesh the lines of a geometry file write down, given the lines of
/// each material library the caller could read.
pub open spec fn obj_parse(
    file: Seq<u8>,
    lines: Seq<Seq<u8>>,
    libs: Seq<(Vec<u8>, Vec<Vec<u8>>)>,
) -> Result<FileView, ObjErrorView> {
    obj_fold(obj_init(file), lines, libs, 0)
}

/// Reads the lines of a geometry file into a mesh.  `libs` carries, for
/// each material library the caller could open, its resolved path and
/// its lines; the first entry for a path wins.
pub fn obj_from_lines(
    file_name: Vec<u8>,
    lines: &Vec<Vec<u8>>,
    libs: &Vec<(Vec<u8>, Vec<Vec<u8>>)>,
) -> (r: Result<ObjFile, ObjError>)
    ensures
        (match r {
            Result::Ok(f) => obj_parse(file_name@, pieces_view(lines@), libs@) == Result::<
                FileView,
                ObjErrorView,
            >::Ok(f@) && f.wf(),
            Result::Err(e) => obj_parse(file_name@, pieces_view(lines@), libs@) == Result::<
                FileView,
                ObjErrorView,
            >::Err(e@),
        }),
{
    let ghost f0 = file_name@;
    let ghost l = pieces_view(lines@);
    let held = file_name;
    let mut f = ObjFile {
        file_name: slice_to_vec(held.as_slice()),
        objects: Vec::new(),
        materials: Vec::new(),
    };
    proof {
        assert(f@.objects =~= obj_init(f0).objects);
        assert(f@ == obj_init(f0));
    }
    let mut failure: Option<ObjError> = None;
    let mut i: usize = 0;
    while i < lines.len()
        invariant
            i <= lines@.len(),
            l == pieces_view(lines@),
            held@ == f0,
            f.wf(),
            (match failure {
                Option::None => f@.file_name == f0 && obj_fold(obj_init(f0), l, libs@, 0)
                    == obj_fold(f@, l, libs@, i as int),
                Option::Some(e) => obj_fold(obj_init(f0), l, libs@, 0) == Result::<
                    FileView,
                    ObjErrorView,
                >::Err(e@),
            }),
        decreases lines@.len() - i,
    {
        let ghost before = f@;
        let line = &lines[i];
        proof {
            assert(l[i as int] == line@);
        }
        let mut stepped: Result<(), ErrKind> = Ok(());
        if failure.is_none() && !(line.len() > 0 && line[0] == 35) {
            let (key, rest) = split_key_rest(line.as_slice());
            match rest {
                None => {},
                Some(r0) => {
                    let rr = remove_comments(r0.as_slice());
                    stepped = match classify_mesh_op(key.as_slice()) {
                        MeshOp::V => read_vertex(&mut f, rr.as_slice(), VertKind::Pos),
                        MeshOp::Vn => read_vertex(&mut f, rr.as_slice(), VertKind::Norm),
                        MeshOp::Vp => read_vertex(&mut f, rr.as_slice(), VertKind::Param),
                        MeshOp::Vt => read_vertex(&mut f, rr.as_slice(), VertKind::Tex),
                        MeshOp::G => read_group(&mut f, rr),
                        MeshOp::Usemtl => read_usemtl(&mut f, rr),
                        MeshOp::F => read_face(&mut f, rr.as_slice()),
                        MeshOp::L => read_line(&mut f, rr.as_slice()),
                        MeshOp::P => read_point(&mut f, rr.as_slice()),
                        MeshOp::O => read_object(&mut f, rr),
                        MeshOp::S => read_smoothing_group(&mut f, rr.as_slice()),
                        MeshOp::Mtllib => read_mtllib(&mut f, rr.as_slice(), libs),
                        MeshOp::Comment => Ok(()),
                        MeshOp::Other => Ok(()),
                    };
                },
            }
        }
        match stepped {
            Ok(()) => {
                proof {
                    if failure is None {
                        assert(obj_line_step(before, l[i as int], libs@) == Result::<
                            FileView,
                            ErrKind,
                        >::Ok(f@));
                        lemma_line_step_objects(before, l[i as int], libs@);
                    }
                }
            },
            Err(kind) => {
                let e_file = slice_to_vec(held.as_slice());
                proof {
                    assert(obj_line_step(before, l[i as int], libs@) == Result::<
                        FileView,
                        ErrKind,
                    >::Err(kind));
                    assert(l.len() == lines@.len());
                    assert(before.file_name == f0);
                    assert(obj_fold(before, l, libs@, i as int) == Result::<
                        FileView,
                        ObjErrorView,
                    >::Err(ObjErrorView { file_name: f0, line: i + 1, kind }));
                }
                failure = Some(ObjError { file_name: e_file, line: i + 1, kind });
            },
        }
        i = i + 1;
    }
    match failure {
        Some(e) => Err(e),
        None => Ok(f),
    }
}

// --- laws -------------------------------------------------------------

pub proof fn lemma_obj_fold_objects(
    st: FileView,
    lines: Seq<Seq<u8>>,
    libs: Seq<(Vec<u8>, Vec<Vec<u8>>)>,
    i: int,
)
    ensures
        obj_fold(st, lines, libs, i) matches Ok(fv) ==> object_names(fv.objects) == object_names(
            st.objects,
        ) + o_line_names(lines, i),
    decreases lines.len() - i,
{
    if i < 0 || i >= lines.len() {
        assert(object_names(st.objects) + Seq::<Seq<u8>>::empty() =~= object_names(st.objects));
    } else {
        match obj_line_step(st, lines[i], libs) {
            Ok(st2) => {
                lemma_line_step_objects(st, lines[i], libs);
                lemma_obj_fold_objects(st2, lines, libs, i + 1);
                if obj_fold(st, lines, libs, i) is Ok {
                    let fv = obj_fold(st, lines, libs, i)->Ok_0;
                    assert(object_names(fv.objects) =~= object_names(st.objects) + o_line_names(
                        lines,
                        i,
                    ));
                }
            },
            Err(_) => {},
        }
    }
}

/// Law: a successful parse yields exactly one object per `o` line that
/// reaches its handler, in source order, each named by that line's
/// remainder; in particular the object count equals the count of such
/// lines.
pub proof fn lemma_objects_match_o_lines(
    file: Seq<u8>,
    lines: Seq<Seq<u8>>,
    libs: Seq<(Vec<u8>, Vec<Vec<u8>>)>,
)
    ensures
        obj_parse(file, lines, libs) matches Ok(fv) ==> object_names(fv.objects) == o_line_names(
            lines,
            0,
        ),
        obj_parse(file, lines, libs) matches Ok(fv) ==> fv.objects.len() == o_line_names(
            lines,
            0,
        ).len(),
{
    lemma_obj_fold_objects(obj_init(file), lines, libs, 0);
    if obj_parse(file, lines, libs) is Ok {
        let fv = obj_parse(file, lines, libs)->Ok_0;
        assert(object_names(obj_init(file).objects) =~= Seq::<Seq<u8>>::empty());
        assert(Seq::<Seq<u8>>::empty() + o_line_names(lines, 0) =~= o_line_names(lines, 0));
    }
}

/// Law: the parse is a function of its inputs alone, so reading the same
/// lines with the same libraries twice yields structurally equal
/// results.
pub proof fn lemma_obj_parse_deterministic(
    file: Seq<u8>,
    lines: Seq<Seq<u8>>,
    libs: Seq<(Vec<u8>, Vec<Vec<u8>>)>,
    r1: Result<FileView, ObjErrorView>,
    r2: Result<FileView, ObjErrorView>,
)
    requires
        r1 == obj_parse(file, lines, libs),
        r2 == obj_parse(file, lines, libs),
    ensures
        r1 == r2,
{
}

} // verus!
