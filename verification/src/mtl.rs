//! The material library parser: turns the lines of an `.mtl`-style file
//! into one [`ObjMaterial`].
//!
//! Each non-comment line is split into a key and a remainder; the key
//! decides how the remainder is read.  Malformed numeric remainders fall
//! back to documented defaults instead of failing: `0` for integers, the
//! token `0` for floats, and an opaque white colour for colours.

use crate::assoc::assoc_set;
use crate::model::MaterialView;
use crate::model::MtlAttribute;
use crate::model::MtlAttributeView;
use crate::model::ObjMaterial;
use crate::numbers::i32_token_val;
use crate::numbers::is_float_token;
use crate::numbers::is_i32_token;
use crate::numbers::is_float_bytes;
use crate::numbers::parse_i32;
use crate::text::ScanKind;
use crate::text::key_of;
use crate::text::pieces_view;
use crate::text::remove_comments;
use crate::text::rest_of;
use crate::text::split_at;
use crate::text::split_bytes;
use crate::text::split_key_rest;
use crate::text::strip_comment;
use vstd::prelude::*;
use vstd::slice::slice_index_get;

verus! {

pub open spec fn kw_newmtl() -> Seq<u8> {
    seq![110u8, 101u8, 119u8, 109u8, 116u8, 108u8]
}

pub open spec fn kw_illum() -> Seq<u8> {
    seq![105u8, 108u8, 108u8, 117u8, 109u8]
}

pub open spec fn kw_ns() -> Seq<u8> {
    seq![78u8, 115u8]
}

pub open spec fn kw_d() -> Seq<u8> {
    seq![100u8]
}

pub open spec fn kw_tr() -> Seq<u8> {
    seq![84u8, 114u8]
}

pub open spec fn kw_ni() -> Seq<u8> {
    seq![78u8, 105u8]
}

pub open spec fn kw_kd() -> Seq<u8> {
    seq![75u8, 100u8]
}

pub open spec fn kw_ka() -> Seq<u8> {
    seq![75u8, 97u8]
}

pub open spec fn kw_ks() -> Seq<u8> {
    seq![75u8, 115u8]
}

pub open spec fn kw_ke() -> Seq<u8> {
    seq![75u8, 101u8]
}

pub open spec fn kw_tf() -> Seq<u8> {
    seq![84u8, 102u8]
}

/// The float token `0`, recorded when a float remainder is malformed.
pub open spec fn zero_token() -> Seq<u8> {
    seq![48u8]
}

/// The float token `1`: the default alpha, and the opaque white fallback.
pub open spec fn one_token() -> Seq<u8> {
    seq![49u8]
}

/// How a material key is handled.
#[derive(Debug, Clone, Copy, PartialEq, Eq, Structural)]
pub enum MtlKeyClass {
    Name,
    Int,
    FloatVal,
    ColorVal,
    Other,
}

/// The class a key falls under: `newmtl` names the material, `illum` is an
/// integer, `Ns` `d` `Tr` `Ni` are floats, `Kd` `Ka` `Ks` `Ke` `Tf` are
/// colours, and anything else is kept as text.
pub open spec fn mtl_key_class(k: Seq<u8>) -> MtlKeyClass {
    if k == kw_newmtl() {
        MtlKeyClass::Name
    } else if k == kw_illum() {
        MtlKeyClass::Int
    } else if k == kw_ns() || k == kw_d() || k == kw_tr() || k == kw_ni() {
        MtlKeyClass::FloatVal
    } else if k == kw_kd() || k == kw_ka() || k == kw_ks() || k == kw_ke() || k == kw_tf() {
        MtlKeyClass::ColorVal
    } else {
        MtlKeyClass::Other
    }
}

fn classify_mtl_key(key: &[u8]) -> (c: MtlKeyClass)
    ensures
        c == mtl_key_class(key@),
{
    let n = key.len();
    if n == 6 {
        let b0 = *slice_index_get(key, 0);
        let b1 = *slice_index_get(key, 1);
        let b2 = *slice_index_get(key, 2);
        let b3 = *slice_index_get(key, 3);
        let b4 = *slice_index_get(key, 4);
        let b5 = *slice_index_get(key, 5);
        if b0 == 110 && b1 == 101 && b2 == 119 && b3 == 109 && b4 == 116 && b5 == 108 {
            proof {
                assert(key@ =~= kw_newmtl());
            }
            MtlKeyClass::Name
        } else {
            MtlKeyClass::Other
        }
    } else if n == 5 {
        let b0 = *slice_index_get(key, 0);
        let b1 = *slice_index_get(key, 1);
        let b2 = *slice_index_get(key, 2);
        let b3 = *slice_index_get(key, 3);
        let b4 = *slice_index_get(key, 4);
        if b0 == 105 && b1 == 108 && b2 == 108 && b3 == 117 && b4 == 109 {
            proof {
                assert(key@ =~= kw_illum());
            }
            MtlKeyClass::Int
        } else {
            MtlKeyClass::Other
        }
    } else if n == 2 {
        let b0 = *slice_index_get(key, 0);
        let b1 = *slice_index_get(key, 1);
        if (b0 == 78 && b1 == 115) || (b0 == 84 && b1 == 114) || (b0 == 78 && b1 == 105) {
            proof {
                if b0 == 78 && b1 == 115 {
                    assert(key@ =~= kw_ns());
                } else if b0 == 84 && b1 == 114 {
                    assert(key@ =~= kw_tr());
                } else {
                    assert(key@ =~= kw_ni());
                }
            }
            MtlKeyClass::FloatVal
        } else if (b0 == 75 && (b1 == 100 || b1 == 97 || b1 == 115 || b1 == 101)) || (b0 == 84 && b1
            == 102) {
            proof {
                if b0 == 84 {
                    assert(key@ =~= kw_tf());
                } else if b1 == 100 {
                    assert(key@ =~= kw_kd());
                } else if b1 == 97 {
                    assert(key@ =~= kw_ka());
                } else if b1 == 115 {
                    assert(key@ =~= kw_ks());
                } else {
                    assert(key@ =~= kw_ke());
                }
            }
            MtlKeyClass::ColorVal
        } else {
            MtlKeyClass::Other
        }
    } else if n == 1 {
        let b0 = *slice_index_get(key, 0);
        if b0 == 100 {
            proof {
                assert(key@ =~= kw_d());
            }
            MtlKeyClass::FloatVal
        } else {
            MtlKeyClass::Other
        }
    } else {
        MtlKeyClass::Other
    }
}

/// The colour a colour-keyed remainder yields: three float tokens get an
/// alpha of `1`; four float tokens stand as given; any other shape falls
/// back to opaque white.
pub open spec fn mtl_color_val(value: Seq<u8>) -> MtlAttributeView {
    let ps = split_at(ScanKind::Ws, value);
    if ps.len() == 3 && is_float_token(ps[0]) && is_float_token(ps[1]) && is_float_token(ps[2]) {
        MtlAttributeView::Color { red: ps[0], green: ps[1], blue: ps[2], alpha: one_token() }
    } else if ps.len() == 4 && is_float_token(ps[0]) && is_float_token(ps[1]) && is_float_token(
        ps[2],
    ) && is_float_token(ps[3]) {
        MtlAttributeView::Color { red: ps[0], green: ps[1], blue: ps[2], alpha: ps[3] }
    } else {
        MtlAttributeView::Color {
            red: one_token(),
            green: one_token(),
            blue: one_token(),
            alpha: one_token(),
        }
    }
}

/// What one key/remainder pair does to the material.
pub open spec fn mtl_entry_step(m: MaterialView, key: Seq<u8>, value: Seq<u8>) -> MaterialView {
    match mtl_key_class(key) {
        MtlKeyClass::Name => MaterialView { name: value, ..m },
        MtlKeyClass::Int => MaterialView {
            attributes: m.attributes.insert(
                key,
                MtlAttributeView::Integer(
                    if is_i32_token(value) {
                        i32_token_val(value)
                    } else {
                        0
                    },
                ),
            ),
            ..m
        },
        MtlKeyClass::FloatVal => MaterialView {
            attributes: m.attributes.insert(
                key,
                MtlAttributeView::Float(
                    if is_float_token(value) {
                        value
                    } else {
                        zero_token()
                    },
                ),
            ),
            ..m
        },
        MtlKeyClass::ColorVal => MaterialView {
            attributes: m.attributes.insert(key, mtl_color_val(value)),
            ..m
        },
        MtlKeyClass::Other => MaterialView {
            attributes: m.attributes.insert(key, MtlAttributeView::Text(value)),
            ..m
        },
    }
}

/// What one source line does to the material: comment lines and lines
/// without a remainder do nothing; otherwise the remainder, stripped of
/// trailing comments and whitespace, is recorded under the line's key.
pub open spec fn mtl_line_step(m: MaterialView, line: Seq<u8>) -> MaterialView {
    if line.len() > 0 && line[0] == 35 {
        m
    } else {
        match rest_of(line) {
            Option::None => m,
            Option::Some(r) => mtl_entry_step(m, key_of(line), strip_comment(r)),
        }
    }
}

/// The lines from `i` on, folded over the material.
pub open spec fn mtl_fold(m: MaterialView, lines: Seq<Seq<u8>>, i: int) -> MaterialView
    decreases lines.len() - i,
{
    if i < 0 || i >= lines.len() {
        m
    } else {
        mtl_fold(mtl_line_step(m, lines[i]), lines, i + 1)
    }
}

/// The empty material a parse starts from.
pub open spec fn mtl_init(file: Seq<u8>) -> MaterialView {
    MaterialView { file_name: file, name: Seq::empty(), attributes: Map::empty() }
}

/// The material the lines of a material library file write down.
pub open spec fn mtl_parse(file: Seq<u8>, lines: Seq<Seq<u8>>) -> MaterialView {
    mtl_fold(mtl_init(file), lines, 0)
}

fn one_vec() -> (v: Vec<u8>)
    ensures
        v@ == one_token(),
{
    let mut v: Vec<u8> = Vec::new();
    v.push(49);
    proof {
        assert(v@ =~= one_token());
    }
    v
}

fn zero_vec() -> (v: Vec<u8>)
    ensures
        v@ == zero_token(),
{
    let mut v: Vec<u8> = Vec::new();
    v.push(48);
    proof {
        assert(v@ =~= zero_token());
    }
    v
}

fn color_attr(value: &[u8]) -> (c: MtlAttribute)
    ensures
        c@ == mtl_color_val(value@),
{
    let mut ps = split_bytes(ScanKind::Ws, value);
    let ghost ps0 = pieces_view(ps@);
    if ps.len() == 3 {
        if is_float_bytes(ps[0].as_slice()) && is_float_bytes(ps[1].as_slice()) && is_float_bytes(
            ps[2].as_slice(),
        ) {
            let blue = ps.pop().unwrap();
            let green = ps.pop().unwrap();
            let red = ps.pop().unwrap();
            return MtlAttribute::Color { red, green, blue, alpha: one_vec() };
        }
    } else if ps.len() == 4 {
        if is_float_bytes(ps[0].as_slice()) && is_float_bytes(ps[1].as_slice()) && is_float_bytes(
            ps[2].as_slice(),
        ) && is_float_bytes(ps[3].as_slice()) {
            let alpha = ps.pop().unwrap();
            let blue = ps.pop().unwrap();
            let green = ps.pop().unwrap();
            let red = ps.pop().unwrap();
            return MtlAttribute::Color { red, green, blue, alpha };
        }
    }
    MtlAttribute::Color { red: one_vec(), green: one_vec(), blue: one_vec(), alpha: one_vec() }
}

/// Records one key/remainder pair on the material.
fn handle_mtl_entry(mat: &mut ObjMaterial, key: Vec<u8>, value: Vec<u8>)
    requires
        old(mat).wf(),
    ensures
        final(mat).wf(),
        final(mat)@ == mtl_entry_step(old(mat)@, key@, value@),
{
    match classify_mtl_key(key.as_slice()) {
        MtlKeyClass::Name => {
            mat.name = value;
        },
        MtlKeyClass::Int => {
            let n: i32 = match parse_i32(value.as_slice()) {
                Option::Some(n) => n,
                Option::None => 0,
            };
            assoc_set(&mut mat.attributes, key, MtlAttribute::Integer(n));
        },
        MtlKeyClass::FloatVal => {
            let t = if is_float_bytes(value.as_slice()) {
                value
            } else {
                zero_vec()
            };
            assoc_set(&mut mat.attributes, key, MtlAttribute::Float(t));
        },
        MtlKeyClass::ColorVal => {
            let c = color_attr(value.as_slice());
            assoc_set(&mut mat.attributes, key, c);
        },
        MtlKeyClass::Other => {
            assoc_set(&mut mat.attributes, key, MtlAttribute::Text(value));
        },
    }
}

/// Reads the lines of a material library file into one material, whose
/// name is set by the last `newmtl` line and whose attributes hold the
/// last value recorded under each key.
pub fn mtl_from_lines(file_name: Vec<u8>, lines: &Vec<Vec<u8>>) -> (m: ObjMaterial)
    ensures
        m@ == mtl_parse(file_name@, pieces_view(lines@)),
        m.wf(),
{
    let ghost f0 = file_name@;
    let ghost l = pieces_view(lines@);
    let mut mat = ObjMaterial { file_name, name: Vec::new(), attributes: Vec::new() };
    proof {
        assert(mat@.name =~= mtl_init(f0).name);
        assert(mat@.attributes =~= mtl_init(f0).attributes);
        assert(mat@ == mtl_init(f0));
    }
    let mut i: usize = 0;
    while i < lines.len()
        invariant
            i <= lines@.len(),
            l == pieces_view(lines@),
            mat.wf(),
            mtl_fold(mtl_init(f0), l, 0) == mtl_fold(mat@, l, i as int),
        decreases lines@.len() - i,
    {
        let ghost before = mat@;
        let line = &lines[i];
        proof {
            assert(l[i as int] == line@);
        }
        if !(line.len() > 0 && line[0] == 35) {
            let (key, rest) = split_key_rest(line.as_slice());
            match rest {
                Option::Some(r) => {
                    let v = remove_comments(r.as_slice());
                    handle_mtl_entry(&mut mat, key, v);
                },
                Option::None => {},
            }
        }
        proof {
            assert(mat@ == mtl_line_step(before, l[i as int]));
        }
        i = i + 1;
    }
    mat
}


/// Law: the material parse is a function of its inputs alone, so reading
/// the same lines twice yields structurally equal results.
pub proof fn lemma_mtl_parse_deterministic(
    file: Seq<u8>,
    lines: Seq<Seq<u8>>,
    m1: MaterialView,
    m2: MaterialView,
)
    requires
        m1 == mtl_parse(file, lines),
        m2 == mtl_parse(file, lines),
    ensures
        m1 == m2,
{
}

} // verus!
