use obj_reader::model::MtlAttribute;
use obj_reader::model::ObjMaterial;
use obj_reader::mtl::mtl_from_lines;
use obj_reader::text::remove_comments;

fn lines_of(src: &[&str]) -> Vec<Vec<u8>> {
    src.iter().map(|s| s.as_bytes().to_vec()).collect()
}

fn parse_mtl(src: &[&str]) -> ObjMaterial {
    mtl_from_lines(b"m.mtl".to_vec(), &lines_of(src))
}

fn attr<'a>(m: &'a ObjMaterial, key: &str) -> &'a MtlAttribute {
    &m.attributes
        .iter()
        .find(|(k, _)| k == key.as_bytes())
        .unwrap()
        .1
}

#[test]
fn newmtl_sets_the_name() {
    let m = parse_mtl(&["newmtl Shiny", "Ns 96.078431"]);
    assert_eq!(m.name, b"Shiny".to_vec());
    assert_eq!(m.file_name, b"m.mtl".to_vec());
}

#[test]
fn color_with_three_components_gets_alpha_one() {
    let m = parse_mtl(&["newmtl C", "Kd 0.8 0.2 0.1"]);
    assert_eq!(
        attr(&m, "Kd"),
        &MtlAttribute::Color {
            red: b"0.8".to_vec(),
            green: b"0.2".to_vec(),
            blue: b"0.1".to_vec(),
            alpha: b"1".to_vec(),
        }
    );
}

#[test]
fn color_with_four_components_keeps_alpha() {
    let m = parse_mtl(&["Tf 0.1 0.2 0.3 0.4"]);
    assert_eq!(
        attr(&m, "Tf"),
        &MtlAttribute::Color {
            red: b"0.1".to_vec(),
            green: b"0.2".to_vec(),
            blue: b"0.3".to_vec(),
            alpha: b"0.4".to_vec(),
        }
    );
}

#[test]
fn malformed_color_falls_back_to_white() {
    let m = parse_mtl(&["Ka 0.1 zebra 0.3"]);
    assert_eq!(
        attr(&m, "Ka"),
        &MtlAttribute::Color {
            red: b"1".to_vec(),
            green: b"1".to_vec(),
            blue: b"1".to_vec(),
            alpha: b"1".to_vec(),
        }
    );
}

#[test]
fn malformed_illum_falls_back_to_zero() {
    let m = parse_mtl(&["illum abc"]);
    assert_eq!(attr(&m, "illum"), &MtlAttribute::Integer(0));
}

#[test]
fn illum_reads_a_signed_integer() {
    let m = parse_mtl(&["illum 2"]);
    assert_eq!(attr(&m, "illum"), &MtlAttribute::Integer(2));
}

#[test]
fn float_keys_keep_the_token_or_fall_back() {
    let m = parse_mtl(&["Ns 96.078431", "d oops"]);
    assert_eq!(attr(&m, "Ns"), &MtlAttribute::Float(b"96.078431".to_vec()));
    assert_eq!(attr(&m, "d"), &MtlAttribute::Float(b"0".to_vec()));
}

#[test]
fn unknown_keys_are_kept_verbatim() {
    let m = parse_mtl(&["map_Kd textures/wood.png"]);
    assert_eq!(
        attr(&m, "map_Kd"),
        &MtlAttribute::Text(b"textures/wood.png".to_vec())
    );
}

#[test]
fn later_keys_overwrite_earlier_ones() {
    let m = parse_mtl(&["Ns 1", "Ns 2"]);
    assert_eq!(m.attributes.len(), 1);
    assert_eq!(attr(&m, "Ns"), &MtlAttribute::Float(b"2".to_vec()));
}

#[test]
fn comment_lines_and_trailing_comments() {
    let m = parse_mtl(&["# header", "newmtl A # tail comment", "Ns 5 # tail"]);
    assert_eq!(m.name, b"A".to_vec());
    assert_eq!(attr(&m, "Ns"), &MtlAttribute::Float(b"5".to_vec()));
}

#[test]
fn remove_comments_trims_and_cuts() {
    assert_eq!(remove_comments(b"  abc def # tail "), b"abc def".to_vec());
    assert_eq!(remove_comments(b"# all comment"), b"".to_vec());
    assert_eq!(remove_comments(b"   "), b"".to_vec());
}
