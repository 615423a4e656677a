use rusty_knight_core::material::{
    mtl_library_name, parse_material_library, LoadError, Material, PipelineKind,
};
use rusty_knight_core::obj_loader::{FaceRef, ObjLoader, Submesh};

fn b(s: &str) -> Vec<u8> {
    s.as_bytes().to_vec()
}

const LIBRARY: &str = "newmtl A\nKd 1.0 0.5 0.25\nnewmtl B\nmap_Kd stone.png\n";

const ATTRIBUTES: &str = "v 0 0 0\nv 1 0 0\nv 1 1 0\nv 0 1 0\nvt 0.2 0.3\nvn 0 0 1\n";

fn face_ref(p: usize) -> FaceRef {
    FaceRef { position: p, tex_coord: 0, normal: 0 }
}

#[test]
fn quad_face_is_fan_triangulated() {
    let obj = format!("{}usemtl A\nf 1/1/1 2/1/1 3/1/1 4/1/1\n", ATTRIBUTES);
    let mut loader = ObjLoader::new();
    let mut materials: Vec<Material> = Vec::new();
    let m = loader.load(&b(&obj), &b(LIBRARY), &mut materials).unwrap();
    assert_eq!(m.indices, vec![0, 1, 2, 3, 4, 5]);
    assert_eq!(
        m.vertices,
        vec![face_ref(0), face_ref(1), face_ref(2), face_ref(0), face_ref(2), face_ref(3)]
    );
    assert_eq!(m.submeshes, vec![Submesh { first_index: 0, index_count: 6, material_id: 0 }]);
}

#[test]
fn two_materials_give_two_contiguous_submeshes() {
    let obj = format!(
        "{}usemtl A\nf 1/1/1 2/1/1 3/1/1\nusemtl B\nf 1/1/1 2/1/1 3/1/1 4/1/1\n",
        ATTRIBUTES
    );
    let mut loader = ObjLoader::new();
    let mut materials: Vec<Material> = Vec::new();
    let m = loader.load(&b(&obj), &b(LIBRARY), &mut materials).unwrap();
    assert_eq!(
        m.submeshes,
        vec![
            Submesh { first_index: 0, index_count: 3, material_id: 0 },
            Submesh { first_index: 3, index_count: 6, material_id: 1 },
        ]
    );
    assert_eq!(m.indices.len(), 9);
    assert_eq!(materials.len(), 2);
    assert_eq!(materials[0].kind, PipelineKind::ColoredModel);
    assert_eq!(materials[0].color, Some(vec![b("1.0"), b("0.5"), b("0.25")]));
    assert_eq!(materials[0].texture, None);
    assert_eq!(materials[1].kind, PipelineKind::TexturedModel);
    assert_eq!(materials[1].texture, Some(b("stone.png")));
    assert_eq!(materials[1].color, None);
}

#[test]
fn material_ids_continue_after_existing_materials() {
    let obj = format!("{}usemtl B\nf 1/1/1 2/1/1 3/1/1\n", ATTRIBUTES);
    let mut loader = ObjLoader::new();
    let mut materials: Vec<Material> = vec![Material::new(), Material::new(), Material::new()];
    let m = loader.load(&b(&obj), &b(LIBRARY), &mut materials).unwrap();
    assert_eq!(m.submeshes, vec![Submesh { first_index: 0, index_count: 3, material_id: 4 }]);
    assert_eq!(materials.len(), 5);
}

#[test]
fn attribute_fields_are_kept_in_order() {
    let obj = "v 1.5 -2 3e1\nvt 0.2 0.3\nvn 0 1 0\n";
    let mut loader = ObjLoader::new();
    let mut materials: Vec<Material> = Vec::new();
    let m = loader.load(&b(obj), &b(""), &mut materials).unwrap();
    assert_eq!(m.positions, vec![vec![b("1.5"), b("-2"), b("3e1")]]);
    assert_eq!(m.tex_coords, vec![vec![b("0.2"), b("0.3")]]);
    assert_eq!(m.normals, vec![vec![b("0"), b("1"), b("0")]]);
    assert!(m.submeshes.is_empty());
    assert!(m.vertices.is_empty());
}

#[test]
fn faces_before_first_usemtl_join_the_first_submesh() {
    let obj = format!("{}f 1/1/1 2/1/1 3/1/1\nusemtl A\nf 2/1/1 3/1/1 4/1/1\n", ATTRIBUTES);
    let mut loader = ObjLoader::new();
    let mut materials: Vec<Material> = Vec::new();
    let m = loader.load(&b(&obj), &b(LIBRARY), &mut materials).unwrap();
    assert_eq!(m.submeshes, vec![Submesh { first_index: 0, index_count: 6, material_id: 0 }]);
}

#[test]
fn unknown_material_is_refused_and_adds_nothing() {
    let obj = format!("{}usemtl C\nf 1/1/1 2/1/1 3/1/1\n", ATTRIBUTES);
    let mut loader = ObjLoader::new();
    let mut materials: Vec<Material> = Vec::new();
    let r = loader.load(&b(&obj), &b(LIBRARY), &mut materials);
    assert_eq!(r.err(), Some(LoadError::UnknownMaterial));
    assert!(materials.is_empty());
}

#[test]
fn out_of_range_index_is_refused() {
    let obj = format!("{}usemtl A\nf 1/1/1 2/1/1 5/1/1\n", ATTRIBUTES);
    let mut loader = ObjLoader::new();
    let mut materials: Vec<Material> = Vec::new();
    let r = loader.load(&b(&obj), &b(LIBRARY), &mut materials);
    assert_eq!(r.err(), Some(LoadError::IndexOutOfRange));
    let zero = format!("{}f 0/1/1 2/1/1 3/1/1\n", ATTRIBUTES);
    let r = loader.load(&b(&zero), &b(LIBRARY), &mut materials);
    assert_eq!(r.err(), Some(LoadError::IndexOutOfRange));
}

#[test]
fn malformed_reference_is_refused() {
    let mut loader = ObjLoader::new();
    let mut materials: Vec<Material> = Vec::new();
    for face in ["f 1/1 2/1/1 3/1/1", "f 1/x/1 2/1/1 3/1/1", "f 1//1 2/1/1 3/1/1"] {
        let obj = format!("{}{}\n", ATTRIBUTES, face);
        let r = loader.load(&b(&obj), &b(LIBRARY), &mut materials);
        assert_eq!(r.err(), Some(LoadError::BadReference));
    }
}

#[test]
fn short_face_and_missing_fields_are_refused() {
    let mut loader = ObjLoader::new();
    let mut materials: Vec<Material> = Vec::new();
    let obj = format!("{}f 1/1/1 2/1/1\n", ATTRIBUTES);
    assert_eq!(loader.load(&b(&obj), &b(LIBRARY), &mut materials).err(), Some(LoadError::ShortFace));
    assert_eq!(loader.load(&b("v 1 2\n"), &b(""), &mut materials).err(), Some(LoadError::MissingField));
    assert_eq!(loader.load(&b("vt 1\n"), &b(""), &mut materials).err(), Some(LoadError::MissingField));
    assert_eq!(loader.load(&b("usemtl\n"), &b(""), &mut materials).err(), Some(LoadError::MissingField));
    assert!(materials.is_empty());
}

#[test]
fn loader_is_reusable_after_a_failure() {
    let mut loader = ObjLoader::new();
    let mut materials: Vec<Material> = Vec::new();
    let bad = format!("{}usemtl C\n", ATTRIBUTES);
    assert!(loader.load(&b(&bad), &b(LIBRARY), &mut materials).is_err());
    let good = format!("{}usemtl A\nf 1/1/1 2/1/1 3/1/1\n", ATTRIBUTES);
    let m = loader.load(&b(&good), &b(LIBRARY), &mut materials).unwrap();
    assert_eq!(m.indices, vec![0, 1, 2]);
}

#[test]
fn library_records_need_a_color_or_texture() {
    assert_eq!(
        parse_material_library(&b("newmtl A\nNs 10\n")).err(),
        Some(LoadError::MaterialWithoutSource)
    );
    assert_eq!(parse_material_library(&b("newmtl A\nKd 1 2\n")).err(), Some(LoadError::MissingField));
    assert_eq!(parse_material_library(&b("newmtl\n")).err(), Some(LoadError::MissingField));
}

#[test]
fn later_color_or_texture_line_decides() {
    let lib = parse_material_library(&b("Kd 0 0 0\nnewmtl A\nmap_Kd a.png\nKd 0.1 0.2 0.3\n")).unwrap();
    assert_eq!(lib.len(), 1);
    assert_eq!(lib[0].0, b("A"));
    assert_eq!(lib[0].1.kind, PipelineKind::ColoredModel);
    assert_eq!(lib[0].1.texture, None);
    assert!(parse_material_library(&b("")).unwrap().is_empty());
}

#[test]
fn duplicate_material_name_maps_to_the_later_record() {
    let lib = "newmtl A\nKd 1 1 1\nnewmtl A\nmap_Kd t.png\n";
    let obj = format!("{}usemtl A\nf 1/1/1 2/1/1 3/1/1\n", ATTRIBUTES);
    let mut loader = ObjLoader::new();
    let mut materials: Vec<Material> = Vec::new();
    let m = loader.load(&b(&obj), &b(lib), &mut materials).unwrap();
    assert_eq!(m.submeshes[0].material_id, 1);
}

#[test]
fn library_name_comes_from_mtllib() {
    assert_eq!(mtl_library_name(&b("# x\nmtllib poses.mtl\nv 0 0 0\n")).unwrap(), b("poses.mtl"));
    assert_eq!(mtl_library_name(&b("v 0 0 0\n")).unwrap(), b("default.mtl"));
    assert_eq!(mtl_library_name(&b("mtllib\n")).err(), Some(LoadError::MissingField));
}
