use porter::obj::{mtl_textures, obj_face, obj_texture_slot};
use porter::{
    Material, MaterialParameterType, MaterialParameterValue, MaterialTexture, MaterialUsage,
    ModelFileType,
};

fn texture(path: &str, usage: MaterialUsage) -> MaterialTexture {
    MaterialTexture::new(String::from(path)).with_usage(usage)
}

#[test]
fn texture_builders_set_fields() {
    let t = MaterialTexture::new(String::from("a.png"))
        .with_usage(MaterialUsage::Normal)
        .with_hash(7)
        .with_alias(String::from("alias"));
    assert_eq!(t.file_path, "a.png");
    assert_eq!(t.usage, MaterialUsage::Normal);
    assert_eq!(t.hash, 7);
    assert_eq!(t.alias, "alias");
    assert!(!t.is_empty());
    assert!(MaterialTexture::new(String::from("b.png")).is_empty());
    assert!(!MaterialTexture::new(String::from("b.png")).with_hash(1).is_empty());
}

#[test]
fn new_material_sanitizes_its_name() {
    let material = Material::new(String::from("default"));
    assert_eq!(material.name, "_default");
    assert_eq!(material.source_name, "default");
    assert!(material.textures.is_empty());
    let material = Material::new(String::from("rusty metal"));
    assert_eq!(material.name, "rusty_metal");
    assert_eq!(material.source_name, "rusty metal");
    let material = Material::with_source_name(String::from("2 skin"), String::from("source"));
    assert_eq!(material.name, "_2_skin");
    assert_eq!(material.source_name, "source");
}

#[test]
fn push_keeps_textures_sorted_by_usage() {
    let mut material = Material::new(String::from("m"));
    material.push(texture("n1.png", MaterialUsage::Normal));
    material.push(texture("a.png", MaterialUsage::Albedo));
    material.push(texture("u.png", MaterialUsage::Unknown));
    material.push(texture("n2.png", MaterialUsage::Normal));
    let paths: Vec<&str> = material.textures.iter().map(|t| t.file_path.as_str()).collect();
    assert_eq!(paths, vec!["a.png", "n1.png", "n2.png", "u.png"]);
}

#[test]
fn push_parameter_keeps_parameters_sorted() {
    let mut material = Material::new(String::from("m"));
    material.push_parameter(
        MaterialParameterType::from(MaterialUsage::Gloss),
        MaterialParameterValue::from("second"),
    );
    material.push_parameter(
        MaterialParameterType::Usage(MaterialUsage::Albedo),
        MaterialParameterValue::from(String::from("first")),
    );
    material.push_parameter(
        MaterialParameterType::Usage(MaterialUsage::Gloss),
        MaterialParameterValue::ColorLinear { r: 1, g: 2, b: 3, a: 4 },
    );
    let params: Vec<MaterialParameterType> = material.parameters.iter().map(|p| p.param).collect();
    assert_eq!(
        params,
        vec![
            MaterialParameterType::Usage(MaterialUsage::Albedo),
            MaterialParameterType::Usage(MaterialUsage::Gloss),
            MaterialParameterType::Usage(MaterialUsage::Gloss)
        ]
    );
    assert_eq!(material.parameters[1].value, MaterialParameterValue::String(String::from("second")));
}

#[test]
fn base_color_prefers_albedo_then_diffuse() {
    let mut material = Material::new(String::from("m"));
    assert!(material.base_color_texture().is_none());
    material.push(texture("spec.png", MaterialUsage::Specular));
    assert!(material.base_color_texture().is_none());
    material.push(texture("diffuse.png", MaterialUsage::Diffuse));
    assert_eq!(material.base_color_texture().unwrap().file_path, "diffuse.png");
    material.push(texture("albedo.png", MaterialUsage::Albedo));
    assert_eq!(material.base_color_texture().unwrap().file_path, "albedo.png");
}

#[test]
fn remove_takes_out_one_texture() {
    let mut material = Material::new(String::from("m"));
    material.push(texture("a.png", MaterialUsage::Albedo));
    material.push(texture("b.png", MaterialUsage::Normal));
    let removed = material.remove(0);
    assert_eq!(removed.file_path, "a.png");
    assert_eq!(material.textures.len(), 1);
    assert_eq!(material.textures[0].file_path, "b.png");
}

#[test]
fn extend_merges_in_order() {
    let mut a = Material::new(String::from("a"));
    a.push(texture("n.png", MaterialUsage::Normal));
    let mut b = Material::new(String::from("b"));
    b.push(texture("x.png", MaterialUsage::Albedo));
    b.push(texture("r.png", MaterialUsage::Roughness));
    b.push_parameter(
        MaterialParameterType::Usage(MaterialUsage::Cavity),
        MaterialParameterValue::from("c"),
    );
    a.extend(b);
    let paths: Vec<&str> = a.textures.iter().map(|t| t.file_path.as_str()).collect();
    assert_eq!(paths, vec!["x.png", "n.png", "r.png"]);
    assert_eq!(a.parameters.len(), 1);
    assert_eq!(a.name, "a");
}

#[test]
fn extend_keeps_earlier_textures_and_parameters_in_order() {
    let mut a = Material::new(String::from("a"));
    a.push(texture("n1.png", MaterialUsage::Normal));
    a.push(texture("n2.png", MaterialUsage::Normal));
    a.push(texture("a1.png", MaterialUsage::Albedo));
    a.push_parameter(
        MaterialParameterType::Usage(MaterialUsage::Gloss),
        MaterialParameterValue::from("g1"),
    );
    a.push_parameter(
        MaterialParameterType::Usage(MaterialUsage::Gloss),
        MaterialParameterValue::from("g2"),
    );
    let mut b = Material::new(String::from("b"));
    b.push(texture("n3.png", MaterialUsage::Normal));
    b.push(texture("a2.png", MaterialUsage::Albedo));
    b.push_parameter(
        MaterialParameterType::Usage(MaterialUsage::Gloss),
        MaterialParameterValue::from("g3"),
    );
    a.extend(b);
    let paths: Vec<&str> = a.textures.iter().map(|t| t.file_path.as_str()).collect();
    assert_eq!(paths, vec!["a1.png", "a2.png", "n1.png", "n2.png", "n3.png"]);
    let values: Vec<MaterialParameterValue> = a.parameters.iter().map(|p| p.value.clone()).collect();
    assert_eq!(
        values,
        vec![
            MaterialParameterValue::from("g1"),
            MaterialParameterValue::from("g2"),
            MaterialParameterValue::from("g3")
        ]
    );
}

#[test]
fn unique_textures_skip_empty_and_repeated() {
    let mut material = Material::new(String::from("m"));
    let first = texture("a.png", MaterialUsage::Albedo).with_hash(1);
    material.textures = vec![
        first.clone(),
        texture("b.png", MaterialUsage::Albedo),
        first.clone(),
        texture("c.png", MaterialUsage::Normal).with_alias(String::from("c")),
    ];
    let unique = material.unique_textures();
    assert_eq!(
        unique,
        vec![first, texture("c.png", MaterialUsage::Normal).with_alias(String::from("c"))]
    );
}

#[test]
fn usage_names_and_order() {
    assert_eq!(MaterialUsage::EmissiveMask.name(), "Emissive Mask");
    assert_eq!(MaterialUsage::AmbientOcclusion.name(), "Ambient Occlusion");
    assert_eq!(MaterialUsage::Albedo.index(), 0);
    assert_eq!(MaterialUsage::Unknown.index(), 13);
    assert_eq!(MaterialUsage::default(), MaterialUsage::Unknown);
    assert!(MaterialUsage::Albedo < MaterialUsage::Normal);
    assert_eq!(MaterialParameterType::Usage(MaterialUsage::Gloss).index(), 7);
}

#[test]
fn model_file_type_extensions() {
    assert_eq!(ModelFileType::Obj.extension(), "obj");
    assert_eq!(ModelFileType::Smd.extension(), "smd");
    assert_eq!(ModelFileType::XnaLara.extension(), "mesh.ascii");
    assert_eq!(ModelFileType::XModelExport.extension(), "xmodel_export");
    assert_eq!(ModelFileType::Cast.extension(), "cast");
    assert_eq!(ModelFileType::Maya.extension(), "ma");
    assert_eq!(ModelFileType::Fbx.extension(), "fbx");
}

#[test]
fn obj_slots_follow_usage() {
    assert_eq!(obj_texture_slot(MaterialUsage::Albedo), "map_Kd");
    assert_eq!(obj_texture_slot(MaterialUsage::Diffuse), "map_Kd");
    assert_eq!(obj_texture_slot(MaterialUsage::Normal), "norm");
    assert_eq!(obj_texture_slot(MaterialUsage::Roughness), "map_Pr");
    assert_eq!(obj_texture_slot(MaterialUsage::Unknown), "map_Unk");
}

#[test]
fn mtl_lists_first_texture_of_each_slot() {
    let textures = vec![
        texture("albedo.png", MaterialUsage::Albedo).with_hash(1),
        texture("diffuse.png", MaterialUsage::Diffuse).with_hash(2),
        texture("empty.png", MaterialUsage::Normal),
        texture("normal.png", MaterialUsage::Normal).with_hash(3),
        texture("gloss.png", MaterialUsage::Gloss).with_hash(4),
        texture("rough.png", MaterialUsage::Roughness).with_hash(5),
    ];
    assert_eq!(mtl_textures(&textures), vec![0, 3, 4]);
    assert_eq!(mtl_textures(&vec![]), Vec::<usize>::new());
}

#[test]
fn obj_face_lines_number_corners_last_first() {
    assert_eq!(obj_face(1, true), "f 3/3/3 2/2/2 1/1/1");
    assert_eq!(obj_face(10, false), "f 12//12 11//11 10//10");
    assert_eq!(obj_face(0, false), "f 2//2 1//1 0//0");
}
