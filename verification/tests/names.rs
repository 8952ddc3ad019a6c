use porter::names::{
    maya_range, replace_spaces, sanitize_bone_name, sanitize_material_name, sanitize_obj_str,
    sanitize_smd_bone_str, sanitize_smd_mat_str,
};

#[test]
fn obj_names_keep_ascii_letters_digits_and_dashes() {
    assert_eq!(sanitize_obj_str("  a b-c!  "), "a_b-c_");
    assert_eq!(sanitize_obj_str("Mesh_01.é"), "Mesh_01__");
    assert_eq!(sanitize_obj_str("\t\n "), "");
}

#[test]
fn smd_bone_names_replace_path_and_quote_characters() {
    assert_eq!(sanitize_smd_bone_str(" a/b:c "), "a_b_c");
    assert_eq!(sanitize_smd_bone_str("left arm"), "left arm");
    assert_eq!(sanitize_smd_bone_str("\"x\"|<y>?*\\"), "_x___y____");
}

#[test]
fn unicode_whitespace_is_trimmed_at_both_ends() {
    assert_eq!(sanitize_smd_bone_str("\u{3000}\u{a0}bone\u{2028}\u{85}"), "bone");
    assert_eq!(sanitize_smd_bone_str("\u{200b}bone\u{200b}"), "\u{200b}bone\u{200b}");
    assert_eq!(sanitize_obj_str("\u{1680}x\u{205f}"), "x");
}

#[test]
fn smd_material_names_keep_ascii_letters_digits_and_dashes() {
    assert_eq!(sanitize_smd_mat_str("mat.01"), "mat_01");
    assert_eq!(sanitize_smd_mat_str("  skin-2  "), "skin-2");
}

#[test]
fn bone_and_material_names_avoid_default_and_leading_digits() {
    assert_eq!(sanitize_bone_name(String::from("default")), "_default");
    assert_eq!(sanitize_bone_name(String::new()), "_default");
    assert_eq!(sanitize_bone_name(String::from("1abc")), "_1abc");
    assert_eq!(sanitize_bone_name(String::from("abc")), "abc");
    assert_eq!(sanitize_material_name("default"), "_default");
    assert_eq!(sanitize_material_name("9mm"), "_9mm");
    assert_eq!(sanitize_material_name("Default"), "Default");
    assert_eq!(sanitize_material_name("a b"), "a_b");
    assert_eq!(sanitize_material_name(" "), "_");
    assert_eq!(sanitize_bone_name(String::from("left arm")), "left_arm");
    assert_eq!(sanitize_bone_name(String::from("2 bones")), "_2_bones");
}

#[test]
fn spaces_become_underscores() {
    assert_eq!(replace_spaces("a b  c"), "a_b__c");
    assert_eq!(replace_spaces("none"), "none");
}

#[test]
fn maya_ranges() {
    assert_eq!(maya_range(0), "0");
    assert_eq!(maya_range(1), "0");
    assert_eq!(maya_range(2), "0:1");
    assert_eq!(maya_range(11), "0:10");
    assert_eq!(maya_range(1000), "0:999");
}
