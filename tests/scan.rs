use amari_mcp::{
    extract_dependencies, extract_enum_name, extract_function_name, extract_module_docs,
    extract_public_items, extract_reexports, extract_struct_name, extract_workspace_members,
    generate_feature_deps,
};

#[test]
fn test_extract_public_items() {
    let content = r#"
pub fn test_function() {}
pub struct TestStruct {}
pub enum TestEnum {}
pub use other::module;
fn private_function() {}
"#;

    let items = extract_public_items(content);
    assert_eq!(items.len(), 4);
    assert!(items.contains(&"fn test_function".to_string()));
    assert!(items.contains(&"struct TestStruct".to_string()));
    assert!(items.contains(&"enum TestEnum".to_string()));
    assert!(items.contains(&"pub use other::module;".to_string()));
}

#[test]
fn test_extract_module_docs() {
    let content = r#"
//! This is a module doc
//! Second line
/// Function documentation
fn test() {}
"#;

    let docs = extract_module_docs(content);
    assert_eq!(docs.len(), 3);
    assert!(docs.contains(&"This is a module doc".to_string()));
    assert!(docs.contains(&"Second line".to_string()));
    assert!(docs.contains(&"Function documentation".to_string()));
}

#[test]
fn test_extract_workspace_members() {
    let content = r#"
[workspace]
members = [
    "amari-core",
    "amari-tropical",
    "amari-dual",
]
"#;

    let members = extract_workspace_members(content);
    assert_eq!(members.len(), 3);
    assert!(members.contains(&"amari-core".to_string()));
    assert!(members.contains(&"amari-tropical".to_string()));
    assert!(members.contains(&"amari-dual".to_string()));
}

#[test]
fn test_extract_dependencies() {
    let content = r#"
[dependencies]
serde = "1.0"
tokio = { version = "1.0", features = ["full"] }
anyhow = "1.0"

[dev-dependencies]
test-dep = "0.1"
"#;

    let deps = extract_dependencies(content);
    assert_eq!(deps.len(), 3);
    assert!(deps.contains(&"serde".to_string()));
    assert!(deps.contains(&"tokio".to_string()));
    assert!(deps.contains(&"anyhow".to_string()));
    // Should not include dev-dependencies
    assert!(!deps.contains(&"test-dep".to_string()));
}

#[test]
fn test_generate_feature_deps() {
    let features = vec!["serde", "gpu", "wasm"];
    let deps = generate_feature_deps(&features);

    assert!(deps.contains("serde"));
    assert!(deps.contains("wasm-bindgen"));
    assert!(deps.contains("GPU features"));
}

#[test]
fn test_extract_function_name() {
    assert_eq!(extract_function_name("pub fn test_func() {"), Some("test_func".to_string()));
    assert_eq!(
        extract_function_name("pub fn complex_func(param: Type) -> Result<()> {"),
        Some("complex_func".to_string())
    );
    assert_eq!(extract_function_name("fn private_func() {"), None);
}

#[test]
fn test_extract_struct_name() {
    assert_eq!(extract_struct_name("pub struct TestStruct {"), Some("TestStruct".to_string()));
    assert_eq!(
        extract_struct_name("pub struct GenericStruct<T> {"),
        Some("GenericStruct<T>".to_string())
    );
    assert_eq!(extract_struct_name("struct PrivateStruct {"), None);
}

#[test]
fn test_extract_enum_name() {
    assert_eq!(extract_enum_name("pub enum TestEnum {"), Some("TestEnum".to_string()));
    assert_eq!(extract_enum_name("pub enum GenericEnum<T> {"), Some("GenericEnum<T>".to_string()));
    assert_eq!(extract_enum_name("enum PrivateEnum {"), None);
}

#[test]
fn reexports_keep_whole_lines_in_order() {
    let content = "  pub use a::b;\nfn x() {}\npub use c::{d, e};\r\n";
    assert_eq!(
        extract_reexports(content),
        vec!["pub use a::b;".to_string(), "pub use c::{d, e};".to_string()]
    );
}

#[test]
fn feature_deps_join_known_features_in_order() {
    let deps = generate_feature_deps(&["async", "unknown", "plotting"]);
    assert_eq!(
        deps,
        "tokio = { version = \"1.0\", features = [\"full\"] }\nplotters = \"0.3\""
    );
}

#[test]
fn feature_deps_placeholder_when_none_known() {
    assert_eq!(generate_feature_deps(&[]), "# Add additional dependencies as needed");
    assert_eq!(generate_feature_deps(&["other"]), "# Add additional dependencies as needed");
}

#[test]
fn function_name_needs_a_parenthesis() {
    assert_eq!(extract_function_name("pub fn missing_paren"), None);
    assert_eq!(extract_function_name("  pub fn  spaced  (x: u8)"), Some("spaced".to_string()));
}

#[test]
fn struct_name_needs_a_word() {
    assert_eq!(extract_struct_name("pub struct    "), None);
}

#[test]
fn doc_markers_repeat_and_are_stripped() {
    let docs = extract_module_docs("//!//! twice\n///   padded   \n// plain comment\n");
    assert_eq!(docs, vec!["twice".to_string(), "padded".to_string()]);
}

#[test]
fn dependencies_stop_at_next_table() {
    let content = "[package]\nname = \"x\"\n[dependencies]\n a = 1\n = 2\nplain\n[features]\nb = 3\n";
    assert_eq!(extract_dependencies(content), vec!["a".to_string()]);
}

#[test]
fn members_end_at_closing_bracket() {
    let content = "members = [\n\"one\"\n\"two\",\nthree\n]\n\"four\"\n";
    assert_eq!(extract_workspace_members(content), vec!["one".to_string(), "two".to_string()]);
}
