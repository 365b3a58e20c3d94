use std::io::Write;

use flate2::write::GzEncoder;
use flate2::Compression;
use standard_knowledge::cf::{aliases_by_standard_name, cf_yaml_to_standards, CfStandard, CfYaml};
use standard_knowledge::compressed::decompress_text;

fn entry(name: &str, description: &str, unit: &str) -> (String, CfStandard) {
    (
        name.to_string(),
        CfStandard { description: description.to_string(), unit: unit.to_string() },
    )
}

fn pair(a: &str, b: &str) -> (String, String) {
    (a.to_string(), b.to_string())
}

fn table() -> CfYaml {
    CfYaml {
        aliases: vec![pair("a_alias", "b_name"), pair("b_alias", "b_name"), pair("other", "missing_name")],
        standard_names: vec![entry("a_name", "First", "K"), entry("b_name", "Second", "m")],
    }
}

#[test]
fn cf_standards_are_listed_by_name_with_table_fields() {
    let standards = cf_yaml_to_standards(table());
    assert_eq!(standards.len(), 2);
    assert_eq!(standards[0].name, "a_name");
    assert_eq!(standards[0].unit, "K");
    assert_eq!(standards[0].description, "First");
    assert!(standards[0].aliases.is_empty());
    assert_eq!(standards[1].name, "b_name");
    assert_eq!(standards[1].description, "Second");
    assert_eq!(standards[1].aliases, vec!["a_alias".to_string(), "b_alias".to_string()]);
    assert_eq!(standards[1].long_name, None);
    assert!(standards[1].common_variable_names.is_empty());
    assert!(standards[1].qartod.is_empty());
}

#[test]
fn aliases_are_grouped_by_the_standard_they_name() {
    let grouped = aliases_by_standard_name(&table());
    assert_eq!(
        grouped,
        vec![
            ("b_name".to_string(), vec!["a_alias".to_string(), "b_alias".to_string()]),
            ("missing_name".to_string(), vec!["other".to_string()]),
        ]
    );
}

#[test]
fn gzip_data_gives_its_text_back() {
    let text = "aliases: {}\nstandard_names: {}\n";
    let mut encoder = GzEncoder::new(Vec::new(), Compression::default());
    encoder.write_all(text.as_bytes()).unwrap();
    let compressed = encoder.finish().unwrap();
    assert_eq!(decompress_text(&compressed).unwrap(), text);
}

#[test]
fn data_that_is_not_gzip_is_refused() {
    let err = decompress_text(b"plain bytes, not gzip").unwrap_err();
    assert!(!err.is_empty());
}
