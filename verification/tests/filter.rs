use standard_knowledge::knowledge::Knowledge;
use standard_knowledge::standard::{QcSuite, Standard};
use standard_knowledge::standards_filter::StandardsFilter;
use standard_knowledge::tree::Tree;

fn standard(name: &str, unit: &str, category: Option<&str>, aliases: &[&str]) -> Standard {
    Standard {
        name: name.to_string(),
        long_name: None,
        unit: unit.to_string(),
        description: String::new(),
        aliases: aliases.iter().map(|a| a.to_string()).collect(),
        ioos_category: category.map(|c| c.to_string()),
        common_variable_names: Vec::new(),
        related_standards: Vec::new(),
        sibling_standards: Vec::new(),
        extra_attrs: Vec::new(),
        other_units: Vec::new(),
        comments: None,
        qartod: Vec::new(),
    }
}

fn sample() -> StandardsFilter {
    let mut wave = standard("sea_surface_wave_mean_period", "s", Some("Waves"), &[]);
    wave.common_variable_names = vec!["mean_period".to_string()];
    wave.qartod = vec![QcSuite { slug: "gross_range".to_string(), name: String::new(), description: String::new(), config: Tree::Null }];
    StandardsFilter {
        standards: vec![
            standard("air_pressure_at_mean_sea_level", "Pa", Some("Meteorology"), &["air_pressure_at_sea_level"]),
            wave,
            standard("air_pressure", "Pa", None, &["air_pressure_at_mean_sea_level"]),
        ],
    }
}

fn names(f: &StandardsFilter) -> Vec<String> {
    f.standards.iter().map(|s| s.name.clone()).collect()
}

#[test]
fn by_unit_keeps_exact_unit_in_order() {
    let f = sample().by_unit("Pa");
    assert_eq!(names(&f), vec!["air_pressure_at_mean_sea_level", "air_pressure"]);
    assert!(sample().by_unit("pa").standards.is_empty());
}

#[test]
fn by_ioos_category_ignores_case() {
    let f = sample().by_ioos_category("meteorology");
    assert_eq!(names(&f), vec!["air_pressure_at_mean_sea_level"]);
    assert!(sample().by_ioos_category("Meteo").standards.is_empty());
}

#[test]
fn by_variable_name_folds_case_and_underscores() {
    let f = sample().by_variable_name("MeanPeriod");
    assert_eq!(names(&f), vec!["sea_surface_wave_mean_period"]);
    assert!(sample().by_variable_name("period").standards.is_empty());
}

#[test]
fn has_qartod_tests_keeps_standards_with_suites() {
    let f = sample().has_qartod_tests();
    assert_eq!(names(&f), vec!["sea_surface_wave_mean_period"]);
}

#[test]
fn search_matches_any_field() {
    let f = sample().search("WAVE");
    assert_eq!(names(&f), vec!["sea_surface_wave_mean_period"]);
    let f = sample().search("sea_level");
    assert_eq!(names(&f), vec!["air_pressure_at_mean_sea_level", "air_pressure"]);
}

#[test]
fn filters_compose() {
    let f = sample().by_unit("Pa").search("mean");
    assert_eq!(names(&f), vec!["air_pressure_at_mean_sea_level", "air_pressure"]);
}

#[test]
fn get_prefers_a_name_over_an_alias() {
    let f = sample();
    assert_eq!(
        f.get("air_pressure_at_mean_sea_level").unwrap().name,
        "air_pressure_at_mean_sea_level"
    );
    assert_eq!(
        f.get("air_pressure_at_sea_level").unwrap().name,
        "air_pressure_at_mean_sea_level"
    );
}

#[test]
fn get_unknown_is_not_found() {
    assert_eq!(sample().get("nothing").unwrap_err(), "Standard not found");
}

#[test]
fn knowledge_default_is_empty() {
    let k = Knowledge::default();
    assert_eq!(k.name, "");
    assert!(k.long_name.is_none());
    assert!(k.common_variable_names.is_empty());
    assert!(k.extra_attrs.is_empty());
    assert!(k.qc.is_none());
}
