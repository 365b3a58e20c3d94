use standard_knowledge::knowledge::{Knowledge, YamlKnowledge};
use standard_knowledge::cf::{CfStandard, CfYaml};
use standard_knowledge::standard::{QcSuite, Standard};
use standard_knowledge::standards_library::StandardsLibrary;
use standard_knowledge::tree::Tree;

fn table() -> CfYaml {
    CfYaml {
        aliases: vec![(
            "air_pressure_at_sea_level".to_string(),
            "air_pressure_at_mean_sea_level".to_string(),
        )],
        standard_names: vec![
            (
                "air_pressure_at_mean_sea_level".to_string(),
                CfStandard {
                    description: "Air pressure at mean sea level".to_string(),
                    unit: "Pa".to_string(),
                },
            ),
            (
                "sea_surface_wave_mean_period".to_string(),
                CfStandard { description: "Mean wave period".to_string(), unit: "s".to_string() },
            ),
        ],
    }
}

fn library() -> StandardsLibrary {
    let mut l = StandardsLibrary::default();
    l.load_cf_standards(table());
    l
}

fn bare(name: &str, unit: &str) -> Standard {
    Standard {
        name: name.to_string(),
        long_name: None,
        unit: unit.to_string(),
        description: String::new(),
        aliases: Vec::new(),
        ioos_category: None,
        common_variable_names: Vec::new(),
        related_standards: Vec::new(),
        sibling_standards: Vec::new(),
        extra_attrs: Vec::new(),
        other_units: Vec::new(),
        comments: None,
        qartod: Vec::new(),
    }
}

#[test]
fn loading_a_vec_replaces_standards_of_the_same_name() {
    let mut l = library();
    l.load_cf_standards_from_vec(vec![bare("air_pressure_at_mean_sea_level", "hPa"), bare("new_one", "m")]);
    assert_eq!(l.get("air_pressure_at_mean_sea_level").unwrap().unit, "hPa");
    assert_eq!(l.get("new_one").unwrap().unit, "m");
    assert_eq!(l.get("sea_surface_wave_mean_period").unwrap().unit, "s");
    assert_eq!(l.standards.len(), 3);
}

#[test]
fn loading_the_table_twice_changes_nothing() {
    let mut l = library();
    let before = l.get("air_pressure_at_mean_sea_level").unwrap();
    l.load_cf_standards(table());
    assert_eq!(l.standards.len(), 2);
    assert!(l.get("air_pressure_at_mean_sea_level").unwrap() == before);
}

#[test]
fn applying_knowledge_follows_the_merge_rules() {
    let mut l = library();
    l.load_test_suites(vec![(
        "air_pressure_at_mean_sea_level".to_string(),
        vec![QcSuite { slug: "spike".to_string(), name: String::new(), description: String::new(), config: Tree::Null }],
    )]);
    let first = Knowledge {
        name: "air_pressure_at_mean_sea_level".to_string(),
        long_name: Some("Old".to_string()),
        common_variable_names: vec!["p".to_string()],
        other_units: vec!["mbar".to_string()],
        extra_attrs: vec![("a".to_string(), "1".to_string()), ("b".to_string(), "2".to_string())],
        ..Default::default()
    };
    let second = Knowledge {
        name: "air_pressure_at_mean_sea_level".to_string(),
        ioos_category: Some("Meteorology".to_string()),
        common_variable_names: vec!["pres".to_string()],
        other_units: vec!["hPa".to_string()],
        extra_attrs: vec![("b".to_string(), "3".to_string())],
        qc: Some(vec![("gross_range".to_string(), Tree::Null)]),
        ..Default::default()
    };
    let unknown = Knowledge { name: "not_in_the_table".to_string(), ..Default::default() };
    l.apply_knowledge(vec![first, unknown, second]);
    let s = l.get("air_pressure_at_sea_level").unwrap();
    assert_eq!(s.unit, "Pa");
    assert_eq!(s.long_name, None);
    assert_eq!(s.ioos_category.as_deref(), Some("Meteorology"));
    assert_eq!(s.common_variable_names, vec!["p".to_string(), "pres".to_string()]);
    assert_eq!(s.other_units, vec!["hPa".to_string()]);
    assert_eq!(
        s.extra_attrs,
        vec![("a".to_string(), "1".to_string()), ("b".to_string(), "3".to_string())]
    );
    let slugs: Vec<&str> = s.qartod.iter().map(|q| q.slug.as_str()).collect();
    assert_eq!(slugs, vec!["spike", "gross_range"]);
    assert_eq!(l.standards.len(), 2);
    assert!(l.get("not_in_the_table").is_err());
}

#[test]
fn test_suites_for_unknown_standards_are_dropped() {
    let mut l = library();
    l.load_test_suites(vec![(
        "unknown".to_string(),
        vec![QcSuite { slug: "spike".to_string(), name: String::new(), description: String::new(), config: Tree::Null }],
    )]);
    assert_eq!(l.filter().has_qartod_tests().standards.len(), 0);
    l.load_test_suites(vec![(
        "sea_surface_wave_mean_period".to_string(),
        vec![QcSuite { slug: "spike".to_string(), name: String::new(), description: String::new(), config: Tree::Null }],
    )]);
    let f = l.filter().has_qartod_tests();
    assert_eq!(f.standards.len(), 1);
    assert_eq!(f.standards[0].name, "sea_surface_wave_mean_period");
}

#[test]
fn known_ioos_categories_once_each() {
    let mut l = library();
    assert!(l.known_ioos_categories().is_empty());
    l.apply_knowledge(vec![
        Knowledge {
            name: "air_pressure_at_mean_sea_level".to_string(),
            ioos_category: Some("Meteorology".to_string()),
            ..Default::default()
        },
        Knowledge {
            name: "sea_surface_wave_mean_period".to_string(),
            ioos_category: Some("Meteorology".to_string()),
            ..Default::default()
        },
    ]);
    assert_eq!(l.known_ioos_categories(), vec!["Meteorology".to_string()]);
}

#[test]
fn yaml_knowledge_fills_absent_lists() {
    let y = YamlKnowledge {
        name: Some("ignored".to_string()),
        long_name: Some("L".to_string()),
        ioos_category: None,
        common_variable_names: None,
        related_standards: Some(vec!["r".to_string()]),
        sibling_standards: None,
        extra_attrs: None,
        other_units: None,
        comments: None,
        qc: None,
    };
    let k = y.into_knowledge("the_name".to_string());
    assert_eq!(k.name, "the_name");
    assert_eq!(k.long_name.as_deref(), Some("L"));
    assert!(k.common_variable_names.is_empty());
    assert_eq!(k.related_standards, vec!["r".to_string()]);
    assert!(k.extra_attrs.is_empty());
    assert!(k.qc.is_none());
}

#[test]
fn suites_from_knowledge_take_name_and_description_from_their_configuration() {
    let mut l = library();
    let text = |x: &str| Tree::Text(x.to_string());
    l.apply_knowledge(vec![Knowledge {
        name: "air_pressure_at_mean_sea_level".to_string(),
        qc: Some(vec![
            (
                "gross_range".to_string(),
                Tree::Dict(vec![
                    (text("name"), text("Gross range")),
                    (text("description"), text("Values inside the sensor span")),
                ]),
            ),
            ("spike".to_string(), Tree::Dict(vec![])),
        ]),
        ..Default::default()
    }]);
    let s = l.get("air_pressure_at_mean_sea_level").unwrap();
    assert_eq!(s.qartod.len(), 2);
    assert_eq!(s.qartod[0].slug, "gross_range");
    assert_eq!(s.qartod[0].name, "Gross range");
    assert_eq!(s.qartod[0].description, "Values inside the sensor span");
    assert_eq!(s.qartod[1].slug, "spike");
    assert_eq!(s.qartod[1].name, "");
    assert!(s.index_strings().contains(&"Gross range".to_string()));
}


