use standard_knowledge::standard::{QcSuite, Standard};
use standard_knowledge::tree::Tree;

fn bare(name: &str, unit: &str) -> Standard {
    Standard {
        name: name.to_string(),
        long_name: None,
        unit: unit.to_string(),
        description: String::new(),
        aliases: Vec::new(),
        ioos_category: None,
        common_variable_names: Vec::new(),
        related_standards: Vec::new(),
        sibling_standards: Vec::new(),
        extra_attrs: Vec::new(),
        other_units: Vec::new(),
        comments: None,
        qartod: Vec::new(),
    }
}

#[test]
fn can_match_standard_by_long_name() {
    let standard = Standard {
        name: "air_pressure_at_mean_sea_level".to_string(),
        long_name: None,
        unit: "Pa".to_string(),
        description: "A quick note".to_string(),
        aliases: Vec::new(),
        ioos_category: Some("Meteorology".to_string()),
        common_variable_names: Vec::new(),
        related_standards: Vec::new(),
        sibling_standards: Vec::new(),
        extra_attrs: Vec::new(),
        other_units: Vec::new(),
        comments: None,
        qartod: Vec::new(),
    };

    assert!(
        standard.matches_pattern("Met"),
        "Should be able to find met within the standard",
    );

    assert!(
        !standard.matches_pattern("Nothing"),
        "Shouldn't match something random"
    );
}

#[test]
fn matches_pattern_looks_in_lists_and_comments() {
    let mut s = bare("sea_water_temperature", "K");
    assert!(!s.matches_pattern("thermo"));
    s.other_units = vec!["degC".to_string()];
    assert!(s.matches_pattern("DEGC"));
    s.comments = Some("Measured by a Thermometer".to_string());
    assert!(s.matches_pattern("thermo"));
    s.sibling_standards = vec!["salinity".to_string()];
    assert!(!s.matches_pattern("salinity"));
    s.related_standards = vec!["salinity".to_string()];
    assert!(s.matches_pattern("salinity"));
}

#[test]
fn display_short_with_and_without_long_name() {
    let mut s = bare("air_pressure_at_mean_sea_level", "Pa");
    assert_eq!(s.display_short(), "air_pressure_at_mean_sea_level - Pa");
    s.long_name = Some("Air Pressure".to_string());
    assert_eq!(
        s.display_short(),
        "air_pressure_at_mean_sea_level - Air Pressure - Pa"
    );
}

#[test]
fn xarray_attrs_in_key_order_with_extras_over_them() {
    let mut s = bare("air_pressure_at_mean_sea_level", "Pa");
    s.long_name = Some("Air Pressure".to_string());
    s.ioos_category = Some(String::new());
    s.extra_attrs = vec![
        ("coverage_content_type".to_string(), "physicalMeasurement".to_string()),
        ("units".to_string(), "hPa".to_string()),
    ];
    let attrs = s.xarray_attrs();
    assert_eq!(
        attrs,
        vec![
            ("coverage_content_type".to_string(), "physicalMeasurement".to_string()),
            ("long_name".to_string(), "Air Pressure".to_string()),
            ("standard_name".to_string(), "air_pressure_at_mean_sea_level".to_string()),
            ("units".to_string(), "hPa".to_string()),
        ]
    );
}

#[test]
fn xarray_attrs_leave_out_empty_unit() {
    let s = bare("x", "");
    assert_eq!(
        s.xarray_attrs(),
        vec![("standard_name".to_string(), "x".to_string())]
    );
}

#[test]
fn display_xarray_attrs_lists_each_attribute() {
    let mut s = bare("air_pressure_at_mean_sea_level", "Pa");
    s.ioos_category = Some("Meteorology".to_string());
    assert_eq!(
        s.display_xarray_attrs(),
        "{\n  \"ioos_category\": \"Meteorology\",\n  \"standard_name\": \"air_pressure_at_mean_sea_level\",\n  \"units\": \"Pa\",\n}"
    );
}

#[test]
fn display_all_shows_every_field_given() {
    let mut s = bare("air_pressure_at_mean_sea_level", "Pa");
    s.long_name = Some("Air Pressure".to_string());
    s.description = "Pressure of the air.".to_string();
    s.aliases = vec!["air_pressure_at_sea_level".to_string()];
    s.ioos_category = Some("Meteorology".to_string());
    s.common_variable_names = vec!["pressure".to_string(), "baro".to_string()];
    s.related_standards = vec!["air_pressure".to_string()];
    s.sibling_standards = vec!["wind_speed".to_string(), "air_temperature".to_string()];
    s.extra_attrs = vec![("a".to_string(), "b".to_string())];
    s.other_units = vec!["hPa".to_string(), "mbar".to_string()];
    s.comments = Some("Usually from a barometer.".to_string());
    let expected = "air_pressure_at_mean_sea_level - Air Pressure - Pa\
\n  Aliases: air_pressure_at_sea_level\
\n  IOOS Category: Meteorology\
\n  Common variables:\n  - pressure\n  - baro\
\n  Related standards: air_pressure\
\n  Sibling standards: wind_speed, air_temperature\
\n  Extra attributes:\
\n    {\
\n      \"a\": \"b\",\
\n      \"ioos_category\": \"Meteorology\",\
\n      \"long_name\": \"Air Pressure\",\
\n      \"standard_name\": \"air_pressure_at_mean_sea_level\",\
\n      \"units\": \"Pa\",\
\n    }\
\n  Other units: hPa, mbar\
\n\nPressure of the air.\
\n\nComments: Usually from a barometer.";
    assert_eq!(s.display_all(), expected);
}

#[test]
fn display_all_of_a_bare_standard() {
    let mut s = bare("x", "m");
    s.description = "D".to_string();
    assert_eq!(s.display_all(), "x - m\n\nD");
}

#[test]
fn index_strings_leave_out_empty_fields() {
    let mut s = bare("x", "m");
    s.long_name = Some(String::new());
    s.comments = Some("c".to_string());
    s.aliases = vec!["y".to_string()];
    s.extra_attrs = vec![("k".to_string(), "v".to_string())];
    s.other_units = vec!["cm".to_string()];
    assert_eq!(
        s.index_strings(),
        vec![
            "x".to_string(),
            "m".to_string(),
            "c".to_string(),
            "y".to_string(),
            "k".to_string(),
            "cm".to_string(),
        ]
    );
}

#[test]
fn standards_equal_by_fields_and_suite_count() {
    let a = bare("x", "m");
    let mut b = bare("x", "m");
    assert!(a == b);
    b.qartod.push(QcSuite { slug: "gross_range".to_string(), name: String::new(), description: String::new(), config: Tree::Null });
    assert!(a != b);
    let c = b.copy();
    assert!(b == c);
    assert_eq!(c.qartod[0].slug, "gross_range");
}

#[test]
fn default_standard_is_empty_and_clones_keep_fields() {
    let d = Standard::default();
    assert_eq!(d.name, "");
    assert!(d.long_name.is_none());
    assert!(d.extra_attrs.is_empty());
    assert!(d.qartod.is_empty());
    let mut s = bare("x", "m");
    s.qartod.push(QcSuite { slug: "flat_line".to_string(), name: String::new(), description: String::new(), config: Tree::List(vec![Tree::Bool(true)]) });
    let c = s.clone();
    assert!(c == s);
    assert_eq!(c.qartod[0].slug, "flat_line");
    assert!(matches!(&c.qartod[0].config, Tree::List(v) if v.len() == 1));
}

#[test]
fn an_extra_standard_name_attribute_wins() {
    let mut s = bare("x", "m");
    s.extra_attrs = vec![("standard_name".to_string(), "y".to_string())];
    assert_eq!(
        s.xarray_attrs(),
        vec![
            ("standard_name".to_string(), "y".to_string()),
            ("units".to_string(), "m".to_string()),
        ]
    );
}

#[test]
fn index_strings_give_suite_names_then_descriptions() {
    let mut s = bare("", "");
    s.qartod = vec![
        QcSuite {
            slug: "gross_range".to_string(),
            name: "Gross range".to_string(),
            description: "Values inside the sensor span".to_string(),
            config: Tree::Null,
        },
        QcSuite {
            slug: "spike".to_string(),
            name: "Spike".to_string(),
            description: "Single point jumps".to_string(),
            config: Tree::Null,
        },
    ];
    assert_eq!(
        s.index_strings(),
        vec![
            "Gross range".to_string(),
            "Spike".to_string(),
            "Values inside the sensor span".to_string(),
            "Single point jumps".to_string(),
        ]
    );
}

#[test]
fn the_empty_pattern_matches_every_standard() {
    assert!(bare("", "").matches_pattern(""));
    assert!(bare("x", "m").matches_pattern(""));
}

#[test]
fn search_ignores_ascii_case() {
    let mut s = bare("air_pressure_at_mean_sea_level", "Pa");
    s.ioos_category = Some("Meteorology".to_string());
    for q in ["met", "Met", "AIR_Pressure", "pa", "nothing"] {
        assert_eq!(s.matches_pattern(q), s.matches_pattern(&q.to_uppercase()));
        assert_eq!(s.matches_pattern(q), s.matches_pattern(&q.to_lowercase()));
    }
    assert!(s.matches_pattern("METEOROLOGY"));
}
