use standard_knowledge::cf::{cf_yaml_to_standards, CfStandard, CfYaml};
use standard_knowledge::knowledge::Knowledge;
use standard_knowledge::standards_library::StandardsLibrary;

/// The CF table fixture: one alias and two standards, keys in order.
fn cf_table() -> CfYaml {
    CfYaml {
        aliases: vec![(
            "air_pressure_at_sea_level".to_string(),
            "air_pressure_at_mean_sea_level".to_string(),
        )],
        standard_names: vec![
            (
                "air_pressure_at_mean_sea_level".to_string(),
                CfStandard {
                    description: "Air pressure at mean sea level".to_string(),
                    unit: "Pa".to_string(),
                },
            ),
            (
                "sea_surface_wave_mean_period".to_string(),
                CfStandard { description: "Mean wave period".to_string(), unit: "s".to_string() },
            ),
        ],
    }
}

fn loaded_library() -> StandardsLibrary {
    let mut library = StandardsLibrary::default();
    library.load_cf_standards(cf_table());
    library
}

#[test]
fn load_cf_standards() {
    let standards = cf_yaml_to_standards(cf_table());
    let pressure = standards
        .iter()
        .find(|s| s.name == "air_pressure_at_mean_sea_level")
        .unwrap()
        .copy();
    assert_eq!(pressure.name, "air_pressure_at_mean_sea_level");

    println!("Name is correct");

    assert!(
        pressure
            .aliases
            .contains(&"air_pressure_at_sea_level".to_string()),
        "The standard `air_pressure_at_mean_sea_level` should contain the alias `air_pressure_at_sea_level`"
    )
}

#[test]
fn can_load_standards() {
    let mut library = StandardsLibrary::default();
    library.load_cf_standards(cf_table());
    assert_eq!(library.standards.len(), 2);
}

#[test]
fn can_get_standard() {
    let library = loaded_library();
    let pressure = library.get("air_pressure_at_mean_sea_level").unwrap();
    assert_eq!(pressure.name, "air_pressure_at_mean_sea_level");
}

#[test]
fn can_get_standard_by_alias() {
    let library = loaded_library();
    let pressure = library.get("air_pressure_at_sea_level").unwrap();
    assert_eq!(pressure.name, "air_pressure_at_mean_sea_level");
}

#[test]
fn can_apply_knowledge() {
    let mut library = loaded_library();
    let pressure = library.get("air_pressure_at_mean_sea_level").unwrap();
    assert_eq!(pressure.name, "air_pressure_at_mean_sea_level");
    assert_eq!(pressure.long_name, None);

    let know = Knowledge {
        name: "air_pressure_at_mean_sea_level".to_string(),
        long_name: Some("Air Pressure at Sea Level".to_string()),
        ..Default::default()
    };

    library.apply_knowledge(vec![know]);

    let updated_pressure = library.get("air_pressure_at_mean_sea_level").unwrap();
    assert_eq!(updated_pressure.name, "air_pressure_at_mean_sea_level");
    assert_eq!(
        updated_pressure.long_name.as_ref().unwrap(),
        "Air Pressure at Sea Level"
    );

    assert_ne!(pressure, updated_pressure);
}

#[test]
fn can_find_by_variable_name() {
    let mut library = loaded_library();
    let know = Knowledge {
        name: "air_pressure_at_mean_sea_level".to_string(),
        long_name: Some("Air Pressure at Sea Level".to_string()),
        common_variable_names: vec!["pressure".to_string()],
        ..Default::default()
    };

    library.apply_knowledge(vec![know]);

    let filtered = library.filter().by_variable_name("pressure");
    let pressure = &filtered.standards[0];
    assert_eq!(pressure.name, "air_pressure_at_mean_sea_level");
}

#[test]
fn can_find_by_variable_name_case_insensitive() {
    let mut library = loaded_library();
    let know = Knowledge {
        name: "air_pressure_at_mean_sea_level".to_string(),
        long_name: Some("Air Pressure at Sea Level".to_string()),
        common_variable_names: vec!["airPressure".to_string()],
        ..Default::default()
    };

    library.apply_knowledge(vec![know]);

    // Should match camelCase with snake_case
    let filtered = library.filter().by_variable_name("air_pressure");
    assert_eq!(filtered.standards.len(), 1);
    assert_eq!(filtered.standards[0].name, "air_pressure_at_mean_sea_level");

    // Should match snake_case with camelCase
    let know2 = Knowledge {
        name: "sea_surface_wave_mean_period".to_string(),
        long_name: Some("Mean Wave Period".to_string()),
        common_variable_names: vec!["mean_period".to_string()],
        ..Default::default()
    };
    library.apply_knowledge(vec![know2]);

    let filtered = library.filter().by_variable_name("meanPeriod");
    assert_eq!(filtered.standards.len(), 1);
    assert_eq!(filtered.standards[0].name, "sea_surface_wave_mean_period");

    // Should match uppercase
    let filtered = library.filter().by_variable_name("AIR_PRESSURE");
    assert_eq!(filtered.standards.len(), 1);
    assert_eq!(filtered.standards[0].name, "air_pressure_at_mean_sea_level");
}
