use cfnupd::locations::{allocate_scratch, CfnLocations};
use cfnupd::params::{normalize_parameter, to_remote, ParamJson, RawParameter};

#[test]
fn init_builds_exact_paths() {
    let locations = CfnLocations::init("/tmp", &"web-app".to_string(), "a1b2c3d4e5");
    assert_eq!(locations.tmp_directory, "/tmp/web-app-a1b2c3d4e5");
    assert_eq!(locations.tmp_cfn_template_location, "/tmp/web-app-a1b2c3d4e5/web-app.yaml");
    assert_eq!(
        locations.tmp_cfn_parameters_location,
        "/tmp/web-app-a1b2c3d4e5/parameters.json"
    );
    assert_eq!(locations.target_directory, "web-app");
    assert_eq!(locations.target_cfn_template_location, "web-app/web-app.yaml");
    assert_eq!(locations.target_cfn_parameters_location, "web-app/parameters.json");
}

#[test]
fn scratch_directories_are_unique_per_run() {
    let name = "web-app".to_string();
    let a = allocate_scratch("/tmp", &name);
    let b = allocate_scratch("/tmp", &name);
    assert_ne!(a.tmp_directory, b.tmp_directory);
    assert_ne!(a.tmp_cfn_template_location, b.tmp_cfn_template_location);
    assert_ne!(a.tmp_cfn_parameters_location, b.tmp_cfn_parameters_location);
    // the durable locations do not depend on the run
    assert_eq!(a.target_directory, b.target_directory);
}

#[test]
fn scratch_suffix_is_ten_alphanumerics() {
    let name = "s".to_string();
    let locations = allocate_scratch("/tmp", &name);
    let suffix = locations
        .tmp_directory
        .strip_prefix("/tmp/s-")
        .expect("the scratch directory must carry the stack name");
    assert_eq!(suffix.chars().count(), 10);
    assert!(suffix.chars().all(|c| c.is_ascii_alphanumeric()));
}

#[test]
fn normalize_substitutes_defaults() {
    let p = normalize_parameter(RawParameter {
        parameter_key: None,
        parameter_value: None,
        use_previous_value: None,
        resolved_value: None,
    });
    assert_eq!(p.parameter_key, "N/A");
    assert_eq!(p.parameter_value, "N/A");
    assert!(!p.use_previous_value);
    assert_eq!(p.resolved_value, "N/A");

    let q = normalize_parameter(RawParameter {
        parameter_key: Some("K".to_string()),
        parameter_value: Some("V".to_string()),
        use_previous_value: Some(true),
        resolved_value: Some("R".to_string()),
    });
    assert_eq!(q.parameter_key, "K");
    assert_eq!(q.parameter_value, "V");
    assert!(q.use_previous_value);
    assert_eq!(q.resolved_value, "R");
}

#[test]
fn to_remote_carries_every_field_through() {
    let records = vec![
        ParamJson {
            parameter_key: "A".to_string(),
            parameter_value: "1".to_string(),
            use_previous_value: true,
            resolved_value: "r1".to_string(),
        },
        ParamJson {
            parameter_key: "B".to_string(),
            parameter_value: "2".to_string(),
            use_previous_value: false,
            resolved_value: "r2".to_string(),
        },
    ];
    let remote = to_remote(records);
    assert_eq!(remote.len(), 2);
    assert_eq!(remote[0].parameter_key, "A");
    assert_eq!(remote[0].parameter_value, "1");
    assert!(remote[0].use_previous_value);
    assert_eq!(remote[0].resolved_value, "r1");
    assert_eq!(remote[1].parameter_key, "B");
    assert_eq!(remote[1].parameter_value, "2");
    assert!(!remote[1].use_previous_value);
    assert_eq!(remote[1].resolved_value, "r2");
}
