use allviewer::config::{
    config_notifications, validate_resource_path, ConfigError, ConfigLocation, Filters,
    Notification, PathError, PathProbe, ResourceConfig, StoreAction, StoreProbe,
};

fn usable() -> PathProbe {
    PathProbe { exists: true, is_dir: true, readable: true }
}

fn config_with(paths: &[&str]) -> ResourceConfig {
    ResourceConfig {
        id: "test".to_string(),
        name: "Test".to_string(),
        filters: Filters {
            include_paths: paths.iter().map(|p| p.to_string()).collect(),
            exclude_paths: Vec::new(),
        },
    }
}

#[test]
fn default_configuration_has_fixed_identity_and_no_paths() {
    let config = ResourceConfig::default();
    assert_eq!(config.id, "allviewer-resources");
    assert_eq!(config.name, "AllViewer画像リソース");
    assert!(config.filters.include_paths.is_empty());
    assert!(config.filters.exclude_paths.is_empty());
}

#[test]
fn default_configuration_is_not_valid() {
    let config = ResourceConfig::default();
    assert!(!config.is_valid(&Vec::new()));
    assert!(!config.is_valid(&vec![usable()]));
}

#[test]
fn missing_file_is_created_with_the_default() {
    let plan = ResourceConfig::ensure_config_exists(StoreProbe {
        parent_missing: false,
        file_exists: false,
    });
    assert_eq!(plan, vec![StoreAction::WriteConfig(ResourceConfig::default())]);
}

#[test]
fn missing_directory_is_created_before_the_file() {
    let plan = ResourceConfig::ensure_config_exists(StoreProbe {
        parent_missing: true,
        file_exists: false,
    });
    assert_eq!(
        plan,
        vec![StoreAction::CreateParentDir, StoreAction::WriteConfig(ResourceConfig::default())]
    );
}

#[test]
fn existing_file_is_left_alone() {
    let plan = ResourceConfig::ensure_config_exists(StoreProbe {
        parent_missing: false,
        file_exists: true,
    });
    assert!(plan.is_empty());
    let plan = ResourceConfig::ensure_config_exists(StoreProbe {
        parent_missing: true,
        file_exists: true,
    });
    assert_eq!(plan, vec![StoreAction::CreateParentDir]);
}

#[test]
fn path_verdict_names_the_first_failing_condition() {
    let p = |exists, is_dir, readable| PathProbe { exists, is_dir, readable };
    assert_eq!(ResourceConfig::validate_path(&p(true, true, true)), Ok(()));
    assert_eq!(ResourceConfig::validate_path(&p(false, false, false)), Err(PathError::NotFound));
    assert_eq!(ResourceConfig::validate_path(&p(false, true, true)), Err(PathError::NotFound));
    assert_eq!(ResourceConfig::validate_path(&p(true, false, false)), Err(PathError::NotADirectory));
    assert_eq!(ResourceConfig::validate_path(&p(true, false, true)), Err(PathError::NotADirectory));
    assert_eq!(ResourceConfig::validate_path(&p(true, true, false)), Err(PathError::Unreadable));
}

#[test]
fn configuration_with_usable_folders_is_valid() {
    let config = config_with(&["/a", "/b"]);
    assert!(config.is_valid(&vec![usable(), usable()]));
}

#[test]
fn one_unusable_folder_makes_the_configuration_invalid() {
    let config = config_with(&["/a", "/b", "/c"]);
    let all = vec![usable(), usable(), usable()];
    assert!(config.is_valid(&all));
    for i in 0..3 {
        for flipped in [
            PathProbe { exists: false, is_dir: true, readable: true },
            PathProbe { exists: true, is_dir: false, readable: true },
            PathProbe { exists: true, is_dir: true, readable: false },
        ] {
            let mut probes = all.clone();
            probes[i] = flipped;
            assert!(!config.is_valid(&probes));
        }
    }
}

#[test]
fn folder_without_observation_is_not_valid() {
    let config = config_with(&["/a", "/b"]);
    assert!(!config.is_valid(&vec![usable()]));
    assert!(!config.is_valid(&Vec::new()));
    assert!(config.is_valid(&vec![usable(), usable(), PathProbe {
        exists: false,
        is_dir: false,
        readable: false,
    }]));
}

#[test]
fn added_path_is_appended_once() {
    let mut config = config_with(&["/a"]);
    assert_eq!(config.add_include_path("/b".to_string(), &usable()), Ok(true));
    assert_eq!(config.filters.include_paths, vec!["/a".to_string(), "/b".to_string()]);
    assert_eq!(config.add_include_path("/b".to_string(), &usable()), Ok(false));
    assert_eq!(config.add_include_path("/a".to_string(), &usable()), Ok(false));
    assert_eq!(config.filters.include_paths, vec!["/a".to_string(), "/b".to_string()]);
    assert_eq!(config.id, "test");
    assert_eq!(config.name, "Test");
    assert!(config.filters.exclude_paths.is_empty());
}

#[test]
fn added_path_is_compared_letter_for_letter() {
    let mut config = config_with(&["/a"]);
    assert_eq!(config.add_include_path("/a/".to_string(), &usable()), Ok(true));
    assert_eq!(config.add_include_path("/A".to_string(), &usable()), Ok(true));
    assert_eq!(config.filters.include_paths.len(), 3);
}

#[test]
fn unusable_path_is_refused_and_changes_nothing() {
    let mut config = config_with(&["/a"]);
    let missing = PathProbe { exists: false, is_dir: false, readable: false };
    let file = PathProbe { exists: true, is_dir: false, readable: false };
    let locked = PathProbe { exists: true, is_dir: true, readable: false };
    assert_eq!(config.add_include_path("/b".to_string(), &missing), Err(PathError::NotFound));
    assert_eq!(config.add_include_path("/b".to_string(), &file), Err(PathError::NotADirectory));
    assert_eq!(config.add_include_path("/b".to_string(), &locked), Err(PathError::Unreadable));
    assert_eq!(config.add_include_path("/a".to_string(), &missing), Err(PathError::NotFound));
    assert_eq!(config, config_with(&["/a"]));
}

#[test]
fn configuration_lies_in_the_application_data_directory() {
    let location = ResourceConfig::get_config_path(
        Some("/data/app".to_string()),
        Some("/opt/app".to_string()),
    );
    assert_eq!(
        location,
        ConfigLocation { dir: "/data/app".to_string(), file_name: "resources.json".to_string() }
    );
}

#[test]
fn configuration_falls_back_to_the_executable_directory() {
    let location = ResourceConfig::get_config_path(None, Some("/opt/app".to_string()));
    assert_eq!(location.dir, "/opt/app");
    assert_eq!(location.file_name, "resources.json");
    let location = ResourceConfig::get_config_path(None, None);
    assert_eq!(location.dir, ".");
    assert_eq!(location.file_name, "resources.json");
}

#[test]
fn valid_configuration_sends_its_status_only() {
    assert_eq!(config_notifications(Ok(true)), vec![Notification::ConfigStatus(true)]);
}

#[test]
fn invalid_configuration_asks_for_paths() {
    assert_eq!(
        config_notifications(Ok(false)),
        vec![Notification::ConfigStatus(false), Notification::ConfigRequired]
    );
}

#[test]
fn failed_load_sends_the_error() {
    for e in [
        ConfigError::MkdirFailed,
        ConfigError::SerializeFailed,
        ConfigError::WriteFailed,
        ConfigError::ReadFailed,
        ConfigError::ParseFailed,
    ] {
        assert_eq!(config_notifications(Err(e)), vec![Notification::ConfigFailed(e)]);
    }
}

#[test]
fn empty_path_is_no_resource_path() {
    assert!(!validate_resource_path("", &usable()));
    assert!(validate_resource_path("/a", &usable()));
    assert!(!validate_resource_path("/a", &PathProbe { exists: true, is_dir: false, readable: true }));
}

#[test]
fn copy_of_a_configuration_equals_it() {
    let mut config = config_with(&["/a", "/b"]);
    config.filters.exclude_paths.push("/c".to_string());
    let copy = config.clone();
    assert_eq!(copy, config);
    assert_eq!(copy.filters.include_paths, vec!["/a".to_string(), "/b".to_string()]);
    assert_eq!(copy.filters.exclude_paths, vec!["/c".to_string()]);
}
