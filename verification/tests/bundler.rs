use mix_link::bundler::{
    get_cargo_package_version, get_formatted_cargo_package_version, get_profile,
    get_project_identifier, get_target_directory, get_target_directory_for_current_profile,
    get_workspace_root, CargoMetadata, CargoPackage,
};

fn sample_metadata() -> CargoMetadata {
    CargoMetadata {
        target_directory: String::from("/work/repo/target"),
        workspace_root: String::from("/work/repo"),
        packages: vec![
            CargoPackage { name: String::from("nomos-node"), version: String::from("\"0.1.0\"") },
            CargoPackage { name: String::from("nomos-cli"), version: String::from("\"0.3.2\"") },
            CargoPackage { name: String::from("nomos-node"), version: String::from("\"9.9.9\"") },
        ],
    }
}

#[test]
fn target_directory_is_read_back() {
    assert_eq!(get_target_directory(&sample_metadata()), "/work/repo/target");
}

#[test]
fn workspace_root_is_read_back() {
    assert_eq!(get_workspace_root(&sample_metadata()), "/work/repo");
}

#[test]
fn profile_names() {
    assert_eq!(get_profile(true), "debug");
    assert_eq!(get_profile(false), "release");
}

#[test]
fn project_identifier_is_reverse_domain() {
    assert_eq!(get_project_identifier("nomos-node"), "com.nomos.nomos-node");
}

#[test]
fn first_package_of_the_name_answers() {
    assert_eq!(
        get_cargo_package_version(&sample_metadata(), "nomos-node"),
        "\"0.1.0\""
    );
    assert_eq!(
        get_cargo_package_version(&sample_metadata(), "nomos-cli"),
        "\"0.3.2\""
    );
}

#[test]
fn formatted_version_strips_quotes_and_prefixes_v() {
    assert_eq!(
        get_formatted_cargo_package_version(&sample_metadata(), "nomos-node"),
        "v0.1.0"
    );
}

#[test]
fn profile_directory_under_target_triple() {
    let path = get_target_directory_for_current_profile(
        &sample_metadata(),
        "x86_64-unknown-linux-gnu",
        true,
        true,
        false,
    );
    assert_eq!(
        path,
        Ok(String::from("/work/repo/target/x86_64-unknown-linux-gnu/debug"))
    );
}

#[test]
fn profile_directory_local_layout() {
    let path = get_target_directory_for_current_profile(
        &sample_metadata(),
        "x86_64-unknown-linux-gnu",
        false,
        false,
        true,
    );
    assert_eq!(path, Ok(String::from("/work/repo/target/release")));
}

#[test]
fn missing_profile_directory_is_an_error() {
    let path = get_target_directory_for_current_profile(
        &sample_metadata(),
        "x86_64-unknown-linux-gnu",
        false,
        false,
        false,
    );
    assert_eq!(
        path,
        Err(String::from("Could not find target directory for profile."))
    );
}
