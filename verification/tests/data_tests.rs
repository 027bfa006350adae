use rauk::cli::{get_analysis_paths, CliError};
use rauk::metadata::{get_metadata_path, get_rauk_output_path, ArtifactDetail, OutputInfo, RaukMetadata};
use rauk::settings::{FlashInput, General, MeasureInput, RaukSettings};

fn measure_input() -> MeasureInput {
    MeasureInput {
        bin: Some("app".to_string()),
        example: None,
        release: false,
        chip: None,
        halt_timeout: None,
        dwarf: None,
        ktests: None,
    }
}

#[test]
fn missing_input_is_taken_from_settings() {
    let settings = RaukSettings {
        general: Some(General {
            no_patch: None,
            chip: Some("stm32f401re".to_string()),
            target: Some("thumbv7em-none-eabi".to_string()),
            halt_timeout: Some(5),
        }),
    };
    let mut input = measure_input();
    input.get_missing_input(&settings);
    assert_eq!(input.chip, Some("stm32f401re".to_string()));
    assert_eq!(input.halt_timeout, Some(5));

    let mut flash = FlashInput {
        bin: Some("app".to_string()),
        example: None,
        release: true,
        target: None,
        chip: Some("already".to_string()),
        halt_timeout: None,
    };
    flash.get_missing_input(&settings);
    assert_eq!(flash.target, Some("thumbv7em-none-eabi".to_string()));
    // Given input wins over the settings.
    assert_eq!(flash.chip, Some("already".to_string()));
}

#[test]
fn empty_settings_change_nothing() {
    let settings = RaukSettings::new();
    let mut input = measure_input();
    input.get_missing_input(&settings);
    assert_eq!(input.chip, None);
    assert_eq!(input.halt_timeout, None);
}

#[test]
fn analysis_paths_prefer_the_input_and_report_what_is_missing() {
    let mut input = measure_input();
    input.dwarf = Some("from/input".to_string());
    let metadata_dwarf = "from/metadata".to_string();
    let metadata_ktest = "ktests/".to_string();

    let (d, k) = get_analysis_paths(&input, Some(&metadata_dwarf), Some(&metadata_ktest)).unwrap();
    assert_eq!(d, "from/input");
    assert_eq!(k, "ktests/");

    let bare = measure_input();
    assert_eq!(
        get_analysis_paths(&bare, None, Some(&metadata_ktest)),
        Err(CliError::MissingDwarfPath)
    );
    assert_eq!(
        get_analysis_paths(&bare, Some(&metadata_dwarf), None),
        Err(CliError::MissingKtestPath)
    );
}

#[test]
fn output_paths_are_joined_from_the_project_directory() {
    assert_eq!(get_rauk_output_path("/proj"), "/proj/target/rauk");
    assert_eq!(
        get_metadata_path("/proj"),
        "/proj/target/rauk/rauk_metadata.json"
    );
}

#[test]
fn artifact_details_are_kept_per_name_and_mode() {
    let mut metadata = RaukMetadata::new("/proj");
    assert_eq!(metadata.project_directory, "/proj");
    assert_eq!(metadata.rauk_output_directory, "/proj/target/rauk");
    assert!(!metadata.previous_execution.gracefully_terminated);

    let name = "app".to_string();
    assert!(metadata.get_artifact_detail(&name, true, false).is_none());

    let mut detail = ArtifactDetail::new();
    detail.flash_output = Some(OutputInfo::new(Some("/proj/bin".to_string())));
    metadata.insert(&name, detail, true, false);

    let found = metadata.get_artifact_detail(&name, true, false).unwrap();
    assert_eq!(found.get_dwarf_path(), Some(&"/proj/bin".to_string()));
    assert_eq!(found.get_ktest_path(), None);
    // The same name under another mode is a different slot.
    assert!(metadata.get_artifact_detail(&name, false, false).is_none());

    let mut newer = ArtifactDetail::new();
    newer.generate_output = Some(OutputInfo::new(Some("/proj/klee".to_string())));
    metadata.insert(&name, newer, true, false);
    let found = metadata.get_artifact_detail(&name, true, false).unwrap();
    assert_eq!(found.get_ktest_path(), Some(&"/proj/klee".to_string()));
    assert_eq!(found.get_dwarf_path(), None);
}
