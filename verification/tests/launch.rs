use rcarchive::header::ArchiveHeader;
use rcarchive::launch::{
    is_script_name, launch_decision, style_visibility, ElevationState, LaunchDecision, Visibility,
};

fn header(main_file: &str, style: &str, run_as_admin: bool) -> ArchiveHeader {
    ArchiveHeader {
        extraction_path: "rc_extracted".to_string(),
        main_file: main_file.to_string(),
        resources: Vec::new(),
        execution_style: style.to_string(),
        run_as_admin,
        is_compressed: false,
    }
}

#[test]
fn style_maps_each_directive() {
    assert_eq!(style_visibility("no-window"), Visibility::Hidden);
    assert_eq!(style_visibility("minimized"), Visibility::Minimized);
    assert_eq!(style_visibility("normal"), Visibility::Normal);
    assert_eq!(style_visibility("maximized"), Visibility::Maximized);
}

#[test]
fn style_is_case_insensitive() {
    assert_eq!(style_visibility("No-Window"), Visibility::Hidden);
    assert_eq!(style_visibility("MINIMIZED"), Visibility::Minimized);
    assert_eq!(style_visibility("MaXiMiZeD"), Visibility::Maximized);
    assert_eq!(style_visibility("NORMAL"), Visibility::Normal);
}

#[test]
fn unrecognized_style_falls_back_to_normal() {
    assert_eq!(style_visibility(""), Visibility::Normal);
    assert_eq!(style_visibility("fullscreen"), Visibility::Normal);
    assert_eq!(style_visibility("no window"), Visibility::Normal);
    assert_eq!(style_visibility("minimized "), Visibility::Normal);
}

#[test]
fn script_extensions_detected() {
    assert!(is_script_name("run.bat"));
    assert!(is_script_name("run.cmd"));
    assert!(is_script_name("run.BAT"));
    assert!(is_script_name("run.Cmd"));
    assert!(is_script_name("archive.v1.bat"));
}

#[test]
fn non_scripts_dispatch_directly() {
    assert!(!is_script_name("app.exe"));
    assert!(!is_script_name("batch"));
    assert!(!is_script_name("run."));
    assert!(!is_script_name(".bat"));
    assert!(!is_script_name(""));
    assert!(!is_script_name("bat"));
}

#[test]
fn elevation_gates_admin_launches() {
    let h = header("app.exe", "normal", true);
    assert_eq!(
        launch_decision(&h, ElevationState::NotElevated),
        LaunchDecision::AbortNeedsAdmin
    );
    assert_eq!(
        launch_decision(&h, ElevationState::QueryFailed),
        LaunchDecision::AbortNeedsAdmin
    );
    assert_eq!(
        launch_decision(&h, ElevationState::Elevated),
        LaunchDecision::Run { interpreter: false, visibility: Visibility::Normal }
    );
}

#[test]
fn plain_launches_ignore_elevation() {
    let h = header("setup.CMD", "No-Window", false);
    assert_eq!(
        launch_decision(&h, ElevationState::QueryFailed),
        LaunchDecision::Run { interpreter: true, visibility: Visibility::Hidden }
    );
    assert_eq!(
        launch_decision(&h, ElevationState::NotElevated),
        LaunchDecision::Run { interpreter: true, visibility: Visibility::Hidden }
    );
}
