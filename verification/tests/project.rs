use shapemaker::project::{
    chosen_command, editor_command, is_watched, main_template, video_settings, watch_directory,
    CliCommand, VideoSettings,
};

#[test]
fn new_comes_before_every_other_command() {
    assert_eq!(chosen_command(true, true, true, true, true, true), CliCommand::New);
    assert_eq!(chosen_command(false, true, true, true, true, true), CliCommand::Watch);
    assert_eq!(chosen_command(false, false, true, true, true, true), CliCommand::TestVideo);
}

#[test]
fn beacon_needs_start_or_ping() {
    assert_eq!(chosen_command(false, false, false, true, true, true), CliCommand::BeaconStart);
    assert_eq!(chosen_command(false, false, false, true, false, true), CliCommand::BeaconPing);
    assert_eq!(chosen_command(false, false, false, true, false, false), CliCommand::Nothing);
    assert_eq!(chosen_command(false, false, false, false, true, true), CliCommand::Nothing);
}

#[test]
fn watching_defaults_to_the_current_directory() {
    assert_eq!(watch_directory(""), ".");
    assert_eq!(watch_directory("my-art"), "my-art");
}

#[test]
fn only_rust_sources_are_watched() {
    assert!(is_watched(Some("rs")));
    assert!(!is_watched(Some("toml")));
    assert!(!is_watched(Some("")));
    assert!(!is_watched(None));
}

#[test]
fn main_template_renders_to_the_project_name() {
    assert_eq!(
        main_template("sunset"),
        "use shapemaker::*;\nuse rand;\n\npub fn main() {\n    let mut canvas = Canvas::new(vec![]);\n\n    // Make your canvas beautiful <3\n\n    canvas.render_to_png(\"sunset.png\", 2000).unwrap();\n}"
    );
}

#[test]
fn editor_falls_back_to_code() {
    assert_eq!(editor_command(Some("vim".to_string()), Some("nano".to_string())), "vim");
    assert_eq!(editor_command(None, Some("nano".to_string())), "nano");
    assert_eq!(editor_command(None, None), "code");
}

#[test]
fn video_settings_from_seconds() {
    assert_eq!(
        video_settings(Some(12), Some(3), None, None),
        VideoSettings {
            duration_override: Some(12_000),
            start_rendering_at: 3_000,
            resolution: 1920,
            fps: 30
        }
    );
    assert_eq!(
        video_settings(None, None, Some(720), Some(60)),
        VideoSettings { duration_override: None, start_rendering_at: 0, resolution: 720, fps: 60 }
    );
}
