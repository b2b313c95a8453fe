use movefmt::config::EmitMode;
use movefmt::format_run::{
    first_dir_holding, format_step, list_entries_of, package_manifest, should_escape,
    should_escape_not_in_package, FileEvent, FormatAction, FormatRun, ManifestRead,
};
use movefmt::paths::PathComponent;

fn names(v: &[&str]) -> Vec<PathComponent> {
    v.iter().map(|n| PathComponent::Normal(n.to_string())).collect()
}

fn rooted(v: &[&str]) -> Vec<PathComponent> {
    let mut r = vec![PathComponent::RootDir];
    r.extend(names(v));
    r
}

#[test]
fn format_step_skips_reports_and_formats() {
    let run = FormatRun::new();
    assert_eq!(format_step(&run, FileEvent::Missing), (run, FormatAction::ReportMissing));
    assert_eq!(format_step(&run, FileEvent::Directory), (run, FormatAction::ReportDirectory));
    let (r, a) = format_step(
        &run,
        FileEvent::Found { is_specified_file: false, not_in_package: true, escaped_by_config: true },
    );
    assert_eq!(a, FormatAction::SkipNotInPackage);
    assert_eq!(r.skips_cnt_not_belong_to_any_package, 1);
    assert_eq!(r.skips_cnt_expected, 0);
    let (r, a) = format_step(
        &r,
        FileEvent::Found { is_specified_file: false, not_in_package: false, escaped_by_config: true },
    );
    assert_eq!(a, FormatAction::SkipByConfig);
    assert_eq!(r.skips_cnt_expected, 1);
    let (r2, a) = format_step(
        &r,
        FileEvent::Found { is_specified_file: true, not_in_package: true, escaped_by_config: true },
    );
    assert_eq!((r2, a), (r, FormatAction::Format));
}

#[test]
fn format_step_emits_by_mode_and_stops_on_failure() {
    let run = FormatRun::new();
    let done = |option_emit, config_emit, changed| FileEvent::Formatted {
        ok: true,
        option_emit,
        config_emit,
        changed,
    };
    let (r, a) = format_step(&run, done(None, EmitMode::Overwrite, true));
    assert_eq!((r.success_cnt, a), (1, FormatAction::Overwrite));
    let (_, a) = format_step(&run, done(Some(EmitMode::NewFile), EmitMode::Overwrite, true));
    assert_eq!(a, FormatAction::WriteNewFile);
    let (_, a) = format_step(&run, done(Some(EmitMode::Stdout), EmitMode::Diff, false));
    assert_eq!(a, FormatAction::PrintFormatted);
    let (_, a) = format_step(&run, done(None, EmitMode::Diff, true));
    assert_eq!(a, FormatAction::PrintDiff);
    let (_, a) = format_step(&run, done(None, EmitMode::Diff, false));
    assert_eq!(a, FormatAction::Unchanged);
    let failed = FileEvent::Formatted {
        ok: false,
        option_emit: None,
        config_emit: EmitMode::Overwrite,
        changed: false,
    };
    let (r, a) = format_step(&r, failed);
    assert_eq!(a, FormatAction::Fail);
    assert!(r.failed);
    assert_eq!(r.success_cnt, 1);
    assert_eq!(format_step(&r, FileEvent::Missing), (r, FormatAction::Stopped));
    assert_eq!(format_step(&r, done(None, EmitMode::Stdout, true)), (r, FormatAction::Stopped));
}

#[test]
fn package_manifest_of_nearest_package_directory() {
    let mut m = rooted(&["p", "sources"]);
    m.truncate(2);
    m.push(PathComponent::Normal("Move.toml".to_string()));
    assert_eq!(package_manifest(&rooted(&["p", "sources", "a", "x.move"])), Some(m));
    assert_eq!(package_manifest(&names(&["tests", "x.move"])), Some(names(&["Move.toml"])));
    assert_eq!(
        package_manifest(&names(&["a", "examples", "sources", "x.move"])),
        Some(names(&["a", "examples", "Move.toml"]))
    );
    assert_eq!(package_manifest(&rooted(&["a", "x.move"])), None);
    assert_eq!(package_manifest(&rooted(&[])), None);
}

#[test]
fn escape_not_in_package_by_manifest() {
    assert!(!should_escape_not_in_package(false, &None));
    assert!(should_escape_not_in_package(true, &None));
    assert!(should_escape_not_in_package(true, &Some(ManifestRead::Missing)));
    assert!(!should_escape_not_in_package(true, &Some(ManifestRead::Unreadable)));
    let sui = "[dependencies]\nSui = { git = \"https://github.com/MystenLabs/sui.git\" }\n";
    assert!(should_escape_not_in_package(true, &Some(ManifestRead::Text(sui.to_string()))));
    assert!(!should_escape_not_in_package(true, &Some(ManifestRead::Text("[package]".to_string()))));
}

#[test]
fn list_entries_drop_empty_ones() {
    assert_eq!(list_entries_of("a;;b/c;"), vec!["a".to_string(), "b/c".to_string()]);
    assert_eq!(list_entries_of(""), Vec::<String>::new());
    assert_eq!(list_entries_of(";;"), Vec::<String>::new());
    assert_eq!(list_entries_of("x"), vec!["x".to_string()]);
}

#[test]
fn should_escape_by_skipped_directories() {
    let cwd = Some(rooted(&["w"]));
    let file = rooted(&["w", "gen", "build", "x.move"]);
    assert_eq!(should_escape(&file, "other;gen/build", &cwd, true), Some(rooted(&["w", "gen", "build"])));
    assert_eq!(should_escape(&file, "./gen", &cwd, true), Some(rooted(&["w", "gen"])));
    assert_eq!(should_escape(&file, "gen/b", &cwd, true), None);
    assert_eq!(should_escape(&file, "gen", &cwd, false), None);
    assert_eq!(should_escape(&names(&["gen", "x.move"]), "gen", &None, true), Some(names(&["gen"])));
    assert_eq!(
        first_dir_holding(&file, &vec![rooted(&["v"]), rooted(&["w"]), rooted(&["w", "gen"])]),
        Some(1)
    );
    assert_eq!(first_dir_holding(&file, &vec![rooted(&["w", "g"])]), None);
}
