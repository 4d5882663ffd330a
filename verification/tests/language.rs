use rusty_cleaner::language::{
    all_markers, category_name, classify_entry, detect_language, is_target, EntryKind, Marker,
    Markers,
};

fn with(markers: &[Marker]) -> Markers {
    let mut m = Markers::none();
    for x in markers {
        m = m.with(*x);
    }
    m
}

#[test]
fn rust_target_needs_cargo_toml() {
    assert_eq!(detect_language("target", &with(&[Marker::CargoToml])), Some("Rust"));
    assert_eq!(detect_language("target", &Markers::none()), None);
}

#[test]
fn target_markers_are_tried_in_order() {
    assert_eq!(
        detect_language("target", &with(&[Marker::CargoToml, Marker::PomXml])),
        Some("Rust")
    );
    assert_eq!(detect_language("target", &with(&[Marker::PomXml])), Some("Java (Maven)"));
    assert_eq!(
        detect_language("target", &with(&[Marker::BuildGradle, Marker::BuildSbt])),
        Some("Java (Gradle)")
    );
    assert_eq!(detect_language("target", &with(&[Marker::BuildSbt])), Some("Scala"));
}

#[test]
fn fixed_names_need_no_marker() {
    let none = Markers::none();
    assert_eq!(detect_language("node_modules", &none), Some("JavaScript"));
    assert_eq!(detect_language("__pycache__", &none), Some("Python"));
    assert_eq!(detect_language("_build", &none), Some("Elixir"));
    assert_eq!(detect_language("deps", &none), Some("Elixir"));
    assert_eq!(detect_language(".stack-work", &none), Some("Haskell"));
    assert_eq!(detect_language("dist-newstyle", &none), Some("Haskell"));
    assert_eq!(detect_language("Pods", &none), Some("Swift"));
}

#[test]
fn build_folders() {
    assert_eq!(detect_language("build", &with(&[Marker::BuildGradle])), Some("Java (Gradle)"));
    assert_eq!(detect_language("build", &with(&[Marker::PackageSwift])), Some("Swift"));
    assert_eq!(detect_language("build", &with(&[Marker::CargoToml])), None);
}

#[test]
fn virtual_envs_need_pyvenv_cfg() {
    for name in ["venv", "env", ".venv", ".env"] {
        assert_eq!(detect_language(name, &with(&[Marker::PyvenvCfg])), Some("Python"));
        assert_eq!(detect_language(name, &with(&[Marker::SetupPy])), None);
    }
}

#[test]
fn vendor_and_dist() {
    assert_eq!(detect_language("vendor", &with(&[Marker::ComposerJson])), Some("PHP"));
    assert_eq!(detect_language("vendor", &with(&[Marker::Gemfile])), Some("Ruby"));
    assert_eq!(detect_language("vendor", &Markers::none()), None);
    assert_eq!(detect_language("dist", &with(&[Marker::PackageJson])), Some("JavaScript"));
    assert_eq!(detect_language("dist", &with(&[Marker::PyprojectToml])), Some("Python"));
    assert_eq!(detect_language("dist", &with(&[Marker::SetupPy])), Some("Python"));
    assert_eq!(detect_language("dist", &Markers::none()), None);
}

#[test]
fn unknown_names_have_no_language() {
    assert_eq!(detect_language("src", &with(&[Marker::CargoToml])), None);
    assert_eq!(detect_language("Target", &with(&[Marker::CargoToml])), None);
    assert_eq!(detect_language("", &Markers::none()), None);
}

#[test]
fn category_falls_back_to_folder_name() {
    assert_eq!(category_name("target", &with(&[Marker::CargoToml])), "Rust");
    assert_eq!(category_name(".embuild", &Markers::none()), ".embuild");
    assert_eq!(category_name("dist", &Markers::none()), "dist");
}

#[test]
fn targets_are_the_listed_footprints() {
    for name in [
        "target", ".embuild", "venv", ".venv", "env", ".env", "node_modules", "_build", "deps",
        "vendor", "dist", "__pycache__", ".stack-work", "dist-newstyle", "Pods", "build",
    ] {
        assert!(is_target(name), "{name}");
    }
    for name in ["src", "targets", "Node_modules", "", "tests"] {
        assert!(!is_target(name), "{name}");
    }
}

#[test]
fn entries_are_classified() {
    assert_eq!(classify_entry(Some("target"), true), EntryKind::Target);
    assert_eq!(classify_entry(Some("target"), false), EntryKind::Skip);
    assert_eq!(classify_entry(Some("src"), true), EntryKind::Descend);
    assert_eq!(classify_entry(Some("main.rs"), false), EntryKind::Skip);
    assert_eq!(classify_entry(None, true), EntryKind::Skip);
}

#[test]
fn markers_are_all_listed_once() {
    let all = all_markers();
    assert_eq!(all.len(), 11);
    let names: Vec<&str> = all.iter().map(|m| m.file_name()).collect();
    assert!(names.contains(&"Cargo.toml"));
    assert!(names.contains(&"pyvenv.cfg"));
    assert!(Marker::PyvenvCfg.inside_folder());
    assert!(!Marker::Gemfile.inside_folder());
    let m = Markers::none().with(Marker::Gemfile);
    assert!(m.gemfile);
    assert!(!m.cargo_toml);
}
