//! Which folders are build outputs or package stores, and which language
//! left them behind.

use vstd::prelude::*;
use crate::text::same_text;

verus! {

/// A file whose presence tells which tool made a folder. All of them are
/// looked for beside the folder (in its parent), except `pyvenv.cfg`, which
/// is looked for inside it.
#[derive(Clone, Copy, Debug, PartialEq, Eq, Structural)]
pub enum Marker {
    CargoToml,
    PomXml,
    BuildGradle,
    BuildSbt,
    PackageSwift,
    ComposerJson,
    Gemfile,
    PackageJson,
    PyprojectToml,
    SetupPy,
    PyvenvCfg,
}

impl Marker {
    pub open spec fn spec_file_name(self) -> Seq<char> {
        match self {
            Marker::CargoToml => "Cargo.toml"@,
            Marker::PomXml => "pom.xml"@,
            Marker::BuildGradle => "build.gradle"@,
            Marker::BuildSbt => "build.sbt"@,
            Marker::PackageSwift => "Package.swift"@,
            Marker::ComposerJson => "composer.json"@,
            Marker::Gemfile => "Gemfile"@,
            Marker::PackageJson => "package.json"@,
            Marker::PyprojectToml => "pyproject.toml"@,
            Marker::SetupPy => "setup.py"@,
            Marker::PyvenvCfg => "pyvenv.cfg"@,
        }
    }

    /// The name of the marker file.
    pub fn file_name(self) -> (r: &'static str)
        ensures
            r@ == self.spec_file_name(),
    {
        match self {
            Marker::CargoToml => "Cargo.toml",
            Marker::PomXml => "pom.xml",
            Marker::BuildGradle => "build.gradle",
            Marker::BuildSbt => "build.sbt",
            Marker::PackageSwift => "Package.swift",
            Marker::ComposerJson => "composer.json",
            Marker::Gemfile => "Gemfile",
            Marker::PackageJson => "package.json",
            Marker::PyprojectToml => "pyproject.toml",
            Marker::SetupPy => "setup.py",
            Marker::PyvenvCfg => "pyvenv.cfg",
        }
    }

    /// Whether the marker is looked for inside the folder rather than beside it.
    pub fn inside_folder(self) -> (r: bool)
        ensures
            r == (self == Marker::PyvenvCfg),
    {
        match self {
            Marker::PyvenvCfg => true,
            _ => false,
        }
    }
}

/// Every marker, each once.
pub fn all_markers() -> (r: Vec<Marker>)
    ensures
        r@.len() == 11,
        r@.no_duplicates(),
        forall|m: Marker| r@.contains(m),
{
    let r = vec![
        Marker::CargoToml,
        Marker::PomXml,
        Marker::BuildGradle,
        Marker::BuildSbt,
        Marker::PackageSwift,
        Marker::ComposerJson,
        Marker::Gemfile,
        Marker::PackageJson,
        Marker::PyprojectToml,
        Marker::SetupPy,
        Marker::PyvenvCfg,
    ];
    proof {
        assert forall|m: Marker| r@.contains(m) by {
            match m {
                Marker::CargoToml => assert(r@[0] == m),
                Marker::PomXml => assert(r@[1] == m),
                Marker::BuildGradle => assert(r@[2] == m),
                Marker::BuildSbt => assert(r@[3] == m),
                Marker::PackageSwift => assert(r@[4] == m),
                Marker::ComposerJson => assert(r@[5] == m),
                Marker::Gemfile => assert(r@[6] == m),
                Marker::PackageJson => assert(r@[7] == m),
                Marker::PyprojectToml => assert(r@[8] == m),
                Marker::SetupPy => assert(r@[9] == m),
                Marker::PyvenvCfg => assert(r@[10] == m),
            }
        }
    }
    r
}

/// The marker files found for one folder.
#[derive(Clone, Copy, Debug, PartialEq, Eq, Structural)]
pub struct Markers {
    pub cargo_toml: bool,
    pub pom_xml: bool,
    pub build_gradle: bool,
    pub build_sbt: bool,
    pub package_swift: bool,
    pub composer_json: bool,
    pub gemfile: bool,
    pub package_json: bool,
    pub pyproject_toml: bool,
    pub setup_py: bool,
    pub pyvenv_cfg: bool,
}

impl Markers {
    pub open spec fn spec_has(self, m: Marker) -> bool {
        match m {
            Marker::CargoToml => self.cargo_toml,
            Marker::PomXml => self.pom_xml,
            Marker::BuildGradle => self.build_gradle,
            Marker::BuildSbt => self.build_sbt,
            Marker::PackageSwift => self.package_swift,
            Marker::ComposerJson => self.composer_json,
            Marker::Gemfile => self.gemfile,
            Marker::PackageJson => self.package_json,
            Marker::PyprojectToml => self.pyproject_toml,
            Marker::SetupPy => self.setup_py,
            Marker::PyvenvCfg => self.pyvenv_cfg,
        }
    }

    /// No marker found.
    pub fn none() -> (r: Markers)
        ensures
            forall|m: Marker| !r.spec_has(m),
    {
        Markers {
            cargo_toml: false,
            pom_xml: false,
            build_gradle: false,
            build_sbt: false,
            package_swift: false,
            composer_json: false,
            gemfile: false,
            package_json: false,
            pyproject_toml: false,
            setup_py: false,
            pyvenv_cfg: false,
        }
    }

    /// The same findings, with `m` found as well.
    pub fn with(self, m: Marker) -> (r: Markers)
        ensures
            r.spec_has(m),
            forall|o: Marker| o != m ==> r.spec_has(o) == self.spec_has(o),
    {
        let mut r = self;
        match m {
            Marker::CargoToml => r.cargo_toml = true,
            Marker::PomXml => r.pom_xml = true,
            Marker::BuildGradle => r.build_gradle = true,
            Marker::BuildSbt => r.build_sbt = true,
            Marker::PackageSwift => r.package_swift = true,
            Marker::ComposerJson => r.composer_json = true,
            Marker::Gemfile => r.gemfile = true,
            Marker::PackageJson => r.package_json = true,
            Marker::PyprojectToml => r.pyproject_toml = true,
            Marker::SetupPy => r.setup_py = true,
            Marker::PyvenvCfg => r.pyvenv_cfg = true,
        }
        r
    }
}

/// The folder names that are build outputs or package stores.
pub open spec fn spec_is_target(name: Seq<char>) -> bool {
    ||| name == "target"@
    ||| name == ".embuild"@
    ||| name == "venv"@
    ||| name == ".venv"@
    ||| name == "env"@
    ||| name == ".env"@
    ||| name == "node_modules"@
    ||| name == "_build"@
    ||| name == "deps"@
    ||| name == "vendor"@
    ||| name == "dist"@
    ||| name == "__pycache__"@
    ||| name == ".stack-work"@
    ||| name == "dist-newstyle"@
    ||| name == "Pods"@
    ||| name == "build"@
}

/// The language that left a folder of the given name, judged by its markers.
pub open spec fn spec_language(name: Seq<char>, m: Markers) -> Option<Seq<char>> {
    if name == "node_modules"@ {
        Some("JavaScript"@)
    } else if name == "__pycache__"@ {
        Some("Python"@)
    } else if name == "_build"@ || name == "deps"@ {
        Some("Elixir"@)
    } else if name == ".stack-work"@ || name == "dist-newstyle"@ {
        Some("Haskell"@)
    } else if name == "Pods"@ {
        Some("Swift"@)
    } else if name == "target"@ {
        if m.cargo_toml {
            Some("Rust"@)
        } else if m.pom_xml {
            Some("Java (Maven)"@)
        } else if m.build_gradle {
            Some("Java (Gradle)"@)
        } else if m.build_sbt {
            Some("Scala"@)
        } else {
            None
        }
    } else if name == "build"@ {
        if m.build_gradle {
            Some("Java (Gradle)"@)
        } else if m.package_swift {
            Some("Swift"@)
        } else {
            None
        }
    } else if name == "venv"@ || name == "env"@ || name == ".venv"@ || name == ".env"@ {
        if m.pyvenv_cfg {
            Some("Python"@)
        } else {
            None
        }
    } else if name == "vendor"@ {
        if m.composer_json {
            Some("PHP"@)
        } else if m.gemfile {
            Some("Ruby"@)
        } else {
            None
        }
    } else if name == "dist"@ {
        if m.package_json {
            Some("JavaScript"@)
        } else if m.pyproject_toml || m.setup_py {
            Some("Python"@)
        } else {
            None
        }
    } else {
        None
    }
}

/// The name of the group a target folder is listed under: its language
/// when one is recognised, else the folder's own name.
pub open spec fn spec_category(name: Seq<char>, m: Markers) -> Seq<char> {
    match spec_language(name, m) {
        Some(l) => l,
        None => name,
    }
}

/// Whether a folder of this name is a build output or package store.
pub fn is_target(name: &str) -> (r: bool)
    ensures
        r == spec_is_target(name@),
{
    same_text(name, "target") || same_text(name, ".embuild") || same_text(name, "venv")
        || same_text(name, ".venv") || same_text(name, "env") || same_text(name, ".env")
        || same_text(name, "node_modules") || same_text(name, "_build") || same_text(name, "deps")
        || same_text(name, "vendor") || same_text(name, "dist") || same_text(name, "__pycache__")
        || same_text(name, ".stack-work") || same_text(name, "dist-newstyle") || same_text(
        name,
        "Pods",
    ) || same_text(name, "build")
}

/// The language that left the folder `file_name`, judged by the marker
/// files found beside it and inside it.
pub fn detect_language(file_name: &str, markers: &Markers) -> (r: Option<&'static str>)
    ensures
        r is None <==> spec_language(file_name@, *markers) is None,
        r matches Some(l) ==> spec_language(file_name@, *markers) == Some(l@),
{
    if same_text(file_name, "node_modules") {
        Some("JavaScript")
    } else if same_text(file_name, "__pycache__") {
        Some("Python")
    } else if same_text(file_name, "_build") || same_text(file_name, "deps") {
        Some("Elixir")
    } else if same_text(file_name, ".stack-work") || same_text(file_name, "dist-newstyle") {
        Some("Haskell")
    } else if same_text(file_name, "Pods") {
        Some("Swift")
    } else if same_text(file_name, "target") {
        if markers.cargo_toml {
            Some("Rust")
        } else if markers.pom_xml {
            Some("Java (Maven)")
        } else if markers.build_gradle {
            Some("Java (Gradle)")
        } else if markers.build_sbt {
            Some("Scala")
        } else {
            None
        }
    } else if same_text(file_name, "build") {
        if markers.build_gradle {
            Some("Java (Gradle)")
        } else if markers.package_swift {
            Some("Swift")
        } else {
            None
        }
    } else if same_text(file_name, "venv") || same_text(file_name, "env") || same_text(
        file_name,
        ".venv",
    ) || same_text(file_name, ".env") {
        if markers.pyvenv_cfg {
            Some("Python")
        } else {
            None
        }
    } else if same_text(file_name, "vendor") {
        if markers.composer_json {
            Some("PHP")
        } else if markers.gemfile {
            Some("Ruby")
        } else {
            None
        }
    } else if same_text(file_name, "dist") {
        if markers.package_json {
            Some("JavaScript")
        } else if markers.pyproject_toml || markers.setup_py {
            Some("Python")
        } else {
            None
        }
    } else {
        None
    }
}

/// The group a target folder is listed under.
pub fn category_name(file_name: &str, markers: &Markers) -> (r: String)
    ensures
        r@ == spec_category(file_name@, *markers),
{
    match detect_language(file_name, markers) {
        Some(l) => l.to_owned(),
        None => file_name.to_owned(),
    }
}

/// What the scan does with one entry of a folder.
#[derive(Clone, Copy, Debug, PartialEq, Eq, Structural)]
pub enum EntryKind {
    /// Passed over: not a folder, or a name that is not valid text.
    Skip,
    /// A target folder: recorded, and not searched further.
    Target,
    /// Any other folder: searched.
    Descend,
}

pub open spec fn spec_entry_kind(name: Option<Seq<char>>, is_dir: bool) -> EntryKind {
    match name {
        None => EntryKind::Skip,
        Some(n) => if spec_is_target(n) && is_dir {
            EntryKind::Target
        } else if is_dir {
            EntryKind::Descend
        } else {
            EntryKind::Skip
        },
    }
}

/// Decides what the scan does with an entry, from its name (`None` when the
/// name is not valid text) and whether it is a folder.
pub fn classify_entry(file_name: Option<&str>, is_dir: bool) -> (r: EntryKind)
    ensures
        r == spec_entry_kind(
            match file_name {
                Some(n) => Some(n@),
                None => None,
            },
            is_dir,
        ),
{
    match file_name {
        None => EntryKind::Skip,
        Some(n) => if is_target(n) && is_dir {
            EntryKind::Target
        } else if is_dir {
            EntryKind::Descend
        } else {
            EntryKind::Skip
        },
    }
}

/// Lengths and first letters of the footprint names, enough to tell any two
/// of them apart.
pub proof fn lemma_footprint_names()
    ensures
        "node_modules"@.len() == 12,
        "node_modules"@[0] == 'n',
        "node_modules"@[1] == 'o',
        "__pycache__"@.len() == 11,
        "__pycache__"@[0] == '_',
        "__pycache__"@[1] == '_',
        "_build"@.len() == 6,
        "_build"@[0] == '_',
        "_build"@[1] == 'b',
        "deps"@.len() == 4,
        "deps"@[0] == 'd',
        "deps"@[1] == 'e',
        ".stack-work"@.len() == 11,
        ".stack-work"@[0] == '.',
        ".stack-work"@[1] == 's',
        "dist-newstyle"@.len() == 13,
        "dist-newstyle"@[0] == 'd',
        "dist-newstyle"@[1] == 'i',
        "Pods"@.len() == 4,
        "Pods"@[0] == 'P',
        "Pods"@[1] == 'o',
        "target"@.len() == 6,
        "target"@[0] == 't',
        "target"@[1] == 'a',
        "build"@.len() == 5,
        "build"@[0] == 'b',
        "build"@[1] == 'u',
        "venv"@.len() == 4,
        "venv"@[0] == 'v',
        "venv"@[1] == 'e',
        "env"@.len() == 3,
        "env"@[0] == 'e',
        "env"@[1] == 'n',
        ".venv"@.len() == 5,
        ".venv"@[0] == '.',
        ".venv"@[1] == 'v',
        ".env"@.len() == 4,
        ".env"@[0] == '.',
        ".env"@[1] == 'e',
        "vendor"@.len() == 6,
        "vendor"@[0] == 'v',
        "vendor"@[1] == 'e',
        "dist"@.len() == 4,
        "dist"@[0] == 'd',
        "dist"@[1] == 'i',
        ".embuild"@.len() == 8,
        ".embuild"@[0] == '.',
        ".embuild"@[1] == 'e',
{
    reveal_strlit("node_modules");
    reveal_strlit("__pycache__");
    reveal_strlit("_build");
    reveal_strlit("deps");
    reveal_strlit(".stack-work");
    reveal_strlit("dist-newstyle");
    reveal_strlit("Pods");
    reveal_strlit("target");
    reveal_strlit("build");
    reveal_strlit("venv");
    reveal_strlit("env");
    reveal_strlit(".venv");
    reveal_strlit(".env");
    reveal_strlit("vendor");
    reveal_strlit("dist");
    reveal_strlit(".embuild");
}

/// The targets are exactly the folder names whose language some marker
/// files tell, and `.embuild`, which no marker tells: a name no language is
/// ever recognised for, such as a source folder, is never a target.
pub proof fn law_targets_are_footprints(name: Seq<char>)
    ensures
        spec_is_target(name) <==> ((exists|m: Markers| #[trigger] spec_language(name, m) is Some)
            || name == ".embuild"@),
{
    let all = Markers {
        cargo_toml: true,
        pom_xml: true,
        build_gradle: true,
        build_sbt: true,
        package_swift: true,
        composer_json: true,
        gemfile: true,
        package_json: true,
        pyproject_toml: true,
        setup_py: true,
        pyvenv_cfg: true,
    };
    if spec_is_target(name) && name != ".embuild"@ {
        assert(spec_language(name, all) is Some);
    }
}

/// The language of each footprint, with the markers tried in order: for
/// `target` Cargo.toml, then pom.xml, build.gradle, build.sbt; for `build`
/// build.gradle, then Package.swift; for `vendor` composer.json, then
/// Gemfile; for `dist` package.json, then pyproject.toml or setup.py; for a
/// virtual environment pyvenv.cfg inside it. The other footprints need no
/// marker, and `.embuild` or any other name has no language.
pub proof fn law_languages(m: Markers)
    ensures
        spec_language("node_modules"@, m) == Some("JavaScript"@),
        spec_language("__pycache__"@, m) == Some("Python"@),
        spec_language("_build"@, m) == Some("Elixir"@),
        spec_language("deps"@, m) == Some("Elixir"@),
        spec_language(".stack-work"@, m) == Some("Haskell"@),
        spec_language("dist-newstyle"@, m) == Some("Haskell"@),
        spec_language("Pods"@, m) == Some("Swift"@),
        spec_language("target"@, m) == (if m.cargo_toml {
            Some("Rust"@)
        } else if m.pom_xml {
            Some("Java (Maven)"@)
        } else if m.build_gradle {
            Some("Java (Gradle)"@)
        } else if m.build_sbt {
            Some("Scala"@)
        } else {
            None
        }),
        spec_language("build"@, m) == (if m.build_gradle {
            Some("Java (Gradle)"@)
        } else if m.package_swift {
            Some("Swift"@)
        } else {
            None
        }),
        spec_language("venv"@, m) == (if m.pyvenv_cfg { Some("Python"@) } else { None }),
        spec_language("env"@, m) == (if m.pyvenv_cfg { Some("Python"@) } else { None }),
        spec_language(".venv"@, m) == (if m.pyvenv_cfg { Some("Python"@) } else { None }),
        spec_language(".env"@, m) == (if m.pyvenv_cfg { Some("Python"@) } else { None }),
        spec_language("vendor"@, m) == (if m.composer_json {
            Some("PHP"@)
        } else if m.gemfile {
            Some("Ruby"@)
        } else {
            None
        }),
        m.package_json ==> spec_language("dist"@, m) == Some("JavaScript"@),
        !m.package_json && (m.pyproject_toml || m.setup_py) ==> spec_language("dist"@, m) == Some(
            "Python"@,
        ),
        !m.package_json && !m.pyproject_toml && !m.setup_py ==> spec_language("dist"@, m) is None,
        spec_language(".embuild"@, m) is None,
{
    lemma_footprint_names();
}

/// A target folder is listed under its language when one is recognised,
/// and under its own name otherwise.
pub proof fn law_category_name(name: Seq<char>, m: Markers)
    ensures
        spec_language(name, m) matches Some(l) ==> spec_category(name, m) == l,
        spec_language(name, m) is None ==> spec_category(name, m) == name,
{
}

/// A folder that is not a target has no language, whatever markers it has.
pub proof fn law_only_targets_have_languages(name: Seq<char>, m: Markers)
    requires
        !spec_is_target(name),
    ensures
        spec_language(name, m) is None,
{
}

/// The scan records exactly the folders with target names, searches every
/// other folder with a name that is text, and passes over the rest.
pub proof fn law_entry_kinds(name: Option<Seq<char>>, is_dir: bool)
    ensures
        (spec_entry_kind(name, is_dir) == EntryKind::Target) <==> (is_dir && name is Some
            && spec_is_target(name->0)),
        (spec_entry_kind(name, is_dir) == EntryKind::Descend) <==> (is_dir && name is Some
            && !spec_is_target(name->0)),
{
}

} // verus!
