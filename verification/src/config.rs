use vstd::prelude::*;
use crate::attrs::{AttributeMap, attribute_lines, map_to_string};
use crate::ndk::Arch;
use crate::paths::{join_path, parent_of, path_joined, path_parent};
use crate::text::{concat, replace_all, replace_all_str};

verus! {

/// The Android settings a project may give in `[package.metadata.android]`
/// of its manifest.
pub struct TomlAndroid {
    pub application_attributes: Option<AttributeMap>,
    pub activity_attributes: Option<AttributeMap>,
    pub resources_dir: Option<String>,
    pub package_name: Option<String>,
    pub version_code: Option<u32>,
    pub label: Option<String>,
    pub icon: Option<String>,
    pub assets: Option<String>,
    pub res: Option<String>,
    pub compile_sdk_version: Option<u32>,
    pub min_sdk_version: Option<u32>,
    pub target_sdk_version: Option<u32>,
    pub build_tools_version: Option<String>,
    pub android_version: Option<u32>,
    pub fullscreen: Option<bool>,
    pub build_targets: Option<Vec<String>>,
    pub opengles_version_major: Option<u8>,
    pub opengles_version_minor: Option<u8>,
}

/// Everything the build needs to know about a project.
pub struct Config {
    /// Path to the root of the Android NDK.
    pub ndk_path: String,
    pub meta: Option<TomlAndroid>,
    pub resources_dir: String,
    /// The path to the root of the Cargo application.
    pub project_path: String,
    /// Root directory of the standalone NDK toolchains.
    pub toolchain_target_dir: String,
    /// Name that the package will have on the Android machine.
    pub package_name: String,
    pub package_version: String,
    /// Incrementing number for android versionCode.
    pub version_code: u32,
    /// Name of the project; the name of the APK file.
    pub project_name: String,
    pub project_name_underscore: String,
    /// Label for the package.
    pub package_label: String,
    /// Name of the launcher icon.
    pub package_icon: Option<String>,
    pub ignore_linker_config: bool,
    /// Architectures to build the app for.
    pub build_targets: Vec<Arch>,
    pub build_tools_version: String,
    pub compile_sdk_version: u32,
    pub target_sdk_version: u32,
    pub min_sdk_version: u32,
    /// Version of android for which to compile.
    pub android_version: u32,
    /// Directory of the assets to ship with the package.
    pub assets_path: Option<String>,
    /// Directory of the resources to ship with the package.
    pub res_path: Option<String>,
    /// Build in release mode.
    pub release: bool,
    /// Hide the title bar.
    pub fullscreen: bool,
    /// Appended to the application attributes in the AndroidManifest.xml.
    pub application_attributes: Option<String>,
    /// Appended to the activity attributes in the AndroidManifest.xml.
    pub activity_attributes: Option<String>,
    /// The name of the executable to compile.
    pub target: Option<String>,
    /// The OpenGL ES major version in the AndroidManifest.xml.
    pub opengles_version_major: u8,
    /// The OpenGL ES minor version in the AndroidManifest.xml.
    pub opengles_version_minor: u8,
}

impl Config {
    /// The project's root directory.
    pub fn project_path_str(&self) -> (r: &str)
        ensures
            r@ == self.project_path@,
    {
        self.project_path.as_str()
    }
}

/// Why loading a configuration failed; the program stops with an error on it.
#[derive(Debug, Clone, Copy, PartialEq, Eq, Structural)]
pub enum LoadError {
    /// The manifest path has no parent directory to resolve the assets or
    /// resources directory against.
    NoParentDirectory,
}

/// A text setting: the given one, else the default.
pub open spec fn text_setting(o: Option<String>, default: Seq<char>) -> Seq<char> {
    match o {
        Some(s) => s@,
        None => default,
    }
}

/// A setting of the metadata, absent when there is no metadata.
pub open spec fn meta_field<T>(meta: Option<TomlAndroid>, pick: spec_fn(TomlAndroid) -> Option<T>) -> Option<T> {
    match meta {
        Some(a) => pick(a),
        None => None,
    }
}

/// A number setting: the given one, else the default.
pub open spec fn number_setting<T>(o: Option<T>, default: T) -> T {
    match o {
        Some(n) => n,
        None => default,
    }
}

/// Where a directory named in the metadata lies: joined onto the manifest's
/// parent directory.
pub open spec fn resolved_dir(manifest_path: Seq<char>, dir: Option<String>) -> Option<Option<Seq<char>>> {
    match dir {
        None => Some(None),
        Some(d) => match path_parent(manifest_path) {
            Some(parent) => Some(Some(path_joined(parent, d@))),
            None => None,
        },
    }
}

/// The attribute text of an optional attribute map.
pub open spec fn attributes_text(m: Option<AttributeMap>) -> Option<Seq<char>> {
    match m {
        Some(map) => Some(attribute_lines(map@)),
        None => None,
    }
}

pub open spec fn opt_view(o: Option<String>) -> Option<Seq<char>> {
    match o {
        Some(s) => Some(s@),
        None => None,
    }
}

/// The project directory: the manifest path with every `/Cargo.toml` removed.
pub open spec fn project_dir(manifest_path: Seq<char>) -> Seq<char> {
    replace_all(manifest_path, "/Cargo.toml"@, Seq::empty())
}

/// The project name in the form used for library names: `-` becomes `_`,
/// then every `rust.` is removed.
pub open spec fn underscore_name(name: Seq<char>) -> Seq<char> {
    replace_all(replace_all(name, "-"@, "_"@), "rust."@, Seq::empty())
}

fn text_or(o: &Option<String>, default: String) -> (r: String)
    ensures
        r@ == text_setting(*o, default@),
{
    match o {
        Some(s) => s.clone(),
        None => default,
    }
}

fn clone_text(o: &Option<String>) -> (r: Option<String>)
    ensures
        opt_view(r) == opt_view(*o),
{
    match o {
        Some(s) => Some(s.clone()),
        None => None,
    }
}

fn resolve_dir(manifest_path: &str, dir: &Option<String>) -> (r: Result<Option<String>, LoadError>)
    ensures
        match resolved_dir(manifest_path@, *dir) {
            Some(d) => r is Ok && opt_view(r->Ok_0) == d,
            None => r == Err::<Option<String>, LoadError>(LoadError::NoParentDirectory),
        },
{
    match dir {
        None => Ok(None),
        Some(d) => match parent_of(manifest_path) {
            Some(parent) => Ok(Some(join_path(parent.as_str(), d.as_str()))),
            None => Err(LoadError::NoParentDirectory),
        },
    }
}

/// The configuration of a project whose manifest lies at `manifest_path`
/// and declares the given package name, version and Android metadata, with
/// the NDK at `ndk_path`. Settings the metadata leaves out take their
/// defaults. Fails only when the metadata names an assets or resources
/// directory and the manifest path has no parent directory.
pub fn load(
    manifest_path: &str,
    package_name: String,
    package_version: String,
    manifest_content: Option<TomlAndroid>,
    ndk_path: String,
) -> (r: Result<Config, LoadError>)
    ensures
        (r is Err) <==> (resolved_dir(manifest_path@, meta_field(manifest_content, |a: TomlAndroid| a.assets)) is None
            || resolved_dir(manifest_path@, meta_field(manifest_content, |a: TomlAndroid| a.res)) is None),
        r is Err ==> r == Err::<Config, LoadError>(LoadError::NoParentDirectory),
        r matches Ok(c) ==> {
            &&& c.ndk_path@ == ndk_path@
            &&& c.meta == manifest_content
            &&& c.project_path@ == project_dir(manifest_path@)
            &&& c.toolchain_target_dir@ == project_dir(manifest_path@) + "/target"@
            &&& c.resources_dir@ == text_setting(meta_field(manifest_content, |a: TomlAndroid| a.resources_dir), "resources"@)
            &&& c.package_name@ == text_setting(meta_field(manifest_content, |a: TomlAndroid| a.package_name), "rust."@ + package_name@)
            &&& c.package_version@ == package_version@
            &&& c.version_code == number_setting(meta_field(manifest_content, |a: TomlAndroid| a.version_code), 1u32)
            &&& c.project_name@ == package_name@
            &&& c.project_name_underscore@ == underscore_name(package_name@)
            &&& c.package_label@ == text_setting(meta_field(manifest_content, |a: TomlAndroid| a.label), package_name@)
            &&& opt_view(c.package_icon) == opt_view(meta_field(manifest_content, |a: TomlAndroid| a.icon))
            &&& !c.ignore_linker_config
            &&& c.build_targets@ == Seq::<Arch>::empty()
            &&& c.compile_sdk_version == number_setting(meta_field(manifest_content, |a: TomlAndroid| a.compile_sdk_version), 26u32)
            &&& c.build_tools_version@ == text_setting(meta_field(manifest_content, |a: TomlAndroid| a.build_tools_version), "26.0.1"@)
            &&& c.min_sdk_version == number_setting(meta_field(manifest_content, |a: TomlAndroid| a.min_sdk_version), 15u32)
            &&& c.target_sdk_version == number_setting(meta_field(manifest_content, |a: TomlAndroid| a.min_sdk_version), 18u32)
            &&& c.android_version == number_setting(meta_field(manifest_content, |a: TomlAndroid| a.android_version), 18u32)
            &&& Some(opt_view(c.assets_path)) == resolved_dir(manifest_path@, meta_field(manifest_content, |a: TomlAndroid| a.assets))
            &&& Some(opt_view(c.res_path)) == resolved_dir(manifest_path@, meta_field(manifest_content, |a: TomlAndroid| a.res))
            &&& !c.release
            &&& c.fullscreen == number_setting(meta_field(manifest_content, |a: TomlAndroid| a.fullscreen), false)
            &&& opt_view(c.application_attributes) == attributes_text(meta_field(manifest_content, |a: TomlAndroid| a.application_attributes))
            &&& opt_view(c.activity_attributes) == attributes_text(meta_field(manifest_content, |a: TomlAndroid| a.activity_attributes))
            &&& c.target is None
            &&& c.opengles_version_major == number_setting(meta_field(manifest_content, |a: TomlAndroid| a.opengles_version_major), 2u8)
            &&& c.opengles_version_minor == number_setting(meta_field(manifest_content, |a: TomlAndroid| a.opengles_version_minor), 0u8)
        },
{
    let manifest_parent = replace_all_str(manifest_path, "/Cargo.toml", "");
    let project_path = manifest_parent;
    let toolchain_target_dir = concat(project_path.as_str(), "/target");
    let underscored = replace_all_str(package_name.as_str(), "-", "_");
    let project_name_underscore = replace_all_str(underscored.as_str(), "rust.", "");
    let default_package = concat("rust.", package_name.as_str());
    proof {
        reveal_strlit("");
    }
    assert(""@ =~= Seq::<char>::empty());
    let (
        resources_dir,
        package,
        version_code,
        label,
        icon,
        compile_sdk_version,
        build_tools_version,
        min_sdk_version,
        target_sdk_version,
        android_version,
        assets_path,
        res_path,
        fullscreen,
        application_attributes,
        activity_attributes,
        opengles_version_major,
        opengles_version_minor,
    ) = match &manifest_content {
        Some(a) => {
            let assets_path = match resolve_dir(manifest_path, &a.assets) {
                Ok(p) => p,
                Err(e) => return Err(e),
            };
            let res_path = match resolve_dir(manifest_path, &a.res) {
                Ok(p) => p,
                Err(e) => return Err(e),
            };
            (
                text_or(&a.resources_dir, "resources".to_owned()),
                text_or(&a.package_name, default_package),
                match a.version_code { Some(n) => n, None => 1u32 },
                text_or(&a.label, package_name.clone()),
                clone_text(&a.icon),
                match a.compile_sdk_version { Some(n) => n, None => 26u32 },
                text_or(&a.build_tools_version, "26.0.1".to_owned()),
                match a.min_sdk_version { Some(n) => n, None => 15u32 },
                match a.min_sdk_version { Some(n) => n, None => 18u32 },
                match a.android_version { Some(n) => n, None => 18u32 },
                assets_path,
                res_path,
                match a.fullscreen { Some(b) => b, None => false },
                map_to_string(a.application_attributes.as_ref()),
                map_to_string(a.activity_attributes.as_ref()),
                match a.opengles_version_major { Some(n) => n, None => 2u8 },
                match a.opengles_version_minor { Some(n) => n, None => 0u8 },
            )
        },
        None => (
            "resources".to_owned(),
            default_package,
            1u32,
            package_name.clone(),
            None,
            26u32,
            "26.0.1".to_owned(),
            15u32,
            18u32,
            18u32,
            None,
            None,
            false,
            None,
            None,
            2u8,
            0u8,
        ),
    };
    Ok(Config {
        ndk_path,
        toolchain_target_dir,
        resources_dir,
        project_path,
        package_name: package,
        package_version,
        version_code,
        project_name: package_name,
        project_name_underscore,
        package_label: label,
        package_icon: icon,
        ignore_linker_config: false,
        build_targets: Vec::new(),
        compile_sdk_version,
        build_tools_version,
        min_sdk_version,
        target_sdk_version,
        android_version,
        assets_path,
        res_path,
        release: false,
        fullscreen,
        application_attributes,
        activity_attributes,
        target: None,
        opengles_version_major,
        opengles_version_minor,
        meta: manifest_content,
    })
}

} // verus!
