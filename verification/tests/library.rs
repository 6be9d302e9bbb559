use kinito::attrs::{map_to_string, AttributeMap};
use kinito::cargo::{
    cargo_config_path, fresh_config, install_config, toolchain_linker, update_existing_config,
    validate_linker_config, CargoConfigError, ConfigAction,
};
use kinito::commands::{build, cargo_build_targets, clean, install, r};
use kinito::config::{load, Config, LoadError, TomlAndroid};
use kinito::ndk::{install_standalone, install_toolchain, make_tool_path, select_build_targets, toolchain_dir, Arch, BuildFlags};
use kinito::scribe::{android_manifest, android_resource_strings, app_gradle, turtle_shell, ScribeChain, ScribeError, ScribeVal, ShellFiles};
use kinito::setup::embed;
use kinito::shell::{android_shell_dir, android_shell_zip, target_dir};
use kinito::text::{decimal_string, replace_all_str, same_text};
use kinito::utils::{is_directory_entry, sanitize_filename, unzip_destination};

fn empty_meta() -> TomlAndroid {
    TomlAndroid {
        application_attributes: None,
        activity_attributes: None,
        resources_dir: None,
        package_name: None,
        version_code: None,
        label: None,
        icon: None,
        assets: None,
        res: None,
        compile_sdk_version: None,
        min_sdk_version: None,
        target_sdk_version: None,
        build_tools_version: None,
        android_version: None,
        fullscreen: None,
        build_targets: None,
        opengles_version_major: None,
        opengles_version_minor: None,
    }
}

fn sample_config(targets: Vec<Arch>) -> Config {
    let mut c = load(
        "/home/me/hello-app/Cargo.toml",
        "hello-app".to_string(),
        "0.3.1".to_string(),
        None,
        "/opt/ndk".to_string(),
    )
    .unwrap();
    c.build_targets = targets;
    c
}

#[test]
fn arch_names_round_trip() {
    for a in Arch::all() {
        assert_eq!(Arch::from_str(a.name()), Some(a));
        assert_eq!(Arch::from_str(&a.to_string()), Some(a));
    }
}

#[test]
fn arch_from_str_ignores_case() {
    assert_eq!(Arch::from_str("ARM"), Some(Arch::ARM));
    assert_eq!(Arch::from_str("X86_64"), Some(Arch::X86_64));
    assert_eq!(Arch::from_str("Mips64"), Some(Arch::MIPS64));
}

#[test]
fn arch_from_str_rejects_unknown() {
    assert_eq!(Arch::from_str("sparc"), None);
    assert_eq!(Arch::from_str(""), None);
    assert_eq!(Arch::from_str("arm "), None);
}

#[test]
fn arch_triples() {
    assert_eq!(Arch::ARM.triple(), "arm-linux-androideabi");
    assert_eq!(Arch::ARM64.triple(), "aarch64-linux-android");
    assert_eq!(Arch::X86.triple(), "i686-linux-android");
    assert_eq!(Arch::X86_64.triple(), "x86_64-linux-android");
    assert_eq!(Arch::MIPS.triple(), "mips-unknown-linux-gnu");
    assert_eq!(Arch::MIPS64.triple(), "mips64-unknown-linux-gnuabi64");
}

#[test]
fn arch_all_in_order() {
    assert_eq!(
        Arch::all(),
        vec![Arch::ARM, Arch::ARM64, Arch::X86, Arch::X86_64, Arch::MIPS, Arch::MIPS64]
    );
}

fn flags() -> BuildFlags {
    BuildFlags { all: false, arm: false, arm64: false, x86: false, x86_64: false, mips: false, mips64: false }
}

#[test]
fn build_targets_default_to_x86() {
    assert_eq!(select_build_targets(flags()), vec![Arch::X86]);
}

#[test]
fn build_targets_all_flag() {
    let f = BuildFlags { all: true, arm: true, ..flags() };
    assert_eq!(select_build_targets(f), Arch::all());
}

#[test]
fn build_targets_in_fixed_order() {
    let f = BuildFlags { mips: true, arm: true, x86_64: true, ..flags() };
    assert_eq!(select_build_targets(f), vec![Arch::ARM, Arch::X86_64, Arch::MIPS]);
}

#[test]
fn replace_all_behaves_like_str_replace() {
    for (s, a, b) in [
        ("a-b-c", "-", "_"),
        ("abc", "", "-"),
        ("aaaa", "aa", "b"),
        ("rust.my.rust.app", "rust.", ""),
        ("", "x", "y"),
        ("héllo wörld", "ö", "o"),
    ] {
        assert_eq!(replace_all_str(s, a, b), s.replace(a, b));
        assert_eq!(r(s, a, b), s.replace(a, b));
    }
    assert_eq!(replace_all_str("abc", "", "-"), "-a-b-c-");
}

#[test]
fn decimal_numbers() {
    assert_eq!(decimal_string(0), "0");
    assert_eq!(decimal_string(7), "7");
    assert_eq!(decimal_string(26), "26");
    assert_eq!(decimal_string(1000), "1000");
    assert_eq!(decimal_string(u32::MAX), "4294967295");
}

#[test]
fn text_equality() {
    assert!(same_text("abc", "abc"));
    assert!(!same_text("abc", "abd"));
    assert!(!same_text("ab", "abc"));
}

#[test]
fn attribute_map_keeps_key_order() {
    let mut m = AttributeMap::new();
    m.insert("b".to_string(), "2".to_string());
    m.insert("a".to_string(), "1".to_string());
    m.insert("c".to_string(), "3".to_string());
    m.insert("b".to_string(), "two".to_string());
    assert_eq!(m.len(), 3);
    assert_eq!(m.entry(0), ("a", "1"));
    assert_eq!(m.entry(1), ("b", "two"));
    assert_eq!(m.entry(2), ("c", "3"));
    assert_eq!(m.get("b"), Some("two".to_string()));
    assert_eq!(m.get("d"), None);
}

#[test]
fn map_to_string_lists_attributes() {
    let mut m = AttributeMap::new();
    m.insert("android:theme".to_string(), "@style/Fancy".to_string());
    m.insert("android:debuggable".to_string(), "true".to_string());
    assert_eq!(
        map_to_string(Some(&m)),
        Some("\nandroid:debuggable=\"true\"\nandroid:theme=\"@style/Fancy\"".to_string())
    );
    assert_eq!(map_to_string(None), None);
    assert_eq!(map_to_string(Some(&AttributeMap::new())), Some(String::new()));
}

#[test]
fn load_defaults() {
    let c = sample_config(vec![]);
    assert_eq!(c.ndk_path, "/opt/ndk");
    assert_eq!(c.project_path, "/home/me/hello-app");
    assert_eq!(c.project_path_str(), "/home/me/hello-app");
    assert_eq!(c.toolchain_target_dir, "/home/me/hello-app/target");
    assert_eq!(c.resources_dir, "resources");
    assert_eq!(c.package_name, "rust.hello-app");
    assert_eq!(c.package_version, "0.3.1");
    assert_eq!(c.version_code, 1);
    assert_eq!(c.project_name, "hello-app");
    assert_eq!(c.project_name_underscore, "hello_app");
    assert_eq!(c.package_label, "hello-app");
    assert_eq!(c.package_icon, None);
    assert!(!c.ignore_linker_config);
    assert_eq!(c.compile_sdk_version, 26);
    assert_eq!(c.build_tools_version, "26.0.1");
    assert_eq!(c.min_sdk_version, 15);
    assert_eq!(c.target_sdk_version, 18);
    assert_eq!(c.android_version, 18);
    assert_eq!(c.assets_path, None);
    assert_eq!(c.res_path, None);
    assert!(!c.release);
    assert!(!c.fullscreen);
    assert_eq!(c.application_attributes, None);
    assert_eq!(c.activity_attributes, None);
    assert_eq!(c.target, None);
    assert_eq!(c.opengles_version_major, 2);
    assert_eq!(c.opengles_version_minor, 0);
}

#[test]
fn load_with_metadata() {
    let mut meta = empty_meta();
    meta.package_name = Some("com.example.hello".to_string());
    meta.version_code = Some(12);
    meta.label = Some("Hello".to_string());
    meta.icon = Some("@mipmap/hello".to_string());
    meta.assets = Some("assets".to_string());
    meta.res = Some("/abs/res".to_string());
    meta.min_sdk_version = Some(21);
    meta.target_sdk_version = Some(28);
    meta.fullscreen = Some(true);
    meta.opengles_version_major = Some(3);
    let mut attrs = AttributeMap::new();
    attrs.insert("android:hasCode".to_string(), "false".to_string());
    meta.application_attributes = Some(attrs);
    let c = load(
        "/w/rust.demo/Cargo.toml",
        "rust.my-demo".to_string(),
        "1.0.0".to_string(),
        Some(meta),
        "/ndk".to_string(),
    )
    .unwrap();
    assert_eq!(c.package_name, "com.example.hello");
    assert_eq!(c.project_name_underscore, "my_demo");
    assert_eq!(c.version_code, 12);
    assert_eq!(c.package_label, "Hello");
    assert_eq!(c.package_icon, Some("@mipmap/hello".to_string()));
    assert_eq!(c.assets_path, Some("/w/rust.demo/assets".to_string()));
    assert_eq!(c.res_path, Some("/abs/res".to_string()));
    assert_eq!(c.min_sdk_version, 21);
    // the target SDK version follows the minimum SDK version of the metadata
    assert_eq!(c.target_sdk_version, 21);
    assert!(c.fullscreen);
    assert_eq!(c.opengles_version_major, 3);
    assert_eq!(c.opengles_version_minor, 0);
    assert_eq!(c.application_attributes, Some("\nandroid:hasCode=\"false\"".to_string()));
    assert!(c.meta.is_some());
}

#[test]
fn load_without_parent_directory() {
    let mut meta = empty_meta();
    meta.assets = Some("assets".to_string());
    let r = load("", "x".to_string(), "1".to_string(), Some(meta), "/ndk".to_string());
    assert!(matches!(r, Err(LoadError::NoParentDirectory)));
}

#[test]
fn config_actions() {
    let mut c = sample_config(vec![]);
    assert_eq!(install_config(&c, false), ConfigAction::InstallFresh);
    assert_eq!(install_config(&c, true), ConfigAction::UpdateExisting);
    c.ignore_linker_config = true;
    assert_eq!(install_config(&c, true), ConfigAction::Ignore);
    assert_eq!(install_config(&c, false), ConfigAction::InstallFresh);
    assert_eq!(cargo_config_path(&c), "/home/me/hello-app/.cargo/config");
    assert!(!validate_linker_config());
}

fn linker_in(text: &str, triple: &str) -> Option<String> {
    let v: toml::Value = text.parse().unwrap();
    v.get("target")?.get(triple)?.get("linker")?.as_str().map(|s| s.to_string())
}

#[test]
fn linker_paths() {
    assert_eq!(
        toolchain_linker("/p/target", Arch::X86),
        "/p/target/ndk-toolchain-x86/bin/i686-linux-android-gcc"
    );
}

#[test]
fn linkers_added_to_empty_config() {
    let c = sample_config(vec![Arch::ARM, Arch::X86]);
    let u = update_existing_config(&c, "");
    assert_eq!(u.failure, None);
    assert_eq!(u.snapshots.len(), 2);
    assert_eq!(
        linker_in(&u.snapshots[0], "arm-linux-androideabi"),
        Some("/home/me/hello-app/target/ndk-toolchain-arm/bin/arm-linux-androideabi-gcc".to_string())
    );
    assert_eq!(linker_in(&u.snapshots[0], "i686-linux-android"), None);
    let last = &u.snapshots[1];
    assert_eq!(
        linker_in(last, "arm-linux-androideabi"),
        Some("/home/me/hello-app/target/ndk-toolchain-arm/bin/arm-linux-androideabi-gcc".to_string())
    );
    assert_eq!(
        linker_in(last, "i686-linux-android"),
        Some("/home/me/hello-app/target/ndk-toolchain-x86/bin/i686-linux-android-gcc".to_string())
    );
}

#[test]
fn linkers_keep_other_settings() {
    let c = sample_config(vec![Arch::X86]);
    let text = "[build]\njobs = 4\n\n[target.i686-linux-android]\nlinker = \"old\"\nar = \"my-ar\"\n\n[target.other]\nlinker = \"x\"\n";
    let u = update_existing_config(&c, text);
    assert_eq!(u.failure, None);
    let v: toml::Value = u.snapshots[0].parse().unwrap();
    assert_eq!(v["build"]["jobs"].as_integer(), Some(4));
    assert_eq!(v["target"]["i686-linux-android"]["ar"].as_str(), Some("my-ar"));
    assert_eq!(v["target"]["other"]["linker"].as_str(), Some("x"));
    assert_eq!(
        v["target"]["i686-linux-android"]["linker"].as_str(),
        Some("/home/me/hello-app/target/ndk-toolchain-x86/bin/i686-linux-android-gcc")
    );
}

#[test]
fn linker_update_is_idempotent() {
    let c = sample_config(vec![Arch::ARM64]);
    let first = update_existing_config(&c, "");
    let second = update_existing_config(&c, &first.snapshots[0]);
    assert_eq!(second.snapshots, first.snapshots);
}

#[test]
fn linker_update_failures() {
    let c = sample_config(vec![Arch::ARM]);
    let u = update_existing_config(&c, "this is = = not toml");
    assert!(u.snapshots.is_empty());
    assert_eq!(u.failure, Some(CargoConfigError::Unparsable));
    let u = update_existing_config(&c, "target = 5\n");
    assert!(u.snapshots.is_empty());
    assert_eq!(u.failure, Some(CargoConfigError::TargetNotTable));
    let u = update_existing_config(&c, "[target]\narm-linux-androideabi = \"x\"\n");
    assert_eq!(u.failure, Some(CargoConfigError::TripleNotTable));
    let none = sample_config(vec![]);
    let u = update_existing_config(&none, "");
    assert!(u.snapshots.is_empty());
    assert_eq!(u.failure, None);
}

#[test]
fn linker_failure_after_first_architecture() {
    let c = sample_config(vec![Arch::ARM, Arch::X86]);
    let u = update_existing_config(&c, "[target]\ni686-linux-android = 3\n");
    assert_eq!(u.snapshots.len(), 1);
    assert_eq!(u.failure, Some(CargoConfigError::TripleNotTable));
}

#[test]
fn scribe_values() {
    assert_eq!(ScribeVal::from_number(26).input, "26");
    assert_eq!(ScribeVal::from_text("26.0.1").input, "\"26.0.1\"");
    assert_eq!(ScribeVal::from_str("raw").input, "raw");
    assert_eq!(ScribeVal::from_archs(&vec![Arch::ARM, Arch::X86]).input, "\"arm\", \"x86\"");
    assert_eq!(ScribeVal::from_archs(&vec![]).input, "");
}

#[test]
fn scribe_gradle_setting() {
    let mut chain = ScribeChain { contents: "android {\n    compileSdkVersion 25\n    minSdkVersion 9\n}\n".to_string() };
    assert_eq!(chain.gradle("compileSdkVersion", ScribeVal::from_number(26)), Ok(()));
    assert_eq!(chain.contents, "android {\n    compileSdkVersion 26\n    minSdkVersion 9\n}\n");
}

#[test]
fn scribe_xml_setting() {
    let mut chain = ScribeChain { contents: "<resources>\n  <color name=\"color_primary\">#000</color>\n</resources>\n".to_string() };
    assert_eq!(chain.xml("color_primary", "color", ScribeVal::from_text("#ff0000")), Ok(()));
    assert_eq!(chain.contents, "<resources>\n  <color name=\"color_primary\">#ff0000</color>\n</resources>\n");
}

#[test]
fn scribe_invalid_pattern() {
    let mut chain = ScribeChain { contents: "abc".to_string() };
    assert_eq!(chain.replace("(", "x"), Err(ScribeError::InvalidPattern));
    assert_eq!(chain.contents, "abc");
}

const GRADLE: &str = "android {\n    compileSdkVersion 23\n    buildToolsVersion \"23.0.0\"\n    defaultConfig {\n        applicationId \"com.rumo.shell\"\n        minSdkVersion 9\n        targetSdkVersion 9\n        versionCode 1\n        versionName \"1.0\"\n        ndk {\n            abiFilters \"x86\"\n        }\n    }\n    splits {\n        abi {\n            include \"x86\"\n        }\n    }\n}\n";

#[test]
fn gradle_file_filled_in() {
    let c = sample_config(vec![Arch::ARM, Arch::X86]);
    let out = app_gradle(&c, GRADLE).unwrap();
    let expected = "android {\n    compileSdkVersion 26\n    buildToolsVersion \"26.0.1\"\n    defaultConfig {\n        applicationId \"rust.hello-app\"\n        minSdkVersion 15\n        targetSdkVersion 18\n        versionCode 1\n        versionName \"0.3.1\"\n        ndk {\n            abiFilters \"arm\", \"x86\"\n        }\n    }\n    splits {\n        abi {\n            include \"arm\", \"x86\"\n        }\n    }\n}\n";
    assert_eq!(out, expected);
}

#[test]
fn manifest_filled_in() {
    let mut c = sample_config(vec![]);
    c.package_icon = Some("@mipmap/mine".to_string());
    let text = "<manifest package=\"com.rumo.shell\" android:versionCode=\"[version_code]\">\n<application android:icon=\"@mipmap/ic_launcher\"/>\n</manifest>\n";
    let out = android_manifest(&c, text).unwrap();
    // "[version_name]" and "[version_code]" are character classes: each
    // replaces the first character of the text that is in its set.
    let expected = "<0.3.1a1ifest package=\"rust.hello-app\" android:versionCode=\"[version_code]\">\n<application android:icon=\"@mipmap/mine\"/>\n</manifest>\n";
    assert_eq!(out, expected);
}

#[test]
fn resources_filled_in() {
    let mut meta = empty_meta();
    let mut attrs = AttributeMap::new();
    attrs.insert("color_accent".to_string(), "#00ff00".to_string());
    attrs.insert("app_name".to_string(), "My \"App\"".to_string());
    meta.application_attributes = Some(attrs);
    let mut c = sample_config(vec![]);
    c.meta = Some(meta);
    let colors = "<color name=\"color_primary\">#111</color>\n<color name=\"color_accent\">#222</color>\n";
    let strings = "<string name=\"app_name\">Shell</string>\n";
    let (new_colors, new_strings) = android_resource_strings(&c, colors, strings).unwrap();
    assert_eq!(new_colors, "<color name=\"color_primary\">#111</color>\n<color name=\"color_accent\">#00ff00</color>\n");
    assert_eq!(new_strings, "<string name=\"app_name\">My App</string>\n");
}

#[test]
fn resources_untouched_without_metadata() {
    let c = sample_config(vec![]);
    let (a, b) = android_resource_strings(&c, "x", "y").unwrap();
    assert_eq!((a.as_str(), b.as_str()), ("x", "y"));
}

#[test]
fn whole_shell_filled_in() {
    let c = sample_config(vec![Arch::X86]);
    let files = ShellFiles {
        app_gradle: GRADLE.to_string(),
        colors: "c".to_string(),
        strings: "s".to_string(),
        manifest: "package=\"com.rumo.shell\"".to_string(),
    };
    let out = turtle_shell(&c, &files).unwrap();
    assert_eq!(out.app_gradle, app_gradle(&c, GRADLE).unwrap());
    assert_eq!(out.colors, "c");
    assert_eq!(out.strings, "s");
    assert_eq!(out.manifest, android_manifest(&c, "package=\"com.rumo.shell\"").unwrap());
}

#[test]
fn sanitized_names() {
    assert_eq!(sanitize_filename("a/b/c.txt"), "a/b/c.txt");
    assert_eq!(sanitize_filename("/etc/passwd"), "etc/passwd");
    assert_eq!(sanitize_filename("../../x"), "x");
    assert_eq!(sanitize_filename("./a/./b//c/"), "a/b/c");
    assert_eq!(sanitize_filename("a/..../b"), "a/..../b");
    assert_eq!(sanitize_filename("dir/file\0evil/../x"), "dir/file");
    assert_eq!(sanitize_filename(""), "");
    assert_eq!(sanitize_filename(".."), "");
    let once = sanitize_filename("x/../y/./z");
    assert_eq!(sanitize_filename(&once), once);
}

#[test]
fn unzip_paths() {
    assert_eq!(unzip_destination("/p/target/android-shell", "bin/build"), "/p/target/android-shell/bin/build");
    assert_eq!(unzip_destination("/d", "../../etc/x"), "/d/etc/x");
    assert!(is_directory_entry("app/src/"));
    assert!(!is_directory_entry("app/src/main.rs"));
    assert!(!is_directory_entry(""));
}

#[test]
fn shell_paths() {
    let c = sample_config(vec![]);
    assert_eq!(android_shell_dir("/p"), "/p/target/android-shell");
    assert_eq!(android_shell_zip("/p"), "/p/target/android-shell.zip");
    assert_eq!(target_dir(&c), "/home/me/hello-app/target");
    embed("/home/me/hello-app/Cargo.toml", &c);
}

#[test]
fn build_commands() {
    let c = sample_config(vec![Arch::ARM, Arch::X86_64]);
    assert_eq!(cargo_build_targets(&c.build_targets), "arm, x86_64");
    assert_eq!(cargo_build_targets(&vec![]), "");
    let b = build(&c);
    assert_eq!(b.name, "build");
    assert_eq!(b.program, "target/android-shell/bin/build");
    assert_eq!(b.current_dir, Some("/home/me/hello-app".to_string()));
    assert!(b.args.is_empty());
    assert_eq!(
        b.envs,
        vec![
            ("CARGO_BUILD_TARGETS".to_string(), "arm, x86_64".to_string()),
            ("RUST_APP_ROOT".to_string(), "/home/me/hello-app".to_string()),
            ("RUST_APP_NAME".to_string(), "hello_app".to_string()),
        ]
    );
    let i = install(&c);
    assert_eq!(i.program, "target/android-shell/bin/install");
    assert_eq!(i.envs.len(), 2);
    let k = clean(&c);
    assert_eq!(k.name, "clean");
    assert_eq!(k.program, "target/android-shell/bin/clean");
}

#[test]
fn toolchain_plan() {
    let c = sample_config(vec![Arch::ARM, Arch::MIPS]);
    assert_eq!(make_tool_path(&c), "/opt/ndk/build/tools/make_standalone_toolchain.py");
    assert_eq!(toolchain_dir(&c, Arch::ARM), "/home/me/hello-app/target/ndk-toolchain-arm");
    let cmd = install_toolchain("tool.py", &c, Arch::MIPS);
    assert_eq!(cmd.program, "tool.py");
    assert_eq!(
        cmd.args,
        vec![
            ("install-dir".to_string(), "/home/me/hello-app/target/ndk-toolchain-mips".to_string()),
            ("api".to_string(), "18".to_string()),
            ("arch".to_string(), "mips".to_string()),
        ]
    );
    let plan = install_standalone(&c);
    assert_eq!(plan.make_tool, "/opt/ndk/build/tools/make_standalone_toolchain.py");
    assert_eq!(plan.toolchains.len(), 2);
    assert_eq!(plan.toolchains[1].0, Arch::MIPS);
    assert_eq!(plan.toolchains[1].1, "/home/me/hello-app/target/ndk-toolchain-mips");
}

#[test]
fn fresh_config_sets_every_linker() {
    let c = sample_config(vec![Arch::ARM, Arch::X86_64]);
    let text = fresh_config(&c).unwrap();
    assert_eq!(
        linker_in(&text, "arm-linux-androideabi"),
        Some("/home/me/hello-app/target/ndk-toolchain-arm/bin/arm-linux-androideabi-gcc".to_string())
    );
    assert_eq!(
        linker_in(&text, "x86_64-linux-android"),
        Some("/home/me/hello-app/target/ndk-toolchain-x86_64/bin/x86_64-linux-android-gcc".to_string())
    );
    let v: toml::Value = text.parse().unwrap();
    assert_eq!(v.as_table().unwrap().len(), 1);
    assert_eq!(v["target"].as_table().unwrap().len(), 2);
}

#[test]
fn fresh_config_matches_update_of_empty_file() {
    let c = sample_config(vec![Arch::MIPS, Arch::ARM64]);
    let update = update_existing_config(&c, "");
    assert_eq!(fresh_config(&c), update.snapshots.last().cloned());
}

#[test]
fn fresh_config_without_targets_is_empty() {
    let c = sample_config(vec![]);
    assert_eq!(fresh_config(&c), Some(String::new()));
}
