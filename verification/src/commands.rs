use vstd::prelude::*;
use crate::config::Config;
use crate::ndk::{Arch, arch_name};
use crate::text::{join_texts, join_with, replace_all, replace_all_str, texts_view};

verus! {

/// An external program to run: its name in messages, the program, the
/// directory to run it in, named arguments (`--name value`) and environment
/// variables.
pub struct ShellCommand {
    pub name: String,
    pub program: String,
    pub current_dir: Option<String>,
    pub args: Vec<(String, String)>,
    pub envs: Vec<(String, String)>,
}

pub open spec fn pairs_of(v: Seq<(String, String)>) -> Seq<(Seq<char>, Seq<char>)> {
    v.map_values(|p: (String, String)| (p.0@, p.1@))
}

pub open spec fn opt_text(o: Option<String>) -> Option<Seq<char>> {
    match o {
        Some(s) => Some(s@),
        None => None,
    }
}

/// The architectures' names separated by `, `.
pub open spec fn target_list(archs: Seq<Arch>) -> Seq<char> {
    join_with(archs.map_values(|a: Arch| arch_name(a)), ", "@)
}

/// The architectures' names separated by `, `, as the build script reads
/// them from `CARGO_BUILD_TARGETS`.
pub fn cargo_build_targets(archs: &Vec<Arch>) -> (r: String)
    ensures
        r@ == target_list(archs@),
{
    let mut names: Vec<String> = Vec::new();
    let n = archs.len();
    for i in 0..n
        invariant
            n == archs@.len(),
            texts_view(names@) == archs@.take(i as int).map_values(|a: Arch| arch_name(a)),
    {
        let ghost before = names@;
        names.push(archs[i].to_string());
        assert(texts_view(names@) =~= texts_view(before).push(arch_name(archs@[i as int])));
        assert(archs@.take(i + 1).map_values(|a: Arch| arch_name(a))
            =~= archs@.take(i as int).map_values(|a: Arch| arch_name(a)).push(arch_name(archs@[i as int])));
    }
    assert(archs@.take(n as int) =~= archs@);
    join_texts(&names, ", ")
}

/// A script of the shell project, run in the project's directory with the
/// project's root and library name in its environment.
pub open spec fn shell_script(c: Config, name: Seq<char>, program: Seq<char>, extra: Seq<(Seq<char>, Seq<char>)>) -> (Seq<char>, Seq<char>, Option<Seq<char>>, Seq<(Seq<char>, Seq<char>)>, Seq<(Seq<char>, Seq<char>)>) {
    (
        name,
        program,
        Some(c.project_path@),
        Seq::empty(),
        extra + seq![("RUST_APP_ROOT"@, c.project_path@), ("RUST_APP_NAME"@, c.project_name_underscore@)],
    )
}

pub open spec fn command_view(cmd: ShellCommand) -> (Seq<char>, Seq<char>, Option<Seq<char>>, Seq<(Seq<char>, Seq<char>)>, Seq<(Seq<char>, Seq<char>)>) {
    (cmd.name@, cmd.program@, opt_text(cmd.current_dir), pairs_of(cmd.args@), pairs_of(cmd.envs@))
}

fn script(config: &Config, name: &str, program: &str, mut envs: Vec<(String, String)>) -> (r: ShellCommand)
    ensures
        command_view(r) == shell_script(*config, name@, program@, pairs_of(envs@)),
{
    let ghost extra = pairs_of(envs@);
    envs.push(("RUST_APP_ROOT".to_owned(), config.project_path.clone()));
    envs.push(("RUST_APP_NAME".to_owned(), config.project_name_underscore.clone()));
    assert(pairs_of(envs@) =~= extra + seq![("RUST_APP_ROOT"@, config.project_path@), ("RUST_APP_NAME"@, config.project_name_underscore@)]);
    let args: Vec<(String, String)> = Vec::new();
    assert(pairs_of(args@) =~= Seq::<(Seq<char>, Seq<char>)>::empty());
    ShellCommand {
        name: name.to_owned(),
        program: program.to_owned(),
        current_dir: Some(config.project_path.clone()),
        args,
        envs,
    }
}

/// The command that builds the APKs: the shell project's `build` script,
/// with the architectures in `CARGO_BUILD_TARGETS`.
pub fn build(config: &Config) -> (r: ShellCommand)
    ensures
        command_view(r) == shell_script(
            *config,
            "build"@,
            "target/android-shell/bin/build"@,
            seq![("CARGO_BUILD_TARGETS"@, target_list(config.build_targets@))],
        ),
{
    let mut envs: Vec<(String, String)> = Vec::new();
    envs.push(("CARGO_BUILD_TARGETS".to_owned(), cargo_build_targets(&config.build_targets)));
    assert(pairs_of(envs@) =~= seq![("CARGO_BUILD_TARGETS"@, target_list(config.build_targets@))]);
    script(config, "build", "target/android-shell/bin/build", envs)
}

/// The command that installs the build onto a device.
pub fn install(config: &Config) -> (r: ShellCommand)
    ensures
        command_view(r) == shell_script(*config, "install"@, "target/android-shell/bin/install"@, Seq::empty()),
{
    let envs: Vec<(String, String)> = Vec::new();
    assert(pairs_of(envs@) =~= Seq::<(Seq<char>, Seq<char>)>::empty());
    script(config, "install", "target/android-shell/bin/install", envs)
}

/// The command that cleans the build.
pub fn clean(config: &Config) -> (r: ShellCommand)
    ensures
        command_view(r) == shell_script(*config, "clean"@, "target/android-shell/bin/clean"@, Seq::empty()),
{
    let envs: Vec<(String, String)> = Vec::new();
    assert(pairs_of(envs@) =~= Seq::<(Seq<char>, Seq<char>)>::empty());
    script(config, "clean", "target/android-shell/bin/clean", envs)
}

/// Every occurrence of `a` in `src` replaced by `b`.
pub fn r(src: &str, a: &str, b: &str) -> (out: String)
    ensures
        out@ == replace_all(src@, a@, b@),
{
    replace_all_str(src, a, b)
}

} // verus!
