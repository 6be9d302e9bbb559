use vstd::prelude::*;
use crate::commands::{ShellCommand, command_view, pairs_of};
use crate::config::Config;
use crate::text::{
    ascii_lowercase, concat, concat3, decimal, decimal_string, is_ascii_text, same_text,
    to_lowercase, unicode_lowercase,
};

verus! {

/// A CPU architecture an Android application can be built for.
#[allow(non_camel_case_types)]
#[derive(Debug, Clone, Copy, PartialEq, Eq, Structural)]
pub enum Arch {
    ARM,
    ARM64,
    X86,
    X86_64,
    MIPS,
    MIPS64,
}

/// The short name of an architecture, as written on the command line and in
/// build files.
pub open spec fn arch_name(a: Arch) -> Seq<char> {
    match a {
        Arch::ARM => seq!['a', 'r', 'm'],
        Arch::ARM64 => seq!['a', 'r', 'm', '6', '4'],
        Arch::X86 => seq!['x', '8', '6'],
        Arch::X86_64 => seq!['x', '8', '6', '_', '6', '4'],
        Arch::MIPS => seq!['m', 'i', 'p', 's'],
        Arch::MIPS64 => seq!['m', 'i', 'p', 's', '6', '4'],
    }
}

/// The target triple the Rust compiler and the NDK use for an architecture.
pub open spec fn arch_triple(a: Arch) -> Seq<char> {
    match a {
        Arch::ARM => "arm-linux-androideabi"@,
        Arch::ARM64 => "aarch64-linux-android"@,
        Arch::X86 => "i686-linux-android"@,
        Arch::X86_64 => "x86_64-linux-android"@,
        Arch::MIPS => "mips-unknown-linux-gnu"@,
        Arch::MIPS64 => "mips64-unknown-linux-gnuabi64"@,
    }
}

/// The architecture whose short name is exactly `n`, if any.
pub open spec fn arch_for_name(n: Seq<char>) -> Option<Arch> {
    if n == arch_name(Arch::ARM) {
        Some(Arch::ARM)
    } else if n == arch_name(Arch::ARM64) {
        Some(Arch::ARM64)
    } else if n == arch_name(Arch::X86) {
        Some(Arch::X86)
    } else if n == arch_name(Arch::X86_64) {
        Some(Arch::X86_64)
    } else if n == arch_name(Arch::MIPS) {
        Some(Arch::MIPS)
    } else if n == arch_name(Arch::MIPS64) {
        Some(Arch::MIPS64)
    } else {
        None
    }
}

/// Every architecture, in the order the tool lists them.
pub open spec fn all_archs() -> Seq<Arch> {
    seq![Arch::ARM, Arch::ARM64, Arch::X86, Arch::X86_64, Arch::MIPS, Arch::MIPS64]
}

proof fn lemma_name_literals()
    ensures
        "arm"@ == arch_name(Arch::ARM),
        "arm64"@ == arch_name(Arch::ARM64),
        "x86"@ == arch_name(Arch::X86),
        "x86_64"@ == arch_name(Arch::X86_64),
        "mips"@ == arch_name(Arch::MIPS),
        "mips64"@ == arch_name(Arch::MIPS64),
{
    reveal_strlit("arm");
    reveal_strlit("arm64");
    reveal_strlit("x86");
    reveal_strlit("x86_64");
    reveal_strlit("mips");
    reveal_strlit("mips64");
    assert("arm"@ =~= arch_name(Arch::ARM));
    assert("arm64"@ =~= arch_name(Arch::ARM64));
    assert("x86"@ =~= arch_name(Arch::X86));
    assert("x86_64"@ =~= arch_name(Arch::X86_64));
    assert("mips"@ =~= arch_name(Arch::MIPS));
    assert("mips64"@ =~= arch_name(Arch::MIPS64));
}

impl Arch {
    /// The architecture named by `s`, compared after lowercasing; `None` for
    /// any other text (the valid names are arm, arm64, x86, x86_64, mips,
    /// mips64). `None` marks an unknown name, where a command line that
    /// cannot go on stops with an error listing the valid names.
    pub fn from_str(s: &str) -> (r: Option<Arch>)
        ensures
            r == arch_for_name(unicode_lowercase(s@)),
            is_ascii_text(s@) ==> r == arch_for_name(ascii_lowercase(s@)),
    {
        let lower = to_lowercase(s);
        let l = lower.as_str();
        proof {
            lemma_name_literals();
        }
        if same_text(l, "arm") {
            Some(Arch::ARM)
        } else if same_text(l, "arm64") {
            Some(Arch::ARM64)
        } else if same_text(l, "x86") {
            Some(Arch::X86)
        } else if same_text(l, "x86_64") {
            Some(Arch::X86_64)
        } else if same_text(l, "mips") {
            Some(Arch::MIPS)
        } else if same_text(l, "mips64") {
            Some(Arch::MIPS64)
        } else {
            None
        }
    }

    /// The short name of the architecture.
    pub fn name(&self) -> (r: &'static str)
        ensures
            r@ == arch_name(*self),
    {
        proof {
            lemma_name_literals();
        }
        match self {
            Arch::ARM => {
                "arm"
            },
            Arch::ARM64 => {
                "arm64"
            },
            Arch::X86 => {
                "x86"
            },
            Arch::X86_64 => {
                "x86_64"
            },
            Arch::MIPS => {
                "mips"
            },
            Arch::MIPS64 => {
                "mips64"
            },
        }
    }

    /// The short name of the architecture as an owned string.
    pub fn to_string(&self) -> (r: String)
        ensures
            r@ == arch_name(*self),
    {
        self.name().to_owned()
    }

    /// The target triple of the architecture.
    pub fn triple(&self) -> (r: String)
        ensures
            r@ == arch_triple(*self),
    {
        match self {
            Arch::ARM => "arm-linux-androideabi".to_owned(),
            Arch::ARM64 => "aarch64-linux-android".to_owned(),
            Arch::X86 => "i686-linux-android".to_owned(),
            Arch::X86_64 => "x86_64-linux-android".to_owned(),
            Arch::MIPS => "mips-unknown-linux-gnu".to_owned(),
            Arch::MIPS64 => "mips64-unknown-linux-gnuabi64".to_owned(),
        }
    }

    /// Every architecture, in the order the tool lists them.
    pub fn all() -> (r: Vec<Arch>)
        ensures
            r@ == all_archs(),
    {
        let v = vec![Arch::ARM, Arch::ARM64, Arch::X86, Arch::X86_64, Arch::MIPS, Arch::MIPS64];
        assert(v@ =~= all_archs());
        v
    }
}

/// Two architectures with the same triple are the same architecture.
pub proof fn lemma_triple_injective(a: Arch, b: Arch)
    requires
        arch_triple(a) == arch_triple(b),
    ensures
        a == b,
{
    reveal_strlit("arm-linux-androideabi");
    reveal_strlit("aarch64-linux-android");
    reveal_strlit("i686-linux-android");
    reveal_strlit("x86_64-linux-android");
    reveal_strlit("mips-unknown-linux-gnu");
    reveal_strlit("mips64-unknown-linux-gnuabi64");
    assert(arch_triple(Arch::ARM).len() == 21);
    assert(arch_triple(Arch::ARM64).len() == 21);
    assert(arch_triple(Arch::X86).len() == 18);
    assert(arch_triple(Arch::X86_64).len() == 20);
    assert(arch_triple(Arch::MIPS).len() == 22);
    assert(arch_triple(Arch::MIPS64).len() == 29);
    assert(arch_triple(Arch::ARM)[1] == 'r');
    assert(arch_triple(Arch::ARM64)[1] == 'a');
}

/// Each architecture's name is plain ASCII, already lowercase, and reading
/// it back gives the architecture: `Arch::from_str(a.name())` is `Some(a)`.
pub proof fn lemma_name_round_trip(a: Arch)
    ensures
        is_ascii_text(arch_name(a)),
        ascii_lowercase(arch_name(a)) == arch_name(a),
        arch_for_name(ascii_lowercase(arch_name(a))) == Some(a),
{
    let n = arch_name(a);
    assert(ascii_lowercase(n) =~= n);
}

/// The names accepted are exactly the six architecture names.
pub proof fn lemma_accepted_names(n: Seq<char>, a: Arch)
    ensures
        arch_for_name(n) == Some(a) <==> n == arch_name(a),
{
    assert(arch_name(Arch::ARM).len() == 3);
    assert(arch_name(Arch::ARM64).len() == 5);
    assert(arch_name(Arch::X86).len() == 3);
    assert(arch_name(Arch::X86_64).len() == 6);
    assert(arch_name(Arch::MIPS).len() == 4);
    assert(arch_name(Arch::MIPS64).len() == 6);
    assert(arch_name(Arch::ARM)[0] != arch_name(Arch::X86)[0]);
    assert(arch_name(Arch::X86_64)[0] != arch_name(Arch::MIPS64)[0]);
}

/// `Arch::all()` lists every architecture exactly once.
pub proof fn lemma_all_lists_each_once(a: Arch)
    ensures
        all_archs().contains(a),
        all_archs().no_duplicates(),
{
    let s = all_archs();
    match a {
        Arch::ARM => assert(s[0] == a),
        Arch::ARM64 => assert(s[1] == a),
        Arch::X86 => assert(s[2] == a),
        Arch::X86_64 => assert(s[3] == a),
        Arch::MIPS => assert(s[4] == a),
        Arch::MIPS64 => assert(s[5] == a),
    }
}

/// Which architectures the command line asks to build for.
#[derive(Debug, Clone, Copy, PartialEq, Eq, Structural)]
pub struct BuildFlags {
    pub all: bool,
    pub arm: bool,
    pub arm64: bool,
    pub x86: bool,
    pub x86_64: bool,
    pub mips: bool,
    pub mips64: bool,
}

pub open spec fn flagged(on: bool, a: Arch) -> Seq<Arch> {
    if on {
        seq![a]
    } else {
        Seq::empty()
    }
}

/// The architectures to build for: all of them when asked, else the ones
/// flagged in the order arm, arm64, x86, x86_64, mips, mips64, and x86 when
/// none is flagged.
pub open spec fn selected_targets(f: BuildFlags) -> Seq<Arch> {
    if f.all {
        all_archs()
    } else {
        let chosen = flagged(f.arm, Arch::ARM) + flagged(f.arm64, Arch::ARM64) + flagged(f.x86, Arch::X86)
            + flagged(f.x86_64, Arch::X86_64) + flagged(f.mips, Arch::MIPS) + flagged(f.mips64, Arch::MIPS64);
        if chosen.len() == 0 {
            seq![Arch::X86]
        } else {
            chosen
        }
    }
}

/// The architectures to build for, from the command-line flags.
pub fn select_build_targets(f: BuildFlags) -> (r: Vec<Arch>)
    ensures
        r@ == selected_targets(f),
{
    if f.all {
        return Arch::all();
    }
    let mut v: Vec<Arch> = Vec::new();
    if f.arm {
        v.push(Arch::ARM);
    }
    if f.arm64 {
        v.push(Arch::ARM64);
    }
    if f.x86 {
        v.push(Arch::X86);
    }
    if f.x86_64 {
        v.push(Arch::X86_64);
    }
    if f.mips {
        v.push(Arch::MIPS);
    }
    if f.mips64 {
        v.push(Arch::MIPS64);
    }
    assert(v@ =~= flagged(f.arm, Arch::ARM) + flagged(f.arm64, Arch::ARM64) + flagged(f.x86, Arch::X86)
        + flagged(f.x86_64, Arch::X86_64) + flagged(f.mips, Arch::MIPS) + flagged(f.mips64, Arch::MIPS64));
    if v.len() == 0 {
        v.push(Arch::X86);
        assert(v@ =~= seq![Arch::X86]);
    }
    v
}

proof fn lemma_flagged_contains(p: Seq<Arch>, on: bool, a: Arch, b: Arch)
    ensures
        (p + flagged(on, a)).contains(b) <==> (p.contains(b) || (on && a == b)),
{
    let q = p + flagged(on, a);
    if q.contains(b) {
        let i = choose|i: int| 0 <= i < q.len() && q[i] == b;
        if i < p.len() {
            assert(p[i] == b);
        }
    }
    if p.contains(b) {
        let i = choose|i: int| 0 <= i < p.len() && p[i] == b;
        assert(q[i] == b);
    }
    if on && a == b {
        assert(q[p.len() as int] == b);
    }
}

/// Without `--all`, an architecture is built exactly when its flag is given,
/// and x86 also when no flag is given at all; with `--all`, every
/// architecture is built.
pub proof fn lemma_selection_follows_flags(f: BuildFlags)
    ensures
        f.all ==> forall|a: Arch| #[trigger] selected_targets(f).contains(a),
        !f.all ==> (selected_targets(f).contains(Arch::ARM) <==> f.arm),
        !f.all ==> (selected_targets(f).contains(Arch::ARM64) <==> f.arm64),
        !f.all ==> (selected_targets(f).contains(Arch::X86)
            <==> (f.x86 || !(f.arm || f.arm64 || f.x86_64 || f.mips || f.mips64))),
        !f.all ==> (selected_targets(f).contains(Arch::X86_64) <==> f.x86_64),
        !f.all ==> (selected_targets(f).contains(Arch::MIPS) <==> f.mips),
        !f.all ==> (selected_targets(f).contains(Arch::MIPS64) <==> f.mips64),
{
    if f.all {
        assert forall|a: Arch| #[trigger] selected_targets(f).contains(a) by {
            lemma_all_lists_each_once(a);
        }
    } else {
        let p0 = flagged(f.arm, Arch::ARM);
        let p1 = p0 + flagged(f.arm64, Arch::ARM64);
        let p2 = p1 + flagged(f.x86, Arch::X86);
        let p3 = p2 + flagged(f.x86_64, Arch::X86_64);
        let p4 = p3 + flagged(f.mips, Arch::MIPS);
        let p5 = p4 + flagged(f.mips64, Arch::MIPS64);
        assert forall|b: Arch| #[trigger] p5.contains(b) <==> (
            (f.arm && b == Arch::ARM) || (f.arm64 && b == Arch::ARM64) || (f.x86 && b == Arch::X86)
            || (f.x86_64 && b == Arch::X86_64) || (f.mips && b == Arch::MIPS) || (f.mips64 && b == Arch::MIPS64)
        ) by {
            if p0.contains(b) {
                let i = choose|i: int| 0 <= i < p0.len() && p0[i] == b;
            }
            if f.arm && b == Arch::ARM {
                assert(p0[0] == b);
            }
            lemma_flagged_contains(p0, f.arm64, Arch::ARM64, b);
            lemma_flagged_contains(p1, f.x86, Arch::X86, b);
            lemma_flagged_contains(p2, f.x86_64, Arch::X86_64, b);
            lemma_flagged_contains(p3, f.mips, Arch::MIPS, b);
            lemma_flagged_contains(p4, f.mips64, Arch::MIPS64, b);
        }
        if f.arm || f.arm64 || f.x86 || f.x86_64 || f.mips || f.mips64 {
            assert(p5.len() > 0) by {
                if f.arm { assert(p5.contains(Arch::ARM)); }
                if f.arm64 { assert(p5.contains(Arch::ARM64)); }
                if f.x86 { assert(p5.contains(Arch::X86)); }
                if f.x86_64 { assert(p5.contains(Arch::X86_64)); }
                if f.mips { assert(p5.contains(Arch::MIPS)); }
                if f.mips64 { assert(p5.contains(Arch::MIPS64)); }
            }
        } else {
            assert(p5.len() == 0);
            assert(seq![Arch::X86][0] == Arch::X86);
            assert(seq![Arch::X86].contains(Arch::X86));
            assert(!seq![Arch::X86].contains(Arch::ARM));
            assert(!seq![Arch::X86].contains(Arch::ARM64));
            assert(!seq![Arch::X86].contains(Arch::X86_64));
            assert(!seq![Arch::X86].contains(Arch::MIPS));
            assert(!seq![Arch::X86].contains(Arch::MIPS64));
        }
        assert(selected_targets(f).contains(Arch::ARM) == p5.contains(Arch::ARM) || p5.len() == 0);
    }
}

/// The position of an architecture in `Arch::all()`.
pub open spec fn arch_rank(a: Arch) -> int {
    match a {
        Arch::ARM => 0,
        Arch::ARM64 => 1,
        Arch::X86 => 2,
        Arch::X86_64 => 3,
        Arch::MIPS => 4,
        Arch::MIPS64 => 5,
    }
}

pub open spec fn rank_increasing_below(s: Seq<Arch>, bound: int) -> bool {
    &&& forall|i: int, j: int| 0 <= i < j < s.len() ==> arch_rank(#[trigger] s[i]) < arch_rank(#[trigger] s[j])
    &&& forall|i: int| 0 <= i < s.len() ==> arch_rank(#[trigger] s[i]) < bound
}

proof fn lemma_extend(p: Seq<Arch>, on: bool, a: Arch)
    requires
        rank_increasing_below(p, arch_rank(a)),
    ensures
        rank_increasing_below(p + flagged(on, a), arch_rank(a) + 1),
{
    let q = p + flagged(on, a);
    assert forall|i: int| 0 <= i < q.len() implies arch_rank(#[trigger] q[i]) < arch_rank(a) + 1 by {
        if i >= p.len() {
            assert(q[i] == a);
        }
    }
    assert forall|i: int, j: int| 0 <= i < j < q.len() implies arch_rank(#[trigger] q[i]) < arch_rank(#[trigger] q[j]) by {
        if j >= p.len() {
            assert(q[j] == a);
            assert(q[i] == p[i]);
        }
    }
}

/// The build always has at least one architecture, and never the same one
/// twice.
pub proof fn lemma_selection_nonempty_distinct(f: BuildFlags)
    ensures
        selected_targets(f).len() > 0,
        selected_targets(f).no_duplicates(),
{
    let s = selected_targets(f);
    if f.all {
        lemma_all_lists_each_once(Arch::ARM);
    } else {
        let p0 = flagged(f.arm, Arch::ARM);
        assert(rank_increasing_below(Seq::<Arch>::empty(), 0));
        lemma_extend(Seq::<Arch>::empty(), f.arm, Arch::ARM);
        assert(Seq::<Arch>::empty() + p0 =~= p0);
        let p1 = p0 + flagged(f.arm64, Arch::ARM64);
        lemma_extend(p0, f.arm64, Arch::ARM64);
        let p2 = p1 + flagged(f.x86, Arch::X86);
        lemma_extend(p1, f.x86, Arch::X86);
        let p3 = p2 + flagged(f.x86_64, Arch::X86_64);
        lemma_extend(p2, f.x86_64, Arch::X86_64);
        let p4 = p3 + flagged(f.mips, Arch::MIPS);
        lemma_extend(p3, f.mips, Arch::MIPS);
        let p5 = p4 + flagged(f.mips64, Arch::MIPS64);
        lemma_extend(p4, f.mips64, Arch::MIPS64);
        assert forall|i: int, j: int| 0 <= i < s.len() && 0 <= j < s.len() && i != j implies s[i] != s[j] by {
            if p5.len() > 0 {
                if i < j {
                    assert(arch_rank(p5[i]) < arch_rank(p5[j]));
                } else {
                    assert(arch_rank(p5[j]) < arch_rank(p5[i]));
                }
            }
        }
    }
}

/// The NDK's script that creates standalone toolchains.
pub open spec fn make_tool(ndk_path: Seq<char>) -> Seq<char> {
    ndk_path + "/build/tools/make_standalone_toolchain.py"@
}

/// Where the standalone toolchain of an architecture is installed.
pub open spec fn toolchain_location(toolchain_target_dir: Seq<char>, a: Arch) -> Seq<char> {
    toolchain_target_dir + "/ndk-toolchain-"@ + arch_name(a)
}

/// Where an architecture's toolchain goes: below the target directory, in
/// `ndk-toolchain-` followed by that architecture's own name; two
/// architectures never share a toolchain directory.
pub proof fn lemma_toolchain_location_own(d: Seq<char>, a: Arch, b: Arch)
    ensures
        toolchain_location(d, a).take(d.len() + "/ndk-toolchain-"@.len() as int) == d + "/ndk-toolchain-"@,
        toolchain_location(d, a).skip(d.len() + "/ndk-toolchain-"@.len() as int) == arch_name(a),
        toolchain_location(d, a) == toolchain_location(d, b) ==> a == b,
{
    let p = d + "/ndk-toolchain-"@;
    let la = toolchain_location(d, a);
    let lb = toolchain_location(d, b);
    assert(la.take(p.len() as int) =~= p);
    assert(la.skip(p.len() as int) =~= arch_name(a));
    assert(lb.skip(p.len() as int) =~= arch_name(b));
    if la == lb {
        lemma_accepted_names(arch_name(a), a);
        lemma_accepted_names(arch_name(b), b);
    }
}

/// The path of the NDK's script that creates standalone toolchains.
pub fn make_tool_path(config: &Config) -> (r: String)
    ensures
        r@ == make_tool(config.ndk_path@),
{
    concat(config.ndk_path.as_str(), "/build/tools/make_standalone_toolchain.py")
}

/// Where the standalone toolchain of an architecture is installed.
pub fn toolchain_dir(config: &Config, arch: Arch) -> (r: String)
    ensures
        r@ == toolchain_location(config.toolchain_target_dir@, arch),
{
    concat3(config.toolchain_target_dir.as_str(), "/ndk-toolchain-", arch.name())
}

/// The command that creates the standalone toolchain of an architecture:
/// the NDK's script with the install directory, the API level and the
/// architecture.
pub fn install_toolchain(make_tool_path: &str, config: &Config, arch: Arch) -> (r: ShellCommand)
    ensures
        command_view(r) == (
            "make_standalone_toolchain"@,
            make_tool_path@,
            None::<Seq<char>>,
            seq![
                ("install-dir"@, toolchain_location(config.toolchain_target_dir@, arch)),
                ("api"@, decimal(config.android_version as nat)),
                ("arch"@, arch_name(arch)),
            ],
            Seq::<(Seq<char>, Seq<char>)>::empty(),
        ),
{
    let mut args: Vec<(String, String)> = Vec::new();
    args.push(("install-dir".to_owned(), toolchain_dir(config, arch)));
    args.push(("api".to_owned(), decimal_string(config.android_version)));
    args.push(("arch".to_owned(), arch.to_string()));
    let envs: Vec<(String, String)> = Vec::new();
    assert(pairs_of(args@) =~= seq![
        ("install-dir"@, toolchain_location(config.toolchain_target_dir@, arch)),
        ("api"@, decimal(config.android_version as nat)),
        ("arch"@, arch_name(arch)),
    ]);
    assert(pairs_of(envs@) =~= Seq::<(Seq<char>, Seq<char>)>::empty());
    ShellCommand {
        name: "make_standalone_toolchain".to_owned(),
        program: make_tool_path.to_owned(),
        current_dir: None,
        args,
        envs,
    }
}

/// What installing the standalone toolchains involves: the NDK's script,
/// which must exist, then for each architecture to build for, in order, the
/// toolchain's directory and the command that creates it when the directory
/// is missing.
pub struct StandalonePlan {
    pub make_tool: String,
    pub toolchains: Vec<(Arch, String, ShellCommand)>,
}

/// The plan for installing the standalone toolchains of every architecture
/// the configuration builds for.
pub fn install_standalone(config: &Config) -> (r: StandalonePlan)
    ensures
        r.make_tool@ == make_tool(config.ndk_path@),
        r.toolchains@.len() == config.build_targets@.len(),
        forall|i: int| 0 <= i < r.toolchains@.len() ==> {
            let (a, dir, cmd) = #[trigger] r.toolchains@[i];
            &&& a == config.build_targets@[i]
            &&& dir@ == toolchain_location(config.toolchain_target_dir@, a)
            &&& command_view(cmd) == (
                "make_standalone_toolchain"@,
                make_tool(config.ndk_path@),
                None::<Seq<char>>,
                seq![
                    ("install-dir"@, toolchain_location(config.toolchain_target_dir@, a)),
                    ("api"@, decimal(config.android_version as nat)),
                    ("arch"@, arch_name(a)),
                ],
                Seq::<(Seq<char>, Seq<char>)>::empty(),
            )
        },
{
    let tool = make_tool_path(config);
    let mut toolchains: Vec<(Arch, String, ShellCommand)> = Vec::new();
    let n = config.build_targets.len();
    for i in 0..n
        invariant
            n == config.build_targets@.len(),
            tool@ == make_tool(config.ndk_path@),
            toolchains@.len() == i,
            forall|j: int| 0 <= j < i ==> {
                let (a, dir, cmd) = #[trigger] toolchains@[j];
                &&& a == config.build_targets@[j]
                &&& dir@ == toolchain_location(config.toolchain_target_dir@, a)
                &&& command_view(cmd) == (
                    "make_standalone_toolchain"@,
                    make_tool(config.ndk_path@),
                    None::<Seq<char>>,
                    seq![
                        ("install-dir"@, toolchain_location(config.toolchain_target_dir@, a)),
                        ("api"@, decimal(config.android_version as nat)),
                        ("arch"@, arch_name(a)),
                    ],
                    Seq::<(Seq<char>, Seq<char>)>::empty(),
                )
            },
    {
        let a = config.build_targets[i];
        let dir = toolchain_dir(config, a);
        let cmd = install_toolchain(tool.as_str(), config, a);
        toolchains.push((a, dir, cmd));
    }
    StandalonePlan { make_tool: tool, toolchains }
}

} // verus!
