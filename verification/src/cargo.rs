use vstd::prelude::*;
use crate::config::{Config, opt_view};
use crate::ndk::{Arch, arch_name, arch_triple, lemma_accepted_names, lemma_toolchain_location_own, lemma_triple_injective, toolchain_location};
use crate::text::{concat, concat3};
use crate::toml_doc::{
    TomlItem, TomlTree, find_key, lemma_table_tree, parse_document, put_key, render_document,
    key_index, lemma_get_empty, lemma_key_index, lemma_put_get, lemma_put_same, table_get, table_put, toml_document, toml_rendering, tree_entries, tree_of,
};

verus! {

/// Why the linker configuration could not be updated.
#[derive(Debug, Clone, Copy, PartialEq, Eq, Structural)]
pub enum CargoConfigError {
    /// `.cargo/config` is not valid TOML.
    Unparsable,
    /// The document is not a table.
    RootNotTable,
    /// `target` holds something other than a table.
    TargetNotTable,
    /// `target.<triple>` holds something other than a table.
    TripleNotTable,
    /// The `toml` crate refused to write the document.
    Unwritable,
}

/// What to do about `.cargo/config`.
#[derive(Debug, Clone, Copy, PartialEq, Eq, Structural)]
pub enum ConfigAction {
    /// The file does not exist: a fresh one is due (see `fresh_config`).
    InstallFresh,
    /// The file exists and its linkers are to be set.
    UpdateExisting,
    /// The file exists and the user asked to leave its linkers alone.
    Ignore,
}

/// The path of the project's `.cargo/config`.
pub open spec fn cargo_config_file(project_path: Seq<char>) -> Seq<char> {
    project_path + "/.cargo/config"@
}

/// The path of the project's `.cargo/config`.
pub fn cargo_config_path(config: &Config) -> (r: String)
    ensures
        r@ == cargo_config_file(config.project_path@),
{
    concat(config.project_path_str(), "/.cargo/config")
}

/// What to do about `.cargo/config`, given whether the file exists: a missing
/// file asks for a fresh one, an existing one is updated unless the user
/// chose to ignore the linker configuration.
pub fn install_config(config: &Config, config_file_exists: bool) -> (r: ConfigAction)
    ensures
        r == (if !config_file_exists {
            ConfigAction::InstallFresh
        } else if !config.ignore_linker_config {
            ConfigAction::UpdateExisting
        } else {
            ConfigAction::Ignore
        }),
{
    if !config_file_exists {
        ConfigAction::InstallFresh
    } else if !config.ignore_linker_config {
        ConfigAction::UpdateExisting
    } else {
        ConfigAction::Ignore
    }
}

/// Whether the linker configuration is valid; no check is made yet.
pub fn validate_linker_config() -> (r: bool)
    ensures
        !r,
{
    false
}

/// The linker the NDK standalone toolchain of an architecture provides.
pub open spec fn linker_path(toolchain_dir: Seq<char>, a: Arch) -> Seq<char> {
    toolchain_dir + "/ndk-toolchain-"@ + arch_name(a) + "/bin/"@ + arch_triple(a) + "-gcc"@
}

/// The entries with key `k` present: when it is missing, it is added with
/// an empty table.
pub open spec fn ensured(s: Seq<(Seq<char>, TomlTree)>, k: Seq<char>) -> Seq<(Seq<char>, TomlTree)> {
    if table_get(s, k) is None {
        table_put(s, k, TomlTree::Table(Seq::empty()))
    } else {
        s
    }
}

/// The entries of the `target` table after setting `<triple>.linker`.
pub open spec fn with_triple_linker(
    targets: Seq<(Seq<char>, TomlTree)>,
    triple: Seq<char>,
    linker: Seq<char>,
) -> Result<Seq<(Seq<char>, TomlTree)>, CargoConfigError> {
    let targets1 = ensured(targets, triple);
    match table_get(targets1, triple) {
        Some(TomlTree::Table(entries)) => Ok(
            table_put(
                targets1,
                triple,
                TomlTree::Table(table_put(entries, "linker"@, TomlTree::Text(linker))),
            ),
        ),
        _ => Err(CargoConfigError::TripleNotTable),
    }
}

/// The document after setting `target.<triple>.linker` to `linker`: the
/// `target` table and the table of the triple are added when missing.
#[verifier::opaque]
pub open spec fn with_linker(doc: TomlTree, triple: Seq<char>, linker: Seq<char>) -> Result<TomlTree, CargoConfigError> {
    match doc {
        TomlTree::Table(root) => {
            let root1 = ensured(root, "target"@);
            match table_get(root1, "target"@) {
                Some(TomlTree::Table(targets)) => match with_triple_linker(targets, triple, linker) {
                    Ok(targets2) => Ok(TomlTree::Table(table_put(root1, "target"@, TomlTree::Table(targets2)))),
                    Err(e) => Err(e),
                },
                _ => Err(CargoConfigError::TargetNotTable),
            }
        },
        _ => Err(CargoConfigError::RootNotTable),
    }
}

/// The texts written for the architectures one after the other, each the
/// document with the linkers of all architectures so far; stops at the first
/// failure, which comes second.
pub open spec fn linker_run(doc: TomlTree, toolchain_dir: Seq<char>, archs: Seq<Arch>) -> (Seq<Seq<char>>, Option<CargoConfigError>)
    decreases archs.len(),
{
    if archs.len() == 0 {
        (Seq::empty(), None)
    } else {
        match with_linker(doc, arch_triple(archs[0]), linker_path(toolchain_dir, archs[0])) {
            Err(e) => (Seq::empty(), Some(e)),
            Ok(next) => match toml_rendering(next) {
                None => (Seq::empty(), Some(CargoConfigError::Unwritable)),
                Some(text) => {
                    let rest = linker_run(next, toolchain_dir, archs.skip(1));
                    (seq![text] + rest.0, rest.1)
                },
            },
        }
    }
}

/// The outcome of updating an existing `.cargo/config`: the texts to write
/// to the file one after the other, then the failure that stopped the
/// update, if any. A failure marks a document the update cannot go on with:
/// the caller writes the texts before it and then stops with an error, so
/// the file holds the updates of the architectures before the failing one.
pub struct LinkerUpdate {
    pub snapshots: Vec<String>,
    pub failure: Option<CargoConfigError>,
}

pub open spec fn snapshot_views(v: Seq<String>) -> Seq<Seq<char>> {
    v.map_values(|s: String| s@)
}

fn empty_table() -> (r: TomlItem)
    ensures
        tree_of(r) == TomlTree::Table(Seq::empty()),
{
    let empty: Vec<(String, TomlItem)> = Vec::new();
    proof {
        lemma_table_tree(empty);
        assert(tree_entries(empty@) =~= Seq::<(Seq<char>, TomlTree)>::empty());
    }
    TomlItem::Table(empty)
}

/// Adds key `k` with an empty table when it is missing; returns where the
/// key is.
fn ensure_key(es: &mut Vec<(String, TomlItem)>, k: &str) -> (i: usize)
    ensures
        tree_entries(final(es)@) == ensured(tree_entries(old(es)@), k@),
        key_index(tree_entries(final(es)@), k@) == Some(i as int),
        i < final(es)@.len(),
{
    let ghost s0 = tree_entries(es@);
    if find_key(es, k).is_none() {
        put_key(es, k.to_owned(), empty_table());
    }
    proof {
        lemma_put_get(s0, k@, TomlTree::Table(Seq::empty()), k@);
    }
    match find_key(es, k) {
        Some(i) => i,
        None => {
            assert(false);
            0
        },
    }
}

/// Replaces the value at position `i` of a table; the key stays.
proof fn lemma_replace_at(s: Seq<(Seq<char>, TomlTree)>, k: Seq<char>, i: int, v: TomlTree)
    requires
        key_index(s, k) == Some(i),
    ensures
        0 <= i < s.len(),
        s.update(i, (k, v)) == table_put(s, k, v),
        s[i].0 == k,
{
    lemma_key_index(s, k);
}

fn set_triple_linker(targets: Vec<(String, TomlItem)>, triple: &str, linker: &str) -> (r: Result<Vec<(String, TomlItem)>, CargoConfigError>)
    ensures
        match r {
            Ok(t) => with_triple_linker(tree_entries(targets@), triple@, linker@) == Ok::<Seq<(Seq<char>, TomlTree)>, CargoConfigError>(tree_entries(t@)),
            Err(e) => with_triple_linker(tree_entries(targets@), triple@, linker@) == Err::<Seq<(Seq<char>, TomlTree)>, CargoConfigError>(e),
        },
{
    proof {
        reveal_strlit("linker");
    }
    let mut targets = targets;
    let j = ensure_key(&mut targets, triple);
    let ghost targets1 = tree_entries(targets@);
    proof {
        lemma_key_index(targets1, triple@);
    }
    let (trk, entry) = targets.remove(j);
    assert(tree_of(entry) == targets1[j as int].1);
    match entry {
        TomlItem::Table(mut entries) => {
            proof {
                lemma_table_tree(entries);
            }
            put_key(&mut entries, "linker".to_owned(), TomlItem::Text(linker.to_owned()));
            let new_entry = TomlItem::Table(entries);
            proof {
                lemma_table_tree(entries);
                lemma_replace_at(targets1, triple@, j as int, tree_of(new_entry));
            }
            targets.insert(j, (trk, new_entry));
            assert(tree_entries(targets@) =~= targets1.update(j as int, (triple@, tree_of(new_entry))));
            Ok(targets)
        },
        _ => Err(CargoConfigError::TripleNotTable),
    }
}

fn set_linker(doc: TomlItem, triple: &str, linker: &str) -> (r: Result<TomlItem, CargoConfigError>)
    ensures
        match r {
            Ok(d) => with_linker(tree_of(doc), triple@, linker@) == Ok::<TomlTree, CargoConfigError>(tree_of(d)),
            Err(e) => with_linker(tree_of(doc), triple@, linker@) == Err::<TomlTree, CargoConfigError>(e),
        },
{
    proof {
        reveal_strlit("target");
        reveal(with_linker);
    }
    match doc {
        TomlItem::Table(mut root) => {
            proof {
                lemma_table_tree(root);
            }
            let i = ensure_key(&mut root, "target");
            let ghost root1 = tree_entries(root@);
            proof {
                lemma_key_index(root1, "target"@);
            }
            let (tk, target) = root.remove(i);
            assert(tree_of(target) == root1[i as int].1);
            match target {
                TomlItem::Table(targets) => {
                    proof {
                        lemma_table_tree(targets);
                    }
                    match set_triple_linker(targets, triple, linker) {
                        Ok(targets2) => {
                            let new_target = TomlItem::Table(targets2);
                            proof {
                                lemma_table_tree(targets2);
                                lemma_replace_at(root1, "target"@, i as int, tree_of(new_target));
                            }
                            root.insert(i, (tk, new_target));
                            assert(tree_entries(root@) =~= root1.update(i as int, ("target"@, tree_of(new_target))));
                            let result = TomlItem::Table(root);
                            proof {
                                lemma_table_tree(root);
                            }
                            Ok(result)
                        },
                        Err(e) => Err(e),
                    }
                },
                _ => Err(CargoConfigError::TargetNotTable),
            }
        },
        _ => Err(CargoConfigError::RootNotTable),
    }
}

/// The linker of an architecture's standalone toolchain.
pub fn toolchain_linker(toolchain_dir: &str, a: Arch) -> (r: String)
    ensures
        r@ == linker_path(toolchain_dir@, a),
{
    let head = concat3(toolchain_dir, "/ndk-toolchain-", a.name());
    let triple = a.triple();
    let tail = concat3("/bin/", triple.as_str(), "-gcc");
    concat(head.as_str(), tail.as_str())
}

/// Sets, in the text of an existing `.cargo/config`, the linker of every
/// architecture the configuration builds for: `target.<triple>.linker`
/// becomes the `gcc` of that architecture's standalone NDK toolchain. Gives
/// the text written after each architecture, in order, and the failure that
/// stopped the update, if any; a text that is not valid TOML stops it before
/// anything is written.
pub fn update_existing_config(config: &Config, contents: &str) -> (r: LinkerUpdate)
    ensures
        match toml_document(contents@) {
            None => r.snapshots@.len() == 0 && r.failure == Some(CargoConfigError::Unparsable),
            Some(d) => (snapshot_views(r.snapshots@), r.failure) == linker_run(
                d,
                config.toolchain_target_dir@,
                config.build_targets@,
            ),
        },
{
    let mut doc = match parse_document(contents) {
        Some(d) => d,
        None => {
            return LinkerUpdate { snapshots: Vec::new(), failure: Some(CargoConfigError::Unparsable) };
        },
    };
    let ghost d0 = tree_of(doc);
    let ghost dir = config.toolchain_target_dir@;
    let ghost archs = config.build_targets@;
    let mut snapshots: Vec<String> = Vec::new();
    let n = config.build_targets.len();
    assert(archs.skip(0) =~= archs);
    assert(snapshot_views(snapshots@) =~= Seq::<Seq<char>>::empty());
    for k in 0..n
        invariant
            n == archs.len(),
            toml_document(contents@) == Some(d0),
            archs == config.build_targets@,
            dir == config.toolchain_target_dir@,
            linker_run(d0, dir, archs) == (
                snapshot_views(snapshots@) + linker_run(tree_of(doc), dir, archs.skip(k as int)).0,
                linker_run(tree_of(doc), dir, archs.skip(k as int)).1,
            ),
    {
        let a = config.build_targets[k];
        let ghost rest = archs.skip(k as int);
        assert(rest[0] == a);
        assert(rest.skip(1) =~= archs.skip(k + 1));
        let triple = a.triple();
        let linker = toolchain_linker(config.toolchain_target_dir.as_str(), a);
        match set_linker(doc, triple.as_str(), linker.as_str()) {
            Err(e) => {
                assert(snapshot_views(snapshots@) + Seq::<Seq<char>>::empty() =~= snapshot_views(snapshots@));
                return LinkerUpdate { snapshots, failure: Some(e) };
            },
            Ok(next) => match render_document(&next) {
                None => {
                    assert(snapshot_views(snapshots@) + Seq::<Seq<char>>::empty() =~= snapshot_views(snapshots@));
                    return LinkerUpdate { snapshots, failure: Some(CargoConfigError::Unwritable) };
                },
                Some(text) => {
                    let ghost before = snapshot_views(snapshots@);
                    snapshots.push(text);
                    assert(snapshot_views(snapshots@) =~= before.push(text@));
                    assert(before + (seq![text@] + linker_run(tree_of(next), dir, archs.skip(k + 1)).0)
                        =~= snapshot_views(snapshots@) + linker_run(tree_of(next), dir, archs.skip(k + 1)).0);
                    doc = next;
                },
            },
        }
    }
    assert(archs.skip(n as int) =~= Seq::<Arch>::empty());
    assert(snapshot_views(snapshots@) + Seq::<Seq<char>>::empty() =~= snapshot_views(snapshots@));
    LinkerUpdate { snapshots, failure: None }
}

/// The value of `target.<triple>.linker` in a document, if there is one.
pub open spec fn linker_of(doc: TomlTree, triple: Seq<char>) -> Option<TomlTree> {
    match doc {
        TomlTree::Table(root) => match table_get(root, "target"@) {
            Some(TomlTree::Table(targets)) => match table_get(targets, triple) {
                Some(TomlTree::Table(entries)) => table_get(entries, "linker"@),
                _ => None,
            },
            _ => None,
        },
        _ => None,
    }
}

/// The document after setting the linkers of all architectures in order,
/// or the first failure.
pub open spec fn final_config(doc: TomlTree, toolchain_dir: Seq<char>, archs: Seq<Arch>) -> Result<TomlTree, CargoConfigError>
    decreases archs.len(),
{
    if archs.len() == 0 {
        Ok(doc)
    } else {
        match with_linker(doc, arch_triple(archs[0]), linker_path(toolchain_dir, archs[0])) {
            Ok(next) => final_config(next, toolchain_dir, archs.skip(1)),
            Err(e) => Err(e),
        }
    }
}

proof fn lemma_ensured_get(s: Seq<(Seq<char>, TomlTree)>, k: Seq<char>, k2: Seq<char>)
    ensures
        table_get(ensured(s, k), k) is Some,
        table_get(s, k) is Some ==> table_get(ensured(s, k), k) == table_get(s, k),
        table_get(s, k) is None ==> table_get(ensured(s, k), k) == Some(TomlTree::Table(Seq::empty())),
        k2 != k ==> table_get(ensured(s, k), k2) == table_get(s, k2),
{
    lemma_put_get(s, k, TomlTree::Table(Seq::empty()), k2);
}

/// After the linker of a triple is set, reading `target.<triple>.linker`
/// gives it, and setting it again changes nothing.
pub proof fn lemma_linker_set(doc: TomlTree, triple: Seq<char>, linker: Seq<char>)
    requires
        with_linker(doc, triple, linker) is Ok,
    ensures
        linker_of(with_linker(doc, triple, linker)->Ok_0, triple) == Some(TomlTree::Text(linker)),
        with_linker(with_linker(doc, triple, linker)->Ok_0, triple, linker) == with_linker(doc, triple, linker),
{
    reveal(with_linker);
    reveal_strlit("target");
    reveal_strlit("linker");
    let t = "target"@;
    let l = "linker"@;
    if let TomlTree::Table(root) = doc {
        let root1 = ensured(root, t);
        lemma_ensured_get(root, t, t);
        if let Some(TomlTree::Table(targets)) = table_get(root1, t) {
            let targets1 = ensured(targets, triple);
            lemma_ensured_get(targets, triple, triple);
            if let Some(TomlTree::Table(entries)) = table_get(targets1, triple) {
                let e2 = table_put(entries, l, TomlTree::Text(linker));
                let t2 = table_put(targets1, triple, TomlTree::Table(e2));
                let r2 = table_put(root1, t, TomlTree::Table(t2));
                lemma_put_get(entries, l, TomlTree::Text(linker), l);
                lemma_put_get(targets1, triple, TomlTree::Table(e2), triple);
                lemma_put_get(root1, t, TomlTree::Table(t2), t);
                assert(with_linker(doc, triple, linker) == Ok::<TomlTree, CargoConfigError>(TomlTree::Table(r2)));
                lemma_ensured_get(r2, t, t);
                assert(ensured(r2, t) == r2);
                lemma_ensured_get(t2, triple, triple);
                assert(ensured(t2, triple) == t2);
                lemma_put_same(e2, l, TomlTree::Text(linker));
                lemma_put_same(t2, triple, TomlTree::Table(e2));
                lemma_put_same(r2, t, TomlTree::Table(t2));
            }
        }
    }
}

/// Setting the linker of one triple leaves the linker of every other triple
/// as it was.
pub proof fn lemma_linker_others_kept(doc: TomlTree, triple: Seq<char>, linker: Seq<char>, other: Seq<char>)
    requires
        with_linker(doc, triple, linker) is Ok,
        other != triple,
    ensures
        linker_of(with_linker(doc, triple, linker)->Ok_0, other) == linker_of(doc, other),
{
    reveal(with_linker);
    reveal_strlit("target");
    reveal_strlit("linker");
    let t = "target"@;
    let l = "linker"@;
    if let TomlTree::Table(root) = doc {
        let root1 = ensured(root, t);
        lemma_ensured_get(root, t, t);
        if let Some(TomlTree::Table(targets)) = table_get(root1, t) {
            let targets1 = ensured(targets, triple);
            lemma_ensured_get(targets, triple, other);
            if let Some(TomlTree::Table(entries)) = table_get(targets1, triple) {
                let e2 = table_put(entries, l, TomlTree::Text(linker));
                let t2 = table_put(targets1, triple, TomlTree::Table(e2));
                lemma_put_get(targets1, triple, TomlTree::Table(e2), other);
                lemma_put_get(root1, t, TomlTree::Table(t2), t);
                if table_get(root, t) is None {
                    lemma_get_empty(other);
                }
            }
        }
    }
}

/// Once the linkers of all architectures are set, `target.<triple>.linker`
/// of every one of them names the `gcc` of its standalone toolchain.
pub proof fn lemma_every_linker_set(doc: TomlTree, toolchain_dir: Seq<char>, archs: Seq<Arch>, i: int)
    requires
        final_config(doc, toolchain_dir, archs) is Ok,
        0 <= i < archs.len(),
    ensures
        linker_of(final_config(doc, toolchain_dir, archs)->Ok_0, arch_triple(archs[i]))
            == Some(TomlTree::Text(linker_path(toolchain_dir, archs[i]))),
    decreases archs.len(),
{
    let a0 = archs[0];
    let next = with_linker(doc, arch_triple(a0), linker_path(toolchain_dir, a0))->Ok_0;
    let rest = archs.skip(1);
    if i > 0 {
        assert(rest[i - 1] == archs[i]);
        lemma_every_linker_set(next, toolchain_dir, rest, i - 1);
    } else {
        lemma_linker_set(doc, arch_triple(a0), linker_path(toolchain_dir, a0));
        lemma_linker_kept_through(next, toolchain_dir, rest, a0);
    }
}

/// Setting the linkers of further architectures keeps the linker of an
/// architecture already set.
proof fn lemma_linker_kept_through(doc: TomlTree, toolchain_dir: Seq<char>, archs: Seq<Arch>, a: Arch)
    requires
        final_config(doc, toolchain_dir, archs) is Ok,
        linker_of(doc, arch_triple(a)) == Some(TomlTree::Text(linker_path(toolchain_dir, a))),
    ensures
        linker_of(final_config(doc, toolchain_dir, archs)->Ok_0, arch_triple(a))
            == Some(TomlTree::Text(linker_path(toolchain_dir, a))),
    decreases archs.len(),
{
    if archs.len() > 0 {
        let b = archs[0];
        let next = with_linker(doc, arch_triple(b), linker_path(toolchain_dir, b))->Ok_0;
        if arch_triple(b) == arch_triple(a) {
            lemma_triple_injective(a, b);
            lemma_linker_set(doc, arch_triple(b), linker_path(toolchain_dir, b));
        } else {
            lemma_linker_others_kept(doc, arch_triple(b), linker_path(toolchain_dir, b), arch_triple(a));
        }
        lemma_linker_kept_through(next, toolchain_dir, archs.skip(1), a);
    }
}

/// When an update runs through without failure, one text is written per
/// architecture, and the last one is the rendering of the document with
/// the linkers of all architectures set.
pub proof fn lemma_run_writes_final(doc: TomlTree, toolchain_dir: Seq<char>, archs: Seq<Arch>)
    requires
        linker_run(doc, toolchain_dir, archs).1 is None,
    ensures
        linker_run(doc, toolchain_dir, archs).0.len() == archs.len(),
        final_config(doc, toolchain_dir, archs) is Ok,
        archs.len() > 0 ==> toml_rendering(final_config(doc, toolchain_dir, archs)->Ok_0)
            == Some(linker_run(doc, toolchain_dir, archs).0.last()),
    decreases archs.len(),
{
    if archs.len() > 0 {
        let next = with_linker(doc, arch_triple(archs[0]), linker_path(toolchain_dir, archs[0]))->Ok_0;
        lemma_run_writes_final(next, toolchain_dir, archs.skip(1));
    }
}

/// A value that is a table, or no value.
pub open spec fn table_or_absent(v: Option<TomlTree>) -> bool {
    match v {
        Some(TomlTree::Table(_)) => true,
        Some(_) => false,
        None => true,
    }
}

/// Every entry of a `target` table is a table.
pub open spec fn targets_are_tables(targets: Seq<(Seq<char>, TomlTree)>) -> bool {
    forall|k: Seq<char>| table_or_absent(#[trigger] table_get(targets, k))
}

/// A document the linker of any triple can be set in: a table whose
/// `target` entry, if there is one, is a table of tables.
pub open spec fn linker_ready(doc: TomlTree) -> bool {
    match doc {
        TomlTree::Table(root) => match table_get(root, "target"@) {
            None => true,
            Some(TomlTree::Table(targets)) => targets_are_tables(targets),
            _ => false,
        },
        _ => false,
    }
}

/// Setting a linker in a ready document succeeds, and the document stays
/// ready.
proof fn lemma_ready_step(doc: TomlTree, triple: Seq<char>, linker: Seq<char>)
    requires
        linker_ready(doc),
    ensures
        with_linker(doc, triple, linker) is Ok,
        linker_ready(with_linker(doc, triple, linker)->Ok_0),
{
    reveal(with_linker);
    let t = "target"@;
    let l = "linker"@;
    if let TomlTree::Table(root) = doc {
        let root1 = ensured(root, t);
        lemma_ensured_get(root, t, t);
        if table_get(root, t) is None {
            assert forall|k: Seq<char>| table_or_absent(#[trigger] table_get(Seq::<(Seq<char>, TomlTree)>::empty(), k)) by {
                lemma_get_empty(k);
            }
        }
        let targets = table_get(root1, t)->Some_0->Table_0;
        assert(targets_are_tables(targets));
        let targets1 = ensured(targets, triple);
        lemma_ensured_get(targets, triple, triple);
        assert(table_get(targets1, triple) matches Some(TomlTree::Table(_)));
        let entries = table_get(targets1, triple)->Some_0->Table_0;
        let e2 = table_put(entries, l, TomlTree::Text(linker));
        let t2 = table_put(targets1, triple, TomlTree::Table(e2));
        let r2 = table_put(root1, t, TomlTree::Table(t2));
        assert(with_linker(doc, triple, linker) == Ok::<TomlTree, CargoConfigError>(TomlTree::Table(r2)));
        lemma_put_get(root1, t, TomlTree::Table(t2), t);
        assert forall|k: Seq<char>| table_or_absent(#[trigger] table_get(t2, k)) by {
            lemma_put_get(targets1, triple, TomlTree::Table(e2), k);
            lemma_ensured_get(targets, triple, k);
        }
    }
}

/// Setting the linkers of any architectures in a ready document never fails.
proof fn lemma_ready_run(doc: TomlTree, toolchain_dir: Seq<char>, archs: Seq<Arch>)
    requires
        linker_ready(doc),
    ensures
        final_config(doc, toolchain_dir, archs) is Ok,
    decreases archs.len(),
{
    if archs.len() > 0 {
        lemma_ready_step(doc, arch_triple(archs[0]), linker_path(toolchain_dir, archs[0]));
        let next = with_linker(doc, arch_triple(archs[0]), linker_path(toolchain_dir, archs[0]))->Ok_0;
        lemma_ready_run(next, toolchain_dir, archs.skip(1));
    }
}

/// The document of a fresh `.cargo/config`: an empty document with the
/// linkers of the given architectures set.
pub open spec fn fresh_document(toolchain_dir: Seq<char>, archs: Seq<Arch>) -> Result<TomlTree, CargoConfigError> {
    final_config(TomlTree::Table(Seq::empty()), toolchain_dir, archs)
}

/// A fresh configuration always takes the linkers, and in it
/// `target.<triple>.linker` of every architecture names the `gcc` of that
/// architecture's standalone toolchain.
pub proof fn lemma_fresh_config_sets_every_linker(toolchain_dir: Seq<char>, archs: Seq<Arch>)
    ensures
        fresh_document(toolchain_dir, archs) is Ok,
        forall|i: int| 0 <= i < archs.len() ==>
            linker_of(fresh_document(toolchain_dir, archs)->Ok_0, arch_triple(#[trigger] archs[i]))
                == Some(TomlTree::Text(linker_path(toolchain_dir, archs[i]))),
{
    lemma_get_empty("target"@);
    lemma_ready_run(TomlTree::Table(Seq::empty()), toolchain_dir, archs);
    assert forall|i: int| 0 <= i < archs.len() implies
        linker_of(fresh_document(toolchain_dir, archs)->Ok_0, arch_triple(#[trigger] archs[i]))
            == Some(TomlTree::Text(linker_path(toolchain_dir, archs[i]))) by {
        lemma_every_linker_set(TomlTree::Table(Seq::empty()), toolchain_dir, archs, i);
    }
}

/// The text of a fresh `.cargo/config` that sets, for every architecture the
/// configuration builds for, `target.<triple>.linker` to the `gcc` of that
/// architecture's standalone NDK toolchain; `None` when the `toml` crate
/// refuses to write it.
pub fn fresh_config(config: &Config) -> (r: Option<String>)
    ensures
        fresh_document(config.toolchain_target_dir@, config.build_targets@) is Ok,
        opt_view(r) == toml_rendering(fresh_document(config.toolchain_target_dir@, config.build_targets@)->Ok_0),
{
    let ghost dir = config.toolchain_target_dir@;
    let ghost archs = config.build_targets@;
    proof {
        lemma_fresh_config_sets_every_linker(dir, archs);
        assert(archs.skip(0) =~= archs);
    }
    let mut doc = empty_table();
    let n = config.build_targets.len();
    for k in 0..n
        invariant
            n == archs.len(),
            archs == config.build_targets@,
            dir == config.toolchain_target_dir@,
            fresh_document(dir, archs) is Ok,
            fresh_document(dir, archs) == final_config(tree_of(doc), dir, archs.skip(k as int)),
    {
        let a = config.build_targets[k];
        let ghost rest = archs.skip(k as int);
        assert(rest[0] == a);
        assert(rest.skip(1) =~= archs.skip(k + 1));
        let triple = a.triple();
        let linker = toolchain_linker(config.toolchain_target_dir.as_str(), a);
        match set_linker(doc, triple.as_str(), linker.as_str()) {
            Ok(next) => {
                doc = next;
            },
            Err(e) => {
                assert(false);
                return None;
            },
        }
    }
    assert(archs.skip(n as int) =~= Seq::<Arch>::empty());
    render_document(&doc)
}

proof fn lemma_name_without_slash(a: Arch)
    ensures
        forall|j: int| 0 <= j < arch_name(a).len() ==> arch_name(a)[j] != '/',
{
}

/// An architecture's linker is the `gcc` in the `bin` directory of that
/// architecture's own toolchain, named after the architecture's own triple;
/// two architectures never share a linker.
pub proof fn lemma_linker_path_own(d: Seq<char>, a: Arch, b: Arch)
    ensures
        linker_path(d, a).take(toolchain_location(d, a).len() + "/bin/"@.len() as int)
            == toolchain_location(d, a) + "/bin/"@,
        linker_path(d, a).skip(toolchain_location(d, a).len() + "/bin/"@.len() as int)
            == arch_triple(a) + "-gcc"@,
        linker_path(d, a) == linker_path(d, b) ==> a == b,
{
    let pa = toolchain_location(d, a) + "/bin/"@;
    let la = linker_path(d, a);
    assert(la =~= pa + (arch_triple(a) + "-gcc"@));
    assert(la.take(pa.len() as int) =~= pa);
    assert(la.skip(pa.len() as int) =~= arch_triple(a) + "-gcc"@);
    if la == linker_path(d, b) {
        let lb = linker_path(d, b);
        let g = "-gcc"@;
        let ta = arch_triple(a);
        let tb = arch_triple(b);
        assert(lb =~= toolchain_location(d, b) + "/bin/"@ + (tb + g));
        lemma_toolchain_location_own(d, a, b);
        assert(toolchain_location(d, a).skip(d.len() + "/ndk-toolchain-"@.len() as int) == arch_name(a));
        assert(toolchain_location(d, b).skip(d.len() + "/ndk-toolchain-"@.len() as int) == arch_name(b));
        // The names of both architectures contain no `/`, so the directory
        // parts end at the same place.
        lemma_name_without_slash(a);
        lemma_name_without_slash(b);
        let p = d + "/ndk-toolchain-"@;
        let na = arch_name(a);
        let nb = arch_name(b);
        assert(la =~= p + (na + ("/bin/"@ + (ta + g))));
        assert(lb =~= p + (nb + ("/bin/"@ + (tb + g))));
        let ra = na + ("/bin/"@ + (ta + g));
        let rb = nb + ("/bin/"@ + (tb + g));
        assert(ra =~= la.skip(p.len() as int));
        assert(rb =~= lb.skip(p.len() as int));
        reveal_strlit("/bin/");
        if na.len() < nb.len() {
            assert(ra[na.len() as int] == '/');
            assert(rb[na.len() as int] == nb[na.len() as int]);
        } else if nb.len() < na.len() {
            assert(rb[nb.len() as int] == '/');
            assert(ra[nb.len() as int] == na[nb.len() as int]);
        }
        assert(na.len() == nb.len());
        assert(na =~= ra.take(na.len() as int));
        assert(nb =~= rb.take(nb.len() as int));
        lemma_accepted_names(na, a);
        lemma_accepted_names(nb, b);
    }
}

/// After the linkers are set, the linker under `target.<triple>` of every
/// architecture is the `gcc` of its own toolchain named after that same
/// triple.
pub proof fn lemma_linker_matches_its_table(doc: TomlTree, toolchain_dir: Seq<char>, archs: Seq<Arch>, i: int)
    requires
        final_config(doc, toolchain_dir, archs) is Ok,
        0 <= i < archs.len(),
    ensures
        linker_of(final_config(doc, toolchain_dir, archs)->Ok_0, arch_triple(archs[i])) matches Some(TomlTree::Text(p))
            && p.take(toolchain_location(toolchain_dir, archs[i]).len() + "/bin/"@.len() as int)
                == toolchain_location(toolchain_dir, archs[i]) + "/bin/"@
            && p.skip(toolchain_location(toolchain_dir, archs[i]).len() + "/bin/"@.len() as int)
                == arch_triple(archs[i]) + "-gcc"@,
{
    lemma_every_linker_set(doc, toolchain_dir, archs, i);
    lemma_linker_path_own(toolchain_dir, archs[i], archs[i]);
}

} // verus!
