use vstd::prelude::*;

verus! {

#[verifier::external_type_specification]
#[verifier::external_body]
pub struct ExTomlValue(toml::Value);

/// A TOML value as the tool works with it: strings and tables are open to
/// the logic, every other value (numbers, booleans, dates, arrays) is carried
/// through unchanged.
pub enum TomlItem {
    Text(String),
    Table(Vec<(String, TomlItem)>),
    Other(toml::Value),
}

/// The mathematical form of a `TomlItem`: texts as character sequences,
/// tables as sequences of key and value.
pub enum TomlTree {
    Text(Seq<char>),
    Table(Seq<(Seq<char>, TomlTree)>),
    Other(toml::Value),
}

/// The mathematical form of a TOML item.
pub open spec fn tree_of(item: TomlItem) -> TomlTree
    decreases item,
{
    match item {
        TomlItem::Text(s) => TomlTree::Text(s@),
        TomlItem::Table(es) => TomlTree::Table(
            Seq::new(
                es@.len(),
                |i: int|
                    if 0 <= i < es@.len() {
                        proof {
                            assert(decreases_to!(es => es@));
                            assert(decreases_to!(es@ => es@[i]));
                            assert(decreases_to!(es@[i] => es@[i].1));
                        }
                        (es@[i].0@, tree_of(es@[i].1))
                    } else {
                        (Seq::empty(), TomlTree::Text(Seq::empty()))
                    },
            ),
        ),
        TomlItem::Other(v) => TomlTree::Other(v),
    }
}

/// The mathematical form of the entries of a table.
pub open spec fn tree_entries(es: Seq<(String, TomlItem)>) -> Seq<(Seq<char>, TomlTree)> {
    Seq::new(es.len(), |i: int| (es[i].0@, tree_of(es[i].1)))
}

pub proof fn lemma_table_tree(es: Vec<(String, TomlItem)>)
    ensures
        tree_of(TomlItem::Table(es)) == TomlTree::Table(tree_entries(es@)),
{
    match tree_of(TomlItem::Table(es)) {
        TomlTree::Table(s) => {
            assert(s.len() == es@.len());
            assert forall|i: int| 0 <= i < s.len() implies s[i] == tree_entries(es@)[i] by {}
            assert(s =~= tree_entries(es@));
        },
        _ => {},
    }
}

/// Position of the first entry with key `k`, if any.
pub open spec fn key_index(s: Seq<(Seq<char>, TomlTree)>, k: Seq<char>) -> Option<int> {
    if exists|i: int| 0 <= i < s.len() && s[i].0 == k {
        Some(
            choose|i: int|
                0 <= i < s.len() && s[i].0 == k && forall|j: int| 0 <= j < i ==> s[j].0 != k,
        )
    } else {
        None
    }
}

/// The value of the first entry with key `k`, if any.
pub open spec fn table_get(s: Seq<(Seq<char>, TomlTree)>, k: Seq<char>) -> Option<TomlTree> {
    match key_index(s, k) {
        Some(i) => Some(s[i].1),
        None => None,
    }
}

/// The entries after setting key `k` to `v`: the first entry with that key
/// takes the new value, or the pair is added at the end.
pub open spec fn table_put(s: Seq<(Seq<char>, TomlTree)>, k: Seq<char>, v: TomlTree) -> Seq<(Seq<char>, TomlTree)> {
    match key_index(s, k) {
        Some(i) => s.update(i, (k, v)),
        None => s.push((k, v)),
    }
}

pub proof fn lemma_key_index_found(s: Seq<(Seq<char>, TomlTree)>, k: Seq<char>, i: int)
    requires
        0 <= i < s.len(),
        s[i].0 == k,
        forall|j: int| 0 <= j < i ==> s[j].0 != k,
    ensures
        key_index(s, k) == Some(i),
{
    let m = lemma_first_match(s, k, i);
    let c = choose|c: int|
        0 <= c < s.len() && s[c].0 == k && forall|j: int| 0 <= j < c ==> s[j].0 != k;
    assert(0 <= c < s.len() && s[c].0 == k && forall|j: int| 0 <= j < c ==> s[j].0 != k);
    if c < i {
        assert(s[c].0 != k);
    }
    if i < c {
        assert(s[i].0 != k);
    }
}

proof fn lemma_first_match(s: Seq<(Seq<char>, TomlTree)>, k: Seq<char>, i: int) -> (m: int)
    requires
        0 <= i < s.len(),
        s[i].0 == k,
    ensures
        0 <= m <= i,
        s[m].0 == k,
        forall|j: int| 0 <= j < m ==> s[j].0 != k,
    decreases i,
{
    if exists|j: int| 0 <= j < i && s[j].0 == k {
        let j = choose|j: int| 0 <= j < i && s[j].0 == k;
        lemma_first_match(s, k, j)
    } else {
        i
    }
}

/// What `key_index` gives: the first position holding the key, or `None`
/// when no entry has it.
pub proof fn lemma_key_index(s: Seq<(Seq<char>, TomlTree)>, k: Seq<char>)
    ensures
        match key_index(s, k) {
            Some(i) => 0 <= i < s.len() && s[i].0 == k && forall|j: int| 0 <= j < i ==> s[j].0 != k,
            None => forall|j: int| 0 <= j < s.len() ==> s[j].0 != k,
        },
{
    if exists|i: int| 0 <= i < s.len() && s[i].0 == k {
        let i = choose|i: int| 0 <= i < s.len() && s[i].0 == k;
        let m = lemma_first_match(s, k, i);
        assert(0 <= m < s.len() && s[m].0 == k && forall|j: int| 0 <= j < m ==> s[j].0 != k);
    }
}

/// After setting a key, reading it gives the value set, and reading any
/// other key gives what it gave before.
pub proof fn lemma_put_get(s: Seq<(Seq<char>, TomlTree)>, k: Seq<char>, v: TomlTree, k2: Seq<char>)
    ensures
        table_get(table_put(s, k, v), k) == Some(v),
        key_index(table_put(s, k, v), k) is Some,
        k2 != k ==> table_get(table_put(s, k, v), k2) == table_get(s, k2),
        k2 != k ==> key_index(table_put(s, k, v), k2) == key_index(s, k2),
{
    let t = table_put(s, k, v);
    lemma_key_index(s, k);
    lemma_key_index(s, k2);
    match key_index(s, k) {
        Some(i) => {
            lemma_key_index_found(t, k, i);
        },
        None => {
            assert forall|j: int| 0 <= j < s.len() implies s[j].0 != k by {}
            lemma_key_index_found(t, k, s.len() as int);
        },
    }
    if k2 != k {
        match key_index(s, k2) {
            Some(i) => {
                assert(t[i] == s[i]);
                assert forall|j: int| 0 <= j < i implies t[j].0 != k2 by {
                    assert(t[j].0 == s[j].0 || t[j].0 == k);
                }
                lemma_key_index_found(t, k2, i);
            },
            None => {
                assert forall|j: int| 0 <= j < t.len() implies t[j].0 != k2 by {
                    if j < s.len() {
                        assert(t[j].0 == s[j].0 || t[j].0 == k);
                    }
                }
            },
        }
    }
}

/// Setting a key to the value it already has changes nothing.
pub proof fn lemma_put_same(s: Seq<(Seq<char>, TomlTree)>, k: Seq<char>, v: TomlTree)
    requires
        table_get(s, k) == Some(v),
    ensures
        table_put(s, k, v) == s,
{
    lemma_key_index(s, k);
    let i = key_index(s, k)->0;
    assert(s[i] == (k, v));
    assert(s.update(i, (k, v)) =~= s);
}

/// An empty table has no keys.
pub proof fn lemma_get_empty(k: Seq<char>)
    ensures
        table_get(Seq::<(Seq<char>, TomlTree)>::empty(), k) is None,
{
    lemma_key_index(Seq::<(Seq<char>, TomlTree)>::empty(), k);
}

/// Position of the first entry of a table with key `k`.
pub fn find_key(es: &Vec<(String, TomlItem)>, k: &str) -> (r: Option<usize>)
    ensures
        match r {
            Some(i) => key_index(tree_entries(es@), k@) == Some(i as int) && i < es@.len(),
            None => key_index(tree_entries(es@), k@) is None,
        },
{
    let ghost t = tree_entries(es@);
    let n = es.len();
    for i in 0..n
        invariant
            n == es@.len(),
            t == tree_entries(es@),
            forall|j: int| 0 <= j < i ==> t[j].0 != k@,
    {
        if crate::text::same_text(es[i].0.as_str(), k) {
            proof {
                lemma_key_index_found(t, k@, i as int);
            }
            return Some(i);
        }
    }
    None
}

/// Sets key `k` of a table to `v`.
pub fn put_key(es: &mut Vec<(String, TomlItem)>, k: String, v: TomlItem)
    ensures
        tree_entries(final(es)@) == table_put(tree_entries(old(es)@), k@, tree_of(v)),
{
    let ghost t = tree_entries(es@);
    let ghost tv = tree_of(v);
    let ghost kv = k@;
    match find_key(es, k.as_str()) {
        Some(i) => {
            es.set(i, (k, v));
            assert(tree_entries(es@) =~= t.update(i as int, (kv, tv)));
        },
        None => {
            es.push((k, v));
            assert(tree_entries(es@) =~= t.push((kv, tv)));
        },
    }
}

/// What the `toml` crate reads from a document: the tree of its root table,
/// or `None` when the text is not valid TOML.
pub uninterp spec fn toml_document(text: Seq<char>) -> Option<TomlTree>;

/// What the `toml` crate writes for a tree, or `None` when it refuses to
/// serialize it.
pub uninterp spec fn toml_rendering(doc: TomlTree) -> Option<Seq<char>>;

/// Moves a value of the `toml` crate into the library's form, variant by
/// variant: strings and tables become `Text` and `Table` (a table's entries
/// in the map's iteration order), every other value is kept as it is.
///
/// Trusted conversion with no contract: Verus cannot look inside a
/// `toml::Value`.
#[verifier::external_body]
fn item_from_value(v: toml::Value) -> TomlItem {
    match v {
        toml::Value::String(s) => TomlItem::Text(s),
        toml::Value::Table(t) => TomlItem::Table(
            t.into_iter().map(|(k, x)| (k, item_from_value(x))).collect(),
        ),
        other => TomlItem::Other(other),
    }
}

/// Builds the `toml` crate's value for an item, variant by variant (the
/// inverse of `item_from_value`); a table's entries go into a `toml` map in
/// their order.
///
/// Trusted conversion with no contract: Verus cannot look inside a
/// `toml::Value`.
#[verifier::external_body]
fn value_from_item(item: &TomlItem) -> toml::Value {
    match item {
        TomlItem::Text(s) => toml::Value::String(s.clone()),
        TomlItem::Table(es) => toml::Value::Table(
            es.iter().map(|(k, x)| (k.clone(), value_from_item(x))).collect(),
        ),
        TomlItem::Other(v) => v.clone(),
    }
}

/// Reads a TOML document.
///
/// Trusted: calls `<toml::Value as FromStr>::from_str`, which in this version
/// of the crate parses a whole document into its root table; its result is
/// a function of the text alone (`toml_document`).
#[verifier::external_body]
pub(crate) fn parse_document(text: &str) -> (r: Option<TomlItem>)
    ensures
        match r {
            Some(d) => toml_document(text@) == Some(tree_of(d)),
            None => toml_document(text@) is None,
        },
{
    text.parse::<toml::Value>().ok().map(item_from_value)
}

/// Writes a TOML document.
///
/// Trusted: calls `toml::to_string` on the `toml` value of the item; its
/// result is a function of the tree alone (`toml_rendering`).
#[verifier::external_body]
pub(crate) fn render_document(doc: &TomlItem) -> (r: Option<String>)
    ensures
        match r {
            Some(s) => toml_rendering(tree_of(*doc)) == Some(s@),
            None => toml_rendering(tree_of(*doc)) is None,
        },
{
    toml::to_string(&value_from_item(doc)).ok()
}

} // verus!
