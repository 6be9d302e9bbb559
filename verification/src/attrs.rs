use vstd::prelude::*;
use crate::text::{chars_of, concat3, quoted};

verus! {

/// `a` comes strictly before `b` in lexicographic order of characters (the
/// order of `String`, since UTF-8 keeps the order of code points).
pub open spec fn text_lt(a: Seq<char>, b: Seq<char>) -> bool
    decreases a.len(),
{
    if a.len() == 0 {
        b.len() > 0
    } else if b.len() == 0 {
        false
    } else if a[0] != b[0] {
        a[0] < b[0]
    } else {
        text_lt(a.skip(1), b.skip(1))
    }
}

pub proof fn lemma_text_lt_irreflexive(a: Seq<char>)
    ensures
        !text_lt(a, a),
    decreases a.len(),
{
    if a.len() > 0 {
        lemma_text_lt_irreflexive(a.skip(1));
    }
}

pub proof fn lemma_text_lt_transitive(a: Seq<char>, b: Seq<char>, c: Seq<char>)
    requires
        text_lt(a, b),
        text_lt(b, c),
    ensures
        text_lt(a, c),
    decreases a.len(),
{
    if a.len() > 0 && b.len() > 0 && c.len() > 0 {
        if a[0] == b[0] && b[0] == c[0] {
            lemma_text_lt_transitive(a.skip(1), b.skip(1), c.skip(1));
        }
    }
}

pub proof fn lemma_text_lt_total(a: Seq<char>, b: Seq<char>)
    requires
        a != b,
    ensures
        text_lt(a, b) || text_lt(b, a),
    decreases a.len(),
{
    if a.len() > 0 && b.len() > 0 && a[0] == b[0] {
        if a.skip(1) == b.skip(1) {
            assert(a =~= seq![a[0]] + a.skip(1));
            assert(b =~= seq![b[0]] + b.skip(1));
            assert(a == b);
        } else {
            lemma_text_lt_total(a.skip(1), b.skip(1));
        }
    } else if a.len() == 0 && b.len() == 0 {
        assert(a =~= b);
    }
}

proof fn lemma_text_lt_common_prefix(a: Seq<char>, b: Seq<char>, i: int)
    requires
        0 <= i <= a.len(),
        i <= b.len(),
        forall|k: int| 0 <= k < i ==> a[k] == b[k],
    ensures
        text_lt(a, b) == text_lt(a.skip(i), b.skip(i)),
    decreases i,
{
    if i > 0 {
        assert(a.skip(1).skip(i - 1) =~= a.skip(i));
        assert(b.skip(1).skip(i - 1) =~= b.skip(i));
        lemma_text_lt_common_prefix(a.skip(1), b.skip(1), i - 1);
    } else {
        assert(a.skip(0) =~= a);
        assert(b.skip(0) =~= b);
    }
}

/// Result of comparing two texts.
#[derive(Debug, Clone, Copy, PartialEq, Eq, Structural)]
pub enum TextOrder {
    Before,
    Same,
    After,
}

/// Compares two texts in lexicographic order of characters.
pub fn compare_text(a: &str, b: &str) -> (r: TextOrder)
    ensures
        r == TextOrder::Before <==> text_lt(a@, b@),
        r == TextOrder::Same <==> a@ == b@,
        r == TextOrder::After <==> text_lt(b@, a@),
{
    let x = chars_of(a);
    let y = chars_of(b);
    let mut i: usize = 0;
    while i < x.len() && i < y.len()
        invariant
            x@ == a@,
            y@ == b@,
            i <= x@.len(),
            i <= y@.len(),
            forall|k: int| 0 <= k < i ==> x@[k] == y@[k],
        decreases x@.len() - i,
    {
        if x[i] != y[i] {
            proof {
                lemma_text_lt_common_prefix(a@, b@, i as int);
                lemma_text_lt_common_prefix(b@, a@, i as int);
            }
            if x[i] < y[i] {
                return TextOrder::Before;
            } else {
                return TextOrder::After;
            }
        }
        i = i + 1;
    }
    proof {
        lemma_text_lt_common_prefix(a@, b@, i as int);
        lemma_text_lt_common_prefix(b@, a@, i as int);
        lemma_text_lt_irreflexive(a@);
    }
    if x.len() == y.len() {
        assert(x@ =~= y@);
        TextOrder::Same
    } else if x.len() < y.len() {
        TextOrder::Before
    } else {
        TextOrder::After
    }
}

/// Keys in strictly increasing order.
pub open spec fn keys_increasing(s: Seq<(Seq<char>, Seq<char>)>) -> bool {
    forall|i: int, j: int| 0 <= i < j < s.len() ==> text_lt(#[trigger] s[i].0, #[trigger] s[j].0)
}

/// The value stored under `k`, if any.
pub open spec fn lookup(s: Seq<(Seq<char>, Seq<char>)>, k: Seq<char>) -> Option<Seq<char>>
    decreases s.len(),
{
    if s.len() == 0 {
        None
    } else if s[0].0 == k {
        Some(s[0].1)
    } else {
        lookup(s.skip(1), k)
    }
}

/// The entries after storing `v` under `k` in a map ordered by key: an entry
/// with that key has its value replaced, otherwise the pair goes before the
/// first greater key.
pub open spec fn sorted_insert(
    s: Seq<(Seq<char>, Seq<char>)>,
    k: Seq<char>,
    v: Seq<char>,
) -> Seq<(Seq<char>, Seq<char>)>
    decreases s.len(),
{
    if s.len() == 0 {
        seq![(k, v)]
    } else if s[0].0 == k {
        seq![(k, v)] + s.skip(1)
    } else if text_lt(k, s[0].0) {
        seq![(k, v)] + s
    } else {
        seq![s[0]] + sorted_insert(s.skip(1), k, v)
    }
}

/// A map from text keys to text values whose entries are kept in increasing
/// key order, as in a `BTreeMap<String, String>`.
pub struct AttributeMap {
    entries: Vec<(String, String)>,
}

pub open spec fn entry_view(e: (String, String)) -> (Seq<char>, Seq<char>) {
    (e.0@, e.1@)
}

impl View for AttributeMap {
    type V = Seq<(Seq<char>, Seq<char>)>;

    closed spec fn view(&self) -> Seq<(Seq<char>, Seq<char>)> {
        self.entries@.map_values(|e: (String, String)| entry_view(e))
    }
}

proof fn lemma_sorted_insert_prefix(
    s: Seq<(Seq<char>, Seq<char>)>,
    i: int,
    k: Seq<char>,
    v: Seq<char>,
)
    requires
        0 <= i <= s.len(),
        forall|j: int| 0 <= j < i ==> text_lt(#[trigger] s[j].0, k),
    ensures
        sorted_insert(s, k, v) == s.take(i) + sorted_insert(s.skip(i), k, v),
    decreases i,
{
    if i == 0 {
        assert(s.skip(0) =~= s);
        assert(s.take(0) + sorted_insert(s, k, v) =~= sorted_insert(s, k, v));
    } else {
        lemma_text_lt_irreflexive(k);
        assert(text_lt(s[0].0, k));
        if text_lt(k, s[0].0) {
            lemma_text_lt_transitive(k, s[0].0, k);
        }
        assert forall|j: int| 0 <= j < i - 1 implies text_lt(#[trigger] s.skip(1)[j].0, k) by {
            assert(s.skip(1)[j] == s[j + 1]);
        }
        lemma_sorted_insert_prefix(s.skip(1), i - 1, k, v);
        assert(s.skip(1).skip(i - 1) =~= s.skip(i));
        assert(seq![s[0]] + s.skip(1).take(i - 1) =~= s.take(i));
    }
}

/// Storing a key in a map ordered by key keeps it ordered, and adds no key
/// other than the one stored.
pub proof fn lemma_sorted_insert_keeps_order(s: Seq<(Seq<char>, Seq<char>)>, k: Seq<char>, v: Seq<char>)
    requires
        keys_increasing(s),
    ensures
        keys_increasing(sorted_insert(s, k, v)),
        forall|j: int| 0 <= j < sorted_insert(s, k, v).len() ==>
            (#[trigger] sorted_insert(s, k, v)[j]).0 == k || exists|m: int| 0 <= m < s.len() && s[m].0 == sorted_insert(s, k, v)[j].0,
    decreases s.len(),
{
    let r = sorted_insert(s, k, v);
    if s.len() == 0 {
    } else if s[0].0 == k {
        assert forall|j: int| 0 <= j < r.len() implies (#[trigger] r[j]).0 == k || exists|m: int| 0 <= m < s.len() && s[m].0 == r[j].0 by {
            if j > 0 {
                assert(r[j] == s[j]);
            }
        }
        assert forall|i: int, j: int| 0 <= i < j < r.len() implies text_lt(#[trigger] r[i].0, #[trigger] r[j].0) by {
            assert(r[j] == s[j]);
            if i > 0 {
                assert(r[i] == s[i]);
            }
        }
    } else if text_lt(k, s[0].0) {
        assert forall|j: int| 0 <= j < r.len() implies (#[trigger] r[j]).0 == k || exists|m: int| 0 <= m < s.len() && s[m].0 == r[j].0 by {
            if j > 0 {
                assert(r[j] == s[j - 1]);
            }
        }
        assert forall|i: int, j: int| 0 <= i < j < r.len() implies text_lt(#[trigger] r[i].0, #[trigger] r[j].0) by {
            assert(r[j] == s[j - 1]);
            if i > 0 {
                assert(r[i] == s[i - 1]);
            } else if j - 1 > 0 {
                lemma_text_lt_transitive(k, s[0].0, s[j - 1].0);
            }
        }
    } else {
        let t = s.skip(1);
        assert(keys_increasing(t)) by {
            assert forall|i: int, j: int| 0 <= i < j < t.len() implies text_lt(#[trigger] t[i].0, #[trigger] t[j].0) by {
                assert(t[i] == s[i + 1]);
                assert(t[j] == s[j + 1]);
            }
        }
        lemma_sorted_insert_keeps_order(t, k, v);
        let rt = sorted_insert(t, k, v);
        lemma_text_lt_total(k, s[0].0);
        assert(text_lt(s[0].0, k));
        assert forall|j: int| 0 <= j < r.len() implies (#[trigger] r[j]).0 == k || exists|m: int| 0 <= m < s.len() && s[m].0 == r[j].0 by {
            if j == 0 {
                assert(s[0].0 == r[0].0);
            } else {
                assert(r[j] == rt[j - 1]);
                if rt[j - 1].0 != k {
                    let m = choose|m: int| 0 <= m < t.len() && t[m].0 == rt[j - 1].0;
                    assert(s[m + 1] == t[m]);
                }
            }
        }
        assert forall|i: int, j: int| 0 <= i < j < r.len() implies text_lt(#[trigger] r[i].0, #[trigger] r[j].0) by {
            assert(r[j] == rt[j - 1]);
            if i > 0 {
                assert(r[i] == rt[i - 1]);
            } else {
                if rt[j - 1].0 != k {
                    let m = choose|m: int| 0 <= m < t.len() && t[m].0 == rt[j - 1].0;
                    assert(s[m + 1] == t[m]);
                }
            }
        }
    }
}

/// In a map ordered by key, reading a key just stored gives the value
/// stored, and reading any other key gives what it gave before.
pub proof fn lemma_sorted_insert_lookup(s: Seq<(Seq<char>, Seq<char>)>, k: Seq<char>, v: Seq<char>, k2: Seq<char>)
    requires
        keys_increasing(s),
    ensures
        lookup(sorted_insert(s, k, v), k) == Some(v),
        k2 != k ==> lookup(sorted_insert(s, k, v), k2) == lookup(s, k2),
    decreases s.len(),
{
    if s.len() == 0 {
        assert(seq![(k, v)].skip(1) =~= Seq::<(Seq<char>, Seq<char>)>::empty());
        assert(lookup(Seq::<(Seq<char>, Seq<char>)>::empty(), k2) is None);
        assert(lookup(s, k2) is None);
    } else {
        let t = s.skip(1);
        assert(keys_increasing(t)) by {
            assert forall|i: int, j: int| 0 <= i < j < t.len() implies text_lt(#[trigger] t[i].0, #[trigger] t[j].0) by {
                assert(t[i] == s[i + 1]);
                assert(t[j] == s[j + 1]);
            }
        }
        if s[0].0 == k {
            assert((seq![(k, v)] + t).skip(1) =~= t);
            assert((seq![(k, v)] + t)[0] == (k, v));
            if k2 != k {
                assert(lookup(s, k2) == lookup(t, k2));
            }
        } else if text_lt(k, s[0].0) {
            assert((seq![(k, v)] + s).skip(1) =~= s);
            assert((seq![(k, v)] + s)[0] == (k, v));
        } else {
            lemma_sorted_insert_lookup(t, k, v, k2);
            assert((seq![s[0]] + sorted_insert(t, k, v)).skip(1) =~= sorted_insert(t, k, v));
            assert((seq![s[0]] + sorted_insert(t, k, v))[0] == s[0]);
            if k2 != k && s[0].0 != k2 {
                assert(lookup(s, k2) == lookup(t, k2));
            }
        }
    }
}

impl AttributeMap {
    #[verifier::type_invariant]
    spec fn ordered(&self) -> bool {
        keys_increasing(self@)
    }

    /// An empty map.
    pub fn new() -> (m: AttributeMap)
        ensures
            m@ == Seq::<(Seq<char>, Seq<char>)>::empty(),
    {
        let m = AttributeMap { entries: Vec::new() };
        assert(m@ =~= Seq::<(Seq<char>, Seq<char>)>::empty());
        m
    }

    /// The number of entries.
    pub fn len(&self) -> (r: usize)
        ensures
            r == self@.len(),
    {
        self.entries.len()
    }

    /// The entry at position `i` in key order.
    pub fn entry(&self, i: usize) -> (r: (&str, &str))
        requires
            i < self@.len(),
        ensures
            r.0@ == self@[i as int].0,
            r.1@ == self@[i as int].1,
    {
        let e = &self.entries[i];
        (e.0.as_str(), e.1.as_str())
    }

    /// Stores `value` under `key`, replacing the value an entry with that key
    /// had; the entries stay in increasing key order.
    pub fn insert(&mut self, key: String, value: String)
        ensures
            final(self)@ == sorted_insert(old(self)@, key@, value@),
    {
        proof {
            use_type_invariant(&*self);
        }
        let ghost s = self@;
        let n = self.entries.len();
        let mut i: usize = 0;
        while i < n
            invariant
                n == self.entries@.len(),
                s == self@,
                i <= n,
                keys_increasing(s),
                forall|j: int| 0 <= j < i ==> text_lt(#[trigger] s[j].0, key@),
            ensures
                i <= n,
                i < n ==> !text_lt(s[i as int].0, key@),
                forall|j: int| 0 <= j < i ==> text_lt(#[trigger] s[j].0, key@),
            decreases n - i,
        {
            let c = compare_text(self.entries[i].0.as_str(), key.as_str());
            assert(s[i as int] == entry_view(self.entries@[i as int]));
            if c != TextOrder::Before {
                break;
            }
            i = i + 1;
        }
        proof {
            lemma_sorted_insert_prefix(s, i as int, key@, value@);
            lemma_sorted_insert_keeps_order(s, key@, value@);
        }
        if i < n && same_key(&self.entries[i].0, &key) {
            let ghost old_entries = self.entries@;
            assert(s[i as int] == entry_view(old_entries[i as int]));
            assert(s.skip(i as int)[0] == s[i as int]);
            assert(s.skip(i as int).skip(1) =~= s.skip(i + 1));
            let mut entries: Vec<(String, String)> = Vec::new();
            std::mem::swap(&mut entries, &mut self.entries);
            entries.set(i, (key, value));
            assert(entries@.map_values(|e: (String, String)| entry_view(e)) =~= s.take(i as int) + sorted_insert(s.skip(i as int), key@, value@));
            self.entries = entries;
        } else {
            let ghost old_entries = self.entries@;
            proof {
                if i < n {
                    assert(s[i as int] == entry_view(old_entries[i as int]));
                    lemma_text_lt_total(s[i as int].0, key@);
                    assert(text_lt(key@, s[i as int].0));
                    assert(s.skip(i as int)[0] == s[i as int]);
                } else {
                    assert(s.skip(i as int) =~= Seq::<(Seq<char>, Seq<char>)>::empty());
                }
            }
            let mut entries: Vec<(String, String)> = Vec::new();
            std::mem::swap(&mut entries, &mut self.entries);
            entries.insert(i, (key, value));
            assert(entries@.map_values(|e: (String, String)| entry_view(e)) =~= s.take(i as int) + sorted_insert(s.skip(i as int), key@, value@));
            self.entries = entries;
        }
    }

    /// The value stored under `key`, if any.
    pub fn get(&self, key: &str) -> (r: Option<String>)
        ensures
            match r {
                Some(v) => lookup(self@, key@) == Some(v@),
                None => lookup(self@, key@) is None,
            },
    {
        let n = self.entries.len();
        let ghost s = self@;
        let mut i: usize = 0;
        assert(s.skip(0) =~= s);
        while i < n
            invariant
                n == self.entries@.len(),
                s == self@,
                i <= n,
                lookup(s, key@) == lookup(s.skip(i as int), key@),
            decreases n - i,
        {
            assert(s[i as int] == entry_view(self.entries@[i as int]));
            assert(s.skip(i as int).skip(1) =~= s.skip(i + 1));
            if crate::text::same_text(self.entries[i].0.as_str(), key) {
                return Some(self.entries[i].1.clone());
            }
            i = i + 1;
        }
        None
    }
}

fn same_key(a: &String, b: &String) -> (r: bool)
    ensures
        r == (a@ == b@),
{
    crate::text::same_text(a.as_str(), b.as_str())
}

/// One line of attributes: a newline, the key, `=` and the quoted value.
pub open spec fn attribute_line(e: (Seq<char>, Seq<char>)) -> Seq<char> {
    seq!['\n'] + e.0 + seq!['='] + (seq!['"'] + e.1 + seq!['"'])
}

/// The attribute lines of all entries, one after the other.
pub open spec fn attribute_lines(s: Seq<(Seq<char>, Seq<char>)>) -> Seq<char>
    decreases s.len(),
{
    if s.len() == 0 {
        Seq::empty()
    } else {
        attribute_lines(s.drop_last()) + attribute_line(s.last())
    }
}

/// The attributes of a map as text to append to an XML element: for each
/// entry in key order, a newline, `key="value"`. `None` stays `None`.
pub fn map_to_string(input_map: Option<&AttributeMap>) -> (r: Option<String>)
    ensures
        match input_map {
            Some(m) => r is Some && r->0@ == attribute_lines(m@),
            None => r is None,
        },
{
    match input_map {
        Some(map) => {
            let mut result = String::new();
            let n = map.len();
            for i in 0..n
                invariant
                    n == map@.len(),
                    result@ == attribute_lines(map@.take(i as int)),
            {
                let (k, v) = map.entry(i);
                let nl = "\n";
                let eq = "=";
                proof {
                    reveal_strlit("\n");
                    reveal_strlit("=");
                }
                let line = concat3(nl, k, eq);
                let q = quoted(v);
                result.append(line.as_str());
                result.append(q.as_str());
                assert(map@.take(i + 1).drop_last() =~= map@.take(i as int));
                assert(result@ =~= attribute_lines(map@.take(i + 1)));
            }
            assert(map@.take(n as int) =~= map@);
            Some(result)
        },
        None => None,
    }
}

} // verus!
