use vstd::prelude::*;
use crate::text::{chars_of, concat3, join_with, lemma_join_push, string_of};

verus! {

/// Position of the first NUL character, or the length when there is none.
pub open spec fn first_nul(s: Seq<char>) -> int
    decreases s.len(),
{
    if s.len() == 0 {
        0
    } else if s[0] == '\0' {
        0
    } else {
        1 + first_nul(s.skip(1))
    }
}

/// The parts of a path between `/` separators, in order, empty ones
/// included: `a//b` has parts `a`, ``, `b`.
pub open spec fn segments(s: Seq<char>) -> Seq<Seq<char>>
    decreases s.len(),
{
    if s.len() == 0 {
        seq![Seq::empty()]
    } else {
        let prev = segments(s.drop_last());
        if s.last() == '/' {
            prev.push(Seq::empty())
        } else {
            prev.update(prev.len() - 1, prev.last().push(s.last()))
        }
    }
}

/// A part that names a file or directory: not empty, not `.` and not `..`.
pub open spec fn is_normal_segment(seg: Seq<char>) -> bool {
    seg.len() > 0 && seg != seq!['.'] && seg != seq!['.', '.']
}

/// The parts that name a file or directory, in order.
pub open spec fn normal_segments(segs: Seq<Seq<char>>) -> Seq<Seq<char>>
    decreases segs.len(),
{
    if segs.len() == 0 {
        Seq::empty()
    } else {
        normal_segments(segs.drop_last()) + if is_normal_segment(segs.last()) {
            seq![segs.last()]
        } else {
            Seq::empty()
        }
    }
}

/// A file name from an archive made safe to create below a directory: cut
/// at the first NUL character, with only the parts that name a file or
/// directory kept (no root, no `.` and no `..`), joined with `/`. Parts are
/// split at `/` alone, as Unix paths are; `\` is an ordinary character.
pub open spec fn sanitized(name: Seq<char>) -> Seq<char> {
    join_with(normal_segments(segments(name.take(first_nul(name)))), "/"@)
}

pub proof fn lemma_segments_nonempty(s: Seq<char>)
    ensures
        segments(s).len() >= 1,
    decreases s.len(),
{
    if s.len() > 0 {
        lemma_segments_nonempty(s.drop_last());
    }
}

pub proof fn lemma_normal_push(segs: Seq<Seq<char>>, x: Seq<char>)
    ensures
        normal_segments(segs.push(x)) == normal_segments(segs) + if is_normal_segment(x) {
            seq![x]
        } else {
            Seq::<Seq<char>>::empty()
        },
{
    assert(segs.push(x).drop_last() =~= segs);
    assert(segs.push(x).last() == x);
}

proof fn lemma_first_nul(s: Seq<char>, k: int)
    requires
        0 <= k <= s.len(),
        forall|j: int| 0 <= j < k ==> s[j] != '\0',
        k == s.len() || s[k] == '\0',
    ensures
        first_nul(s) == k,
    decreases k,
{
    if k > 0 {
        lemma_first_nul(s.skip(1), k - 1);
    }
}

fn is_normal(seg: &Vec<char>) -> (r: bool)
    ensures
        r == is_normal_segment(seg@),
{
    let n = seg.len();
    if n == 0 {
        false
    } else if n == 1 && seg[0] == '.' {
        assert(seg@ =~= seq!['.']);
        false
    } else if n == 2 && seg[0] == '.' && seg[1] == '.' {
        assert(seg@ =~= seq!['.', '.']);
        false
    } else {
        assert(seg@ != seq!['.'] && seg@ != seq!['.', '.']) by {
            if n == 1 {
                assert(seg@[0] != seq!['.'][0]);
            }
            if n == 2 {
                assert(seg@[0] != seq!['.', '.'][0] || seg@[1] != seq!['.', '.'][1]);
            }
        }
        true
    }
}

/// A file name from an archive made safe to create below a directory.
pub fn sanitize_filename(filename: &str) -> (r: String)
    ensures
        r@ == sanitized(filename@),
{
    let cs = chars_of(filename);
    let n = cs.len();
    let mut k: usize = 0;
    while k < n && cs[k] != '\0'
        invariant
            n == cs@.len(),
            k <= n,
            forall|j: int| 0 <= j < k ==> cs@[j] != '\0',
        decreases n - k,
    {
        k = k + 1;
    }
    proof {
        lemma_first_nul(cs@, k as int);
    }
    let ghost t = cs@.take(k as int);
    let mut out: Vec<char> = Vec::new();
    let mut cur: Vec<char> = Vec::new();
    let mut kept: usize = 0;
    let ghost mut done: Seq<Seq<char>> = Seq::empty();
    assert(t.take(0) =~= Seq::<char>::empty());
    assert(segments(t.take(0)) =~= done.push(cur@));
    for i in 0..k
        invariant
            k <= n,
            n == cs@.len(),
            t == cs@.take(k as int),
            segments(t.take(i as int)) == done.push(cur@),
            out@ == join_with(normal_segments(done), "/"@),
            kept == normal_segments(done).len(),
            kept <= i,
    {
        let c = cs[i];
        let ghost prev = t.take(i as int);
        assert(t.take(i + 1).drop_last() =~= prev);
        assert(t.take(i + 1).last() == c);
        if c == '/' {
            let ghost old_done = done;
            if is_normal(&cur) {
                if kept > 0 {
                    out.push('/');
                }
                let ghost before = out@;
                let mut piece = cur.clone();
                out.append(&mut piece);
                kept = kept + 1;
                proof {
                    reveal_strlit("/");
                    lemma_normal_push(old_done, cur@);
                    assert(normal_segments(old_done.push(cur@)) =~= normal_segments(old_done).push(cur@));
                    lemma_join_push(normal_segments(old_done), cur@, "/"@);
                    if normal_segments(old_done).len() > 0 {
                        assert(out@ =~= join_with(normal_segments(old_done), "/"@) + "/"@ + cur@);
                    } else {
                        assert(out@ =~= cur@);
                    }
                }
            } else {
                proof {
                    lemma_normal_push(old_done, cur@);
                    assert(normal_segments(old_done.push(cur@)) =~= normal_segments(old_done));
                }
            }
            proof {
                done = old_done.push(cur@);
            }
            cur = Vec::new();
            assert(segments(t.take(i + 1)) =~= done.push(cur@));
        } else {
            let ghost old_cur = cur@;
            cur.push(c);
            assert(segments(t.take(i + 1)) =~= done.push(old_cur).update(done.len() as int, old_cur.push(c)));
            assert(segments(t.take(i + 1)) =~= done.push(cur@));
        }
    }
    let ghost old_done = done;
    if is_normal(&cur) {
        if kept > 0 {
            out.push('/');
        }
        let mut piece = cur.clone();
        out.append(&mut piece);
        proof {
            reveal_strlit("/");
            lemma_normal_push(old_done, cur@);
            assert(normal_segments(old_done.push(cur@)) =~= normal_segments(old_done).push(cur@));
            lemma_join_push(normal_segments(old_done), cur@, "/"@);
            if normal_segments(old_done).len() > 0 {
                assert(out@ =~= join_with(normal_segments(old_done), "/"@) + "/"@ + cur@);
            } else {
                assert(out@ =~= cur@);
            }
        }
    } else {
        proof {
            lemma_normal_push(old_done, cur@);
        }
        assert(normal_segments(old_done.push(cur@)) =~= normal_segments(old_done));
    }
    assert(t.take(k as int) =~= t);
    string_of(out.as_slice())
}

/// No character of `s` is `/` or NUL.
pub open spec fn plain_part(s: Seq<char>) -> bool {
    forall|j: int| 0 <= j < s.len() ==> s[j] != '/' && s[j] != '\0'
}

/// The parts of a path with no NUL character are plain.
proof fn lemma_segments_plain(s: Seq<char>)
    requires
        forall|j: int| 0 <= j < s.len() ==> s[j] != '\0',
    ensures
        forall|i: int| 0 <= i < segments(s).len() ==> plain_part(#[trigger] segments(s)[i]),
    decreases s.len(),
{
    lemma_segments_nonempty(s);
    if s.len() > 0 {
        let p = s.drop_last();
        lemma_segments_plain(p);
        lemma_segments_nonempty(p);
        let prev = segments(p);
        if s.last() != '/' {
            let last = prev.last().push(s.last());
            assert(plain_part(prev.last()));
            assert(plain_part(last));
            assert forall|i: int| 0 <= i < segments(s).len() implies plain_part(#[trigger] segments(s)[i]) by {
                if i < prev.len() - 1 {
                    assert(segments(s)[i] == prev[i]);
                }
            }
        } else {
            assert forall|i: int| 0 <= i < segments(s).len() implies plain_part(#[trigger] segments(s)[i]) by {
                if i < prev.len() {
                    assert(segments(s)[i] == prev[i]);
                }
            }
        }
    }
}

/// The parts kept are parts of the input, and name a file or directory.
proof fn lemma_normal_from(segs: Seq<Seq<char>>)
    ensures
        forall|i: int| 0 <= i < normal_segments(segs).len() ==> {
            &&& is_normal_segment(#[trigger] normal_segments(segs)[i])
            &&& segs.contains(normal_segments(segs)[i])
        },
    decreases segs.len(),
{
    if segs.len() > 0 {
        let p = segs.drop_last();
        lemma_normal_from(p);
        let n = normal_segments(segs);
        assert forall|i: int| 0 <= i < n.len() implies {
            &&& is_normal_segment(#[trigger] n[i])
            &&& segs.contains(n[i])
        } by {
            if i < normal_segments(p).len() {
                assert(n[i] == normal_segments(p)[i]);
                let k = choose|k: int| 0 <= k < p.len() && p[k] == n[i];
                assert(segs[k] == p[k]);
            } else {
                assert(n[i] == segs.last());
                assert(segs[segs.len() - 1] == segs.last());
            }
        }
    }
}

/// Keeping the normal parts of normal parts keeps them all.
proof fn lemma_normal_all(segs: Seq<Seq<char>>)
    requires
        forall|i: int| 0 <= i < segs.len() ==> is_normal_segment(#[trigger] segs[i]),
    ensures
        normal_segments(segs) == segs,
    decreases segs.len(),
{
    if segs.len() > 0 {
        lemma_normal_all(segs.drop_last());
        assert(is_normal_segment(segs[segs.len() - 1]));
        assert(segs.drop_last().push(segs.last()) =~= segs);
    }
}

/// Adding characters other than `/` extends the last part.
proof fn lemma_segments_extend(p: Seq<char>, w: Seq<char>)
    requires
        forall|j: int| 0 <= j < w.len() ==> w[j] != '/',
    ensures
        segments(p + w) == segments(p).update(segments(p).len() - 1, segments(p).last() + w),
    decreases w.len(),
{
    lemma_segments_nonempty(p);
    if w.len() == 0 {
        assert(p + w =~= p);
        assert(segments(p).last() + w =~= segments(p).last());
        assert(segments(p).update(segments(p).len() - 1, segments(p).last()) =~= segments(p));
    } else {
        let w1 = w.drop_last();
        lemma_segments_extend(p, w1);
        assert((p + w).drop_last() =~= p + w1);
        assert((p + w).last() == w.last());
        assert(segments(p).last() + w1 + seq![w.last()] =~= segments(p).last() + w);
        let prev = segments(p + w1);
        assert(prev.last() == segments(p).last() + w1);
        assert(prev.last().push(w.last()) =~= segments(p).last() + w);
        assert(segments(p + w) =~= segments(p).update(segments(p).len() - 1, segments(p).last() + w));
    }
}

/// Splitting joined parts gives the parts back.
proof fn lemma_segments_of_join(parts: Seq<Seq<char>>)
    requires
        parts.len() > 0,
        forall|i: int| 0 <= i < parts.len() ==> plain_part(#[trigger] parts[i]),
    ensures
        segments(join_with(parts, "/"@)) == parts,
    decreases parts.len(),
{
    reveal_strlit("/");
    let m = parts.drop_last();
    let x = parts.last();
    assert(plain_part(parts[parts.len() - 1]));
    lemma_join_push(m, x, "/"@);
    assert(m.push(x) =~= parts);
    if m.len() == 0 {
        lemma_segments_extend(Seq::empty(), x);
        assert(Seq::<char>::empty() + x =~= x);
        assert(segments(Seq::<char>::empty()) =~= seq![Seq::<char>::empty()]);
        assert(Seq::<char>::empty() + x =~= x);
        assert(seq![Seq::<char>::empty()].update(0, Seq::<char>::empty() + x) =~= parts);
    } else {
        assert forall|i: int| 0 <= i < m.len() implies plain_part(#[trigger] m[i]) by {
            assert(m[i] == parts[i]);
        }
        lemma_segments_of_join(m);
        let j = join_with(m, "/"@);
        let js = j + "/"@;
        assert(js.drop_last() =~= j);
        assert(js.last() == '/');
        assert(segments(js) == m.push(Seq::empty()));
        lemma_segments_extend(js, x);
        assert(js + x =~= join_with(m, "/"@) + "/"@ + x);
        assert(Seq::<char>::empty() + x =~= x);
        assert(m.push(Seq::empty()).update(m.len() as int, Seq::<char>::empty() + x) =~= parts);
    }
}

/// The characters of joined parts are `/` or characters of the parts.
proof fn lemma_join_chars(parts: Seq<Seq<char>>)
    requires
        forall|i: int| 0 <= i < parts.len() ==> plain_part(#[trigger] parts[i]),
    ensures
        forall|j: int| 0 <= j < join_with(parts, "/"@).len() ==> #[trigger] join_with(parts, "/"@)[j] != '\0',
    decreases parts.len(),
{
    reveal_strlit("/");
    if parts.len() > 0 {
        let m = parts.drop_last();
        let x = parts.last();
        assert(plain_part(parts[parts.len() - 1]));
        assert forall|i: int| 0 <= i < m.len() implies plain_part(#[trigger] m[i]) by {
            assert(m[i] == parts[i]);
        }
        lemma_join_chars(m);
        lemma_join_push(m, x, "/"@);
        assert(m.push(x) =~= parts);
        let y = join_with(parts, "/"@);
        assert forall|j: int| 0 <= j < y.len() implies #[trigger] y[j] != '\0' by {
            if m.len() > 0 {
                let jm = join_with(m, "/"@);
                if j < jm.len() {
                    assert(y[j] == jm[j]);
                } else if j == jm.len() {
                    assert(y[j] == '/');
                } else {
                    assert(y[j] == x[j - jm.len() - 1]);
                }
            }
        }
    }
}

/// A sanitized name holds no NUL character, and every one of its parts
/// names a file or directory: no root, no `.`, no `..`, no empty part.
pub proof fn lemma_sanitized_is_safe(name: Seq<char>)
    ensures
        forall|j: int| 0 <= j < sanitized(name).len() ==> #[trigger] sanitized(name)[j] != '\0',
        sanitized(name).len() > 0 ==> forall|i: int| 0 <= i < segments(sanitized(name)).len()
            ==> is_normal_segment(#[trigger] segments(sanitized(name))[i]),
{
    let t = name.take(first_nul(name));
    lemma_first_nul_bounds(name);
    assert forall|j: int| 0 <= j < t.len() implies t[j] != '\0' by {
        lemma_first_nul_before(name, j);
    }
    lemma_segments_plain(t);
    let segs = segments(t);
    lemma_normal_from(segs);
    let n = normal_segments(segs);
    assert forall|i: int| 0 <= i < n.len() implies plain_part(#[trigger] n[i]) by {
        let k = choose|k: int| 0 <= k < segs.len() && segs[k] == n[i];
        assert(plain_part(segs[k]));
    }
    lemma_join_chars(n);
    if n.len() > 0 {
        lemma_segments_of_join(n);
    }
}

/// Sanitizing a sanitized name changes nothing.
pub proof fn lemma_sanitize_idempotent(name: Seq<char>)
    ensures
        sanitized(sanitized(name)) == sanitized(name),
{
    let t = name.take(first_nul(name));
    lemma_first_nul_bounds(name);
    assert forall|j: int| 0 <= j < t.len() implies t[j] != '\0' by {
        lemma_first_nul_before(name, j);
    }
    lemma_segments_plain(t);
    let segs = segments(t);
    lemma_normal_from(segs);
    let n = normal_segments(segs);
    assert forall|i: int| 0 <= i < n.len() implies plain_part(#[trigger] n[i]) by {
        let k = choose|k: int| 0 <= k < segs.len() && segs[k] == n[i];
        assert(plain_part(segs[k]));
    }
    let y = join_with(n, "/"@);
    lemma_join_chars(n);
    lemma_first_nul(y, y.len() as int);
    assert(y.take(y.len() as int) =~= y);
    if n.len() > 0 {
        lemma_segments_of_join(n);
        lemma_normal_all(n);
    } else {
        assert(y =~= Seq::<char>::empty());
        assert(segments(y) =~= seq![Seq::<char>::empty()]);
        lemma_normal_push(Seq::<Seq<char>>::empty(), Seq::<char>::empty());
        assert(seq![Seq::<char>::empty()] =~= Seq::<Seq<char>>::empty().push(Seq::<char>::empty()));
        assert(normal_segments(Seq::<Seq<char>>::empty()) =~= Seq::<Seq<char>>::empty());
    }
}

proof fn lemma_first_nul_bounds(s: Seq<char>)
    ensures
        0 <= first_nul(s) <= s.len(),
    decreases s.len(),
{
    if s.len() > 0 && s[0] != '\0' {
        lemma_first_nul_bounds(s.skip(1));
    }
}

proof fn lemma_first_nul_before(s: Seq<char>, j: int)
    requires
        0 <= j < first_nul(s),
    ensures
        s[j] != '\0',
    decreases s.len(),
{
    lemma_first_nul_bounds(s);
    if j > 0 {
        lemma_first_nul_before(s.skip(1), j - 1);
    }
}

/// Whether an archive entry names a directory: its name ends with `/`.
pub fn is_directory_entry(name: &str) -> (r: bool)
    ensures
        r == (name@.len() > 0 && name@.last() == '/'),
{
    let cs = chars_of(name);
    cs.len() > 0 && cs[cs.len() - 1] == '/'
}

/// Where an archive entry goes below the directory `dst`: `dst`, `/` and the
/// sanitized entry name.
pub fn unzip_destination(dst: &str, name: &str) -> (r: String)
    ensures
        r@ == dst@ + "/"@ + sanitized(name@),
{
    let clean = sanitize_filename(name);
    concat3(dst, "/", clean.as_str())
}

} // verus!
