//! Path names as the manuscript sees them: the file name of a path, its
//! stem and extension (with the meaning `std::path::Path` gives them on
//! Unix), and the spine order of the sources in a manuscript directory.

use vstd::prelude::*;

use crate::metadata::{lemma_split_seq_nonempty, split_on, split_seq};
use crate::text::{chars_of, string_of};

verus! {

broadcast use vstd::seq_lib::group_to_multiset_ensures;

// ---------------------------------------------------------------------------
// File names
// ---------------------------------------------------------------------------

/// A segment that names no file: empty (from `//` or a trailing `/`) or
/// the current directory `.`.
pub open spec fn is_skipped_segment(seg: Seq<char>) -> bool {
    seg.len() == 0 || seg == seq!['.']
}

/// The last segment that names something, if any.
pub open spec fn last_named_segment(segs: Seq<Seq<char>>) -> Option<Seq<char>>
    decreases segs.len(),
{
    if segs.len() == 0 {
        None
    } else if is_skipped_segment(segs.last()) {
        last_named_segment(segs.drop_last())
    } else {
        Some(segs.last())
    }
}

/// `Path::file_name`: the last component of the path, unless it is `..`
/// or the path has no named component (`/`, `.`, ``).
pub open spec fn file_name_spec(path: Seq<char>) -> Option<Seq<char>> {
    match last_named_segment(split_seq(path, '/')) {
        Some(seg) => if seg == seq!['.', '.'] {
            None
        } else {
            Some(seg)
        },
        None => None,
    }
}

/// The index of the last `.` in `name`, if any.
pub open spec fn last_dot(name: Seq<char>) -> Option<int>
    decreases name.len(),
{
    if name.len() == 0 {
        None
    } else if name.last() == '.' {
        Some(name.len() - 1)
    } else {
        last_dot(name.drop_last())
    }
}

/// `Path::file_stem` of a file name: the part before the last `.`; the
/// whole name when it has no `.` or its only `.` is the first character.
pub open spec fn file_stem_spec(name: Seq<char>) -> Seq<char> {
    match last_dot(name) {
        Some(k) => if k == 0 {
            name
        } else {
            name.take(k)
        },
        None => name,
    }
}

/// `Path::extension` of a file name: the part after the last `.`, when
/// that `.` is not the first character.
pub open spec fn extension_spec(name: Seq<char>) -> Option<Seq<char>> {
    match last_dot(name) {
        Some(k) => if k == 0 {
            None
        } else {
            Some(name.skip(k + 1))
        },
        None => None,
    }
}

/// The extension of the file a path names.
pub open spec fn path_extension_spec(path: Seq<char>) -> Option<Seq<char>> {
    match file_name_spec(path) {
        Some(name) => extension_spec(name),
        None => None,
    }
}

/// The chapter title a source path gives: its file stem, or `untitled`
/// when the path names no file.
pub open spec fn source_title_spec(path: Seq<char>) -> Seq<char> {
    match file_name_spec(path) {
        Some(name) => file_stem_spec(name),
        None => "untitled"@,
    }
}

proof fn lemma_last_named_skip_tail(segs: Seq<Seq<char>>, k: int)
    requires
        0 <= k <= segs.len(),
        forall|i: int| k <= i < segs.len() ==> is_skipped_segment(#[trigger] segs[i]),
    ensures
        last_named_segment(segs) == last_named_segment(segs.take(k)),
    decreases segs.len() - k,
{
    if k == segs.len() {
        assert(segs.take(k) == segs);
    } else {
        assert(segs.drop_last().take(k) == segs.take(k));
        lemma_last_named_skip_tail(segs.drop_last(), k);
    }
}

fn is_skipped(seg: &Vec<char>) -> (r: bool)
    ensures
        r == is_skipped_segment(seg@),
{
    if seg.len() == 0 {
        true
    } else if seg.len() == 1 && seg[0] == '.' {
        assert(seg@ == seq!['.']);
        true
    } else {
        false
    }
}

/// The characters of `Path::file_name` of `path`.
pub fn file_name_chars(path: &str) -> (r: Option<Vec<char>>)
    ensures
        match r {
            Some(v) => file_name_spec(path@) == Some(v@),
            None => file_name_spec(path@) is None,
        },
{
    let segs = split_on(path, '/');
    let ghost sp = split_seq(path@, '/');
    let mut k: usize = segs.len();
    while k > 0 && is_skipped(&segs[k - 1])
        invariant
            k <= segs@.len(),
            sp == split_seq(path@, '/'),
            segs@.len() == sp.len(),
            forall|i: int| 0 <= i < segs@.len() ==> (#[trigger] segs@[i])@ == sp[i],
            forall|i: int| k <= i < sp.len() ==> is_skipped_segment(#[trigger] sp[i]),
        decreases k,
    {
        k = k - 1;
    }
    proof {
        lemma_last_named_skip_tail(sp, k as int);
    }
    if k == 0 {
        assert(sp.take(0) == Seq::<Seq<char>>::empty());
        return None;
    }
    let seg = &segs[k - 1];
    proof {
        assert(sp.take(k as int).drop_last() == sp.take(k - 1));
        assert(sp.take(k as int).last() == sp[k - 1]);
        assert(!is_skipped_segment(sp[k - 1]));
        assert(last_named_segment(sp.take(k as int)) == Some(seg@));
    }
    if seg.len() == 2 && seg[0] == '.' && seg[1] == '.' {
        assert(seg@ == seq!['.', '.']);
        None
    } else {
        assert(seg@ != seq!['.', '.']);
        let mut out: Vec<char> = Vec::new();
        let mut j: usize = 0;
        while j < seg.len()
            invariant
                j <= seg@.len(),
                out@ == seg@.take(j as int),
            decreases seg.len() - j,
        {
            out.push(seg[j]);
            j = j + 1;
            assert(seg@.take(j as int) == seg@.take(j - 1).push(seg@[j - 1]));
        }
        assert(seg@.take(seg@.len() as int) == seg@);
        Some(out)
    }
}

proof fn lemma_last_dot_bound(name: Seq<char>)
    ensures
        match last_dot(name) {
            Some(k) => 0 <= k < name.len() && name[k] == '.',
            None => true,
        },
    decreases name.len(),
{
    if name.len() > 0 && name.last() != '.' {
        lemma_last_dot_bound(name.drop_last());
    }
}

fn last_dot_index(name: &Vec<char>) -> (r: Option<usize>)
    ensures
        match r {
            Some(k) => last_dot(name@) == Some(k as int) && k < name@.len(),
            None => last_dot(name@) is None,
        },
{
    let mut k: usize = name.len();
    assert(name@.take(k as int) == name@);
    while k > 0
        invariant
            k <= name@.len(),
            last_dot(name@) == last_dot(name@.take(k as int)),
        decreases k,
    {
        proof {
            assert(name@.take(k as int).drop_last() == name@.take(k - 1));
            assert(name@.take(k as int).last() == name@[k - 1]);
        }
        if name[k - 1] == '.' {
            proof {
                lemma_last_dot_bound(name@);
            }
            return Some(k - 1);
        }
        k = k - 1;
    }
    assert(name@.take(0) == Seq::<char>::empty());
    None
}

fn take_chars(v: &Vec<char>, n: usize) -> (r: Vec<char>)
    requires
        n <= v@.len(),
    ensures
        r@ == v@.take(n as int),
{
    let mut out: Vec<char> = Vec::new();
    let mut j: usize = 0;
    while j < n
        invariant
            j <= n <= v@.len(),
            out@ == v@.take(j as int),
        decreases n - j,
    {
        out.push(v[j]);
        j = j + 1;
        assert(v@.take(j as int) == v@.take(j - 1).push(v@[j - 1]));
    }
    out
}

fn skip_chars(v: &Vec<char>, n: usize) -> (r: Vec<char>)
    requires
        n <= v@.len(),
    ensures
        r@ == v@.skip(n as int),
{
    let mut out: Vec<char> = Vec::new();
    let mut j: usize = n;
    while j < v.len()
        invariant
            n <= j <= v@.len(),
            out@ == v@.subrange(n as int, j as int),
        decreases v.len() - j,
    {
        out.push(v[j]);
        j = j + 1;
        assert(v@.subrange(n as int, j as int) == v@.subrange(n as int, j - 1).push(v@[j - 1]));
    }
    out
}

/// `Path::extension` of `path`, as characters.
pub fn extension_chars(path: &str) -> (r: Option<Vec<char>>)
    ensures
        match r {
            Some(v) => path_extension_spec(path@) == Some(v@),
            None => path_extension_spec(path@) is None,
        },
{
    match file_name_chars(path) {
        None => None,
        Some(name) => match last_dot_index(&name) {
            None => None,
            Some(k) => if k == 0 {
                None
            } else {
                assert(k < name.len());
                Some(skip_chars(&name, k + 1))
            },
        },
    }
}

/// The chapter title of a source: `Path::file_stem` of its path, or
/// `untitled` when the path names no file.
pub fn source_title(path: &str) -> (r: String)
    ensures
        r@ == source_title_spec(path@),
{
    match file_name_chars(path) {
        None => string_of(&chars_of("untitled")),
        Some(name) => match last_dot_index(&name) {
            None => string_of(&name),
            Some(k) => if k == 0 {
                string_of(&name)
            } else {
                string_of(&take_chars(&name, k))
            },
        },
    }
}

// ---------------------------------------------------------------------------
// Lexicographic order
// ---------------------------------------------------------------------------

/// The length of the longest common prefix of `a` and `b`.
pub open spec fn common_prefix_len(a: Seq<char>, b: Seq<char>) -> nat
    decreases a.len(),
{
    if a.len() == 0 || b.len() == 0 || a[0] != b[0] {
        0
    } else {
        1 + common_prefix_len(a.drop_first(), b.drop_first())
    }
}

/// `a` sorts strictly before `b`: at the first position where they differ
/// `a` has the smaller character, or `a` is a proper prefix of `b`.
/// Characters compare by code point, which for UTF-8 text is the byte
/// order that `str` and `Path` comparisons use.
pub open spec fn lex_lt(a: Seq<char>, b: Seq<char>) -> bool {
    let k = common_prefix_len(a, b) as int;
    if k < a.len() && k < b.len() {
        a[k] < b[k]
    } else {
        a.len() < b.len()
    }
}

pub proof fn lemma_common_prefix(a: Seq<char>, b: Seq<char>)
    ensures
        common_prefix_len(a, b) <= a.len(),
        common_prefix_len(a, b) <= b.len(),
        forall|i: int| 0 <= i < common_prefix_len(a, b) ==> a[i] == b[i],
        common_prefix_len(a, b) < a.len() && common_prefix_len(a, b) < b.len() ==> a[common_prefix_len(a, b) as int] != b[common_prefix_len(a, b) as int],
    decreases a.len(),
{
    if a.len() == 0 || b.len() == 0 || a[0] != b[0] {
    } else {
        lemma_common_prefix(a.drop_first(), b.drop_first());
        let k = common_prefix_len(a, b);
        assert forall|i: int| 0 <= i < k implies a[i] == b[i] by {
            if i > 0 {
                assert(a[i] == a.drop_first()[i - 1]);
                assert(b[i] == b.drop_first()[i - 1]);
            }
        }
    }
}

/// Any position that matches the description of the first difference is
/// the common prefix length.
pub proof fn lemma_common_prefix_unique(a: Seq<char>, b: Seq<char>, k: int)
    requires
        0 <= k <= a.len(),
        k <= b.len(),
        forall|i: int| 0 <= i < k ==> a[i] == b[i],
        k < a.len() && k < b.len() ==> a[k] != b[k],
    ensures
        common_prefix_len(a, b) == k,
{
    lemma_common_prefix(a, b);
    let c = common_prefix_len(a, b) as int;
    if c < k {
        assert(a[c] == b[c]);
    } else if c > k {
        assert(a[k] == b[k]);
    }
}

proof fn lemma_common_prefix_symmetric(a: Seq<char>, b: Seq<char>)
    ensures
        common_prefix_len(a, b) == common_prefix_len(b, a),
{
    lemma_common_prefix(a, b);
    lemma_common_prefix_unique(b, a, common_prefix_len(a, b) as int);
}

/// No path sorts before itself.
pub proof fn lemma_lex_lt_irreflexive(a: Seq<char>)
    ensures
        !lex_lt(a, a),
{
    lemma_common_prefix(a, a);
}

/// Of two paths, at most one sorts before the other.
pub proof fn lemma_lex_lt_asymmetric(a: Seq<char>, b: Seq<char>)
    requires
        lex_lt(a, b),
    ensures
        !lex_lt(b, a),
{
    lemma_common_prefix(a, b);
    lemma_common_prefix_symmetric(a, b);
}

/// Two different sequences are ordered one way or the other.
pub proof fn lemma_lex_lt_total(a: Seq<char>, b: Seq<char>)
    requires
        a != b,
    ensures
        lex_lt(a, b) || lex_lt(b, a),
{
    lemma_common_prefix(a, b);
    lemma_common_prefix_symmetric(a, b);
    let k = common_prefix_len(a, b) as int;
    if !(k < a.len() && k < b.len()) && a.len() == b.len() {
        assert(a =~= b);
    }
}

/// The order of paths is transitive.
pub proof fn lemma_lex_lt_transitive(a: Seq<char>, b: Seq<char>, c: Seq<char>)
    requires
        lex_lt(a, b),
        lex_lt(b, c),
    ensures
        lex_lt(a, c),
{
    lemma_common_prefix(a, b);
    lemma_common_prefix(b, c);
    lemma_common_prefix(a, c);
    let p = common_prefix_len(a, b) as int;
    let q = common_prefix_len(b, c) as int;
    let m = if p < q {
        p
    } else {
        q
    };
    // a and c agree below m.
    assert forall|i: int| 0 <= i < m implies a[i] == c[i] by {
        assert(a[i] == b[i]);
        assert(b[i] == c[i]);
    }
    if p < q {
        // a and b first differ at p, where b agrees with c.
        if p < a.len() && p < b.len() {
            assert(b[p] == c[p]);
            lemma_common_prefix_unique(a, c, p);
        } else {
            // a is a proper prefix of b, and so of c.
            assert(a.len() == p);
            lemma_common_prefix_unique(a, c, p);
        }
    } else if q < p {
        if q < b.len() && q < c.len() {
            assert(a[q] == b[q]);
            lemma_common_prefix_unique(a, c, q);
        } else {
            assert(b.len() == q);
            assert(false);
        }
    } else {
        if p < a.len() && p < b.len() {
            if q < c.len() {
                assert(a[p] < b[p] && b[p] < c[p]);
                lemma_common_prefix_unique(a, c, p);
            } else {
                assert(false);
            }
        } else {
            assert(a.len() == p);
            if p < c.len() {
                lemma_common_prefix_unique(a, c, p);
            } else {
                assert(false);
            }
        }
    }
}

/// Whether `a` sorts strictly before `b`.
pub fn str_lt(a: &str, b: &str) -> (r: bool)
    ensures
        r == lex_lt(a@, b@),
{
    let x = chars_of(a);
    let y = chars_of(b);
    let mut k: usize = 0;
    while k < x.len() && k < y.len() && x[k] == y[k]
        invariant
            k <= x@.len(),
            k <= y@.len(),
            forall|i: int| 0 <= i < k ==> x@[i] == y@[i],
        decreases x.len() - k,
    {
        k = k + 1;
    }
    proof {
        lemma_common_prefix_unique(x@, y@, k as int);
    }
    if k < x.len() && k < y.len() {
        x[k] < y[k]
    } else {
        x.len() < y.len()
    }
}

// ---------------------------------------------------------------------------
// Spine order
// ---------------------------------------------------------------------------

/// A manuscript source: a path whose extension is exactly `md`.
pub open spec fn is_md_path(p: Seq<char>) -> bool {
    path_extension_spec(p) == Some(seq!['m', 'd'])
}

pub open spec fn md_source(s: String) -> bool {
    is_md_path(s@)
}

/// Every path comes no later than the ones after it.
pub open spec fn sorted_paths(s: Seq<String>) -> bool {
    forall|i: int, j: int| 0 <= i < j < s.len() ==> !lex_lt((#[trigger] s[j])@, (#[trigger] s[i])@)
}

/// Whether a path names a manuscript source (its extension is `md`).
pub fn is_md(path: &str) -> (r: bool)
    ensures
        r == is_md_path(path@),
{
    match extension_chars(path) {
        None => false,
        Some(ext) => {
            if ext.len() == 2 && ext[0] == 'm' && ext[1] == 'd' {
                assert(ext@ == seq!['m', 'd']);
                true
            } else {
                assert(ext@ != seq!['m', 'd']);
                false
            }
        },
    }
}

proof fn lemma_insert_multiset(s: Seq<String>, j: int, x: String)
    requires
        0 <= j <= s.len(),
    ensures
        s.insert(j, x).to_multiset() == s.to_multiset().insert(x),
{
    let a = s.subrange(0, j);
    let b = s.subrange(j, s.len() as int);
    assert(s == a + b);
    vstd::seq_lib::lemma_multiset_commutative(a.push(x), b);
    vstd::seq_lib::lemma_multiset_commutative(a, b);
    assert(a.push(x).to_multiset() == a.to_multiset().insert(x));
    assert(a.to_multiset().insert(x).add(b.to_multiset()) =~= a.to_multiset().add(
        b.to_multiset(),
    ).insert(x));
}

/// The sources of a manuscript directory in spine order: the paths whose
/// extension is `md`, sorted lexicographically. For the entries of one
/// directory this is the order `Path` comparison gives.
pub fn select_sources(paths: &Vec<String>) -> (r: Vec<String>)
    ensures
        r@.to_multiset() == paths@.filter(|p: String| md_source(p)).to_multiset(),
        sorted_paths(r@),
{
    let ghost pred = |p: String| md_source(p);
    let mut out: Vec<String> = Vec::new();
    let mut i: usize = 0;
    proof {
        assert(paths@.take(0) =~= Seq::<String>::empty());
        reveal_with_fuel(Seq::filter, 1);
    }
    while i < paths.len()
        invariant
            i <= paths@.len(),
            pred == (|p: String| md_source(p)),
            out@.to_multiset() == paths@.take(i as int).filter(pred).to_multiset(),
            sorted_paths(out@),
        decreases paths.len() - i,
    {
        let p = &paths[i];
        proof {
            assert(paths@.take(i + 1) == paths@.take(i as int).push(paths@[i as int]));
            paths@.take(i as int).lemma_filter_push(paths@[i as int], pred);
        }
        if is_md(p.as_str()) {
            let x = p.clone();
            // The first position whose path sorts after `x`.
            let mut j: usize = 0;
            while j < out.len() && !str_lt(x.as_str(), out[j].as_str())
                invariant
                    j <= out@.len(),
                    forall|k: int| 0 <= k < j ==> !lex_lt(x@, (#[trigger] out@[k])@),
                decreases out.len() - j,
            {
                j = j + 1;
            }
            let ghost old_out = out@;
            proof {
                lemma_insert_multiset(old_out, j as int, x);
                old_out.insert_ensures(j as int, x);
                // Everything from j on sorts no earlier than x.
                assert forall|k: int| j <= k < old_out.len() implies !lex_lt(
                    (#[trigger] old_out[k])@,
                    x@,
                ) by {
                    if lex_lt(old_out[k]@, x@) {
                        assert(lex_lt(x@, old_out[j as int]@));
                        if k > j {
                            assert(!lex_lt(old_out[k]@, old_out[j as int]@));
                        }
                        lemma_lex_lt_transitive(old_out[k]@, x@, old_out[j as int]@);
                        lemma_lex_lt_irreflexive(old_out[j as int]@);
                    }
                }
            }
            out.insert(j, x);
            proof {
                let n = out@;
                assert(n == old_out.insert(j as int, x));
                assert forall|a: int, b: int| 0 <= a < b < n.len() implies !lex_lt(
                    (#[trigger] n[b])@,
                    (#[trigger] n[a])@,
                ) by {
                    if a < j && b < j {
                        assert(n[a] == old_out[a] && n[b] == old_out[b]);
                    } else if a < j && b == j {
                        assert(n[a] == old_out[a]);
                        assert(!lex_lt(x@, old_out[a]@));
                    } else if a < j {
                        assert(n[a] == old_out[a] && n[b] == old_out[b - 1]);
                    } else if a == j {
                        assert(n[b] == old_out[b - 1]);
                    } else {
                        assert(n[a] == old_out[a - 1] && n[b] == old_out[b - 1]);
                    }
                }
            }
        }
        i = i + 1;
    }
    proof {
        assert(paths@.take(paths@.len() as int) == paths@);
    }
    out
}

} // verus!
