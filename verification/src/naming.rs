//! File naming: deriving a file name from a URL, splitting stem and
//! extension, and choosing a fresh name when the derived one collides with
//! files already present in the target directory.

use vstd::prelude::*;
use vstd::assert_by_contradiction;
use vstd::relations::injective_on;
use vstd::set_lib::{lemma_int_range, lemma_len_subset, lemma_map_size, set_int_range};
use crate::text::{dec_str, lemma_dec_str_injective, u64_to_dec};

verus! {

/// Index of the last occurrence of `c` in `s`, or -1.
pub open spec fn last_index_of(s: Seq<char>, c: char) -> int
    decreases s.len(),
{
    if s.len() == 0 {
        -1
    } else if s.last() == c {
        s.len() - 1
    } else {
        last_index_of(s.drop_last(), c)
    }
}

/// Index of the first occurrence of `c` in `s`, or -1.
pub open spec fn first_index_of(s: Seq<char>, c: char) -> int
    decreases s.len(),
{
    if s.len() == 0 {
        -1
    } else if s[0] == c {
        0
    } else if first_index_of(s.drop_first(), c) == -1 {
        -1
    } else {
        first_index_of(s.drop_first(), c) + 1
    }
}

/// `last_index_of` points at the last occurrence, when there is one.
pub proof fn lemma_last_index_of(s: Seq<char>, c: char)
    ensures
        -1 <= last_index_of(s, c) < s.len(),
        last_index_of(s, c) == -1 ==> forall|i: int| 0 <= i < s.len() ==> s[i] != c,
        last_index_of(s, c) >= 0 ==> s[last_index_of(s, c)] == c,
        forall|i: int| last_index_of(s, c) < i < s.len() ==> s[i] != c,
    decreases s.len(),
{
    if s.len() > 0 && s.last() != c {
        lemma_last_index_of(s.drop_last(), c);
        assert(forall|i: int| 0 <= i < s.len() - 1 ==> s[i] == s.drop_last()[i]);
    }
}

/// Everything before the first `?`, or all of `s` if it has none.
pub open spec fn strip_query(s: Seq<char>) -> Seq<char> {
    if first_index_of(s, '?') >= 0 {
        s.subrange(0, first_index_of(s, '?'))
    } else {
        s
    }
}

/// The final path segment of the URL with its query string removed.
pub open spec fn raw_file_name(url: Seq<char>) -> Seq<char> {
    strip_query(url.subrange(last_index_of(url, '/') + 1, url.len() as int))
}

/// File name derived from a URL: the final path segment, stripped of any
/// query string, falling back to `download` when that leaves nothing.
pub open spec fn file_name_of(url: Seq<char>) -> Seq<char> {
    if raw_file_name(url).len() == 0 {
        "download"@
    } else {
        raw_file_name(url)
    }
}

/// Proof helper: with the scan facts gathered by an executable loop, the
/// last occurrence of `c` is exactly `k - 1`.
proof fn lemma_last_index_from_scan(s: Seq<char>, c: char, k: int)
    requires
        0 <= k <= s.len(),
        k >= 1 ==> s[k - 1] == c,
        forall|j: int| k <= j < s.len() ==> s[j] != c,
    ensures
        last_index_of(s, c) == k - 1,
    decreases s.len(),
{
    if s.len() == 0 {
    } else if s.last() == c {
        assert(k == s.len());
    } else {
        assert(k < s.len() || s[k - 1] != c || k == s.len());
        assert(k <= s.len() - 1) by {
            if k == s.len() {
                assert(s[k - 1] == s.last());
            }
        }
        lemma_last_index_from_scan(s.drop_last(), c, k);
    }
}

/// Proof helper: with the scan facts gathered by an executable loop, the
/// first occurrence of `c` is exactly `k` (or absent when `k == s.len()`).
proof fn lemma_first_index_from_scan(s: Seq<char>, c: char, k: int)
    requires
        0 <= k <= s.len(),
        k < s.len() ==> s[k] == c,
        forall|j: int| 0 <= j < k ==> s[j] != c,
    ensures
        first_index_of(s, c) == if k < s.len() {
            k
        } else {
            -1
        },
    decreases s.len(),
{
    if s.len() == 0 {
    } else if s[0] == c {
        assert(k == 0);
    } else {
        assert(k >= 1);
        assert(forall|i: int| 0 <= i < s.len() - 1 ==> s.drop_first()[i] == s[i + 1]);
        lemma_first_index_from_scan(s.drop_first(), c, k - 1);
    }
}

/// Derives the target file name from `url`: the part after the last `/`,
/// cut at the first `?`, or the literal `download` when that is empty.
pub fn get_file_name(url: &str) -> (r: String)
    ensures
        r@ == file_name_of(url@),
{
    let n = url.unicode_len();
    let mut start: usize = 0;
    let mut i: usize = 0;
    while i < n
        invariant
            0 <= start <= i <= n,
            n == url@.len(),
            start >= 1 ==> url@[start - 1] == '/',
            forall|j: int| start <= j < i ==> url@[j] != '/',
        decreases n - i,
    {
        if url.get_char(i) == '/' {
            start = i + 1;
        }
        i = i + 1;
    }
    proof {
        lemma_last_index_from_scan(url@, '/', start as int);
    }
    let mut cut: usize = start;
    while cut < n
        invariant_except_break
            start <= cut <= n,
            n == url@.len(),
            forall|j: int| start <= j < cut ==> url@[j] != '?',
        ensures
            start <= cut <= n,
            n == url@.len(),
            cut < n ==> url@[cut as int] == '?',
            forall|j: int| start <= j < cut ==> url@[j] != '?',
        decreases n - cut,
    {
        if url.get_char(cut) == '?' {
            break ;
        }
        cut = cut + 1;
    }
    let ghost piece = url@.subrange(start as int, n as int);
    proof {
        assert(forall|i: int| 0 <= i < piece.len() ==> piece[i] == url@[start + i]);
        lemma_first_index_from_scan(piece, '?', cut - start);
        if first_index_of(piece, '?') >= 0 {
            assert(strip_query(piece) =~= url@.subrange(start as int, cut as int));
        } else {
            assert(strip_query(piece) =~= url@.subrange(start as int, cut as int));
        }
    }
    let sub = url.substring_char(start, cut);
    if sub.unicode_len() == 0 {
        proof {
            reveal_strlit("download");
        }
        "download".to_owned()
    } else {
        sub.to_owned()
    }
}

/// Stem of a file name: the part before the final `.`, provided that dot is
/// not the leading character; the whole name otherwise, and the literal
/// `file` for an empty name.
pub open spec fn stem_of(f: Seq<char>) -> Seq<char> {
    if f.len() == 0 {
        "file"@
    } else if last_index_of(f, '.') >= 1 {
        f.subrange(0, last_index_of(f, '.'))
    } else {
        f
    }
}

/// Extension of a file name: the part after the final `.`, when that dot
/// exists and is not the leading character; empty otherwise.
pub open spec fn ext_of(f: Seq<char>) -> Seq<char> {
    if f.len() > 0 && last_index_of(f, '.') >= 1 {
        f.subrange(last_index_of(f, '.') + 1, f.len() as int)
    } else {
        Seq::empty()
    }
}

/// Splits a file name into stem and extension.
pub fn split_stem_ext(f: &str) -> (r: (String, String))
    ensures
        r.0@ == stem_of(f@),
        r.1@ == ext_of(f@),
{
    let n = f.unicode_len();
    if n == 0 {
        proof {
            reveal_strlit("file");
        }
        return ("file".to_owned(), String::new());
    }
    let mut dot: usize = 0;
    let mut i: usize = 0;
    while i < n
        invariant
            0 <= dot <= i <= n,
            n == f@.len(),
            dot >= 1 ==> f@[dot - 1] == '.',
            forall|j: int| dot <= j < i ==> f@[j] != '.',
        decreases n - i,
    {
        if f.get_char(i) == '.' {
            dot = i + 1;
        }
        i = i + 1;
    }
    proof {
        lemma_last_index_from_scan(f@, '.', dot as int);
    }
    if dot >= 2 {
        (f.substring_char(0, dot - 1).to_owned(), f.substring_char(dot, n).to_owned())
    } else {
        (f.to_owned(), String::new())
    }
}

/// The name proposed for duplicate `k` of file name `f`: ` (k)` is inserted
/// between stem and extension.
pub open spec fn candidate_name(f: Seq<char>, k: nat) -> Seq<char> {
    if ext_of(f).len() == 0 {
        stem_of(f) + " ("@ + dec_str(k) + ")"@
    } else {
        stem_of(f) + " ("@ + dec_str(k) + ")."@ + ext_of(f)
    }
}

/// Builds the candidate name for duplicate `k` from a stem and extension.
pub fn candidate_filename(stem: &String, ext: &String, k: u64) -> (r: String)
    ensures
        r@ == if ext@.len() == 0 {
            stem@ + " ("@ + dec_str(k as nat) + ")"@
        } else {
            stem@ + " ("@ + dec_str(k as nat) + ")."@ + ext@
        },
{
    let mut s = stem.clone();
    s.append(" (");
    let num = u64_to_dec(k);
    s.append(num.as_str());
    if ext.unicode_len() == 0 {
        s.append(")");
    } else {
        s.append(").");
        s.append(ext.as_str());
    }
    s
}

/// Whether some string in `names` reads as `target`.
pub open spec fn list_has(names: Seq<String>, target: Seq<char>) -> bool {
    exists|i: int| 0 <= i < names.len() && names[i]@ == target
}

/// Linear scan for `cand` among `taken`.
pub fn name_taken(taken: &Vec<String>, cand: &String) -> (r: bool)
    ensures
        r == list_has(taken@, cand@),
{
    let mut i: usize = 0;
    while i < taken.len()
        invariant
            0 <= i <= taken@.len(),
            forall|j: int| 0 <= j < i ==> taken@[j]@ != cand@,
        decreases taken@.len() - i,
    {
        if taken[i].eq(cand) {
            return true;
        }
        i = i + 1;
    }
    false
}

/// Candidate names for distinct duplicate numbers differ.
pub proof fn lemma_candidate_injective(f: Seq<char>, k1: nat, k2: nat)
    requires
        candidate_name(f, k1) == candidate_name(f, k2),
    ensures
        k1 == k2,
{
    let a = stem_of(f) + " ("@;
    let d1 = dec_str(k1);
    let d2 = dec_str(k2);
    if ext_of(f).len() == 0 {
        assert(candidate_name(f, k1).len() == a.len() + d1.len() + ")"@.len());
        assert(candidate_name(f, k2).len() == a.len() + d2.len() + ")"@.len());
    } else {
        assert(candidate_name(f, k1).len() == a.len() + d1.len() + ")."@.len() + ext_of(f).len());
        assert(candidate_name(f, k2).len() == a.len() + d2.len() + ")."@.len() + ext_of(f).len());
    }
    assert(d1.len() == d2.len());
    assert(d1 =~= candidate_name(f, k1).subrange(a.len() as int, a.len() + d1.len() as int));
    assert(d2 =~= candidate_name(f, k2).subrange(a.len() as int, a.len() + d2.len() as int));
    lemma_dec_str_injective(k1, k2);
}

/// A candidate name is strictly longer than the name it was derived from,
/// so it never equals it.
pub proof fn lemma_candidate_differs(f: Seq<char>, k: nat)
    ensures
        candidate_name(f, k).len() > f.len(),
        candidate_name(f, k) != f,
{
    reveal_strlit(" (");
    reveal_strlit(")");
    reveal_strlit(").");
    reveal_strlit("file");
    crate::text::lemma_dec_str_len(k);
    if f.len() > 0 && last_index_of(f, '.') >= 1 {
        lemma_last_index_of(f, '.');
    }
}

/// Among the first `names.len() + 1` candidate names, at least one is free:
/// distinct numbers give distinct names, and there are more names proposed
/// than names taken.
pub proof fn lemma_some_candidate_free(f: Seq<char>, names: Seq<String>)
    ensures
        exists|j: nat| 1 <= j <= names.len() + 1 && !list_has(names, candidate_name(f, j)),
{
    let n = names.len() as int;
    assert_by_contradiction!(exists|j: nat|
        1 <= j <= names.len() + 1 && !list_has(names, candidate_name(f, j)), {
        let cf = |j: int| candidate_name(f, j as nat);
        let ks = set_int_range(1, n + 2);
        lemma_int_range(1, n + 2);
        assert(injective_on(cf, ks)) by {
            assert forall|x1: int, x2: int|
                ks.contains(x1) && ks.contains(x2) && #[trigger] cf(x1) == #[trigger] cf(
                    x2,
                ) implies x1 == x2 by {
                lemma_candidate_injective(f, x1 as nat, x2 as nat);
            }
        }
        let cands = ks.map(cf);
        lemma_map_size(ks, cands, cf);
        let views = names.map_values(|t: String| t@);
        let vset = views.to_set();
        views.lemma_cardinality_of_set();
        assert(cands.subset_of(vset)) by {
            assert forall|y: Seq<char>| cands.contains(y) implies vset.contains(y) by {
                let x = choose|x: int| ks.contains(x) && y == cf(x);
                assert(1 <= x as nat <= names.len() + 1);
                assert(list_has(names, candidate_name(f, x as nat)));
                let i = choose|i: int| 0 <= i < names.len() && names[i]@ == y;
                assert(views[i] == y);
                assert(views.contains(y));
            }
        }
        lemma_len_subset(cands, vset);
    });
}

/// Picks the lowest duplicate number whose candidate name is not taken, and
/// returns that name with its number.
pub fn next_free_name(filename: &str, taken: &Vec<String>) -> (r: (String, u64))
    requires
        taken@.len() + 2 <= u64::MAX,
    ensures
        1 <= r.1 <= taken@.len() + 1,
        r.0@ == candidate_name(filename@, r.1 as nat),
        !list_has(taken@, r.0@),
        forall|j: u64| 1 <= j < r.1 ==> list_has(taken@, candidate_name(filename@, j as nat)),
{
    let (stem, ext) = split_stem_ext(filename);
    let ghost n = taken@.len();
    let mut k: u64 = 1;
    loop
        invariant
            1 <= k <= n + 1,
            n == taken@.len(),
            n + 2 <= u64::MAX,
            stem@ == stem_of(filename@),
            ext@ == ext_of(filename@),
            forall|j: u64| 1 <= j < k ==> list_has(taken@, candidate_name(filename@, j as nat)),
        decreases n + 1 - k,
    {
        let cand = candidate_filename(&stem, &ext, k);
        assert(cand@ == candidate_name(filename@, k as nat));
        if !name_taken(taken, &cand) {
            return (cand, k);
        }
        proof {
            if k == n + 1 {
                lemma_some_candidate_free(filename@, taken@);
                let w = choose|j: nat|
                    1 <= j <= taken@.len() + 1 && !list_has(taken@, candidate_name(filename@, j));
                let wu: u64 = w as u64;
                assert(wu as nat == w);
                if wu < k {
                    assert(list_has(taken@, candidate_name(filename@, wu as nat)));
                }
                assert(false);
            }
        }
        k = k + 1;
    }
}

} // verus!
