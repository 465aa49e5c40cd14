//! The names of the modules found in a directory, in the order the bot lists
//! them.
use vstd::prelude::*;
use vstd::string::*;
use vstd::utf8::char_u32_cast;
use crate::bindings::{lowercase, lowercase_of};
use crate::text::{chars_of, lex_le, lex_le_text, same_text, split_on, split_text};

verus! {

// ---------------------------------------------------------------------------
// Lexicographic order
// ---------------------------------------------------------------------------

proof fn lemma_char_cast_injective(a: char, b: char)
    ensures
        (a as u32) == (b as u32) ==> a == b,
{
    char_u32_cast(a, a as u32);
    char_u32_cast(b, b as u32);
}

/// The first position where `a` and `b` differ, when neither is a prefix of
/// the other.
proof fn lemma_first_difference(a: Seq<char>, b: Seq<char>) -> (k: int)
    requires
        !a.is_prefix_of(b),
        !b.is_prefix_of(a),
    ensures
        0 <= k < a.len(),
        k < b.len(),
        a.take(k) == b.take(k),
        a[k] != b[k],
{
    let j0: int = if a.len() <= b.len() {
        assert(!(forall|i: int| 0 <= i < a.len() ==> a[i] == b[i])) by {
            if forall|i: int| 0 <= i < a.len() ==> a[i] == b[i] {
                assert(a =~= b.subrange(0, a.len() as int));
            }
        }
        choose|i: int| 0 <= i < a.len() && a[i] != b[i]
    } else {
        assert(!(forall|i: int| 0 <= i < b.len() ==> b[i] == a[i])) by {
            if forall|i: int| 0 <= i < b.len() ==> b[i] == a[i] {
                assert(b =~= a.subrange(0, b.len() as int));
            }
        }
        choose|i: int| 0 <= i < b.len() && b[i] != a[i]
    };
    let k = lemma_least_difference(a, b, j0);
    assert(a.take(k) =~= b.take(k));
    k
}

proof fn lemma_least_difference(a: Seq<char>, b: Seq<char>, j: int) -> (k: int)
    requires
        0 <= j < a.len() && j < b.len() && a[j] != b[j],
    ensures
        0 <= k < a.len() && k < b.len() && a[k] != b[k] && forall|m: int| 0 <= m < k ==> a[m] == b[m],
    decreases j,
{
    if forall|m: int| 0 <= m < j ==> a[m] == b[m] {
        j
    } else {
        let m = choose|m: int| 0 <= m < j && a[m] != b[m];
        lemma_least_difference(a, b, m)
    }
}

/// Two texts are always ordered one way or the other.
pub proof fn lemma_lex_total(a: Seq<char>, b: Seq<char>)
    ensures
        lex_le(a, b) || lex_le(b, a),
{
    if !a.is_prefix_of(b) && !b.is_prefix_of(a) {
        let k = lemma_first_difference(a, b);
        lemma_char_cast_injective(a[k], b[k]);
        if (a[k] as u32) < (b[k] as u32) {
            assert(lex_le(a, b));
        } else {
            assert(b.take(k) == a.take(k));
            assert(lex_le(b, a));
        }
    }
}

/// The order is transitive.
pub proof fn lemma_lex_trans(a: Seq<char>, b: Seq<char>, c: Seq<char>)
    requires
        lex_le(a, b),
        lex_le(b, c),
    ensures
        lex_le(a, c),
{
    if a.is_prefix_of(b) && b.is_prefix_of(c) {
        assert(a.is_prefix_of(c)) by {
            assert forall|i: int| 0 <= i < a.len() implies a[i] == c[i] by {
                assert(a[i] == b[i]);
            }
        }
    } else if a.is_prefix_of(b) {
        let k = choose|k: int|
            0 <= k < b.len() && k < c.len() && b.take(k) == c.take(k) && (b[k] as u32) < (c[k] as u32);
        if k < a.len() {
            assert(a.take(k) =~= c.take(k)) by {
                assert forall|i: int| 0 <= i < k implies a.take(k)[i] == c.take(k)[i] by {
                    assert(b.take(k)[i] == c.take(k)[i]);
                }
            }
            assert(a[k] == b[k]);
        } else {
            assert forall|i: int| 0 <= i < a.len() implies a[i] == c[i] by {
                assert(b.take(k)[i] == c.take(k)[i]);
            }
        }
    } else if b.is_prefix_of(c) {
        let k = choose|k: int|
            0 <= k < a.len() && k < b.len() && a.take(k) == b.take(k) && (a[k] as u32) < (b[k] as u32);
        assert(a.take(k) =~= c.take(k)) by {
            assert forall|i: int| 0 <= i < k implies a.take(k)[i] == c.take(k)[i] by {
                assert(a.take(k)[i] == b.take(k)[i]);
            }
        }
        assert(b[k] == c[k]);
    } else {
        let k1 = choose|k: int|
            0 <= k < a.len() && k < b.len() && a.take(k) == b.take(k) && (a[k] as u32) < (b[k] as u32);
        let k2 = choose|k: int|
            0 <= k < b.len() && k < c.len() && b.take(k) == c.take(k) && (b[k] as u32) < (c[k] as u32);
        let k = if k1 < k2 { k1 } else { k2 };
        assert(a.take(k) =~= c.take(k)) by {
            assert forall|i: int| 0 <= i < k implies a.take(k)[i] == c.take(k)[i] by {
                assert(a.take(k1)[i] == b.take(k1)[i]);
                assert(b.take(k2)[i] == c.take(k2)[i]);
            }
        }
        if k1 < k2 {
            assert(b.take(k2)[k1] == c.take(k2)[k1]);
        } else if k2 < k1 {
            assert(a.take(k1)[k2] == b.take(k1)[k2]);
        }
    }
}

/// Texts ordered both ways are equal.
pub proof fn lemma_lex_antisym(a: Seq<char>, b: Seq<char>)
    requires
        lex_le(a, b),
        lex_le(b, a),
    ensures
        a == b,
{
    if a.is_prefix_of(b) && b.is_prefix_of(a) {
        assert(a =~= b);
    } else if a.is_prefix_of(b) {
        let k = choose|k: int|
            0 <= k < b.len() && k < a.len() && b.take(k) == a.take(k) && (b[k] as u32) < (a[k] as u32);
        assert(a[k] == b[k]);
    } else if b.is_prefix_of(a) {
        let k = choose|k: int|
            0 <= k < a.len() && k < b.len() && a.take(k) == b.take(k) && (a[k] as u32) < (b[k] as u32);
        assert(a[k] == b[k]);
    } else {
        let k1 = choose|k: int|
            0 <= k < a.len() && k < b.len() && a.take(k) == b.take(k) && (a[k] as u32) < (b[k] as u32);
        let k2 = choose|k: int|
            0 <= k < b.len() && k < a.len() && b.take(k) == a.take(k) && (b[k] as u32) < (a[k] as u32);
        if k1 < k2 {
            assert(b.take(k2)[k1] == a.take(k2)[k1]);
        } else if k2 < k1 {
            assert(a.take(k1)[k2] == b.take(k1)[k2]);
        }
    }
}

/// The texts come in strictly ascending order: each comes before the next and
/// none is repeated (the order of the keys of a map keyed by them).
pub open spec fn strictly_ascending(ids: Seq<Seq<char>>) -> bool {
    forall|i: int, j: int|
        0 <= i < j < ids.len() ==> lex_le(#[trigger] ids[i], #[trigger] ids[j]) && ids[i] != ids[j]
}

/// Whether the texts come in strictly ascending order.
pub fn ids_in_order(ids: &Vec<String>) -> (r: bool)
    ensures
        r == strictly_ascending(ids.deep_view()),
{
    let ghost v = ids.deep_view();
    if ids.len() == 0 {
        return true;
    }
    let mut prev = chars_of(ids[0].as_str());
    let mut k: usize = 1;
    while k < ids.len()
        invariant
            1 <= k <= ids.len(),
            v == ids.deep_view(),
            prev@ == v[k - 1],
            strictly_ascending(v.take(k as int)),
        decreases ids.len() - k,
    {
        let cur = chars_of(ids[k].as_str());
        if !lex_le_text(&prev, &cur) || same_text(&ids[k - 1], &ids[k]) {
            assert(!strictly_ascending(v)) by {
                if strictly_ascending(v) {
                    assert(lex_le(v[k - 1], v[k as int]) && v[k - 1] != v[k as int]);
                }
            }
            return false;
        }
        proof {
            let t = v.take(k + 1);
            assert forall|i: int, j: int| 0 <= i < j < t.len() implies lex_le(#[trigger] t[i], #[trigger] t[j]) && t[i] != t[j] by {
                if j < k {
                    assert(t[i] == v.take(k as int)[i]);
                    assert(t[j] == v.take(k as int)[j]);
                } else if i < k - 1 {
                    assert(t[i] == v.take(k as int)[i]);
                    assert(v.take(k as int)[k - 1] == v[k - 1]);
                    assert(lex_le(v[i], v[k - 1]) && v[i] != v[k - 1]);
                    lemma_lex_trans(v[i], v[k - 1], v[k as int]);
                    if v[i] == v[k as int] {
                        lemma_lex_antisym(v[i], v[k - 1]);
                    }
                }
            }
        }
        prev = cur;
        k = k + 1;
    }
    assert(v.take(ids.len() as int) == v);
    true
}

// ---------------------------------------------------------------------------
// Module names
// ---------------------------------------------------------------------------

/// The part of a file name before its first `.`.
pub open spec fn stem(file_name: Seq<char>) -> Seq<char> {
    split_on(file_name, "."@)[0]
}

/// The stems of the file names, in order, but for `mod`.
pub open spec fn candidates(files: Seq<Seq<char>>) -> Seq<Seq<char>>
    decreases files.len(),
{
    if files.len() == 0 {
        seq![]
    } else {
        candidates(files.drop_last()) + if stem(files.last()) != "mod"@ {
            seq![stem(files.last())]
        } else {
            seq![]
        }
    }
}

/// The names come in the order of their lower-cased forms.
pub open spec fn sorted_by_lowercase(r: Seq<Seq<char>>) -> bool {
    forall|i: int, j: int| 0 <= i < j < r.len() ==> lex_le(#[trigger] lowercase_of(r[i]), #[trigger] lowercase_of(r[j]))
}

/// `r` holds the names of `c` in a new order, `r[j]` being `c[perm[j]]`, and
/// names whose lower-cased forms are equal keep their order.
pub open spec fn stable_permutation(r: Seq<Seq<char>>, c: Seq<Seq<char>>, perm: Seq<int>) -> bool {
    &&& r.len() == c.len()
    &&& perm.len() == c.len()
    &&& forall|j: int| 0 <= j < r.len() ==> 0 <= #[trigger] perm[j] < c.len() && r[j] == c[perm[j]]
    &&& forall|j1: int, j2: int| 0 <= j1 < j2 < r.len() ==> #[trigger] perm[j1] != #[trigger] perm[j2]
    &&& forall|j1: int, j2: int|
        0 <= j1 < j2 < r.len() && lowercase_of(r[j1]) == lowercase_of(r[j2]) ==> #[trigger] perm[j1]
            < #[trigger] perm[j2]
}

/// The stems of the file names, but for `mod`.
fn module_candidates(file_names: &Vec<String>) -> (r: Vec<String>)
    ensures
        r.deep_view() == candidates(file_names.deep_view()),
{
    let ghost files = file_names.deep_view();
    let skip = String::from_str("mod");
    let mut r: Vec<String> = Vec::new();
    let mut i: usize = 0;
    proof {
        reveal_strlit(".");
    }
    while i < file_names.len()
        invariant
            i <= file_names.len(),
            files == file_names.deep_view(),
            skip@ == "mod"@,
            "."@.len() == 1,
            r.deep_view() == candidates(files.take(i as int)),
        decreases file_names.len() - i,
    {
        let pieces = split_text(file_names[i].as_str(), ".");
        let name = pieces[0].clone();
        assert(name@ == stem(files[i as int]));
        let ghost before = r.deep_view();
        proof {
            let t = files.take(i + 1);
            assert(t.drop_last() == files.take(i as int));
            assert(t.last() == files[i as int]);
        }
        if !same_text(&name, &skip) {
            r.push(name);
            assert(r.deep_view() =~= before + seq![stem(files[i as int])]);
        } else {
            assert(r.deep_view() =~= before + Seq::<Seq<char>>::empty());
        }
        i = i + 1;
    }
    assert(files.take(file_names.len() as int) == files);
    r
}

/// The module names for the files of a directory: each file name up to its
/// first `.`, leaving out `mod`, sorted by their lower-cased forms (names
/// whose lower-cased forms are equal keep their order).
pub fn generate_module_names(file_names: Vec<String>) -> (r: Vec<String>)
    ensures
        sorted_by_lowercase(r.deep_view()),
        exists|perm: Seq<int>| stable_permutation(r.deep_view(), candidates(file_names.deep_view()), perm),
{
    let cands = module_candidates(&file_names);
    let ghost c = cands.deep_view();
    let mut out: Vec<String> = Vec::new();
    let mut keys: Vec<Vec<char>> = Vec::new();
    let ghost mut perm: Seq<int> = seq![];
    let mut i: usize = 0;
    while i < cands.len()
        invariant
            i <= cands.len(),
            c == cands.deep_view(),
            out.len() == i,
            keys.len() == i,
            perm.len() == i,
            forall|j: int| 0 <= j < i ==> #[trigger] keys@[j]@ == lowercase_of(out.deep_view()[j]),
            forall|j: int| 0 <= j < i ==> 0 <= #[trigger] perm[j] < i && out.deep_view()[j] == c[perm[j]],
            forall|j1: int, j2: int| 0 <= j1 < j2 < i ==> #[trigger] perm[j1] != #[trigger] perm[j2],
            forall|j1: int, j2: int| 0 <= j1 < j2 < i ==> lex_le(#[trigger] keys@[j1]@, #[trigger] keys@[j2]@),
            forall|j1: int, j2: int|
                0 <= j1 < j2 < i && keys@[j1]@ == keys@[j2]@ ==> #[trigger] perm[j1] < #[trigger] perm[j2],
        decreases cands.len() - i,
    {
        let name = cands[i].clone();
        let low = lowercase(name.as_str());
        let key = chars_of(low.as_str());
        let mut p: usize = 0;
        while p < keys.len() && lex_le_text(&keys[p], &key)
            invariant
                p <= keys.len(),
                keys.len() == i,
                forall|j: int| 0 <= j < p ==> lex_le(#[trigger] keys@[j]@, key@),
            decreases keys.len() - p,
        {
            p = p + 1;
        }
        let ghost old_keys = keys@;
        let ghost old_out = out.deep_view();
        let ghost old_perm = perm;
        proof {
            // Everything from `p` on comes strictly after the new name.
            assert forall|j: int| p <= j < i implies lex_le(key@, #[trigger] old_keys[j]@) && old_keys[j]@ != key@ by {
                assert(!lex_le(old_keys[p as int]@, key@));
                lemma_lex_total(old_keys[p as int]@, key@);
                if j > p {
                    lemma_lex_trans(key@, old_keys[p as int]@, old_keys[j]@);
                    if old_keys[j]@ == key@ {
                        lemma_lex_trans(old_keys[p as int]@, old_keys[j]@, key@);
                    }
                }
            }
        }
        out.insert(p, name);
        keys.insert(p, key);
        proof {
            perm = old_perm.insert(p as int, i as int);
            let nk = keys@;
            let no = out.deep_view();
            assert(no =~= old_out.insert(p as int, c[i as int]));
            assert forall|j: int| 0 <= j < i + 1 implies #[trigger] nk[j]@ == lowercase_of(no[j]) by {
                if j < p {
                    assert(nk[j] == old_keys[j]);
                } else if j > p {
                    assert(nk[j] == old_keys[j - 1]);
                }
            }
            assert forall|j: int| 0 <= j < i + 1 implies 0 <= #[trigger] perm[j] < i + 1 && no[j] == c[perm[j]] by {
                if j < p {
                    assert(perm[j] == old_perm[j]);
                } else if j > p {
                    assert(perm[j] == old_perm[j - 1]);
                }
            }
            assert forall|j1: int, j2: int| 0 <= j1 < j2 < i + 1 implies #[trigger] perm[j1] != #[trigger] perm[j2] by {
                if j1 != p && j2 != p {
                    let o1 = if j1 < p { j1 } else { j1 - 1 };
                    let o2 = if j2 < p { j2 } else { j2 - 1 };
                    assert(perm[j1] == old_perm[o1]);
                    assert(perm[j2] == old_perm[o2]);
                } else if j1 == p {
                    assert(perm[j2] == old_perm[j2 - 1]);
                } else {
                    assert(perm[j1] == old_perm[j1]);
                }
            }
            assert forall|j1: int, j2: int| 0 <= j1 < j2 < i + 1 implies lex_le(#[trigger] nk[j1]@, #[trigger] nk[j2]@) by {
                if j1 != p && j2 != p {
                    let o1 = if j1 < p { j1 } else { j1 - 1 };
                    let o2 = if j2 < p { j2 } else { j2 - 1 };
                    assert(nk[j1] == old_keys[o1]);
                    assert(nk[j2] == old_keys[o2]);
                } else if j1 == p {
                    assert(nk[j2] == old_keys[j2 - 1]);
                } else {
                    assert(nk[j1] == old_keys[j1]);
                }
            }
            assert forall|j1: int, j2: int|
                0 <= j1 < j2 < i + 1 && nk[j1]@ == nk[j2]@ implies #[trigger] perm[j1] < #[trigger] perm[j2] by {
                if j1 != p && j2 != p {
                    let o1 = if j1 < p { j1 } else { j1 - 1 };
                    let o2 = if j2 < p { j2 } else { j2 - 1 };
                    assert(nk[j1] == old_keys[o1]);
                    assert(nk[j2] == old_keys[o2]);
                    assert(perm[j1] == old_perm[o1]);
                    assert(perm[j2] == old_perm[o2]);
                } else if j1 == p {
                    assert(nk[j2] == old_keys[j2 - 1]);
                } else {
                    assert(nk[j1] == old_keys[j1]);
                    assert(perm[j1] == old_perm[j1]);
                }
            }
        }
        i = i + 1;
    }
    proof {
        let r = out.deep_view();
        assert forall|j1: int, j2: int| 0 <= j1 < j2 < r.len() implies lex_le(#[trigger] lowercase_of(r[j1]), #[trigger] lowercase_of(r[j2])) by {
            assert(keys@[j1]@ == lowercase_of(r[j1]));
            assert(keys@[j2]@ == lowercase_of(r[j2]));
        }
        assert forall|j1: int, j2: int|
            0 <= j1 < j2 < r.len() && lowercase_of(r[j1]) == lowercase_of(r[j2]) implies #[trigger] perm[j1]
                < #[trigger] perm[j2] by {
            assert(keys@[j1]@ == lowercase_of(r[j1]));
            assert(keys@[j2]@ == lowercase_of(r[j2]));
        }
        assert(stable_permutation(r, c, perm));
    }
    out
}

} // verus!
