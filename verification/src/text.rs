//! Verified text handling on character sequences: whitespace words,
//! splitting on a separator, joining, prefixes and trimming.
use vstd::prelude::*;
use vstd::string::*;

verus! {

/// Appends one character to a string (`String::push`).
#[verifier::external_body]
pub(crate) fn push_char(s: &mut String, c: char)
    ensures
        final(s)@ == old(s)@.push(c),
{
    s.push(c);
}

/// The characters of a string slice, in order.
pub fn chars_of(s: &str) -> (v: Vec<char>)
    ensures
        v@ == s@,
{
    let mut v: Vec<char> = Vec::new();
    for c in it: s.chars()
        invariant
            v@ == it.seq().take(it.index() as int),
            it.seq() == s@,
    {
        v.push(c);
    }
    v
}

/// A string holding the characters `v[from..to]`.
pub fn string_of_range(v: &Vec<char>, from: usize, to: usize) -> (s: String)
    requires
        from <= to <= v.len(),
    ensures
        s@ == v@.subrange(from as int, to as int),
{
    let mut s = String::new();
    let mut i = from;
    while i < to
        invariant
            from <= i <= to <= v.len(),
            s@ == v@.subrange(from as int, i as int),
        decreases to - i,
    {
        push_char(&mut s, v[i]);
        assert(v@.subrange(from as int, i + 1) == v@.subrange(from as int, i as int).push(v@[i as int]));
        i = i + 1;
    }
    s
}

/// The concatenation of two string slices.
pub fn cat(a: &str, b: &str) -> (s: String)
    ensures
        s@ == a@ + b@,
{
    let mut s = String::from_str(a);
    s.append(b);
    s
}

/// The concatenation of three string slices.
pub fn cat3(a: &str, b: &str, c: &str) -> (s: String)
    ensures
        s@ == a@ + b@ + c@,
{
    let mut s = String::from_str(a);
    s.append(b);
    s.append(c);
    s
}

/// Whether two strings hold the same characters.
pub fn same_text(a: &String, b: &String) -> (r: bool)
    ensures
        r == (a@ == b@),
{
    *a == *b
}

/// A copy of a vector of strings.
pub fn copy_strings(v: &Vec<String>) -> (r: Vec<String>)
    ensures
        r.deep_view() == v.deep_view(),
{
    let mut r: Vec<String> = Vec::new();
    let mut i: usize = 0;
    while i < v.len()
        invariant
            i <= v.len(),
            r.deep_view() == v.deep_view().take(i as int),
        decreases v.len() - i,
    {
        r.push(v[i].clone());
        assert(v.deep_view().take(i + 1) == v.deep_view().take(i as int).push(v.deep_view()[i as int]));
        i = i + 1;
    }
    assert(v.deep_view().take(v.len() as int) == v.deep_view());
    r
}

/// The strings `v[from..]`.
pub fn strings_from(v: &Vec<String>, from: usize) -> (r: Vec<String>)
    requires
        from <= v.len(),
    ensures
        r.deep_view() == v.deep_view().skip(from as int),
{
    let mut r: Vec<String> = Vec::new();
    let mut i: usize = from;
    while i < v.len()
        invariant
            from <= i <= v.len(),
            r.deep_view() == v.deep_view().subrange(from as int, i as int),
        decreases v.len() - i,
    {
        r.push(v[i].clone());
        assert(v.deep_view().subrange(from as int, i + 1) == v.deep_view().subrange(
            from as int,
            i as int,
        ).push(v.deep_view()[i as int]));
        i = i + 1;
    }
    r
}

// ---------------------------------------------------------------------------
// Whitespace and words
// ---------------------------------------------------------------------------

/// The characters with the Unicode `White_Space` property, which is what
/// `char::is_whitespace` tests.
pub open spec fn is_white(c: char) -> bool {
    let u = c as u32;
    ||| 0x09 <= u <= 0x0D
    ||| u == 0x20
    ||| u == 0x85
    ||| u == 0xA0
    ||| u == 0x1680
    ||| 0x2000 <= u <= 0x200A
    ||| u == 0x2028
    ||| u == 0x2029
    ||| u == 0x202F
    ||| u == 0x205F
    ||| u == 0x3000
}

/// Whether `c` is a whitespace character.
pub fn is_whitespace(c: char) -> (r: bool)
    ensures
        r == is_white(c),
{
    let u = c as u32;
    (0x09 <= u && u <= 0x0D) || u == 0x20 || u == 0x85 || u == 0xA0 || u == 0x1680 || (0x2000
        <= u && u <= 0x200A) || u == 0x2028 || u == 0x2029 || u == 0x202F || u == 0x205F || u
        == 0x3000
}

/// The end of the run of non-whitespace characters that starts at `i`.
pub open spec fn word_end(s: Seq<char>, i: int) -> int
    decreases s.len() - i,
{
    if i < 0 || i >= s.len() || is_white(s[i]) {
        i
    } else {
        word_end(s, i + 1)
    }
}

pub proof fn lemma_word_end_bounds(s: Seq<char>, i: int)
    requires
        0 <= i <= s.len(),
    ensures
        i <= word_end(s, i) <= s.len(),
        i < s.len() && !is_white(s[i]) ==> i < word_end(s, i),
        forall|k: int| i <= k < word_end(s, i) ==> !is_white(#[trigger] s[k]),
        word_end(s, i) < s.len() ==> is_white(s[word_end(s, i)]),
    decreases s.len() - i,
{
    if i < s.len() && !is_white(s[i]) {
        lemma_word_end_bounds(s, i + 1);
    }
}

/// The words of `s[i..]`: its maximal runs of non-whitespace characters, in
/// order.
pub open spec fn words_from(s: Seq<char>, i: int) -> Seq<Seq<char>>
    decreases s.len() - i,
{
    if i < 0 || i >= s.len() {
        seq![]
    } else if is_white(s[i]) {
        words_from(s, i + 1)
    } else {
        let j = word_end(s, i);
        proof {
            lemma_word_end_bounds(s, i);
        }
        seq![s.subrange(i, j)] + words_from(s, j)
    }
}

/// The words of `s` (what `str::split_whitespace` yields).
pub open spec fn words(s: Seq<char>) -> Seq<Seq<char>> {
    words_from(s, 0)
}

/// The whitespace-separated words of `s`.
pub fn words_of(s: &str) -> (r: Vec<String>)
    ensures
        r.deep_view() == words(s@),
{
    let cs = chars_of(s);
    let n = cs.len();
    let mut out: Vec<String> = Vec::new();
    let mut i: usize = 0;
    while i < n
        invariant
            i <= n == cs@.len(),
            cs@ == s@,
            words(s@) == out.deep_view() + words_from(s@, i as int),
        decreases n - i,
    {
        if is_whitespace(cs[i]) {
            i = i + 1;
        } else {
            let ghost start = i as int;
            let mut w = String::new();
            let mut j = i;
            while j < n && !is_whitespace(cs[j])
                invariant
                    i <= j <= n == cs@.len(),
                    cs@ == s@,
                    !is_white(cs@[i as int]),
                    w@ == cs@.subrange(i as int, j as int),
                    word_end(s@, i as int) == word_end(s@, j as int),
                decreases n - j,
            {
                push_char(&mut w, cs[j]);
                assert(cs@.subrange(i as int, j + 1) == cs@.subrange(i as int, j as int).push(
                    cs@[j as int],
                ));
                j = j + 1;
            }
            proof {
                lemma_word_end_bounds(s@, i as int);
                assert(word_end(s@, j as int) == j);
                assert(words_from(s@, i as int) == seq![w@] + words_from(s@, j as int));
            }
            let ghost before = out.deep_view();
            out.push(w);
            assert(out.deep_view() == before.push(cs@.subrange(i as int, j as int)));
            i = j;
        }
    }
    out
}

// ---------------------------------------------------------------------------
// Splitting on a separator and joining
// ---------------------------------------------------------------------------

/// `sep` occurs in `s` at position `i`.
pub open spec fn occurs_at(s: Seq<char>, sep: Seq<char>, i: int) -> bool {
    0 <= i && i + sep.len() <= s.len() && s.subrange(i, i + sep.len()) == sep
}

/// The first position at or after `i` where the non-empty `sep` occurs in `s`.
pub open spec fn find_from(s: Seq<char>, sep: Seq<char>, i: int) -> Option<int>
    decreases s.len() - i,
{
    if sep.len() == 0 || i < 0 || i + sep.len() > s.len() {
        None
    } else if occurs_at(s, sep, i) {
        Some(i)
    } else {
        find_from(s, sep, i + 1)
    }
}

pub proof fn lemma_find_from(s: Seq<char>, sep: Seq<char>, i: int)
    requires
        0 <= i,
    ensures
        find_from(s, sep, i) matches Some(k) ==> i <= k && occurs_at(s, sep, k) && sep.len() > 0
            && forall|m: int| i <= m < k ==> !occurs_at(s, sep, m),
        find_from(s, sep, i) is None ==> forall|m: int| i <= m ==> !occurs_at(s, sep, m) || sep.len()
            == 0,
    decreases s.len() - i,
{
    if sep.len() == 0 || i + sep.len() > s.len() {
    } else if occurs_at(s, sep, i) {
    } else {
        lemma_find_from(s, sep, i + 1);
    }
}

/// The pieces of `s[i..]` between the non-overlapping occurrences of `sep`,
/// taken from left to right.
pub open spec fn split_from(s: Seq<char>, sep: Seq<char>, i: int) -> Seq<Seq<char>>
    decreases s.len() - i,
{
    if i < 0 || i > s.len() {
        seq![]
    } else {
        match find_from(s, sep, i) {
            None => seq![s.subrange(i, s.len() as int)],
            Some(k) => {
                proof {
                    lemma_find_from(s, sep, i);
                }
                seq![s.subrange(i, k)] + split_from(s, sep, k + sep.len())
            },
        }
    }
}

/// What `str::split` with the string pattern `sep` yields for `s`.
pub open spec fn split_on(s: Seq<char>, sep: Seq<char>) -> Seq<Seq<char>> {
    split_from(s, sep, 0)
}

/// Whether `sep` occurs in `v` at position `i`.
fn occurs_here(v: &Vec<char>, sep: &Vec<char>, i: usize) -> (r: bool)
    requires
        i + sep.len() <= v.len(),
    ensures
        r == occurs_at(v@, sep@, i as int),
{
    let mut k: usize = 0;
    while k < sep.len()
        invariant
            k <= sep.len(),
            i + sep.len() <= v.len(),
            forall|m: int| 0 <= m < k ==> v@[i + m] == sep@[m],
        decreases sep.len() - k,
    {
        if v[i + k] != sep[k] {
            assert(v@.subrange(i as int, i + sep.len())[k as int] != sep@[k as int]);
            return false;
        }
        k = k + 1;
    }
    assert(v@.subrange(i as int, i + sep.len()) == sep@);
    true
}

/// The pieces of `s` between the occurrences of the non-empty `sep`.
pub fn split_text(s: &str, sep: &str) -> (r: Vec<String>)
    requires
        sep@.len() > 0,
    ensures
        r.deep_view() == split_on(s@, sep@),
        r.len() >= 1,
{
    let cs = chars_of(s);
    let sp = chars_of(sep);
    let n = cs.len();
    let m = sp.len();
    let mut out: Vec<String> = Vec::new();
    let mut st: usize = 0;
    let mut i: usize = 0;
    while m <= n && i <= n - m
        invariant
            n == cs@.len(),
            m == sp@.len(),
            m > 0,
            cs@ == s@,
            sp@ == sep@,
            st <= i,
            i <= n,
            st <= n,
            split_on(s@, sep@) == out.deep_view() + split_from(s@, sep@, st as int),
            find_from(s@, sep@, st as int) == find_from(s@, sep@, i as int),
        decreases n - i,
    {
        if occurs_here(&cs, &sp, i) {
            let piece = string_of_range(&cs, st, i);
            let ghost before = out.deep_view();
            out.push(piece);
            assert(out.deep_view() == before.push(s@.subrange(st as int, i as int)));
            proof {
                lemma_find_from(s@, sep@, st as int);
                assert(split_from(s@, sep@, st as int) == seq![s@.subrange(st as int, i as int)]
                    + split_from(s@, sep@, i + m));
            }
            st = i + m;
            i = st;
        } else {
            i = i + 1;
        }
    }
    proof {
        lemma_find_from(s@, sep@, i as int);
        lemma_find_from(s@, sep@, st as int);
        assert(find_from(s@, sep@, i as int) is None);
    }
    let piece = string_of_range(&cs, st, n);
    let ghost before = out.deep_view();
    out.push(piece);
    assert(out.deep_view() == before.push(s@.subrange(st as int, n as int)));
    out
}

/// The pieces joined with `sep` between consecutive pieces.
pub open spec fn join_with(parts: Seq<Seq<char>>, sep: Seq<char>) -> Seq<char>
    decreases parts.len(),
{
    if parts.len() == 0 {
        seq![]
    } else if parts.len() == 1 {
        parts[0]
    } else {
        join_with(parts.drop_last(), sep) + sep + parts.last()
    }
}

/// `parts` joined with `sep` (what `[String]::join` gives).
pub fn join_text(parts: &Vec<String>, sep: &str) -> (r: String)
    ensures
        r@ == join_with(parts.deep_view(), sep@),
{
    let mut r = String::new();
    let mut i: usize = 0;
    while i < parts.len()
        invariant
            i <= parts.len(),
            r@ == join_with(parts.deep_view().take(i as int), sep@),
        decreases parts.len() - i,
    {
        let ghost prev = parts.deep_view().take(i as int);
        assert(parts.deep_view().take(i + 1).drop_last() == prev);
        if i > 0 {
            r.append(sep);
        }
        r.append(parts[i].as_str());
        i = i + 1;
    }
    assert(parts.deep_view().take(parts.len() as int) == parts.deep_view());
    r
}

// ---------------------------------------------------------------------------
// Prefixes, trimming and order
// ---------------------------------------------------------------------------

/// Whether `s` starts with `p`.
pub fn starts_with_text(s: &str, p: &str) -> (r: bool)
    ensures
        r == p@.is_prefix_of(s@),
{
    let cs = chars_of(s);
    let ps = chars_of(p);
    if ps.len() > cs.len() {
        return false;
    }
    let mut k: usize = 0;
    while k < ps.len()
        invariant
            k <= ps.len() <= cs.len(),
            cs@ == s@,
            ps@ == p@,
            forall|m: int| 0 <= m < k ==> ps@[m] == cs@[m],
        decreases ps.len() - k,
    {
        if ps[k] != cs[k] {
            return false;
        }
        k = k + 1;
    }
    true
}

/// `s` without the characters `c` at its end (`trim_end_matches`).
pub open spec fn trim_end(s: Seq<char>, c: char) -> Seq<char>
    decreases s.len(),
{
    if s.len() > 0 && s.last() == c {
        trim_end(s.drop_last(), c)
    } else {
        s
    }
}

pub proof fn lemma_trim_end_prefix(s: Seq<char>, c: char, k: int)
    requires
        0 <= k <= s.len(),
        forall|m: int| k <= m < s.len() ==> s[m] == c,
    ensures
        trim_end(s, c) == trim_end(s.take(k), c),
    decreases s.len() - k,
{
    if k < s.len() {
        assert(s.drop_last().take(k) == s.take(k));
        lemma_trim_end_prefix(s.drop_last(), c, k);
    } else {
        assert(s.take(k) == s);
    }
}

/// Law: trimming leaves no trailing `c`, and trimming again changes nothing.
pub proof fn lemma_trim_end_idempotent(s: Seq<char>, c: char)
    ensures
        trim_end(s, c).len() > 0 ==> trim_end(s, c).last() != c,
        trim_end(trim_end(s, c), c) == trim_end(s, c),
        trim_end(s, c).is_prefix_of(s),
    decreases s.len(),
{
    if s.len() > 0 && s.last() == c {
        lemma_trim_end_idempotent(s.drop_last(), c);
        assert(trim_end(s, c).is_prefix_of(s)) by {
            let t = trim_end(s, c);
            assert forall|i: int| 0 <= i < t.len() implies t[i] == s[i] by {
                assert(t[i] == s.drop_last()[i]);
            }
            assert(t =~= s.subrange(0, t.len() as int));
        }
    } else {
        assert(s =~= s.subrange(0, s.len() as int));
    }
}

/// A non-empty run of non-whitespace characters.
pub open spec fn is_word(w: Seq<char>) -> bool {
    w.len() > 0 && forall|m: int| 0 <= m < w.len() ==> !is_white(#[trigger] w[m])
}

/// Law: every word is non-empty and holds no whitespace.
pub proof fn lemma_words_are_words(s: Seq<char>, i: int)
    requires
        0 <= i,
    ensures
        forall|k: int| 0 <= k < words_from(s, i).len() ==> is_word(#[trigger] words_from(s, i)[k]),
    decreases s.len() - i,
{
    if i < s.len() {
        if is_white(s[i]) {
            lemma_words_are_words(s, i + 1);
            assert(words_from(s, i) == words_from(s, i + 1));
        } else {
            let j = word_end(s, i);
            lemma_word_end_bounds(s, i);
            lemma_words_are_words(s, j);
            let w = words_from(s, i);
            assert(w == seq![s.subrange(i, j)] + words_from(s, j));
            assert forall|k: int| 0 <= k < w.len() implies is_word(#[trigger] w[k]) by {
                if k == 0 {
                    assert(w[0] == s.subrange(i, j));
                    assert forall|m: int| 0 <= m < w[k].len() implies !is_white(#[trigger] w[k][m]) by {
                        assert(w[k][m] == s[i + m]);
                    }
                } else {
                    assert(w[k] == words_from(s, j)[k - 1]);
                }
            }
        }
    }
}

/// `s` with every trailing `c` removed.
pub fn trim_end_char(s: &str, c: char) -> (r: String)
    ensures
        r@ == trim_end(s@, c),
{
    let cs = chars_of(s);
    let mut k = cs.len();
    while k > 0 && cs[k - 1] == c
        invariant
            k <= cs.len(),
            cs@ == s@,
            forall|m: int| k <= m < cs.len() ==> cs@[m] == c,
        decreases k,
    {
        k = k - 1;
    }
    proof {
        lemma_trim_end_prefix(s@, c, k as int);
        assert(cs@.subrange(0, k as int) == s@.take(k as int));
    }
    string_of_range(&cs, 0, k)
}

/// `a` comes no later than `b` in lexicographic order of code points (the
/// order of `str`'s `Ord`, since UTF-8 keeps the order of code points).
pub open spec fn lex_le(a: Seq<char>, b: Seq<char>) -> bool {
    ||| a.is_prefix_of(b)
    ||| exists|k: int|
        0 <= k < a.len() && k < b.len() && a.take(k) == b.take(k) && (a[k] as u32) < (
        b[k] as u32)
}

/// Whether `a` comes no later than `b` in lexicographic order.
pub fn lex_le_text(a: &Vec<char>, b: &Vec<char>) -> (r: bool)
    ensures
        r == lex_le(a@, b@),
{
    let mut k: usize = 0;
    while k < a.len() && k < b.len() && a[k] == b[k]
        invariant
            k <= a.len(),
            k <= b.len(),
            a@.take(k as int) == b@.take(k as int),
        decreases a.len() - k,
    {
        assert(a@.take(k + 1) == a@.take(k as int).push(a@[k as int]));
        assert(b@.take(k + 1) == b@.take(k as int).push(b@[k as int]));
        k = k + 1;
    }
    if k == a.len() {
        assert(a@.is_prefix_of(b@)) by {
            assert forall|m: int| 0 <= m < a@.len() implies a@[m] == b@[m] by {
                assert(a@.take(k as int)[m] == b@.take(k as int)[m]);
            }
        }
        true
    } else if k == b.len() {
        proof {
            if a@.is_prefix_of(b@) {
                assert(false);
            }
            assert forall|j: int|
                0 <= j < a@.len() && j < b@.len() && a@.take(j) == b@.take(j) implies !((a@[j] as u32)
                < (b@[j] as u32)) by {
                assert(j < k);
                assert(a@.take(k as int)[j] == b@.take(k as int)[j]);
            }
        }
        false
    } else {
        let ca = a[k];
        let cb = b[k];
        proof {
            assert(!a@.is_prefix_of(b@)) by {
                assert(a@[k as int] != b@[k as int]);
            }
            assert forall|j: int|
                0 <= j < a@.len() && j < b@.len() && a@.take(j) == b@.take(j) && j != k implies !((
                a@[j] as u32) < (b@[j] as u32)) by {
                if j < k {
                    assert(a@.take(k as int)[j] == b@.take(k as int)[j]);
                } else {
                    assert(a@.take(j)[k as int] == b@.take(j)[k as int]);
                }
            }
        }
        (ca as u32) < (cb as u32)
    }
}

} // verus!
