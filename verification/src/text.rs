//! Lexical ground floor: substring containment and search, maximal character
//! runs, lexicographic order on character sequences, comma-joining and
//! first-occurrence deduplication. Everything the tag extractor and the
//! marker filter scan with is built from these.

use vstd::prelude::*;
use vstd::relations::total_ordering;

verus! {

/// A character is an ASCII decimal digit.
pub open spec fn is_digit(c: char) -> bool {
    '0' <= c && c <= '9'
}

/// A character is an ASCII letter.
pub open spec fn is_letter(c: char) -> bool {
    ('a' <= c && c <= 'z') || ('A' <= c && c <= 'Z')
}

/// A word character: letter, digit or underscore.
pub open spec fn is_word(c: char) -> bool {
    is_letter(c) || is_digit(c) || c == '_'
}

/// The needle `n` occurs in `h` starting at position `i`.
pub open spec fn sub_at(h: Seq<char>, n: Seq<char>, i: int) -> bool {
    0 <= i && i + n.len() <= h.len() && h.subrange(i, i + n.len()) == n
}

/// The needle `n` occurs somewhere in `h`.
pub open spec fn has_sub(h: Seq<char>, n: Seq<char>) -> bool {
    exists|i: int| sub_at(h, n, i)
}

/// Position of the first occurrence of `n` in `h` at or after `i`.
pub open spec fn find_from(h: Seq<char>, n: Seq<char>, i: int) -> Option<int>
    decreases h.len() - i + 1,
{
    if i < 0 || i + n.len() > h.len() {
        None
    } else if h.subrange(i, i + n.len()) == n {
        Some(i)
    } else {
        find_from(h, n, i + 1)
    }
}

/// `find_from` returns the first match position, and `None` only when no
/// position at or after `i` matches.
pub proof fn lemma_find_from(h: Seq<char>, n: Seq<char>, i: int)
    requires
        0 <= i,
    ensures
        match find_from(h, n, i) {
            Some(j) => i <= j && sub_at(h, n, j) && forall|k: int|
                i <= k < j ==> !sub_at(h, n, k),
            None => forall|k: int| i <= k ==> !sub_at(h, n, k),
        },
    decreases h.len() - i + 1,
{
    if i + n.len() > h.len() {
        assert forall|k: int| i <= k implies !sub_at(h, n, k) by {}
    } else if h.subrange(i, i + n.len()) == n {
    } else {
        lemma_find_from(h, n, i + 1);
    }
}

/// Exec test: does `n` occur in `h` at position `i`?
fn sub_at_exec(h: &str, n: &str, i: usize) -> (r: bool)
    requires
        i + n@.len() <= h@.len(),
    ensures
        r == sub_at(h@, n@, i as int),
{
    let hlen = h.unicode_len();
    let nlen = n.unicode_len();
    let mut j: usize = 0;
    while j < nlen
        invariant
            j <= nlen,
            hlen == h@.len(),
            nlen == n@.len(),
            i + nlen <= hlen,
            forall|k: int| 0 <= k < j ==> h@[i + k] == n@[k],
        decreases nlen - j,
    {
        if h.get_char(i + j) != n.get_char(j) {
            assert(h@.subrange(i as int, i + n@.len()) != n@) by {
                assert(h@.subrange(i as int, i + n@.len())[j as int] == h@[i + j]);
            }
            return false;
        }
        j += 1;
    }
    assert(h@.subrange(i as int, i + n@.len()) =~= n@);
    true
}

/// Exec search for the first occurrence of `n` in `h`.
pub fn find_sub(h: &str, n: &str) -> (r: Option<usize>)
    ensures
        match r {
            Some(j) => find_from(h@, n@, 0) == Some(j as int),
            None => find_from(h@, n@, 0) is None,
        },
{
    let hlen = h.unicode_len();
    let nlen = n.unicode_len();
    if nlen > hlen {
        return None;
    }
    if nlen == 0 {
        proof {
            assert(h@.subrange(0, 0) =~= n@);
        }
        return Some(0);
    }
    let mut i: usize = 0;
    while i <= hlen - nlen
        invariant
            hlen == h@.len(),
            nlen == n@.len(),
            1 <= nlen <= hlen,
            i <= hlen - nlen + 1,
            find_from(h@, n@, 0) == find_from(h@, n@, i as int),
        decreases hlen - nlen - i + 1,
    {
        if sub_at_exec(h, n, i) {
            return Some(i);
        }
        i += 1;
    }
    None
}

/// Exec equality of two string slices, by view.
pub fn str_eq_exec(a: &str, b: &str) -> (r: bool)
    ensures
        r == (a@ == b@),
{
    let alen = a.unicode_len();
    let blen = b.unicode_len();
    if alen != blen {
        return false;
    }
    let mut i: usize = 0;
    while i < alen
        invariant
            alen == a@.len(),
            alen == b@.len(),
            i <= alen,
            forall|k: int| 0 <= k < i ==> a@[k] == b@[k],
        decreases alen - i,
    {
        if a.get_char(i) != b.get_char(i) {
            return false;
        }
        i += 1;
    }
    proof {
        assert(a@ =~= b@);
    }
    true
}

/// Exec test, valid at any position: does `n` occur in `h` at position `i`?
pub fn sub_at_checked(h: &str, n: &str, i: usize) -> (r: bool)
    ensures
        r == sub_at(h@, n@, i as int),
{
    let hlen = h.unicode_len();
    let nlen = n.unicode_len();
    if i > hlen || nlen > hlen - i {
        return false;
    }
    sub_at_exec(h, n, i)
}

/// Exec test: does `n` occur anywhere in `h`?
pub fn contains_sub(h: &str, n: &str) -> (r: bool)
    ensures
        r == has_sub(h@, n@),
{
    let r = find_sub(h, n);
    proof {
        lemma_find_from(h@, n@, 0);
    }
    match r {
        Some(_) => true,
        None => false,
    }
}

/// End of the maximal run of characters satisfying `cls` that starts at `i`.
pub open spec fn run_end(h: Seq<char>, i: int, cls: spec_fn(char) -> bool) -> int
    decreases h.len() - i,
{
    if i < 0 || i >= h.len() {
        i
    } else if cls(h[i]) {
        run_end(h, i + 1, cls)
    } else {
        i
    }
}

/// Shape of `run_end`: it moves right over exactly the characters in `cls`.
pub proof fn lemma_run_end(h: Seq<char>, i: int, cls: spec_fn(char) -> bool)
    requires
        0 <= i <= h.len(),
    ensures
        i <= run_end(h, i, cls) <= h.len(),
        forall|k: int| i <= k < run_end(h, i, cls) ==> cls(h[k]),
        run_end(h, i, cls) < h.len() ==> !cls(h[run_end(h, i, cls)]),
    decreases h.len() - i,
{
    if i < h.len() && cls(h[i]) {
        lemma_run_end(h, i + 1, cls);
    }
}

/// Exec class test for letters.
pub fn letter_exec(c: char) -> (r: bool)
    ensures
        r == is_letter(c),
{
    ('a' <= c && c <= 'z') || ('A' <= c && c <= 'Z')
}

/// Exec class test for word characters.
pub fn word_exec(c: char) -> (r: bool)
    ensures
        r == is_word(c),
{
    ('a' <= c && c <= 'z') || ('A' <= c && c <= 'Z') || ('0' <= c && c <= '9')
        || c == '_'
}

/// The letter class as a first-class predicate.
pub open spec fn letter_cls() -> spec_fn(char) -> bool {
    |c: char| is_letter(c)
}

/// The word class as a first-class predicate.
pub open spec fn word_cls() -> spec_fn(char) -> bool {
    |c: char| is_word(c)
}

/// Exec scan for the end of the maximal run of letters starting at `i`.
pub fn run_end_letters(s: &str, i: usize) -> (r: usize)
    requires
        i <= s@.len(),
    ensures
        r == run_end(s@, i as int, letter_cls()),
{
    let slen = s.unicode_len();
    let mut j: usize = i;
    loop
        invariant
            i <= j <= slen,
            slen == s@.len(),
            run_end(s@, i as int, letter_cls()) == run_end(s@, j as int, letter_cls()),
        decreases slen - j,
    {
        if j >= slen {
            return j;
        }
        if !letter_exec(s.get_char(j)) {
            return j;
        }
        j += 1;
    }
}

/// Exec scan for the end of the maximal run of word characters starting at `i`.
pub fn run_end_word(s: &str, i: usize) -> (r: usize)
    requires
        i <= s@.len(),
    ensures
        r == run_end(s@, i as int, word_cls()),
{
    let slen = s.unicode_len();
    let mut j: usize = i;
    loop
        invariant
            i <= j <= slen,
            slen == s@.len(),
            run_end(s@, i as int, word_cls()) == run_end(s@, j as int, word_cls()),
        decreases slen - j,
    {
        if j >= slen {
            return j;
        }
        if !word_exec(s.get_char(j)) {
            return j;
        }
        j += 1;
    }
}

/// Lexicographic order on character sequences, by code point. This is the
/// order `String`'s own comparison uses, since UTF-8 byte order agrees with
/// code-point order.
pub open spec fn str_le(a: Seq<char>, b: Seq<char>) -> bool
    decreases a.len(),
{
    if a.len() == 0 {
        true
    } else if b.len() == 0 {
        false
    } else if a[0] < b[0] {
        true
    } else if b[0] < a[0] {
        false
    } else {
        str_le(a.drop_first(), b.drop_first())
    }
}

/// `str_le` as a first-class relation, for sorting.
pub open spec fn str_leq() -> spec_fn(Seq<char>, Seq<char>) -> bool {
    |a: Seq<char>, b: Seq<char>| str_le(a, b)
}

proof fn lemma_str_le_refl(a: Seq<char>)
    ensures
        str_le(a, a),
    decreases a.len(),
{
    if a.len() > 0 {
        lemma_str_le_refl(a.drop_first());
    }
}

proof fn lemma_str_le_antisym(a: Seq<char>, b: Seq<char>)
    requires
        str_le(a, b),
        str_le(b, a),
    ensures
        a == b,
    decreases a.len(),
{
    if a.len() == 0 {
        assert(b.len() == 0);
        assert(a =~= b);
    } else {
        assert(b.len() > 0);
        if a[0] < b[0] {
            assert(!str_le(b, a));
            assert(false);
        }
        if b[0] < a[0] {
            assert(!str_le(a, b));
            assert(false);
        }
        assert(a[0] == b[0]);
        lemma_str_le_antisym(a.drop_first(), b.drop_first());
        assert(a.drop_first().len() == a.len() - 1);
        assert(b.drop_first().len() == b.len() - 1);
        assert(a.len() == b.len());
        assert forall|i: int| 0 <= i < a.len() implies a[i] == b[i] by {
            if i > 0 {
                assert(a[i] == a.drop_first()[i - 1]);
                assert(b[i] == b.drop_first()[i - 1]);
            }
        }
        assert(a =~= b);
    }
}

proof fn lemma_str_le_trans(a: Seq<char>, b: Seq<char>, c: Seq<char>)
    requires
        str_le(a, b),
        str_le(b, c),
    ensures
        str_le(a, c),
    decreases a.len(),
{
    if a.len() > 0 && b.len() > 0 && c.len() > 0 {
        if a[0] == b[0] && b[0] == c[0] {
            lemma_str_le_trans(a.drop_first(), b.drop_first(), c.drop_first());
        }
    }
}

proof fn lemma_str_le_connected(a: Seq<char>, b: Seq<char>)
    ensures
        str_le(a, b) || str_le(b, a),
    decreases a.len(),
{
    if a.len() > 0 && b.len() > 0 && a[0] == b[0] {
        lemma_str_le_connected(a.drop_first(), b.drop_first());
    }
}

/// `str_le` is a total order, so sorting by it is canonical: any two
/// multiset-equal sorted sequences are equal.
pub proof fn lemma_str_leq_total_ordering()
    ensures
        total_ordering(str_leq()),
{
    let leq = str_leq();
    assert forall|a: Seq<char>| #[trigger] leq(a, a) by {
        lemma_str_le_refl(a);
    }
    assert forall|a: Seq<char>, b: Seq<char>| #[trigger] leq(a, b) && #[trigger]
        leq(b, a) implies a == b by {
        lemma_str_le_antisym(a, b);
    }
    assert forall|a: Seq<char>, b: Seq<char>, c: Seq<char>|
        #[trigger] leq(a, b) && #[trigger] leq(b, c) implies leq(a, c) by {
        lemma_str_le_trans(a, b, c);
    }
    assert forall|a: Seq<char>, b: Seq<char>| #[trigger] leq(a, b) || #[trigger]
        leq(b, a) by {
        lemma_str_le_connected(a, b);
    }
}

/// Exec lexicographic comparison of two strings.
pub fn str_le_exec(a: &str, b: &str) -> (r: bool)
    ensures
        r == str_le(a@, b@),
{
    let alen = a.unicode_len();
    let blen = b.unicode_len();
    proof {
        assert(a@.skip(0) =~= a@);
        assert(b@.skip(0) =~= b@);
    }
    let mut i: usize = 0;
    loop
        invariant
            alen == a@.len(),
            blen == b@.len(),
            i <= alen,
            i <= blen,
            str_le(a@, b@) == str_le(a@.skip(i as int), b@.skip(i as int)),
        decreases alen - i,
    {
        if i >= alen {
            assert(a@.skip(i as int).len() == 0);
            return true;
        }
        if i >= blen {
            assert(b@.skip(i as int).len() == 0);
            assert(a@.skip(i as int).len() > 0);
            return false;
        }
        let ca = a.get_char(i);
        let cb = b.get_char(i);
        if ca < cb {
            return true;
        }
        if cb < ca {
            return false;
        }
        proof {
            assert(a@.skip(i as int).drop_first() =~= a@.skip(i + 1));
            assert(b@.skip(i as int).drop_first() =~= b@.skip(i + 1));
        }
        i += 1;
    }
}

/// The sequences joined in order with a single comma between neighbours.
pub open spec fn join_comma(s: Seq<Seq<char>>) -> Seq<char>
    decreases s.len(),
{
    if s.len() == 0 {
        Seq::empty()
    } else if s.len() == 1 {
        s[0]
    } else {
        join_comma(s.drop_last()) + seq![','] + s.last()
    }
}

/// Exec comma-join of a vector of strings.
pub fn join_comma_exec(v: &Vec<String>) -> (r: String)
    ensures
        r@ == join_comma(v.deep_view()),
{
    let mut out = String::new();
    let mut i: usize = 0;
    while i < v.len()
        invariant
            i <= v@.len(),
            out@ == join_comma(v.deep_view().take(i as int)),
        decreases v@.len() - i,
    {
        if i > 0 {
            out.append(",");
            proof {
                reveal_strlit(",");
                assert(","@ =~= seq![',']);
            }
        }
        out.append(v[i].as_str());
        proof {
            let dv = v.deep_view();
            assert(dv.take(i + 1).drop_last() =~= dv.take(i as int));
            assert(dv.take(i + 1).last() == dv[i as int]);
        }
        i += 1;
    }
    proof {
        assert(v.deep_view().take(v@.len() as int) =~= v.deep_view());
    }
    out
}

/// The subsequence keeping only the first occurrence of each element.
pub open spec fn dedup_first(s: Seq<Seq<char>>) -> Seq<Seq<char>>
    decreases s.len(),
{
    if s.len() == 0 {
        Seq::empty()
    } else {
        let d = dedup_first(s.drop_last());
        if s.drop_last().contains(s.last()) {
            d
        } else {
            d.push(s.last())
        }
    }
}

/// Deduplication keeps exactly the elements of the input.
pub proof fn lemma_dedup_first_contains(s: Seq<Seq<char>>, x: Seq<char>)
    ensures
        dedup_first(s).contains(x) <==> s.contains(x),
    decreases s.len(),
{
    if s.len() > 0 {
        let s0 = s.drop_last();
        let d0 = dedup_first(s0);
        lemma_dedup_first_contains(s0, x);
        assert(s.contains(x) <==> (s0.contains(x) || s.last() == x)) by {
            if s.contains(x) {
                let i = choose|i: int| 0 <= i < s.len() && s[i] == x;
                if i < s.len() - 1 {
                    assert(s0[i] == x);
                }
            }
            if s0.contains(x) {
                let i = choose|i: int| 0 <= i < s0.len() && s0[i] == x;
                assert(s[i] == x);
            }
            if s.last() == x {
                assert(s[s.len() - 1] == x);
            }
        }
        if !s0.contains(s.last()) {
            assert(dedup_first(s) == d0.push(s.last()));
            assert(d0.push(s.last()).contains(x) <==> (d0.contains(x) || s.last()
                == x)) by {
                if d0.contains(x) {
                    let i = choose|i: int| 0 <= i < d0.len() && d0[i] == x;
                    assert(d0.push(s.last())[i] == x);
                }
                assert(d0.push(s.last())[d0.len() as int] == s.last());
                if d0.push(s.last()).contains(x) {
                    let i = choose|i: int| 0 <= i < d0.push(s.last()).len()
                        && d0.push(s.last())[i] == x;
                    if i < d0.len() {
                        assert(d0[i] == x);
                    }
                }
            }
        }
    }
}

/// Exec membership test over the deep view of a vector of strings.
pub fn vec_contains_string(v: &Vec<String>, x: &String) -> (r: bool)
    ensures
        r == v.deep_view().contains(x@),
{
    let mut i: usize = 0;
    while i < v.len()
        invariant
            i <= v@.len(),
            forall|k: int| 0 <= k < i ==> v.deep_view()[k] != x@,
        decreases v@.len() - i,
    {
        if v[i].eq(x) {
            assert(v.deep_view()[i as int] == x@);
            return true;
        }
        i += 1;
    }
    assert(forall|k: int| 0 <= k < v.deep_view().len() ==> v.deep_view()[k] != x@);
    false
}

} // verus!
