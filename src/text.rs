//! Character-level operations on names and requirement strings.
use vstd::prelude::*;

verus! {

/// Names as character sequences.
pub open spec fn names_of(v: Seq<String>) -> Seq<Seq<char>> {
    v.map_values(|s: String| s@)
}

/// The set of names held by a vector of strings.
pub open spec fn name_set(v: Seq<String>) -> Set<Seq<char>> {
    names_of(v).to_set()
}

/// A vector of strings that holds each name at most once.
pub open spec fn distinct_names(v: Seq<String>) -> bool {
    names_of(v).no_duplicates()
}

/// Pushing a name that is not yet held keeps the names distinct and adds it.
pub proof fn lemma_push_name(v: Seq<String>, s: String)
    requires
        distinct_names(v),
        !names_of(v).contains(s@),
    ensures
        names_of(v.push(s)) == names_of(v).push(s@),
        distinct_names(v.push(s)),
        forall|t: Seq<char>| #[trigger]
            names_of(v.push(s)).contains(t) <==> names_of(v).contains(t) || t == s@,
{
    assert(names_of(v.push(s)) =~= names_of(v).push(s@));
    let w = names_of(v.push(s));
    assert forall|t: Seq<char>| #[trigger] w.contains(t) implies names_of(v).contains(t) || t == s@ by {
        let k = choose|k: int| 0 <= k < w.len() && w[k] == t;
        if k < v.len() {
            assert(names_of(v)[k] == t);
        }
    }
    assert forall|t: Seq<char>| names_of(v).contains(t) implies #[trigger] w.contains(t) by {
        let k = choose|k: int| 0 <= k < names_of(v).len() && names_of(v)[k] == t;
        assert(w[k] == t);
    }
    assert(w[v.len() as int] == s@);
}

/// Adds every name of `more` that is not there yet.
pub fn merge_names(into: &mut Vec<String>, more: &Vec<String>)
    requires
        distinct_names(old(into)@),
    ensures
        distinct_names(final(into)@),
        name_set(final(into)@) == name_set(old(into)@).union(name_set(more@)),
{
    let mut k: usize = 0;
    while k < more.len()
        invariant
            k <= more@.len(),
            distinct_names(into@),
            forall|s: Seq<char>|
                #[trigger] name_set(into@).contains(s) <==> name_set(old(into)@).contains(s) || exists|
                    j: int,
                | 0 <= j < k && more@[j]@ == s,
        decreases more@.len() - k,
    {
        let ghost before = into@;
        if !contains_name(into, more[k].as_str()) {
            proof {
                lemma_push_name(before, more@[k as int]);
            }
            into.push(more[k].clone());
        }
        assert(names_of(into@).contains(more@[k as int]@));
        assert(forall|s: Seq<char>| names_of(before).contains(s) ==> names_of(into@).contains(s));
        assert(forall|s: Seq<char>|
            names_of(into@).contains(s) ==> names_of(before).contains(s) || s == more@[k as int]@);
        assert forall|s: Seq<char>|
            #[trigger] name_set(into@).contains(s) <==> name_set(old(into)@).contains(s) || exists|
                j: int,
            | 0 <= j < k + 1 && more@[j]@ == s by {
            assert(name_set(before).contains(s) == names_of(before).contains(s));
            assert(name_set(into@).contains(s) == names_of(into@).contains(s));
            if exists|j: int| 0 <= j < k + 1 && more@[j]@ == s {
                let j = choose|j: int| 0 <= j < k + 1 && more@[j]@ == s;
                if j == k {
                    assert(names_of(into@).contains(s) || names_of(before).contains(s));
                }
            }
            if name_set(into@).contains(s) && !name_set(before).contains(s) {
                assert(more@[k as int]@ == s);
            }
        }
        k = k + 1;
    }
    assert forall|s: Seq<char>|
        #[trigger] name_set(into@).contains(s) <==> name_set(old(into)@).union(
            name_set(more@),
        ).contains(s) by {
        if name_set(more@).contains(s) {
            let j = choose|j: int| 0 <= j < names_of(more@).len() && names_of(more@)[j] == s;
        }
        if exists|j: int| 0 <= j < k && more@[j]@ == s {
            let j = choose|j: int| 0 <= j < k && more@[j]@ == s;
            assert(names_of(more@)[j] == s);
        }
    }
    assert(name_set(into@) =~= name_set(old(into)@).union(name_set(more@)));
}

/// `needle` occurs in `hay` starting at index `i`.
pub open spec fn occurs_at(hay: Seq<char>, needle: Seq<char>, i: int) -> bool {
    0 <= i && i + needle.len() <= hay.len() && hay.subrange(i, i + needle.len()) == needle
}

/// `needle` occurs somewhere in `hay` (the empty sequence occurs everywhere).
pub open spec fn is_substring(needle: Seq<char>, hay: Seq<char>) -> bool {
    exists|i: int| occurs_at(hay, needle, i)
}

/// Exact character equality of two strings.
pub fn str_eq(a: &str, b: &str) -> (r: bool)
    ensures
        r == (a@ == b@),
{
    let n = a.unicode_len();
    if n != b.unicode_len() {
        return false;
    }
    let mut i: usize = 0;
    while i < n
        invariant
            n == a@.len(),
            n == b@.len(),
            i <= n,
            a@.subrange(0, i as int) == b@.subrange(0, i as int),
        decreases n - i,
    {
        if a.get_char(i) != b.get_char(i) {
            assert(a@[i as int] != b@[i as int]);
            return false;
        }
        assert(a@.subrange(0, i + 1) == a@.subrange(0, i as int).push(a@[i as int]));
        assert(b@.subrange(0, i + 1) == b@.subrange(0, i as int).push(b@[i as int]));
        i = i + 1;
    }
    assert(a@ == a@.subrange(0, n as int));
    assert(b@ == b@.subrange(0, n as int));
    true
}

/// Whether `needle` occurs in `hay` at character index `i`.
fn matches_at(hay: &str, needle: &str, i: usize) -> (r: bool)
    requires
        i + needle@.len() <= hay@.len(),
    ensures
        r == occurs_at(hay@, needle@, i as int),
{
    let m = needle.unicode_len();
    let n = hay.unicode_len();
    let mut k: usize = 0;
    while k < m
        invariant
            m == needle@.len(),
            n == hay@.len(),
            i + m <= hay@.len(),
            k <= m,
            hay@.subrange(i as int, i + k) == needle@.subrange(0, k as int),
        decreases m - k,
    {
        if hay.get_char(i + k) != needle.get_char(k) {
            assert(hay@.subrange(i as int, i + m)[k as int] != needle@[k as int]);
            return false;
        }
        assert(hay@.subrange(i as int, i + k + 1) == hay@.subrange(i as int, i + k).push(
            hay@[i + k],
        ));
        assert(needle@.subrange(0, k + 1) == needle@.subrange(0, k as int).push(needle@[k as int]));
        k = k + 1;
    }
    assert(needle@ == needle@.subrange(0, m as int));
    true
}

/// Whether `needle` occurs anywhere in `hay`.
pub fn contains_str(hay: &str, needle: &str) -> (r: bool)
    ensures
        r == is_substring(needle@, hay@),
{
    let n = hay.unicode_len();
    let m = needle.unicode_len();
    if m > n {
        assert forall|i: int| !occurs_at(hay@, needle@, i) by {}
        return false;
    }
    let mut i: usize = 0;
    loop
        invariant
            n == hay@.len(),
            m == needle@.len(),
            m <= n,
            i <= n - m,
            forall|j: int| 0 <= j < i ==> !occurs_at(hay@, needle@, j),
        decreases n - m - i,
    {
        if matches_at(hay, needle, i) {
            return true;
        }
        if i == n - m {
            assert forall|j: int| !occurs_at(hay@, needle@, j) by {
                if 0 <= j < i {
                }
            }
            return false;
        }
        i = i + 1;
    }
}

/// Whether `s` is one of `v`.
pub fn contains_name(v: &Vec<String>, s: &str) -> (r: bool)
    ensures
        r == names_of(v@).contains(s@),
{
    let mut i: usize = 0;
    while i < v.len()
        invariant
            i <= v@.len(),
            forall|j: int| 0 <= j < i ==> v@[j]@ != s@,
        decreases v@.len() - i,
    {
        if str_eq(v[i].as_str(), s) {
            assert(names_of(v@)[i as int] == s@);
            return true;
        }
        i = i + 1;
    }
    assert forall|j: int| 0 <= j < names_of(v@).len() implies names_of(v@)[j] != s@ by {}
    false
}

/// The characters with the Unicode `White_Space` property.
pub open spec fn is_white_space(c: char) -> bool {
    let u = c as u32;
    (0x9 <= u <= 0xd) || u == 0x20 || u == 0x85 || u == 0xa0 || u == 0x1680 || (0x2000 <= u
        <= 0x200a) || u == 0x2028 || u == 0x2029 || u == 0x202f || u == 0x205f || u == 0x3000
}

/// Whether `c` has the Unicode `White_Space` property.
pub fn is_white_space_char(c: char) -> (r: bool)
    ensures
        r == is_white_space(c),
{
    let u = c as u32;
    (0x9 <= u && u <= 0xd) || u == 0x20 || u == 0x85 || u == 0xa0 || u == 0x1680 || (0x2000 <= u
        && u <= 0x200a) || u == 0x2028 || u == 0x2029 || u == 0x202f || u == 0x205f || u == 0x3000
}

/// `s` without its leading white space.
pub open spec fn trim_start(s: Seq<char>) -> Seq<char>
    decreases s.len(),
{
    if s.len() > 0 && is_white_space(s[0]) {
        trim_start(s.drop_first())
    } else {
        s
    }
}

/// `s` without its trailing white space.
pub open spec fn trim_end(s: Seq<char>) -> Seq<char>
    decreases s.len(),
{
    if s.len() > 0 && is_white_space(s.last()) {
        trim_end(s.drop_last())
    } else {
        s
    }
}

/// `s` without leading and trailing white space.
pub open spec fn trim(s: Seq<char>) -> Seq<char> {
    trim_end(trim_start(s))
}

proof fn lemma_trim_start_at(s: Seq<char>, i: int)
    requires
        0 <= i <= s.len(),
        i == s.len() || !is_white_space(s[i]),
        forall|j: int| 0 <= j < i ==> is_white_space(s[j]),
    ensures
        trim_start(s) == s.subrange(i, s.len() as int),
    decreases i,
{
    if i == 0 {
        assert(s.subrange(0, s.len() as int) =~= s);
    } else {
        let t = s.drop_first();
        assert forall|j: int| 0 <= j < i - 1 implies is_white_space(t[j]) by {
            assert(t[j] == s[j + 1]);
        }
        if i < s.len() {
            assert(t[i - 1] == s[i]);
        }
        lemma_trim_start_at(t, i - 1);
        assert(t.subrange(i - 1, t.len() as int) =~= s.subrange(i, s.len() as int));
    }
}

proof fn lemma_trim_end_at(s: Seq<char>, e: int)
    requires
        0 <= e <= s.len(),
        e == 0 || !is_white_space(s[e - 1]),
        forall|j: int| e <= j < s.len() ==> is_white_space(s[j]),
    ensures
        trim_end(s) == s.subrange(0, e),
    decreases s.len() - e,
{
    if e == s.len() {
        if s.len() > 0 {
            assert(s.last() == s[e - 1]);
        }
        assert(s.subrange(0, e) =~= s);
    } else {
        let t = s.drop_last();
        assert forall|j: int| e <= j < t.len() implies is_white_space(t[j]) by {
            assert(t[j] == s[j]);
        }
        if e > 0 {
            assert(t[e - 1] == s[e - 1]);
        }
        lemma_trim_end_at(t, e);
        assert(t.subrange(0, e) =~= s.subrange(0, e));
    }
}

/// `s` without leading and trailing white space.
pub fn trim_str(s: &str) -> (r: &str)
    ensures
        r@ == trim(s@),
{
    let n = s.unicode_len();
    let mut i: usize = 0;
    while i < n
        invariant
            n == s@.len(),
            i <= n,
            forall|j: int| 0 <= j < i ==> is_white_space(s@[j]),
        ensures
            i == n || !is_white_space(s@[i as int]),
        decreases n - i,
    {
        if !is_white_space_char(s.get_char(i)) {
            break;
        }
        i = i + 1;
    }
    proof {
        lemma_trim_start_at(s@, i as int);
    }
    let ghost t = s@.subrange(i as int, n as int);
    let mut e: usize = n;
    while e > i
        invariant
            n == s@.len(),
            i <= e <= n,
            t == s@.subrange(i as int, n as int),
            forall|j: int| e - i <= j < t.len() ==> is_white_space(t[j]),
        ensures
            e == i || !is_white_space(t[e - i - 1]),
        decreases e,
    {
        if !is_white_space_char(s.get_char(e - 1)) {
            assert(t[e - i - 1] == s@[e - 1]);
            break;
        }
        assert(t[e - i - 1] == s@[e - 1]);
        e = e - 1;
    }
    proof {
        lemma_trim_end_at(t, e - i);
    }
    let r = s.substring_char(i, e);
    assert(r@ =~= t.subrange(0, e - i));
    r
}

/// The part of `s` before the first `c`; all of `s` where there is none.
pub open spec fn before_first(s: Seq<char>, c: char) -> Seq<char>
    decreases s.len(),
{
    if s.len() == 0 || s[0] == c {
        Seq::empty()
    } else {
        seq![s[0]] + before_first(s.drop_first(), c)
    }
}

/// The prefix of `s` up to a first `c` at `i` (or up to its end) is what
/// `before_first` gives.
pub proof fn lemma_before_first_at(s: Seq<char>, c: char, i: int)
    requires
        0 <= i <= s.len(),
        i == s.len() || s[i] == c,
        forall|j: int| 0 <= j < i ==> s[j] != c,
    ensures
        before_first(s, c) == s.subrange(0, i),
    decreases s.len(),
{
    if i == 0 {
        assert(s.subrange(0, 0) =~= Seq::<char>::empty());
    } else {
        let t = s.drop_first();
        assert forall|j: int| 0 <= j < i - 1 implies t[j] != c by {
            assert(t[j] == s[j + 1]);
        }
        if i < s.len() {
            assert(t[i - 1] == s[i]);
        }
        lemma_before_first_at(t, c, i - 1);
        assert(s.subrange(0, i) =~= seq![s[0]] + t.subrange(0, i - 1));
    }
}

/// The part of `s` before its first `c`.
pub fn prefix_before(s: &str, c: char) -> (r: &str)
    ensures
        r@ == before_first(s@, c),
{
    let n = s.unicode_len();
    let mut i: usize = 0;
    while i < n
        invariant
            n == s@.len(),
            i <= n,
            forall|j: int| 0 <= j < i ==> s@[j] != c,
        ensures
            i == n || s@[i as int] == c,
        decreases n - i,
    {
        if s.get_char(i) == c {
            break;
        }
        i = i + 1;
    }
    proof {
        lemma_before_first_at(s@, c, i as int);
    }
    s.substring_char(0, i)
}

} // verus!
