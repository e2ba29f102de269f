//! Reshapes declared package names towards the names they are imported by.
use vstd::prelude::*;

verus! {

/// The prefix that many Python distributions carry but their modules do not.
pub open spec fn python_prefix() -> Seq<char> {
    seq!['p', 'y', 't', 'h', 'o', 'n', '-']
}

/// Drops a leading `python-`, if there is one.
pub open spec fn strip_python_prefix(s: Seq<char>) -> Seq<char> {
    if s.len() >= 7 && s.subrange(0, 7) == python_prefix() {
        s.subrange(7, s.len() as int)
    } else {
        s
    }
}

/// Every `-` becomes `_`.
pub open spec fn hyphens_to_underscores(s: Seq<char>) -> Seq<char> {
    s.map_values(|c: char| if c == '-' { '_' } else { c })
}

/// The normalized name: first the prefix is stripped, then hyphens are replaced.
pub open spec fn normalize(s: Seq<char>) -> Seq<char> {
    hyphens_to_underscores(strip_python_prefix(s))
}

/// Normalizing twice gives what normalizing once gives.
pub proof fn lemma_normalize_idempotent(s: Seq<char>)
    ensures
        normalize(normalize(s)) == normalize(s),
{
    let n = normalize(s);
    assert(forall|i: int| 0 <= i < n.len() ==> n[i] != '-');
    if n.len() >= 7 && n.subrange(0, 7) == python_prefix() {
        assert(n.subrange(0, 7)[6] == '-');
        assert(n[6] == '-');
    }
    assert(strip_python_prefix(n) == n);
    assert(hyphens_to_underscores(n) =~= n);
}

/// Normalizes a declared package name: a leading `python-` is stripped, then
/// every hyphen is replaced by an underscore.
pub fn reformat_package_name(package: &str) -> (r: String)
    ensures
        r@ == normalize(package@),
{
    let n = package.unicode_len();
    let mut start: usize = 0;
    if n >= 7 && package.get_char(0) == 'p' && package.get_char(1) == 'y' && package.get_char(2)
        == 't' && package.get_char(3) == 'h' && package.get_char(4) == 'o' && package.get_char(5)
        == 'n' && package.get_char(6) == '-' {
        assert(package@.subrange(0, 7) =~= python_prefix());
        start = 7;
    } else {
        assert(n >= 7 ==> package@.subrange(0, 7) != python_prefix()) by {
            if n >= 7 && package@.subrange(0, 7) == python_prefix() {
                assert(package@[0] == package@.subrange(0, 7)[0]);
                assert(package@[1] == package@.subrange(0, 7)[1]);
                assert(package@[2] == package@.subrange(0, 7)[2]);
                assert(package@[3] == package@.subrange(0, 7)[3]);
                assert(package@[4] == package@.subrange(0, 7)[4]);
                assert(package@[5] == package@.subrange(0, 7)[5]);
                assert(package@[6] == package@.subrange(0, 7)[6]);
            }
        }
    }
    let ghost stripped = package@.subrange(start as int, n as int);
    assert(stripped == strip_python_prefix(package@));
    let mut out = String::new();
    let mut i: usize = start;
    proof {
        reveal_strlit("_");
    }
    while i < n
        invariant
            n == package@.len(),
            start <= i <= n,
            stripped == package@.subrange(start as int, n as int),
            out@ == hyphens_to_underscores(stripped.subrange(0, i - start)),
            "_"@ == seq!['_'],
        decreases n - i,
    {
        let c = package.get_char(i);
        let ghost before = stripped.subrange(0, i - start);
        assert(stripped.subrange(0, i - start + 1) == before.push(c));
        if c == '-' {
            out.append("_");
        } else {
            let piece = package.substring_char(i, i + 1);
            assert(piece@ =~= seq![c]);
            out.append(piece);
        }
        assert(hyphens_to_underscores(before.push(c)) =~= hyphens_to_underscores(before).push(
            if c == '-' { '_' } else { c },
        ));
        i = i + 1;
    }
    assert(stripped.subrange(0, n - start) == stripped);
    out
}

} // verus!
