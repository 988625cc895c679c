//! Small verified helpers over strings and name lists that the codec, the
//! registry and the dependency editor share.

use vstd::prelude::*;

verus! {

/// Relies on `String::push`: appends exactly the one given character.
#[verifier::external_body]
pub fn push_char(s: &mut String, c: char)
    ensures
        final(s)@ == old(s)@.push(c),
{
    s.push(c)
}

/// The characters of `s`, one vector element per character.
pub fn chars_of(s: &str) -> (r: Vec<char>)
    ensures
        r@ == s@,
{
    let n = s.unicode_len();
    let mut r: Vec<char> = Vec::new();
    let mut i: usize = 0;
    while i < n
        invariant
            n == s@.len(),
            i <= n,
            r@ == s@.subrange(0, i as int),
        decreases n - i,
    {
        r.push(s.get_char(i));
        assert(r@ =~= s@.subrange(0, i + 1 as int));
        i += 1;
    }
    assert(r@ =~= s@);
    r
}

/// Character-for-character string equality.
pub fn str_eq(a: &str, b: &str) -> (r: bool)
    ensures
        r == (a@ == b@),
{
    let na = a.unicode_len();
    let nb = b.unicode_len();
    if na != nb {
        return false;
    }
    let mut i: usize = 0;
    while i < na
        invariant
            na == a@.len(),
            na == b@.len(),
            i <= na,
            forall|k: int| 0 <= k < i ==> a@[k] == b@[k],
        decreases na - i,
    {
        if a.get_char(i) != b.get_char(i) {
            return false;
        }
        i += 1;
    }
    assert(a@ =~= b@);
    true
}

/// The position of the first occurrence of `t` in `s`, or -1 if absent.
pub open spec fn first_index_of(s: Seq<Seq<char>>, t: Seq<char>) -> int
    decreases s.len(),
{
    if s.len() == 0 {
        -1
    } else if s[0] == t {
        0
    } else {
        let rest = first_index_of(s.drop_first(), t);
        if rest == -1 {
            -1
        } else {
            rest + 1
        }
    }
}

/// `first_index_of` finds `t` exactly when `s` contains it, and finds its
/// earliest position.
pub proof fn lemma_first_index_of(s: Seq<Seq<char>>, t: Seq<char>)
    ensures
        s.contains(t) <==> 0 <= first_index_of(s, t) < s.len(),
        s.contains(t) ==> s[first_index_of(s, t)] == t,
        forall|k: int| 0 <= k < first_index_of(s, t) ==> s[k] != t,
        !s.contains(t) ==> first_index_of(s, t) == -1,
    decreases s.len(),
{
    if s.len() > 0 {
        if s[0] == t {
            assert(s.contains(t));
        } else {
            lemma_first_index_of(s.drop_first(), t);
            assert forall|k: int| 0 <= k < s.len() && s[k] == t implies k >= 1 by {}
            if s.drop_first().contains(t) {
                let j = choose|j: int| 0 <= j < s.drop_first().len() && s.drop_first()[j] == t;
                assert(s[j + 1] == t);
                assert(s.contains(t));
            } else if s.contains(t) {
                let j = choose|j: int| 0 <= j < s.len() && s[j] == t;
                assert(s.drop_first()[j - 1] == t);
            }
            let fi = first_index_of(s, t);
            assert forall|k: int| 0 <= k < fi implies s[k] != t by {
                if k >= 1 {
                    assert(s.drop_first()[k - 1] == s[k]);
                }
            }
        }
    }
}

/// `s` with its first occurrence of `t` removed (unchanged if `t` is absent).
pub open spec fn remove_first(s: Seq<Seq<char>>, t: Seq<char>) -> Seq<Seq<char>> {
    if s.contains(t) {
        s.remove(first_index_of(s, t))
    } else {
        s
    }
}

/// Appending a name that a list lacks and then removing its first occurrence
/// gives the list back.
pub proof fn lemma_remove_first_push(s: Seq<Seq<char>>, t: Seq<char>)
    requires
        !s.contains(t),
    ensures
        s.push(t).contains(t),
        remove_first(s.push(t), t) == s,
{
    let s2 = s.push(t);
    assert(s2[s.len() as int] == t);
    lemma_first_index_of(s2, t);
    let fi = first_index_of(s2, t);
    assert forall|k: int| 0 <= k < s.len() implies s2[k] != t by {
        assert(s2[k] == s[k]);
    }
    assert(fi == s.len());
    assert(s2.remove(fi) =~= s);
}

/// Whether the name list `v` holds `name`.
pub fn contains_name(v: &Vec<String>, name: &str) -> (r: bool)
    ensures
        r == v.deep_view().contains(name@),
{
    let n = v.len();
    let mut i: usize = 0;
    while i < n
        invariant
            n == v@.len(),
            i <= n,
            forall|k: int| 0 <= k < i ==> v.deep_view()[k] != name@,
        decreases n - i,
    {
        if str_eq(v[i].as_str(), name) {
            assert(v.deep_view()[i as int] == name@);
            return true;
        }
        i += 1;
    }
    false
}

/// The position of the first occurrence of `name` in `v`, if any.
pub fn position_of_name(v: &Vec<String>, name: &str) -> (r: Option<usize>)
    ensures
        match r {
            Some(i) => i < v@.len() && i == first_index_of(v.deep_view(), name@),
            None => !v.deep_view().contains(name@),
        },
{
    proof {
        lemma_first_index_of(v.deep_view(), name@);
    }
    let n = v.len();
    let mut i: usize = 0;
    while i < n
        invariant
            n == v@.len(),
            i <= n,
            forall|k: int| 0 <= k < i ==> v.deep_view()[k] != name@,
            first_index_of(v.deep_view(), name@) == -1 || first_index_of(v.deep_view(), name@)
                >= i,
        decreases n - i,
    {
        if str_eq(v[i].as_str(), name) {
            assert(v.deep_view()[i as int] == name@);
            proof {
                lemma_first_index_of(v.deep_view(), name@);
            }
            return Some(i);
        }
        assert(v.deep_view()[i as int] == v@[i as int]@);
        proof {
            lemma_first_index_of(v.deep_view(), name@);
        }
        i += 1;
    }
    None
}

} // verus!
