//! Character-level string helpers: conversion between `String` and
//! `Vec<char>`, and lexicographic comparison of strings by character value.

use vstd::prelude::*;
use vstd::string::*;

verus! {

/// Relies on `String::push`: appends the given character to the end of the
/// string.
#[verifier::external_body]
pub(crate) fn push_char(s: &mut String, c: char)
    ensures
        final(s)@ == old(s)@.push(c),
{
    s.push(c);
}

/// The characters of a string, as a vector.
pub fn str_to_chars(s: &str) -> (chars: Vec<char>)
    ensures
        chars@ == s@,
{
    let n = s.unicode_len();
    let mut chars: Vec<char> = Vec::new();
    let mut i: usize = 0;
    while i < n
        invariant
            i <= n,
            n == s@.len(),
            chars@ == s@.take(i as int),
        decreases n - i,
    {
        chars.push(s.get_char(i));
        proof {
            assert(s@.take(i + 1) =~= s@.take(i as int).push(s@[i as int]));
        }
        i = i + 1;
    }
    proof {
        assert(s@.take(n as int) =~= s@);
    }
    chars
}

/// A string holding exactly the given characters.
pub fn chars_to_string(chars: &Vec<char>) -> (s: String)
    ensures
        s@ == chars@,
{
    let mut s = String::new();
    let mut i: usize = 0;
    while i < chars.len()
        invariant
            i <= chars@.len(),
            s@ == chars@.take(i as int),
        decreases chars@.len() - i,
    {
        push_char(&mut s, chars[i]);
        proof {
            assert(chars@.take(i + 1) =~= chars@.take(i as int).push(chars@[i as int]));
        }
        i = i + 1;
    }
    proof {
        assert(chars@.take(chars@.len() as int) =~= chars@);
    }
    s
}

/// Appends all characters of `src` to `dst`.
pub fn append_chars(dst: &mut Vec<char>, src: &Vec<char>)
    ensures
        final(dst)@ == old(dst)@ + src@,
{
    let mut i: usize = 0;
    while i < src.len()
        invariant
            i <= src@.len(),
            dst@ == old(dst)@ + src@.take(i as int),
        decreases src@.len() - i,
    {
        dst.push(src[i]);
        proof {
            assert(old(dst)@ + src@.take(i + 1) =~= (old(dst)@ + src@.take(i as int)).push(
                src@[i as int],
            ));
        }
        i = i + 1;
    }
    proof {
        assert(old(dst)@ + src@.take(src@.len() as int) =~= old(dst)@ + src@);
    }
}

/// A copy of the characters of `v` between `from` and `to`.
pub fn sub_chars(v: &Vec<char>, from: usize, to: usize) -> (r: Vec<char>)
    requires
        from <= to <= v@.len(),
    ensures
        r@ == v@.subrange(from as int, to as int),
{
    let mut r: Vec<char> = Vec::new();
    let mut i: usize = from;
    while i < to
        invariant
            from <= i <= to <= v@.len(),
            r@ == v@.subrange(from as int, i as int),
        decreases to - i,
    {
        r.push(v[i]);
        proof {
            assert(v@.subrange(from as int, i + 1) =~= v@.subrange(from as int, i as int).push(
                v@[i as int],
            ));
        }
        i = i + 1;
    }
    r
}

/// Lexicographic order on character sequences, by unicode value.
pub open spec fn lex_leq(a: Seq<char>, b: Seq<char>) -> bool
    decreases a.len(),
{
    if a.len() == 0 {
        true
    } else if b.len() == 0 {
        false
    } else if (a.first() as u32) < (b.first() as u32) {
        true
    } else if (b.first() as u32) < (a.first() as u32) {
        false
    } else {
        lex_leq(a.drop_first(), b.drop_first())
    }
}

/// Lexicographic order is total: for any two sequences, one is below the other.
pub proof fn lemma_lex_total(a: Seq<char>, b: Seq<char>)
    ensures
        lex_leq(a, b) || lex_leq(b, a),
    decreases a.len(),
{
    if a.len() == 0 || b.len() == 0 {
    } else if (a.first() as u32) == (b.first() as u32) {
        lemma_lex_total(a.drop_first(), b.drop_first());
    }
}

/// Lexicographic order is transitive.
pub proof fn lemma_lex_trans(a: Seq<char>, b: Seq<char>, c: Seq<char>)
    requires
        lex_leq(a, b),
        lex_leq(b, c),
    ensures
        lex_leq(a, c),
    decreases a.len(),
{
    if a.len() == 0 || b.len() == 0 || c.len() == 0 {
    } else if (a.first() as u32) == (b.first() as u32) && (b.first() as u32) == (c.first()
        as u32) {
        lemma_lex_trans(a.drop_first(), b.drop_first(), c.drop_first());
    }
}

/// Compares two strings in lexicographic character order.
pub fn str_leq(a: &str, b: &str) -> (r: bool)
    ensures
        r == lex_leq(a@, b@),
{
    let na = a.unicode_len();
    let nb = b.unicode_len();
    let mut i: usize = 0;
    proof {
        assert(a@.skip(0) =~= a@);
        assert(b@.skip(0) =~= b@);
    }
    loop
        invariant
            i <= na,
            i <= nb,
            na == a@.len(),
            nb == b@.len(),
            lex_leq(a@, b@) == lex_leq(a@.skip(i as int), b@.skip(i as int)),
        decreases na - i,
    {
        if i >= na {
            return true;
        }
        if i >= nb {
            proof {
                assert(a@.skip(i as int).len() > 0);
                assert(b@.skip(i as int).len() == 0);
            }
            return false;
        }
        let ca = a.get_char(i);
        let cb = b.get_char(i);
        proof {
            assert(a@.skip(i as int).first() == a@[i as int]);
            assert(b@.skip(i as int).first() == b@[i as int]);
        }
        if (ca as u32) < (cb as u32) {
            return true;
        }
        if (cb as u32) < (ca as u32) {
            return false;
        }
        proof {
            assert(a@.skip(i as int).drop_first() =~= a@.skip(i + 1));
            assert(b@.skip(i as int).drop_first() =~= b@.skip(i + 1));
        }
        i = i + 1;
    }
}

/// Whether a sequence of strings is sorted in nondecreasing lexicographic
/// order.
pub open spec fn sorted_lex(names: Seq<Seq<char>>) -> bool {
    forall|i: int, j: int| 0 <= i < j < names.len() ==> lex_leq(names[i], names[j])
}

/// Sorts strings into nondecreasing lexicographic order by insertion,
/// keeping exactly the same collection of strings.
pub fn sort_names(names: Vec<String>) -> (sorted: Vec<String>)
    ensures
        sorted_lex(sorted.deep_view()),
        sorted.deep_view().to_multiset() == names.deep_view().to_multiset(),
        sorted@.len() == names@.len(),
{
    let mut sorted: Vec<String> = Vec::new();
    let mut i: usize = 0;
    proof {
        assert(sorted.deep_view() =~= names.deep_view().take(0));
    }
    while i < names.len()
        invariant
            i <= names@.len(),
            sorted@.len() == i,
            sorted_lex(sorted.deep_view()),
            sorted.deep_view().to_multiset()
                == names.deep_view().take(i as int).to_multiset(),
        decreases names@.len() - i,
    {
        let name = names[i].clone();
        proof {
            assert(cloned::<String>(names@[i as int], name));
        }
        insert_sorted(&mut sorted, name);
        proof {
            broadcast use vstd::seq_lib::group_to_multiset_ensures;

            assert(names.deep_view().take(i + 1)
                =~= names.deep_view().take(i as int).push(names.deep_view()[i as int]));
        }
        i = i + 1;
    }
    proof {
        assert(names.deep_view().take(names@.len() as int) =~= names.deep_view());
    }
    sorted
}

/// Inserts one string into an already sorted vector, keeping it sorted.
fn insert_sorted(sorted: &mut Vec<String>, name: String)
    requires
        sorted_lex(old(sorted).deep_view()),
    ensures
        sorted_lex(final(sorted).deep_view()),
        final(sorted).deep_view().to_multiset()
            == old(sorted).deep_view().to_multiset().insert(name@),
        final(sorted)@.len() == old(sorted)@.len() + 1,
{
    let mut j: usize = 0;
    while j < sorted.len() && str_leq(sorted[j].as_str(), name.as_str())
        invariant
            j <= sorted@.len(),
            sorted_lex(sorted.deep_view()),
            sorted == old(sorted),
            forall|k: int| 0 <= k < j ==> lex_leq(sorted.deep_view()[k], name@),
        decreases sorted@.len() - j,
    {
        j = j + 1;
    }
    proof {
        if j < sorted@.len() {
            lemma_lex_total(sorted.deep_view()[j as int], name@);
        }
    }
    let ghost prev = sorted.deep_view();
    sorted.insert(j, name);
    proof {
        assert(sorted.deep_view() =~= prev.insert(j as int, name@));
        broadcast use vstd::seq_lib::to_multiset_insert;

        assert forall|p: int, q: int|
            0 <= p < q < sorted.deep_view().len() implies lex_leq(
            sorted.deep_view()[p],
            sorted.deep_view()[q],
        ) by {
            let s = sorted.deep_view();
            if q < j {
            } else if p < j && q == j {
            } else if p < j && q > j {
            } else if p == j {
                if q == j + 1 {
                } else {
                    lemma_lex_trans(name@, prev[j as int], prev[q - 1]);
                }
            } else {
            }
        }
    }
}

} // verus!
