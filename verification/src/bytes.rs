//! Lexicographic ordering and searching over byte strings.
//!
//! Package names, advisory identifiers and other textual values are carried
//! as byte vectors; the deterministic report ordering rests on the
//! three-way comparison defined here.

use vstd::prelude::*;

verus! {

/// Three-way lexicographic comparison of two byte sequences: negative when
/// `a` orders before `b`, zero when they are equal, positive otherwise.
/// A proper prefix orders before any extension of it.
pub open spec fn lex_cmp(a: Seq<u8>, b: Seq<u8>) -> int
    decreases a.len(),
{
    if a.len() == 0 && b.len() == 0 {
        0
    } else if a.len() == 0 {
        -1
    } else if b.len() == 0 {
        1
    } else if a[0] < b[0] {
        -1
    } else if a[0] > b[0] {
        1
    } else {
        lex_cmp(a.drop_first(), b.drop_first())
    }
}

pub proof fn lemma_lex_cmp_antisym(a: Seq<u8>, b: Seq<u8>)
    ensures
        lex_cmp(a, b) == -lex_cmp(b, a),
    decreases a.len(),
{
    if a.len() > 0 && b.len() > 0 && a[0] == b[0] {
        lemma_lex_cmp_antisym(a.drop_first(), b.drop_first());
    }
}

pub proof fn lemma_lex_cmp_zero(a: Seq<u8>, b: Seq<u8>)
    ensures
        lex_cmp(a, b) == 0 ==> a == b,
    decreases a.len(),
{
    if a.len() > 0 && b.len() > 0 && a[0] == b[0] {
        lemma_lex_cmp_zero(a.drop_first(), b.drop_first());
        if lex_cmp(a, b) == 0 {
            assert(a =~= seq![a[0]] + a.drop_first());
            assert(b =~= seq![b[0]] + b.drop_first());
        }
    }
}

pub proof fn lemma_lex_cmp_trans(a: Seq<u8>, b: Seq<u8>, c: Seq<u8>)
    ensures
        lex_cmp(a, b) <= 0 && lex_cmp(b, c) <= 0 ==> lex_cmp(a, c) <= 0,
        lex_cmp(a, b) <= 0 && lex_cmp(b, c) < 0 ==> lex_cmp(a, c) < 0,
        lex_cmp(a, b) < 0 && lex_cmp(b, c) <= 0 ==> lex_cmp(a, c) < 0,
    decreases a.len() + b.len() + c.len(),
{
    if a.len() > 0 && b.len() > 0 && c.len() > 0 {
        lemma_lex_cmp_trans(a.drop_first(), b.drop_first(), c.drop_first());
    }
}

/// Reflexivity follows from antisymmetry; stated for direct use.
pub proof fn lemma_lex_cmp_refl(a: Seq<u8>)
    ensures
        lex_cmp(a, a) == 0,
{
    lemma_lex_cmp_antisym(a, a);
}

/// Three-valued outcome of a comparison.
#[derive(Clone, Copy, Debug, PartialEq, Eq, Structural)]
pub enum Order {
    Less,
    Equal,
    Greater,
}

pub open spec fn order_of(c: int) -> Order {
    if c < 0 {
        Order::Less
    } else if c == 0 {
        Order::Equal
    } else {
        Order::Greater
    }
}

/// Compares two byte vectors lexicographically.
pub fn bytes_cmp(a: &Vec<u8>, b: &Vec<u8>) -> (r: Order)
    ensures
        r == order_of(lex_cmp(a@, b@)),
{
    let mut i: usize = 0;
    proof {
        assert(a@.skip(0) =~= a@);
        assert(b@.skip(0) =~= b@);
    }
    while i < a.len() && i < b.len()
        invariant
            i <= a.len(),
            i <= b.len(),
            lex_cmp(a@, b@) == lex_cmp(a@.skip(i as int), b@.skip(i as int)),
        decreases a.len() - i,
    {
        if a[i] < b[i] {
            return Order::Less;
        }
        if a[i] > b[i] {
            return Order::Greater;
        }
        proof {
            assert(a@.skip(i as int).drop_first() =~= a@.skip(i + 1));
            assert(b@.skip(i as int).drop_first() =~= b@.skip(i + 1));
        }
        i = i + 1;
    }
    if a.len() == b.len() {
        proof {
            assert(a@.skip(i as int) =~= Seq::<u8>::empty());
            assert(b@.skip(i as int) =~= Seq::<u8>::empty());
        }
        Order::Equal
    } else if a.len() < b.len() {
        proof {
            assert(a@.skip(i as int) =~= Seq::<u8>::empty());
        }
        Order::Less
    } else {
        proof {
            assert(b@.skip(i as int) =~= Seq::<u8>::empty());
        }
        Order::Greater
    }
}

/// Equality of two byte vectors.
pub fn bytes_eq(a: &Vec<u8>, b: &Vec<u8>) -> (r: bool)
    ensures
        r == (a@ == b@),
{
    let o = bytes_cmp(a, b);
    proof {
        lemma_lex_cmp_zero(a@, b@);
        lemma_lex_cmp_refl(a@);
    }
    if o == Order::Equal {
        true
    } else {
        false
    }
}

/// The sequence of byte-string views held by a list of byte vectors.
pub open spec fn views_of(s: Seq<Vec<u8>>) -> Seq<Seq<u8>> {
    s.map_values(|v: Vec<u8>| v@)
}

/// First index of `b` in `s`, scanning from the front.
pub open spec fn find_spec(s: Seq<u8>, b: u8) -> Option<int>
    decreases s.len(),
{
    if s.len() == 0 {
        None
    } else if s[0] == b {
        Some(0)
    } else {
        match find_spec(s.drop_first(), b) {
            None => None,
            Some(j) => Some(j + 1),
        }
    }
}

/// The first occurrence characterizes `find_spec` uniquely.
pub proof fn lemma_find_spec_unique(s: Seq<u8>, b: u8, j: int)
    requires
        0 <= j < s.len(),
        s[j] == b,
        forall|k: int| 0 <= k < j ==> s[k] != b,
    ensures
        find_spec(s, b) == Some(j),
    decreases s.len(),
{
    if s[0] != b {
        assert(s.drop_first()[j - 1] == b);
        assert forall|k: int| 0 <= k < j - 1 implies s.drop_first()[k] != b by {
            assert(s[k + 1] != b);
        }
        lemma_find_spec_unique(s.drop_first(), b, j - 1);
    }
}

pub proof fn lemma_find_spec_absent(s: Seq<u8>, b: u8)
    requires
        forall|k: int| 0 <= k < s.len() ==> s[k] != b,
    ensures
        find_spec(s, b) is None,
    decreases s.len(),
{
    if s.len() > 0 {
        assert forall|k: int| 0 <= k < s.drop_first().len() implies s.drop_first()[k] != b by {
            assert(s[k + 1] != b);
        }
        lemma_find_spec_absent(s.drop_first(), b);
    }
}

/// Scans `s[lo..hi]` for the first occurrence of `b`.
pub fn find_byte(s: &Vec<u8>, lo: usize, hi: usize, b: u8) -> (r: Option<usize>)
    requires
        lo <= hi <= s@.len(),
    ensures
        match r {
            Some(j) => lo <= j < hi && s@[j as int] == b && forall|k: int|
                lo <= k < j ==> s@[k] != b,
            None => forall|k: int| lo <= k < hi ==> s@[k] != b,
        },
{
    let mut i: usize = lo;
    while i < hi
        invariant
            lo <= i <= hi <= s@.len(),
            forall|k: int| lo <= k < i ==> s@[k] != b,
        decreases hi - i,
    {
        if s[i] == b {
            return Some(i);
        }
        i = i + 1;
    }
    None
}

} // verus!
