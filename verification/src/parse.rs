//! Parsers for the textual formats the pipeline consumes: numbers,
//! versions, version-range clauses, dates, and platform names.
//!
//! Every parser is specified by a recursive grammar function over byte
//! sequences; the executable parser returns exactly what the grammar
//! assigns to its input.

use vstd::prelude::*;

use crate::bytes::{find_byte, find_spec, lemma_find_spec_absent, lemma_find_spec_unique};
use crate::semver::{pre_view, PreIdent, PreIdentView, Version, VersionView};

verus! {

pub open spec fn is_digit(b: u8) -> bool {
    0x30 <= b <= 0x39
}

/// Bytes allowed in a pre-release identifier: ASCII letters, digits, `-`.
pub open spec fn is_ident_byte(b: u8) -> bool {
    is_digit(b) || (0x41 <= b <= 0x5a) || (0x61 <= b <= 0x7a) || b == 0x2d
}

/// Bytes allowed in a package name: identifier bytes plus `_` and `.`.
pub open spec fn is_name_byte(b: u8) -> bool {
    is_ident_byte(b) || b == 0x5f || b == 0x2e
}

pub open spec fn all_digits(s: Seq<u8>) -> bool {
    forall|k: int| 0 <= k < s.len() ==> is_digit(#[trigger] s[k])
}

pub open spec fn all_ident_bytes(s: Seq<u8>) -> bool {
    forall|k: int| 0 <= k < s.len() ==> is_ident_byte(#[trigger] s[k])
}

pub open spec fn all_name_bytes(s: Seq<u8>) -> bool {
    forall|k: int| 0 <= k < s.len() ==> is_name_byte(#[trigger] s[k])
}

/// The number a digit string denotes.
pub open spec fn digits_val(s: Seq<u8>) -> int
    decreases s.len(),
{
    if s.len() == 0 {
        0
    } else {
        digits_val(s.drop_last()) * 10 + (s.last() - 0x30)
    }
}

pub proof fn lemma_digits_val_nonneg(s: Seq<u8>)
    requires
        all_digits(s),
    ensures
        digits_val(s) >= 0,
    decreases s.len(),
{
    if s.len() > 0 {
        assert(all_digits(s.drop_last())) by {
            assert(forall|k: int| 0 <= k < s.len() - 1 ==> is_digit(#[trigger] s[k]));
        }
        lemma_digits_val_nonneg(s.drop_last());
    }
}

pub proof fn lemma_digits_val_prefix(s: Seq<u8>, i: int)
    requires
        all_digits(s),
        0 <= i <= s.len(),
    ensures
        digits_val(s.take(i)) <= digits_val(s),
        all_digits(s.take(i)),
    decreases s.len() - i,
{
    if i < s.len() {
        lemma_digits_val_prefix(s, i + 1);
        assert(s.take(i + 1).drop_last() =~= s.take(i));
        assert(s.take(i + 1).last() == s[i]);
        lemma_digits_val_nonneg(s.take(i));
    } else {
        assert(s.take(i) =~= s);
    }
}

/// A number: a nonempty digit string whose value fits in 64 bits.
pub open spec fn parse_num_spec(s: Seq<u8>) -> Option<int> {
    if s.len() > 0 && all_digits(s) && digits_val(s) <= u64::MAX {
        Some(digits_val(s))
    } else {
        None
    }
}

/// Parses `s[lo..hi]` as a number.
pub fn parse_num(s: &Vec<u8>, lo: usize, hi: usize) -> (r: Option<u64>)
    requires
        lo <= hi <= s@.len(),
    ensures
        match r {
            Some(n) => parse_num_spec(s@.subrange(lo as int, hi as int)) == Some(n as int),
            None => parse_num_spec(s@.subrange(lo as int, hi as int)) is None,
        },
{
    let ghost sub = s@.subrange(lo as int, hi as int);
    if lo == hi {
        return None;
    }
    let mut acc: u64 = 0;
    let mut i: usize = lo;
    proof {
        assert(sub.take(0) =~= Seq::<u8>::empty());
    }
    while i < hi
        invariant
            lo <= i <= hi <= s@.len(),
            sub == s@.subrange(lo as int, hi as int),
            all_digits(sub.take(i - lo)),
            acc == digits_val(sub.take(i - lo)),
        decreases hi - i,
    {
        let b = s[i];
        proof {
            assert(sub[i - lo] == b);
        }
        if !(0x30 <= b && b <= 0x39) {
            assert(!is_digit(sub[i - lo]));
            return None;
        }
        let d = b - 0x30;
        if acc > (u64::MAX - (d as u64)) / 10 {
            proof {
                assert(sub.take(i - lo + 1).drop_last() =~= sub.take(i - lo));
                assert(sub.take(i - lo + 1).last() == sub[i - lo]);
                assert(all_digits(sub.take(i - lo + 1)));
                assert(digits_val(sub.take(i - lo + 1)) == acc * 10 + d);
                assert(digits_val(sub.take(i - lo + 1)) > u64::MAX);
                if all_digits(sub) {
                    lemma_digits_val_prefix(sub, i - lo + 1);
                }
            }
            return None;
        }
        proof {
            assert(sub.take(i - lo + 1).drop_last() =~= sub.take(i - lo));
            assert(sub.take(i - lo + 1).last() == sub[i - lo]);
            assert(all_digits(sub.take(i - lo + 1)));
        }
        acc = acc * 10 + (d as u64);
        i = i + 1;
    }
    proof {
        assert(sub.take(hi - lo) =~= sub);
    }
    Some(acc)
}

/// Copies `s[lo..hi]` into a fresh byte vector.
pub fn copy_range(s: &Vec<u8>, lo: usize, hi: usize) -> (r: Vec<u8>)
    requires
        lo <= hi <= s@.len(),
    ensures
        r@ == s@.subrange(lo as int, hi as int),
{
    let mut out: Vec<u8> = Vec::new();
    let mut i: usize = lo;
    while i < hi
        invariant
            lo <= i <= hi <= s@.len(),
            out@ =~= s@.subrange(lo as int, i as int),
        decreases hi - i,
    {
        out.push(s[i]);
        proof {
            assert(out@ =~= s@.subrange(lo as int, i + 1));
        }
        i = i + 1;
    }
    out
}

/// One pre-release identifier: numeric when all digits, else alphanumeric.
pub open spec fn parse_ident_spec(s: Seq<u8>) -> Option<PreIdentView> {
    if s.len() == 0 {
        None
    } else if all_digits(s) {
        match parse_num_spec(s) {
            Some(n) => Some(PreIdentView::Num(n)),
            None => None,
        }
    } else if all_ident_bytes(s) {
        Some(PreIdentView::Alpha(s))
    } else {
        None
    }
}

/// A dot-separated list of pre-release identifiers.
pub open spec fn parse_pre_spec(s: Seq<u8>) -> Option<Seq<PreIdentView>>
    decreases s.len(),
{
    match find_spec(s, 0x2e) {
        None => match parse_ident_spec(s) {
            Some(p) => Some(seq![p]),
            None => None,
        },
        Some(j) => if 0 <= j < s.len() {
            match parse_ident_spec(s.take(j)) {
                Some(p) => match parse_pre_spec(s.skip(j + 1)) {
                    Some(rest) => Some(seq![p] + rest),
                    None => None,
                },
                None => None,
            }
        } else {
            None
        },
    }
}

/// Relates a scan of `s[lo..hi]` to the grammar's first-occurrence search
/// on the subrange.
pub proof fn lemma_find_in_subrange(s: Seq<u8>, lo: int, hi: int, b: u8, r: Option<usize>)
    requires
        0 <= lo <= hi <= s.len(),
        match r {
            Some(j) => lo <= j < hi && s[j as int] == b && forall|k: int|
                lo <= k < j ==> s[k] != b,
            None => forall|k: int| lo <= k < hi ==> s[k] != b,
        },
    ensures
        match r {
            Some(j) => find_spec(s.subrange(lo, hi), b) == Some(j - lo),
            None => find_spec(s.subrange(lo, hi), b) is None,
        },
{
    let sub = s.subrange(lo, hi);
    match r {
        Some(j) => {
            assert(sub[j - lo] == b);
            assert forall|k: int| 0 <= k < j - lo implies sub[k] != b by {
                assert(s[lo + k] != b);
            }
            lemma_find_spec_unique(sub, b, j - lo);
        },
        None => {
            assert forall|k: int| 0 <= k < sub.len() implies sub[k] != b by {
                assert(s[lo + k] != b);
            }
            lemma_find_spec_absent(sub, b);
        },
    }
}

/// Parses `s[lo..hi]` as one pre-release identifier.
fn parse_ident(s: &Vec<u8>, lo: usize, hi: usize) -> (r: Option<PreIdent>)
    requires
        lo <= hi <= s@.len(),
    ensures
        match r {
            Some(p) => parse_ident_spec(s@.subrange(lo as int, hi as int)) == Some(p@),
            None => parse_ident_spec(s@.subrange(lo as int, hi as int)) is None,
        },
{
    let ghost sub = s@.subrange(lo as int, hi as int);
    if lo == hi {
        return None;
    }
    let mut digits: bool = true;
    let mut idents: bool = true;
    let mut i: usize = lo;
    while i < hi
        invariant
            lo <= i <= hi <= s@.len(),
            sub == s@.subrange(lo as int, hi as int),
            digits == all_digits(sub.take(i - lo)),
            idents == all_ident_bytes(sub.take(i - lo)),
        decreases hi - i,
    {
        let b = s[i];
        proof {
            assert(sub[i - lo] == b);
            assert(sub.take(i - lo + 1).drop_last() =~= sub.take(i - lo));
            assert(sub.take(i - lo + 1).last() == sub[i - lo]);
            assert(forall|k: int|
                0 <= k < i - lo ==> #[trigger] sub.take(i - lo + 1)[k] == sub.take(i - lo)[k]);
        }
        let is_d = 0x30 <= b && b <= 0x39;
        let is_i = is_d || (0x41 <= b && b <= 0x5a) || (0x61 <= b && b <= 0x7a) || b == 0x2d;
        proof {
            if digits && is_d {
                assert(all_digits(sub.take(i - lo + 1)));
            }
            if idents && is_i {
                assert(all_ident_bytes(sub.take(i - lo + 1)));
            }
            if !is_d {
                assert(!is_digit(sub.take(i - lo + 1)[i - lo]));
            }
            if !is_i {
                assert(!is_ident_byte(sub.take(i - lo + 1)[i - lo]));
            }
        }
        digits = digits && is_d;
        idents = idents && is_i;
        i = i + 1;
    }
    proof {
        assert(sub.take(hi - lo) =~= sub);
    }
    if digits {
        match parse_num(s, lo, hi) {
            Some(n) => Some(PreIdent::Num(n)),
            None => None,
        }
    } else if idents {
        Some(PreIdent::Alpha(copy_range(s, lo, hi)))
    } else {
        None
    }
}

/// Parses `s[lo..hi]` as a dot-separated pre-release tail.
fn parse_pre(s: &Vec<u8>, lo: usize, hi: usize) -> (r: Option<Vec<PreIdent>>)
    requires
        lo <= hi <= s@.len(),
    ensures
        match r {
            Some(ps) => parse_pre_spec(s@.subrange(lo as int, hi as int)) == Some(pre_view(ps@)),
            None => parse_pre_spec(s@.subrange(lo as int, hi as int)) is None,
        },
    decreases hi - lo,
{
    let ghost sub = s@.subrange(lo as int, hi as int);
    let dot = find_byte(s, lo, hi, 0x2e);
    proof {
        lemma_find_in_subrange(s@, lo as int, hi as int, 0x2e, dot);
    }
    match dot {
        None => {
            match parse_ident(s, lo, hi) {
                Some(p) => {
                    let mut out: Vec<PreIdent> = Vec::new();
                    out.push(p);
                    proof {
                        assert(pre_view(out@) =~= seq![p@]);
                    }
                    Some(out)
                },
                None => None,
            }
        },
        Some(j) => {
            proof {
                assert(sub.take(j - lo) =~= s@.subrange(lo as int, j as int));
                assert(sub.skip(j - lo + 1) =~= s@.subrange(j + 1, hi as int));
            }
            match parse_ident(s, lo, j) {
                Some(p) => {
                    match parse_pre(s, j + 1, hi) {
                        Some(rest) => {
                            let ghost rest_view = pre_view(rest@);
                            let mut out: Vec<PreIdent> = Vec::new();
                            out.push(p);
                            let mut k: usize = 0;
                            let ghost n = rest@.len();
                            while k < rest.len()
                                invariant
                                    k <= rest@.len(),
                                    rest@.len() == n,
                                    rest_view == pre_view(rest@),
                                    out@.len() == k + 1,
                                    pre_view(out@) =~= seq![p@] + rest_view.take(k as int),
                                decreases rest@.len() - k,
                            {
                                let d = rest[k].duplicate();
                                let ghost before = out@;
                                proof {
                                    assert(d@ == rest_view[k as int]);
                                }
                                out.push(d);
                                proof {
                                    assert(pre_view(out@) =~= pre_view(before).push(d@));
                                    assert(pre_view(out@) =~= seq![p@] + rest_view.take(
                                        k + 1,
                                    ));
                                }
                                k = k + 1;
                            }
                            proof {
                                assert(rest_view.take(n as int) =~= rest_view);
                            }
                            Some(out)
                        },
                        None => None,
                    }
                },
                None => None,
            }
        },
    }
}

/// A version: `major.minor.patch`, optionally followed by `-` and a
/// pre-release tail.
pub open spec fn parse_version_spec(s: Seq<u8>) -> Option<VersionView> {
    match find_spec(s, 0x2d) {
        None => parse_core_spec(s, Seq::empty()),
        Some(j) => match parse_pre_spec(s.skip(j + 1)) {
            Some(pre) => parse_core_spec(s.take(j), pre),
            None => None,
        },
    }
}

/// The `major.minor.patch` core; `pre` is the already-parsed tail.
pub open spec fn parse_core_spec(s: Seq<u8>, pre: Seq<PreIdentView>) -> Option<VersionView> {
    match find_spec(s, 0x2e) {
        None => None,
        Some(j1) => match find_spec(s.skip(j1 + 1), 0x2e) {
            None => None,
            Some(j2) => match (
                parse_num_spec(s.take(j1)),
                parse_num_spec(s.skip(j1 + 1).take(j2)),
                parse_num_spec(s.skip(j1 + 1).skip(j2 + 1)),
            ) {
                (Some(ma), Some(mi), Some(pa)) => Some(
                    VersionView { major: ma, minor: mi, patch: pa, pre: pre },
                ),
                _ => None,
            },
        },
    }
}

/// Parses `s[lo..hi]` as a version.
pub fn parse_version(s: &Vec<u8>, lo: usize, hi: usize) -> (r: Option<Version>)
    requires
        lo <= hi <= s@.len(),
    ensures
        match r {
            Some(v) => parse_version_spec(s@.subrange(lo as int, hi as int)) == Some(v@),
            None => parse_version_spec(s@.subrange(lo as int, hi as int)) is None,
        },
{
    let ghost sub = s@.subrange(lo as int, hi as int);
    let dash = find_byte(s, lo, hi, 0x2d);
    proof {
        lemma_find_in_subrange(s@, lo as int, hi as int, 0x2d, dash);
    }
    match dash {
        None => parse_core(s, lo, hi, Vec::new()),
        Some(j) => {
            proof {
                assert(sub.skip(j - lo + 1) =~= s@.subrange(j + 1, hi as int));
                assert(sub.take(j - lo) =~= s@.subrange(lo as int, j as int));
            }
            match parse_pre(s, j + 1, hi) {
                Some(pre) => parse_core(s, lo, j, pre),
                None => None,
            }
        },
    }
}

/// Parses `s[lo..hi]` as a version core and attaches `pre`.
fn parse_core(s: &Vec<u8>, lo: usize, hi: usize, pre: Vec<PreIdent>) -> (r: Option<Version>)
    requires
        lo <= hi <= s@.len(),
    ensures
        match r {
            Some(v) => parse_core_spec(s@.subrange(lo as int, hi as int), pre_view(pre@))
                == Some(v@),
            None => parse_core_spec(s@.subrange(lo as int, hi as int), pre_view(pre@)) is None,
        },
{
    let ghost sub = s@.subrange(lo as int, hi as int);
    let d1 = find_byte(s, lo, hi, 0x2e);
    proof {
        lemma_find_in_subrange(s@, lo as int, hi as int, 0x2e, d1);
    }
    match d1 {
        None => None,
        Some(j1) => {
            proof {
                assert(sub.take(j1 - lo) =~= s@.subrange(lo as int, j1 as int));
                assert(sub.skip(j1 - lo + 1) =~= s@.subrange(j1 + 1, hi as int));
            }
            let d2 = find_byte(s, j1 + 1, hi, 0x2e);
            proof {
                lemma_find_in_subrange(s@, j1 + 1, hi as int, 0x2e, d2);
            }
            match d2 {
                None => None,
                Some(j2) => {
                    let ghost tail = sub.skip(j1 - lo + 1);
                    proof {
                        assert(tail.take(j2 - (j1 + 1)) =~= s@.subrange(j1 + 1, j2 as int));
                        assert(tail.skip(j2 - (j1 + 1) + 1) =~= s@.subrange(j2 + 1, hi as int));
                    }
                    let ma = parse_num(s, lo, j1);
                    let mi = parse_num(s, j1 + 1, j2);
                    let pa = parse_num(s, j2 + 1, hi);
                    match (ma, mi, pa) {
                        (Some(ma), Some(mi), Some(pa)) => {
                            let v = Version { major: ma, minor: mi, patch: pa, pre };
                            Some(v)
                        },
                        _ => None,
                    }
                },
            }
        },
    }
}

} // verus!
