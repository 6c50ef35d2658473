//! Dependencies and the lockfile that lists them.
//!
//! A lockfile is a sequence of lines, each naming one resolved dependency
//! as `name<space>version`; blank lines are permitted and skipped. Parsing
//! keeps the order of the source manifest. Reading the manifest from a
//! file or from standard input is the caller's concern: the parser
//! consumes the content bytes.

use vstd::prelude::*;

use crate::bytes::{find_byte, find_spec};
use crate::parse::{
    all_name_bytes, copy_range, lemma_find_in_subrange, parse_version, parse_version_spec,
};
use crate::semver::{Version, VersionView};

verus! {

/// One resolved dependency of the audited project.
#[derive(Debug)]
pub struct Dependency {
    pub name: Vec<u8>,
    pub version: Version,
}

#[verifier::ext_equal]
pub ghost struct DependencyView {
    pub name: Seq<u8>,
    pub version: VersionView,
}

impl View for Dependency {
    type V = DependencyView;

    open spec fn view(&self) -> DependencyView {
        DependencyView { name: self.name@, version: self.version@ }
    }
}

/// The sequence of dependency views held by a dependency list.
pub open spec fn deps_view(s: Seq<Dependency>) -> Seq<DependencyView> {
    s.map_values(|d: Dependency| d@)
}

impl Dependency {
    pub fn new(name: Vec<u8>, version: Version) -> (r: Dependency)
        ensures
            r@.name == name@,
            r@.version == version@,
    {
        Dependency { name, version }
    }
}

/// Failure modes of lockfile loading.
#[derive(Clone, Copy, Debug, PartialEq, Eq, Structural)]
pub enum LockfileError {
    NotFound,
    ParseError,
}

/// One manifest line: blank (skipped), or `name<space>version`.
pub open spec fn parse_dep_line_spec(line: Seq<u8>) -> Option<Option<DependencyView>> {
    if line.len() == 0 {
        Some(None)
    } else {
        match find_spec(line, 0x20) {
            None => None,
            Some(j) => if 0 <= j < line.len() {
                if j > 0 && all_name_bytes(line.take(j)) {
                    match parse_version_spec(line.skip(j + 1)) {
                        Some(v) => Some(
                            Some(DependencyView { name: line.take(j), version: v }),
                        ),
                        None => None,
                    }
                } else {
                    None
                }
            } else {
                None
            },
        }
    }
}

/// The whole manifest, line by line, in source order.
pub open spec fn parse_lockfile_spec(s: Seq<u8>) -> Option<Seq<DependencyView>>
    decreases s.len(),
{
    if s.len() == 0 {
        Some(Seq::empty())
    } else {
        match find_spec(s, 0x0a) {
            None => match parse_dep_line_spec(s) {
                Some(Some(d)) => Some(seq![d]),
                Some(None) => Some(Seq::empty()),
                None => None,
            },
            Some(j) => if 0 <= j < s.len() {
                match parse_dep_line_spec(s.take(j)) {
                    None => None,
                    Some(opt) => match parse_lockfile_spec(s.skip(j + 1)) {
                        None => None,
                        Some(rest) => match opt {
                            Some(d) => Some(seq![d] + rest),
                            None => Some(rest),
                        },
                    },
                }
            } else {
                None
            },
        }
    }
}

/// Parses `s[lo..hi]` as one manifest line.
fn parse_dep_line(s: &Vec<u8>, lo: usize, hi: usize) -> (r: Option<Option<Dependency>>)
    requires
        lo <= hi <= s@.len(),
    ensures
        match r {
            Some(Some(d)) => parse_dep_line_spec(s@.subrange(lo as int, hi as int)) == Some(
                Some(d@),
            ),
            Some(None) => parse_dep_line_spec(s@.subrange(lo as int, hi as int)) == Some(
                None::<DependencyView>,
            ),
            None => parse_dep_line_spec(s@.subrange(lo as int, hi as int)) is None,
        },
{
    let ghost line = s@.subrange(lo as int, hi as int);
    if lo == hi {
        return Some(None);
    }
    let sp = find_byte(s, lo, hi, 0x20);
    proof {
        lemma_find_in_subrange(s@, lo as int, hi as int, 0x20, sp);
    }
    match sp {
        None => None,
        Some(j) => {
            proof {
                assert(line.take(j - lo) =~= s@.subrange(lo as int, j as int));
                assert(line.skip(j - lo + 1) =~= s@.subrange(j + 1, hi as int));
            }
            if j == lo {
                return None;
            }
            let mut k: usize = lo;
            while k < j
                invariant
                    lo <= k <= j < hi <= s@.len(),
                    lo < j,
                    line == s@.subrange(lo as int, hi as int),
                    line.len() > 0,
                    find_spec(line, 0x20) == Some(j - lo),
                    forall|m: int| lo <= m < k ==> crate::parse::is_name_byte(#[trigger] s@[m]),
                decreases j - k,
            {
                let b = s[k];
                let is_d = 0x30 <= b && b <= 0x39;
                let is_i = is_d || (0x41 <= b && b <= 0x5a) || (0x61 <= b && b <= 0x7a) || b
                    == 0x2d;
                let is_n = is_i || b == 0x5f || b == 0x2e;
                if !is_n {
                    proof {
                        assert(!all_name_bytes(line.take(j - lo))) by {
                            assert(!crate::parse::is_name_byte(line.take(j - lo)[k - lo]));
                        }
                    }
                    return None;
                }
                k = k + 1;
            }
            proof {
                assert(all_name_bytes(line.take(j - lo))) by {
                    assert(forall|m: int|
                        0 <= m < j - lo ==> crate::parse::is_name_byte(
                            #[trigger] line.take(j - lo)[m],
                        ));
                }
            }
            match parse_version(s, j + 1, hi) {
                Some(v) => {
                    let name = copy_range(s, lo, j);
                    let d = Dependency { name, version: v };
                    proof {
                        assert(d@ =~= DependencyView { name: line.take(j - lo), version: v@ });
                    }
                    Some(Some(d))
                },
                None => None,
            }
        },
    }
}

/// Parses the manifest tail starting at `lo`.
fn parse_lockfile_rec(s: &Vec<u8>, lo: usize) -> (r: Option<Vec<Dependency>>)
    requires
        lo <= s@.len(),
    ensures
        match r {
            Some(ds) => parse_lockfile_spec(s@.skip(lo as int)) == Some(deps_view(ds@)),
            None => parse_lockfile_spec(s@.skip(lo as int)) is None,
        },
    decreases s@.len() - lo,
{
    let ghost tail = s@.skip(lo as int);
    let n = s.len();
    if lo == n {
        let r: Vec<Dependency> = Vec::new();
        proof {
            assert(tail =~= Seq::<u8>::empty());
            assert(deps_view(r@) =~= Seq::<DependencyView>::empty());
        }
        return Some(r);
    }
    let nl = find_byte(s, lo, n, 0x0a);
    proof {
        assert(tail =~= s@.subrange(lo as int, n as int));
        lemma_find_in_subrange(s@, lo as int, n as int, 0x0a, nl);
    }
    match nl {
        None => {
            match parse_dep_line(s, lo, n) {
                Some(Some(d)) => {
                    let mut out: Vec<Dependency> = Vec::new();
                    let ghost dv = d@;
                    out.push(d);
                    proof {
                        assert(deps_view(out@) =~= seq![dv]);
                    }
                    Some(out)
                },
                Some(None) => {
                    let r: Vec<Dependency> = Vec::new();
                    proof {
                        assert(deps_view(r@) =~= Seq::<DependencyView>::empty());
                    }
                    Some(r)
                },
                None => None,
            }
        },
        Some(j) => {
            proof {
                assert(tail.take(j - lo) =~= s@.subrange(lo as int, j as int));
                assert(tail.skip(j - lo + 1) =~= s@.skip(j + 1));
            }
            match parse_dep_line(s, lo, j) {
                None => None,
                Some(opt) => {
                    match parse_lockfile_rec(s, j + 1) {
                        None => None,
                        Some(rest) => {
                            match opt {
                                Some(d) => {
                                    let ghost dv = d@;
                                    let ghost rest_views = deps_view(rest@);
                                    let mut out = rest;
                                    out.insert(0, d);
                                    proof {
                                        assert(deps_view(out@) =~= seq![dv] + rest_views);
                                    }
                                    Some(out)
                                },
                                None => Some(rest),
                            }
                        },
                    }
                },
            }
        },
    }
}

/// Parses a dependency manifest: the ordered dependency list, or
/// `ParseError` when the content does not conform to the manifest format.
pub fn parse_lockfile(s: &Vec<u8>) -> (r: Result<Vec<Dependency>, LockfileError>)
    ensures
        match r {
            Ok(ds) => parse_lockfile_spec(s@) == Some(deps_view(ds@)),
            Err(e) => parse_lockfile_spec(s@) is None && e == LockfileError::ParseError,
        },
{
    proof {
        assert(s@.skip(0) =~= s@);
    }
    match parse_lockfile_rec(s, 0) {
        Some(ds) => Ok(ds),
        None => Err(LockfileError::ParseError),
    }
}

} // verus!
