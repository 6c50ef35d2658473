//! Parsing raw advisory records.
//!
//! A raw record is a sequence of `key value` lines: `id` and `package`
//! (required, one each), `affected` (required, repeatable), `unaffected`
//! and `patched` (repeatable, both exempting), `alias` (repeatable),
//! `date` (required), and optional `severity`, `arch`, `os`, `withdrawn`
//! and `category`. A record missing a required field, repeating a
//! single-valued one, or holding a value that does not parse is rejected
//! as a whole; the database loader skips such records with a warning.

use vstd::prelude::*;

use crate::advisory::{AdvisoryRecord, AdvisoryView, Arch, Category, Date, Os, Severity};
use crate::bytes::{find_byte, find_spec};
use crate::parse::{
    all_ident_bytes, all_name_bytes, copy_range, is_ident_byte, is_name_byte,
    lemma_find_in_subrange, parse_num, parse_num_spec, parse_version, parse_version_spec,
};
use crate::vrange::{AffectedRange, BoundOp, Clause, Comparator, ComparatorView, RangeView};

verus! {

pub open spec fn kw_id() -> Seq<u8> {
    seq![0x69u8, 0x64u8]
}

pub open spec fn kw_package() -> Seq<u8> {
    seq![0x70u8, 0x61u8, 0x63u8, 0x6bu8, 0x61u8, 0x67u8, 0x65u8]
}

pub open spec fn kw_affected() -> Seq<u8> {
    seq![0x61u8, 0x66u8, 0x66u8, 0x65u8, 0x63u8, 0x74u8, 0x65u8, 0x64u8]
}

pub open spec fn kw_unaffected() -> Seq<u8> {
    seq![0x75u8, 0x6eu8, 0x61u8, 0x66u8, 0x66u8, 0x65u8, 0x63u8, 0x74u8, 0x65u8, 0x64u8]
}

pub open spec fn kw_patched() -> Seq<u8> {
    seq![0x70u8, 0x61u8, 0x74u8, 0x63u8, 0x68u8, 0x65u8, 0x64u8]
}

pub open spec fn kw_alias() -> Seq<u8> {
    seq![0x61u8, 0x6cu8, 0x69u8, 0x61u8, 0x73u8]
}

pub open spec fn kw_severity() -> Seq<u8> {
    seq![0x73u8, 0x65u8, 0x76u8, 0x65u8, 0x72u8, 0x69u8, 0x74u8, 0x79u8]
}

pub open spec fn kw_date() -> Seq<u8> {
    seq![0x64u8, 0x61u8, 0x74u8, 0x65u8]
}

pub open spec fn kw_arch() -> Seq<u8> {
    seq![0x61u8, 0x72u8, 0x63u8, 0x68u8]
}

pub open spec fn kw_os() -> Seq<u8> {
    seq![0x6fu8, 0x73u8]
}

pub open spec fn kw_withdrawn() -> Seq<u8> {
    seq![0x77u8, 0x69u8, 0x74u8, 0x68u8, 0x64u8, 0x72u8, 0x61u8, 0x77u8, 0x6eu8]
}

pub open spec fn kw_category() -> Seq<u8> {
    seq![0x63u8, 0x61u8, 0x74u8, 0x65u8, 0x67u8, 0x6fu8, 0x72u8, 0x79u8]
}

pub open spec fn arch_name(x: Arch) -> Seq<u8> {
    match x {
        Arch::Aarch64 => seq![0x61u8, 0x61u8, 0x72u8, 0x63u8, 0x68u8, 0x36u8, 0x34u8],
        Arch::Arm => seq![0x61u8, 0x72u8, 0x6du8],
        Arch::Mips => seq![0x6du8, 0x69u8, 0x70u8, 0x73u8],
        Arch::PowerPc => seq![0x70u8, 0x6fu8, 0x77u8, 0x65u8, 0x72u8, 0x70u8, 0x63u8],
        Arch::Riscv => seq![0x72u8, 0x69u8, 0x73u8, 0x63u8, 0x76u8],
        Arch::S390X => seq![0x73u8, 0x33u8, 0x39u8, 0x30u8, 0x78u8],
        Arch::Sparc => seq![0x73u8, 0x70u8, 0x61u8, 0x72u8, 0x63u8],
        Arch::Wasm32 => seq![0x77u8, 0x61u8, 0x73u8, 0x6du8, 0x33u8, 0x32u8],
        Arch::X86 => seq![0x78u8, 0x38u8, 0x36u8],
        Arch::X86_64 => seq![0x78u8, 0x38u8, 0x36u8, 0x5fu8, 0x36u8, 0x34u8],
    }
}

pub open spec fn arch_of_name(s: Seq<u8>) -> Option<Arch> {
    if s == arch_name(Arch::Aarch64) {
        Some(Arch::Aarch64)
    } else if s == arch_name(Arch::Arm) {
        Some(Arch::Arm)
    } else if s == arch_name(Arch::Mips) {
        Some(Arch::Mips)
    } else if s == arch_name(Arch::PowerPc) {
        Some(Arch::PowerPc)
    } else if s == arch_name(Arch::Riscv) {
        Some(Arch::Riscv)
    } else if s == arch_name(Arch::S390X) {
        Some(Arch::S390X)
    } else if s == arch_name(Arch::Sparc) {
        Some(Arch::Sparc)
    } else if s == arch_name(Arch::Wasm32) {
        Some(Arch::Wasm32)
    } else if s == arch_name(Arch::X86) {
        Some(Arch::X86)
    } else if s == arch_name(Arch::X86_64) {
        Some(Arch::X86_64)
    } else {
        None
    }
}

/// Parses `s[vlo..vhi]` as an architecture name.
pub fn arch_of(s: &Vec<u8>, vlo: usize, vhi: usize) -> (r: Option<Arch>)
    requires
        vlo <= vhi <= s@.len(),
    ensures
        r == arch_of_name(s@.subrange(vlo as int, vhi as int)),
{
    let ghost sub = s@.subrange(vlo as int, vhi as int);
    let vlen = vhi - vlo;
    if vlen == 7 && s[vlo] == 0x61 && s[vlo + 1] == 0x61 && s[vlo + 2] == 0x72 && s[vlo + 3] == 0x63 && s[vlo + 4] == 0x68 && s[vlo + 5] == 0x36 && s[vlo + 6] == 0x34 {
        proof { assert(sub =~= arch_name(Arch::Aarch64)); }
        return Some(Arch::Aarch64);
    }
    if vlen == 3 && s[vlo] == 0x61 && s[vlo + 1] == 0x72 && s[vlo + 2] == 0x6d {
        proof { assert(sub =~= arch_name(Arch::Arm)); }
        return Some(Arch::Arm);
    }
    if vlen == 4 && s[vlo] == 0x6d && s[vlo + 1] == 0x69 && s[vlo + 2] == 0x70 && s[vlo + 3] == 0x73 {
        proof { assert(sub =~= arch_name(Arch::Mips)); }
        return Some(Arch::Mips);
    }
    if vlen == 7 && s[vlo] == 0x70 && s[vlo + 1] == 0x6f && s[vlo + 2] == 0x77 && s[vlo + 3] == 0x65 && s[vlo + 4] == 0x72 && s[vlo + 5] == 0x70 && s[vlo + 6] == 0x63 {
        proof { assert(sub =~= arch_name(Arch::PowerPc)); }
        return Some(Arch::PowerPc);
    }
    if vlen == 5 && s[vlo] == 0x72 && s[vlo + 1] == 0x69 && s[vlo + 2] == 0x73 && s[vlo + 3] == 0x63 && s[vlo + 4] == 0x76 {
        proof { assert(sub =~= arch_name(Arch::Riscv)); }
        return Some(Arch::Riscv);
    }
    if vlen == 5 && s[vlo] == 0x73 && s[vlo + 1] == 0x33 && s[vlo + 2] == 0x39 && s[vlo + 3] == 0x30 && s[vlo + 4] == 0x78 {
        proof { assert(sub =~= arch_name(Arch::S390X)); }
        return Some(Arch::S390X);
    }
    if vlen == 5 && s[vlo] == 0x73 && s[vlo + 1] == 0x70 && s[vlo + 2] == 0x61 && s[vlo + 3] == 0x72 && s[vlo + 4] == 0x63 {
        proof { assert(sub =~= arch_name(Arch::Sparc)); }
        return Some(Arch::Sparc);
    }
    if vlen == 6 && s[vlo] == 0x77 && s[vlo + 1] == 0x61 && s[vlo + 2] == 0x73 && s[vlo + 3] == 0x6d && s[vlo + 4] == 0x33 && s[vlo + 5] == 0x32 {
        proof { assert(sub =~= arch_name(Arch::Wasm32)); }
        return Some(Arch::Wasm32);
    }
    if vlen == 3 && s[vlo] == 0x78 && s[vlo + 1] == 0x38 && s[vlo + 2] == 0x36 {
        proof { assert(sub =~= arch_name(Arch::X86)); }
        return Some(Arch::X86);
    }
    if vlen == 6 && s[vlo] == 0x78 && s[vlo + 1] == 0x38 && s[vlo + 2] == 0x36 && s[vlo + 3] == 0x5f && s[vlo + 4] == 0x36 && s[vlo + 5] == 0x34 {
        proof { assert(sub =~= arch_name(Arch::X86_64)); }
        return Some(Arch::X86_64);
    }
    proof {
        assert(sub != arch_name(Arch::Aarch64)) by {
            if sub.len() == 7 {
                assert(sub[0] == s@[vlo as int]);
                assert(sub[1] == s@[vlo + 1]);
                assert(sub[2] == s@[vlo + 2]);
                assert(sub[3] == s@[vlo + 3]);
                assert(sub[4] == s@[vlo + 4]);
                assert(sub[5] == s@[vlo + 5]);
                assert(sub[6] == s@[vlo + 6]);
            }
        }
        assert(sub != arch_name(Arch::Arm)) by {
            if sub.len() == 3 {
                assert(sub[0] == s@[vlo as int]);
                assert(sub[1] == s@[vlo + 1]);
                assert(sub[2] == s@[vlo + 2]);
            }
        }
        assert(sub != arch_name(Arch::Mips)) by {
            if sub.len() == 4 {
                assert(sub[0] == s@[vlo as int]);
                assert(sub[1] == s@[vlo + 1]);
                assert(sub[2] == s@[vlo + 2]);
                assert(sub[3] == s@[vlo + 3]);
            }
        }
        assert(sub != arch_name(Arch::PowerPc)) by {
            if sub.len() == 7 {
                assert(sub[0] == s@[vlo as int]);
                assert(sub[1] == s@[vlo + 1]);
                assert(sub[2] == s@[vlo + 2]);
                assert(sub[3] == s@[vlo + 3]);
                assert(sub[4] == s@[vlo + 4]);
                assert(sub[5] == s@[vlo + 5]);
                assert(sub[6] == s@[vlo + 6]);
            }
        }
        assert(sub != arch_name(Arch::Riscv)) by {
            if sub.len() == 5 {
                assert(sub[0] == s@[vlo as int]);
                assert(sub[1] == s@[vlo + 1]);
                assert(sub[2] == s@[vlo + 2]);
                assert(sub[3] == s@[vlo + 3]);
                assert(sub[4] == s@[vlo + 4]);
            }
        }
        assert(sub != arch_name(Arch::S390X)) by {
            if sub.len() == 5 {
                assert(sub[0] == s@[vlo as int]);
                assert(sub[1] == s@[vlo + 1]);
                assert(sub[2] == s@[vlo + 2]);
                assert(sub[3] == s@[vlo + 3]);
                assert(sub[4] == s@[vlo + 4]);
            }
        }
        assert(sub != arch_name(Arch::Sparc)) by {
            if sub.len() == 5 {
                assert(sub[0] == s@[vlo as int]);
                assert(sub[1] == s@[vlo + 1]);
                assert(sub[2] == s@[vlo + 2]);
                assert(sub[3] == s@[vlo + 3]);
                assert(sub[4] == s@[vlo + 4]);
            }
        }
        assert(sub != arch_name(Arch::Wasm32)) by {
            if sub.len() == 6 {
                assert(sub[0] == s@[vlo as int]);
                assert(sub[1] == s@[vlo + 1]);
                assert(sub[2] == s@[vlo + 2]);
                assert(sub[3] == s@[vlo + 3]);
                assert(sub[4] == s@[vlo + 4]);
                assert(sub[5] == s@[vlo + 5]);
            }
        }
        assert(sub != arch_name(Arch::X86)) by {
            if sub.len() == 3 {
                assert(sub[0] == s@[vlo as int]);
                assert(sub[1] == s@[vlo + 1]);
                assert(sub[2] == s@[vlo + 2]);
            }
        }
        assert(sub != arch_name(Arch::X86_64)) by {
            if sub.len() == 6 {
                assert(sub[0] == s@[vlo as int]);
                assert(sub[1] == s@[vlo + 1]);
                assert(sub[2] == s@[vlo + 2]);
                assert(sub[3] == s@[vlo + 3]);
                assert(sub[4] == s@[vlo + 4]);
                assert(sub[5] == s@[vlo + 5]);
            }
        }
    }
    None
}

pub open spec fn os_name(x: Os) -> Seq<u8> {
    match x {
        Os::Android => seq![0x61u8, 0x6eu8, 0x64u8, 0x72u8, 0x6fu8, 0x69u8, 0x64u8],
        Os::FreeBsd => seq![0x66u8, 0x72u8, 0x65u8, 0x65u8, 0x62u8, 0x73u8, 0x64u8],
        Os::Fuchsia => seq![0x66u8, 0x75u8, 0x63u8, 0x68u8, 0x73u8, 0x69u8, 0x61u8],
        Os::Ios => seq![0x69u8, 0x6fu8, 0x73u8],
        Os::Linux => seq![0x6cu8, 0x69u8, 0x6eu8, 0x75u8, 0x78u8],
        Os::MacOs => seq![0x6du8, 0x61u8, 0x63u8, 0x6fu8, 0x73u8],
        Os::NetBsd => seq![0x6eu8, 0x65u8, 0x74u8, 0x62u8, 0x73u8, 0x64u8],
        Os::OpenBsd => seq![0x6fu8, 0x70u8, 0x65u8, 0x6eu8, 0x62u8, 0x73u8, 0x64u8],
        Os::Redox => seq![0x72u8, 0x65u8, 0x64u8, 0x6fu8, 0x78u8],
        Os::Windows => seq![0x77u8, 0x69u8, 0x6eu8, 0x64u8, 0x6fu8, 0x77u8, 0x73u8],
    }
}

pub open spec fn os_of_name(s: Seq<u8>) -> Option<Os> {
    if s == os_name(Os::Android) {
        Some(Os::Android)
    } else if s == os_name(Os::FreeBsd) {
        Some(Os::FreeBsd)
    } else if s == os_name(Os::Fuchsia) {
        Some(Os::Fuchsia)
    } else if s == os_name(Os::Ios) {
        Some(Os::Ios)
    } else if s == os_name(Os::Linux) {
        Some(Os::Linux)
    } else if s == os_name(Os::MacOs) {
        Some(Os::MacOs)
    } else if s == os_name(Os::NetBsd) {
        Some(Os::NetBsd)
    } else if s == os_name(Os::OpenBsd) {
        Some(Os::OpenBsd)
    } else if s == os_name(Os::Redox) {
        Some(Os::Redox)
    } else if s == os_name(Os::Windows) {
        Some(Os::Windows)
    } else {
        None
    }
}

/// Parses `s[vlo..vhi]` as an operating-system name.
pub fn os_of(s: &Vec<u8>, vlo: usize, vhi: usize) -> (r: Option<Os>)
    requires
        vlo <= vhi <= s@.len(),
    ensures
        r == os_of_name(s@.subrange(vlo as int, vhi as int)),
{
    let ghost sub = s@.subrange(vlo as int, vhi as int);
    let vlen = vhi - vlo;
    if vlen == 7 && s[vlo] == 0x61 && s[vlo + 1] == 0x6e && s[vlo + 2] == 0x64 && s[vlo + 3] == 0x72 && s[vlo + 4] == 0x6f && s[vlo + 5] == 0x69 && s[vlo + 6] == 0x64 {
        proof { assert(sub =~= os_name(Os::Android)); }
        return Some(Os::Android);
    }
    if vlen == 7 && s[vlo] == 0x66 && s[vlo + 1] == 0x72 && s[vlo + 2] == 0x65 && s[vlo + 3] == 0x65 && s[vlo + 4] == 0x62 && s[vlo + 5] == 0x73 && s[vlo + 6] == 0x64 {
        proof { assert(sub =~= os_name(Os::FreeBsd)); }
        return Some(Os::FreeBsd);
    }
    if vlen == 7 && s[vlo] == 0x66 && s[vlo + 1] == 0x75 && s[vlo + 2] == 0x63 && s[vlo + 3] == 0x68 && s[vlo + 4] == 0x73 && s[vlo + 5] == 0x69 && s[vlo + 6] == 0x61 {
        proof { assert(sub =~= os_name(Os::Fuchsia)); }
        return Some(Os::Fuchsia);
    }
    if vlen == 3 && s[vlo] == 0x69 && s[vlo + 1] == 0x6f && s[vlo + 2] == 0x73 {
        proof { assert(sub =~= os_name(Os::Ios)); }
        return Some(Os::Ios);
    }
    if vlen == 5 && s[vlo] == 0x6c && s[vlo + 1] == 0x69 && s[vlo + 2] == 0x6e && s[vlo + 3] == 0x75 && s[vlo + 4] == 0x78 {
        proof { assert(sub =~= os_name(Os::Linux)); }
        return Some(Os::Linux);
    }
    if vlen == 5 && s[vlo] == 0x6d && s[vlo + 1] == 0x61 && s[vlo + 2] == 0x63 && s[vlo + 3] == 0x6f && s[vlo + 4] == 0x73 {
        proof { assert(sub =~= os_name(Os::MacOs)); }
        return Some(Os::MacOs);
    }
    if vlen == 6 && s[vlo] == 0x6e && s[vlo + 1] == 0x65 && s[vlo + 2] == 0x74 && s[vlo + 3] == 0x62 && s[vlo + 4] == 0x73 && s[vlo + 5] == 0x64 {
        proof { assert(sub =~= os_name(Os::NetBsd)); }
        return Some(Os::NetBsd);
    }
    if vlen == 7 && s[vlo] == 0x6f && s[vlo + 1] == 0x70 && s[vlo + 2] == 0x65 && s[vlo + 3] == 0x6e && s[vlo + 4] == 0x62 && s[vlo + 5] == 0x73 && s[vlo + 6] == 0x64 {
        proof { assert(sub =~= os_name(Os::OpenBsd)); }
        return Some(Os::OpenBsd);
    }
    if vlen == 5 && s[vlo] == 0x72 && s[vlo + 1] == 0x65 && s[vlo + 2] == 0x64 && s[vlo + 3] == 0x6f && s[vlo + 4] == 0x78 {
        proof { assert(sub =~= os_name(Os::Redox)); }
        return Some(Os::Redox);
    }
    if vlen == 7 && s[vlo] == 0x77 && s[vlo + 1] == 0x69 && s[vlo + 2] == 0x6e && s[vlo + 3] == 0x64 && s[vlo + 4] == 0x6f && s[vlo + 5] == 0x77 && s[vlo + 6] == 0x73 {
        proof { assert(sub =~= os_name(Os::Windows)); }
        return Some(Os::Windows);
    }
    proof {
        assert(sub != os_name(Os::Android)) by {
            if sub.len() == 7 {
                assert(sub[0] == s@[vlo as int]);
                assert(sub[1] == s@[vlo + 1]);
                assert(sub[2] == s@[vlo + 2]);
                assert(sub[3] == s@[vlo + 3]);
                assert(sub[4] == s@[vlo + 4]);
                assert(sub[5] == s@[vlo + 5]);
                assert(sub[6] == s@[vlo + 6]);
            }
        }
        assert(sub != os_name(Os::FreeBsd)) by {
            if sub.len() == 7 {
                assert(sub[0] == s@[vlo as int]);
                assert(sub[1] == s@[vlo + 1]);
                assert(sub[2] == s@[vlo + 2]);
                assert(sub[3] == s@[vlo + 3]);
                assert(sub[4] == s@[vlo + 4]);
                assert(sub[5] == s@[vlo + 5]);
                assert(sub[6] == s@[vlo + 6]);
            }
        }
        assert(sub != os_name(Os::Fuchsia)) by {
            if sub.len() == 7 {
                assert(sub[0] == s@[vlo as int]);
                assert(sub[1] == s@[vlo + 1]);
                assert(sub[2] == s@[vlo + 2]);
                assert(sub[3] == s@[vlo + 3]);
                assert(sub[4] == s@[vlo + 4]);
                assert(sub[5] == s@[vlo + 5]);
                assert(sub[6] == s@[vlo + 6]);
            }
        }
        assert(sub != os_name(Os::Ios)) by {
            if sub.len() == 3 {
                assert(sub[0] == s@[vlo as int]);
                assert(sub[1] == s@[vlo + 1]);
                assert(sub[2] == s@[vlo + 2]);
            }
        }
        assert(sub != os_name(Os::Linux)) by {
            if sub.len() == 5 {
                assert(sub[0] == s@[vlo as int]);
                assert(sub[1] == s@[vlo + 1]);
                assert(sub[2] == s@[vlo + 2]);
                assert(sub[3] == s@[vlo + 3]);
                assert(sub[4] == s@[vlo + 4]);
            }
        }
        assert(sub != os_name(Os::MacOs)) by {
            if sub.len() == 5 {
                assert(sub[0] == s@[vlo as int]);
                assert(sub[1] == s@[vlo + 1]);
                assert(sub[2] == s@[vlo + 2]);
                assert(sub[3] == s@[vlo + 3]);
                assert(sub[4] == s@[vlo + 4]);
            }
        }
        assert(sub != os_name(Os::NetBsd)) by {
            if sub.len() == 6 {
                assert(sub[0] == s@[vlo as int]);
                assert(sub[1] == s@[vlo + 1]);
                assert(sub[2] == s@[vlo + 2]);
                assert(sub[3] == s@[vlo + 3]);
                assert(sub[4] == s@[vlo + 4]);
                assert(sub[5] == s@[vlo + 5]);
            }
        }
        assert(sub != os_name(Os::OpenBsd)) by {
            if sub.len() == 7 {
                assert(sub[0] == s@[vlo as int]);
                assert(sub[1] == s@[vlo + 1]);
                assert(sub[2] == s@[vlo + 2]);
                assert(sub[3] == s@[vlo + 3]);
                assert(sub[4] == s@[vlo + 4]);
                assert(sub[5] == s@[vlo + 5]);
                assert(sub[6] == s@[vlo + 6]);
            }
        }
        assert(sub != os_name(Os::Redox)) by {
            if sub.len() == 5 {
                assert(sub[0] == s@[vlo as int]);
                assert(sub[1] == s@[vlo + 1]);
                assert(sub[2] == s@[vlo + 2]);
                assert(sub[3] == s@[vlo + 3]);
                assert(sub[4] == s@[vlo + 4]);
            }
        }
        assert(sub != os_name(Os::Windows)) by {
            if sub.len() == 7 {
                assert(sub[0] == s@[vlo as int]);
                assert(sub[1] == s@[vlo + 1]);
                assert(sub[2] == s@[vlo + 2]);
                assert(sub[3] == s@[vlo + 3]);
                assert(sub[4] == s@[vlo + 4]);
                assert(sub[5] == s@[vlo + 5]);
                assert(sub[6] == s@[vlo + 6]);
            }
        }
    }
    None
}

pub open spec fn severity_name(x: Severity) -> Seq<u8> {
    match x {
        Severity::Low => seq![0x6cu8, 0x6fu8, 0x77u8],
        Severity::Medium => seq![0x6du8, 0x65u8, 0x64u8, 0x69u8, 0x75u8, 0x6du8],
        Severity::High => seq![0x68u8, 0x69u8, 0x67u8, 0x68u8],
        Severity::Critical => seq![0x63u8, 0x72u8, 0x69u8, 0x74u8, 0x69u8, 0x63u8, 0x61u8, 0x6cu8],
    }
}

pub open spec fn severity_of_name(s: Seq<u8>) -> Option<Severity> {
    if s == severity_name(Severity::Low) {
        Some(Severity::Low)
    } else if s == severity_name(Severity::Medium) {
        Some(Severity::Medium)
    } else if s == severity_name(Severity::High) {
        Some(Severity::High)
    } else if s == severity_name(Severity::Critical) {
        Some(Severity::Critical)
    } else {
        None
    }
}

/// Parses `s[vlo..vhi]` as a severity name.
pub fn severity_of(s: &Vec<u8>, vlo: usize, vhi: usize) -> (r: Option<Severity>)
    requires
        vlo <= vhi <= s@.len(),
    ensures
        r == severity_of_name(s@.subrange(vlo as int, vhi as int)),
{
    let ghost sub = s@.subrange(vlo as int, vhi as int);
    let vlen = vhi - vlo;
    if vlen == 3 && s[vlo] == 0x6c && s[vlo + 1] == 0x6f && s[vlo + 2] == 0x77 {
        proof { assert(sub =~= severity_name(Severity::Low)); }
        return Some(Severity::Low);
    }
    if vlen == 6 && s[vlo] == 0x6d && s[vlo + 1] == 0x65 && s[vlo + 2] == 0x64 && s[vlo + 3] == 0x69 && s[vlo + 4] == 0x75 && s[vlo + 5] == 0x6d {
        proof { assert(sub =~= severity_name(Severity::Medium)); }
        return Some(Severity::Medium);
    }
    if vlen == 4 && s[vlo] == 0x68 && s[vlo + 1] == 0x69 && s[vlo + 2] == 0x67 && s[vlo + 3] == 0x68 {
        proof { assert(sub =~= severity_name(Severity::High)); }
        return Some(Severity::High);
    }
    if vlen == 8 && s[vlo] == 0x63 && s[vlo + 1] == 0x72 && s[vlo + 2] == 0x69 && s[vlo + 3] == 0x74 && s[vlo + 4] == 0x69 && s[vlo + 5] == 0x63 && s[vlo + 6] == 0x61 && s[vlo + 7] == 0x6c {
        proof { assert(sub =~= severity_name(Severity::Critical)); }
        return Some(Severity::Critical);
    }
    proof {
        assert(sub != severity_name(Severity::Low)) by {
            if sub.len() == 3 {
                assert(sub[0] == s@[vlo as int]);
                assert(sub[1] == s@[vlo + 1]);
                assert(sub[2] == s@[vlo + 2]);
            }
        }
        assert(sub != severity_name(Severity::Medium)) by {
            if sub.len() == 6 {
                assert(sub[0] == s@[vlo as int]);
                assert(sub[1] == s@[vlo + 1]);
                assert(sub[2] == s@[vlo + 2]);
                assert(sub[3] == s@[vlo + 3]);
                assert(sub[4] == s@[vlo + 4]);
                assert(sub[5] == s@[vlo + 5]);
            }
        }
        assert(sub != severity_name(Severity::High)) by {
            if sub.len() == 4 {
                assert(sub[0] == s@[vlo as int]);
                assert(sub[1] == s@[vlo + 1]);
                assert(sub[2] == s@[vlo + 2]);
                assert(sub[3] == s@[vlo + 3]);
            }
        }
        assert(sub != severity_name(Severity::Critical)) by {
            if sub.len() == 8 {
                assert(sub[0] == s@[vlo as int]);
                assert(sub[1] == s@[vlo + 1]);
                assert(sub[2] == s@[vlo + 2]);
                assert(sub[3] == s@[vlo + 3]);
                assert(sub[4] == s@[vlo + 4]);
                assert(sub[5] == s@[vlo + 5]);
                assert(sub[6] == s@[vlo + 6]);
                assert(sub[7] == s@[vlo + 7]);
            }
        }
    }
    None
}

pub open spec fn category_name(x: Category) -> Seq<u8> {
    match x {
        Category::Vulnerability => seq![0x76u8, 0x75u8, 0x6cu8, 0x6eu8, 0x65u8, 0x72u8, 0x61u8, 0x62u8, 0x69u8, 0x6cu8, 0x69u8, 0x74u8, 0x79u8],
        Category::Unmaintained => seq![0x75u8, 0x6eu8, 0x6du8, 0x61u8, 0x69u8, 0x6eu8, 0x74u8, 0x61u8, 0x69u8, 0x6eu8, 0x65u8, 0x64u8],
        Category::Notice => seq![0x6eu8, 0x6fu8, 0x74u8, 0x69u8, 0x63u8, 0x65u8],
    }
}

pub open spec fn category_of_name(s: Seq<u8>) -> Option<Category> {
    if s == category_name(Category::Vulnerability) {
        Some(Category::Vulnerability)
    } else if s == category_name(Category::Unmaintained) {
        Some(Category::Unmaintained)
    } else if s == category_name(Category::Notice) {
        Some(Category::Notice)
    } else {
        None
    }
}

/// Parses `s[vlo..vhi]` as a category name.
pub fn category_of(s: &Vec<u8>, vlo: usize, vhi: usize) -> (r: Option<Category>)
    requires
        vlo <= vhi <= s@.len(),
    ensures
        r == category_of_name(s@.subrange(vlo as int, vhi as int)),
{
    let ghost sub = s@.subrange(vlo as int, vhi as int);
    let vlen = vhi - vlo;
    if vlen == 13 && s[vlo] == 0x76 && s[vlo + 1] == 0x75 && s[vlo + 2] == 0x6c && s[vlo + 3] == 0x6e && s[vlo + 4] == 0x65 && s[vlo + 5] == 0x72 && s[vlo + 6] == 0x61 && s[vlo + 7] == 0x62 && s[vlo + 8] == 0x69 && s[vlo + 9] == 0x6c && s[vlo + 10] == 0x69 && s[vlo + 11] == 0x74 && s[vlo + 12] == 0x79 {
        proof { assert(sub =~= category_name(Category::Vulnerability)); }
        return Some(Category::Vulnerability);
    }
    if vlen == 12 && s[vlo] == 0x75 && s[vlo + 1] == 0x6e && s[vlo + 2] == 0x6d && s[vlo + 3] == 0x61 && s[vlo + 4] == 0x69 && s[vlo + 5] == 0x6e && s[vlo + 6] == 0x74 && s[vlo + 7] == 0x61 && s[vlo + 8] == 0x69 && s[vlo + 9] == 0x6e && s[vlo + 10] == 0x65 && s[vlo + 11] == 0x64 {
        proof { assert(sub =~= category_name(Category::Unmaintained)); }
        return Some(Category::Unmaintained);
    }
    if vlen == 6 && s[vlo] == 0x6e && s[vlo + 1] == 0x6f && s[vlo + 2] == 0x74 && s[vlo + 3] == 0x69 && s[vlo + 4] == 0x63 && s[vlo + 5] == 0x65 {
        proof { assert(sub =~= category_name(Category::Notice)); }
        return Some(Category::Notice);
    }
    proof {
        assert(sub != category_name(Category::Vulnerability)) by {
            if sub.len() == 13 {
                assert(sub[0] == s@[vlo as int]);
                assert(sub[1] == s@[vlo + 1]);
                assert(sub[2] == s@[vlo + 2]);
                assert(sub[3] == s@[vlo + 3]);
                assert(sub[4] == s@[vlo + 4]);
                assert(sub[5] == s@[vlo + 5]);
                assert(sub[6] == s@[vlo + 6]);
                assert(sub[7] == s@[vlo + 7]);
                assert(sub[8] == s@[vlo + 8]);
                assert(sub[9] == s@[vlo + 9]);
                assert(sub[10] == s@[vlo + 10]);
                assert(sub[11] == s@[vlo + 11]);
                assert(sub[12] == s@[vlo + 12]);
            }
        }
        assert(sub != category_name(Category::Unmaintained)) by {
            if sub.len() == 12 {
                assert(sub[0] == s@[vlo as int]);
                assert(sub[1] == s@[vlo + 1]);
                assert(sub[2] == s@[vlo + 2]);
                assert(sub[3] == s@[vlo + 3]);
                assert(sub[4] == s@[vlo + 4]);
                assert(sub[5] == s@[vlo + 5]);
                assert(sub[6] == s@[vlo + 6]);
                assert(sub[7] == s@[vlo + 7]);
                assert(sub[8] == s@[vlo + 8]);
                assert(sub[9] == s@[vlo + 9]);
                assert(sub[10] == s@[vlo + 10]);
                assert(sub[11] == s@[vlo + 11]);
            }
        }
        assert(sub != category_name(Category::Notice)) by {
            if sub.len() == 6 {
                assert(sub[0] == s@[vlo as int]);
                assert(sub[1] == s@[vlo + 1]);
                assert(sub[2] == s@[vlo + 2]);
                assert(sub[3] == s@[vlo + 3]);
                assert(sub[4] == s@[vlo + 4]);
                assert(sub[5] == s@[vlo + 5]);
            }
        }
    }
    None
}

/// One version bound: a relational operator followed by a version.
pub open spec fn parse_comparator_spec(s: Seq<u8>) -> Option<ComparatorView> {
    if s.len() == 0 {
        None
    } else if s[0] == 0x3e && s.len() >= 2 && s[1] == 0x3d {
        match parse_version_spec(s.skip(2)) {
            Some(v) => Some(ComparatorView { op: BoundOp::GreaterEq, version: v }),
            None => None,
        }
    } else if s[0] == 0x3e {
        match parse_version_spec(s.skip(1)) {
            Some(v) => Some(ComparatorView { op: BoundOp::Greater, version: v }),
            None => None,
        }
    } else if s[0] == 0x3c && s.len() >= 2 && s[1] == 0x3d {
        match parse_version_spec(s.skip(2)) {
            Some(v) => Some(ComparatorView { op: BoundOp::LessEq, version: v }),
            None => None,
        }
    } else if s[0] == 0x3c {
        match parse_version_spec(s.skip(1)) {
            Some(v) => Some(ComparatorView { op: BoundOp::Less, version: v }),
            None => None,
        }
    } else if s[0] == 0x3d {
        match parse_version_spec(s.skip(1)) {
            Some(v) => Some(ComparatorView { op: BoundOp::Exact, version: v }),
            None => None,
        }
    } else {
        None
    }
}

/// A comma-separated conjunction of version bounds.
pub open spec fn parse_clause_spec(s: Seq<u8>) -> Option<Seq<ComparatorView>>
    decreases s.len(),
{
    match find_spec(s, 0x2c) {
        None => match parse_comparator_spec(s) {
            Some(c) => Some(seq![c]),
            None => None,
        },
        Some(j) => if 0 <= j < s.len() {
            match parse_comparator_spec(s.take(j)) {
                Some(c) => match parse_clause_spec(s.skip(j + 1)) {
                    Some(rest) => Some(seq![c] + rest),
                    None => None,
                },
                None => None,
            }
        } else {
            None
        },
    }
}

/// A date: `year-month-day`, each numeric, with month and day in range.
pub open spec fn parse_date_spec(s: Seq<u8>) -> Option<Date> {
    match find_spec(s, 0x2d) {
        None => None,
        Some(j1) => match find_spec(s.skip(j1 + 1), 0x2d) {
            None => None,
            Some(j2) => match (
                parse_num_spec(s.take(j1)),
                parse_num_spec(s.skip(j1 + 1).take(j2)),
                parse_num_spec(s.skip(j1 + 1).skip(j2 + 1)),
            ) {
                (Some(y), Some(m), Some(d)) => if 1 <= m <= 12 && 1 <= d <= 31 {
                    Some(Date { year: y as u64, month: m as u64, day: d as u64 })
                } else {
                    None
                },
                _ => None,
            },
        },
    }
}

/// A comma-separated list of architecture names.
pub open spec fn parse_arch_list_spec(s: Seq<u8>) -> Option<Seq<Arch>>
    decreases s.len(),
{
    match find_spec(s, 0x2c) {
        None => match arch_of_name(s) {
            Some(a) => Some(seq![a]),
            None => None,
        },
        Some(j) => if 0 <= j < s.len() {
            match arch_of_name(s.take(j)) {
                Some(a) => match parse_arch_list_spec(s.skip(j + 1)) {
                    Some(rest) => Some(seq![a] + rest),
                    None => None,
                },
                None => None,
            }
        } else {
            None
        },
    }
}

/// A comma-separated list of operating-system names.
pub open spec fn parse_os_list_spec(s: Seq<u8>) -> Option<Seq<Os>>
    decreases s.len(),
{
    match find_spec(s, 0x2c) {
        None => match os_of_name(s) {
            Some(a) => Some(seq![a]),
            None => None,
        },
        Some(j) => if 0 <= j < s.len() {
            match os_of_name(s.take(j)) {
                Some(a) => match parse_os_list_spec(s.skip(j + 1)) {
                    Some(rest) => Some(seq![a] + rest),
                    None => None,
                },
                None => None,
            }
        } else {
            None
        },
    }
}

pub open spec fn comps_view(s: Seq<Comparator>) -> Seq<ComparatorView> {
    s.map_values(|c: Comparator| c@)
}

/// Parses `s[lo..hi]` as one version bound.
fn parse_comparator(s: &Vec<u8>, lo: usize, hi: usize) -> (r: Option<Comparator>)
    requires
        lo <= hi <= s@.len(),
    ensures
        match r {
            Some(c) => parse_comparator_spec(s@.subrange(lo as int, hi as int)) == Some(c@),
            None => parse_comparator_spec(s@.subrange(lo as int, hi as int)) is None,
        },
{
    let ghost sub = s@.subrange(lo as int, hi as int);
    if lo == hi {
        return None;
    }
    proof {
        assert(sub[0] == s@[lo as int]);
        if hi - lo >= 2 {
            assert(sub[1] == s@[lo + 1]);
        }
        assert(sub.skip(1) =~= s@.subrange(lo + 1, hi as int));
        if hi - lo >= 2 {
            assert(sub.skip(2) =~= s@.subrange(lo + 2, hi as int));
        }
    }
    let b0 = s[lo];
    let two = hi - lo >= 2 && s[lo + 1] == 0x3d;
    if b0 == 0x3e && two {
        match parse_version(s, lo + 2, hi) {
            Some(v) => Some(Comparator { op: BoundOp::GreaterEq, version: v }),
            None => None,
        }
    } else if b0 == 0x3e {
        match parse_version(s, lo + 1, hi) {
            Some(v) => Some(Comparator { op: BoundOp::Greater, version: v }),
            None => None,
        }
    } else if b0 == 0x3c && two {
        match parse_version(s, lo + 2, hi) {
            Some(v) => Some(Comparator { op: BoundOp::LessEq, version: v }),
            None => None,
        }
    } else if b0 == 0x3c {
        match parse_version(s, lo + 1, hi) {
            Some(v) => Some(Comparator { op: BoundOp::Less, version: v }),
            None => None,
        }
    } else if b0 == 0x3d {
        match parse_version(s, lo + 1, hi) {
            Some(v) => Some(Comparator { op: BoundOp::Exact, version: v }),
            None => None,
        }
    } else {
        None
    }
}

/// Parses `s[lo..hi]` as a clause.
fn parse_clause_rec(s: &Vec<u8>, lo: usize, hi: usize) -> (r: Option<Vec<Comparator>>)
    requires
        lo <= hi <= s@.len(),
    ensures
        match r {
            Some(cs) => parse_clause_spec(s@.subrange(lo as int, hi as int)) == Some(
                comps_view(cs@),
            ),
            None => parse_clause_spec(s@.subrange(lo as int, hi as int)) is None,
        },
    decreases hi - lo,
{
    let ghost sub = s@.subrange(lo as int, hi as int);
    let comma = find_byte(s, lo, hi, 0x2c);
    proof {
        lemma_find_in_subrange(s@, lo as int, hi as int, 0x2c, comma);
    }
    match comma {
        None => {
            match parse_comparator(s, lo, hi) {
                Some(c) => {
                    let ghost cv = c@;
                    let mut out: Vec<Comparator> = Vec::new();
                    out.push(c);
                    proof {
                        assert(comps_view(out@) =~= seq![cv]);
                    }
                    Some(out)
                },
                None => None,
            }
        },
        Some(j) => {
            proof {
                assert(sub.take(j - lo) =~= s@.subrange(lo as int, j as int));
                assert(sub.skip(j - lo + 1) =~= s@.subrange(j + 1, hi as int));
            }
            match parse_comparator(s, lo, j) {
                Some(c) => {
                    match parse_clause_rec(s, j + 1, hi) {
                        Some(rest) => {
                            let ghost cv = c@;
                            let ghost rv = comps_view(rest@);
                            let mut out = rest;
                            out.insert(0, c);
                            proof {
                                assert(comps_view(out@) =~= seq![cv] + rv);
                            }
                            Some(out)
                        },
                        None => None,
                    }
                },
                None => None,
            }
        },
    }
}

/// Parses `s[lo..hi]` as a clause of the affected range.
pub fn parse_clause(s: &Vec<u8>, lo: usize, hi: usize) -> (r: Option<Clause>)
    requires
        lo <= hi <= s@.len(),
    ensures
        match r {
            Some(c) => parse_clause_spec(s@.subrange(lo as int, hi as int)) == Some(c@),
            None => parse_clause_spec(s@.subrange(lo as int, hi as int)) is None,
        },
{
    match parse_clause_rec(s, lo, hi) {
        Some(cs) => Some(Clause { comparators: cs }),
        None => None,
    }
}

/// Parses `s[lo..hi]` as a date.
pub fn parse_date(s: &Vec<u8>, lo: usize, hi: usize) -> (r: Option<Date>)
    requires
        lo <= hi <= s@.len(),
    ensures
        r == parse_date_spec(s@.subrange(lo as int, hi as int)),
{
    let ghost sub = s@.subrange(lo as int, hi as int);
    let d1 = find_byte(s, lo, hi, 0x2d);
    proof {
        lemma_find_in_subrange(s@, lo as int, hi as int, 0x2d, d1);
    }
    match d1 {
        None => None,
        Some(j1) => {
            proof {
                assert(sub.take(j1 - lo) =~= s@.subrange(lo as int, j1 as int));
                assert(sub.skip(j1 - lo + 1) =~= s@.subrange(j1 + 1, hi as int));
            }
            let d2 = find_byte(s, j1 + 1, hi, 0x2d);
            proof {
                lemma_find_in_subrange(s@, j1 + 1, hi as int, 0x2d, d2);
            }
            match d2 {
                None => None,
                Some(j2) => {
                    let ghost tail = sub.skip(j1 - lo + 1);
                    proof {
                        assert(tail.take(j2 - (j1 + 1)) =~= s@.subrange(j1 + 1, j2 as int));
                        assert(tail.skip(j2 - (j1 + 1) + 1) =~= s@.subrange(j2 + 1, hi as int));
                    }
                    let y = parse_num(s, lo, j1);
                    let m = parse_num(s, j1 + 1, j2);
                    let d = parse_num(s, j2 + 1, hi);
                    match (y, m, d) {
                        (Some(y), Some(m), Some(d)) => {
                            if 1 <= m && m <= 12 && 1 <= d && d <= 31 {
                                Some(Date { year: y, month: m, day: d })
                            } else {
                                None
                            }
                        },
                        _ => None,
                    }
                },
            }
        },
    }
}

/// Parses `s[lo..hi]` as an architecture list.
fn parse_arch_list(s: &Vec<u8>, lo: usize, hi: usize) -> (r: Option<Vec<Arch>>)
    requires
        lo <= hi <= s@.len(),
    ensures
        match r {
            Some(xs) => parse_arch_list_spec(s@.subrange(lo as int, hi as int)) == Some(xs@),
            None => parse_arch_list_spec(s@.subrange(lo as int, hi as int)) is None,
        },
    decreases hi - lo,
{
    let ghost sub = s@.subrange(lo as int, hi as int);
    let comma = find_byte(s, lo, hi, 0x2c);
    proof {
        lemma_find_in_subrange(s@, lo as int, hi as int, 0x2c, comma);
    }
    match comma {
        None => {
            match arch_of(s, lo, hi) {
                Some(a) => {
                    let mut out: Vec<Arch> = Vec::new();
                    out.push(a);
                    proof {
                        assert(out@ =~= seq![a]);
                    }
                    Some(out)
                },
                None => None,
            }
        },
        Some(j) => {
            proof {
                assert(sub.take(j - lo) =~= s@.subrange(lo as int, j as int));
                assert(sub.skip(j - lo + 1) =~= s@.subrange(j + 1, hi as int));
            }
            match arch_of(s, lo, j) {
                Some(a) => {
                    match parse_arch_list(s, j + 1, hi) {
                        Some(rest) => {
                            let ghost rv = rest@;
                            let mut out = rest;
                            out.insert(0, a);
                            proof {
                                assert(out@ =~= seq![a] + rv);
                            }
                            Some(out)
                        },
                        None => None,
                    }
                },
                None => None,
            }
        },
    }
}

/// Parses `s[lo..hi]` as an operating-system list.
fn parse_os_list(s: &Vec<u8>, lo: usize, hi: usize) -> (r: Option<Vec<Os>>)
    requires
        lo <= hi <= s@.len(),
    ensures
        match r {
            Some(xs) => parse_os_list_spec(s@.subrange(lo as int, hi as int)) == Some(xs@),
            None => parse_os_list_spec(s@.subrange(lo as int, hi as int)) is None,
        },
    decreases hi - lo,
{
    let ghost sub = s@.subrange(lo as int, hi as int);
    let comma = find_byte(s, lo, hi, 0x2c);
    proof {
        lemma_find_in_subrange(s@, lo as int, hi as int, 0x2c, comma);
    }
    match comma {
        None => {
            match os_of(s, lo, hi) {
                Some(a) => {
                    let mut out: Vec<Os> = Vec::new();
                    out.push(a);
                    proof {
                        assert(out@ =~= seq![a]);
                    }
                    Some(out)
                },
                None => None,
            }
        },
        Some(j) => {
            proof {
                assert(sub.take(j - lo) =~= s@.subrange(lo as int, j as int));
                assert(sub.skip(j - lo + 1) =~= s@.subrange(j + 1, hi as int));
            }
            match os_of(s, lo, j) {
                Some(a) => {
                    match parse_os_list(s, j + 1, hi) {
                        Some(rest) => {
                            let ghost rv = rest@;
                            let mut out = rest;
                            out.insert(0, a);
                            proof {
                                assert(out@ =~= seq![a] + rv);
                            }
                            Some(out)
                        },
                        None => None,
                    }
                },
                None => None,
            }
        },
    }
}

/// Whether `s[lo..hi]` is a nonempty run of identifier bytes.
pub fn check_ident_range(s: &Vec<u8>, lo: usize, hi: usize) -> (r: bool)
    requires
        lo <= hi <= s@.len(),
    ensures
        r == (s@.subrange(lo as int, hi as int).len() > 0 && all_ident_bytes(
            s@.subrange(lo as int, hi as int),
        )),
{
    let ghost sub = s@.subrange(lo as int, hi as int);
    if lo == hi {
        return false;
    }
    let mut i: usize = lo;
    while i < hi
        invariant
            lo <= i <= hi <= s@.len(),
            sub == s@.subrange(lo as int, hi as int),
            forall|k: int| 0 <= k < i - lo ==> is_ident_byte(#[trigger] sub[k]),
        decreases hi - i,
    {
        let b = s[i];
        let is_d = 0x30 <= b && b <= 0x39;
        let is_i = is_d || (0x41 <= b && b <= 0x5a) || (0x61 <= b && b <= 0x7a) || b == 0x2d;
        if !is_i {
            assert(!is_ident_byte(sub[i - lo]));
            return false;
        }
        i = i + 1;
    }
    true
}

/// Whether `s[lo..hi]` is a nonempty run of package-name bytes.
fn check_name_range(s: &Vec<u8>, lo: usize, hi: usize) -> (r: bool)
    requires
        lo <= hi <= s@.len(),
    ensures
        r == (s@.subrange(lo as int, hi as int).len() > 0 && all_name_bytes(
            s@.subrange(lo as int, hi as int),
        )),
{
    let ghost sub = s@.subrange(lo as int, hi as int);
    if lo == hi {
        return false;
    }
    let mut i: usize = lo;
    while i < hi
        invariant
            lo <= i <= hi <= s@.len(),
            sub == s@.subrange(lo as int, hi as int),
            forall|k: int| 0 <= k < i - lo ==> is_name_byte(#[trigger] sub[k]),
        decreases hi - i,
    {
        let b = s[i];
        let is_d = 0x30 <= b && b <= 0x39;
        let is_i = is_d || (0x41 <= b && b <= 0x5a) || (0x61 <= b && b <= 0x7a) || b == 0x2d;
        let is_n = is_i || b == 0x5f || b == 0x2e;
        if !is_n {
            assert(!is_name_byte(sub[i - lo]));
            return false;
        }
        i = i + 1;
    }
    true
}


/// Fields gathered while reading a record's lines.
#[derive(Debug)]
pub struct PartialAdvisory {
    pub id: Option<Vec<u8>>,
    pub package: Option<Vec<u8>>,
    pub affected: Vec<Clause>,
    pub unaffected: Vec<Clause>,
    pub aliases: Vec<Vec<u8>>,
    pub severity: Option<Severity>,
    pub date: Option<Date>,
    pub arch: Option<Vec<Arch>>,
    pub os: Option<Vec<Os>>,
    pub withdrawn: Option<Date>,
    pub category: Option<Category>,
}

#[verifier::ext_equal]
pub ghost struct PartialView {
    pub id: Option<Seq<u8>>,
    pub package: Option<Seq<u8>>,
    pub affected: Seq<Seq<ComparatorView>>,
    pub unaffected: Seq<Seq<ComparatorView>>,
    pub aliases: Seq<Seq<u8>>,
    pub severity: Option<Severity>,
    pub date: Option<Date>,
    pub arch: Option<Seq<Arch>>,
    pub os: Option<Seq<Os>>,
    pub withdrawn: Option<Date>,
    pub category: Option<Category>,
}

impl View for PartialAdvisory {
    type V = PartialView;

    open spec fn view(&self) -> PartialView {
        PartialView {
            id: match self.id {
                Some(v) => Some(v@),
                None => None,
            },
            package: match self.package {
                Some(v) => Some(v@),
                None => None,
            },
            affected: self.affected@.map_values(|c: Clause| c@),
            unaffected: self.unaffected@.map_values(|c: Clause| c@),
            aliases: self.aliases@.map_values(|a: Vec<u8>| a@),
            severity: self.severity,
            date: self.date,
            arch: match self.arch {
                Some(v) => Some(v@),
                None => None,
            },
            os: match self.os {
                Some(v) => Some(v@),
                None => None,
            },
            withdrawn: self.withdrawn,
            category: self.category,
        }
    }
}

pub open spec fn empty_partial() -> PartialView {
    PartialView {
        id: None,
        package: None,
        affected: Seq::empty(),
        unaffected: Seq::empty(),
        aliases: Seq::empty(),
        severity: None,
        date: None,
        arch: None,
        os: None,
        withdrawn: None,
        category: None,
    }
}

impl PartialAdvisory {
    pub fn new() -> (r: PartialAdvisory)
        ensures
            r@ == empty_partial(),
    {
        let r = PartialAdvisory {
            id: None,
            package: None,
            affected: Vec::new(),
            unaffected: Vec::new(),
            aliases: Vec::new(),
            severity: None,
            date: None,
            arch: None,
            os: None,
            withdrawn: None,
            category: None,
        };
        proof {
            assert(r@ =~= empty_partial());
        }
        r
    }
}

/// Folds one record line into the partial state: blank lines pass it
/// through; a `key value` line fills or extends the named field.
pub open spec fn apply_field_spec(p: PartialView, line: Seq<u8>) -> Option<PartialView> {
    if line.len() == 0 {
        Some(p)
    } else {
        match find_spec(line, 0x20) {
            None => None,
            Some(j) => if 0 <= j < line.len() {
                apply_keyed_spec(p, line.take(j), line.skip(j + 1))
            } else {
                None
            },
        }
    }
}

pub open spec fn apply_keyed_spec(p: PartialView, key: Seq<u8>, val: Seq<u8>) -> Option<
    PartialView,
> {
    if key == kw_id() {
        if p.id is None && val.len() > 0 && all_ident_bytes(val) {
            Some(PartialView { id: Some(val), ..p })
        } else {
            None
        }
    } else if key == kw_package() {
        if p.package is None && val.len() > 0 && all_name_bytes(val) {
            Some(PartialView { package: Some(val), ..p })
        } else {
            None
        }
    } else if key == kw_affected() {
        match parse_clause_spec(val) {
            Some(c) => Some(PartialView { affected: p.affected.push(c), ..p }),
            None => None,
        }
    } else if key == kw_unaffected() || key == kw_patched() {
        match parse_clause_spec(val) {
            Some(c) => Some(PartialView { unaffected: p.unaffected.push(c), ..p }),
            None => None,
        }
    } else if key == kw_alias() {
        if val.len() > 0 && all_ident_bytes(val) {
            Some(PartialView { aliases: p.aliases.push(val), ..p })
        } else {
            None
        }
    } else if key == kw_severity() {
        match severity_of_name(val) {
            Some(x) => if p.severity is None {
                Some(PartialView { severity: Some(x), ..p })
            } else {
                None
            },
            None => None,
        }
    } else if key == kw_date() {
        match parse_date_spec(val) {
            Some(x) => if p.date is None {
                Some(PartialView { date: Some(x), ..p })
            } else {
                None
            },
            None => None,
        }
    } else if key == kw_arch() {
        match parse_arch_list_spec(val) {
            Some(x) => if p.arch is None {
                Some(PartialView { arch: Some(x), ..p })
            } else {
                None
            },
            None => None,
        }
    } else if key == kw_os() {
        match parse_os_list_spec(val) {
            Some(x) => if p.os is None {
                Some(PartialView { os: Some(x), ..p })
            } else {
                None
            },
            None => None,
        }
    } else if key == kw_withdrawn() {
        match parse_date_spec(val) {
            Some(x) => if p.withdrawn is None {
                Some(PartialView { withdrawn: Some(x), ..p })
            } else {
                None
            },
            None => None,
        }
    } else if key == kw_category() {
        match category_of_name(val) {
            Some(x) => if p.category is None {
                Some(PartialView { category: Some(x), ..p })
            } else {
                None
            },
            None => None,
        }
    } else {
        None
    }
}

/// Folds every line of the record into the partial state.
pub open spec fn parse_record_lines_spec(p: PartialView, s: Seq<u8>) -> Option<PartialView>
    decreases s.len(),
{
    if s.len() == 0 {
        Some(p)
    } else {
        match find_spec(s, 0x0a) {
            None => apply_field_spec(p, s),
            Some(j) => if 0 <= j < s.len() {
                match apply_field_spec(p, s.take(j)) {
                    Some(p2) => parse_record_lines_spec(p2, s.skip(j + 1)),
                    None => None,
                }
            } else {
                None
            },
        }
    }
}

/// Assembles the record, or rejects it when a required field is missing or
/// no affected clause was given. The category defaults to a vulnerability.
pub open spec fn finish_record_spec(p: PartialView) -> Option<AdvisoryView> {
    match (p.id, p.package, p.date) {
        (Some(id), Some(package), Some(date)) => if p.affected.len() > 0 {
            Some(
                AdvisoryView {
                    id: id,
                    package: package,
                    affected: RangeView { affected: p.affected, unaffected: p.unaffected },
                    aliases: p.aliases,
                    severity: p.severity,
                    date: date,
                    arch_constraint: p.arch,
                    os_constraint: p.os,
                    withdrawn: p.withdrawn,
                    category: match p.category {
                        Some(c) => c,
                        None => Category::Vulnerability,
                    },
                },
            )
        } else {
            None
        },
        _ => None,
    }
}

/// The whole grammar of one raw record.
pub open spec fn parse_advisory_spec(s: Seq<u8>) -> Option<AdvisoryView> {
    match parse_record_lines_spec(empty_partial(), s) {
        Some(p) => finish_record_spec(p),
        None => None,
    }
}

/// Applies one `key value` line to the partial state.
#[verifier::rlimit(100)]
#[verifier::spinoff_prover]
fn apply_field(p: PartialAdvisory, s: &Vec<u8>, lo: usize, hi: usize) -> (r: Option<
    PartialAdvisory,
>)
    requires
        lo <= hi <= s@.len(),
    ensures
        match r {
            Some(p2) => apply_field_spec(p@, s@.subrange(lo as int, hi as int)) == Some(p2@),
            None => apply_field_spec(p@, s@.subrange(lo as int, hi as int)) is None,
        },
{
    let ghost line = s@.subrange(lo as int, hi as int);
    let ghost pv = p@;
    if lo == hi {
        return Some(p);
    }
    let sp = find_byte(s, lo, hi, 0x20);
    proof {
        lemma_find_in_subrange(s@, lo as int, hi as int, 0x20, sp);
    }
    let j = match sp {
        None => {
            return None;
        },
        Some(j) => j,
    };
    let ghost key = line.take(j - lo);
    let ghost val = line.skip(j - lo + 1);
    proof {
        assert(key =~= s@.subrange(lo as int, j as int));
        assert(val =~= s@.subrange(j + 1, hi as int));
        assert(forall|k: int| 0 <= k < key.len() ==> #[trigger] key[k] == s@[lo + k]);
    }
    let klen = j - lo;
    let vlo = j + 1;
    if klen == 2 && s[lo] == 0x69 && s[lo + 1] == 0x64 {
        proof {
            assert(key =~= kw_id());
        }
        if p.id.is_some() {
            return None;
        }
        if !check_ident_range(s, vlo, hi) {
            return None;
        }
        let mut p = p;
        p.id = Some(copy_range(s, vlo, hi));
        proof {
            assert(p@ =~= PartialView { id: Some(val), ..pv });
        }
        return Some(p);
    }
    if klen == 7 && s[lo] == 0x70 && s[lo + 1] == 0x61 && s[lo + 2] == 0x63 && s[lo + 3] == 0x6b
        && s[lo + 4] == 0x61 && s[lo + 5] == 0x67 && s[lo + 6] == 0x65 {
        proof {
            assert(key =~= kw_package());
        }
        if p.package.is_some() {
            return None;
        }
        if !check_name_range(s, vlo, hi) {
            return None;
        }
        let mut p = p;
        p.package = Some(copy_range(s, vlo, hi));
        proof {
            assert(p@ =~= PartialView { package: Some(val), ..pv });
        }
        return Some(p);
    }
    if klen == 8 && s[lo] == 0x61 && s[lo + 1] == 0x66 && s[lo + 2] == 0x66 && s[lo + 3] == 0x65
        && s[lo + 4] == 0x63 && s[lo + 5] == 0x74 && s[lo + 6] == 0x65 && s[lo + 7] == 0x64 {
        proof {
            assert(key =~= kw_affected());
        }
        match parse_clause(s, vlo, hi) {
            Some(c) => {
                let ghost cv = c@;
                let mut p = p;
                p.affected.push(c);
                proof {
                    assert(p@ =~= PartialView { affected: pv.affected.push(cv), ..pv });
                }
                return Some(p);
            },
            None => {
                return None;
            },
        }
    }
    if klen == 10 && s[lo] == 0x75 && s[lo + 1] == 0x6e && s[lo + 2] == 0x61 && s[lo + 3] == 0x66
        && s[lo + 4] == 0x66 && s[lo + 5] == 0x65 && s[lo + 6] == 0x63 && s[lo + 7] == 0x74
        && s[lo + 8] == 0x65 && s[lo + 9] == 0x64 {
        proof {
            assert(key =~= kw_unaffected());
        }
        match parse_clause(s, vlo, hi) {
            Some(c) => {
                let ghost cv = c@;
                let mut p = p;
                p.unaffected.push(c);
                proof {
                    assert(p@ =~= PartialView { unaffected: pv.unaffected.push(cv), ..pv });
                }
                return Some(p);
            },
            None => {
                return None;
            },
        }
    }
    if klen == 7 && s[lo] == 0x70 && s[lo + 1] == 0x61 && s[lo + 2] == 0x74 && s[lo + 3] == 0x63
        && s[lo + 4] == 0x68 && s[lo + 5] == 0x65 && s[lo + 6] == 0x64 {
        proof {
            assert(key =~= kw_patched());
        }
        match parse_clause(s, vlo, hi) {
            Some(c) => {
                let ghost cv = c@;
                let mut p = p;
                p.unaffected.push(c);
                proof {
                    assert(p@ =~= PartialView { unaffected: pv.unaffected.push(cv), ..pv });
                }
                return Some(p);
            },
            None => {
                return None;
            },
        }
    }
    if klen == 5 && s[lo] == 0x61 && s[lo + 1] == 0x6c && s[lo + 2] == 0x69 && s[lo + 3] == 0x61
        && s[lo + 4] == 0x73 {
        proof {
            assert(key =~= kw_alias());
        }
        if !check_ident_range(s, vlo, hi) {
            return None;
        }
        let mut p = p;
        p.aliases.push(copy_range(s, vlo, hi));
        proof {
            assert(p@ =~= PartialView { aliases: pv.aliases.push(val), ..pv });
        }
        return Some(p);
    }
    if klen == 8 && s[lo] == 0x73 && s[lo + 1] == 0x65 && s[lo + 2] == 0x76 && s[lo + 3] == 0x65
        && s[lo + 4] == 0x72 && s[lo + 5] == 0x69 && s[lo + 6] == 0x74 && s[lo + 7] == 0x79 {
        proof {
            assert(key =~= kw_severity());
        }
        match severity_of(s, vlo, hi) {
            Some(x) => {
                if p.severity.is_some() {
                    return None;
                }
                let mut p = p;
                p.severity = Some(x);
                proof {
                    assert(p@ =~= PartialView { severity: Some(x), ..pv });
                }
                return Some(p);
            },
            None => {
                return None;
            },
        }
    }
    if klen == 4 && s[lo] == 0x64 && s[lo + 1] == 0x61 && s[lo + 2] == 0x74 && s[lo + 3] == 0x65 {
        proof {
            assert(key =~= kw_date());
        }
        match parse_date(s, vlo, hi) {
            Some(x) => {
                if p.date.is_some() {
                    return None;
                }
                let mut p = p;
                p.date = Some(x);
                proof {
                    assert(p@ =~= PartialView { date: Some(x), ..pv });
                }
                return Some(p);
            },
            None => {
                return None;
            },
        }
    }
    if klen == 4 && s[lo] == 0x61 && s[lo + 1] == 0x72 && s[lo + 2] == 0x63 && s[lo + 3] == 0x68 {
        proof {
            assert(key =~= kw_arch());
        }
        match parse_arch_list(s, vlo, hi) {
            Some(x) => {
                if p.arch.is_some() {
                    return None;
                }
                let ghost xv = x@;
                let mut p = p;
                p.arch = Some(x);
                proof {
                    assert(p@ =~= PartialView { arch: Some(xv), ..pv });
                }
                return Some(p);
            },
            None => {
                return None;
            },
        }
    }
    if klen == 2 && s[lo] == 0x6f && s[lo + 1] == 0x73 {
        proof {
            assert(key =~= kw_os());
        }
        match parse_os_list(s, vlo, hi) {
            Some(x) => {
                if p.os.is_some() {
                    return None;
                }
                let ghost xv = x@;
                let mut p = p;
                p.os = Some(x);
                proof {
                    assert(p@ =~= PartialView { os: Some(xv), ..pv });
                }
                return Some(p);
            },
            None => {
                return None;
            },
        }
    }
    if klen == 9 && s[lo] == 0x77 && s[lo + 1] == 0x69 && s[lo + 2] == 0x74 && s[lo + 3] == 0x68
        && s[lo + 4] == 0x64 && s[lo + 5] == 0x72 && s[lo + 6] == 0x61 && s[lo + 7] == 0x77
        && s[lo + 8] == 0x6e {
        proof {
            assert(key =~= kw_withdrawn());
        }
        match parse_date(s, vlo, hi) {
            Some(x) => {
                if p.withdrawn.is_some() {
                    return None;
                }
                let mut p = p;
                p.withdrawn = Some(x);
                proof {
                    assert(p@ =~= PartialView { withdrawn: Some(x), ..pv });
                }
                return Some(p);
            },
            None => {
                return None;
            },
        }
    }
    if klen == 8 && s[lo] == 0x63 && s[lo + 1] == 0x61 && s[lo + 2] == 0x74 && s[lo + 3] == 0x65
        && s[lo + 4] == 0x67 && s[lo + 5] == 0x6f && s[lo + 6] == 0x72 && s[lo + 7] == 0x79 {
        proof {
            assert(key =~= kw_category());
        }
        match category_of(s, vlo, hi) {
            Some(x) => {
                if p.category.is_some() {
                    return None;
                }
                let mut p = p;
                p.category = Some(x);
                proof {
                    assert(p@ =~= PartialView { category: Some(x), ..pv });
                }
                return Some(p);
            },
            None => {
                return None;
            },
        }
    }
    proof {
        assert(key != kw_id()) by {
            if key.len() == 2 {
                assert(key[0] == s@[lo as int]);
                assert(key[1] == s@[lo + 1]);
            }
        }
        assert(key != kw_package()) by {
            if key.len() == 7 {
                assert(key[0] == s@[lo as int]);
                assert(key[1] == s@[lo + 1]);
                assert(key[2] == s@[lo + 2]);
                assert(key[3] == s@[lo + 3]);
                assert(key[4] == s@[lo + 4]);
                assert(key[5] == s@[lo + 5]);
                assert(key[6] == s@[lo + 6]);
            }
        }
        assert(key != kw_affected()) by {
            if key.len() == 8 {
                assert(key[0] == s@[lo as int]);
                assert(key[1] == s@[lo + 1]);
                assert(key[2] == s@[lo + 2]);
                assert(key[3] == s@[lo + 3]);
                assert(key[4] == s@[lo + 4]);
                assert(key[5] == s@[lo + 5]);
                assert(key[6] == s@[lo + 6]);
                assert(key[7] == s@[lo + 7]);
            }
        }
        assert(key != kw_unaffected()) by {
            if key.len() == 10 {
                assert(key[0] == s@[lo as int]);
                assert(key[1] == s@[lo + 1]);
                assert(key[2] == s@[lo + 2]);
                assert(key[3] == s@[lo + 3]);
                assert(key[4] == s@[lo + 4]);
                assert(key[5] == s@[lo + 5]);
                assert(key[6] == s@[lo + 6]);
                assert(key[7] == s@[lo + 7]);
                assert(key[8] == s@[lo + 8]);
                assert(key[9] == s@[lo + 9]);
            }
        }
        assert(key != kw_patched()) by {
            if key.len() == 7 {
                assert(key[0] == s@[lo as int]);
                assert(key[1] == s@[lo + 1]);
                assert(key[2] == s@[lo + 2]);
                assert(key[3] == s@[lo + 3]);
                assert(key[4] == s@[lo + 4]);
                assert(key[5] == s@[lo + 5]);
                assert(key[6] == s@[lo + 6]);
            }
        }
        assert(key != kw_alias()) by {
            if key.len() == 5 {
                assert(key[0] == s@[lo as int]);
                assert(key[1] == s@[lo + 1]);
                assert(key[2] == s@[lo + 2]);
                assert(key[3] == s@[lo + 3]);
                assert(key[4] == s@[lo + 4]);
            }
        }
        assert(key != kw_severity()) by {
            if key.len() == 8 {
                assert(key[0] == s@[lo as int]);
                assert(key[1] == s@[lo + 1]);
                assert(key[2] == s@[lo + 2]);
                assert(key[3] == s@[lo + 3]);
                assert(key[4] == s@[lo + 4]);
                assert(key[5] == s@[lo + 5]);
                assert(key[6] == s@[lo + 6]);
                assert(key[7] == s@[lo + 7]);
            }
        }
        assert(key != kw_date()) by {
            if key.len() == 4 {
                assert(key[0] == s@[lo as int]);
                assert(key[1] == s@[lo + 1]);
                assert(key[2] == s@[lo + 2]);
                assert(key[3] == s@[lo + 3]);
            }
        }
        assert(key != kw_arch()) by {
            if key.len() == 4 {
                assert(key[0] == s@[lo as int]);
                assert(key[1] == s@[lo + 1]);
                assert(key[2] == s@[lo + 2]);
                assert(key[3] == s@[lo + 3]);
            }
        }
        assert(key != kw_os()) by {
            if key.len() == 2 {
                assert(key[0] == s@[lo as int]);
                assert(key[1] == s@[lo + 1]);
            }
        }
        assert(key != kw_withdrawn()) by {
            if key.len() == 9 {
                assert(key[0] == s@[lo as int]);
                assert(key[1] == s@[lo + 1]);
                assert(key[2] == s@[lo + 2]);
                assert(key[3] == s@[lo + 3]);
                assert(key[4] == s@[lo + 4]);
                assert(key[5] == s@[lo + 5]);
                assert(key[6] == s@[lo + 6]);
                assert(key[7] == s@[lo + 7]);
                assert(key[8] == s@[lo + 8]);
            }
        }
        assert(key != kw_category()) by {
            if key.len() == 8 {
                assert(key[0] == s@[lo as int]);
                assert(key[1] == s@[lo + 1]);
                assert(key[2] == s@[lo + 2]);
                assert(key[3] == s@[lo + 3]);
                assert(key[4] == s@[lo + 4]);
                assert(key[5] == s@[lo + 5]);
                assert(key[6] == s@[lo + 6]);
                assert(key[7] == s@[lo + 7]);
            }
        }
    }
    None
}

/// Folds the record's lines from `lo` onward into the partial state.
fn parse_record_lines(p: PartialAdvisory, s: &Vec<u8>, lo: usize) -> (r: Option<PartialAdvisory>)
    requires
        lo <= s@.len(),
    ensures
        match r {
            Some(p2) => parse_record_lines_spec(p@, s@.skip(lo as int)) == Some(p2@),
            None => parse_record_lines_spec(p@, s@.skip(lo as int)) is None,
        },
    decreases s@.len() - lo,
{
    let ghost tail = s@.skip(lo as int);
    let n = s.len();
    if lo == n {
        proof {
            assert(tail =~= Seq::<u8>::empty());
        }
        return Some(p);
    }
    let nl = find_byte(s, lo, n, 0x0a);
    proof {
        assert(tail =~= s@.subrange(lo as int, n as int));
        lemma_find_in_subrange(s@, lo as int, n as int, 0x0a, nl);
    }
    match nl {
        None => apply_field(p, s, lo, n),
        Some(j) => {
            proof {
                assert(tail.take(j - lo) =~= s@.subrange(lo as int, j as int));
                assert(tail.skip(j - lo + 1) =~= s@.skip(j + 1));
            }
            match apply_field(p, s, lo, j) {
                Some(p2) => parse_record_lines(p2, s, j + 1),
                None => None,
            }
        },
    }
}

/// Parses one raw advisory record.
pub fn parse_advisory(s: &Vec<u8>) -> (r: Option<AdvisoryRecord>)
    ensures
        match r {
            Some(a) => parse_advisory_spec(s@) == Some(a@),
            None => parse_advisory_spec(s@) is None,
        },
{
    proof {
        assert(s@.skip(0) =~= s@);
    }
    let p = match parse_record_lines(PartialAdvisory::new(), s, 0) {
        Some(p) => p,
        None => {
            return None;
        },
    };
    let ghost pv = p@;
    if p.id.is_none() || p.package.is_none() || p.date.is_none() || p.affected.len() == 0 {
        return None;
    }
    let id = p.id.unwrap();
    let package = p.package.unwrap();
    let date = p.date.unwrap();
    let category = match p.category {
        Some(c) => c,
        None => Category::Vulnerability,
    };
    let rec = AdvisoryRecord {
        id,
        package,
        affected: AffectedRange { affected: p.affected, unaffected: p.unaffected },
        aliases: p.aliases,
        severity: p.severity,
        date,
        arch_constraint: p.arch,
        os_constraint: p.os,
        withdrawn: p.withdrawn,
        category,
    };
    proof {
        assert(rec@ =~= finish_record_spec(pv).unwrap());
    }
    Some(rec)
}

} // verus!
