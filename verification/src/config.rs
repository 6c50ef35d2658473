//! The resolved audit configuration and the merge of command-line options
//! over it.
//!
//! Precedence is explicit: a value given on the command line replaces the
//! file-based one, boolean flags combine by logical OR, and command-line
//! ignores are appended to the file-based ignore list. An unparsable
//! ignore identifier is a fatal configuration error, reported before the
//! pipeline runs.

use vstd::prelude::*;

use crate::advisory::{Arch, Os};
use crate::bytes::views_of;
use crate::parse::all_ident_bytes;

verus! {

/// How the report is rendered; rendering itself happens outside the core.
#[derive(Clone, Copy, Debug, PartialEq, Eq, Structural)]
pub enum OutputFormat {
    Terminal,
    Json,
}

/// The configuration the pipeline runs under, constructed once and passed
/// explicitly into each component.
#[derive(Debug)]
pub struct AuditConfig {
    pub color: Option<Vec<u8>>,
    pub advisory_db_path: Option<Vec<u8>>,
    pub advisory_db_url: Option<Vec<u8>>,
    pub ignore: Vec<Vec<u8>>,
    pub no_fetch: bool,
    pub allow_stale: bool,
    pub target_arch: Option<Arch>,
    pub target_os: Option<Os>,
    pub quiet: bool,
    pub output_format: OutputFormat,
}

#[verifier::ext_equal]
pub ghost struct ConfigView {
    pub color: Option<Seq<u8>>,
    pub advisory_db_path: Option<Seq<u8>>,
    pub advisory_db_url: Option<Seq<u8>>,
    pub ignore: Seq<Seq<u8>>,
    pub no_fetch: bool,
    pub allow_stale: bool,
    pub target_arch: Option<Arch>,
    pub target_os: Option<Os>,
    pub quiet: bool,
    pub output_format: OutputFormat,
}

impl View for AuditConfig {
    type V = ConfigView;

    open spec fn view(&self) -> ConfigView {
        ConfigView {
            color: match self.color {
                Some(v) => Some(v@),
                None => None,
            },
            advisory_db_path: match self.advisory_db_path {
                Some(v) => Some(v@),
                None => None,
            },
            advisory_db_url: match self.advisory_db_url {
                Some(v) => Some(v@),
                None => None,
            },
            ignore: views_of(self.ignore@),
            no_fetch: self.no_fetch,
            allow_stale: self.allow_stale,
            target_arch: self.target_arch,
            target_os: self.target_os,
            quiet: self.quiet,
            output_format: self.output_format,
        }
    }
}

impl AuditConfig {
    /// The configuration with nothing set.
    pub fn new() -> (r: AuditConfig)
        ensures
            r@ == (ConfigView {
                color: None,
                advisory_db_path: None,
                advisory_db_url: None,
                ignore: Seq::empty(),
                no_fetch: false,
                allow_stale: false,
                target_arch: None,
                target_os: None,
                quiet: false,
                output_format: OutputFormat::Terminal,
            }),
    {
        let r = AuditConfig {
            color: None,
            advisory_db_path: None,
            advisory_db_url: None,
            ignore: Vec::new(),
            no_fetch: false,
            allow_stale: false,
            target_arch: None,
            target_os: None,
            quiet: false,
            output_format: OutputFormat::Terminal,
        };
        proof {
            assert(r@.ignore =~= Seq::<Seq<u8>>::empty());
            assert(r@ =~= (ConfigView {
                color: None,
                advisory_db_path: None,
                advisory_db_url: None,
                ignore: Seq::empty(),
                no_fetch: false,
                allow_stale: false,
                target_arch: None,
                target_os: None,
                quiet: false,
                output_format: OutputFormat::Terminal,
            }));
        }
        r
    }
}

/// The options resolved from the command line, as an overlay over the
/// file-based configuration.
#[derive(Debug)]
pub struct CommandOptions {
    pub color: Option<Vec<u8>>,
    pub db: Option<Vec<u8>>,
    pub url: Option<Vec<u8>>,
    pub ignore: Vec<Vec<u8>>,
    pub no_fetch: bool,
    pub stale: bool,
    pub target_arch: Option<Arch>,
    pub target_os: Option<Os>,
    pub quiet: bool,
    pub output_json: bool,
}

#[verifier::ext_equal]
pub ghost struct OptionsView {
    pub color: Option<Seq<u8>>,
    pub db: Option<Seq<u8>>,
    pub url: Option<Seq<u8>>,
    pub ignore: Seq<Seq<u8>>,
    pub no_fetch: bool,
    pub stale: bool,
    pub target_arch: Option<Arch>,
    pub target_os: Option<Os>,
    pub quiet: bool,
    pub output_json: bool,
}

impl View for CommandOptions {
    type V = OptionsView;

    open spec fn view(&self) -> OptionsView {
        OptionsView {
            color: match self.color {
                Some(v) => Some(v@),
                None => None,
            },
            db: match self.db {
                Some(v) => Some(v@),
                None => None,
            },
            url: match self.url {
                Some(v) => Some(v@),
                None => None,
            },
            ignore: views_of(self.ignore@),
            no_fetch: self.no_fetch,
            stale: self.stale,
            target_arch: self.target_arch,
            target_os: self.target_os,
            quiet: self.quiet,
            output_json: self.output_json,
        }
    }
}

/// A malformed configuration value: the offending ignore identifier.
#[derive(Debug)]
pub struct ConfigError {
    pub bad_ignore_id: Vec<u8>,
}

/// A usable advisory identifier: nonempty, of identifier bytes.
pub open spec fn valid_ignore_id(s: Seq<u8>) -> bool {
    s.len() > 0 && all_ident_bytes(s)
}

/// What a successful merge returns: every command-line value overrides,
/// booleans combine by OR, ignores are appended, and the JSON flag selects
/// the JSON output format.
pub open spec fn merged_config(base: ConfigView, overlay: OptionsView) -> ConfigView {
    ConfigView {
        color: match overlay.color {
            Some(c) => Some(c),
            None => base.color,
        },
        advisory_db_path: match overlay.db {
            Some(p) => Some(p),
            None => base.advisory_db_path,
        },
        advisory_db_url: match overlay.url {
            Some(u) => Some(u),
            None => base.advisory_db_url,
        },
        ignore: base.ignore + overlay.ignore,
        no_fetch: base.no_fetch || overlay.no_fetch,
        allow_stale: base.allow_stale || overlay.stale,
        target_arch: match overlay.target_arch {
            Some(a) => Some(a),
            None => base.target_arch,
        },
        target_os: match overlay.target_os {
            Some(o) => Some(o),
            None => base.target_os,
        },
        quiet: base.quiet || overlay.quiet,
        output_format: if overlay.output_json {
            OutputFormat::Json
        } else {
            base.output_format
        },
    }
}

/// Merges the command-line overlay into the base configuration, returning
/// a new value. Fails on the first unparsable ignore identifier, which is
/// reported before the pipeline runs.
pub fn merge(base: AuditConfig, overlay: &CommandOptions) -> (r: Result<AuditConfig, ConfigError>)
    ensures
        match r {
            Ok(c) => c@ == merged_config(base@, overlay@) && (forall|k: int|
                0 <= k < overlay@.ignore.len() ==> valid_ignore_id(#[trigger] overlay@.ignore[k])),
            Err(e) => exists|k: int|
                0 <= k < overlay@.ignore.len() && !valid_ignore_id(#[trigger] overlay@.ignore[k])
                    && e.bad_ignore_id@ == overlay@.ignore[k],
        },
{
    let ghost bv = base@;
    let ghost ov = overlay@;
    let mut c = base;
    if let Some(color) = &overlay.color {
        let v = color.clone();
        proof {
            assert(v@ =~= color@);
        }
        c.color = Some(v);
    }
    if let Some(db) = &overlay.db {
        let v = db.clone();
        proof {
            assert(v@ =~= db@);
        }
        c.advisory_db_path = Some(v);
    }
    if let Some(url) = &overlay.url {
        let v = url.clone();
        proof {
            assert(v@ =~= url@);
        }
        c.advisory_db_url = Some(v);
    }
    let mut i: usize = 0;
    while i < overlay.ignore.len()
        invariant
            i <= overlay.ignore@.len(),
            ov == overlay@,
            ov.ignore.len() == overlay.ignore@.len(),
            views_of(c.ignore@) =~= bv.ignore + ov.ignore.subrange(0, i as int),
            forall|k: int| 0 <= k < i ==> valid_ignore_id(#[trigger] ov.ignore[k]),
            c@.color == (match ov.color {
                Some(x) => Some::<Seq<u8>>(x),
                None => bv.color,
            }),
            c@.advisory_db_path == (match ov.db {
                Some(x) => Some::<Seq<u8>>(x),
                None => bv.advisory_db_path,
            }),
            c@.advisory_db_url == (match ov.url {
                Some(x) => Some::<Seq<u8>>(x),
                None => bv.advisory_db_url,
            }),
            c.no_fetch == bv.no_fetch,
            c.allow_stale == bv.allow_stale,
            c.quiet == bv.quiet,
            c.target_arch == bv.target_arch,
            c.target_os == bv.target_os,
            c.output_format == bv.output_format,
        decreases overlay.ignore@.len() - i,
    {
        let id = &overlay.ignore[i];
        let n = id.len();
        if !crate::record::check_ident_range(id, 0, n) {
            proof {
                assert(id@.subrange(0, id@.len() as int) =~= id@);
                assert(!valid_ignore_id(ov.ignore[i as int]));
            }
            let bad = id.clone();
            proof {
                assert(bad@ =~= id@);
            }
            return Err(ConfigError { bad_ignore_id: bad });
        }
        proof {
            assert(id@.subrange(0, id@.len() as int) =~= id@);
        }
        let v = id.clone();
        proof {
            assert(v@ =~= id@);
        }
        let ghost old_ignore = c.ignore@;
        c.ignore.push(v);
        proof {
            assert(views_of(c.ignore@) =~= views_of(old_ignore).push(ov.ignore[i as int]));
            assert(views_of(c.ignore@) =~= bv.ignore + ov.ignore.subrange(0, i + 1));
        }
        i = i + 1;
    }
    proof {
        assert(ov.ignore.subrange(0, ov.ignore.len() as int) =~= ov.ignore);
    }
    c.no_fetch = c.no_fetch || overlay.no_fetch;
    c.allow_stale = c.allow_stale || overlay.stale;
    if let Some(arch) = overlay.target_arch {
        c.target_arch = Some(arch);
    }
    if let Some(os) = overlay.target_os {
        c.target_os = Some(os);
    }
    c.quiet = c.quiet || overlay.quiet;
    if overlay.output_json {
        c.output_format = OutputFormat::Json;
    }
    proof {
        assert(c@ =~= merged_config(bv, ov));
    }
    Ok(c)
}

} // verus!
