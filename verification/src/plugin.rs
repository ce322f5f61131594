//! What the plugin entry point decides for one file: whether to stamp, with
//! which path, and which refusal to report (once per reason).

use vstd::prelude::*;
use crate::relpath::{rel_posix_checked, rel_posix_spec, RelRefusal};
use crate::{resolve_enabled, resolve_enabled_spec, Config};

verus! {

/// One bit per refusal reason.
pub open spec fn refusal_bit_spec(r: RelRefusal) -> u8 {
    match r {
        RelRefusal::NoRoot => 1,
        RelRefusal::NoFilename => 2,
        RelRefusal::OutsideRoot => 4,
        RelRefusal::EscapesRoot => 8,
        RelRefusal::EmptyPath => 16,
    }
}

/// The bit that records that `r` has been reported.
pub fn refusal_bit(r: RelRefusal) -> (b: u8)
    ensures
        b == refusal_bit_spec(r),
{
    assert(1u8 << 1u8 == 2u8 && 1u8 << 2u8 == 4u8 && 1u8 << 3u8 == 8u8 && 1u8 << 4u8 == 16u8)
        by (bit_vector);
    match r {
        RelRefusal::NoRoot => 1,
        RelRefusal::NoFilename => 1 << 1,
        RelRefusal::OutsideRoot => 1 << 2,
        RelRefusal::EscapesRoot => 1 << 3,
        RelRefusal::EmptyPath => 1 << 4,
    }
}

/// Record that `reason` is being reported, given the bits of the reasons already
/// reported. Returns the new bits, and whether this is the first report of
/// `reason` (only then is a warning due).
pub fn record_warning(warned: u8, reason: RelRefusal) -> (res: (u8, bool))
    ensures
        res.0 == warned | refusal_bit_spec(reason),
        res.1 == (warned & refusal_bit_spec(reason) == 0),
{
    let bit = refusal_bit(reason);
    (warned | bit, warned & bit == 0)
}

/// `s`, or `(unset)` when it is empty: how a root or filename is shown in a warning.
pub fn shown_or_unset(s: &str) -> (res: &str)
    ensures
        res@ == (if s@.len() == 0 { "(unset)"@ } else { s@ }),
{
    if s.is_empty() {
        "(unset)"
    } else {
        s
    }
}

/// What to do with one file.
pub struct TransformPlan {
    /// Whether stamping is switched on.
    pub enabled: bool,
    /// The root-relative path the stamps carry; `None` means: stamp nothing.
    pub rel: Option<String>,
    /// The refusal to report: only when stamping is on and no path came out.
    pub report: Option<RelRefusal>,
}

/// The root a config names, the empty string when it names none.
pub open spec fn config_root(config: Config) -> Seq<char> {
    match config.root {
        Some(r) => r@,
        None => Seq::empty(),
    }
}

/// Decide, for a file the host names `filename` under a host whose `NODE_ENV` is
/// `env`, whether to stamp, with which path, and what to report.
pub fn plan_transform(config: &Config, filename: &str, env: Option<&str>) -> (plan: TransformPlan)
    ensures
        plan.enabled == resolve_enabled_spec(
            config.enabled,
            match env {
                Some(e) => Some(e@),
                None => None,
            },
        ),
        match rel_posix_spec(config_root(*config), filename@) {
            Ok(s) => plan.rel matches Some(r) && r@ == s && plan.report is None,
            Err(e) => plan.rel is None && plan.report == (if plan.enabled {
                Some(e)
            } else {
                None
            }),
        },
{
    let enabled = resolve_enabled(config.enabled, env);
    let root: &str = match &config.root {
        Some(r) => r.as_str(),
        None => "",
    };
    proof {
        reveal_strlit("");
    }
    match rel_posix_checked(root, filename) {
        Ok(rel) => TransformPlan { enabled, rel: Some(rel), report: None },
        Err(reason) => TransformPlan {
            enabled,
            rel: None,
            report: if enabled {
                Some(reason)
            } else {
                None
            },
        },
    }
}

// ------------------------------------------------------------------- the laws

/// A refusal is reported at most once per reason: once recorded, the same reason
/// is no longer first, and recording it leaves every other reason's answer as it
/// was.
pub proof fn law_warn_once_per_reason(warned: u8, reason: RelRefusal, other: RelRefusal)
    ensures
        ({
            let after = warned | refusal_bit_spec(reason);
            &&& after & refusal_bit_spec(reason) != 0
            &&& other != reason ==> ((after & refusal_bit_spec(other) == 0) == (warned
                & refusal_bit_spec(other) == 0))
        }),
{
    let b = refusal_bit_spec(reason);
    let c = refusal_bit_spec(other);
    assert(b == 1 || b == 2 || b == 4 || b == 8 || b == 16);
    assert(c == 1 || c == 2 || c == 4 || c == 8 || c == 16);
    assert(other != reason ==> b != c);
    assert((b == 1 || b == 2 || b == 4 || b == 8 || b == 16) ==> (warned | b) & b != 0)
        by (bit_vector);
    assert((b == 1 || b == 2 || b == 4 || b == 8 || b == 16) && (c == 1 || c == 2 || c == 4
        || c == 8 || c == 16) && b != c ==> (((warned | b) & c == 0) == (warned & c == 0)))
        by (bit_vector);
}

} // verus!
