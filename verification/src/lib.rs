//! Source-location stamping for JSX opening elements: the path, gate and
//! stamping rules, verified.

mod text;
pub mod relpath;
pub mod path_laws;
pub mod stamp;
pub mod plugin;

pub use crate::plugin::{plan_transform, record_warning, refusal_bit, shown_or_unset, TransformPlan};
pub use crate::relpath::{is_absolute_pathish, rel_posix, rel_posix_checked, RelRefusal};
pub use crate::stamp::{
    has_loc_attr, stamp_attr, Attribute, ElementName, LocVisitor, OpeningElement, ATTR_COMP,
    ATTR_HOST,
};

use vstd::prelude::*;
use crate::text::str_eq;

verus! {

/// Plugin config, decoded from the `.swcrc` / `next.config` plugin entry.
pub struct Config {
    /// Project root. Only files under it are stamped, and the emitted path is
    /// relative to it (POSIX). Unset means: stamp nothing.
    pub root: Option<String>,
    /// Hard on/off switch. When unset, the host's `NODE_ENV` decides.
    pub enabled: Option<bool>,
}

impl Default for Config {
    fn default() -> (c: Self)
        ensures
            c.root is None,
            c.enabled is None,
    {
        Config { root: None, enabled: None }
    }
}

/// Stamping is on: an explicit flag wins, else everything but `"production"` is on.
pub open spec fn resolve_enabled_spec(enabled_cfg: Option<bool>, env: Option<Seq<char>>) -> bool {
    match enabled_cfg {
        Some(b) => b,
        None => !(env == Some("production"@)),
    }
}

/// Resolve the dev-only gate: an explicit `enabled` wins; otherwise the host's
/// `NODE_ENV` decides, and only `"production"` turns stamping off.
pub fn resolve_enabled(enabled_cfg: Option<bool>, env: Option<&str>) -> (res: bool)
    ensures
        res == resolve_enabled_spec(
            enabled_cfg,
            match env {
                Some(e) => Some(e@),
                None => None,
            },
        ),
{
    match enabled_cfg {
        Some(b) => b,
        None => match env {
            Some(e) => !str_eq(e, "production"),
            None => true,
        },
    }
}

/// Only `"production"` switches stamping off: with no explicit flag, stamping is
/// off exactly when `NODE_ENV` is `"production"` (and on when it is unset); an
/// explicit flag is obeyed whatever `NODE_ENV` says.
pub proof fn law_only_production_switches_off(e: Seq<char>, b: bool, env: Option<Seq<char>>)
    ensures
        resolve_enabled_spec(None, Some(e)) == (e != "production"@),
        resolve_enabled_spec(None, None),
        resolve_enabled_spec(Some(b), env) == b,
{
}

} // verus!
