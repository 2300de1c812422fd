//! Instance-wide knobs resolved `stored → env → default`, and the per-node
//! model and effort precedence. The environment is read by the caller and
//! handed in, so every resolution here is a pure function of its inputs.
use vstd::prelude::*;
use crate::clock::Duration;
use crate::text::{chars_of, parse_u64, parsed_u64};

verus! {

/// Default TTL after node completion before the session is reaped: one hour.
pub const DEFAULT_REAPER_TTL_SECS: u64 = 3600;

/// Default idle TTL of the library assistant: two minutes.
pub const DEFAULT_LIBASSIST_IDLE_TTL_SECS: u64 = 120;

/// Default sweep interval of the reaper: one minute.
pub const DEFAULT_REAPER_INTERVAL_SECS: u64 = 60;

/// Env var that overrides the reaper TTL (seconds).
pub const REAPER_TTL_SECS_ENV: &'static str = "PDO_REAPER_TTL_SECS";

/// Env var that overrides the reaper sweep interval (seconds).
pub const REAPER_INTERVAL_SECS_ENV: &'static str = "PDO_REAPER_INTERVAL_SECS";

/// Env var that overrides the library assistant's idle TTL (seconds).
pub const LIBASSIST_IDLE_TTL_SECS_ENV: &'static str = "PDO_LIBASSIST_IDLE_TTL_SECS";

/// Env var supplying the instance-wide default model.
pub const DEFAULT_MODEL_ENV: &'static str = "PDO_DEFAULT_MODEL";

/// Env var supplying the instance-wide default harness.
pub const DEFAULT_HARNESS_ENV: &'static str = "PDO_DEFAULT_HARNESS";

/// The seconds `stored → env → default` resolves to: a stored value of at
/// least one second wins (a stored `0` is ignored), else the env value, else
/// the default.
pub open spec fn tiered_secs(stored: Option<u64>, env: Option<u64>, default: u64) -> u64 {
    match stored {
        Some(n) if n >= 1 => n,
        _ => match env {
            Some(n) => n,
            None => default,
        },
    }
}

/// The first of `stored`, `env` that is a non-empty text.
pub open spec fn tiered_text(stored: Option<Seq<char>>, env: Option<Seq<char>>) -> Option<Seq<char>> {
    match stored {
        Some(s) if s.len() > 0 => Some(s),
        _ => match env {
            Some(e) if e.len() > 0 => Some(e),
            _ => None,
        },
    }
}

/// The view of an optional string.
pub open spec fn opt_view(s: Option<String>) -> Option<Seq<char>> {
    match s {
        Some(v) => Some(v@),
        None => None,
    }
}

/// The view of an optional string slice.
pub open spec fn opt_str_view(s: Option<&str>) -> Option<Seq<char>> {
    match s {
        Some(v) => Some(v@),
        None => None,
    }
}

/// The seconds an env value contributes: its `u64` reading, or nothing when
/// unset or unparseable.
pub fn env_secs(raw: Option<&str>) -> (r: Option<u64>)
    ensures
        r == match raw {
            Some(v) => parsed_u64(v@),
            None => None,
        },
{
    match raw {
        Some(v) => {
            let cs = chars_of(v);
            parse_u64(&cs)
        },
        None => None,
    }
}

/// The reaper TTL, `stored → env → default (1 h)`. `env_secs` is what the
/// reaper TTL env var contributes ([`env_secs`] of its raw value).
pub fn reaper_ttl_with(stored_secs: Option<u64>, env_secs: Option<u64>) -> (d: Duration)
    ensures
        d.nanos == 0,
        d.secs == tiered_secs(stored_secs, env_secs, DEFAULT_REAPER_TTL_SECS),
{
    match stored_secs {
        Some(n) if n >= 1 => Duration::from_secs(n),
        _ => match env_secs {
            Some(n) => Duration::from_secs(n),
            None => Duration::from_secs(DEFAULT_REAPER_TTL_SECS),
        },
    }
}

/// The library assistant's idle TTL, `stored → env → default (120 s)`.
pub fn libassist_idle_ttl_with(stored_secs: Option<u64>, env_secs: Option<u64>) -> (d: Duration)
    ensures
        d.nanos == 0,
        d.secs == tiered_secs(stored_secs, env_secs, DEFAULT_LIBASSIST_IDLE_TTL_SECS),
{
    match stored_secs {
        Some(n) if n >= 1 => Duration::from_secs(n),
        _ => match env_secs {
            Some(n) => Duration::from_secs(n),
            None => Duration::from_secs(DEFAULT_LIBASSIST_IDLE_TTL_SECS),
        },
    }
}

/// The reaper sweep interval: the env value, else one minute.
pub fn reaper_interval_with(env_secs: Option<u64>) -> (d: Duration)
    ensures
        d.nanos == 0,
        d.secs == match env_secs {
            Some(n) => n,
            None => DEFAULT_REAPER_INTERVAL_SECS,
        },
{
    match env_secs {
        Some(n) => Duration::from_secs(n),
        None => Duration::from_secs(DEFAULT_REAPER_INTERVAL_SECS),
    }
}

/// A non-empty text, or nothing.
fn non_empty(s: Option<String>) -> (r: Option<String>)
    ensures
        opt_view(r) == match opt_view(s) {
            Some(v) if v.len() > 0 => Some(v),
            _ => None,
        },
{
    match s {
        Some(v) => if !v.as_str().is_empty() {
            Some(v)
        } else {
            None
        },
        None => None,
    }
}

/// The instance-wide default model, `stored → env → None`; an empty value on
/// either tier counts as unset. `env` is the raw env var value.
pub fn default_model_with(stored: Option<String>, env: Option<String>) -> (r: Option<String>)
    ensures
        opt_view(r) == tiered_text(opt_view(stored), opt_view(env)),
{
    match non_empty(stored) {
        Some(s) => Some(s),
        None => non_empty(env),
    }
}

/// The instance-wide default harness, `stored → env → None`, like
/// [`default_model_with`].
pub fn default_harness_with(stored: Option<String>, env: Option<String>) -> (r: Option<String>)
    ensures
        opt_view(r) == tiered_text(opt_view(stored), opt_view(env)),
{
    match non_empty(stored) {
        Some(s) => Some(s),
        None => non_empty(env),
    }
}

/// The model a work node launches with: its own non-empty `model:`, else the
/// non-empty instance default, else none.
pub fn resolve_node_model<'a>(node_model: Option<&'a str>, default_effective: Option<&'a str>) -> (r:
    Option<&'a str>)
    ensures
        opt_str_view(r) == tiered_text(opt_str_view(node_model), opt_str_view(default_effective)),
        r matches Some(m) ==> (node_model == Some(m) || default_effective == Some(m)),
{
    match node_model {
        Some(m) if !m.is_empty() => Some(m),
        _ => match default_effective {
            Some(d) if !d.is_empty() => Some(d),
            _ => None,
        },
    }
}

/// The effort a work node launches with: its own `effort:`, an empty one
/// counting as unset.
pub fn resolve_node_effort(node_effort: Option<&str>) -> (r: Option<&str>)
    ensures
        r == match node_effort {
            Some(e) if e@.len() > 0 => Some(e),
            _ => None,
        },
{
    match node_effort {
        Some(e) if !e.is_empty() => Some(e),
        _ => None,
    }
}

} // verus!
