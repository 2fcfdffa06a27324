//! Where the daemon keeps its state and where it binds its API socket.
//! Paths are held as their text; the environment is read by the caller
//! and handed in.

use vstd::prelude::*;

use crate::schema::Config;
use crate::text::{chars_of, push_str, to_owned_string};

verus! {

/// The state directory when the configuration names none.
pub const DEFAULT_STATE_DIR: &'static str = "/var/lib/arctern";

/// The socket when neither the command line, the configuration nor the
/// environment names one.
pub const FALLBACK_SOCKET: &'static str = "/run/arctern.sock";

/// The state directory of `cfg`: its `state_dir`, else the default.
pub fn state_dir(cfg: &Config) -> (r: String)
    ensures
        r@ == match cfg.state_dir {
            Some(d) => d@,
            None => DEFAULT_STATE_DIR@,
        },
{
    match &cfg.state_dir {
        Some(d) => d.clone(),
        None => to_owned_string(DEFAULT_STATE_DIR),
    }
}

/// `base` joined with the relative name `name`, as `Path::join` does it:
/// one `/` between them unless `base` already ends in one.
pub open spec fn joined_path(base: Seq<char>, name: Seq<char>) -> Seq<char> {
    if base.len() > 0 && base.last() == '/' {
        base + name
    } else {
        base + "/"@ + name
    }
}

/// The socket the environment suggests: `arctern.sock` in the runtime
/// directory (`$XDG_RUNTIME_DIR`, when set and not empty), else
/// `/run/arctern.sock`.
pub open spec fn environment_socket(runtime_dir: Option<Seq<char>>) -> Seq<char> {
    match runtime_dir {
        Some(rt) => if rt.len() > 0 {
            joined_path(rt, "arctern.sock"@)
        } else {
            FALLBACK_SOCKET@
        },
        None => FALLBACK_SOCKET@,
    }
}

/// The socket the environment suggests; `runtime_dir` is the value of
/// `$XDG_RUNTIME_DIR`, if it is set.
pub fn default_socket_path(runtime_dir: Option<&str>) -> (r: String)
    ensures
        r@ == environment_socket(crate::requests::opt_text(runtime_dir)),
{
    match runtime_dir {
        Some(rt) => {
            let v = chars_of(rt);
            if v.len() == 0 {
                return to_owned_string(FALLBACK_SOCKET);
            }
            let mut r = to_owned_string(rt);
            if v[v.len() - 1] == '/' {
                push_str(&mut r, "arctern.sock");
            } else {
                push_str(&mut r, "/arctern.sock");
                proof {
                    reveal_strlit("/arctern.sock");
                    reveal_strlit("arctern.sock");
                    reveal_strlit("/");
                    assert(r@ =~= rt@ + "/"@ + "arctern.sock"@);
                }
            }
            r
        },
        None => to_owned_string(FALLBACK_SOCKET),
    }
}

/// The socket the daemon binds: the `--socket` flag, then the
/// configuration's `socket` (which the stdinserver also reads, so both
/// agree), then what the environment suggests.
pub fn resolve_socket_path(flag: Option<&str>, config: Option<&str>, runtime_dir: Option<&str>) -> (r: String)
    ensures
        r@ == match (flag, config) {
            (Some(f), _) => f@,
            (None, Some(c)) => c@,
            (None, None) => environment_socket(crate::requests::opt_text(runtime_dir)),
        },
{
    match flag {
        Some(f) => to_owned_string(f),
        None => match config {
            Some(c) => to_owned_string(c),
            None => default_socket_path(runtime_dir),
        },
    }
}

} // verus!
