//! Runtime configuration of the viewer: values taken from the command line or, in the
//! browser, from the page.
use vstd::prelude::*;

use crate::text::{chars_of, eq_str, push_str, slice_chars, starts_with, starts_with_exec, string_from_chars};

verus! {

/// The value given for `flag` among the arguments from position `i` on: the first argument
/// that is `flag=<value>` or `flag` settles it, with the value after `=` or the next
/// argument; an empty value counts as none.
pub open spec fn arg_value_from(args: Seq<Seq<char>>, flag: Seq<char>, i: int) -> Option<Seq<char>>
    decreases args.len() - i,
{
    if i < 0 || i >= args.len() {
        None
    } else {
        let arg = args[i];
        if starts_with(arg, flag + "="@) {
            let value = arg.skip((flag.len() + 1) as int);
            if value.len() == 0 {
                None
            } else {
                Some(value)
            }
        } else if arg == flag {
            if i + 1 < args.len() && args[i + 1].len() > 0 {
                Some(args[i + 1])
            } else {
                None
            }
        } else {
            arg_value_from(args, flag, i + 1)
        }
    }
}

/// The characters of each argument.
pub open spec fn args_chars(args: Seq<String>) -> Seq<Seq<char>> {
    args.map_values(|s: String| s@)
}

/// The characters of an optional string.
pub open spec fn opt_string(s: Option<String>) -> Option<Seq<char>> {
    match s {
        Some(s) => Some(s@),
        None => None,
    }
}

/// The value given for `flag` on the command line `args` (program name first).
pub fn native_cli_arg_value(args: &[String], flag: &str) -> (r: Option<String>)
    ensures
        opt_string(r) == arg_value_from(args_chars(args@), flag@, 1),
{
    let ghost all = args_chars(args@);
    let f = chars_of(flag);
    let mut prefix = f.clone();
    push_str(&mut prefix, "=");
    proof {
        reveal_strlit("=");
    }
    let mut i: usize = 1;
    while i < args.len()
        invariant
            1 <= i,
            all == args_chars(args@),
            all.len() == args@.len(),
            f@ == flag@,
            prefix@ == flag@ + "="@,
            prefix@.len() == flag@.len() + 1,
            arg_value_from(all, flag@, 1) == arg_value_from(all, flag@, i as int),
        decreases args.len() - i,
    {
        let arg = chars_of(args[i].as_str());
        assert(arg@ == all[i as int]);
        if starts_with_exec(arg.as_slice(), prefix.as_slice()) {
            let value = slice_chars(arg.as_slice(), prefix.len(), arg.len());
            assert(value@ =~= arg@.skip((flag@.len() + 1) as int));
            if value.len() == 0 {
                return None;
            }
            return Some(string_from_chars(value.as_slice()));
        }
        if eq_str(arg.as_slice(), flag) {
            if i + 1 < args.len() && args[i + 1].as_str().is_empty() == false {
                assert(all[i + 1] == args@[i + 1]@);
                return Some(args[i + 1].clone());
            }
            return None;
        }
        i = i + 1;
    }
    None
}

/// The database URL given with `--url` on the command line `args`.
pub fn native_cli_spacetimedb_uri(args: &[String]) -> (r: Option<String>)
    ensures
        opt_string(r) == arg_value_from(args_chars(args@), "--url"@, 1),
{
    native_cli_arg_value(args, "--url")
}

/// The tile server URL given with `--tile-url` on the command line `args`.
pub fn native_cli_tile_server_uri(args: &[String]) -> (r: Option<String>)
    ensures
        opt_string(r) == arg_value_from(args_chars(args@), "--tile-url"@, 1),
{
    native_cli_arg_value(args, "--tile-url")
}

/// A browser configuration value: the page's query parameter where present, else the value
/// injected into the page, where that is not empty.
pub fn browser_runtime_config_value(query_value: Option<String>, injected_value: Option<String>) -> (r: Option<String>)
    ensures
        opt_string(r) == match query_value {
            Some(q) => Some(q@),
            None => match injected_value {
                Some(v) => if v@.len() > 0 {
                    Some(v@)
                } else {
                    None
                },
                None => None,
            },
        },
{
    match query_value {
        Some(q) => Some(q),
        None => match injected_value {
            Some(v) => if !v.as_str().is_empty() {
                Some(v)
            } else {
                None
            },
            None => None,
        },
    }
}

/// A native configuration value: the command-line value first, then the environment
/// variable, then the default.
pub open spec fn configured_value_of(cli: Option<Seq<char>>, env: Option<Seq<char>>, default: Seq<char>) -> Seq<char> {
    match cli {
        Some(v) => v,
        None => match env {
            Some(v) => v,
            None => default,
        },
    }
}

fn resolve_configured_value(cli: Option<String>, env: Option<String>, default: &str) -> (r: String)
    ensures
        r@ == configured_value_of(opt_string(cli), opt_string(env), default@),
{
    match cli {
        Some(v) => v,
        None => match env {
            Some(v) => v,
            None => {
                let d = chars_of(default);
                string_from_chars(d.as_slice())
            },
        },
    }
}

/// The SpacetimeDB URL of the native viewer: `--url`, then `SPACETIMEDB_URI`, then
/// `http://localhost:3000`.
pub fn spacetimedb_uri(cli_value: Option<String>, env_value: Option<String>) -> (r: String)
    ensures
        r@ == configured_value_of(opt_string(cli_value), opt_string(env_value), "http://localhost:3000"@),
{
    resolve_configured_value(cli_value, env_value, "http://localhost:3000")
}

/// The tile server URL of the native viewer: `--tile-url`, then `TILE_SERVER_URI`, then
/// `http://localhost:8081`.
pub fn tile_server_uri(cli_value: Option<String>, env_value: Option<String>) -> (r: String)
    ensures
        r@ == configured_value_of(opt_string(cli_value), opt_string(env_value), "http://localhost:8081"@),
{
    resolve_configured_value(cli_value, env_value, "http://localhost:8081")
}

} // verus!
