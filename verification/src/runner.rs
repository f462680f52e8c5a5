//! Config-runner support: what the external proxy process is launched with
//! and where its output is logged.
//!
//! The process gets the configuration's own whitespace-split tokens plus
//! fixed flags binding it to `0.0.0.0` at the assigned port in foreground
//! mode. Its output goes to a log file whose name is derived from a
//! sanitized prefix of the configuration, the port and the Unix time of the
//! call, so concurrent runners never collide on a log file even when they
//! share a configuration string.

use vstd::prelude::*;
use vstd::string::StringExecFns;

use crate::clock::now_unix_seconds;
use crate::text::{
    char_is_alphanumeric, dec_str, is_unicode_alphanumeric, push_char, push_dec_u128,
    split_whitespace_strings, str_to_chars, ws_tokens,
};

verus! {

/// The argument list of the external proxy process: the configuration's own
/// tokens, then the fixed flags.
pub open spec fn spec_proxy_args(config: Seq<char>, port: u16) -> Seq<Seq<char>> {
    ws_tokens(config) + seq!["--ip"@, "0.0.0.0"@, "--port"@, dec_str(port as nat), "-Y"@]
}

/// Builds the argument list for one configuration and its assigned port:
/// the configuration split on whitespace, then `--ip 0.0.0.0 --port <port>
/// -Y`.
pub fn proxy_args(config: &str, port: u16) -> (r: Vec<String>)
    ensures
        r.deep_view() == spec_proxy_args(config@, port),
{
    let mut args = split_whitespace_strings(config);
    args.push("--ip".to_owned());
    args.push("0.0.0.0".to_owned());
    args.push("--port".to_owned());
    let mut port_text = String::new();
    push_dec_u128(&mut port_text, port as u128);
    args.push(port_text);
    args.push("-Y".to_owned());
    proof {
        assert(args.deep_view() =~= spec_proxy_args(config@, port));
    }
    args
}

/// One character of the log-file stem: alphanumerics and dashes stay,
/// everything else becomes an underscore.
pub open spec fn sanitized_char(c: char) -> char {
    if is_unicode_alphanumeric(c) || c == '-' {
        c
    } else {
        '_'
    }
}

/// The identity token of a configuration: its first whitespace-delimited
/// token, or `cfg` when there is none.
pub open spec fn first_token(config: Seq<char>) -> Seq<char> {
    if ws_tokens(config).len() == 0 {
        "cfg"@
    } else {
        ws_tokens(config)[0]
    }
}

/// The log-file stem of one runner: the identity token cut to twenty
/// characters and sanitized, then the port and the Unix time.
pub open spec fn spec_log_stem(config: Seq<char>, port: u16, unix_secs: u64) -> Seq<char> {
    let tok = first_token(config);
    let cut = if tok.len() <= 20 {
        tok
    } else {
        tok.take(20)
    };
    cut.map_values(|c: char| sanitized_char(c)) + "_p"@ + dec_str(port as nat) + "_t"@ + dec_str(
        unix_secs as nat,
    )
}

/// The log-file stem of one runner at a given Unix time.
pub fn log_stem(config: &str, port: u16, unix_secs: u64) -> (r: String)
    ensures
        r@ == spec_log_stem(config@, port, unix_secs),
{
    let tokens = split_whitespace_strings(config);
    proof {
        assert(tokens.deep_view().len() == tokens@.len());
    }
    let head: String = if tokens.len() == 0 {
        "cfg".to_owned()
    } else {
        tokens[0].clone()
    };
    proof {
        if tokens@.len() > 0 {
            assert(tokens.deep_view()[0] == tokens@[0]@);
        }
        assert(head@ == first_token(config@));
    }
    let chars = str_to_chars(head.as_str());
    let cut_len: usize = if chars.len() <= 20 {
        chars.len()
    } else {
        20
    };
    let ghost cut: Seq<char> = if head@.len() <= 20 {
        head@
    } else {
        head@.take(20)
    };
    let mut out = String::new();
    let mut i: usize = 0;
    while i < cut_len
        invariant
            i <= cut_len,
            cut_len <= chars@.len(),
            chars@ == head@,
            cut == (if head@.len() <= 20 {
                head@
            } else {
                head@.take(20)
            }),
            cut_len == cut.len(),
            out@.len() == i,
            forall|m: int| 0 <= m < i ==> out@[m] == sanitized_char(#[trigger] cut[m]),
        decreases cut_len - i,
    {
        let c = chars[i];
        if char_is_alphanumeric(c) || c == '-' {
            push_char(&mut out, c);
        } else {
            push_char(&mut out, '_');
        }
        i = i + 1;
    }
    proof {
        assert(out@ =~= cut.map_values(|c: char| sanitized_char(c)));
    }
    out.append("_p");
    push_dec_u128(&mut out, port as u128);
    out.append("_t");
    push_dec_u128(&mut out, unix_secs as u128);
    proof {
        assert(out@ =~= spec_log_stem(config@, port, unix_secs));
    }
    out
}

/// The log-file stem of one runner, stamped with the Unix time of the call
/// (zero should the clock stand before the epoch).
pub fn sanitize_filename_for_log(config: &str, port: u16) -> (r: String)
    ensures
        exists|unix_secs: u64| r@ == spec_log_stem(config@, port, unix_secs),
{
    let unix_secs: u64 = now_unix_seconds();
    let r = log_stem(config, port, unix_secs);
    proof {
        assert(r@ == spec_log_stem(config@, port, unix_secs));
    }
    r
}

/// The name of the log file a runner's process output goes to.
pub fn log_file_name(stem: &str) -> (r: String)
    ensures
        r@ == "ciadpi_"@ + stem@ + ".log"@,
{
    let mut out = String::new();
    out.append("ciadpi_");
    out.append(stem);
    out.append(".log");
    proof {
        assert(out@ =~= "ciadpi_"@ + stem@ + ".log"@);
    }
    out
}

} // verus!
