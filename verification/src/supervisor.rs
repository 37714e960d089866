//! Launch planning and control-endpoint discovery for the browser process.
//!
//! The process itself is spawned by the surrounding binary; what is
//! decided here: which executable to run, which flags to append, and how
//! to recover the control endpoint from the diagnostic lines the process
//! prints.

use vstd::prelude::*;
use crate::errors::CdpError;
use crate::strutil::{find_first, occurs_at, u64_to_dec, dec_digits};

verus! {

/// Resolve the browser executable. An explicit path wins but must exist;
/// with none given, a discovered installation is used; with neither,
/// the launch fails with `BrowserNotFound`.
pub fn resolve_executable(
    explicit: Option<String>,
    explicit_exists: bool,
    discovered: Option<String>,
) -> (r: Result<String, CdpError>)
    ensures
        match explicit {
            Some(p) => {
                if explicit_exists {
                    r matches Ok(q) && q@ == p@
                } else {
                    r matches Err(e) && e matches CdpError::BrowserNotFound
                }
            },
            None => match discovered {
                Some(d) => r matches Ok(q) && q@ == d@,
                None => r matches Err(e) && e matches CdpError::BrowserNotFound,
            },
        },
{
    match explicit {
        Some(p) => {
            if explicit_exists {
                Ok(p)
            } else {
                Err(CdpError::BrowserNotFound)
            }
        },
        None => match discovered {
            Some(d) => Ok(d),
            None => Err(CdpError::BrowserNotFound),
        },
    }
}

/// The command line handed to the browser: the caller's arguments, then
/// the remote-debugging flag for the given port, then the headless flag
/// when asked for.
pub fn launch_args(user_args: &Vec<String>, headless: bool, port: u16) -> (r: Vec<String>)
    ensures
        r@.len() == user_args@.len() + 1 + (if headless {
            1int
        } else {
            0int
        }),
        forall|k: int| 0 <= k < user_args@.len() ==> (#[trigger] r@[k])@ == user_args@[k]@,
        r@[user_args@.len() as int]@ == "--remote-debugging-port="@ + dec_digits(port as nat),
        headless ==> r@[user_args@.len() as int + 1]@ == "--headless=new"@,
{
    let mut out: Vec<String> = Vec::new();
    let mut i: usize = 0;
    while i < user_args.len()
        invariant
            0 <= i <= user_args@.len(),
            out@.len() == i,
            forall|k: int| 0 <= k < i ==> (#[trigger] out@[k])@ == user_args@[k]@,
        decreases user_args@.len() - i,
    {
        out.push(user_args[i].clone());
        i += 1;
    }
    let mut flag: String = String::from_str("--remote-debugging-port=");
    let digits: String = u64_to_dec(port as u64);
    flag.append(digits.as_str());
    out.push(flag);
    if headless {
        out.push(String::from_str("--headless=new"));
    }
    out
}

/// Recover the control endpoint from one diagnostic line: everything from
/// the first `ws://` to the end of the line, or nothing if the line does
/// not announce the endpoint.
pub fn extract_ws_url(line: &str) -> (r: Option<String>)
    ensures
        match r {
            Some(u) => exists|i: int|
                {
                    &&& #[trigger] occurs_at(line@, "ws://"@, i)
                    &&& (forall|j: int| 0 <= j < i ==> !occurs_at(line@, "ws://"@, j))
                    &&& u@ == line@.subrange(i, line@.len() as int)
                },
            None => forall|j: int| !occurs_at(line@, "ws://"@, j),
        },
{
    match find_first(line, "ws://") {
        Some(i) => {
            let n: usize = line.unicode_len();
            let tail: &str = line.substring_char(i, n);
            let u: String = tail.to_owned();
            proof {
                assert(occurs_at(line@, "ws://"@, i as int));
                assert(u@ == line@.subrange(i as int, line@.len() as int));
            }
            Some(u)
        },
        None => None,
    }
}

/// Scan captured diagnostic lines in order for the endpoint announcement.
pub fn scan_for_endpoint(lines: &Vec<String>) -> (r: Option<String>)
    ensures
        match r {
            Some(u) => exists|k: int|
                0 <= k < lines@.len() && exists|i: int| #[trigger] occurs_at(
                    (#[trigger] lines@[k])@,
                    "ws://"@,
                    i,
                ) && u@ == lines@[k]@.subrange(i, lines@[k]@.len() as int),
            None => forall|k: int|
                0 <= k < lines@.len() ==> forall|i: int| !occurs_at(
                    (#[trigger] lines@[k])@,
                    "ws://"@,
                    i,
                ),
        },
{
    let mut k: usize = 0;
    while k < lines.len()
        invariant
            0 <= k <= lines@.len(),
            forall|q: int|
                0 <= q < k ==> forall|i: int| !occurs_at((#[trigger] lines@[q])@, "ws://"@, i),
        decreases lines@.len() - k,
    {
        match extract_ws_url(lines[k].as_str()) {
            Some(u) => {
                return Some(u);
            },
            None => {},
        }
        k += 1;
    }
    None
}

} // verus!
