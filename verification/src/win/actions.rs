//! The commands behind the port actions on Windows. Windows has no SIGTERM;
//! `taskkill` ends a process and its children. A URL is opened with
//! `cmd /C start "" <url>`: the empty title argument keeps a quoted URL from
//! being taken as the window title. The application spawns them.

use vstd::prelude::*;
use crate::text::{dec_signed, push_dec_signed};

verus! {

/// Texts of strings.
pub open spec fn string_texts(v: Seq<String>) -> Seq<Seq<char>> {
    v.map_values(|s: String| s@)
}

/// `cmd /C start "" <url>`.
pub fn open_url_command(url: &str) -> (r: (String, Vec<String>))
    ensures
        r.0@ == "cmd"@,
        string_texts(r.1@) == seq!["/C"@, "start"@, ""@, url@],
{
    let mut args: Vec<String> = Vec::new();
    args.push(String::from_str("/C"));
    args.push(String::from_str("start"));
    args.push(String::from_str(""));
    args.push(String::from_str(url));
    assert(string_texts(args@) =~= seq!["/C"@, "start"@, ""@, url@]);
    (String::from_str("cmd"), args)
}

/// `taskkill /PID <pid> /T /F`.
pub fn kill_command(pid: i32) -> (r: (String, Vec<String>))
    ensures
        r.0@ == "taskkill"@,
        string_texts(r.1@) == seq!["/PID"@, dec_signed(pid as int), "/T"@, "/F"@],
{
    let mut id = String::new();
    push_dec_signed(&mut id, pid as i64);
    let mut args: Vec<String> = Vec::new();
    args.push(String::from_str("/PID"));
    args.push(id);
    args.push(String::from_str("/T"));
    args.push(String::from_str("/F"));
    assert(string_texts(args@) =~= seq!["/PID"@, dec_signed(pid as int), "/T"@, "/F"@]);
    (String::from_str("taskkill"), args)
}

} // verus!
