//! How a process is described in the process watcher's events: its command
//! line, its owner and its start time.

use vstd::prelude::*;
use crate::connections::texts;
use crate::render::{clock_time_text, format_unix_timestamp, four_digit_year_seconds, has_clock_layout, utc_timestamp_text};
use crate::text::{decimal, joined, join_strings, push_decimal};

verus! {

/// A process's command line: its arguments separated by spaces, or its name
/// when the arguments are not known.
pub fn process_command_line(name: &String, cmd: &Vec<String>) -> (line: String)
    ensures
        line@ == (if cmd@.len() == 0 { name@ } else { joined(texts(cmd@), " "@) }),
{
    if cmd.len() == 0 {
        name.clone()
    } else {
        join_strings(cmd, " ")
    }
}

/// A process's owner: the user's name, the user id (as `uid:Uid(<id>)`)
/// when the name is not known, `<unknown>` without a user id.
pub fn process_user_label(user_id: Option<u32>, user_name: Option<String>) -> (label: String)
    ensures
        label@ == (match user_id {
            Some(uid) => match user_name {
                Some(n) => n@,
                None => "uid:Uid("@ + decimal(uid as nat) + ")"@,
            },
            None => "<unknown>"@,
        }),
{
    match user_id {
        Some(uid) => match user_name {
            Some(n) => n,
            None => {
                let mut s = String::from_str("uid:Uid(");
                push_decimal(&mut s, uid as u64);
                s.append(")");
                s
            },
        },
        None => String::from_str("<unknown>"),
    }
}

/// A process's start time (seconds since the Unix epoch) as a UTC date and
/// time, or `<unknown>` where there is none.
pub fn process_start_label(start_time: u64) -> (label: String)
    ensures
        label@ == (match utc_timestamp_text(start_time as i64 as int) {
            Some(t) => t,
            None => "<unknown>"@,
        }),
        four_digit_year_seconds(start_time as i64 as int) ==> has_clock_layout(label@)
            && label@.subrange(11, 19) == clock_time_text(start_time as i64 as int),
{
    match format_unix_timestamp(start_time as i64) {
        Some(t) => t,
        None => String::from_str("<unknown>"),
    }
}

} // verus!
