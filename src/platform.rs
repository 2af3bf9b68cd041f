//! The helper's platforms and the status line of its `check` verb.
use vstd::prelude::*;
use crate::text::string_of;

verus! {

broadcast use vstd::string::group_string_axioms;

/// The platforms the helper runs on: they differ in the hosts path and in
/// how elevated rights are recognised.
#[derive(Clone, Copy, PartialEq, Eq, Structural, Debug)]
pub enum Platform {
    Posix,
    Windows,
}

/// The decimal digit for `d`.
pub open spec fn digit_char(d: nat) -> char {
    if d == 0 {
        '0'
    } else if d == 1 {
        '1'
    } else if d == 2 {
        '2'
    } else if d == 3 {
        '3'
    } else if d == 4 {
        '4'
    } else if d == 5 {
        '5'
    } else if d == 6 {
        '6'
    } else if d == 7 {
        '7'
    } else if d == 8 {
        '8'
    } else {
        '9'
    }
}

/// `n` written in decimal, without leading zeros.
pub open spec fn decimal(n: nat) -> Seq<char>
    decreases n,
{
    if n < 10 {
        seq![digit_char(n)]
    } else {
        decimal(n / 10).push(digit_char(n % 10))
    }
}

fn digit(d: u32) -> (c: char)
    requires
        d < 10,
    ensures
        c == digit_char(d as nat),
{
    if d == 0 {
        '0'
    } else if d == 1 {
        '1'
    } else if d == 2 {
        '2'
    } else if d == 3 {
        '3'
    } else if d == 4 {
        '4'
    } else if d == 5 {
        '5'
    } else if d == 6 {
        '6'
    } else if d == 7 {
        '7'
    } else if d == 8 {
        '8'
    } else {
        '9'
    }
}

/// `n` written in decimal.
pub fn decimal_string(n: u32) -> (r: Vec<char>)
    ensures
        r@ == decimal(n as nat),
    decreases n,
{
    if n < 10 {
        vec![digit(n)]
    } else {
        let mut r = decimal_string(n / 10);
        r.push(digit(n % 10));
        r
    }
}

/// The status line that `check` prints: whether the process holds the
/// rights to write the hosts file, with the effective user id on POSIX.
pub open spec fn check_line(platform: Platform, privileged: bool, euid: u32) -> Seq<char> {
    match platform {
        Platform::Posix => if privileged {
            "ROOT_OK"@
        } else {
            "NOT_ROOT (euid="@ + decimal(euid as nat) + ")"@
        },
        Platform::Windows => if privileged {
            "ADMIN_OK"@
        } else {
            "NOT_ADMIN"@
        },
    }
}

/// The status line of `check`.
pub fn check_report(platform: Platform, privileged: bool, euid: u32) -> (r: String)
    ensures
        r@ == check_line(platform, privileged, euid),
{
    match platform {
        Platform::Posix => if privileged {
            "ROOT_OK".to_string()
        } else {
            let mut s = "NOT_ROOT (euid=".to_string();
            let d = string_of(&decimal_string(euid));
            s.append(d.as_str());
            s.append(")");
            s
        },
        Platform::Windows => if privileged {
            "ADMIN_OK".to_string()
        } else {
            "NOT_ADMIN".to_string()
        },
    }
}

/// The hosts file's path on a platform.
pub fn hosts_path(platform: Platform) -> (r: String)
    ensures
        platform == Platform::Posix ==> r@ == "/etc/hosts"@,
        platform == Platform::Windows ==> r@ == "C:\\Windows\\System32\\drivers\\etc\\hosts"@,
{
    match platform {
        Platform::Posix => "/etc/hosts".to_string(),
        Platform::Windows => "C:\\Windows\\System32\\drivers\\etc\\hosts".to_string(),
    }
}

} // verus!
