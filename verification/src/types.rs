//! Basic value types shared across the crate.

use vstd::prelude::*;
use crate::text::str_eq;

verus! {

/// The operating-system category a page variant applies to.
#[derive(Clone, Copy, Debug, PartialEq, Eq, Structural)]
pub enum OsType {
    Linux,
    OsX,
    SunOs,
    Windows,
    Other,
}

/// How the target platform is chosen from a build's operating-system name.
pub open spec fn os_of(name: Seq<char>) -> OsType {
    if name == "linux"@ {
        OsType::Linux
    } else if name == "macos"@ || name == "freebsd"@ || name == "netbsd"@ || name == "openbsd"@
        || name == "dragonfly"@ {
        OsType::OsX
    } else if name == "windows"@ {
        OsType::Windows
    } else {
        OsType::Other
    }
}

/// Classify an operating-system name (as reported by the build environment)
/// into the platform category used for page lookup.
pub fn get_os(os_name: &str) -> (r: OsType)
    ensures
        r == os_of(os_name@),
{
    if str_eq(os_name, "linux") {
        OsType::Linux
    } else if str_eq(os_name, "macos") || str_eq(os_name, "freebsd") || str_eq(os_name, "netbsd")
        || str_eq(os_name, "openbsd") || str_eq(os_name, "dragonfly") {
        OsType::OsX
    } else if str_eq(os_name, "windows") {
        OsType::Windows
    } else {
        OsType::Other
    }
}

/// When terminal styling should be used.
#[derive(Clone, Copy, Debug, PartialEq, Eq, Structural)]
pub enum ColorOptions {
    Always,
    Auto,
    Never,
}

/// Decide whether styled output is enabled, from the user's choice and the
/// facts about the output environment.
pub fn should_enable_styles(
    color: ColorOptions,
    ansi_support: bool,
    no_color_set: bool,
    stdout_is_tty: bool,
) -> (r: bool)
    ensures
        color == ColorOptions::Always ==> r,
        color == ColorOptions::Never ==> !r,
        color == ColorOptions::Auto ==> r == (ansi_support && !no_color_set && stdout_is_tty),
{
    match color {
        ColorOptions::Always => true,
        ColorOptions::Auto => ansi_support && !no_color_set && stdout_is_tty,
        ColorOptions::Never => false,
    }
}

} // verus!
