//! Where plans, logs and the lock are kept.

use crate::paths::{join, path_join};
use crate::text::text_option;
use vstd::prelude::*;

verus! {

/// An optional borrowed text, as characters.
pub open spec fn str_option(o: Option<&str>) -> Option<Seq<char>> {
    match o {
        Some(s) => Some(s@),
        None => None,
    }
}

/// Where programs keep their state on Linux.
pub open spec fn linux_state(state_home: Option<Seq<char>>, home: Option<Seq<char>>) -> Option<
    Seq<char>,
> {
    match (state_home, home) {
        (Some(dir), _) => Some(dir),
        (None, Some(home)) => Some(path_join(home, ".local/state"@)),
        (None, None) => None,
    }
}

/// Where programs keep their state on macOS.
pub open spec fn mac_state(home: Option<Seq<char>>) -> Option<Seq<char>> {
    match home {
        Some(home) => Some(path_join(home, "Library/Application Support"@)),
        None => None,
    }
}

/// Where the state of this program is.
pub open spec fn state_at(
    set: Option<Seq<char>>,
    platform: Option<Seq<char>>,
    temporary: Seq<char>,
) -> Seq<char> {
    path_join(
        match (set, platform) {
            (Some(dir), _) => dir,
            (None, Some(dir)) => dir,
            (None, None) => temporary,
        },
        "reaper"@,
    )
}

/// The platform's state directory on Linux: the one that is set, else that of
/// the home directory.
pub fn linux_state_dir(state_home: Option<&str>, home: Option<&str>) -> (r: Option<String>)
    ensures
        text_option(r) == (match (str_option(state_home), str_option(home)) {
            (Some(dir), _) => Some(dir),
            (None, Some(home)) => Some(path_join(home, ".local/state"@)),
            (None, None) => None,
        }),
        text_option(r) == linux_state(str_option(state_home), str_option(home)),
{
    match (state_home, home) {
        (Some(dir), _) => Some(dir.to_owned()),
        (None, Some(home)) => Some(join(home, ".local/state")),
        (None, None) => None,
    }
}

/// The platform's state directory on macOS.
pub fn mac_state_dir(home: Option<&str>) -> (r: Option<String>)
    ensures
        text_option(r) == (match str_option(home) {
            Some(home) => Some(path_join(home, "Library/Application Support"@)),
            None => None,
        }),
        text_option(r) == mac_state(str_option(home)),
{
    match home {
        Some(home) => Some(join(home, "Library/Application Support")),
        None => None,
    }
}

/// The state directory: below the one that is set, else below the platform's,
/// else below the temporary one.
pub fn state_dir(set: Option<&str>, platform: Option<&str>, temporary: &str) -> (r: String)
    ensures
        r@ == path_join(
            match (str_option(set), str_option(platform)) {
                (Some(dir), _) => dir,
                (None, Some(dir)) => dir,
                (None, None) => temporary@,
            },
            "reaper"@,
        ),
        r@ == state_at(str_option(set), str_option(platform), temporary@),
{
    let base = match (set, platform) {
        (Some(dir), _) => dir,
        (None, Some(dir)) => dir,
        (None, None) => temporary,
    };
    join(base, "reaper")
}

} // verus!
