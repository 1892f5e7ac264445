//! The command-line surface as plain data: the two subcommands with
//! their flags, and how the listing flags select listing options.

use vstd::prelude::*;

verus! {

use crate::list::ListOptions;

/// A parsed invocation: one subcommand.
pub struct Cli {
    pub command: Commands,
}

/// The two operations: list the sources, or connect to a session named
/// by trailing tokens.
pub enum Commands {
    List {
        tmux: bool,
        zoxide: Option<Option<usize>>,
        icons: bool,
        no_color: bool,
    },
    Connect {
        dir: Option<String>,
        no_color: bool,
        no_fail: bool,
        name_tokens: Vec<String>,
    },
}

/// Reads the listing flags: with neither source flag both sources are
/// included unlimited; naming a source includes only it; the frecency
/// flag given bare means unlimited, with a value it limits the entry
/// count.
pub fn list_options_from_flags(
    tmux: bool,
    zoxide: Option<Option<usize>>,
    icons: bool,
    no_color: bool,
) -> (r: ListOptions)
    ensures
        r.include_tmux == (tmux || zoxide is None),
        r.include_zox == (zoxide is Some || !tmux),
        r.z_limit == (match zoxide {
            Some(inner) => inner,
            None => None,
        }),
        r.icons == icons,
        r.no_color == no_color,
{
    let include_tmux = if tmux {
        true
    } else {
        zoxide.is_none()
    };
    let (include_zox, z_limit) = match zoxide {
        None => (!tmux, None),
        Some(inner) => (true, inner),
    };
    ListOptions { include_tmux, include_zox, z_limit, icons, no_color }
}

} // verus!
