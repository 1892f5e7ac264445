//! Composing one ranked display list out of two sources: the
//! multiplexer's sessions, active session first, followed by the
//! frecency-ranked directories, with entries that would duplicate an
//! existing session left out, each line carrying a colored marker tag
//! or glyph.

use vstd::prelude::*;

verus! {

use vstd::string::StringExecFns;

use crate::connect::icon_tmux_char;
use crate::connect::icon_zox_char;
use crate::connect::normalize_name;
use crate::connect::view_opt;
use crate::shell::Shell;
use crate::shell::ShellError;
use crate::text::basename_of;
use crate::text::basename_str;
use crate::text::lemma_views_push;
use crate::text::normalize_spec;
use crate::text::views_of;
use crate::zoxide::ZItem;

/// What the list should show: which sources, how many frecency entries,
/// and in which style.
pub struct ListOptions {
    pub include_tmux: bool,
    pub include_zox: bool,
    pub z_limit: Option<usize>,
    pub icons: bool,
    pub no_color: bool,
}

/// The color prefix for session entries.
pub open spec fn color_tmux() -> Seq<char> {
    seq!['\u{1b}', '[', '3', '5', 'm']
}

/// The color prefix for frecency entries.
pub open spec fn color_zox() -> Seq<char> {
    seq!['\u{1b}', '[', '3', '4', 'm']
}

/// The sequence that resets coloring.
pub open spec fn color_reset() -> Seq<char> {
    seq!['\u{1b}', '[', '0', 'm']
}

/// The bracketed tag for session entries.
pub open spec fn tag_tmux() -> Seq<char> {
    seq!['[', 't', ']']
}

/// The bracketed tag for frecency entries.
pub open spec fn tag_zox() -> Seq<char> {
    seq!['[', 'z', ']']
}

/// A string wrapped in a color prefix and a reset suffix when coloring
/// is enabled, the string itself otherwise.
pub open spec fn colorize_spec(enabled: bool, color: Seq<char>, s: Seq<char>) -> Seq<char> {
    if enabled {
        color + s + color_reset()
    } else {
        s
    }
}

/// Wraps the string in the color and a reset when enabled.
pub fn colorize(enabled: bool, color: &str, s: &str) -> (r: String)
    ensures
        r@ == colorize_spec(enabled, color@, s@),
{
    if enabled {
        let mut out = String::from_str(color);
        out.append(s);
        out.append("\u{1b}[0m");
        proof {
            reveal_strlit("\u{1b}[0m");
            assert(("\u{1b}[0m")@ =~= color_reset());
            assert(out@ =~= color@ + s@ + color_reset());
        }
        out
    } else {
        String::from_str(s)
    }
}

/// The marker put before a line: the source's glyph in icon style, its
/// bracketed tag otherwise, color-wrapped when coloring is enabled.
pub open spec fn prefix_spec(icons: bool, color_on: bool, zox: bool) -> Seq<char> {
    let color = if zox {
        color_zox()
    } else {
        color_tmux()
    };
    let body = if icons {
        if zox {
            seq![icon_zox_char()]
        } else {
            seq![icon_tmux_char()]
        }
    } else {
        if zox {
            tag_zox()
        } else {
            tag_tmux()
        }
    };
    colorize_spec(color_on, color, body)
}

/// Builds the marker for one line.
pub fn prefix_string(icons: bool, color_on: bool, zox: bool) -> (r: String)
    ensures
        r@ == prefix_spec(icons, color_on, zox),
{
    let body: &str;
    if icons {
        if zox {
            body = "\u{f114}";
            proof {
                reveal_strlit("\u{f114}");
                assert(body@ =~= seq![icon_zox_char()]);
            }
        } else {
            body = "\u{ebc8}";
            proof {
                reveal_strlit("\u{ebc8}");
                assert(body@ =~= seq![icon_tmux_char()]);
            }
        }
    } else {
        if zox {
            body = "[z]";
            proof {
                reveal_strlit("[z]");
                assert(body@ =~= tag_zox());
            }
        } else {
            body = "[t]";
            proof {
                reveal_strlit("[t]");
                assert(body@ =~= tag_tmux());
            }
        }
    }
    let color: &str;
    if zox {
        color = "\u{1b}[34m";
        proof {
            reveal_strlit("\u{1b}[34m");
            assert(color@ =~= color_zox());
        }
    } else {
        color = "\u{1b}[35m";
        proof {
            reveal_strlit("\u{1b}[35m");
            assert(color@ =~= color_tmux());
        }
    }
    colorize(color_on, color, body)
}

/// One display line: the marker, one space, and the payload.
pub open spec fn line_spec(prefix: Seq<char>, payload: Seq<char>) -> Seq<char> {
    prefix + seq![' '] + payload
}

/// Builds one display line from its marker and payload.
pub fn format_line(prefix: String, payload: &str) -> (r: String)
    ensures
        r@ == line_spec(prefix@, payload@),
{
    let ghost p0 = prefix@;
    let mut out = prefix;
    out.append(" ");
    out.append(payload);
    proof {
        reveal_strlit(" ");
        assert((" ")@ =~= seq![' ']);
        assert(out@ =~= p0 + seq![' '] + payload@);
    }
    out
}

/// The first position at or after `i` holding exactly `x`, or the
/// sequence's length.
pub open spec fn index_of_first(s: Seq<Seq<char>>, x: Seq<char>, i: int) -> int
    decreases s.len() - i,
{
    if i < 0 || i >= s.len() {
        s.len() as int
    } else if s[i] == x {
        i
    } else {
        index_of_first(s, x, i + 1)
    }
}

pub proof fn lemma_index_of_first_finds(s: Seq<Seq<char>>, x: Seq<char>, i: int)
    requires
        0 <= i <= s.len(),
        exists|j: int| i <= j < s.len() && s[j] == x,
    ensures
        i <= index_of_first(s, x, i) < s.len(),
        s[index_of_first(s, x, i)] == x,
    decreases s.len() - i,
{
    if s[i] == x {
    } else {
        lemma_index_of_first_finds(s, x, i + 1);
    }
}

/// The sessions with the active one, when present, moved to the front;
/// the relative order of the rest is preserved.
pub open spec fn promote_active(sessions: Seq<Seq<char>>, active: Option<Seq<char>>) -> Seq<
    Seq<char>,
> {
    match active {
        None => sessions,
        Some(a) => {
            let i = index_of_first(sessions, a, 0);
            if i < sessions.len() {
                seq![a] + sessions.subrange(0, i) + sessions.subrange(
                    i + 1,
                    sessions.len() as int,
                )
            } else {
                sessions
            }
        },
    }
}

/// Moves the active session, when present, to the front.
pub fn promote_active_sessions(sessions: Vec<String>, active: &Option<String>) -> (r: Vec<
    String,
>)
    ensures
        views_of(r@) == promote_active(views_of(sessions@), view_opt(*active)),
{
    let ghost sv = views_of(sessions@);
    match active {
        None => sessions,
        Some(a) => {
            let mut sessions = sessions;
            let mut j: usize = 0;
            while j < sessions.len() && !(sessions[j] == *a)
                invariant
                    0 <= j <= sessions.len(),
                    sv == views_of(sessions@),
                    sv.len() == sessions@.len(),
                    index_of_first(sv, a@, 0) == index_of_first(sv, a@, j as int),
                decreases sessions.len() - j,
            {
                proof {
                    assert(sv[j as int] == sessions@[j as int]@);
                }
                j = j + 1;
            }
            proof {
                if j < sessions.len() {
                    assert(sv[j as int] == sessions@[j as int]@);
                    assert(index_of_first(sv, a@, 0) == j);
                } else {
                    assert(index_of_first(sv, a@, 0) == sv.len());
                }
            }
            if j < sessions.len() {
                let x = sessions.remove(j);
                sessions.insert(0, x);
                proof {
                    assert(views_of(sessions@) =~= seq![a@] + sv.subrange(0, j as int)
                        + sv.subrange(j + 1, sv.len() as int));
                }
            }
            sessions
        },
    }
}

/// The normalized name of each session, in order.
pub open spec fn normalized_names(sess: Seq<Seq<char>>) -> Seq<Seq<char>> {
    sess.map_values(|s: Seq<char>| normalize_spec(s))
}

/// Whether the normalized name is already taken by a listed session.
pub open spec fn name_matches_session(names: Seq<Seq<char>>, n: Seq<char>) -> bool {
    exists|j: int| 0 <= j < names.len() && names[j] == n
}

/// The would-be session name of a frecency path: its final component —
/// or nothing, when the path has none — normalized.
pub open spec fn znorm(p: Seq<char>) -> Seq<char> {
    normalize_spec(
        match basename_of(p) {
            Some(b) => b,
            None => Seq::empty(),
        },
    )
}

/// The frecency lines from position `i` on: one line per path whose
/// would-be name matches no listed session, in rank order.
pub open spec fn z_lines_from(
    paths: Seq<Seq<char>>,
    i: int,
    names: Seq<Seq<char>>,
    icons: bool,
    color_on: bool,
) -> Seq<Seq<char>>
    decreases paths.len() - i,
{
    if i < 0 || i >= paths.len() {
        Seq::empty()
    } else if name_matches_session(names, znorm(paths[i])) {
        z_lines_from(paths, i + 1, names, icons, color_on)
    } else {
        seq![line_spec(prefix_spec(icons, color_on, true), paths[i])] + z_lines_from(
            paths,
            i + 1,
            names,
            icons,
            color_on,
        )
    }
}

/// One session line per session, in order.
pub open spec fn session_lines(sess: Seq<Seq<char>>, icons: bool, color_on: bool) -> Seq<
    Seq<char>,
> {
    sess.map_values(|s: Seq<char>| line_spec(prefix_spec(icons, color_on, false), s))
}

/// The paths kept after the optional limit: the first `n` in rank
/// order, applied before any filtering.
pub open spec fn truncated(paths: Seq<Seq<char>>, limit: Option<usize>) -> Seq<Seq<char>> {
    match limit {
        None => paths,
        Some(n) => if paths.len() <= n {
            paths
        } else {
            paths.take(n as int)
        },
    }
}

/// The whole composed list: session lines first — active session in
/// front — then the limited frecency lines with duplicates of session
/// names left out.
pub open spec fn compose_spec(
    sessions: Seq<Seq<char>>,
    active: Option<Seq<char>>,
    zpaths: Seq<Seq<char>>,
    opts: ListOptions,
) -> Seq<Seq<char>> {
    let color_on = !opts.no_color;
    let sess = if opts.include_tmux {
        promote_active(sessions, active)
    } else {
        Seq::empty()
    };
    let zp = if opts.include_zox {
        truncated(zpaths, opts.z_limit)
    } else {
        Seq::empty()
    };
    session_lines(sess, opts.icons, color_on) + z_lines_from(
        zp,
        0,
        normalized_names(sess),
        opts.icons,
        color_on,
    )
}

/// Whether the normalized name equals one recorded for a session.
fn contains_string(names: &Vec<String>, x: &String) -> (r: bool)
    ensures
        r == name_matches_session(views_of(names@), x@),
{
    let mut i: usize = 0;
    while i < names.len()
        invariant
            0 <= i <= names.len(),
            forall|j: int| 0 <= j < i ==> views_of(names@)[j] != x@,
        decreases names.len() - i,
    {
        proof {
            assert(views_of(names@)[i as int] == names@[i as int]@);
        }
        if names[i] == *x {
            return true;
        }
        i = i + 1;
    }
    proof {
        assert(!name_matches_session(views_of(names@), x@));
    }
    false
}

/// Composes the display list from already-fetched inputs.
pub fn compose_list_lines(
    sessions: Vec<String>,
    active: Option<String>,
    items: Vec<ZItem>,
    opts: &ListOptions,
) -> (lines: Vec<String>)
    ensures
        views_of(lines@) == compose_spec(
            views_of(sessions@),
            view_opt(active),
            views_of(items@),
            *opts,
        ),
{
    let color_on = !opts.no_color;
    let ghost sessions0 = views_of(sessions@);
    let ghost items0 = views_of(items@);
    let mut lines: Vec<String> = Vec::new();
    let mut names: Vec<String> = Vec::new();
    let sess: Vec<String> = if opts.include_tmux {
        promote_active_sessions(sessions, &active)
    } else {
        Vec::new()
    };
    let ghost sv = views_of(sess@);
    proof {
        if !opts.include_tmux {
            assert(sv =~= Seq::<Seq<char>>::empty());
        }
        assert(views_of(lines@) =~= session_lines(sv, opts.icons, color_on).take(0));
        assert(views_of(names@) =~= normalized_names(sv).take(0));
    }
    let mut i: usize = 0;
    while i < sess.len()
        invariant
            0 <= i <= sess.len(),
            sv == views_of(sess@),
            sv.len() == sess@.len(),
            color_on == !opts.no_color,
            views_of(lines@) == session_lines(sv, opts.icons, color_on).take(i as int),
            views_of(names@) == normalized_names(sv).take(i as int),
        decreases sess.len() - i,
    {
        proof {
            assert(sv[i as int] == sess@[i as int]@);
        }
        let nm = normalize_name(sess[i].as_str());
        proof {
            lemma_views_push(names@, nm);
            assert(normalized_names(sv).take(i as int).push(normalized_names(sv)[i as int])
                =~= normalized_names(sv).take(i + 1));
        }
        names.push(nm);
        let line = format_line(prefix_string(opts.icons, color_on, false), sess[i].as_str());
        proof {
            lemma_views_push(lines@, line);
            assert(session_lines(sv, opts.icons, color_on).take(i as int).push(
                session_lines(sv, opts.icons, color_on)[i as int],
            ) =~= session_lines(sv, opts.icons, color_on).take(i + 1));
        }
        lines.push(line);
        i = i + 1;
    }
    proof {
        assert(session_lines(sv, opts.icons, color_on).take(sv.len() as int) =~= session_lines(
            sv,
            opts.icons,
            color_on,
        ));
        assert(normalized_names(sv).take(sv.len() as int) =~= normalized_names(sv));
    }
    // the frecency side: limit first, then filter against session names
    let mut zp: Vec<ZItem> = if opts.include_zox {
        items
    } else {
        Vec::new()
    };
    if opts.include_zox {
        match opts.z_limit {
            Some(n) => {
                zp.truncate(n);
                proof {
                    if items0.len() > n {
                        assert(views_of(zp@) =~= items0.take(n as int));
                    } else {
                        assert(views_of(zp@) =~= items0);
                    }
                }
            },
            None => {},
        }
    }
    let ghost zv = views_of(zp@);
    proof {
        if opts.include_zox {
            assert(zv == truncated(items0, opts.z_limit));
        } else {
            assert(zv =~= Seq::<Seq<char>>::empty());
        }
        assert(views_of(lines@) + z_lines_from(zv, 0, views_of(names@), opts.icons, color_on)
            == compose_spec(sessions0, view_opt(active), items0, *opts));
    }
    let ghost nv = views_of(names@);
    let ghost target = compose_spec(sessions0, view_opt(active), items0, *opts);
    let mut k: usize = 0;
    while k < zp.len()
        invariant
            0 <= k <= zp.len(),
            zv == views_of(zp@),
            zv.len() == zp@.len(),
            nv == views_of(names@),
            color_on == !opts.no_color,
            views_of(lines@) + z_lines_from(zv, k as int, nv, opts.icons, color_on) == target,
        decreases zp.len() - k,
    {
        proof {
            assert(zv[k as int] == zp@[k as int]@);
        }
        let nm = match basename_str(zp[k].path.as_str()) {
            Some(b) => normalize_name(b.as_str()),
            None => {
                proof {
                    reveal_strlit("");
                    assert(("")@ =~= Seq::<char>::empty());
                }
                normalize_name("")
            },
        };
        proof {
            assert(nm@ == znorm(zv[k as int]));
        }
        if !contains_string(&names, &nm) {
            let line = format_line(
                prefix_string(opts.icons, color_on, true),
                zp[k].path.as_str(),
            );
            proof {
                lemma_views_push(lines@, line);
                assert(views_of(lines@).push(line@) + z_lines_from(
                    zv,
                    k + 1,
                    nv,
                    opts.icons,
                    color_on,
                ) =~= views_of(lines@) + z_lines_from(zv, k as int, nv, opts.icons, color_on));
            }
            lines.push(line);
        }
        k = k + 1;
    }
    proof {
        assert(views_of(lines@) + z_lines_from(zv, k as int, nv, opts.icons, color_on)
            =~= views_of(lines@));
    }
    lines
}

/// Fetches each requested source and composes the display list. A
/// failing source contributes nothing instead of aborting the whole
/// composition, so this never returns an error.
pub fn build_list_lines<S: Shell>(sh: &S, opts: &ListOptions) -> (r: Result<
    Vec<String>,
    ShellError,
>)
    ensures
        r is Ok,
        !opts.include_tmux && !opts.include_zox ==> r->Ok_0@.len() == 0,
{
    let sessions: Vec<String>;
    let active: Option<String>;
    if opts.include_tmux {
        sessions = match crate::tmux::list_sessions(sh) {
            Ok(v) => v,
            Err(_) => Vec::new(),
        };
        active = crate::tmux::active_session(sh);
    } else {
        sessions = Vec::new();
        active = None;
    }
    let items: Vec<ZItem> = if opts.include_zox {
        match crate::zoxide::list_all(sh) {
            Ok(v) => v,
            Err(_) => Vec::new(),
        }
    } else {
        Vec::new()
    };
    Ok(compose_list_lines(sessions, active, items, opts))
}

/// Every emitted frecency line comes from a path whose would-be session
/// name matches no listed session: an entry that would duplicate a
/// session is omitted.
pub proof fn lemma_duplicate_frecency_omitted(
    paths: Seq<Seq<char>>,
    i: int,
    names: Seq<Seq<char>>,
    icons: bool,
    color_on: bool,
)
    ensures
        forall|k: int|
            0 <= k < z_lines_from(paths, i, names, icons, color_on).len() ==> exists|j: int|
                i <= j < paths.len() && !name_matches_session(names, znorm(paths[j]))
                    && #[trigger] z_lines_from(paths, i, names, icons, color_on)[k]
                    == line_spec(prefix_spec(icons, color_on, true), paths[j]),
    decreases paths.len() - i,
{
    if i < 0 || i >= paths.len() {
    } else {
        lemma_duplicate_frecency_omitted(paths, i + 1, names, icons, color_on);
        let res = z_lines_from(paths, i, names, icons, color_on);
        let rest = z_lines_from(paths, i + 1, names, icons, color_on);
        if !name_matches_session(names, znorm(paths[i])) {
            assert forall|k: int| 0 <= k < res.len() implies exists|j: int|
                i <= j < paths.len() && !name_matches_session(names, znorm(paths[j]))
                    && #[trigger] res[k] == line_spec(prefix_spec(icons, color_on, true), paths[j]) by {
                if k == 0 {
                    assert(res[0] == line_spec(prefix_spec(icons, color_on, true), paths[i]));
                } else {
                    assert(res[k] == rest[k - 1]);
                    let j = choose|j: int|
                        i + 1 <= j < paths.len() && !name_matches_session(names, znorm(paths[j]))
                            && rest[k - 1] == line_spec(prefix_spec(icons, color_on, true), paths[j]);
                    assert(res[k] == line_spec(prefix_spec(icons, color_on, true), paths[j]));
                }
            }
        } else {
            assert forall|k: int| 0 <= k < res.len() implies exists|j: int|
                i <= j < paths.len() && !name_matches_session(names, znorm(paths[j]))
                    && #[trigger] res[k] == line_spec(prefix_spec(icons, color_on, true), paths[j]) by {
                assert(res[k] == rest[k]);
                let j = choose|j: int|
                    i + 1 <= j < paths.len() && !name_matches_session(names, znorm(paths[j]))
                        && rest[k] == line_spec(prefix_spec(icons, color_on, true), paths[j]);
                assert(res[k] == line_spec(prefix_spec(icons, color_on, true), paths[j]));
            }
        }
    }
}

/// The active session, when it is among the listed sessions, is always
/// the first composed line, whatever its lexicographic position.
pub proof fn lemma_active_session_first(
    sessions: Seq<Seq<char>>,
    a: Seq<char>,
    zpaths: Seq<Seq<char>>,
    opts: ListOptions,
)
    requires
        opts.include_tmux,
        sessions.contains(a),
    ensures
        compose_spec(sessions, Some(a), zpaths, opts).len() > 0,
        compose_spec(sessions, Some(a), zpaths, opts)[0] == line_spec(
            prefix_spec(opts.icons, !opts.no_color, false),
            a,
        ),
{
    let j = choose|j: int| 0 <= j < sessions.len() && sessions[j] == a;
    lemma_index_of_first_finds(sessions, a, 0);
    let sess = promote_active(sessions, Some(a));
    assert(sess[0] == a);
    assert(session_lines(sess, opts.icons, !opts.no_color)[0] == line_spec(
        prefix_spec(opts.icons, !opts.no_color, false),
        a,
    ));
}

} // verus!
