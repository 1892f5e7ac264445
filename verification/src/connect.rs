//! Turning one selected or typed display line into a canonical session
//! name plus an optional directory, and resolving it to a session:
//! attach if the session exists, else choose a working directory and
//! create it first.

use vstd::prelude::*;

verus! {

use crate::text::basename_chars;
use crate::text::basename_of;
use crate::text::chars_to_string;
use crate::text::find_char;
use crate::text::find_from;
use crate::text::join_range;
use crate::text::join_spaces;
use crate::text::join_tokens;
use crate::text::normalize_chars;
use crate::text::normalize_spec;
use crate::text::split_ws;
use crate::text::split_ws_chars;
use crate::text::str_to_chars;
use crate::text::suffix_chars;
use crate::text::trim_space_chars;
use crate::text::trim_spaces;
use crate::text::views_of;
use crate::shell::Shell;
use crate::shell::ShellError;
use vstd::string::StringExecFns;

/// One parsed selection line: the normalized session name, and the
/// directory parsed from the line if it held one.
pub struct ParsedLine {
    pub name: String,
    pub path: Option<String>,
}

/// The marker glyph shown before a multiplexer session entry.
pub open spec fn icon_tmux_char() -> char {
    '\u{ebc8}'
}

/// The marker glyph shown before a frecency entry.
pub open spec fn icon_zox_char() -> char {
    '\u{f114}'
}

/// Whether the line begins with a well-formed bracketed marker: an
/// opening bracket at the start, a non-empty tag up to the first
/// closing bracket, and exactly one following space.
pub open spec fn bracket_marker_present(s: Seq<char>) -> bool {
    let p = find_from(s, ']', 0);
    s.len() > 0 && s[0] == '[' && p < s.len() && p > 1 && p + 1 < s.len() && s[p + 1] == ' '
}

/// A line with its leading bracketed marker and the marker's one
/// following space removed; a line without that marker is left alone.
pub open spec fn strip_bracket(s: Seq<char>) -> Seq<char> {
    if bracket_marker_present(s) {
        s.skip(find_from(s, ']', 0) + 2)
    } else {
        s
    }
}

/// A line with one leading marker glyph removed, together with the one
/// or two spaces that follow it.
pub open spec fn strip_glyph(s: Seq<char>) -> Seq<char> {
    if s.len() >= 3 && s[0] == icon_tmux_char() && s[1] == ' ' && s[2] == ' ' {
        s.skip(3)
    } else if s.len() >= 3 && s[0] == icon_zox_char() && s[1] == ' ' && s[2] == ' ' {
        s.skip(3)
    } else if s.len() >= 2 && s[0] == icon_tmux_char() && s[1] == ' ' {
        s.skip(2)
    } else if s.len() >= 2 && s[0] == icon_zox_char() && s[1] == ' ' {
        s.skip(2)
    } else {
        s
    }
}

/// One leading marker removed: the bracketed marker when its form is
/// present, else one optional marker glyph.
pub open spec fn strip_marker(s: Seq<char>) -> Seq<char> {
    if bracket_marker_present(s) {
        strip_bracket(s)
    } else {
        strip_glyph(s)
    }
}

/// The tokens joined with single spaces, trimmed, and with one leading
/// marker removed.
pub open spec fn stripped_line(tokens: Seq<Seq<char>>) -> Seq<char> {
    strip_marker(trim_spaces(join_spaces(tokens)))
}

/// The position of the first whitespace-delimited token beginning with a
/// slash, or the token count if there is none.
pub open spec fn first_slash_from(parts: Seq<Seq<char>>, k: int) -> int
    decreases parts.len() - k,
{
    if k < 0 || k >= parts.len() {
        parts.len() as int
    } else if parts[k].len() > 0 && parts[k][0] == '/' {
        k
    } else {
        first_slash_from(parts, k + 1)
    }
}

/// The pre-normalization name of a stripped line: the tokens before the
/// first slash token, space-joined; the whole line when no token begins
/// with a slash.
pub open spec fn pre_name_of(s: Seq<char>) -> Seq<char> {
    let parts = split_ws(s);
    let k = first_slash_from(parts, 0);
    if k < parts.len() {
        join_spaces(parts.subrange(0, k))
    } else {
        s
    }
}

/// The directory of a stripped line: the first slash token and
/// everything after it, space-joined; nothing when no token begins with
/// a slash.
pub open spec fn path_of(s: Seq<char>) -> Option<Seq<char>> {
    let parts = split_ws(s);
    let k = first_slash_from(parts, 0);
    if k < parts.len() {
        Some(join_spaces(parts.subrange(k, parts.len() as int)))
    } else {
        None
    }
}

/// Whether a normalized name carries no information: empty, or the
/// single dash that a bare separator run collapses to.
pub open spec fn name_is_blank(n: Seq<char>) -> bool {
    n.len() == 0 || n == seq!['-']
}

/// The session name of a stripped line: the normalized pre-name, or,
/// when that is blank and the line held a directory with a final
/// component, that component normalized.
pub open spec fn parsed_name_of(s: Seq<char>) -> Seq<char> {
    let n = normalize_spec(pre_name_of(s));
    if name_is_blank(n) && path_of(s) is Some && basename_of(path_of(s)->0) is Some {
        normalize_spec(basename_of(path_of(s)->0)->0)
    } else {
        n
    }
}

/// The session name parsed from a raw token sequence.
pub open spec fn line_name_spec(tokens: Seq<Seq<char>>) -> Seq<char> {
    parsed_name_of(stripped_line(tokens))
}

/// The directory parsed from a raw token sequence.
pub open spec fn line_path_spec(tokens: Seq<Seq<char>>) -> Option<Seq<char>> {
    path_of(stripped_line(tokens))
}

/// Normalizes a session name: surrounding whitespace removed, colons
/// and hashes turned into dashes, each whitespace run turned into a
/// single dash, surrounding dashes removed.
pub fn normalize_name(s: &str) -> (r: String)
    ensures
        r@ == normalize_spec(s@),
{
    let v = str_to_chars(s);
    let n = normalize_chars(&v);
    chars_to_string(&n)
}

/// Parses one selected or typed line, given as whitespace-delimited
/// tokens, into a session name and an optional directory.
pub fn parse_connect_line(tokens: &Vec<String>) -> (r: ParsedLine)
    ensures
        r.name@ == line_name_spec(views_of(tokens@)),
        (r.path is Some) == (line_path_spec(views_of(tokens@)) is Some),
        r.path is Some ==> r.path->0@ == line_path_spec(views_of(tokens@))->0,
{
    let joined = join_tokens(tokens);
    let trimmed = trim_space_chars(&joined);
    // a well-formed bracketed marker: non-empty tag, one following space
    let mut sv: Vec<char> = trimmed;
    let ghost t0 = sv@;
    let mut bracket = false;
    if sv.len() > 0 && sv[0] == '[' {
        let pos = find_char(&sv, ']');
        if pos < sv.len() && pos > 1 && pos + 1 < sv.len() && sv[pos + 1] == ' ' {
            sv = suffix_chars(&sv, pos + 2);
            bracket = true;
        }
    }
    proof {
        assert(bracket == bracket_marker_present(t0));
        if bracket {
            assert(sv@ == strip_bracket(t0));
        }
    }
    // else one leading marker glyph
    if !bracket {
        if sv.len() >= 3 && sv[0] == '\u{ebc8}' && sv[1] == ' ' && sv[2] == ' ' {
            sv = suffix_chars(&sv, 3);
        } else if sv.len() >= 3 && sv[0] == '\u{f114}' && sv[1] == ' ' && sv[2] == ' ' {
            sv = suffix_chars(&sv, 3);
        } else if sv.len() >= 2 && sv[0] == '\u{ebc8}' && sv[1] == ' ' {
            sv = suffix_chars(&sv, 2);
        } else if sv.len() >= 2 && sv[0] == '\u{f114}' && sv[1] == ' ' {
            sv = suffix_chars(&sv, 2);
        }
        proof {
            assert(sv@ == strip_glyph(t0));
        }
    }
    proof {
        assert(sv@ == strip_marker(t0));
        assert(sv@ == stripped_line(views_of(tokens@)));
    }
    // the first token that begins with a slash starts the directory
    let parts = split_ws_chars(&sv);
    let ghost pv = views_of(parts@);
    let mut k: usize = 0;
    while k < parts.len() && !(parts[k].len() > 0 && parts[k][0] == '/')
        invariant
            0 <= k <= parts.len(),
            pv == views_of(parts@),
            pv.len() == parts@.len(),
            first_slash_from(pv, 0) == first_slash_from(pv, k as int),
        decreases parts.len() - k,
    {
        proof {
            assert(pv[k as int] == parts@[k as int]@);
        }
        k = k + 1;
    }
    proof {
        if k < parts.len() {
            assert(pv[k as int] == parts@[k as int]@);
            assert(first_slash_from(pv, 0) == k);
        } else {
            assert(first_slash_from(pv, 0) == pv.len());
        }
    }
    let name_chars: Vec<char>;
    let path_chars: Option<Vec<char>>;
    if k < parts.len() {
        name_chars = join_range(&parts, 0, k);
        path_chars = Some(join_range(&parts, k, parts.len()));
    } else {
        name_chars = sv;
        path_chars = None;
    }
    let mut name = normalize_chars(&name_chars);
    proof {
        if k < parts.len() {
            assert(name@ == normalize_spec(pre_name_of(stripped_line(views_of(tokens@)))));
        }
    }
    // a blank name is taken from the directory's final component instead
    if (name.len() == 0 || (name.len() == 1 && name[0] == '-')) && path_chars.is_some() {
        proof {
            if name@.len() == 1 && name@[0] == '-' {
                assert(name@ =~= seq!['-']);
            }
        }
        match &path_chars {
            Some(p) => {
                match basename_chars(p) {
                    Some(b) => {
                        name = normalize_chars(&b);
                    },
                    None => {},
                }
            },
            None => {},
        }
    } else {
        proof {
            if !(name@.len() == 0 || (name@.len() == 1 && name@[0] == '-')) {
                assert(!name_is_blank(name@)) by {
                    if name@ == seq!['-'] {
                        assert(name@.len() == 1 && name@[0] == '-');
                    }
                }
            }
        }
    }
    let name_s = chars_to_string(&name);
    match path_chars {
        Some(p) => ParsedLine { name: name_s, path: Some(chars_to_string(&p)) },
        None => ParsedLine { name: name_s, path: None },
    }
}


/// Raw input to a connect operation: the selected or typed line as
/// whitespace-delimited tokens, and an optional explicit directory
/// override for a newly created session.
pub struct ConnectOptions {
    pub tokens: Vec<String>,
    pub dir: Option<String>,
}

/// Why a connect operation failed: the parsed line yielded an empty
/// session name, or an external command failed.
#[derive(Debug)]
pub enum ConnectError {
    EmptyName,
    Shell(ShellError),
}

impl ConnectError {
    /// The single-line message describing the failure.
    pub fn message(&self) -> (r: String)
        ensures
            self is EmptyName ==> r@ == "empty session name"@,
            self is Shell ==> r@ == self->Shell_0.message@,
    {
        match self {
            ConnectError::EmptyName => String::from_str("empty session name"),
            ConnectError::Shell(e) => e.message.clone(),
        }
    }
}

/// The resolved action for one connect operation: attach to the named
/// session, or create it at a directory and then attach.
pub enum ConnectPlan {
    Attach { name: String },
    Create { name: String, dir: String },
}

/// The same resolution, over mathematical values.
pub enum PlanSpec {
    Attach { name: Seq<char> },
    Create { name: Seq<char>, dir: Seq<char> },
}

/// The view of an optional string.
pub open spec fn view_opt(o: Option<String>) -> Option<Seq<char>> {
    match o {
        Some(s) => Some(s@),
        None => None,
    }
}

/// The working directory for a new session, by strict priority: the
/// explicit override, else the directory parsed from the line, else the
/// frecency match, else the home directory, else the current directory.
pub open spec fn chosen_dir_spec(
    over: Option<Seq<char>>,
    parsed: Option<Seq<char>>,
    fre: Option<Seq<char>>,
    home: Option<Seq<char>>,
) -> Seq<char> {
    if over is Some {
        over->0
    } else if parsed is Some {
        parsed->0
    } else if fre is Some {
        fre->0
    } else if home is Some {
        home->0
    } else {
        seq!['.']
    }
}

/// What a connect operation does: an existing session is entered as it
/// is — never recreated, never moved — and only a missing one is
/// created, at the directory the priority chain selects.
pub open spec fn plan_spec(
    name: Seq<char>,
    exists: bool,
    over: Option<Seq<char>>,
    parsed: Option<Seq<char>>,
    fre: Option<Seq<char>>,
    home: Option<Seq<char>>,
) -> PlanSpec {
    if exists {
        PlanSpec::Attach { name }
    } else {
        PlanSpec::Create { name, dir: chosen_dir_spec(over, parsed, fre, home) }
    }
}

/// Resolves one connect operation to its action.
pub fn plan_connect(
    name: String,
    exists: bool,
    dir_override: Option<String>,
    parsed_path: Option<String>,
    frecency: Option<String>,
    home: Option<String>,
) -> (r: ConnectPlan)
    ensures
        ({
            let ps = plan_spec(
                name@,
                exists,
                view_opt(dir_override),
                view_opt(parsed_path),
                view_opt(frecency),
                view_opt(home),
            );
            match r {
                ConnectPlan::Attach { name: n } => ps == (PlanSpec::Attach { name: n@ }),
                ConnectPlan::Create { name: n, dir: d } => ps == (PlanSpec::Create {
                    name: n@,
                    dir: d@,
                }),
            }
        }),
{
    if exists {
        ConnectPlan::Attach { name }
    } else {
        let dir = match dir_override {
            Some(d) => d,
            None => match parsed_path {
                Some(p) => p,
                None => match frecency {
                    Some(f) => f,
                    None => match home {
                        Some(h) => h,
                        None => {
                            let dot = String::from_str(".");
                            proof {
                                reveal_strlit(".");
                                assert(dot@ =~= seq!['.']);
                            }
                            dot
                        },
                    },
                },
            },
        };
        ConnectPlan::Create { name, dir }
    }
}

/// Relies on `dirs_next::home_dir`: the user's home directory if the
/// platform reports one; the result depends on the environment.
#[verifier::external_body]
fn home_dir() -> (r: Option<String>) {
    dirs_next::home_dir().map(|p| p.to_string_lossy().to_string())
}

/// Connects to the session named by the tokens: parse, then attach if
/// the session exists; otherwise choose a directory by strict priority
/// — explicit override, parsed path, frecency match, home directory,
/// current directory — create the session there, and attach. An empty
/// parsed name is rejected; it is the only input this operation refuses
/// on its own.
pub fn run_connect<S: Shell>(sh: &S, opts: ConnectOptions) -> (r: Result<(), ConnectError>)
    ensures
        (line_name_spec(views_of(opts.tokens@)).len() == 0) == (r is Err
            && r->Err_0 is EmptyName),
{
    let parsed = parse_connect_line(&opts.tokens);
    if parsed.name.as_str().is_empty() {
        return Err(ConnectError::EmptyName);
    }
    let exists = match crate::tmux::has_session(sh, parsed.name.as_str()) {
        Ok(b) => b,
        Err(_) => false,
    };
    let need_lookup = !exists && opts.dir.is_none() && parsed.path.is_none();
    let frecency = if need_lookup {
        crate::zoxide::best_match_dir(sh, parsed.name.as_str())
    } else {
        None
    };
    let home = if need_lookup && frecency.is_none() {
        home_dir()
    } else {
        None
    };
    let plan = plan_connect(parsed.name, exists, opts.dir, parsed.path, frecency, home);
    match plan {
        ConnectPlan::Attach { name } => {
            match crate::tmux::attach_or_switch(sh, name.as_str()) {
                Ok(_) => Ok(()),
                Err(e) => Err(ConnectError::Shell(e)),
            }
        },
        ConnectPlan::Create { name, dir } => {
            match crate::tmux::create_session(sh, name.as_str(), dir.as_str()) {
                Ok(_) => {},
                Err(e) => {
                    return Err(ConnectError::Shell(e));
                },
            }
            match crate::tmux::attach_or_switch(sh, name.as_str()) {
                Ok(_) => Ok(()),
                Err(e) => Err(ConnectError::Shell(e)),
            }
        },
    }
}


/// A leading bracketed marker is excluded from the parsed result
/// entirely: a line of the form `[tag] rest`, with a non-empty tag and
/// no closing bracket inside it, parses exactly as its remainder does.
pub proof fn lemma_bracket_marker_excluded(tokens: Seq<Seq<char>>, tag: Seq<char>, rest: Seq<char>)
    requires
        trim_spaces(join_spaces(tokens)) == seq!['['] + tag + seq![']', ' '] + rest,
        tag.len() > 0,
        !tag.contains(']'),
    ensures
        line_name_spec(tokens) == parsed_name_of(rest),
        line_path_spec(tokens) == path_of(rest),
{
    let s = trim_spaces(join_spaces(tokens));
    let n = tag.len() as int;
    assert(s.len() == n + 3 + rest.len());
    assert(s[0] == '[');
    assert(s[n + 1] == ']');
    crate::text::lemma_find_from(s, ']', 0);
    let f = find_from(s, ']', 0);
    assert(f <= n + 1);
    if f < n + 1 {
        if f == 0 {
            assert(s[0] == ']');
            assert(false);
        } else {
            assert(s[f] == tag[f - 1]);
            assert(tag.contains(']')) by {
                assert(tag[f - 1] == ']');
            }
            assert(false);
        }
    }
    assert(f == n + 1);
    assert(s[f + 1] == ' ');
    assert(bracket_marker_present(s));
    assert(s.skip(f + 2) =~= rest);
    assert(strip_marker(s) == rest);
}

/// A leading marker glyph with two following spaces is excluded from
/// the parsed result entirely: the line parses exactly as its remainder
/// does.
pub proof fn lemma_glyph_marker_excluded_wide(tokens: Seq<Seq<char>>, zox: bool, rest: Seq<char>)
    requires
        trim_spaces(join_spaces(tokens)) == seq![
            if zox { icon_zox_char() } else { icon_tmux_char() },
            ' ',
            ' ',
        ] + rest,
    ensures
        line_name_spec(tokens) == parsed_name_of(rest),
        line_path_spec(tokens) == path_of(rest),
{
    let s = trim_spaces(join_spaces(tokens));
    assert(s[0] != '[');
    assert(!bracket_marker_present(s));
    assert(s.skip(3) =~= rest);
    assert(strip_marker(s) == rest);
}

/// A leading marker glyph with one following space is excluded from the
/// parsed result entirely, provided the remainder does not begin with
/// yet another space: the line parses exactly as its remainder does.
pub proof fn lemma_glyph_marker_excluded(tokens: Seq<Seq<char>>, zox: bool, rest: Seq<char>)
    requires
        trim_spaces(join_spaces(tokens)) == seq![
            if zox { icon_zox_char() } else { icon_tmux_char() },
            ' ',
        ] + rest,
        rest.len() == 0 || rest[0] != ' ',
    ensures
        line_name_spec(tokens) == parsed_name_of(rest),
        line_path_spec(tokens) == path_of(rest),
{
    let s = trim_spaces(join_spaces(tokens));
    assert(s[0] != '[');
    assert(!bracket_marker_present(s));
    if s.len() >= 3 {
        assert(s[2] == rest[0]);
    }
    assert(s.skip(2) =~= rest);
    assert(strip_marker(s) == rest);
}

pub proof fn lemma_first_slash_at(parts: Seq<Seq<char>>, k: int, i: int)
    requires
        0 <= i <= k <= parts.len(),
        forall|j: int|
            #![trigger parts[j]]
            i <= j < k ==> (parts[j].len() == 0 || parts[j][0] != '/'),
        k < parts.len() ==> parts[k].len() > 0 && parts[k][0] == '/',
    ensures
        first_slash_from(parts, i) == if k < parts.len() {
            k
        } else {
            parts.len() as int
        },
    decreases k - i,
{
    if i < k {
        lemma_first_slash_at(parts, k, i + 1);
    }
}

/// If any token begins with a slash, the first such token begins the
/// directory, and the tokens strictly before it, space-joined, form the
/// pre-normalization name.
pub proof fn lemma_first_slash_splits(s: Seq<char>, k: int)
    requires
        0 <= k < split_ws(s).len(),
        split_ws(s)[k].len() > 0 && split_ws(s)[k][0] == '/',
        forall|j: int|
            #![trigger split_ws(s)[j]]
            0 <= j < k ==> (split_ws(s)[j].len() == 0 || split_ws(s)[j][0] != '/'),
    ensures
        path_of(s) == Some(
            join_spaces(split_ws(s).subrange(k, split_ws(s).len() as int)),
        ),
        pre_name_of(s) == join_spaces(split_ws(s).subrange(0, k)),
{
    lemma_first_slash_at(split_ws(s), k, 0);
}

/// A blank pre-normalization name — empty or a single dash — together
/// with a parsed directory takes the session name from the directory's
/// final component, normalized the same way.
pub proof fn lemma_name_from_basename(s: Seq<char>)
    requires
        name_is_blank(normalize_spec(pre_name_of(s))),
        path_of(s) is Some,
        basename_of(path_of(s)->0) is Some,
    ensures
        parsed_name_of(s) == normalize_spec(basename_of(path_of(s)->0)->0),
{
}

/// The counterpart: when the parsed directory has no final component —
/// a bare root, or a path ending in a dot component — a blank name
/// stays blank; no component is invented for it.
pub proof fn lemma_blank_name_without_basename(s: Seq<char>)
    requires
        name_is_blank(normalize_spec(pre_name_of(s))),
        path_of(s) is Some,
        basename_of(path_of(s)->0) is None,
    ensures
        parsed_name_of(s) == normalize_spec(pre_name_of(s)),
{
}

/// An existing session is never recreated and its directory is never
/// changed: whatever directory hints are present, the plan for an
/// existing session is to attach to it under its own name.
pub proof fn lemma_existing_session_attaches(
    name: Seq<char>,
    over: Option<Seq<char>>,
    parsed: Option<Seq<char>>,
    fre: Option<Seq<char>>,
    home: Option<Seq<char>>,
)
    ensures
        plan_spec(name, true, over, parsed, fre, home) == (PlanSpec::Attach { name }),
{
}

/// An explicit directory override wins over every other directory
/// source: a missing session is created at the override, whatever the
/// parsed path, the frecency match, or the home directory say.
pub proof fn lemma_override_dir_wins(
    name: Seq<char>,
    d: Seq<char>,
    parsed: Option<Seq<char>>,
    fre: Option<Seq<char>>,
    home: Option<Seq<char>>,
)
    ensures
        plan_spec(name, false, Some(d), parsed, fre, home) == (PlanSpec::Create {
            name,
            dir: d,
        }),
{
}

/// With no explicit override, the directory parsed from the line wins
/// over the frecency match and the home directory.
pub proof fn lemma_parsed_path_wins(
    name: Seq<char>,
    p: Seq<char>,
    fre: Option<Seq<char>>,
    home: Option<Seq<char>>,
)
    ensures
        plan_spec(name, false, None, Some(p), fre, home) == (PlanSpec::Create {
            name,
            dir: p,
        }),
{
}

} // verus!
