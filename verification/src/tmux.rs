//! Queries against the terminal multiplexer, all made through the
//! execution interface: the session listing, the best-effort active
//! session, existence, detached creation, and attach-or-switch.

use vstd::prelude::*;

verus! {

use vstd::string::StringExecFns;

use crate::shell::Shell;
use crate::shell::ShellError;
use crate::text::chars_to_string;
use crate::text::clean_lines;
use crate::text::clean_lines_str;
use crate::text::find_from;
use crate::text::first_trimmed_line_str;
use crate::text::lemma_lex_le_refl;
use crate::text::lemma_lex_le_total;
use crate::text::lemma_lex_le_trans;
use crate::text::lemma_views_push;
use crate::text::lex_le;
use crate::text::lines_chars;
use crate::text::lines_of;
use crate::text::sort_strings;
use crate::text::sorted_lex;
use crate::text::str_lex_le;
use crate::text::str_to_chars;
use crate::text::suffix_chars;
use crate::text::trim_space_chars;
use crate::text::trim_spaces;
use crate::text::views_of;

/// The session names found in a listing output: the non-empty trimmed
/// lines, lexicographically sorted.
pub fn sessions_from_output(out: &str) -> (r: Vec<String>)
    ensures
        sorted_lex(views_of(r@)),
        views_of(r@).to_multiset() == clean_lines(out@).to_multiset(),
{
    let ls = clean_lines_str(out);
    sort_strings(ls)
}

/// The exact argument vector of the session-listing query.
pub fn list_sessions_args() -> (a: Vec<String>)
    ensures
        views_of(a@) == seq![("list-sessions")@, ("-F")@, ("#S")@],
{
    let mut a: Vec<String> = Vec::new();
    a.push(String::from_str("list-sessions"));
    a.push(String::from_str("-F"));
    a.push(String::from_str("#S"));
    proof {
        assert(views_of(a@) =~= seq![("list-sessions")@, ("-F")@, ("#S")@]);
    }
    a
}

/// The existing sessions, lexicographically sorted. A failing listing
/// query counts as no sessions, not as an error.
pub fn list_sessions<S: Shell>(sh: &S) -> (r: Result<Vec<String>, ShellError>)
    ensures
        r is Ok,
        sorted_lex(views_of(r->Ok_0@)),
{
    let args = list_sessions_args();
    let out = match sh.run("tmux", &args) {
        Ok(o) => o,
        Err(_) => String::new(),
    };
    Ok(sessions_from_output(out.as_str()))
}

/// The attached session names in a tagged listing, in line order: each
/// line carries an attached marker, a tab, and a name; a line counts
/// when the marker is exactly `1` and the name trims to something.
pub open spec fn attached_names(ls: Seq<Seq<char>>, i: int) -> Seq<Seq<char>>
    decreases ls.len() - i,
{
    if i < 0 || i >= ls.len() {
        Seq::empty()
    } else {
        let line = ls[i];
        let t = find_from(line, '\t', 0);
        if t < line.len() && line.subrange(0, t) == seq!['1'] && trim_spaces(
            line.skip(t + 1),
        ).len() > 0 {
            seq![trim_spaces(line.skip(t + 1))] + attached_names(ls, i + 1)
        } else {
            attached_names(ls, i + 1)
        }
    }
}

pub proof fn lemma_attached_names_nonempty(ls: Seq<Seq<char>>, i: int)
    ensures
        forall|k: int|
            0 <= k < attached_names(ls, i).len() ==> #[trigger] attached_names(ls, i)[k].len()
                > 0,
    decreases ls.len() - i,
{
    if i < 0 || i >= ls.len() {
    } else {
        lemma_attached_names_nonempty(ls, i + 1);
        let line = ls[i];
        let t = find_from(line, '\t', 0);
        if t < line.len() && line.subrange(0, t) == seq!['1'] && trim_spaces(
            line.skip(t + 1),
        ).len() > 0 {
            let res = attached_names(ls, i);
            let rest = attached_names(ls, i + 1);
            assert forall|k: int| 0 <= k < res.len() implies #[trigger] res[k].len() > 0 by {
                if k > 0 {
                    assert(res[k] == rest[k - 1]);
                }
            }
        }
    }
}

/// The lexicographically first attached session in a tagged listing, if
/// any line reports one.
pub fn active_from_tagged(out: &str) -> (r: Option<String>)
    ensures
        ({
            let cands = attached_names(lines_of(out@), 0);
            &&& (r is Some) == (cands.len() > 0)
            &&& r is Some ==> cands.contains(r->0@)
            &&& r is Some ==> forall|x: Seq<char>| cands.contains(x) ==> lex_le(r->0@, x)
        }),
{
    let v = str_to_chars(out);
    let ls = lines_chars(&v);
    let ghost lsv = views_of(ls@);
    let mut cands: Vec<String> = Vec::new();
    let mut i: usize = 0;
    proof {
        assert(views_of(cands@) =~= Seq::<Seq<char>>::empty());
    }
    while i < ls.len()
        invariant
            0 <= i <= ls.len(),
            lsv == views_of(ls@),
            lsv.len() == ls@.len(),
            views_of(cands@) + attached_names(lsv, i as int) == attached_names(lsv, 0),
        decreases ls.len() - i,
    {
        proof {
            assert(lsv[i as int] == ls@[i as int]@);
        }
        let line = &ls[i];
        let ghost lv = line@;
        let t = crate::text::find_char(line, '\t');
        if t < line.len() {
            let tag = crate::text::take_chars(line, t);
            let rest = suffix_chars(line, t + 1);
            let name = trim_space_chars(&rest);
            if tag.len() == 1 && tag[0] == '1' && name.len() > 0 {
                proof {
                    assert(tag@ =~= seq!['1']);
                }
                let w = chars_to_string(&name);
                proof {
                    lemma_views_push(cands@, w);
                    assert(views_of(cands@).push(w@) + attached_names(lsv, i + 1)
                        =~= views_of(cands@) + attached_names(lsv, i as int));
                }
                cands.push(w);
            } else {
                proof {
                    if lv.subrange(0, t as int) == seq!['1'] {
                        assert(tag@.len() == 1 && tag@[0] == '1');
                    }
                }
            }
        }
        i = i + 1;
    }
    proof {
        assert(views_of(cands@) + attached_names(lsv, i as int) =~= views_of(cands@));
    }
    // the lexicographically first candidate
    if cands.len() == 0 {
        return None;
    }
    let ghost cv = views_of(cands@);
    let mut best: String = cands[0].clone();
    let mut j: usize = 1;
    proof {
        assert(cv[0] == cands@[0]@);
        lemma_lex_le_refl(best@);
    }
    while j < cands.len()
        invariant
            1 <= j <= cands.len(),
            cv == views_of(cands@),
            cv.len() == cands@.len(),
            exists|m: int| 0 <= m < cv.len() && cv[m] == best@,
            forall|m: int| 0 <= m < j ==> lex_le(best@, #[trigger] cv[m]),
        decreases cands.len() - j,
    {
        proof {
            assert(cv[j as int] == cands@[j as int]@);
        }
        if str_lex_le(cands[j].as_str(), best.as_str()) {
            let nb = cands[j].clone();
            proof {
                assert forall|m: int| 0 <= m < j + 1 implies lex_le(nb@, #[trigger] cv[m]) by {
                    if m < j {
                        lemma_lex_le_trans(nb@, best@, cv[m]);
                    } else {
                        lemma_lex_le_refl(nb@);
                    }
                }
            }
            best = nb;
        } else {
            proof {
                lemma_lex_le_total(cv[j as int], best@);
            }
        }
        j = j + 1;
    }
    proof {
        assert forall|x: Seq<char>| cv.contains(x) implies lex_le(best@, x) by {
            let m = choose|m: int| 0 <= m < cv.len() && cv[m] == x;
            assert(lex_le(best@, cv[m]));
        }
        assert(cv.contains(best@));
    }
    Some(best)
}

/// The exact argument vector of the direct current-session query.
pub fn current_session_args() -> (a: Vec<String>)
    ensures
        views_of(a@) == seq![("display-message")@, ("-p")@, ("-F")@, ("#S")@],
{
    let mut a: Vec<String> = Vec::new();
    a.push(String::from_str("display-message"));
    a.push(String::from_str("-p"));
    a.push(String::from_str("-F"));
    a.push(String::from_str("#S"));
    proof {
        assert(views_of(a@) =~= seq![("display-message")@, ("-p")@, ("-F")@, ("#S")@]);
    }
    a
}

/// The exact argument vector of the fallback listing that tags each
/// session with its attached marker before a tab and the name.
pub fn attached_list_args() -> (a: Vec<String>)
    ensures
        views_of(a@) == seq![
            ("list-sessions")@,
            ("-F")@,
            ("#{?session_attached,1,0}\t#S")@,
        ],
{
    let mut a: Vec<String> = Vec::new();
    a.push(String::from_str("list-sessions"));
    a.push(String::from_str("-F"));
    a.push(String::from_str("#{?session_attached,1,0}\t#S"));
    proof {
        assert(views_of(a@) =~= seq![
            ("list-sessions")@,
            ("-F")@,
            ("#{?session_attached,1,0}\t#S")@,
        ]);
    }
    a
}

/// The best-effort active session: the current-session query's first
/// line if it names one, else the lexicographically first attached
/// session of a tagged listing; nothing when neither query reports one.
pub fn active_session<S: Shell>(sh: &S) -> (r: Option<String>)
    ensures
        r is Some ==> r->0@.len() > 0,
{
    let args = current_session_args();
    let disp = match sh.run("tmux", &args) {
        Ok(o) => o,
        Err(_) => String::new(),
    };
    match first_trimmed_line_str(disp.as_str()) {
        Some(n) => {
            return Some(n);
        },
        None => {},
    }
    let args2 = attached_list_args();
    let out = match sh.run("tmux", &args2) {
        Ok(o) => o,
        Err(_) => String::new(),
    };
    let r = active_from_tagged(out.as_str());
    proof {
        lemma_attached_names_nonempty(lines_of(out@), 0);
        if r is Some {
            let cands = attached_names(lines_of(out@), 0);
            let m = choose|m: int| 0 <= m < cands.len() && cands[m] == r->0@;
            assert(cands[m].len() > 0);
        }
    }
    r
}

/// The exact argument vector of the existence probe for the given
/// name.
pub fn has_session_args(name: &str) -> (a: Vec<String>)
    ensures
        views_of(a@) == seq![("has-session")@, ("-t")@, name@],
{
    let mut a: Vec<String> = Vec::new();
    a.push(String::from_str("has-session"));
    a.push(String::from_str("-t"));
    a.push(String::from_str(name));
    proof {
        assert(views_of(a@) =~= seq![("has-session")@, ("-t")@, name@]);
    }
    a
}

/// Whether a session with exactly this name exists: the existence
/// probe, issued for exactly the given name, decides by its exit
/// status; only a spawn failure is an error.
pub fn has_session<S: Shell>(sh: &S, name: &str) -> (r: Result<bool, ShellError>) {
    let args = has_session_args(name);
    sh.run_status("tmux", &args)
}

/// The exact argument vector of detached creation: the given name, and
/// the given working directory.
pub fn create_session_args(name: &str, dir: &str) -> (a: Vec<String>)
    ensures
        views_of(a@) == seq![("new-session")@, ("-ds")@, name@, ("-c")@, dir@],
{
    let mut a: Vec<String> = Vec::new();
    a.push(String::from_str("new-session"));
    a.push(String::from_str("-ds"));
    a.push(String::from_str(name));
    a.push(String::from_str("-c"));
    a.push(String::from_str(dir));
    proof {
        assert(views_of(a@) =~= seq![("new-session")@, ("-ds")@, name@, ("-c")@, dir@]);
    }
    a
}

/// Creates a detached session under exactly the given name at exactly
/// the given working directory; does not attach. A failure of the
/// creation command propagates.
pub fn create_session<S: Shell>(sh: &S, name: &str, dir: &str) -> (r: Result<(), ShellError>) {
    let args = create_session_args(name, dir);
    match sh.run("tmux", &args) {
        Ok(_) => Ok(()),
        Err(e) => Err(e),
    }
}

/// The command the environment marker selects, aimed at exactly the
/// given name: a client switch when the caller is already inside a
/// multiplexer client, an interactive attach otherwise.
pub fn attach_args(inside: bool, name: &str) -> (a: Vec<String>)
    ensures
        inside ==> views_of(a@) == seq![("switch-client")@, ("-t")@, name@],
        !inside ==> views_of(a@) == seq![("attach")@, ("-t")@, name@],
{
    let mut a: Vec<String> = Vec::new();
    if inside {
        a.push(String::from_str("switch-client"));
    } else {
        a.push(String::from_str("attach"));
    }
    a.push(String::from_str("-t"));
    a.push(String::from_str(name));
    proof {
        if inside {
            assert(views_of(a@) =~= seq![("switch-client")@, ("-t")@, name@]);
        } else {
            assert(views_of(a@) =~= seq![("attach")@, ("-t")@, name@]);
        }
    }
    a
}

/// Enters the named session: a client switch when the environment
/// marker says the caller is already inside a multiplexer client (an
/// attach would nest sessions), an interactive inherit-terminal attach
/// otherwise; the issued command's failure propagates.
pub fn attach_or_switch<S: Shell>(sh: &S, name: &str) -> (r: Result<(), ShellError>) {
    let inside = sh.env_var("TMUX").is_some();
    let args = attach_args(inside, name);
    if inside {
        match sh.run("tmux", &args) {
            Ok(_) => Ok(()),
            Err(e) => Err(e),
        }
    } else {
        sh.run_tty("tmux", &args)
    }
}

} // verus!
