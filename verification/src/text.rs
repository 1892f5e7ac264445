//! Character-level machinery shared by the line parser and the list
//! composer: whitespace classification, trimming, name normalization,
//! token joining and splitting, line splitting, lexicographic order and
//! sorting, and the final path component of a slash-separated path.

use vstd::prelude::*;

verus! {

use vstd::string::StrSliceExecFns;

/// The views of a sequence of viewable values, element by element.
pub open spec fn views_of<T: View>(s: Seq<T>) -> Seq<T::V> {
    s.map_values(|x: T| x.view())
}

pub proof fn lemma_views_push<T: View>(s: Seq<T>, x: T)
    ensures
        views_of(s.push(x)) == views_of(s).push(x.view()),
{
    assert(views_of(s.push(x)) =~= views_of(s).push(x.view()));
}

/// True exactly for the characters that count as whitespace when a raw
/// input line is tokenized and a session name is normalized (the Unicode
/// white-space code points).
pub open spec fn is_space(c: char) -> bool {
    let u = c as u32;
    u == 0x09 || u == 0x0a || u == 0x0b || u == 0x0c || u == 0x0d || u == 0x20 || u == 0x85
        || u == 0xa0 || u == 0x1680 || (0x2000 <= u && u <= 0x200a) || u == 0x2028 || u == 0x2029
        || u == 0x202f || u == 0x205f || u == 0x3000
}

/// Whitespace test used by the tokenizer and the name normalizer.
pub fn is_space_char(c: char) -> (r: bool)
    ensures
        r == is_space(c),
{
    let u = c as u32;
    u == 0x09 || u == 0x0a || u == 0x0b || u == 0x0c || u == 0x0d || u == 0x20 || u == 0x85
        || u == 0xa0 || u == 0x1680 || (0x2000 <= u && u <= 0x200a) || u == 0x2028 || u == 0x2029
        || u == 0x202f || u == 0x205f || u == 0x3000
}

/// Session names may not contain the multiplexer's delimiter characters:
/// a colon or a hash is replaced by a dash, everything else is kept.
pub open spec fn map_sep(c: char) -> char {
    if c == ':' || c == '#' {
        '-'
    } else {
        c
    }
}

/// Relies on `String::push`: appends exactly the given character.
#[verifier::external_body]
fn push_char(s: &mut String, c: char)
    ensures
        final(s)@ == old(s)@.push(c),
{
    s.push(c);
}

/// Rebuilds a `String` holding exactly the given characters, in order.
pub fn chars_to_string(v: &Vec<char>) -> (s: String)
    ensures
        s@ == v@,
{
    let mut s = String::new();
    let mut i: usize = 0;
    while i < v.len()
        invariant
            0 <= i <= v.len(),
            s@ == v@.subrange(0, i as int),
        decreases v.len() - i,
    {
        push_char(&mut s, v[i]);
        proof {
            assert(v@.subrange(0, i as int).push(v@[i as int]) =~= v@.subrange(0, i + 1));
        }
        i = i + 1;
    }
    proof {
        assert(v@.subrange(0, v@.len() as int) =~= v@);
    }
    s
}

/// The characters of a string slice, in order.
pub fn str_to_chars(s: &str) -> (v: Vec<char>)
    ensures
        v@ == s@,
{
    let n = s.unicode_len();
    let mut v: Vec<char> = Vec::new();
    let mut i: usize = 0;
    while i < n
        invariant
            0 <= i <= n,
            n == s@.len(),
            v@ == s@.subrange(0, i as int),
        decreases n - i,
    {
        v.push(s.get_char(i));
        proof {
            assert(s@.subrange(0, i as int).push(s@[i as int]) =~= s@.subrange(0, i + 1));
        }
        i = i + 1;
    }
    proof {
        assert(s@.subrange(0, s@.len() as int) =~= s@);
    }
    v
}

/// What remains after the longest prefix of characters satisfying `p` is
/// removed.
pub open spec fn drop_leading_while(s: Seq<char>, p: spec_fn(char) -> bool) -> Seq<char>
    decreases s.len(),
{
    if s.len() > 0 && p(s[0]) {
        drop_leading_while(s.drop_first(), p)
    } else {
        s
    }
}

/// What remains after the longest suffix of characters satisfying `p` is
/// removed.
pub open spec fn drop_trailing_while(s: Seq<char>, p: spec_fn(char) -> bool) -> Seq<char>
    decreases s.len(),
{
    if s.len() > 0 && p(s[s.len() - 1]) {
        drop_trailing_while(s.drop_last(), p)
    } else {
        s
    }
}

/// What remains after characters satisfying `p` are removed from both ends.
pub open spec fn trim_while(s: Seq<char>, p: spec_fn(char) -> bool) -> Seq<char> {
    drop_trailing_while(drop_leading_while(s, p), p)
}

pub open spec fn space_pred() -> spec_fn(char) -> bool {
    |c: char| is_space(c)
}

pub open spec fn dash_pred() -> spec_fn(char) -> bool {
    |c: char| c == '-'
}

/// The string with surrounding whitespace removed.
pub open spec fn trim_spaces(s: Seq<char>) -> Seq<char> {
    trim_while(s, space_pred())
}

/// The string with surrounding dashes removed.
pub open spec fn trim_dashes(s: Seq<char>) -> Seq<char> {
    trim_while(s, dash_pred())
}

pub proof fn lemma_drop_leading_at(s: Seq<char>, p: spec_fn(char) -> bool, i: int)
    requires
        0 <= i <= s.len(),
        forall|k: int| 0 <= k < i ==> p(s[k]),
        i == s.len() || !p(s[i]),
    ensures
        drop_leading_while(s, p) == s.skip(i),
    decreases i,
{
    if i == 0 {
        assert(s.skip(0) =~= s);
    } else {
        let t = s.drop_first();
        assert(t =~= s.skip(1));
        lemma_drop_leading_at(t, p, i - 1);
        assert(t.skip(i - 1) =~= s.skip(i));
    }
}

pub proof fn lemma_drop_trailing_at(s: Seq<char>, p: spec_fn(char) -> bool, j: int)
    requires
        0 <= j <= s.len(),
        forall|k: int| j <= k < s.len() ==> p(s[k]),
        j == 0 || !p(s[j - 1]),
    ensures
        drop_trailing_while(s, p) == s.take(j),
    decreases s.len(),
{
    if j == s.len() {
        assert(s.take(j) =~= s);
    } else {
        let t = s.drop_last();
        assert(t =~= s.take(s.len() - 1));
        lemma_drop_trailing_at(t, p, j);
        assert(t.take(j) =~= s.take(j));
    }
}

/// Removes surrounding whitespace from a character vector.
pub fn trim_space_chars(v: &Vec<char>) -> (r: Vec<char>)
    ensures
        r@ == trim_spaces(v@),
{
    trim_chars_while(v, true)
}

/// Removes surrounding dashes from a character vector.
pub fn trim_dash_chars(v: &Vec<char>) -> (r: Vec<char>)
    ensures
        r@ == trim_dashes(v@),
{
    trim_chars_while(v, false)
}

/// Tests the character against the selected trimming predicate:
/// whitespace when `spaces` is set, a dash otherwise.
fn pred_char(c: char, spaces: bool) -> (r: bool)
    ensures
        r == (if spaces {
            space_pred()
        } else {
            dash_pred()
        })(c),
{
    if spaces {
        is_space_char(c)
    } else {
        c == '-'
    }
}

/// Removes from both ends the characters satisfying the selected
/// predicate: whitespace when `spaces` is set, dashes otherwise.
fn trim_chars_while(v: &Vec<char>, spaces: bool) -> (r: Vec<char>)
    ensures
        r@ == trim_while(v@, if spaces { space_pred() } else { dash_pred() }),
{
    let ghost p = if spaces { space_pred() } else { dash_pred() };
    let mut start: usize = 0;
    while start < v.len() && pred_char(v[start], spaces)
        invariant
            0 <= start <= v.len(),
            p == (if spaces { space_pred() } else { dash_pred() }),
            forall|k: int| 0 <= k < start ==> p(v@[k]),
        decreases v.len() - start,
    {
        start = start + 1;
    }
    proof {
        lemma_drop_leading_at(v@, p, start as int);
    }
    let ghost w = v@.skip(start as int);
    let mut end: usize = v.len();
    while end > start && pred_char(v[end - 1], spaces)
        invariant
            start <= end <= v.len(),
            p == (if spaces { space_pred() } else { dash_pred() }),
            forall|k: int| end <= k < v.len() ==> p(v@[k]),
        decreases end,
    {
        end = end - 1;
    }
    proof {
        lemma_drop_trailing_at(w, p, end - start);
    }
    let mut r: Vec<char> = Vec::new();
    let mut i: usize = start;
    while i < end
        invariant
            start <= i <= end <= v.len(),
            r@ == v@.subrange(start as int, i as int),
        decreases end - i,
    {
        r.push(v[i]);
        proof {
            assert(v@.subrange(start as int, i as int).push(v@[i as int]) =~= v@.subrange(
                start as int,
                i + 1,
            ));
        }
        i = i + 1;
    }
    proof {
        assert(w.take(end - start) =~= v@.subrange(start as int, end as int));
    }
    r
}


/// The normalizer's core pass over an already space-trimmed string,
/// starting at position `i`: separator characters become dashes, each
/// maximal run of whitespace becomes a single dash (`last_dash` records
/// whether the previous output character was such a run's dash), and
/// every other character is kept.
pub open spec fn collapse_from(s: Seq<char>, i: int, last_dash: bool) -> Seq<char>
    decreases s.len() - i,
{
    if i < 0 || i >= s.len() {
        Seq::empty()
    } else if is_space(s[i]) {
        if last_dash {
            collapse_from(s, i + 1, true)
        } else {
            seq!['-'] + collapse_from(s, i + 1, true)
        }
    } else {
        seq![map_sep(s[i])] + collapse_from(s, i + 1, false)
    }
}

/// A normalized session name: surrounding whitespace removed, colons and
/// hashes turned into dashes, every whitespace run turned into a single
/// dash, and surrounding dashes removed.
pub open spec fn normalize_spec(s: Seq<char>) -> Seq<char> {
    trim_dashes(collapse_from(trim_spaces(s), 0, false))
}

/// Normalizes a character vector into a session-name-safe form.
pub fn normalize_chars(v: &Vec<char>) -> (r: Vec<char>)
    ensures
        r@ == normalize_spec(v@),
{
    let t = trim_space_chars(v);
    let mut out: Vec<char> = Vec::new();
    let mut last_dash = false;
    let mut i: usize = 0;
    while i < t.len()
        invariant
            0 <= i <= t.len(),
            out@ + collapse_from(t@, i as int, last_dash) == collapse_from(t@, 0, false),
        decreases t.len() - i,
    {
        let c = t[i];
        if is_space_char(c) {
            if !last_dash {
                out.push('-');
                last_dash = true;
            }
        } else {
            let m = if c == ':' || c == '#' {
                '-'
            } else {
                c
            };
            proof {
                assert(m == map_sep(t@[i as int]));
            }
            out.push(m);
            last_dash = false;
        }
        i = i + 1;
        proof {
            assert(out@ + collapse_from(t@, i as int, last_dash) =~= collapse_from(
                t@,
                0,
                false,
            ));
        }
    }
    proof {
        assert(out@ + collapse_from(t@, i as int, last_dash) =~= out@);
        assert(out@ == collapse_from(t@, 0, false));
    }
    let r = trim_dash_chars(&out);
    r
}


/// The tail of joining tokens with single spaces: one space before each
/// token from position `i` on.
pub open spec fn join_rest(toks: Seq<Seq<char>>, i: int) -> Seq<char>
    decreases toks.len() - i,
{
    if i < 0 || i >= toks.len() {
        Seq::empty()
    } else {
        seq![' '] + toks[i] + join_rest(toks, i + 1)
    }
}

/// The tokens joined with single spaces between them.
pub open spec fn join_spaces(toks: Seq<Seq<char>>) -> Seq<char> {
    if toks.len() == 0 {
        Seq::empty()
    } else {
        toks[0] + join_rest(toks, 1)
    }
}

/// Joins the given strings with single spaces into one character vector.
pub fn join_tokens(tokens: &Vec<String>) -> (r: Vec<char>)
    ensures
        r@ == join_spaces(views_of(tokens@)),
{
    let ghost toks = views_of(tokens@);
    let mut r: Vec<char> = Vec::new();
    if tokens.len() == 0 {
        return r;
    }
    let first = str_to_chars(tokens[0].as_str());
    r = first;
    let mut i: usize = 1;
    while i < tokens.len()
        invariant
            1 <= i <= tokens.len(),
            toks == views_of(tokens@),
            toks.len() == tokens@.len(),
            r@ + join_rest(toks, i as int) == join_spaces(toks),
        decreases tokens.len() - i,
    {
        r.push(' ');
        let c = str_to_chars(tokens[i].as_str());
        r.extend_from_slice(c.as_slice());
        proof {
            assert(toks[i as int] == tokens@[i as int]@);
            assert(r@ + join_rest(toks, i + 1) =~= join_spaces(toks));
        }
        i = i + 1;
    }
    proof {
        assert(r@ + join_rest(toks, i as int) =~= r@);
    }
    r
}

/// One step short of splitting on whitespace: the tokens accumulated in
/// `acc`, the token being read in `cur`, and the rest of the string from
/// position `i` on.
pub open spec fn split_ws_acc(s: Seq<char>, i: int, cur: Seq<char>, acc: Seq<Seq<char>>) -> Seq<
    Seq<char>,
>
    decreases s.len() - i,
{
    if i < 0 || i >= s.len() {
        if cur.len() > 0 {
            acc.push(cur)
        } else {
            acc
        }
    } else if is_space(s[i]) {
        if cur.len() > 0 {
            split_ws_acc(s, i + 1, Seq::empty(), acc.push(cur))
        } else {
            split_ws_acc(s, i + 1, Seq::empty(), acc)
        }
    } else {
        split_ws_acc(s, i + 1, cur.push(s[i]), acc)
    }
}

/// The maximal whitespace-free runs of the string, in order.
pub open spec fn split_ws(s: Seq<char>) -> Seq<Seq<char>> {
    split_ws_acc(s, 0, Seq::empty(), Seq::empty())
}

/// Splits a character vector on whitespace into its maximal
/// whitespace-free runs.
pub fn split_ws_chars(v: &Vec<char>) -> (r: Vec<Vec<char>>)
    ensures
        views_of(r@) == split_ws(v@),
{
    let mut acc: Vec<Vec<char>> = Vec::new();
    let mut cur: Vec<char> = Vec::new();
    let mut i: usize = 0;
    proof {
        assert(views_of(acc@) =~= Seq::<Seq<char>>::empty());
    }
    while i < v.len()
        invariant
            0 <= i <= v.len(),
            split_ws_acc(v@, i as int, cur@, views_of(acc@)) == split_ws(v@),
        decreases v.len() - i,
    {
        let ghost cur0 = cur@;
        let ghost acc0 = views_of(acc@);
        let c = v[i];
        if is_space_char(c) {
            if cur.len() > 0 {
                proof {
                    lemma_views_push(acc@, cur);
                }
                acc.push(cur);
                cur = Vec::new();
                proof {
                    assert(split_ws_acc(v@, i as int, cur0, acc0) == split_ws_acc(
                        v@,
                        i + 1,
                        Seq::empty(),
                        acc0.push(cur0),
                    ));
                }
            } else {
                proof {
                    assert(cur0 =~= Seq::<char>::empty());
                    assert(split_ws_acc(v@, i as int, cur0, acc0) == split_ws_acc(
                        v@,
                        i + 1,
                        Seq::empty(),
                        acc0,
                    ));
                }
            }
        } else {
            cur.push(c);
            proof {
                assert(split_ws_acc(v@, i as int, cur0, acc0) == split_ws_acc(
                    v@,
                    i + 1,
                    cur0.push(v@[i as int]),
                    acc0,
                ));
            }
        }
        i = i + 1;
    }
    if cur.len() > 0 {
        proof {
            lemma_views_push(acc@, cur);
        }
        acc.push(cur);
    }
    acc
}

/// A line with one trailing carriage return removed, as a line-feed split
/// leaves it before the line feed.
pub open spec fn strip_cr(l: Seq<char>) -> Seq<char> {
    if l.len() > 0 && l[l.len() - 1] == '\r' {
        l.drop_last()
    } else {
        l
    }
}

/// One step short of splitting into lines: the lines accumulated in
/// `acc`, the line being read in `cur`, and the rest of the string from
/// position `i` on. Lines end at a line feed or at a carriage return
/// followed by a line feed; a final line without its ending still counts,
/// an empty final fragment does not.
pub open spec fn lines_acc(s: Seq<char>, i: int, cur: Seq<char>, acc: Seq<Seq<char>>) -> Seq<
    Seq<char>,
>
    decreases s.len() - i,
{
    if i < 0 || i >= s.len() {
        if cur.len() > 0 {
            acc.push(cur)
        } else {
            acc
        }
    } else if s[i] == '\n' {
        lines_acc(s, i + 1, Seq::empty(), acc.push(strip_cr(cur)))
    } else {
        lines_acc(s, i + 1, cur.push(s[i]), acc)
    }
}

/// The lines of the string.
pub open spec fn lines_of(s: Seq<char>) -> Seq<Seq<char>> {
    lines_acc(s, 0, Seq::empty(), Seq::empty())
}

/// Splits a character vector into its lines.
pub fn lines_chars(v: &Vec<char>) -> (r: Vec<Vec<char>>)
    ensures
        views_of(r@) == lines_of(v@),
{
    let mut acc: Vec<Vec<char>> = Vec::new();
    let mut cur: Vec<char> = Vec::new();
    let mut i: usize = 0;
    proof {
        assert(views_of(acc@) =~= Seq::<Seq<char>>::empty());
    }
    while i < v.len()
        invariant
            0 <= i <= v.len(),
            lines_acc(v@, i as int, cur@, views_of(acc@)) == lines_of(v@),
        decreases v.len() - i,
    {
        let ghost cur0 = cur@;
        let ghost acc0 = views_of(acc@);
        let c = v[i];
        if c == '\n' {
            if cur.len() > 0 && cur[cur.len() - 1] == '\r' {
                cur.pop();
            }
            proof {
                assert(cur@ == strip_cr(cur0));
                lemma_views_push(acc@, cur);
            }
            acc.push(cur);
            cur = Vec::new();
            proof {
                assert(lines_acc(v@, i as int, cur0, acc0) == lines_acc(
                    v@,
                    i + 1,
                    Seq::empty(),
                    acc0.push(strip_cr(cur0)),
                ));
            }
        } else {
            cur.push(c);
            proof {
                assert(lines_acc(v@, i as int, cur0, acc0) == lines_acc(
                    v@,
                    i + 1,
                    cur0.push(v@[i as int]),
                    acc0,
                ));
            }
        }
        i = i + 1;
    }
    if cur.len() > 0 {
        proof {
            lemma_views_push(acc@, cur);
        }
        acc.push(cur);
    }
    acc
}

/// The lines each trimmed of surrounding whitespace, with the lines that
/// are then empty left out, from position `i` on.
pub open spec fn cleaned_from(ls: Seq<Seq<char>>, i: int) -> Seq<Seq<char>>
    decreases ls.len() - i,
{
    if i < 0 || i >= ls.len() {
        Seq::empty()
    } else {
        let t = trim_spaces(ls[i]);
        if t.len() > 0 {
            seq![t] + cleaned_from(ls, i + 1)
        } else {
            cleaned_from(ls, i + 1)
        }
    }
}

/// The non-empty trimmed lines of the string, in order.
pub open spec fn clean_lines(s: Seq<char>) -> Seq<Seq<char>> {
    cleaned_from(lines_of(s), 0)
}

/// The non-empty trimmed lines of a string slice, in order.
pub fn clean_lines_str(s: &str) -> (r: Vec<String>)
    ensures
        views_of(r@) == clean_lines(s@),
{
    let v = str_to_chars(s);
    let ls = lines_chars(&v);
    let ghost lsv = views_of(ls@);
    let mut out: Vec<String> = Vec::new();
    let mut i: usize = 0;
    while i < ls.len()
        invariant
            0 <= i <= ls.len(),
            lsv == views_of(ls@),
            lsv.len() == ls@.len(),
            views_of(out@) + cleaned_from(lsv, i as int) == cleaned_from(lsv, 0),
        decreases ls.len() - i,
    {
        let t = trim_space_chars(&ls[i]);
        proof {
            assert(lsv[i as int] == ls@[i as int]@);
        }
        if t.len() > 0 {
            let w = chars_to_string(&t);
            proof {
                lemma_views_push(out@, w);
            }
            out.push(w);
            proof {
                assert(views_of(out@) + cleaned_from(lsv, i + 1) =~= cleaned_from(lsv, 0));
            }
        }
        i = i + 1;
    }
    proof {
        assert(views_of(out@) + cleaned_from(lsv, i as int) =~= views_of(out@));
    }
    out
}


/// Lexicographic order on character sequences by code point, the order
/// in which session listings are shown.
pub open spec fn lex_le(a: Seq<char>, b: Seq<char>) -> bool
    decreases a.len(),
{
    if a.len() == 0 {
        true
    } else if b.len() == 0 {
        false
    } else if (a[0] as u32) < (b[0] as u32) {
        true
    } else if (a[0] as u32) > (b[0] as u32) {
        false
    } else {
        lex_le(a.drop_first(), b.drop_first())
    }
}

pub proof fn lemma_lex_le_total(a: Seq<char>, b: Seq<char>)
    ensures
        lex_le(a, b) || lex_le(b, a),
    decreases a.len(),
{
    if a.len() > 0 && b.len() > 0 && a[0] as u32 == b[0] as u32 {
        lemma_lex_le_total(a.drop_first(), b.drop_first());
    }
}

pub proof fn lemma_lex_le_antisym(a: Seq<char>, b: Seq<char>)
    requires
        lex_le(a, b),
        lex_le(b, a),
    ensures
        a == b,
    decreases a.len(),
{
    if a.len() == 0 {
        assert(a =~= b);
    } else {
        assert(a[0] == b[0]) by {
            vstd::utf8::char_u32_cast(a[0], a[0] as u32);
            vstd::utf8::char_u32_cast(b[0], b[0] as u32);
        }
        lemma_lex_le_antisym(a.drop_first(), b.drop_first());
        assert(a.len() == b.len());
        assert forall|i: int| 0 <= i < a.len() implies a[i] == b[i] by {
            if i > 0 {
                assert(a[i] == a.drop_first()[i - 1]);
                assert(b[i] == b.drop_first()[i - 1]);
            }
        }
        assert(a =~= b);
    }
}

pub proof fn lemma_lex_le_trans(a: Seq<char>, b: Seq<char>, c: Seq<char>)
    requires
        lex_le(a, b),
        lex_le(b, c),
    ensures
        lex_le(a, c),
    decreases a.len(),
{
    if a.len() > 0 && b.len() > 0 && c.len() > 0 && a[0] as u32 == b[0] as u32 && b[0] as u32
        == c[0] as u32 {
        lemma_lex_le_trans(a.drop_first(), b.drop_first(), c.drop_first());
    }
}

/// Compares two character vectors lexicographically by code point.
pub fn lex_le_chars(a: &Vec<char>, b: &Vec<char>) -> (r: bool)
    ensures
        r == lex_le(a@, b@),
{
    let mut i: usize = 0;
    proof {
        assert(a@.skip(0) =~= a@);
        assert(b@.skip(0) =~= b@);
    }
    while i < a.len() && i < b.len()
        invariant
            0 <= i <= a.len(),
            0 <= i <= b.len(),
            lex_le(a@, b@) == lex_le(a@.skip(i as int), b@.skip(i as int)),
            lex_le(b@, a@) == lex_le(b@.skip(i as int), a@.skip(i as int)),
        decreases a.len() - i,
    {
        let x = a[i] as u32;
        let y = b[i] as u32;
        if x < y {
            proof {
                assert(a@.skip(i as int)[0] == a@[i as int]);
                assert(b@.skip(i as int)[0] == b@[i as int]);
            }
            return true;
        }
        if x > y {
            proof {
                assert(a@.skip(i as int)[0] == a@[i as int]);
                assert(b@.skip(i as int)[0] == b@[i as int]);
            }
            return false;
        }
        proof {
            assert(a@.skip(i as int)[0] == a@[i as int]);
            assert(b@.skip(i as int)[0] == b@[i as int]);
            assert(a@.skip(i as int).drop_first() =~= a@.skip(i + 1));
            assert(b@.skip(i as int).drop_first() =~= b@.skip(i + 1));
        }
        i = i + 1;
    }
    proof {
        if i == a.len() {
            assert(a@.skip(i as int).len() == 0);
        } else {
            assert(b@.skip(i as int).len() == 0);
            assert(a@.skip(i as int).len() > 0);
        }
    }
    a.len() <= b.len()
}

/// Compares two strings lexicographically by code point.
pub fn str_lex_le(a: &str, b: &str) -> (r: bool)
    ensures
        r == lex_le(a@, b@),
{
    let av = str_to_chars(a);
    let bv = str_to_chars(b);
    lex_le_chars(&av, &bv)
}

/// Whether the sequence of strings is lexicographically non-decreasing.
pub open spec fn sorted_lex(s: Seq<Seq<char>>) -> bool {
    forall|i: int, j: int| 0 <= i < j < s.len() ==> lex_le(s[i], s[j])
}

/// Sorts the strings lexicographically by code point. The result is the
/// unique non-decreasing arrangement of exactly the given strings.
pub fn sort_strings(v: Vec<String>) -> (r: Vec<String>)
    ensures
        sorted_lex(views_of(r@)),
        views_of(r@).to_multiset() == views_of(v@).to_multiset(),
{
    let mut r: Vec<String> = Vec::new();
    let mut i: usize = 0;
    proof {
        assert(views_of(r@) =~= Seq::<Seq<char>>::empty());
        assert(views_of(v@.subrange(0, 0)) =~= Seq::<Seq<char>>::empty());
        assert(views_of(r@).to_multiset() =~= views_of(v@.subrange(0, 0)).to_multiset());
    }
    while i < v.len()
        invariant
            0 <= i <= v.len(),
            sorted_lex(views_of(r@)),
            views_of(r@).to_multiset() == views_of(v@.subrange(0, i as int)).to_multiset(),
        decreases v.len() - i,
    {
        let x = v[i].clone();
        let ghost xv = x@;
        let ghost rv0 = views_of(r@);
        let mut j: usize = 0;
        while j < r.len() && str_lex_le(r[j].as_str(), x.as_str())
            invariant
                0 <= j <= r.len(),
                xv == x@,
                rv0 == views_of(r@),
                rv0.len() == r@.len(),
                forall|k: int| 0 <= k < j ==> lex_le(rv0[k], xv),
            decreases r.len() - j,
        {
            proof {
                assert(rv0[j as int] == r@[j as int]@);
            }
            j = j + 1;
        }
        proof {
            if j < r.len() {
                assert(rv0[j as int] == r@[j as int]@);
                lemma_lex_le_total(rv0[j as int], xv);
            }
        }
        r.insert(j, x);
        proof {
            assert(views_of(r@) =~= rv0.insert(j as int, xv));
            assert forall|p: int, q: int| 0 <= p < q < views_of(r@).len() implies lex_le(
                views_of(r@)[p],
                views_of(r@)[q],
            ) by {
                let rv = views_of(r@);
                let jj = j as int;
                if p < jj && q < jj {
                    assert(rv[p] == rv0[p] && rv[q] == rv0[q]);
                } else if p < jj && q == jj {
                    assert(rv[p] == rv0[p] && rv[q] == xv);
                } else if p < jj && q > jj {
                    assert(rv[p] == rv0[p] && rv[q] == rv0[q - 1]);
                } else if p == jj && q > jj {
                    assert(rv[p] == xv && rv[q] == rv0[q - 1]);
                    assert(jj < rv0.len());
                    assert(!lex_le(rv0[jj], xv));
                    lemma_lex_le_total(rv0[jj], xv);
                    assert(lex_le(xv, rv0[jj]));
                    if q - 1 > jj {
                        assert(lex_le(rv0[jj], rv0[q - 1]));
                        lemma_lex_le_trans(xv, rv0[jj], rv0[q - 1]);
                    }
                    assert(lex_le(xv, rv0[q - 1]));
                } else {
                    assert(rv[p] == rv0[p - 1] && rv[q] == rv0[q - 1]);
                }
            }
            vstd::seq_lib::to_multiset_insert(rv0, j as int, xv);
            assert(v@.subrange(0, i as int).push(v@[i as int]) =~= v@.subrange(0, i + 1));
            lemma_views_push(v@.subrange(0, i as int), v@[i as int]);
            vstd::seq_lib::to_multiset_build(views_of(v@.subrange(0, i as int)), xv);
            assert(views_of(v@.subrange(0, i + 1)) =~= views_of(v@.subrange(0, i as int)).push(
                xv,
            ));
        }
        i = i + 1;
    }
    proof {
        assert(v@.subrange(0, v@.len() as int) =~= v@);
    }
    r
}


/// The first position at or after `i` where character `c` occurs, or the
/// length of the string if it does not occur there.
pub open spec fn find_from(s: Seq<char>, c: char, i: int) -> int
    decreases s.len() - i,
{
    if i < 0 || i >= s.len() {
        s.len() as int
    } else if s[i] == c {
        i
    } else {
        find_from(s, c, i + 1)
    }
}

pub proof fn lemma_find_from(s: Seq<char>, c: char, i: int)
    requires
        0 <= i <= s.len(),
    ensures
        i <= find_from(s, c, i) <= s.len(),
        find_from(s, c, i) < s.len() ==> s[find_from(s, c, i)] == c,
        forall|k: int| i <= k < find_from(s, c, i) ==> s[k] != c,
    decreases s.len() - i,
{
    if i < s.len() && s[i] != c {
        lemma_find_from(s, c, i + 1);
    }
}

/// The position of the first occurrence of `c`, or the vector's length
/// if `c` does not occur.
pub fn find_char(v: &Vec<char>, c: char) -> (r: usize)
    ensures
        r == find_from(v@, c, 0),
{
    let mut i: usize = 0;
    while i < v.len()
        invariant
            0 <= i <= v.len(),
            find_from(v@, c, 0) == find_from(v@, c, i as int),
        decreases v.len() - i,
    {
        if v[i] == c {
            return i;
        }
        i = i + 1;
    }
    i
}

/// A path with trailing slashes, and trailing dot components, removed:
/// what remains decides the path's final component.
pub open spec fn strip_path_tail(p: Seq<char>) -> Seq<char>
    decreases p.len(),
{
    if p.len() == 0 {
        p
    } else if p[p.len() - 1] == '/' {
        strip_path_tail(p.drop_last())
    } else if p.len() >= 2 && p[p.len() - 1] == '.' && p[p.len() - 2] == '/' {
        strip_path_tail(p.drop_last())
    } else {
        p
    }
}

/// The suffix after the last slash, or the whole string if there is no
/// slash.
pub open spec fn after_last_slash(q: Seq<char>) -> Seq<char>
    decreases q.len(),
{
    if q.len() == 0 {
        q
    } else if q[q.len() - 1] == '/' {
        Seq::empty()
    } else {
        after_last_slash(q.drop_last()).push(q[q.len() - 1])
    }
}

pub proof fn lemma_after_last_slash_at(q: Seq<char>, k: int)
    requires
        0 <= k <= q.len(),
        forall|j: int| k <= j < q.len() ==> q[j] != '/',
        k == 0 || q[k - 1] == '/',
    ensures
        after_last_slash(q) == q.skip(k),
    decreases q.len(),
{
    if q.len() == 0 {
        assert(q.skip(0) =~= q);
    } else if q[q.len() - 1] == '/' {
        assert(k == q.len());
        assert(q.skip(k) =~= Seq::<char>::empty());
    } else {
        let t = q.drop_last();
        lemma_after_last_slash_at(t, k);
        assert(t.skip(k).push(q[q.len() - 1]) =~= q.skip(k));
    }
}

/// The final component of a slash-separated path: trailing slashes and
/// trailing dot components are ignored, and there is no final component
/// when nothing remains or when the last component is a dot or a
/// double dot.
pub open spec fn basename_of(p: Seq<char>) -> Option<Seq<char>> {
    let q = strip_path_tail(p);
    let r = after_last_slash(q);
    if q.len() == 0 {
        None
    } else if r.len() == 0 {
        None
    } else if r == seq!['.'] {
        None
    } else if r == seq!['.', '.'] {
        None
    } else {
        Some(r)
    }
}

/// The final component of a path held as a character vector.
pub fn basename_chars(p: &Vec<char>) -> (r: Option<Vec<char>>)
    ensures
        r is Some <==> basename_of(p@) is Some,
        r is Some ==> basename_of(p@) == Some(r->0@),
{
    proof {
        assert(p@.take(p@.len() as int) =~= p@);
    }
    let mut e: usize = p.len();
    while e > 0 && (p[e - 1] == '/' || (e >= 2 && p[e - 1] == '.' && p[e - 2] == '/'))
        invariant
            0 <= e <= p.len(),
            strip_path_tail(p@.take(e as int)) == strip_path_tail(p@),
        decreases e,
    {
        proof {
            assert(p@.take(e as int).drop_last() =~= p@.take(e - 1));
        }
        e = e - 1;
    }
    let ghost q = p@.take(e as int);
    proof {
        assert(strip_path_tail(q) == q);
        assert(q == strip_path_tail(p@));
    }
    if e == 0 {
        return None;
    }
    let mut k: usize = e;
    while k > 0 && p[k - 1] != '/'
        invariant
            0 <= k <= e <= p.len(),
            forall|j: int| k <= j < e ==> p@[j] != '/',
        decreases k,
    {
        k = k - 1;
    }
    proof {
        assert(forall|j: int| k <= j < q.len() ==> q[j] == p@[j]);
        lemma_after_last_slash_at(q, k as int);
    }
    let mut r: Vec<char> = Vec::new();
    let mut i: usize = k;
    while i < e
        invariant
            k <= i <= e <= p.len(),
            r@ == p@.subrange(k as int, i as int),
        decreases e - i,
    {
        r.push(p[i]);
        proof {
            assert(p@.subrange(k as int, i as int).push(p@[i as int]) =~= p@.subrange(
                k as int,
                i + 1,
            ));
        }
        i = i + 1;
    }
    proof {
        assert(q.skip(k as int) =~= p@.subrange(k as int, e as int));
        assert(r@ == after_last_slash(q));
    }
    if r.len() == 0 {
        return None;
    }
    if r.len() == 1 && r[0] == '.' {
        proof {
            assert(r@ =~= seq!['.']);
        }
        return None;
    }
    if r.len() == 2 && r[0] == '.' && r[1] == '.' {
        proof {
            assert(r@ =~= seq!['.', '.']);
        }
        return None;
    }
    proof {
        assert(r@ != seq!['.'] && r@ != seq!['.', '.']) by {
            if r@ == seq!['.'] {
                assert(r@.len() == 1 && r@[0] == '.');
            }
            if r@ == seq!['.', '.'] {
                assert(r@.len() == 2 && r@[0] == '.' && r@[1] == '.');
            }
        }
    }
    Some(r)
}

/// The final component of a slash-separated path string.
pub fn basename_str(p: &str) -> (r: Option<String>)
    ensures
        r is Some <==> basename_of(p@) is Some,
        r is Some ==> basename_of(p@) == Some(r->0@),
{
    let v = str_to_chars(p);
    match basename_chars(&v) {
        Some(b) => Some(chars_to_string(&b)),
        None => None,
    }
}


/// A character that the normalizer's core pass leaves alone: not
/// whitespace, and fixed under separator replacement.
pub open spec fn norm_fixed(c: char) -> bool {
    !is_space(c) && map_sep(c) == c
}

pub proof fn lemma_collapse_fixed(s: Seq<char>, i: int, b: bool)
    ensures
        forall|k: int|
            0 <= k < collapse_from(s, i, b).len() ==> #[trigger] norm_fixed(
                collapse_from(s, i, b)[k],
            ),
    decreases s.len() - i,
{
    if i < 0 || i >= s.len() {
    } else if is_space(s[i]) {
        lemma_collapse_fixed(s, i + 1, true);
        let rest = collapse_from(s, i + 1, true);
        let res = collapse_from(s, i, b);
        if !b {
            assert(res == seq!['-'] + rest);
            assert forall|k: int| 0 <= k < res.len() implies norm_fixed(#[trigger] res[k]) by {
                if k == 0 {
                    assert(res[k] == '-');
                    assert(norm_fixed('-'));
                } else {
                    assert(res[k] == rest[k - 1]);
                }
            }
        }
    } else {
        lemma_collapse_fixed(s, i + 1, false);
        let rest = collapse_from(s, i + 1, false);
        let res = collapse_from(s, i, b);
        assert(res == seq![map_sep(s[i])] + rest);
        assert forall|k: int| 0 <= k < res.len() implies norm_fixed(#[trigger] res[k]) by {
            if k == 0 {
                assert(res[k] == map_sep(s[i]));
                assert(norm_fixed(map_sep(s[i])));
            } else {
                assert(res[k] == rest[k - 1]);
            }
        }
    }
}

pub proof fn lemma_collapse_of_fixed(s: Seq<char>, i: int, b: bool)
    requires
        0 <= i <= s.len(),
        forall|k: int| i <= k < s.len() ==> norm_fixed(#[trigger] s[k]),
    ensures
        collapse_from(s, i, b) == s.skip(i),
    decreases s.len() - i,
{
    if i >= s.len() {
        assert(s.skip(i) =~= Seq::<char>::empty());
    } else {
        assert(norm_fixed(s[i]));
        lemma_collapse_of_fixed(s, i + 1, false);
        assert(seq![map_sep(s[i])] + s.skip(i + 1) =~= s.skip(i));
    }
}

pub proof fn lemma_drop_leading_suffix(s: Seq<char>, p: spec_fn(char) -> bool)
    ensures
        exists|m: int|
            0 <= m <= s.len() && drop_leading_while(s, p) == #[trigger] s.skip(m),
    decreases s.len(),
{
    if s.len() > 0 && p(s[0]) {
        lemma_drop_leading_suffix(s.drop_first(), p);
        let m = choose|m: int|
            0 <= m <= s.drop_first().len() && drop_leading_while(s.drop_first(), p)
                == s.drop_first().skip(m);
        assert(s.drop_first().skip(m) =~= s.skip(m + 1));
    } else {
        assert(s.skip(0) =~= s);
    }
}

pub proof fn lemma_drop_trailing_prefix(s: Seq<char>, p: spec_fn(char) -> bool)
    ensures
        exists|j: int|
            0 <= j <= s.len() && drop_trailing_while(s, p) == #[trigger] s.take(j),
    decreases s.len(),
{
    if s.len() > 0 && p(s[s.len() - 1]) {
        let t = s.drop_last();
        lemma_drop_trailing_prefix(t, p);
        let j = choose|j: int| 0 <= j <= t.len() && drop_trailing_while(t, p) == t.take(j);
        assert(t.take(j) =~= s.take(j));
    } else {
        assert(s.take(s.len() as int) =~= s);
    }
}

pub proof fn lemma_drop_leading_head(s: Seq<char>, p: spec_fn(char) -> bool)
    ensures
        drop_leading_while(s, p).len() > 0 ==> !p(drop_leading_while(s, p)[0]),
    decreases s.len(),
{
    if s.len() > 0 && p(s[0]) {
        lemma_drop_leading_head(s.drop_first(), p);
    }
}

pub proof fn lemma_drop_trailing_last(s: Seq<char>, p: spec_fn(char) -> bool)
    ensures
        drop_trailing_while(s, p).len() > 0 ==> !p(
            drop_trailing_while(s, p)[drop_trailing_while(s, p).len() - 1],
        ),
    decreases s.len(),
{
    if s.len() > 0 && p(s[s.len() - 1]) {
        lemma_drop_trailing_last(s.drop_last(), p);
    }
}

/// A string whose ends do not satisfy `p` is left alone by trimming
/// with `p`.
pub proof fn lemma_trim_of_clean(s: Seq<char>, p: spec_fn(char) -> bool)
    requires
        s.len() == 0 || (!p(s[0]) && !p(s[s.len() - 1])),
    ensures
        trim_while(s, p) == s,
{
    assert(drop_leading_while(s, p) == s);
    assert(drop_trailing_while(s, p) == s);
}

/// Every character of the trimmed string occurs in the string before
/// trimming.
pub proof fn lemma_trim_chars_of(s: Seq<char>, p: spec_fn(char) -> bool)
    ensures
        forall|k: int|
            0 <= k < trim_while(s, p).len() ==> exists|j: int|
                0 <= j < s.len() && #[trigger] trim_while(s, p)[k] == s[j],
{
    let w = drop_leading_while(s, p);
    lemma_drop_leading_suffix(s, p);
    let m = choose|m: int| 0 <= m <= s.len() && w == s.skip(m);
    lemma_drop_trailing_prefix(w, p);
    let j = choose|j: int| 0 <= j <= w.len() && drop_trailing_while(w, p) == w.take(j);
    assert forall|k: int| 0 <= k < trim_while(s, p).len() implies exists|i: int|
        0 <= i < s.len() && #[trigger] trim_while(s, p)[k] == s[i] by {
        assert(trim_while(s, p)[k] == w.take(j)[k]);
        assert(w[k] == s.skip(m)[k]);
        assert(s.skip(m)[k] == s[k + m]);
        assert(trim_while(s, p)[k] == s[k + m]);
    }
}

/// Normalizing is idempotent: a name that is already normalized comes
/// out unchanged when normalized again.
pub proof fn lemma_normalize_idempotent(s: Seq<char>)
    ensures
        normalize_spec(normalize_spec(s)) == normalize_spec(s),
{
    let t = trim_spaces(s);
    let y = collapse_from(t, 0, false);
    let r = normalize_spec(s);
    lemma_collapse_fixed(t, 0, false);
    lemma_trim_chars_of(y, dash_pred());
    assert(r == trim_while(y, dash_pred()));
    assert forall|k: int| 0 <= k < r.len() implies norm_fixed(#[trigger] r[k]) by {
        let j = choose|j: int| 0 <= j < y.len() && r[k] == y[j];
        assert(norm_fixed(y[j]));
    }
    // surrounding whitespace: none, so the first trim is the identity
    if r.len() > 0 {
        assert(!is_space(r[0]) && !is_space(r[r.len() - 1]));
    }
    lemma_trim_of_clean(r, space_pred());
    assert(trim_spaces(r) == r);
    // the core pass: every character is fixed
    lemma_collapse_of_fixed(r, 0, false);
    assert(r.skip(0) =~= r);
    assert(collapse_from(r, 0, false) == r);
    // surrounding dashes: none, since r is already dash-trimmed
    let w = drop_leading_while(y, dash_pred());
    lemma_drop_leading_head(y, dash_pred());
    lemma_drop_trailing_prefix(w, dash_pred());
    let j = choose|j: int| 0 <= j <= w.len() && drop_trailing_while(w, dash_pred()) == w.take(j);
    lemma_drop_trailing_last(w, dash_pred());
    if r.len() > 0 {
        assert(r[0] == w.take(j)[0]);
        assert(w.take(j)[0] == w[0]);
        assert(!dash_pred()(r[0]));
        assert(!dash_pred()(r[r.len() - 1]));
    }
    lemma_trim_of_clean(r, dash_pred());
    assert(trim_dashes(r) == r);
    assert(normalize_spec(r) == r);
}


/// The suffix of a character vector from the given position on.
pub fn suffix_chars(v: &Vec<char>, start: usize) -> (r: Vec<char>)
    requires
        start <= v.len(),
    ensures
        r@ == v@.skip(start as int),
{
    let mut r: Vec<char> = Vec::new();
    let mut i: usize = start;
    while i < v.len()
        invariant
            start <= i <= v.len(),
            r@ == v@.subrange(start as int, i as int),
        decreases v.len() - i,
    {
        r.push(v[i]);
        proof {
            assert(v@.subrange(start as int, i as int).push(v@[i as int]) =~= v@.subrange(
                start as int,
                i + 1,
            ));
        }
        i = i + 1;
    }
    proof {
        assert(v@.subrange(start as int, v@.len() as int) =~= v@.skip(start as int));
    }
    r
}

/// Joins the tokens in positions `from` up to `to` with single spaces.
pub fn join_range(parts: &Vec<Vec<char>>, from: usize, to: usize) -> (r: Vec<char>)
    requires
        from <= to <= parts.len(),
    ensures
        r@ == join_spaces(views_of(parts@).subrange(from as int, to as int)),
{
    let ghost toks = views_of(parts@).subrange(from as int, to as int);
    let mut r: Vec<char> = Vec::new();
    if from == to {
        proof {
            assert(toks.len() == 0);
        }
        return r;
    }
    r.extend_from_slice(parts[from].as_slice());
    proof {
        assert(toks[0] == parts@[from as int]@);
        assert(r@ =~= toks[0]);
    }
    let mut i: usize = from + 1;
    while i < to
        invariant
            from + 1 <= i <= to <= parts.len(),
            toks == views_of(parts@).subrange(from as int, to as int),
            toks.len() == to - from,
            r@ + join_rest(toks, i - from) == join_spaces(toks),
        decreases to - i,
    {
        r.push(' ');
        r.extend_from_slice(parts[i].as_slice());
        proof {
            assert(toks[i - from] == parts@[i as int]@);
            assert(r@ + join_rest(toks, i + 1 - from) =~= join_spaces(toks));
        }
        i = i + 1;
    }
    proof {
        assert(r@ + join_rest(toks, i - from) =~= r@);
    }
    r
}


/// The first line of the output, trimmed; nothing when the output has
/// no line or the first line is blank.
pub open spec fn first_trimmed_line(s: Seq<char>) -> Option<Seq<char>> {
    let ls = lines_of(s);
    if ls.len() > 0 && trim_spaces(ls[0]).len() > 0 {
        Some(trim_spaces(ls[0]))
    } else {
        None
    }
}

/// The first line of the string, trimmed; `None` when there is no line
/// or it trims to nothing.
pub fn first_trimmed_line_str(s: &str) -> (r: Option<String>)
    ensures
        (r is Some) == (first_trimmed_line(s@) is Some),
        r is Some ==> r->0@ == first_trimmed_line(s@)->0,
{
    let v = str_to_chars(s);
    let ls = lines_chars(&v);
    if ls.len() == 0 {
        return None;
    }
    proof {
        assert(views_of(ls@)[0] == ls@[0]@);
    }
    let t = trim_space_chars(&ls[0]);
    if t.len() > 0 {
        Some(chars_to_string(&t))
    } else {
        None
    }
}


/// The prefix of a character vector up to the given position.
pub fn take_chars(v: &Vec<char>, end: usize) -> (r: Vec<char>)
    requires
        end <= v.len(),
    ensures
        r@ == v@.subrange(0, end as int),
{
    let mut r: Vec<char> = Vec::new();
    let mut i: usize = 0;
    while i < end
        invariant
            0 <= i <= end <= v.len(),
            r@ == v@.subrange(0, i as int),
        decreases end - i,
    {
        r.push(v[i]);
        proof {
            assert(v@.subrange(0, i as int).push(v@[i as int]) =~= v@.subrange(0, i + 1));
        }
        i = i + 1;
    }
    r
}


pub proof fn lemma_lex_le_refl(a: Seq<char>)
    ensures
        lex_le(a, a),
    decreases a.len(),
{
    if a.len() > 0 {
        lemma_lex_le_refl(a.drop_first());
    }
}

} // verus!
