//! What the shepherd's reading tools show of a long text: the text split
//! into lines, a stretch of them chosen by a 1-based offset and a cap, each
//! line cut to a byte budget; and how their offset and cap arguments read.

use vstd::prelude::*;
use vstd::string::StringSliceAdditionalSpecFns;
use vstd::utf8::{decode_utf8, encode_utf8, encode_utf8_decode_utf8, is_char_boundary};
use crate::snapshot::{path_join, path_joined};
use crate::text::{join, joined, string_from_chars, to_chars, trim, trimmed, views};

verus! {

/// How many lines a read shows when the caller sets no cap.
pub const NODE_READ_DEFAULT_LIMIT: usize = 2000;

/// How many bytes of a line a read shows.
pub const NODE_READ_MAX_LINE_LEN: usize = 2000;

/// The position of the first newline of `s` at or after `k`, or the length
/// of `s` when there is none.
pub open spec fn newline_from(s: Seq<char>, k: int) -> int
    decreases s.len() - k,
{
    if k >= s.len() || k < 0 {
        s.len() as int
    } else if s[k] == '\n' {
        k
    } else {
        newline_from(s, k + 1)
    }
}

/// `newline_from` finds the first newline at or after `k`.
pub proof fn lemma_newline_from(s: Seq<char>, k: int)
    requires
        0 <= k <= s.len(),
    ensures
        k <= newline_from(s, k) <= s.len(),
        forall|j: int| k <= j < newline_from(s, k) ==> s[j] != '\n',
        newline_from(s, k) < s.len() ==> s[newline_from(s, k)] == '\n',
    decreases s.len() - k,
{
    if k < s.len() && s[k] != '\n' {
        lemma_newline_from(s, k + 1);
    }
}

/// A line without the carriage return that ended it.
pub open spec fn without_cr(x: Seq<char>) -> Seq<char> {
    if x.len() > 0 && x.last() == '\r' {
        x.drop_last()
    } else {
        x
    }
}

/// The lines of `s`: split at each newline, a carriage return right before
/// a newline dropped with it, and no empty line after a final newline.
pub open spec fn lines_of(s: Seq<char>) -> Seq<Seq<char>>
    decreases s.len(),
{
    if s.len() == 0 {
        Seq::empty()
    } else {
        let i = newline_from(s, 0);
        if i >= s.len() || i < 0 {
            seq![s]
        } else {
            seq![without_cr(s.take(i))] + lines_of(s.skip(i + 1))
        }
    }
}

/// A text with no newline up to `x`, then a newline, splits into the line
/// `x` and the lines of the rest.
proof fn lemma_lines_of_line(x: Seq<char>, y: Seq<char>)
    requires
        forall|j: int| 0 <= j < x.len() ==> x[j] != '\n',
    ensures
        lines_of(x + seq!['\n'] + y) == seq![without_cr(x)] + lines_of(y),
{
    let s = x + seq!['\n'] + y;
    lemma_newline_from(s, 0);
    let i = newline_from(s, 0);
    if i < x.len() {
        assert(s[i] == x[i]);
    }
    assert(s[x.len() as int] == '\n');
    assert(i == x.len());
    assert(s.take(i) =~= x);
    assert(s.skip(i + 1) =~= y);
}

/// A text with no newline is one line, or none when empty.
proof fn lemma_lines_of_last(x: Seq<char>)
    requires
        forall|j: int| 0 <= j < x.len() ==> x[j] != '\n',
    ensures
        lines_of(x) == if x.len() == 0 { Seq::<Seq<char>>::empty() } else { seq![x] },
{
    if x.len() > 0 {
        lemma_newline_from(x, 0);
    }
}

/// The lines of `s`.
pub fn text_lines(s: &str) -> (r: Vec<String>)
    ensures
        views(r@) == lines_of(s@),
{
    let cs = to_chars(s);
    let ghost all = s@;
    let mut out: Vec<String> = Vec::new();
    let mut cur: Vec<char> = Vec::new();
    let mut i: usize = 0;
    proof {
        assert(all.skip(0) =~= all);
        assert(cur@ + all.skip(0) =~= all);
    }
    while i < cs.len()
        invariant
            cs@ == all,
            i <= cs.len(),
            forall|j: int| 0 <= j < cur@.len() ==> cur@[j] != '\n',
            lines_of(all) == views(out@) + lines_of(cur@ + all.skip(i as int)),
        decreases cs.len() - i,
    {
        let c = cs[i];
        if c == '\n' {
            proof {
                assert(cur@ + all.skip(i as int) =~= cur@ + seq!['\n'] + all.skip(i as int + 1));
                lemma_lines_of_line(cur@, all.skip(i as int + 1));
            }
            let n = cur.len();
            let end = if n > 0 && cur[n - 1] == '\r' { n - 1 } else { n };
            let line = string_from_chars(&cur, 0, end);
            assert(line@ == without_cr(cur@));
            let ghost before = out@;
            let ghost line_v = line@;
            out.push(line);
            proof {
                assert(views(out@) =~= views(before).push(line_v));
                assert(views(out@) + lines_of(all.skip(i as int + 1)) =~= views(before) + (seq![line_v]
                    + lines_of(all.skip(i as int + 1))));
            }
            cur = Vec::new();
            assert(cur@ + all.skip(i as int + 1) =~= all.skip(i as int + 1));
        } else {
            let ghost before = cur@;
            cur.push(c);
            proof {
                assert(before + all.skip(i as int) =~= cur@ + all.skip(i as int + 1));
            }
        }
        i = i + 1;
    }
    proof {
        assert(cur@ + all.skip(i as int) =~= cur@);
        lemma_lines_of_last(cur@);
    }
    if cur.len() > 0 {
        let line = string_from_chars(&cur, 0, cur.len());
        let ghost before = out@;
        let ghost line_v = line@;
        out.push(line);
        assert(cur@.subrange(0, cur@.len() as int) =~= cur@);
        assert(views(out@) =~= views(before).push(line_v));
        assert(views(out@) =~= views(before) + seq![cur@]);
    } else {
        assert(views(out@) + Seq::<Seq<char>>::empty() =~= views(out@));
    }
    out
}

/// Whether a line cut to the byte budget keeps whole characters: a line
/// over budget has a character boundary right at it.
pub open spec fn cuts_cleanly(line: Seq<char>) -> bool {
    encode_utf8(line).len() > NODE_READ_MAX_LINE_LEN ==> is_char_boundary(encode_utf8(line), NODE_READ_MAX_LINE_LEN as int)
}

/// A line as a read shows it: cut to the byte budget and marked with
/// `suffix` when over it.
pub open spec fn clipped(line: Seq<char>, suffix: Seq<char>) -> Seq<char> {
    if encode_utf8(line).len() > NODE_READ_MAX_LINE_LEN {
        decode_utf8(encode_utf8(line).subrange(0, NODE_READ_MAX_LINE_LEN as int)) + suffix
    } else {
        line
    }
}

/// Each of the lines `ls` cuts cleanly.
pub open spec fn all_cut_cleanly(ls: Seq<Seq<char>>) -> bool {
    forall|k: int| 0 <= k < ls.len() ==> cuts_cleanly(#[trigger] ls[k])
}

/// The lines `ls` as a read shows them, each clipped and marked with
/// `suffix`, one per row.
pub open spec fn shown(ls: Seq<Seq<char>>, suffix: Seq<char>) -> Seq<char> {
    joined(ls.map_values(|l: Seq<char>| clipped(l, suffix)), "\n"@)
}

/// `line` cut to the byte budget, marked with `suffix` when over it.
fn clip_line(line: &str, suffix: &str) -> (r: String)
    requires
        cuts_cleanly(line@),
    ensures
        r@ == clipped(line@, suffix@),
{
    if line.as_bytes().len() > NODE_READ_MAX_LINE_LEN {
        let (head, _) = line.split_at(NODE_READ_MAX_LINE_LEN);
        let mut r = head.to_owned();
        proof {
            encode_utf8_decode_utf8(head@);
            assert(head.spec_bytes() =~= encode_utf8(line@).subrange(0, NODE_READ_MAX_LINE_LEN as int));
            assert(r@ == decode_utf8(encode_utf8(line@).subrange(0, NODE_READ_MAX_LINE_LEN as int)));
        }
        let ghost pre = r@;
        r.append(suffix);
        assert(r@ == pre + suffix@);
        assert(encode_utf8(line@).len() > NODE_READ_MAX_LINE_LEN);
        r
    } else {
        assert(encode_utf8(line@).len() <= NODE_READ_MAX_LINE_LEN);
        line.to_owned()
    }
}

/// The lines `ls[lo..hi]`, each clipped and marked with `suffix`, one per
/// row.
fn show_lines(ls: &Vec<String>, lo: usize, hi: usize, suffix: &str) -> (r: String)
    requires
        lo <= hi <= ls.len(),
        all_cut_cleanly(views(ls@).subrange(lo as int, hi as int)),
    ensures
        r@ == shown(views(ls@).subrange(lo as int, hi as int), suffix@),
{
    let ghost sel = views(ls@).subrange(lo as int, hi as int);
    let mut rows: Vec<String> = Vec::new();
    let mut i: usize = lo;
    while i < hi
        invariant
            lo <= i <= hi,
            hi <= ls.len(),
            sel == views(ls@).subrange(lo as int, hi as int),
            all_cut_cleanly(sel),
            views(rows@) == sel.take(i - lo).map_values(|l: Seq<char>| clipped(l, suffix@)),
        decreases hi - i,
    {
        assert(sel[i - lo] == ls@[i as int]@);
        assert(cuts_cleanly(sel[i - lo]));
        let row = clip_line(ls[i].as_str(), suffix);
        let ghost before = rows@;
        rows.push(row);
        assert(views(rows@) =~= views(before).push(clipped(sel[i - lo], suffix@)));
        assert(sel.take(i - lo + 1) =~= sel.take(i - lo).push(sel[i - lo]));
        assert(views(rows@) =~= sel.take(i - lo + 1).map_values(|l: Seq<char>| clipped(l, suffix@)));
        i = i + 1;
    }
    assert(sel.take(hi - lo) =~= sel);
    join(&rows, "\n")
}

/// A stretch of a board node's text as the node reader shows it.
#[derive(Debug)]
pub struct NodeWindow {
    pub shown_lines: usize,
    pub total_lines: usize,
    /// Whether lines follow the stretch.
    pub truncated: bool,
    /// The offset that reads on, when lines follow.
    pub next_offset: Option<usize>,
    pub content: String,
}

/// The first line of a stretch read from `offset` (1-based) of `total`
/// lines.
pub open spec fn window_start(total: int, offset: int) -> int {
    if offset - 1 < total {
        offset - 1
    } else {
        total
    }
}

/// The line after a stretch from `start` of at most `limit` lines.
pub open spec fn window_end(total: int, start: int, limit: Option<usize>) -> int {
    match limit {
        Some(l) => if start + l < total {
            start + l
        } else {
            total
        },
        None => total,
    }
}

/// The stretch of `content` from line `offset` (1-based), at most `limit`
/// lines of it, each line cut to the byte budget and marked with `...`;
/// with how many lines it shows, how many there are, and where to read on.
pub fn node_window(content: &str, offset: usize, limit: Option<usize>) -> (r: NodeWindow)
    requires
        offset >= 1,
        ({
            let total = lines_of(content@).len() as int;
            let start = window_start(total, offset as int);
            &&& limit matches Some(l) ==> start + l <= usize::MAX
            &&& all_cut_cleanly(lines_of(content@).subrange(start, window_end(total, start, limit)))
        }),
    ensures
        ({
            let ls = lines_of(content@);
            let total = ls.len() as int;
            let start = window_start(total, offset as int);
            let end = window_end(total, start, limit);
            &&& r.total_lines == total
            &&& r.shown_lines == end - start
            &&& r.truncated == (end < total)
            &&& r.next_offset == if end < total { Some((end + 1) as usize) } else { None }
            &&& r.content@ == shown(ls.subrange(start, end), "..."@)
        }),
{
    let ls = text_lines(content);
    let total = ls.len();
    let start = if offset - 1 < total { offset - 1 } else { total };
    let end = match limit {
        Some(l) => if start + l < total { start + l } else { total },
        None => total,
    };
    let text = show_lines(&ls, start, end, "...");
    NodeWindow {
        shown_lines: end - start,
        total_lines: total,
        truncated: end < total,
        next_offset: if end < total { Some(end + 1) } else { None },
        content: text,
    }
}

/// The stretch of lines a workspace read shows: from `start` (0-based), at
/// most `limit` of them.
pub open spec fn file_stretch(ls: Seq<Seq<char>>, start: int, limit: int) -> Seq<Seq<char>> {
    if start >= ls.len() {
        Seq::empty()
    } else if start + limit < ls.len() {
        ls.subrange(start, start + limit)
    } else {
        ls.subrange(start, ls.len() as int)
    }
}

/// What a workspace read of `content` from line `offset` (1-based, 0 read
/// as 1) shows: how many lines the file has, and its text, or with a cap
/// of `limit` lines the stretch from `offset`, each line cut to the byte
/// budget and marked with `…`.
pub fn workspace_text(content: &str, offset: usize, limit: Option<usize>) -> (r: (usize, String))
    requires
        limit matches Some(l) ==> all_cut_cleanly(
            file_stretch(lines_of(content@), if offset == 0 { 0 } else { offset - 1 }, l as int),
        ),
    ensures
        r.0 == lines_of(content@).len(),
        r.1@ == match limit {
            Some(l) => shown(
                file_stretch(lines_of(content@), if offset == 0 { 0 } else { offset - 1 }, l as int),
                "\u{2026}"@,
            ),
            None => content@,
        },
{
    let ls = text_lines(content);
    let total = ls.len();
    let start = if offset == 0 { 0 } else { offset - 1 };
    let text = match limit {
        Some(l) => {
            let lo = if start < total { start } else { total };
            let hi = if start >= total { total } else if l < total - start { start + l } else { total };
            proof {
                let sel = views(ls@).subrange(lo as int, hi as int);
                assert(sel =~= file_stretch(lines_of(content@), start as int, l as int));
            }
            show_lines(&ls, lo, hi, "\u{2026}")
        },
        None => content.to_owned(),
    };
    (total, text)
}

/// The line a read starts from: the `offset` argument when given, and at
/// least 1.
pub fn parse_offset(offset: Option<u64>) -> (r: usize)
    ensures
        r == ({
            let v = match offset {
                Some(v) => v as usize,
                None => 1usize,
            };
            if v < 1 {
                1usize
            } else {
                v
            }
        }),
{
    let v: usize = match offset {
        Some(v) => v as usize,
        None => 1,
    };
    if v < 1 {
        1
    } else {
        v
    }
}

/// The `limit` argument of a read, as its JSON value stands.
#[derive(Debug)]
pub enum LimitArg {
    /// No `limit` given.
    Absent,
    /// `null`.
    Null,
    /// A string.
    Text(String),
    /// A non-negative whole number.
    Number(u64),
    /// Anything else: a negative or fractional number, a boolean, a list or
    /// an object.
    Other,
}

/// Whether `s` spells `none` in any case of its ASCII letters.
pub open spec fn says_none(s: Seq<char>) -> bool {
    &&& s.len() == 4
    &&& (s[0] == 'n' || s[0] == 'N')
    &&& (s[1] == 'o' || s[1] == 'O')
    &&& (s[2] == 'n' || s[2] == 'N')
    &&& (s[3] == 'e' || s[3] == 'E')
}

/// The answer to a `limit` that is not a cap.
pub open spec fn bad_limit() -> Seq<char> {
    "Invalid limit: expected int, null, or \"none\""@
}

/// The answer to a cap of 0.
pub open spec fn zero_limit() -> Seq<char> {
    "Invalid limit: must be >= 1, or use null/\"none\" for no cap"@
}

/// The cap a `limit` argument sets: the default when absent, none for
/// `null` or `"none"`, else a whole number of at least 1.
pub fn parse_limit(arg: &LimitArg) -> (r: Result<Option<usize>, String>)
    ensures
        match arg {
            LimitArg::Absent => r == Ok::<Option<usize>, String>(Some(NODE_READ_DEFAULT_LIMIT)),
            LimitArg::Null => r == Ok::<Option<usize>, String>(None),
            LimitArg::Text(s) => if says_none(s@) {
                r == Ok::<Option<usize>, String>(None)
            } else {
                r matches Err(m) && m@ == bad_limit()
            },
            LimitArg::Number(n) => if *n == 0 {
                r matches Err(m) && m@ == zero_limit()
            } else {
                r == Ok::<Option<usize>, String>(Some(*n as usize))
            },
            LimitArg::Other => r matches Err(m) && m@ == bad_limit(),
        },
{
    match arg {
        LimitArg::Absent => Ok(Some(NODE_READ_DEFAULT_LIMIT)),
        LimitArg::Null => Ok(None),
        LimitArg::Text(s) => {
            let cs = to_chars(s.as_str());
            let none = cs.len() == 4 && (cs[0] == 'n' || cs[0] == 'N') && (cs[1] == 'o' || cs[1] == 'O')
                && (cs[2] == 'n' || cs[2] == 'N') && (cs[3] == 'e' || cs[3] == 'E');
            if none {
                Ok(None)
            } else {
                Err("Invalid limit: expected int, null, or \"none\"".to_owned())
            }
        },
        LimitArg::Number(n) => {
            if *n == 0 {
                Err("Invalid limit: must be >= 1, or use null/\"none\" for no cap".to_owned())
            } else {
                Ok(Some(*n as usize))
            }
        },
        LimitArg::Other => Err("Invalid limit: expected int, null, or \"none\"".to_owned()),
    }
}

/// Whether the relative path `p` has a `..` step.
pub open spec fn climbs(p: Seq<char>) -> bool {
    exists|i: int|
        0 <= i && i + 2 <= p.len() && #[trigger] p[i] == '.' && p[i + 1] == '.' && (i == 0 || p[i - 1] == '/')
            && (i + 2 == p.len() || p[i + 2] == '/')
}

/// The path a workspace tool works on: the workspace root, or `relative`
/// (trimmed) below it. A scope without a workspace, an absolute path and a
/// path with a `..` step are refused.
pub fn resolve_workspace_path(root: Option<&str>, relative: Option<&str>) -> (r: Result<String, String>)
    ensures
        match root {
            None => r matches Err(m) && m@ == "This scope has no attached workspace"@,
            Some(base) => {
                let t = match relative {
                    Some(rel) => trimmed(rel@),
                    None => Seq::empty(),
                };
                if t.len() == 0 {
                    r matches Ok(p) && p@ == base@
                } else if t[0] == '/' {
                    r matches Err(m) && m@ == "Workspace paths must be relative to the attached route workspace"@
                } else if climbs(t) {
                    r matches Err(m) && m@ == "Workspace paths may not escape the attached route workspace"@
                } else {
                    r matches Ok(p) && p@ == path_joined(base@, t)
                }
            },
        },
{
    let base = match root {
        Some(b) => b,
        None => return Err("This scope has no attached workspace".to_owned()),
    };
    if let Some(rel) = relative {
        let t = trim(rel);
        let cs = to_chars(t.as_str());
        let n = cs.len();
        if n > 0 {
            if cs[0] == '/' {
                return Err("Workspace paths must be relative to the attached route workspace".to_owned());
            }
            let mut i: usize = 0;
            while i < n
                invariant
                    cs@ == t@,
                    t@ == trimmed(rel@),
                    relative == Some(rel),
                    root == Some(base),
                    n == cs.len(),
                    n > 0,
                    cs@[0] != '/',
                    i <= n,
                    forall|j: int|
                        0 <= j < i && j + 2 <= n && #[trigger] cs@[j] == '.' && cs@[j + 1] == '.' && (j == 0 || cs@[j - 1] == '/')
                            ==> !(j + 2 == n || cs@[j + 2] == '/'),
                decreases n - i,
            {
                if i + 1 < n && cs[i] == '.' && cs[i + 1] == '.' && (i == 0 || cs[i - 1] == '/') && (i + 2 == n || cs[i + 2] == '/') {
                    proof {
                        assert(climbs(t@)) by {
                            assert(t@[i as int] == '.');
                        }
                    }
                    return Err("Workspace paths may not escape the attached route workspace".to_owned());
                }
                i = i + 1;
            }
            proof {
                assert(!climbs(t@)) by {
                    if climbs(t@) {
                        let j = choose|j: int|
                            0 <= j && j + 2 <= t@.len() && #[trigger] t@[j] == '.' && t@[j + 1] == '.' && (j == 0 || t@[j - 1] == '/')
                                && (j + 2 == t@.len() || t@[j + 2] == '/');
                        assert(cs@[j] == '.');
                    }
                }
            }
            return Ok(path_join(base, t.as_str()));
        }
    }
    Ok(base.to_owned())
}

/// The unified diff of the lines of `old` and `new` under the file names
/// `old_name` and `new_name`, as `similar` writes it.
pub uninterp spec fn unified_line_diff(old: Seq<char>, new: Seq<char>, old_name: Seq<char>, new_name: Seq<char>) -> Seq<char>;

/// `similar::TextDiff::from_lines(old, new).unified_diff().header(a, b)`,
/// written out: the unified diff of the lines of the two texts with the
/// default three lines of context and the file names `a` and `b`. The
/// result is taken as a function of the four texts (the default diff has
/// no deadline); nothing more is claimed of it.
#[verifier::external_body]
fn unified_diff_text(old: &str, new: &str, a: &str, b: &str) -> (r: String)
    ensures
        r@ == unified_line_diff(old@, new@, a@, b@),
{
    similar::TextDiff::from_lines(old, new).unified_diff().header(a, b).to_string()
}

/// A diff as the patch tool reports it: whole when it has at most
/// `max_lines` lines, else its first `max_lines` lines and a count of the
/// rest.
pub open spec fn diff_clipped(unified: Seq<char>, max_lines: nat) -> Seq<char> {
    let ls = lines_of(unified);
    if unified.len() == 0 || ls.len() <= max_lines {
        unified
    } else {
        joined(ls.take(max_lines as int), "\n"@) + "\n... ("@ + crate::text::decimal((ls.len() - max_lines) as nat)
            + " more lines)"@
    }
}

/// `unified` cut to its first `max_lines` lines, with a count of the rest.
pub fn clip_diff(unified: &str, max_lines: usize) -> (r: String)
    ensures
        r@ == diff_clipped(unified@, max_lines as nat),
{
    if unified.unicode_len() == 0 {
        return String::new();
    }
    let ls = text_lines(unified);
    if ls.len() <= max_lines {
        return unified.to_owned();
    }
    let mut head: Vec<String> = Vec::new();
    let mut i: usize = 0;
    while i < max_lines
        invariant
            i <= max_lines < ls.len(),
            views(head@) == views(ls@).take(i as int),
        decreases max_lines - i,
    {
        let ghost before = head@;
        let c = ls[i].clone();
        head.push(c);
        assert(views(head@) =~= views(before).push(ls@[i as int]@));
        assert(views(head@) =~= views(ls@).take(i as int + 1));
        i = i + 1;
    }
    let mut out = join(&head, "\n");
    let rest = crate::text::to_decimal((ls.len() - max_lines) as u64);
    out.append("\n... (");
    out.append(rest.as_str());
    out.append(" more lines)");
    out
}

/// The diff the patch tool reports for a change of `target` from `old` to
/// `new`: the unified diff under `a/target` and `b/target`, cut to
/// `max_lines` lines.
pub fn compact_diff(old: &str, new: &str, target: &str, max_lines: usize) -> (r: String)
    ensures
        r@ == diff_clipped(
            unified_line_diff(old@, new@, "a/"@ + target@, "b/"@ + target@),
            max_lines as nat,
        ),
{
    let a = crate::text::concat("a/", target);
    let b = crate::text::concat("b/", target);
    let unified = unified_diff_text(old, new, a.as_str(), b.as_str());
    clip_diff(unified.as_str(), max_lines)
}

} // verus!
