//! Decisions of the HTTP layer: who may call the API, where a login returns
//! to, how provider and error answers read, and which name an uploaded asset
//! is stored under.

use vstd::prelude::*;
use crate::text::{concat, concat3, decimal, starts_with, str_eq, string_from_chars, to_chars, to_decimal};

verus! {

/// The language model providers a project can use.
#[derive(Debug, Clone, Copy, PartialEq, Eq, Structural)]
pub enum LlmProvider {
    Codex,
    Openrouter,
}

/// The name a provider is shown and stored under.
pub fn provider_name(provider: LlmProvider) -> (r: &'static str)
    ensures
        r@ == match provider {
            LlmProvider::Codex => "codex"@,
            LlmProvider::Openrouter => "openrouter"@,
        },
{
    match provider {
        LlmProvider::Codex => "codex",
        LlmProvider::Openrouter => "openrouter",
    }
}

/// Where a login returns to: the requested path when it lies under `/app`,
/// else `/app` itself.
pub open spec fn return_target(value: Option<Seq<char>>) -> Seq<char> {
    match value {
        Some(p) => if p.len() >= 4 && p.take(4) == "/app"@ { p } else { "/app"@ },
        None => "/app"@,
    }
}

/// The path a login returns to.
pub fn sanitize_return_to(value: Option<&str>) -> (r: String)
    ensures
        r@ == return_target(match value {
            Some(s) => Some(s@),
            None => None,
        }),
{
    proof {
        reveal_strlit("/app");
        assert("/app"@.len() == 4);
    }
    match value {
        Some(path) => {
            if starts_with(path, "/app") {
                path.to_owned()
            } else {
                "/app".to_owned()
            }
        },
        None => "/app".to_owned(),
    }
}

/// The API key a request presents: the `Authorization` header's text after
/// `Bearer `, else the `X-API-Key` header.
pub open spec fn presented_key(authorization: Option<Seq<char>>, x_api_key: Option<Seq<char>>) -> Option<Seq<char>> {
    match authorization {
        Some(h) => if h.len() >= 7 && h.take(7) == "Bearer "@ {
            Some(h.skip(7))
        } else {
            x_api_key
        },
        None => x_api_key,
    }
}

/// Whether a request to `path` may pass: the health check always may, any
/// other request only with the expected key. Header values that are not
/// visible text count as absent.
pub fn api_key_accepted(path: &str, authorization: Option<&str>, x_api_key: Option<&str>, expected_key: &str) -> (r: bool)
    ensures
        r == (path@ == "/health"@ || presented_key(
            match authorization { Some(h) => Some(h@), None => None },
            match x_api_key { Some(k) => Some(k@), None => None },
        ) == Some(expected_key@)),
{
    if str_eq(path, "/health") {
        return true;
    }
    proof {
        reveal_strlit("Bearer ");
        assert("Bearer "@.len() == 7);
    }
    let bearer: Option<String> = match authorization {
        Some(h) => {
            if starts_with(h, "Bearer ") {
                let cs = to_chars(h);
                let rest = string_from_chars(&cs, 7, cs.len());
                assert(cs@.subrange(7, cs@.len() as int) =~= h@.skip(7));
                Some(rest)
            } else {
                None
            }
        },
        None => None,
    };
    match bearer {
        Some(k) => str_eq(k.as_str(), expected_key),
        None => match x_api_key {
            Some(k) => str_eq(k, expected_key),
            None => false,
        },
    }
}

/// A failure of the chat session endpoints.
#[derive(Debug)]
pub enum GypError {
    SessionNotFound(String),
    StartFailed(String),
    SendFailed(String),
    PermissionFailed(String),
    Other(String),
}

/// The body of an error answer.
#[derive(Debug)]
pub struct GypErrorResponse {
    pub error: String,
}

impl GypError {
    /// The HTTP status an error is answered with: 404 for a missing session,
    /// 500 otherwise.
    pub fn status_code(&self) -> (r: u16)
        ensures
            r == if self is SessionNotFound { 404u16 } else { 500u16 },
    {
        match self {
            GypError::SessionNotFound(_) => 404,
            _ => 500,
        }
    }

    /// The body an error is answered with: its message.
    pub fn response(&self) -> (r: GypErrorResponse)
        ensures
            r.error@ == match self {
                GypError::SessionNotFound(m) => m@,
                GypError::StartFailed(m) => m@,
                GypError::SendFailed(m) => m@,
                GypError::PermissionFailed(m) => m@,
                GypError::Other(m) => m@,
            },
    {
        let m = match self {
            GypError::SessionNotFound(m) => m.clone(),
            GypError::StartFailed(m) => m.clone(),
            GypError::SendFailed(m) => m.clone(),
            GypError::PermissionFailed(m) => m.clone(),
            GypError::Other(m) => m.clone(),
        };
        GypErrorResponse { error: m }
    }
}

/// The answer to an asset upload: the name the asset was stored under.
#[derive(Debug)]
pub struct AssetUploadResponse {
    pub filename: String,
}

/// The position just past the last `/` of `p`, or 0.
pub open spec fn after_last_slash(p: Seq<char>) -> int
    decreases p.len(),
{
    if p.len() == 0 {
        0
    } else if p.last() == '/' {
        p.len() as int
    } else {
        after_last_slash(p.drop_last())
    }
}

/// Where the last component of `p` starts lies within `p`, and before its
/// end when `p` does not end in a separator.
pub proof fn lemma_after_last_slash(p: Seq<char>)
    ensures
        0 <= after_last_slash(p) <= p.len(),
        p.len() > 0 && p.last() != '/' ==> after_last_slash(p) < p.len(),
    decreases p.len(),
{
    if p.len() > 0 && p.last() != '/' {
        lemma_after_last_slash(p.drop_last());
    }
}

/// The last `.` of `s` lies within `s`.
pub proof fn lemma_last_dot(s: Seq<char>)
    ensures
        -1 <= last_dot(s) < s.len(),
    decreases s.len(),
{
    if s.len() > 0 && s.last() != '.' {
        lemma_last_dot(s.drop_last());
    }
}

/// The last component of the path `p` that is neither empty nor `.`:
/// trailing separators and `.` components are passed over.
pub open spec fn last_component(p: Seq<char>) -> Option<Seq<char>>
    decreases p.len(),
{
    if p.len() == 0 {
        None
    } else if p.last() == '/' {
        last_component(p.drop_last())
    } else {
        let k = after_last_slash(p);
        let piece = p.subrange(k, p.len() as int);
        if piece == seq!['.'] {
            if k == 0 {
                None
            } else {
                proof {
                    lemma_after_last_slash(p);
                }
                last_component(p.take(k))
            }
        } else {
            Some(piece)
        }
    }
}

/// The file name of the path `p`, as `Path::file_name` reads it: the last
/// component, unless it is `..`.
pub open spec fn file_name_of(p: Seq<char>) -> Option<Seq<char>> {
    match last_component(p) {
        Some(x) => if x == seq!['.', '.'] { None } else { Some(x) },
        None => None,
    }
}

/// The position of the last `.` in `s`, or -1.
pub open spec fn last_dot(s: Seq<char>) -> int
    decreases s.len(),
{
    if s.len() == 0 {
        -1
    } else if s.last() == '.' {
        s.len() - 1
    } else {
        last_dot(s.drop_last())
    }
}

/// The stem and extension of the file name `f`, as `Path::file_stem` and
/// `Path::extension` split it: at the last `.`, unless there is none or it
/// is the first character.
pub open spec fn stem_and_ext(f: Seq<char>) -> (Seq<char>, Option<Seq<char>>) {
    let d = last_dot(f);
    if d <= 0 {
        (f, None)
    } else {
        (f.take(d), Some(f.skip(d + 1)))
    }
}

/// The name tried for an uploaded asset `filename` whose own name is taken:
/// `{stem}-{counter}.{ext}`, or `{stem}-{counter}` without an extension; a
/// name without a file name part uses the whole name as its stem.
pub open spec fn asset_name(filename: Seq<char>, counter: nat) -> Seq<char> {
    match file_name_of(filename) {
        Some(f) => match stem_and_ext(f).1 {
            Some(e) => stem_and_ext(f).0 + "-"@ + decimal(counter) + "."@ + e,
            None => stem_and_ext(f).0 + "-"@ + decimal(counter),
        },
        None => filename + "-"@ + decimal(counter),
    }
}

/// The bounds of the last component of `cs` that is neither empty nor `.`.
fn last_component_range(cs: &Vec<char>) -> (r: Option<(usize, usize)>)
    ensures
        match r {
            Some((lo, hi)) => lo < hi <= cs.len() && last_component(cs@) == Some(cs@.subrange(lo as int, hi as int)),
            None => last_component(cs@) is None,
        },
{
    let mut end: usize = cs.len();
    assert(cs@.take(end as int) =~= cs@);
    loop
        invariant
            end <= cs.len(),
            last_component(cs@.take(end as int)) == last_component(cs@),
        decreases end,
    {
        let ghost end0 = end;
        while end > 0 && cs[end - 1] == '/'
            invariant
                end <= end0,
                end <= cs.len(),
                last_component(cs@.take(end as int)) == last_component(cs@),
            decreases end,
        {
            assert(cs@.take(end as int).drop_last() =~= cs@.take(end - 1));
            end = end - 1;
        }
        if end == 0 {
            return None;
        }
        let ghost p = cs@.take(end as int);
        let mut k: usize = end;
        assert(cs@.take(k as int) == p);
        while k > 0 && cs[k - 1] != '/'
            invariant
                k <= end <= end0,
                end <= cs.len(),
                p == cs@.take(end as int),
                after_last_slash(p) == after_last_slash(cs@.take(k as int)),
            decreases k,
        {
            assert(cs@.take(k as int).drop_last() =~= cs@.take(k - 1));
            k = k - 1;
        }
        assert(after_last_slash(cs@.take(k as int)) == k) by {
            if k > 0 {
                assert(cs@.take(k as int).last() == '/');
            }
        }
        assert(p.subrange(k as int, p.len() as int) =~= cs@.subrange(k as int, end as int));
        if end - k == 1 && cs[k] == '.' {
            assert(cs@.subrange(k as int, end as int) =~= seq!['.']);
            if k == 0 {
                return None;
            }
            assert(p.take(k as int) =~= cs@.take(k as int));
            end = k;
        } else {
            assert(cs@.subrange(k as int, end as int) != seq!['.']) by {
                if end - k == 1 {
                    assert(cs@.subrange(k as int, end as int)[0] == cs@[k as int]);
                }
            }
            return Some((k, end));
        }
    }
}

/// The position of the last `.` among `cs[lo..hi]`, relative to `lo`.
fn last_dot_in(cs: &Vec<char>, lo: usize, hi: usize) -> (r: Option<usize>)
    requires
        lo <= hi <= cs.len(),
    ensures
        match r {
            Some(d) => d == last_dot(cs@.subrange(lo as int, hi as int)) && d < hi - lo,
            None => last_dot(cs@.subrange(lo as int, hi as int)) == -1,
        },
{
    let mut j: usize = hi;
    assert(cs@.subrange(lo as int, j as int) =~= cs@.subrange(lo as int, hi as int));
    while j > lo && cs[j - 1] != '.'
        invariant
            lo <= j <= hi <= cs.len(),
            last_dot(cs@.subrange(lo as int, j as int)) == last_dot(cs@.subrange(lo as int, hi as int)),
        decreases j,
    {
        assert(cs@.subrange(lo as int, j as int).drop_last() =~= cs@.subrange(lo as int, j - 1));
        j = j - 1;
    }
    if j == lo {
        assert(cs@.subrange(lo as int, j as int).len() == 0);
        None
    } else {
        assert(cs@.subrange(lo as int, j as int).last() == '.');
        Some(j - lo - 1)
    }
}

/// The name to try for the uploaded asset `filename` after its own name and
/// `counter - 1` others were taken.
pub fn asset_candidate(filename: &str, counter: u32) -> (r: String)
    ensures
        r@ == asset_name(filename@, counter as nat),
{
    let cs = to_chars(filename);
    let n = to_decimal(counter as u64);
    match last_component_range(&cs) {
        None => concat3(filename, "-", n.as_str()),
        Some((lo, hi)) => {
            let ghost f = cs@.subrange(lo as int, hi as int);
            if hi - lo == 2 && cs[lo] == '.' && cs[lo + 1] == '.' {
                assert(f =~= seq!['.', '.']);
                return concat3(filename, "-", n.as_str());
            }
            assert(f != seq!['.', '.']) by {
                if f == seq!['.', '.'] {
                    assert(f.len() == 2);
                    assert(hi - lo == 2);
                    assert(f[0] == cs@[lo as int]);
                    assert(f[1] == cs@[lo + 1]);
                    assert(seq!['.', '.'][0] == '.' && seq!['.', '.'][1] == '.');
                }
            }
            let d = last_dot_in(&cs, lo, hi);
            let du: usize = match d {
                Some(x) => x,
                None => 0,
            };
            if du == 0 {
                let stem = string_from_chars(&cs, lo, hi);
                concat3(stem.as_str(), "-", n.as_str())
            } else {
                let stem = string_from_chars(&cs, lo, lo + du);
                let ext = string_from_chars(&cs, lo + du + 1, hi);
                assert(stem@ =~= f.take(du as int));
                assert(ext@ =~= f.skip(du + 1));
                let a = concat3(stem.as_str(), "-", n.as_str());
                concat3(a.as_str(), ".", ext.as_str())
            }
        },
    }
}

} // verus!
