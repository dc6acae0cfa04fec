//! The grammar of repository references and a scanner that finds the
//! leftmost one in a text.
//!
//! A clone reference is a prefix (`git@{host}:` or `https://{host}/`) that
//! starts at a word boundary, then `owner/repo` where the owner is a run of
//! `[A-Za-z0-9_-]` and the repository the longest run of `[A-Za-z0-9_.-]`
//! that ends at a word boundary. A Pages reference is
//! `https://{user}.github.io`, optionally followed by `/{project}`.
use vstd::prelude::*;
use crate::chars::{is_owner, is_owner_char, is_repo, is_repo_char, is_word, is_word_char};

verus! {

pub open spec fn https_scheme() -> Seq<char> {
    seq!['h', 't', 't', 'p', 's', ':', '/', '/']
}

pub open spec fn git_ext() -> Seq<char> {
    seq!['.', 'g', 'i', 't']
}

pub open spec fn github_host() -> Seq<char> {
    seq!['g', 'i', 't', 'h', 'u', 'b', '.', 'c', 'o', 'm']
}

pub open spec fn pages_suffix() -> Seq<char> {
    seq!['.', 'g', 'i', 't', 'h', 'u', 'b', '.', 'i', 'o']
}

/// `git@{host}:`
pub open spec fn ssh_prefix(host: Seq<char>) -> Seq<char> {
    seq!['g', 'i', 't', '@'] + host + seq![':']
}

/// `https://{host}/`, which is also how every canonical URL begins.
pub open spec fn https_prefix(host: Seq<char>) -> Seq<char> {
    https_scheme() + host + seq!['/']
}

pub open spec fn word_at(t: Seq<char>, i: int) -> bool {
    0 <= i < t.len() && is_word_char(t[i])
}

/// A word boundary at position `i`: exactly one of the characters on either
/// side is a word character (outside the text counts as none).
pub open spec fn boundary(t: Seq<char>, i: int) -> bool {
    word_at(t, i - 1) != word_at(t, i)
}

pub open spec fn occurs_at(t: Seq<char>, p: Seq<char>, i: int) -> bool {
    0 <= i && i + p.len() <= t.len() && t.subrange(i, i + p.len()) == p
}

/// End of the run of owner characters that starts at `k`.
pub open spec fn owner_run_end(t: Seq<char>, k: int) -> int
    decreases t.len() - k,
{
    if 0 <= k < t.len() && is_owner_char(t[k]) {
        owner_run_end(t, k + 1)
    } else {
        k
    }
}

/// End of the run of repository characters that starts at `k`.
pub open spec fn repo_run_end(t: Seq<char>, k: int) -> int
    decreases t.len() - k,
{
    if 0 <= k < t.len() && is_repo_char(t[k]) {
        repo_run_end(t, k + 1)
    } else {
        k
    }
}

/// The largest position in `lo..=e` that is a word boundary, if any.
pub open spec fn last_boundary(t: Seq<char>, lo: int, e: int) -> Option<int>
    decreases e + 1 - lo,
{
    if e < lo {
        None
    } else if boundary(t, e) {
        Some(e)
    } else {
        last_boundary(t, lo, e - 1)
    }
}

/// `{segment}` after a `/` at `k - 1`: the longest run of repository
/// characters from `k` that is not empty and ends at a word boundary.
pub open spec fn segment_end(t: Seq<char>, k: int) -> Option<int> {
    last_boundary(t, k + 1, repo_run_end(t, k))
}

/// The slug span of a clone reference whose prefix is `p` and starts at `i`.
pub open spec fn clone_match_at(t: Seq<char>, p: Seq<char>, i: int) -> Option<(int, int)> {
    let o = i + p.len();
    if occurs_at(t, p, i) && boundary(t, i) {
        let q = owner_run_end(t, o);
        if o < q && q < t.len() && t[q] == '/' {
            match segment_end(t, q + 1) {
                Some(e) => Some((o, e)),
                None => None,
            }
        } else {
            None
        }
    } else {
        None
    }
}

/// The leftmost clone reference with prefix `p` that starts at `i` or later.
pub open spec fn first_clone_match(t: Seq<char>, p: Seq<char>, i: int) -> Option<(int, int)>
    decreases t.len() + 1 - i,
{
    if i < 0 || i > t.len() {
        None
    } else if clone_match_at(t, p, i) is Some {
        clone_match_at(t, p, i)
    } else {
        first_clone_match(t, p, i + 1)
    }
}

pub open spec fn ends_with_git(s: Seq<char>) -> bool {
    s.len() >= 4 && s.subrange(s.len() - 4, s.len() as int) == git_ext()
}

/// A slug without one trailing `.git`, unless that `.git` is the whole
/// repository name, which is then kept.
pub open spec fn strip_git(s: Seq<char>) -> Seq<char> {
    if ends_with_git(s) && s.len() > 4 && s[s.len() - 5] != '/' {
        s.subrange(0, s.len() - 4)
    } else {
        s
    }
}

/// The slug found for `host`: the SSH form first, then the HTTPS form.
pub open spec fn service_slug(t: Seq<char>, host: Seq<char>) -> Option<Seq<char>> {
    match first_clone_match(t, ssh_prefix(host), 0) {
        Some((a, b)) => Some(strip_git(t.subrange(a, b))),
        None => match first_clone_match(t, https_prefix(host), 0) {
            Some((a, b)) => Some(strip_git(t.subrange(a, b))),
            None => None,
        },
    }
}

/// The canonical URL found for `host`.
pub open spec fn service_url(t: Seq<char>, host: Seq<char>) -> Option<Seq<char>> {
    match service_slug(t, host) {
        Some(slug) => Some(https_prefix(host) + slug),
        None => None,
    }
}

/// The repository behind a Pages reference that starts at `i`.
pub open spec fn pages_url_at(t: Seq<char>, i: int) -> Option<Seq<char>> {
    let u0 = i + https_scheme().len();
    if occurs_at(t, https_scheme(), i) && boundary(t, i) {
        let u1 = owner_run_end(t, u0);
        let a = u1 + pages_suffix().len();
        let user = t.subrange(u0, u1);
        let base = https_prefix(github_host()) + user + seq!['/'];
        if u0 < u1 && occurs_at(t, pages_suffix(), u1) {
            let project = if a < t.len() && t[a] == '/' {
                segment_end(t, a + 1)
            } else {
                None
            };
            match project {
                Some(e) => Some(base + t.subrange(a + 1, e)),
                None => if boundary(t, a) {
                    Some(base + user + pages_suffix())
                } else {
                    None
                },
            }
        } else {
            None
        }
    } else {
        None
    }
}

/// The leftmost Pages reference that starts at `i` or later.
pub open spec fn first_pages_url(t: Seq<char>, i: int) -> Option<Seq<char>>
    decreases t.len() + 1 - i,
{
    if i < 0 || i > t.len() {
        None
    } else if pages_url_at(t, i) is Some {
        pages_url_at(t, i)
    } else {
        first_pages_url(t, i + 1)
    }
}

pub open spec fn span_view(r: Option<(usize, usize)>) -> Option<(int, int)> {
    match r {
        Some((a, b)) => Some((a as int, b as int)),
        None => None,
    }
}

fn word_at_exec(t: &Vec<char>, i: usize) -> (r: bool)
    ensures
        r == word_at(t@, i as int),
{
    i < t.len() && is_word(t[i])
}

fn boundary_exec(t: &Vec<char>, i: usize) -> (r: bool)
    ensures
        r == boundary(t@, i as int),
{
    let before = i > 0 && word_at_exec(t, i - 1);
    before != word_at_exec(t, i)
}

pub fn occurs_at_exec(t: &Vec<char>, p: &Vec<char>, i: usize) -> (r: bool)
    ensures
        r == occurs_at(t@, p@, i as int),
{
    if i > t.len() || p.len() > t.len() - i {
        return false;
    }
    let mut k: usize = 0;
    while k < p.len()
        invariant
            i + p.len() <= t.len(),
            k <= p.len(),
            forall|j: int| 0 <= j < k ==> t@[i + j] == p@[j],
        decreases p.len() - k,
    {
        if t[i + k] != p[k] {
            assert(t@.subrange(i as int, i + p.len())[k as int] != p@[k as int]);
            return false;
        }
        k = k + 1;
    }
    assert(t@.subrange(i as int, i + p.len()) =~= p@);
    true
}

fn owner_end(t: &Vec<char>, k: usize) -> (r: usize)
    requires
        k <= t.len(),
    ensures
        r == owner_run_end(t@, k as int),
        k <= r <= t.len(),
{
    let mut j = k;
    while j < t.len() && is_owner(t[j])
        invariant
            k <= j <= t.len(),
            owner_run_end(t@, j as int) == owner_run_end(t@, k as int),
        decreases t.len() - j,
    {
        j = j + 1;
    }
    j
}

fn repo_end(t: &Vec<char>, k: usize) -> (r: usize)
    requires
        k <= t.len(),
    ensures
        r == repo_run_end(t@, k as int),
        k <= r <= t.len(),
{
    let mut j = k;
    while j < t.len() && is_repo(t[j])
        invariant
            k <= j <= t.len(),
            repo_run_end(t@, j as int) == repo_run_end(t@, k as int),
        decreases t.len() - j,
    {
        j = j + 1;
    }
    j
}

fn segment_end_exec(t: &Vec<char>, k: usize) -> (r: Option<usize>)
    requires
        k <= t.len(),
    ensures
        match r {
            Some(e) => segment_end(t@, k as int) == Some(e as int) && k < e <= t.len(),
            None => segment_end(t@, k as int) is None,
        },
{
    let mut e = repo_end(t, k);
    while e > k
        invariant
            k <= e <= t.len(),
            last_boundary(t@, k + 1, e as int) == segment_end(t@, k as int),
        decreases e,
    {
        if boundary_exec(t, e) {
            return Some(e);
        }
        e = e - 1;
    }
    None
}

fn clone_match_at_exec(t: &Vec<char>, p: &Vec<char>, i: usize) -> (r: Option<(usize, usize)>)
    requires
        i <= t.len(),
    ensures
        span_view(r) == clone_match_at(t@, p@, i as int),
        r matches Some((a, b)) ==> a < b <= t.len(),
{
    if !occurs_at_exec(t, p, i) || !boundary_exec(t, i) {
        return None;
    }
    let o = i + p.len();
    let q = owner_end(t, o);
    if o < q && q < t.len() && t[q] == '/' {
        match segment_end_exec(t, q + 1) {
            Some(e) => Some((o, e)),
            None => None,
        }
    } else {
        None
    }
}

/// Finds the leftmost clone reference with prefix `p`; the result is the
/// span of its slug, `.git` included.
pub fn find_clone(t: &Vec<char>, p: &Vec<char>) -> (r: Option<(usize, usize)>)
    ensures
        span_view(r) == first_clone_match(t@, p@, 0),
        r matches Some((a, b)) ==> a < b <= t.len(),
{
    let mut i: usize = 0;
    while i < t.len()
        invariant
            i <= t.len(),
            first_clone_match(t@, p@, i as int) == first_clone_match(t@, p@, 0),
        decreases t.len() - i,
    {
        let m = clone_match_at_exec(t, p, i);
        if m.is_some() {
            return m;
        }
        i = i + 1;
    }
    assert(first_clone_match(t@, p@, i + 1) is None);
    clone_match_at_exec(t, p, i)
}

/// The repository URL that a Pages match names, given the span of the user
/// (`u0..u1`) and of the project (`proj_start..proj_end`, empty for a root site).
pub open spec fn pages_url_of(t: Seq<char>, u0: int, u1: int, proj_start: int, proj_end: int) -> Seq<char> {
    let user = t.subrange(u0, u1);
    let base = https_prefix(github_host()) + user + seq!['/'];
    if proj_start < proj_end {
        base + t.subrange(proj_start, proj_end)
    } else {
        base + user + pages_suffix()
    }
}

pub open spec fn pages_view(t: Seq<char>, r: Option<(usize, usize, usize, usize)>) -> Option<
    Seq<char>,
> {
    match r {
        Some((u0, u1, proj_start, proj_end)) => Some(pages_url_of(t, u0 as int, u1 as int, proj_start as int, proj_end as int)),
        None => None,
    }
}

pub open spec fn pages_spans_ok(t: Seq<char>, r: Option<(usize, usize, usize, usize)>) -> bool {
    r matches Some((u0, u1, proj_start, proj_end)) ==> u0 < u1 <= t.len() && proj_start <= proj_end <= t.len()
}

fn pages_match_at_exec(t: &Vec<char>, scheme: &Vec<char>, suffix: &Vec<char>, i: usize) -> (r:
    Option<(usize, usize, usize, usize)>)
    requires
        i <= t.len(),
        scheme@ == https_scheme(),
        suffix@ == pages_suffix(),
    ensures
        pages_view(t@, r) == pages_url_at(t@, i as int),
        pages_spans_ok(t@, r),
{
    if !occurs_at_exec(t, scheme, i) || !boundary_exec(t, i) {
        return None;
    }
    let u0 = i + scheme.len();
    let u1 = owner_end(t, u0);
    if u0 == u1 || !occurs_at_exec(t, suffix, u1) {
        return None;
    }
    let a = u1 + suffix.len();
    let project = if a < t.len() && t[a] == '/' {
        segment_end_exec(t, a + 1)
    } else {
        None
    };
    match project {
        Some(e) => Some((u0, u1, a + 1, e)),
        None => if boundary_exec(t, a) {
            Some((u0, u1, a, a))
        } else {
            None
        },
    }
}

/// Finds the leftmost Pages reference; the result holds the span of the
/// user and of the project (an empty one for a root site).
pub fn find_pages(t: &Vec<char>, scheme: &Vec<char>, suffix: &Vec<char>) -> (r: Option<
    (usize, usize, usize, usize),
>)
    requires
        scheme@ == https_scheme(),
        suffix@ == pages_suffix(),
    ensures
        pages_view(t@, r) == first_pages_url(t@, 0),
        pages_spans_ok(t@, r),
{
    let mut i: usize = 0;
    while i < t.len()
        invariant
            i <= t.len(),
            scheme@ == https_scheme(),
            suffix@ == pages_suffix(),
            first_pages_url(t@, i as int) == first_pages_url(t@, 0),
        decreases t.len() - i,
    {
        let m = pages_match_at_exec(t, scheme, suffix, i);
        if m.is_some() {
            return m;
        }
        i = i + 1;
    }
    assert(first_pages_url(t@, i + 1) is None);
    pages_match_at_exec(t, scheme, suffix, i)
}

} // verus!
