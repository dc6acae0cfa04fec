//! Extraction of a canonical repository URL from text.
use vstd::prelude::*;
use crate::chars::chars_of;
use crate::error::Error;
use crate::grammar::{
    find_clone, find_pages, first_pages_url, git_ext, github_host, https_prefix, https_scheme,
    pages_suffix, pages_view, service_url, ssh_prefix, strip_git,
};
use crate::hosts::ServiceHosts;

verus! {

/// What extraction finds in `t`: the first host, in order, whose patterns
/// match, else a Pages reference.
pub open spec fn extract_from(t: Seq<char>, hosts: Seq<Seq<char>>, k: int) -> Option<Seq<char>>
    decreases hosts.len() - k,
{
    if k < 0 || k >= hosts.len() {
        first_pages_url(t, 0)
    } else if service_url(t, hosts[k]) is Some {
        service_url(t, hosts[k])
    } else {
        extract_from(t, hosts, k + 1)
    }
}

pub open spec fn extract_url(t: Seq<char>, hosts: Seq<Seq<char>>) -> Option<Seq<char>> {
    extract_from(t, hosts, 0)
}

pub open spec fn string_opt(r: Option<String>) -> Option<Seq<char>> {
    match r {
        Some(s) => Some(s@),
        None => None,
    }
}

/// `r` reports `found` for the text `t`: the URL, or that none was found.
pub open spec fn reports(r: Result<String, Error>, t: Seq<char>, found: Option<Seq<char>>) -> bool {
    match r {
        Ok(s) => found == Some(s@),
        Err(Error::RepoUrlNotFound(s)) => found is None && s@ == t,
        Err(_) => false,
    }
}

fn push_all(dst: &mut Vec<char>, src: &Vec<char>)
    ensures
        final(dst)@ == old(dst)@ + src@,
{
    let mut i: usize = 0;
    while i < src.len()
        invariant
            i <= src.len(),
            dst@ == old(dst)@ + src@.take(i as int),
        decreases src.len() - i,
    {
        dst.push(src[i]);
        assert(src@.take(i + 1) =~= src@.take(i as int).push(src@[i as int]));
        i = i + 1;
    }
    assert(src@.take(i as int) =~= src@);
}

/// `https://{host}/{slug}`
fn canonical_url(host: &str, slug: &str) -> (r: String)
    ensures
        r@ == https_prefix(host@) + slug@,
{
    let mut r = String::from_str("https://");
    r.append(host);
    r.append("/");
    r.append(slug);
    proof {
        reveal_strlit("https://");
        reveal_strlit("/");
        assert("https://"@ =~= https_scheme());
        assert("/"@ =~= seq!['/']);
    }
    assert(r@ =~= https_prefix(host@) + slug@);
    r
}

/// The end of the slug `a..b` once one trailing `.git` is dropped, where
/// something is left of the repository name.
fn strip_git_end(t: &Vec<char>, a: usize, b: usize) -> (r: usize)
    requires
        a < b <= t.len(),
    ensures
        a <= r <= b,
        strip_git(t@.subrange(a as int, b as int)) == t@.subrange(a as int, r as int),
{
    let ghost s = t@.subrange(a as int, b as int);
    if b - a > 4 && t[b - 5] != '/' && t[b - 4] == '.' && t[b - 3] == 'g' && t[b - 2] == 'i'
        && t[b - 1] == 't' {
        assert(s.subrange(s.len() - 4, s.len() as int) =~= git_ext());
        assert(s[s.len() - 5] == t@[b - 5]);
        assert(s.subrange(0, s.len() - 4) =~= t@.subrange(a as int, b - 4));
        b - 4
    } else {
        proof {
            if s.len() > 4 && s.subrange(s.len() - 4, s.len() as int) == git_ext() {
                assert(s[s.len() - 5] == t@[b - 5]);
                assert(s.subrange(s.len() - 4, s.len() as int)[0] == t@[b - 4]);
                assert(s.subrange(s.len() - 4, s.len() as int)[1] == t@[b - 3]);
                assert(s.subrange(s.len() - 4, s.len() as int)[2] == t@[b - 2]);
                assert(s.subrange(s.len() - 4, s.len() as int)[3] == t@[b - 1]);
            }
        }
        b
    }
}

/// The canonical URL of the repository that `text` names on `host`: an SSH
/// clone reference (`git@{host}:owner/repo`) if there is one, else an HTTPS
/// one (`https://{host}/owner/repo`), leftmost first; one trailing `.git`
/// is dropped. `None` when neither is there.
pub fn extract_service_url(text: &str, host: &str) -> (r: Option<String>)
    ensures
        string_opt(r) == service_url(text@, host@),
{
    let t = chars_of(text);
    let h = chars_of(host);
    let mut ssh = chars_of("git@");
    push_all(&mut ssh, &h);
    ssh.push(':');
    let mut https = chars_of("https://");
    push_all(&mut https, &h);
    https.push('/');
    proof {
        reveal_strlit("git@");
        reveal_strlit("https://");
        assert(ssh@ =~= ssh_prefix(host@));
        assert(https@ =~= https_prefix(host@));
    }
    let found = match find_clone(&t, &ssh) {
        Some(m) => Some(m),
        None => find_clone(&t, &https),
    };
    match found {
        Some((a, b)) => {
            let e = strip_git_end(&t, a, b);
            Some(canonical_url(host, text.substring_char(a, e)))
        },
        None => None,
    }
}

/// The repository behind the leftmost GitHub Pages reference in `text`:
/// `https://{user}.github.io/{project}` stands for
/// `https://github.com/{user}/{project}`, and a root site
/// `https://{user}.github.io` for `https://github.com/{user}/{user}.github.io`.
pub fn extract_project_url(text: &str) -> (r: Result<String, Error>)
    ensures
        reports(r, text@, first_pages_url(text@, 0)),
{
    let t = chars_of(text);
    let scheme = chars_of("https://");
    let suffix = chars_of(".github.io");
    proof {
        reveal_strlit("https://");
        reveal_strlit(".github.io");
        reveal_strlit("github.com");
        reveal_strlit("/");
        assert(scheme@ =~= https_scheme());
        assert(suffix@ =~= pages_suffix());
        assert(".github.io"@ =~= pages_suffix());
        assert("github.com"@ =~= github_host());
        assert("/"@ =~= seq!['/']);
    }
    match find_pages(&t, &scheme, &suffix) {
        Some((u0, u1, proj_start, proj_end)) => {
            let user = text.substring_char(u0, u1);
            let mut r = canonical_url("github.com", user);
            r.append("/");
            if proj_start < proj_end {
                r.append(text.substring_char(proj_start, proj_end));
            } else {
                r.append(user);
                r.append(".github.io");
            }
            assert(r@ =~= pages_view(t@, Some((u0, u1, proj_start, proj_end)))->Some_0);
            Ok(r)
        },
        None => Err(Error::RepoUrlNotFound(String::from_str(text))),
    }
}

/// The canonical URL of the repository that `text` refers to: the hosts are
/// tried in order and the first that matches decides; when none does, a
/// GitHub Pages reference is looked for. `RepoUrlNotFound` with the text
/// when there is neither.
pub fn extract_any_service_url(text: &str, hosts: &ServiceHosts) -> (r: Result<String, Error>)
    ensures
        reports(r, text@, extract_url(text@, hosts@)),
{
    let mut k: usize = 0;
    while k < hosts.len()
        invariant
            k <= hosts@.len(),
            extract_from(text@, hosts@, k as int) == extract_url(text@, hosts@),
        decreases hosts@.len() - k,
    {
        let found = extract_service_url(text, hosts.get(k).as_str());
        match found {
            Some(url) => {
                return Ok(url);
            },
            None => {},
        }
        k = k + 1;
    }
    extract_project_url(text)
}

} // verus!
