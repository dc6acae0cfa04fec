//! What holds of extraction for every input.
use vstd::prelude::*;
use crate::chars::{is_ascii_alnum, is_owner_char, is_repo_char, is_word_char};
use crate::extract::{extract_from, extract_url};
use crate::grammar::{
    https_scheme, pages_url_of,
    boundary, clone_match_at, ends_with_git, first_clone_match, first_pages_url, git_ext, github_host,
    https_prefix, last_boundary, occurs_at, owner_run_end, pages_suffix, pages_url_at,
    repo_run_end, segment_end, service_slug, service_url, ssh_prefix, strip_git,
};
use crate::hosts::ServiceHosts;

verus! {

proof fn lemma_owner_run(t: Seq<char>, k: int, n: int)
    requires
        0 <= k,
        0 <= n,
        k + n <= t.len(),
        forall|j: int| k <= j < k + n ==> is_owner_char(t[j]),
        k + n == t.len() || !is_owner_char(t[k + n]),
    ensures
        owner_run_end(t, k) == k + n,
    decreases n,
{
    if n > 0 {
        lemma_owner_run(t, k + 1, n - 1);
    }
}

proof fn lemma_repo_run(t: Seq<char>, k: int, n: int)
    requires
        0 <= k,
        0 <= n,
        k + n <= t.len(),
        forall|j: int| k <= j < k + n ==> is_repo_char(t[j]),
        k + n == t.len() || !is_repo_char(t[k + n]),
    ensures
        repo_run_end(t, k) == k + n,
    decreases n,
{
    if n > 0 {
        lemma_repo_run(t, k + 1, n - 1);
    }
}

proof fn lemma_owner_run_props(t: Seq<char>, k: int)
    requires
        0 <= k <= t.len(),
    ensures
        k <= owner_run_end(t, k) <= t.len(),
        forall|j: int| k <= j < owner_run_end(t, k) ==> is_owner_char(t[j]),
    decreases t.len() - k,
{
    if k < t.len() && is_owner_char(t[k]) {
        lemma_owner_run_props(t, k + 1);
    }
}

proof fn lemma_repo_run_props(t: Seq<char>, k: int)
    requires
        0 <= k <= t.len(),
    ensures
        k <= repo_run_end(t, k) <= t.len(),
        forall|j: int| k <= j < repo_run_end(t, k) ==> is_repo_char(t[j]),
    decreases t.len() - k,
{
    if k < t.len() && is_repo_char(t[k]) {
        lemma_repo_run_props(t, k + 1);
    }
}

proof fn lemma_last_boundary(t: Seq<char>, lo: int, e: int)
    ensures
        last_boundary(t, lo, e) matches Some(x) ==> lo <= x <= e && boundary(t, x),
    decreases e + 1 - lo,
{
    if e >= lo && !boundary(t, e) {
        lemma_last_boundary(t, lo, e - 1);
    }
}

proof fn lemma_first_clone_none(t: Seq<char>, p: Seq<char>, i: int)
    requires
        forall|j: int| i <= j ==> clone_match_at(t, p, j) is None,
    ensures
        first_clone_match(t, p, i) is None,
    decreases t.len() + 1 - i,
{
    if 0 <= i <= t.len() {
        lemma_first_clone_none(t, p, i + 1);
    }
}

proof fn lemma_first_clone_at(t: Seq<char>, p: Seq<char>, i: int, m: int)
    requires
        0 <= i <= m <= t.len(),
        forall|j: int| i <= j < m ==> clone_match_at(t, p, j) is None,
        clone_match_at(t, p, m) is Some,
    ensures
        first_clone_match(t, p, i) == clone_match_at(t, p, m),
    decreases m - i,
{
    if i < m {
        lemma_first_clone_at(t, p, i + 1, m);
    }
}

proof fn lemma_first_clone_found(t: Seq<char>, p: Seq<char>, i: int)
    requires
        first_clone_match(t, p, i) is Some,
    ensures
        exists|m: int| 0 <= m <= t.len() && clone_match_at(t, p, m) == first_clone_match(t, p, i),
    decreases t.len() + 1 - i,
{
    if clone_match_at(t, p, i) is None {
        lemma_first_clone_found(t, p, i + 1);
    }
}

proof fn lemma_first_pages_found(t: Seq<char>, i: int)
    requires
        first_pages_url(t, i) is Some,
    ensures
        exists|m: int| 0 <= m <= t.len() && pages_url_at(t, m) == first_pages_url(t, i),
    decreases t.len() + 1 - i,
{
    if pages_url_at(t, i) is None {
        lemma_first_pages_found(t, i + 1);
    }
}

/// A clone reference written out in full at `i`: prefix `p`, owner up to
/// `q`, `/`, repository `q + 1..e`, with no word character on either side.
proof fn lemma_clone_match_exact(t: Seq<char>, p: Seq<char>, i: int, q: int, e: int)
    requires
        occurs_at(t, p, i),
        p.len() > 0,
        is_word_char(p[0]),
        i == 0 || !is_word_char(t[i - 1]),
        i + p.len() < q,
        q + 1 < e <= t.len(),
        forall|j: int| i + p.len() <= j < q ==> is_owner_char(t[j]),
        t[q] == '/',
        forall|j: int| q + 1 <= j < e ==> is_repo_char(t[j]),
        is_word_char(t[e - 1]),
        e == t.len() || (!is_repo_char(t[e]) && !is_word_char(t[e])),
    ensures
        clone_match_at(t, p, i) == Some((i + p.len(), e)),
{
    assert(t.subrange(i, i + p.len())[0] == t[i]);
    assert(boundary(t, i));
    lemma_owner_run(t, i + p.len(), q - (i + p.len()));
    lemma_repo_run(t, q + 1, e - (q + 1));
    assert(boundary(t, e));
    assert(segment_end(t, q + 1) == Some(e));
}

/// A slug `owner/repo` ends in `.git` only where its repository does.
proof fn lemma_slug_git(owner: Seq<char>, repo: Seq<char>)
    requires
        !ends_with_git(repo),
    ensures
        !ends_with_git(owner + seq!['/'] + repo),
{
    let s = owner + seq!['/'] + repo;
    if ends_with_git(s) {
        let w = s.subrange(s.len() - 4, s.len() as int);
        if repo.len() >= 4 {
            assert(w =~= repo.subrange(repo.len() - 4, repo.len() as int));
        } else {
            assert(w[3 - repo.len()] == '/');
            assert(git_ext()[3 - repo.len()] != '/');
        }
    }
}

/// `u` is `https://{host}/{owner}/{repo}` with a non-empty owner of owner
/// characters and a non-empty repository of repository characters.
pub open spec fn canonical_shape(
    u: Seq<char>,
    host: Seq<char>,
    owner: Seq<char>,
    repo: Seq<char>,
) -> bool {
    &&& u == https_prefix(host) + owner + seq!['/'] + repo
    &&& owner.len() > 0
    &&& repo.len() > 0
    &&& forall|j: int| 0 <= j < owner.len() ==> is_owner_char(owner[j])
    &&& forall|j: int| 0 <= j < repo.len() ==> is_repo_char(repo[j])
}

/// A host name without `/`, `:` or `@`, as host names are.
pub open spec fn plain_host(h: Seq<char>) -> bool {
    forall|j: int| 0 <= j < h.len() ==> h[j] != '/' && h[j] != ':' && h[j] != '@'
}

/// In a canonical URL on a plain host the only `:` is the scheme's, and
/// there is no `@`.
proof fn lemma_url_chars(host: Seq<char>, owner: Seq<char>, repo: Seq<char>)
    requires
        plain_host(host),
        forall|j: int| 0 <= j < owner.len() ==> is_owner_char(owner[j]),
        forall|j: int| 0 <= j < repo.len() ==> is_repo_char(repo[j]),
    ensures
        ({
            let u = https_prefix(host) + owner + seq!['/'] + repo;
            &&& u[5] == ':'
            &&& forall|x: int| 0 <= x < u.len() && x != 5 ==> u[x] != ':' && u[x] != '@'
        }),
{
    let p = https_prefix(host);
    let u = p + owner + seq!['/'] + repo;
    assert forall|x: int| 0 <= x < u.len() && x != 5 implies u[x] != ':' && u[x] != '@' by {
        if x >= p.len() + owner.len() + 1 {
            assert(u[x] == repo[x - p.len() - owner.len() - 1]);
        } else if x >= p.len() && x < p.len() + owner.len() {
            assert(u[x] == owner[x - p.len()]);
        } else if 8 <= x < 8 + host.len() {
            assert(u[x] == host[x - 8]);
        }
    }
}

/// Without an `@` in the text there is no SSH reference.
proof fn lemma_no_ssh(t: Seq<char>, host: Seq<char>)
    requires
        forall|x: int| 0 <= x < t.len() ==> t[x] != '@',
    ensures
        forall|j: int| 0 <= j ==> !occurs_at(t, ssh_prefix(host), j),
        first_clone_match(t, ssh_prefix(host), 0) is None,
{
    let ssh = ssh_prefix(host);
    assert forall|j: int| 0 <= j implies !occurs_at(t, ssh, j) by {
        if occurs_at(t, ssh, j) {
            assert(t.subrange(j, j + ssh.len())[3] == t[j + 3]);
        }
    }
    assert forall|j: int| 0 <= j implies clone_match_at(t, ssh, j) is None by {
        if occurs_at(t, ssh, j) {
            assert(t.subrange(j, j + ssh.len())[3] == t[j + 3]);
        }
    }
    lemma_first_clone_none(t, ssh, 0);
}

/// Where the parts of a canonical URL written out in a text stand.
#[verifier::rlimit(50)]
proof fn lemma_written_layout(
    host: Seq<char>,
    pre: Seq<char>,
    owner: Seq<char>,
    repo: Seq<char>,
    post: Seq<char>,
)
    requires
        owner.len() > 0,
        forall|j: int| 0 <= j < owner.len() ==> is_owner_char(owner[j]),
        repo.len() > 0,
        forall|j: int| 0 <= j < repo.len() ==> is_repo_char(repo[j]),
    ensures
        ({
            let p = https_prefix(host);
            let t = pre + (p + owner + seq!['/'] + repo) + post;
            let n = pre.len() as int;
            let q = n + p.len() + owner.len();
            let e = q + 1 + repo.len();
            &&& e <= t.len()
            &&& occurs_at(t, p, n)
            &&& forall|j: int| n + p.len() <= j < q ==> is_owner_char(t[j])
            &&& t[q] == '/'
            &&& forall|j: int| q + 1 <= j < e ==> is_repo_char(t[j])
            &&& t[e - 1] == repo.last()
            &&& e < t.len() ==> t[e] == post[0]
            &&& n > 0 ==> t[n - 1] == pre.last()
            &&& t.subrange(n + p.len(), e) == owner + seq!['/'] + repo
        }),
{
    let p = https_prefix(host);
    let u = p + owner + seq!['/'] + repo;
    let t = pre + u + post;
    let n = pre.len() as int;
    let q = n + p.len() + owner.len();
    let e = q + 1 + repo.len();
    assert(t.subrange(n, n + p.len()) =~= p);
    assert forall|j: int| n + p.len() <= j < q implies is_owner_char(t[j]) by {
        assert(t[j] == u[j - n]);
        assert(u[j - n] == owner[j - n - p.len()]);
    }
    assert forall|j: int| q + 1 <= j < e implies is_repo_char(t[j]) by {
        assert(t[j] == u[j - n]);
        assert(u[j - n] == repo[j - q - 1]);
    }
    assert(t[q] == u[q - n]);
    assert(t[e - 1] == u[e - 1 - n]);
    if e < t.len() {
        assert(t[e] == post[0]);
    }
    if n > 0 {
        assert(t[n - 1] == pre.last());
    }
    assert(t.subrange(n + p.len(), e) =~= owner + seq!['/'] + repo);
}

/// A canonical URL written out in a text at `n` is what the host's patterns
/// find there, when the text holds no SSH reference prefix for the host and
/// no HTTPS one starts before the URL.
#[verifier::rlimit(50)]
proof fn lemma_host_service(
    host: Seq<char>,
    t: Seq<char>,
    n: int,
    owner: Seq<char>,
    repo: Seq<char>,
)
    requires
        ({
            let p = https_prefix(host);
            let q = n + p.len() + owner.len();
            let e = q + 1 + repo.len();
            &&& 0 <= n
            &&& e <= t.len()
            &&& occurs_at(t, p, n)
            &&& forall|j: int| n + p.len() <= j < q ==> is_owner_char(t[j])
            &&& t[q] == '/'
            &&& forall|j: int| q + 1 <= j < e ==> is_repo_char(t[j])
            &&& is_ascii_alnum(t[e - 1]) || t[e - 1] == '_'
            &&& e == t.len() || (!is_repo_char(t[e]) && !is_word_char(t[e]))
            &&& n == 0 || !is_word_char(t[n - 1])
            &&& t.subrange(n + p.len(), e) == owner + seq!['/'] + repo
        }),
        owner.len() > 0,
        repo.len() > 0,
        !ends_with_git(repo),
        forall|j: int| 0 <= j ==> !occurs_at(t, ssh_prefix(host), j),
        forall|j: int| 0 <= j < n ==> !occurs_at(t, https_prefix(host), j),
    ensures
        service_url(t, host) == Some(https_prefix(host) + owner + seq!['/'] + repo),
{
    let p = https_prefix(host);
    let q = n + p.len() + owner.len();
    let e = q + 1 + repo.len();
    lemma_first_clone_none(t, ssh_prefix(host), 0);
    assert(p[0] == 'h');
    lemma_clone_match_exact(t, p, n, q, e);
    lemma_first_clone_at(t, p, 0, n);
    lemma_slug_git(owner, repo);
    assert(service_slug(t, host) == Some(owner + seq!['/'] + repo));
    assert(https_prefix(host) + owner + seq!['/'] + repo =~= p + (owner + seq!['/'] + repo));
}

/// No proper prefix of `https://github.com/` is also a suffix of it, so two
/// occurrences of it cannot overlap.
proof fn lemma_github_prefix_unbordered(d: int)
    requires
        1 <= d < https_prefix(github_host()).len(),
    ensures
        exists|y: int|
            0 <= y < https_prefix(github_host()).len() - d && #[trigger] https_prefix(
                github_host(),
            )[d + y] != https_prefix(github_host())[y],
{
    let p = https_prefix(github_host());
    assert(p =~= seq![
        'h', 't', 't', 'p', 's', ':', '/', '/', 'g', 'i', 't', 'h', 'u', 'b', '.', 'c', 'o', 'm', '/'
    ]);
    let y: int = if d == 11 {
        1
    } else {
        0
    };
    assert(p[d + y] != p[y]);
}

/// Where `s` begins with `https://github.com/` and `pre` holds no
/// `https://github.com/`, no occurrence in `pre + s` starts within `pre`.
proof fn lemma_no_github_https_before(pre: Seq<char>, s: Seq<char>)
    requires
        occurs_at(s, https_prefix(github_host()), 0),
        forall|j: int| 0 <= j ==> !occurs_at(pre, https_prefix(github_host()), j),
    ensures
        forall|j: int| 0 <= j < pre.len() ==> !occurs_at(pre + s, https_prefix(github_host()), j),
{
    let p = https_prefix(github_host());
    let t = pre + s;
    let n = pre.len() as int;
    assert forall|j: int| 0 <= j < n implies !occurs_at(t, p, j) by {
        if occurs_at(t, p, j) {
            if j + p.len() <= n {
                assert(t.subrange(j, j + p.len()) =~= pre.subrange(j, j + p.len()));
                assert(occurs_at(pre, p, j));
            } else {
                lemma_github_prefix_unbordered(n - j);
                let y = choose|y: int| 0 <= y < p.len() - (n - j) && #[trigger] p[(n - j) + y] != p[y];
                assert(t.subrange(j, j + p.len())[(n - j) + y] == t[n + y]);
                assert(t[n + y] == s[y]);
                assert(s.subrange(0, p.len() as int)[y] == s[y]);
                assert(p[(n - j) + y] == p[y]);
            }
        }
    }
}

#[verifier::rlimit(60)]
proof fn lemma_github_service(pre: Seq<char>, owner: Seq<char>, repo: Seq<char>, post: Seq<char>)
    requires
        owner.len() > 0,
        forall|j: int| 0 <= j < owner.len() ==> is_owner_char(owner[j]),
        repo.len() > 0,
        forall|j: int| 0 <= j < repo.len() ==> is_repo_char(repo[j]),
        is_ascii_alnum(repo.last()) || repo.last() == '_',
        !ends_with_git(repo),
        pre.len() == 0 || !is_word_char(pre.last()),
        post.len() == 0 || (!is_repo_char(post[0]) && !is_word_char(post[0])),
        forall|j: int| 0 <= j ==> !occurs_at(pre, https_prefix(github_host()), j),
        forall|j: int|
            0 <= j ==> !occurs_at(
                pre + https_prefix(github_host()) + owner + seq!['/'] + repo + post,
                ssh_prefix(github_host()),
                j,
            ),
    ensures
        service_url(pre + https_prefix(github_host()) + owner + seq!['/'] + repo + post, github_host())
            == Some(https_prefix(github_host()) + owner + seq!['/'] + repo),
{
    let p = https_prefix(github_host());
    let u = p + owner + seq!['/'] + repo;
    let t = pre + u + post;
    assert(pre + p + owner + seq!['/'] + repo + post =~= t);
    assert((u + post).subrange(0, p.len() as int) =~= p);
    lemma_no_github_https_before(pre, u + post);
    assert(pre + (u + post) =~= t);
    lemma_written_layout(github_host(), pre, owner, repo, post);
    lemma_host_service(github_host(), t, pre.len() as int, owner, repo);
}

/// A GitHub repository URL in a text is what extraction finds, whatever
/// prose stands around it and whatever hosts are added to the built-in ones,
/// where no other reference to GitHub comes first: the text has no
/// `git@github.com:` and the text before the URL no `https://github.com/`
/// and ends with no word character. The repository name ends with a word
/// character and not in `.git`, and what follows does not continue it.
pub proof fn github_url_in_text(
    hosts: ServiceHosts,
    pre: Seq<char>,
    owner: Seq<char>,
    repo: Seq<char>,
    post: Seq<char>,
)
    requires
        hosts.wf(),
        owner.len() > 0,
        forall|j: int| 0 <= j < owner.len() ==> is_owner_char(owner[j]),
        repo.len() > 0,
        forall|j: int| 0 <= j < repo.len() ==> is_repo_char(repo[j]),
        is_ascii_alnum(repo.last()) || repo.last() == '_',
        !ends_with_git(repo),
        pre.len() == 0 || !is_word_char(pre.last()),
        post.len() == 0 || (!is_repo_char(post[0]) && !is_word_char(post[0])),
        forall|j: int| 0 <= j ==> !occurs_at(pre, https_prefix(github_host()), j),
        forall|j: int|
            0 <= j ==> !occurs_at(
                pre + https_prefix(github_host()) + owner + seq!['/'] + repo + post,
                ssh_prefix(github_host()),
                j,
            ),
    ensures
        extract_url(pre + https_prefix(github_host()) + owner + seq!['/'] + repo + post, hosts@)
            == Some(https_prefix(github_host()) + owner + seq!['/'] + repo),
{
    lemma_github_service(pre, owner, repo, post);
    assert(hosts@.take(3)[0] == hosts@[0]);
}

#[verifier::rlimit(50)]
proof fn lemma_clone_shape(t: Seq<char>, p: Seq<char>, host: Seq<char>, a: int, b: int)
    requires
        first_clone_match(t, p, 0) == Some((a, b)),
    ensures
        exists|owner: Seq<char>, repo: Seq<char>|
            canonical_shape(https_prefix(host) + strip_git(t.subrange(a, b)), host, owner, repo),
{
    lemma_first_clone_found(t, p, 0);
    let m = choose|m: int| 0 <= m <= t.len() && clone_match_at(t, p, m) == first_clone_match(t, p, 0);
    let q = owner_run_end(t, a);
    lemma_owner_run_props(t, a);
    lemma_repo_run_props(t, q + 1);
    lemma_last_boundary(t, q + 2, repo_run_end(t, q + 1));
    let s = t.subrange(a, b);
    let stripped = ends_with_git(s) && s.len() > 4 && s[s.len() - 5] != '/';
    let end = if stripped { b - 4 } else { b };
    if stripped && q >= b - 5 {
        if q == b - 5 {
            assert(s[s.len() - 5] == t[q]);
        } else {
            assert(s.subrange(s.len() - 4, s.len() as int)[q - (b - 4)] == t[q]);
            assert(git_ext()[q - (b - 4)] != '/');
        }
    }
    assert(clone_match_at(t, p, m) == Some((a, b)));
    assert(a < q && q + 1 < b <= repo_run_end(t, q + 1));
    let owner = t.subrange(a, q);
    let repo = t.subrange(q + 1, end);
    assert(strip_git(s) =~= owner + seq!['/'] + repo);
    assert forall|j: int| 0 <= j < owner.len() implies is_owner_char(owner[j]) by {
        assert(owner[j] == t[a + j]);
    }
    assert forall|j: int| 0 <= j < repo.len() implies is_repo_char(repo[j]) by {
        assert(repo[j] == t[q + 1 + j]);
    }
    assert(https_prefix(host) + strip_git(s) =~= https_prefix(host) + owner + seq!['/'] + repo);
    assert(canonical_shape(https_prefix(host) + strip_git(s), host, owner, repo));
}

proof fn lemma_service_shape(t: Seq<char>, host: Seq<char>)
    requires
        service_url(t, host) is Some,
    ensures
        exists|owner: Seq<char>, repo: Seq<char>|
            canonical_shape(service_url(t, host)->Some_0, host, owner, repo),
{
    match first_clone_match(t, ssh_prefix(host), 0) {
        Some((a, b)) => {
            lemma_clone_shape(t, ssh_prefix(host), host, a, b);
            assert(service_url(t, host)->Some_0 == https_prefix(host) + strip_git(t.subrange(a, b)));
        },
        None => match first_clone_match(t, https_prefix(host), 0) {
            Some((a, b)) => {
                lemma_clone_shape(t, https_prefix(host), host, a, b);
                assert(service_url(t, host)->Some_0 == https_prefix(host) + strip_git(
                    t.subrange(a, b),
                ));
            },
            None => {},
        },
    }
}

#[verifier::rlimit(50)]
proof fn lemma_pages_shape(t: Seq<char>)
    requires
        first_pages_url(t, 0) is Some,
    ensures
        exists|owner: Seq<char>, repo: Seq<char>|
            canonical_shape(first_pages_url(t, 0)->Some_0, github_host(), owner, repo),
{
    lemma_first_pages_found(t, 0);
    let i = choose|m: int| 0 <= m <= t.len() && pages_url_at(t, m) == first_pages_url(t, 0);
    let u0 = i + 8;
    let u1 = owner_run_end(t, u0);
    let a = u1 + 10;
    lemma_owner_run_props(t, u0);
    let user = t.subrange(u0, u1);
    let project = if a < t.len() && t[a] == '/' {
        segment_end(t, a + 1)
    } else {
        None
    };
    match project {
        Some(e) => {
            lemma_repo_run_props(t, a + 1);
            lemma_last_boundary(t, a + 2, repo_run_end(t, a + 1));
            assert(canonical_shape(pages_url_at(t, i)->Some_0, github_host(), user, t.subrange(a + 1, e)));
        },
        None => {
            let repo = user + pages_suffix();
            assert forall|j: int| 0 <= j < repo.len() implies is_repo_char(repo[j]) by {
                if j >= user.len() {
                    assert(pages_suffix() =~= seq!['.', 'g', 'i', 't', 'h', 'u', 'b', '.', 'i', 'o']);
                    assert(repo[j] == pages_suffix()[j - user.len()]);
                }
            }
            assert(pages_url_at(t, i)->Some_0 =~= https_prefix(github_host()) + user + seq!['/']
                + repo);
            assert(canonical_shape(pages_url_at(t, i)->Some_0, github_host(), user, repo));
        },
    }
}

proof fn lemma_extract_found(t: Seq<char>, hosts: Seq<Seq<char>>, k: int)
    requires
        0 <= k,
        extract_from(t, hosts, k) is Some,
    ensures
        (exists|j: int| k <= j < hosts.len() && service_url(t, hosts[j]) == extract_from(t, hosts, k))
            || first_pages_url(t, 0) == extract_from(t, hosts, k),
    decreases hosts.len() - k,
{
    if k < hosts.len() && service_url(t, hosts[k]) is None {
        lemma_extract_found(t, hosts, k + 1);
    }
}

/// Every URL that extraction returns is `https://{host}/{owner}/{repo}`,
/// where the host is one of those configured, the owner is a non-empty run
/// of `[A-Za-z0-9_-]` and the repository a non-empty run of `[A-Za-z0-9_.-]`.
pub proof fn extracted_url_shape(hosts: ServiceHosts, t: Seq<char>, u: Seq<char>)
    requires
        hosts.wf(),
        extract_url(t, hosts@) == Some(u),
    ensures
        exists|host: Seq<char>, owner: Seq<char>, repo: Seq<char>|
            hosts@.contains(host) && canonical_shape(u, host, owner, repo),
{
    lemma_extract_found(t, hosts@, 0);
    if exists|j: int| 0 <= j < hosts@.len() && service_url(t, hosts@[j]) == Some(u) {
        let j = choose|j: int| 0 <= j < hosts@.len() && service_url(t, hosts@[j]) == Some(u);
        lemma_service_shape(t, hosts@[j]);
        let (owner, repo) = choose|owner: Seq<char>, repo: Seq<char>|
            canonical_shape(u, hosts@[j], owner, repo);
        assert(hosts@.contains(hosts@[j]));
        assert(canonical_shape(u, hosts@[j], owner, repo));
    } else {
        lemma_pages_shape(t);
        let (owner, repo) = choose|owner: Seq<char>, repo: Seq<char>|
            canonical_shape(u, github_host(), owner, repo);
        assert(hosts@.take(3)[0] == hosts@[0]);
        assert(hosts@.contains(hosts@[0]));
        assert(canonical_shape(u, hosts@[0], owner, repo));
    }
}

/// A canonical URL on one plain host is no reference to another.
#[verifier::rlimit(50)]
proof fn lemma_other_host(host: Seq<char>, other: Seq<char>, owner: Seq<char>, repo: Seq<char>)
    requires
        plain_host(host),
        plain_host(other),
        other != host,
        forall|j: int| 0 <= j < owner.len() ==> is_owner_char(owner[j]),
        forall|j: int| 0 <= j < repo.len() ==> is_repo_char(repo[j]),
    ensures
        service_url(https_prefix(host) + owner + seq!['/'] + repo, other) is None,
{
    let u = https_prefix(host) + owner + seq!['/'] + repo;
    let p = https_prefix(other);
    lemma_url_chars(host, owner, repo);
    lemma_no_ssh(u, other);
    assert forall|j: int| 0 <= j implies clone_match_at(u, p, j) is None by {
        if occurs_at(u, p, j) {
            assert(u.subrange(j, j + p.len())[5] == u[j + 5]);
            assert(j == 0);
            let w = u.subrange(0, p.len() as int);
            if other.len() < host.len() {
                assert(w[8 + other.len() as int] == u[8 + other.len() as int]);
                assert(u[8 + other.len() as int] == host[other.len() as int]);
            } else if other.len() > host.len() {
                assert(w[8 + host.len() as int] == u[8 + host.len() as int]);
                assert(p[8 + host.len() as int] == other[host.len() as int]);
            } else {
                assert forall|x: int| 0 <= x < host.len() implies other[x] == host[x] by {
                    assert(w[8 + x] == u[8 + x]);
                    assert(p[8 + x] == other[x]);
                    assert(u[8 + x] == host[x]);
                }
                assert(other =~= host);
            }
        }
    }
    lemma_first_clone_none(u, p, 0);
}

proof fn lemma_extract_reaches(u: Seq<char>, hosts: Seq<Seq<char>>, host: Seq<char>, k: int)
    requires
        0 <= k <= hosts.len(),
        exists|j: int| k <= j < hosts.len() && hosts[j] == host,
        service_url(u, host) == Some(u),
        forall|j: int| k <= j < hosts.len() && hosts[j] != host ==> service_url(u, hosts[j]) is None,
    ensures
        extract_from(u, hosts, k) == Some(u),
    decreases hosts.len() - k,
{
    if hosts[k] != host {
        lemma_extract_reaches(u, hosts, host, k + 1);
    }
}

/// Extraction run again on a URL that it returned gives that URL back,
/// where every configured host is a plain host name and the URL neither ends
/// in `.git` nor in a `.` or `-` (each of which a second run would drop).
pub proof fn extraction_is_idempotent(hosts: ServiceHosts, t: Seq<char>, u: Seq<char>)
    requires
        hosts.wf(),
        forall|j: int| 0 <= j < hosts@.len() ==> plain_host(hosts@[j]),
        extract_url(t, hosts@) == Some(u),
        is_ascii_alnum(u.last()) || u.last() == '_',
        !ends_with_git(u),
    ensures
        extract_url(u, hosts@) == Some(u),
{
    extracted_url_shape(hosts, t, u);
    let (host, owner, repo) = choose|host: Seq<char>, owner: Seq<char>, repo: Seq<char>|
        hosts@.contains(host) && canonical_shape(u, host, owner, repo);
    assert(u.last() == (https_prefix(host) + owner + seq!['/'] + repo).last());
    assert(repo.len() > 0);
    assert(repo.last() == u.last());
    if ends_with_git(repo) {
        assert(u.subrange(u.len() - 4, u.len() as int) =~= repo.subrange(
            repo.len() - 4,
            repo.len() as int,
        ));
    }
    let e = Seq::<char>::empty();
    lemma_url_chars(host, owner, repo);
    lemma_no_ssh(u, host);
    assert(e + u + e =~= u);
    lemma_written_layout(host, e, owner, repo, e);
    lemma_host_service(host, u, 0, owner, repo);
    assert forall|j: int| 0 <= j < hosts@.len() && hosts@[j] != host implies service_url(
        u,
        hosts@[j],
    ) is None by {
        lemma_other_host(host, hosts@[j], owner, repo);
    }
    lemma_extract_reaches(u, hosts@, host, 0);
}

/// A clone reference is word-bounded on both ends: no word character
/// comes right before its prefix, and its repository name ends at a word
/// boundary.
pub proof fn references_are_word_bounded(t: Seq<char>, p: Seq<char>, i: int)
    requires
        p.len() > 0,
        is_word_char(p[0]),
        clone_match_at(t, p, i) is Some,
    ensures
        i == 0 || !is_word_char(t[i - 1]),
        boundary(t, clone_match_at(t, p, i)->Some_0.1),
{
    assert(t.subrange(i, i + p.len())[0] == t[i]);
    let q = owner_run_end(t, i + p.len());
    lemma_last_boundary(t, q + 2, repo_run_end(t, q + 1));
}

/// A clone reference that stands alone in the text is found whole.
#[verifier::rlimit(50)]
proof fn lemma_reference_alone(p: Seq<char>, owner: Seq<char>, repo: Seq<char>)
    requires
        p.len() > 0,
        is_word_char(p[0]),
        owner.len() > 0,
        forall|j: int| 0 <= j < owner.len() ==> is_owner_char(owner[j]),
        repo.len() > 0,
        forall|j: int| 0 <= j < repo.len() ==> is_repo_char(repo[j]),
        is_ascii_alnum(repo.last()) || repo.last() == '_',
    ensures
        ({
            let t = p + owner + seq!['/'] + repo;
            first_clone_match(t, p, 0) == Some((p.len() as int, t.len() as int))
                && t.subrange(p.len() as int, t.len() as int) == owner + seq!['/'] + repo
        }),
{
    let t = p + owner + seq!['/'] + repo;
    let q = p.len() + owner.len() as int;
    assert(t.subrange(0, p.len() as int) =~= p);
    assert forall|j: int| p.len() <= j < q implies is_owner_char(t[j]) by {
        assert(t[j] == owner[j - p.len()]);
    }
    assert forall|j: int| q + 1 <= j < t.len() implies is_repo_char(t[j]) by {
        assert(t[j] == repo[j - q - 1]);
    }
    assert(t[q] == '/');
    assert(t[t.len() - 1] == repo.last());
    lemma_clone_match_exact(t, p, 0, q, t.len() as int);
    lemma_first_clone_at(t, p, 0, 0);
    assert(t.subrange(p.len() as int, t.len() as int) =~= owner + seq!['/'] + repo);
}

/// `git@{host}:{owner}/{repo}` and `https://{host}/{owner}/{repo}` name the
/// same repository, on their own, for a plain host name and a repository
/// name that ends with a word character.
#[verifier::rlimit(50)]
proof fn lemma_forms_agree(host: Seq<char>, owner: Seq<char>, repo: Seq<char>)
    requires
        plain_host(host),
        owner.len() > 0,
        forall|j: int| 0 <= j < owner.len() ==> is_owner_char(owner[j]),
        repo.len() > 0,
        forall|j: int| 0 <= j < repo.len() ==> is_repo_char(repo[j]),
        is_ascii_alnum(repo.last()) || repo.last() == '_',
    ensures
        service_url(ssh_prefix(host) + owner + seq!['/'] + repo, host) == Some(
            https_prefix(host) + strip_git(owner + seq!['/'] + repo),
        ),
        service_url(https_prefix(host) + owner + seq!['/'] + repo, host) == Some(
            https_prefix(host) + strip_git(owner + seq!['/'] + repo),
        ),
{
    let ssh = ssh_prefix(host);
    let https = https_prefix(host);
    assert(ssh[0] == 'g');
    assert(https[0] == 'h');
    lemma_reference_alone(ssh, owner, repo);
    lemma_reference_alone(https, owner, repo);
    lemma_url_chars(host, owner, repo);
    lemma_no_ssh(https + owner + seq!['/'] + repo, host);
}

/// The SSH and the HTTPS clone URL of a GitHub repository give the same
/// result, the canonical URL without one trailing `.git`, whatever hosts are
/// added to the built-in ones.
pub proof fn clone_forms_agree(hosts: ServiceHosts, owner: Seq<char>, repo: Seq<char>)
    requires
        hosts.wf(),
        owner.len() > 0,
        forall|j: int| 0 <= j < owner.len() ==> is_owner_char(owner[j]),
        repo.len() > 0,
        forall|j: int| 0 <= j < repo.len() ==> is_repo_char(repo[j]),
        is_ascii_alnum(repo.last()) || repo.last() == '_',
    ensures
        extract_url(ssh_prefix(github_host()) + owner + seq!['/'] + repo, hosts@) == Some(
            https_prefix(github_host()) + strip_git(owner + seq!['/'] + repo),
        ),
        extract_url(https_prefix(github_host()) + owner + seq!['/'] + repo, hosts@) == Some(
            https_prefix(github_host()) + strip_git(owner + seq!['/'] + repo),
        ),
{
    assert(plain_host(github_host()));
    lemma_forms_agree(github_host(), owner, repo);
    assert(hosts@.take(3)[0] == hosts@[0]);
}

/// A GitHub Pages URL names a repository: `https://{user}.github.io/{project}`
/// stands for `https://github.com/{user}/{project}`, and a root site
/// `https://{user}.github.io` for `https://github.com/{user}/{user}.github.io`,
/// for a non-empty user of `[A-Za-z0-9_-]` and a project of `[A-Za-z0-9_.-]`
/// that ends with a word character.
pub proof fn pages_rules(user: Seq<char>, project: Seq<char>)
    requires
        user.len() > 0,
        forall|j: int| 0 <= j < user.len() ==> is_owner_char(user[j]),
        project.len() > 0,
        forall|j: int| 0 <= j < project.len() ==> is_repo_char(project[j]),
        is_ascii_alnum(project.last()) || project.last() == '_',
    ensures
        first_pages_url(https_scheme() + user + pages_suffix() + seq!['/'] + project, 0) == Some(
            https_prefix(github_host()) + user + seq!['/'] + project,
        ),
        first_pages_url(https_scheme() + user + pages_suffix(), 0) == Some(
            https_prefix(github_host()) + user + seq!['/'] + user + pages_suffix(),
        ),
{
    lemma_pages_root(user);
    lemma_pages_project(user, project);
}

/// Where `https://{user}.github.io` stands at the start of a text.
#[verifier::rlimit(50)]
proof fn lemma_pages_head(user: Seq<char>, t: Seq<char>)
    requires
        user.len() > 0,
        forall|j: int| 0 <= j < user.len() ==> is_owner_char(user[j]),
        t.len() >= https_scheme().len() + user.len() + pages_suffix().len(),
        t.subrange(0, (https_scheme().len() + user.len() + pages_suffix().len()) as int) == https_scheme()
            + user + pages_suffix(),
    ensures
        ({
            let u0 = https_scheme().len() as int;
            let u1 = u0 + user.len();
            &&& occurs_at(t, https_scheme(), 0)
            &&& boundary(t, 0)
            &&& owner_run_end(t, u0) == u1
            &&& t.subrange(u0, u1) == user
            &&& occurs_at(t, pages_suffix(), u1)
            &&& is_word_char(t[u1 + pages_suffix().len() - 1])
        }),
{
    let sc = https_scheme();
    let sf = pages_suffix();
    let h = sc + user + sf;
    let u0 = sc.len() as int;
    let u1 = u0 + user.len();
    let a = u1 + sf.len();
    assert(sf =~= seq!['.', 'g', 'i', 't', 'h', 'u', 'b', '.', 'i', 'o']);
    assert forall|j: int| 0 <= j < a implies t[j] == h[j] by {
        assert(t.subrange(0, a)[j] == t[j]);
    }
    assert(t.subrange(0, u0) =~= sc);
    assert(t[0] == sc[0]);
    assert(t.subrange(u1, a) =~= sf);
    assert(t.subrange(u0, u1) =~= user);
    assert forall|j: int| u0 <= j < u1 implies is_owner_char(t[j]) by {
        assert(h[j] == user[j - u0]);
    }
    assert(t[u1] == h[u1]);
    lemma_owner_run(t, u0, user.len() as int);
    assert(t[a - 1] == h[a - 1]);
}

proof fn lemma_pages_root(user: Seq<char>)
    requires
        user.len() > 0,
        forall|j: int| 0 <= j < user.len() ==> is_owner_char(user[j]),
    ensures
        first_pages_url(https_scheme() + user + pages_suffix(), 0) == Some(
            https_prefix(github_host()) + user + seq!['/'] + user + pages_suffix(),
        ),
{
    let t = https_scheme() + user + pages_suffix();
    assert(t.subrange(0, t.len() as int) =~= t);
    lemma_pages_head(user, t);
    let a = t.len() as int;
    let u1 = a - pages_suffix().len();
    assert(pages_url_at(t, 0) == Some(pages_url_of(t, 8, u1, a, a)));
    assert(pages_url_of(t, 8, u1, a, a) =~= https_prefix(github_host()) + user + seq!['/'] + user
        + pages_suffix());
}

#[verifier::rlimit(50)]
proof fn lemma_pages_project(user: Seq<char>, project: Seq<char>)
    requires
        user.len() > 0,
        forall|j: int| 0 <= j < user.len() ==> is_owner_char(user[j]),
        project.len() > 0,
        forall|j: int| 0 <= j < project.len() ==> is_repo_char(project[j]),
        is_ascii_alnum(project.last()) || project.last() == '_',
    ensures
        first_pages_url(https_scheme() + user + pages_suffix() + seq!['/'] + project, 0) == Some(
            https_prefix(github_host()) + user + seq!['/'] + project,
        ),
{
    let head = https_scheme() + user + pages_suffix();
    let t = head + seq!['/'] + project;
    let a = head.len() as int;
    assert(t.subrange(0, a) =~= head);
    lemma_pages_head(user, t);
    assert forall|j: int| a + 1 <= j < t.len() implies is_repo_char(t[j]) by {
        assert(t[j] == project[j - a - 1]);
    }
    assert(t[a] == '/');
    assert(t[t.len() - 1] == project.last());
    lemma_repo_run(t, a + 1, project.len() as int);
    assert(segment_end(t, a + 1) == Some(t.len() as int));
    assert(t.subrange(a + 1, t.len() as int) =~= project);
    assert(pages_url_at(t, 0) == Some(https_prefix(github_host()) + user + seq!['/'] + project));
}

} // verus!
