//! The hosting services to look for, in order of priority.
use vstd::prelude::*;
use crate::chars::{chars_of, is_space, is_space_char};
use crate::grammar::github_host;

verus! {

pub open spec fn bitbucket_host() -> Seq<char> {
    seq!['b', 'i', 't', 'b', 'u', 'c', 'k', 'e', 't', '.', 'o', 'r', 'g']
}

pub open spec fn gitlab_host() -> Seq<char> {
    seq!['g', 'i', 't', 'l', 'a', 'b', '.', 'c', 'o', 'm']
}

/// The hosts that are always known, first to last.
pub open spec fn builtin_hosts() -> Seq<Seq<char>> {
    seq![github_host(), bitbucket_host(), gitlab_host()]
}

/// `s` without its leading whitespace.
pub open spec fn trim_start(s: Seq<char>) -> Seq<char>
    decreases s.len(),
{
    if s.len() > 0 && is_space_char(s[0]) {
        trim_start(s.drop_first())
    } else {
        s
    }
}

/// `s` without its trailing whitespace.
pub open spec fn trim_end(s: Seq<char>) -> Seq<char>
    decreases s.len(),
{
    if s.len() > 0 && is_space_char(s.last()) {
        trim_end(s.drop_last())
    } else {
        s
    }
}

pub open spec fn trim(s: Seq<char>) -> Seq<char> {
    trim_end(trim_start(s))
}

/// The pieces of `s` between commas; `s` without a comma is one piece.
pub open spec fn split_commas(s: Seq<char>) -> Seq<Seq<char>>
    decreases s.len(),
{
    if s.len() == 0 {
        seq![Seq::empty()]
    } else {
        let init = split_commas(s.drop_last());
        if s.last() == ',' {
            init.push(Seq::empty())
        } else {
            init.drop_last().push(init.last().push(s.last()))
        }
    }
}

/// The extra hosts that a configuration value names: its comma-separated
/// pieces, each trimmed of whitespace.
pub open spec fn config_hosts(value: Seq<char>) -> Seq<Seq<char>> {
    split_commas(value).map_values(|p: Seq<char>| trim(p))
}

pub open spec fn views(v: Seq<String>) -> Seq<Seq<char>> {
    v.map_values(|s: String| s@)
}

/// `s` without leading or trailing whitespace.
pub fn trim_spaces(s: &str) -> (r: String)
    ensures
        r@ == trim(s@),
{
    let t = chars_of(s);
    let n = t.len();
    let mut a: usize = 0;
    assert(s@.subrange(0, n as int) =~= s@);
    while a < n && is_space(t[a])
        invariant
            a <= n == t@.len(),
            t@ == s@,
            trim_start(s@) == trim_start(s@.subrange(a as int, n as int)),
        decreases n - a,
    {
        assert(s@.subrange(a as int, n as int).drop_first() =~= s@.subrange(a + 1, n as int));
        a = a + 1;
    }
    assert(trim_start(s@.subrange(a as int, n as int)) == s@.subrange(a as int, n as int));
    let mut b: usize = n;
    while b > a && is_space(t[b - 1])
        invariant
            a <= b <= n == t@.len(),
            t@ == s@,
            trim(s@) == trim_end(s@.subrange(a as int, b as int)),
        decreases b,
    {
        assert(s@.subrange(a as int, b as int).drop_last() =~= s@.subrange(a as int, b - 1));
        b = b - 1;
    }
    String::from_str(s.substring_char(a, b))
}

/// The hosts that a configuration value names, in order.
pub fn parse_host_list(value: &str) -> (r: Vec<String>)
    ensures
        views(r@) == config_hosts(value@),
{
    let t = chars_of(value);
    let mut pieces: Vec<String> = Vec::new();
    let ghost mut raw: Seq<Seq<char>> = Seq::empty();
    let mut start: usize = 0;
    let mut i: usize = 0;
    assert(value@.take(0) =~= Seq::<char>::empty());
    assert(split_commas(value@.take(0)) =~= raw.push(value@.subrange(0, 0)));
    while i < t.len()
        invariant
            start <= i <= t.len(),
            t@ == value@,
            split_commas(value@.take(i as int)) == raw.push(value@.subrange(start as int, i as int)),
            views(pieces@) == raw.map_values(|p: Seq<char>| trim(p)),
        decreases t.len() - i,
    {
        assert(value@.take(i + 1).drop_last() =~= value@.take(i as int));
        if t[i] == ',' {
            let piece = trim_spaces(value.substring_char(start, i));
            let ghost before = views(pieces@);
            proof {
                raw = raw.push(value@.subrange(start as int, i as int));
            }
            pieces.push(piece);
            assert(views(pieces@) =~= before.push(piece@));
            assert(views(pieces@) =~= raw.map_values(|p: Seq<char>| trim(p)));
            start = i + 1;
            assert(value@.subrange(start as int, start as int) =~= Seq::<char>::empty());
        } else {
            assert(value@.subrange(start as int, i + 1) =~= value@.subrange(
                start as int,
                i as int,
            ).push(t@[i as int]));
        }
        i = i + 1;
    }
    let last = trim_spaces(value.substring_char(start, i));
    let ghost before = views(pieces@);
    pieces.push(last);
    assert(views(pieces@) =~= before.push(last@));
    assert(value@.take(i as int) =~= value@);
    assert(views(pieces@) =~= config_hosts(value@));
    pieces
}

/// The hosts to try, first to last: the built-in ones, then those that the
/// configuration adds.
pub struct ServiceHosts {
    hosts: Vec<String>,
}

impl View for ServiceHosts {
    type V = Seq<Seq<char>>;

    closed spec fn view(&self) -> Seq<Seq<char>> {
        views(self.hosts@)
    }
}

impl ServiceHosts {
    /// Every list begins with the built-in hosts.
    pub open spec fn wf(&self) -> bool {
        self@.len() >= builtin_hosts().len() && self@.take(builtin_hosts().len() as int)
            == builtin_hosts()
    }

    /// The built-in hosts alone.
    pub fn builtin() -> (r: ServiceHosts)
        ensures
            r@ == builtin_hosts(),
            r.wf(),
    {
        let mut hosts: Vec<String> = Vec::new();
        hosts.push(String::from_str("github.com"));
        hosts.push(String::from_str("bitbucket.org"));
        hosts.push(String::from_str("gitlab.com"));
        proof {
            reveal_strlit("github.com");
            reveal_strlit("bitbucket.org");
            reveal_strlit("gitlab.com");
            assert("github.com"@ =~= github_host());
            assert("bitbucket.org"@ =~= bitbucket_host());
            assert("gitlab.com"@ =~= gitlab_host());
        }
        let r = ServiceHosts { hosts };
        assert(r@ =~= builtin_hosts());
        assert(r@.take(3) =~= r@);
        r
    }

    /// The built-in hosts followed by `extra`, in its order.
    pub fn with_extra(extra: Vec<String>) -> (r: ServiceHosts)
        ensures
            r@ == builtin_hosts() + views(extra@),
            r.wf(),
    {
        let mut r = ServiceHosts::builtin();
        let mut i: usize = 0;
        while i < extra.len()
            invariant
                i <= extra.len(),
                r@ == builtin_hosts() + views(extra@.take(i as int)),
            decreases extra.len() - i,
        {
            let ghost before = views(r.hosts@);
            let c = extra[i].clone();
            r.hosts.push(c);
            assert(views(r.hosts@) =~= before.push(c@));
            assert(extra@.take(i + 1) =~= extra@.take(i as int).push(extra@[i as int]));
            assert(views(extra@.take(i + 1)) =~= views(extra@.take(i as int)).push(c@));
            assert(r@ =~= builtin_hosts() + views(extra@.take(i + 1)));
            i = i + 1;
        }
        assert(extra@.take(i as int) =~= extra@);
        assert(r@.take(3) =~= builtin_hosts());
        r
    }

    /// The built-in hosts followed by those that a comma-separated
    /// configuration value names.
    pub fn from_config(value: &str) -> (r: ServiceHosts)
        ensures
            r@ == builtin_hosts() + config_hosts(value@),
            r.wf(),
    {
        ServiceHosts::with_extra(parse_host_list(value))
    }

    pub fn len(&self) -> (r: usize)
        ensures
            r == self@.len(),
    {
        self.hosts.len()
    }

    pub fn get(&self, i: usize) -> (r: &String)
        requires
            i < self@.len(),
        ensures
            r@ == self@[i as int],
    {
        &self.hosts[i]
    }
}

} // verus!
