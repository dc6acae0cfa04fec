use extract_repo_url::hosts::{parse_host_list, trim_spaces, ServiceHosts};

fn names(hosts: &ServiceHosts) -> Vec<String> {
    (0..hosts.len()).map(|i| hosts.get(i).clone()).collect()
}

#[test]
fn builtin_hosts_in_order() {
    assert_eq!(names(&ServiceHosts::builtin()), vec!["github.com", "bitbucket.org", "gitlab.com"]);
}

#[test]
fn config_hosts_follow_builtin_ones() {
    assert_eq!(
        names(&ServiceHosts::from_config("github.example.com, github2.example.com")),
        vec!["github.com", "bitbucket.org", "gitlab.com", "github.example.com", "github2.example.com"]
    );
}

#[test]
fn config_pieces_are_split_and_trimmed() {
    assert_eq!(parse_host_list(" a.example ,b.example,,\tc.example\n"), vec!["a.example", "b.example", "", "c.example"]);
    assert_eq!(parse_host_list(""), vec![""]);
    assert_eq!(parse_host_list("one"), vec!["one"]);
    assert_eq!(parse_host_list(","), vec!["", ""]);
}

#[test]
fn unicode_whitespace_is_trimmed() {
    assert_eq!(trim_spaces("\u{3000}host.example\u{a0}"), "host.example");
    assert_eq!(trim_spaces("  in side  "), "in side");
    assert_eq!(trim_spaces("é"), "é");
    assert_eq!(trim_spaces("   "), "");
}
