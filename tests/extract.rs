use extract_repo_url::error::Error;
use extract_repo_url::extract::{extract_any_service_url, extract_project_url, extract_service_url};
use extract_repo_url::hosts::ServiceHosts;

fn extract(text: &str) -> Result<String, Error> {
    extract_any_service_url(text, &ServiceHosts::builtin())
}

fn all_give(inputs: &[&str], expected: &str) {
    for input in inputs {
        assert_eq!(extract(input), Ok(expected.to_string()), "{}", input);
    }
}

#[test]
fn github_in_text() {
    all_give(
        &[
            "https://github.com/foo/bar",
            "This is text https://github.com/foo/bar",
            "https://github.com/foo/bar is great",
            "oh, https://github.com/foo/bar?",
            "https://github.com/foo/bar/blob/master/tests/tests.rs",
        ],
        "https://github.com/foo/bar",
    );
}

#[test]
fn dash_dot_underscore() {
    all_give(
        &[
            "https://github.com/dash-included/-some-awesome_repo.rs_",
            "This is text https://github.com/dash-included/-some-awesome_repo.rs_",
            "https://github.com/dash-included/-some-awesome_repo.rs_ is great",
            "oh, https://github.com/dash-included/-some-awesome_repo.rs_?",
        ],
        "https://github.com/dash-included/-some-awesome_repo.rs_",
    );
}

#[test]
fn clone_urls() {
    all_give(
        &[
            "https://github.com/foo/bar.git",
            "git clone https://github.com/foo/bar.git",
            "git@github.com:foo/bar.git",
            "git clone git@github.com:foo/bar.git",
        ],
        "https://github.com/foo/bar",
    );
}

#[test]
fn clone_url_edge_case() {
    all_give(
        &["https://github.com/foo/bar.git.git", "git@github.com:foo/bar.git.git"],
        "https://github.com/foo/bar.git",
    );
}

#[test]
fn github_pages() {
    all_give(
        &["https://foo-bar.github.io/proj-ect", "https://foo-bar.github.io/proj-ect/"],
        "https://github.com/foo-bar/proj-ect",
    );
}

#[test]
fn personal_github_pages() {
    all_give(
        &["https://foo-bar.github.io", "https://foo-bar.github.io/"],
        "https://github.com/foo-bar/foo-bar.github.io",
    );
}

#[test]
fn bitbucket_in_text() {
    all_give(
        &[
            "https://bitbucket.org/foo/bar",
            "This is text https://bitbucket.org/foo/bar",
            "https://bitbucket.org/foo/bar is great",
            "oh, https://bitbucket.org/foo/bar?",
        ],
        "https://bitbucket.org/foo/bar",
    );
}

#[test]
fn gitlab_in_text() {
    all_give(
        &[
            "https://gitlab.com/foo/bar",
            "This is text https://gitlab.com/foo/bar",
            "https://gitlab.com/foo/bar is great",
            "oh, https://gitlab.com/foo/bar?",
        ],
        "https://gitlab.com/foo/bar",
    );
}

#[test]
fn additional_hosts() {
    let hosts = ServiceHosts::from_config("github.example.com, github2.example.com");

    for text in &[
        "https://github.example.com/foo/bar",
        "https://github.example.com/foo/bar is awesome",
        "oh, https://github.example.com/foo/bar?",
        "git clone https://github.example.com/foo/bar.git",
        "git clone git@github.example.com:foo/bar.git",
    ] {
        assert_eq!(
            extract_any_service_url(text, &hosts),
            Ok("https://github.example.com/foo/bar".to_string()),
            "{}",
            text
        );
    }

    for text in &[
        "https://github2.example.com/foo/bar",
        "https://github2.example.com/foo/bar is awesome",
        "oh, https://github2.example.com/foo/bar?",
        "git clone https://github2.example.com/foo/bar.git",
        "git clone git@github2.example.com:foo/bar.git",
    ] {
        assert_eq!(
            extract_any_service_url(text, &hosts),
            Ok("https://github2.example.com/foo/bar".to_string()),
        );
    }

    // The host is matched literally: its dots match dots only.
    assert!(extract_any_service_url("https://githubxexampleycom/foo/bar", &hosts).is_err());
}

#[test]
fn error_cases() {
    for text in &[
        "",
        "hey",
        "https://github.com",
        "https://github.com/foo",
        "git@github.com",
        "git@github.com/foo/bar",
        "git@github.com:foo.git",
    ] {
        let ret = extract(text);
        assert!(ret.is_err(), "Unexpected success: {:?}", ret);
    }
}

#[test]
fn real_world() {
    for slug in &[
        "rust-lang/rust",
        "torvalds/linux",
        "twbs/bootstrap",
        "facebook/react-native",
        "tensorflow/tensorflow",
        "vinta/awesome-python",
        "jquery/jquery",
        "h5bp/html5-boilerplate",
        "d3/d3",
        "nodejs/node",
        "vuejs/vue",
        "mrdoob/three.js",
        "kamranahmedse/developer-roadmap",
        "sindresorhus/awesome",
        "jwasham/coding-interview-university",
    ] {
        let url = format!("https://github.com/{}", slug);
        for text in &[
            url.clone(),
            format!("hello, {} world", url),
            format!("oh, {}!?", url),
            format!("{}/tree/master/tests/data", url),
        ] {
            assert_eq!(extract(text), Ok(url.clone()));
        }

        let ssh = format!("git@github.com:{}", slug);
        for text in &[ssh.clone(), format!("git clone {}", ssh), format!("oh, {}!?", ssh)] {
            assert_eq!(extract(text), Ok(format!("https://github.com/{}", slug)));
        }
    }
}

#[test]
fn host_is_word_bounded() {
    assert_eq!(
        extract("https://notgithub.com/a/b"),
        Err(Error::RepoUrlNotFound("https://notgithub.com/a/b".to_string()))
    );
    assert_eq!(extract_service_url("xhttps://github.com/a/b", "github.com"), None);
    assert_eq!(extract_service_url("agit@github.com:a/b", "github.com"), None);
    assert_eq!(
        extract_service_url("(https://github.com/a/b)", "github.com"),
        Some("https://github.com/a/b".to_string())
    );
}

#[test]
fn ssh_and_https_agree() {
    assert_eq!(extract("git@github.com:foo/bar.git"), Ok("https://github.com/foo/bar".to_string()));
    assert_eq!(extract("https://github.com/foo/bar.git"), Ok("https://github.com/foo/bar".to_string()));
}

#[test]
fn only_one_git_extension_is_dropped() {
    assert_eq!(
        extract("git@github.com:foo/bar.git.git"),
        Ok("https://github.com/foo/bar.git".to_string())
    );
}

#[test]
fn pages_with_project() {
    assert_eq!(
        extract("https://foo-bar.github.io/proj-ect"),
        Ok("https://github.com/foo-bar/proj-ect".to_string())
    );
    assert_eq!(
        extract_project_url("see https://foo-bar.github.io/proj-ect."),
        Ok("https://github.com/foo-bar/proj-ect".to_string())
    );
}

#[test]
fn pages_root_site() {
    assert_eq!(
        extract("https://foo-bar.github.io"),
        Ok("https://github.com/foo-bar/foo-bar.github.io".to_string())
    );
    assert_eq!(
        extract_project_url("no pages here"),
        Err(Error::RepoUrlNotFound("no pages here".to_string()))
    );
}

#[test]
fn custom_host() {
    let hosts = ServiceHosts::with_extra(vec!["github.example.com".to_string()]);
    assert_eq!(
        extract_any_service_url("git clone https://github.example.com/foo/bar.git", &hosts),
        Ok("https://github.example.com/foo/bar".to_string())
    );
    assert!(extract("git clone https://github.example.com/foo/bar.git").is_err());
}

#[test]
fn not_found_carries_the_text() {
    for text in &["", "https://github.com", "https://github.com/foo", "git@github.com/foo/bar"] {
        assert_eq!(extract(text), Err(Error::RepoUrlNotFound(text.to_string())));
    }
}

#[test]
fn extraction_is_stable() {
    for text in &[
        "oh, https://github.com/foo/bar?",
        "git clone git@gitlab.com:foo/bar.git",
        "https://foo-bar.github.io",
        "https://foo-bar.github.io/proj-ect/",
        "hello https://bitbucket.org/a_b/c.d_e world",
    ] {
        let url = extract(text).unwrap();
        assert_eq!(extract(&url), Ok(url.clone()));
    }
}

#[test]
fn ssh_form_comes_first() {
    assert_eq!(
        extract("https://github.com/a/b git@github.com:c/d"),
        Ok("https://github.com/c/d".to_string())
    );
}

#[test]
fn hosts_are_tried_in_order() {
    assert_eq!(
        extract("https://gitlab.com/a/b https://github.com/c/d"),
        Ok("https://github.com/c/d".to_string())
    );
    assert_eq!(
        extract("https://gitlab.com/a/b https://foo.github.io/p"),
        Ok("https://gitlab.com/a/b".to_string())
    );
}

#[test]
fn leftmost_reference_wins() {
    assert_eq!(
        extract("https://github.com/a/b and https://github.com/c/d"),
        Ok("https://github.com/a/b".to_string())
    );
}

#[test]
fn repository_name_backs_off_to_a_word_boundary() {
    assert_eq!(extract("https://github.com/foo/bar."), Ok("https://github.com/foo/bar".to_string()));
    assert_eq!(extract("https://github.com/foo/bar-"), Ok("https://github.com/foo/bar".to_string()));
}

#[test]
fn unicode_word_characters_count_for_boundaries() {
    // After `-`, a letter beyond ASCII makes a word boundary.
    assert_eq!(extract("https://github.com/foo/bar-é"), Ok("https://github.com/foo/bar-".to_string()));
    // After a letter, it does not: no boundary is left in the name.
    assert!(extract("https://github.com/foo/baré").is_err());
    // A letter beyond ASCII before the scheme hides it.
    assert!(extract("éhttps://github.com/foo/bar").is_err());
    assert_eq!(extract("→https://github.com/foo/bar"), Ok("https://github.com/foo/bar".to_string()));
}

#[test]
fn error_messages() {
    assert_eq!(Error::EmptyText.message(), "Input text is empty");
    assert_eq!(
        Error::RepoUrlNotFound("hey".to_string()).message(),
        "No repository URL was found in 'hey'"
    );
    assert_eq!(Error::IoFailure("broken pipe".to_string()).message(), "IO failure: broken pipe");
    assert_eq!(
        Error::ClipboardReadFailure("no display".to_string()).message(),
        "Could not read clipboard content: no display"
    );
    assert_eq!(Error::OpenNotSupported.message(), "Cannot open a browser on this OS");
    assert_eq!(
        Error::CannotOpenUrl("https://example.com".to_string()).message(),
        "Cannot open URL 'https://example.com'"
    );
}

#[test]
fn bare_git_repository_name_is_kept() {
    assert_eq!(extract("https://github.com/b/.git"), Ok("https://github.com/b/.git".to_string()));
    assert_eq!(extract("git@github.com:b/.git"), Ok("https://github.com/b/.git".to_string()));
    assert_eq!(
        extract_service_url("https://github.com/b/.git", "github.com"),
        Some("https://github.com/b/.git".to_string())
    );
    assert_eq!(extract("https://github.com/b/a.git"), Ok("https://github.com/b/a".to_string()));
}

#[test]
fn prose_with_colons_and_at_signs_around_the_url() {
    assert_eq!(
        extract("Note: https://github.com/a/b, mail me@example.com"),
        Ok("https://github.com/a/b".to_string())
    );
}
