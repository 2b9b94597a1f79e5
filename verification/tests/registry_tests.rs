use splusnpp::registry::{parse_index_json, IndexDocument, RegistryClientConfig, RegistryError};
use splusnpp::version::{Constraint, Version};

#[test]
fn builds_versioned_endpoints() {
    let config = RegistryClientConfig::new("https://registry.example.test/", "/tmp/snp-cache");
    assert_eq!(config.index_url("demo"), "https://registry.example.test/v1/index/demo.json");
    assert_eq!(
        config.metadata_url("demo", &Version::parse("1.2.3").unwrap()),
        "https://registry.example.test/v1/packages/demo/1.2.3/snp.toml"
    );
}

#[test]
fn parses_index_json_and_dependencies() {
    let text = r#"{"protocol":"snp-registry-v1","package":"demo","versions":[{"version":"1.2.0","metadata_url":"m","archive_url":"a","checksum":"sha256:abc","dependencies":[{"name":"core","version":"^1.0.0"}]}]}"#;
    let index = parse_index_json(text).unwrap();
    assert_eq!(index.package, "demo");
    assert_eq!(index.versions[0].dependencies[0].constraint, Constraint::Caret(Version::parse("1.0.0").unwrap()));
    assert_eq!(index.highest_matching(&Constraint::Any).unwrap().version, Version::parse("1.2.0").unwrap());
}

#[test]
fn rejects_malformed_index() {
    let error = parse_index_json(r#"{"protocol":"snp-registry-v1","package":"demo","versions":[{"version":"bad"}]}"#).unwrap_err();
    assert!(matches!(error, RegistryError::Json(_)));
}

#[test]
fn rejects_wrong_protocol() {
    let index = IndexDocument { protocol: "old".into(), package: "demo".into(), versions: vec![] };
    assert!(index.validate().is_err());
}

use splusnpp::registry::{read_response, HttpRegistryClient, IndexVersion, PROTOCOL_VERSION};

fn entry(version: &str, checksum: &str) -> IndexVersion {
    IndexVersion {
        version: Version::parse(version).unwrap(),
        metadata_url: "m".into(),
        archive_url: "a".into(),
        checksum: checksum.into(),
        dependencies: vec![],
    }
}

fn index(versions: Vec<IndexVersion>) -> IndexDocument {
    IndexDocument { protocol: PROTOCOL_VERSION.into(), package: "demo".into(), versions }
}

fn json_error(text: &str) -> String {
    match parse_index_json(text).unwrap_err() {
        RegistryError::Json(message) => message,
        other => panic!("expected a JSON error, got {other:?}"),
    }
}

#[test]
fn config_trims_slashes_and_names_the_client() {
    let config = RegistryClientConfig::new("https://r.example///", "/cache");
    assert_eq!(config.base_url, "https://r.example");
    assert_eq!(config.cache_dir, "/cache");
    assert_eq!(config.user_agent, "snp/snp-registry-v1");
    assert_eq!(RegistryClientConfig::new(&config.base_url, "/cache").base_url, config.base_url);
    assert_eq!(
        config.archive_url("net.http", &Version::parse("1.2.0").unwrap()),
        "https://r.example/v1/packages/net.http/1.2.0/download"
    );
    let client = HttpRegistryClient::new(config.clone());
    assert_eq!(client.config(), &config);
}

#[test]
fn reads_json_errors_exactly() {
    assert_eq!(json_error("[1]"), "expected JSON value");
    assert_eq!(json_error(""), "expected JSON value");
    assert_eq!(json_error("{}"), "missing field `protocol`");
    assert_eq!(json_error("\"x\""), "index root must be an object");
    assert_eq!(json_error("{\"protocol\":null}"), "field `protocol` must be a string");
    assert_eq!(json_error("{\"a\" \"b\"}"), "expected object colon");
    assert_eq!(json_error("{\"a\":\"b\" \"c\"}"), "expected object separator");
    assert_eq!(json_error("[\"a\" \"b\"]"), "expected array separator");
    assert_eq!(json_error("{\"a\":\"b\"} x"), "trailing JSON data");
    assert_eq!(json_error("{\"a\":\"b"), "unterminated string");
    assert_eq!(json_error("{\"a\":\"b\\"), "unfinished escape");
    assert_eq!(json_error("{\"a\":nul}"), "invalid null");
    assert_eq!(json_error("{5:1}"), "expected string");
}

#[test]
fn reads_index_structure_errors_exactly() {
    let head = "{\"protocol\":\"snp-registry-v1\",\"package\":\"demo\",";
    assert_eq!(json_error(&format!("{head}\"versions\":{{}}}}")), "field `versions` must be an array");
    assert_eq!(json_error(&format!("{head}\"other\":[]}}")), "missing field `versions`");
    assert_eq!(json_error(&format!("{head}\"versions\":[\"x\"]}}")), "version entry must be an object");
    assert_eq!(
        json_error(&format!("{head}\"versions\":[{{\"dependencies\":null}}]}}")),
        "field `dependencies` must be an array"
    );
    assert_eq!(
        json_error(&format!("{head}\"versions\":[{{\"dependencies\":[null]}}]}}")),
        "dependency entry must be an object"
    );
    assert_eq!(
        json_error(&format!("{head}\"versions\":[{{\"dependencies\":[{{\"name\":\"x\",\"version\":\"^x\"}}]}}]}}")),
        "invalid version constraint `^x`"
    );
    assert_eq!(json_error(&format!("{head}\"versions\":[{{\"version\":\"bad\"}}]}}")), "invalid semantic version `bad`");
    assert_eq!(json_error(&format!("{head}\"versions\":[{{\"version\":\"1.0.0\"}}]}}")), "missing field `metadata_url`");
}

#[test]
fn reads_escapes_whitespace_and_the_first_of_repeated_keys() {
    let text = " { \"protocol\" : \"snp-registry-v1\" , \"package\":\"a\\\"b\", \"package\":\"ignored\",\n\"versions\" : [ ] } ";
    let index = parse_index_json(text).unwrap();
    assert_eq!(index.package, "a\"b");
    assert!(index.versions.is_empty());
    assert_eq!(index.validate().unwrap_err(), "registry index for `a\"b` has no versions");
}

#[test]
fn validation_messages() {
    let mut bad = index(vec![entry("1.0.0", "sha256:0a")]);
    bad.package = String::new();
    assert_eq!(bad.validate().unwrap_err(), "registry index package name is empty");
    let mut old = index(vec![]);
    old.protocol = "old".into();
    assert_eq!(old.validate().unwrap_err(), "unsupported registry protocol `old`");
    let mut incomplete = entry("1.0.0", "sha256:0a");
    incomplete.archive_url = String::new();
    assert_eq!(
        index(vec![entry("0.9.0", "sha256:0b"), incomplete]).validate().unwrap_err(),
        "registry index `demo` has incomplete version 1.0.0"
    );
    assert_eq!(
        index(vec![entry("2.0.0", "md5:x")]).validate().unwrap_err(),
        "registry index `demo` version 2.0.0 has invalid checksum"
    );
    assert!(index(vec![entry("2.0.0", "sha256:0123456789abcdef")]).validate().is_ok());
    for digest in ["sha256:", "sha256:ABC", "sha256:abg", "sha256: ab", "sha256:ab "] {
        assert_eq!(
            index(vec![entry("2.0.0", digest)]).validate().unwrap_err(),
            "registry index `demo` version 2.0.0 has invalid checksum"
        );
    }
}

#[test]
fn selects_the_highest_matching_version_whatever_the_order() {
    let doc = index(vec![entry("1.4.0", "sha256:a"), entry("2.0.0", "sha256:b"), entry("1.10.1", "sha256:c"), entry("1.2.0", "sha256:d")]);
    let caret = Constraint::Caret(Version::parse("1.2.0").unwrap());
    assert_eq!(doc.highest_matching(&caret).unwrap().version, Version::parse("1.10.1").unwrap());
    assert_eq!(doc.highest_matching(&Constraint::Any).unwrap().version, Version::parse("2.0.0").unwrap());
    assert_eq!(
        doc.highest_matching(&Constraint::Caret(Version::parse("3.0.0").unwrap())).unwrap_err(),
        "no registry version of `demo` satisfies ^3.0.0"
    );
}

#[test]
fn of_equal_versions_the_last_is_chosen() {
    let doc = index(vec![entry("1.0.0", "sha256:f1"), entry("1.0.0", "sha256:5ec0"), entry("0.5.0", "sha256:3d")]);
    assert_eq!(doc.highest_matching(&Constraint::Any).unwrap().checksum, "sha256:5ec0");
}

#[test]
fn selection_validates_first() {
    let doc = index(vec![entry("1.0.0", "nope")]);
    assert_eq!(
        doc.highest_matching(&Constraint::Any).unwrap_err(),
        "registry index `demo` version 1.0.0 has invalid checksum"
    );
}

const BODY: &str = r#"{"protocol":"snp-registry-v1","package":"demo","versions":[{"version":"1.0.0","metadata_url":"m","archive_url":"a","checksum":"sha256:abc"}]}"#;

#[test]
fn fetch_index_accepts_a_valid_answer() {
    let client = HttpRegistryClient::new(RegistryClientConfig::new("http://127.0.0.1:1", "/tmp/snp-cache"));
    let index = client.fetch_index("demo", Ok((200, BODY.to_string()))).unwrap();
    assert_eq!(index.versions[0].version, Version::parse("1.0.0").unwrap());
}

#[test]
fn fetch_index_refuses_bad_answers() {
    let client = HttpRegistryClient::new(RegistryClientConfig::new("http://127.0.0.1:1", "/tmp/snp-cache"));
    let transport = RegistryError::Transport("connection refused".into());
    assert_eq!(client.fetch_index("demo", Err(transport.clone())).unwrap_err(), transport);
    assert_eq!(client.fetch_index("demo", Ok((404, BODY.to_string()))).unwrap_err(), RegistryError::HttpStatus(404));
    assert_eq!(client.fetch_index("demo", Ok((199, BODY.to_string()))).unwrap_err(), RegistryError::HttpStatus(199));
    assert!(matches!(client.fetch_index("demo", Ok((200, "{".to_string()))).unwrap_err(), RegistryError::Json(_)));
    assert_eq!(
        client.fetch_index("other", Ok((299, BODY.to_string()))).unwrap_err(),
        RegistryError::Protocol("requested `other`, response contains `demo`".into())
    );
    let unchecked = BODY.replace("sha256:abc", "abc");
    assert_eq!(
        client.fetch_index("demo", Ok((200, unchecked))).unwrap_err(),
        RegistryError::Protocol("registry index `demo` version 1.0.0 has invalid checksum".into())
    );
}

#[test]
fn reads_the_status_after_the_last_newline() {
    assert_eq!(read_response("body\n200").unwrap(), (200, "body".to_string()));
    assert_eq!(read_response("a\nb\n404").unwrap(), (404, "a\nb".to_string()));
    assert_eq!(read_response("\n+201").unwrap(), (201, String::new()));
    assert_eq!(
        read_response("no status").unwrap_err(),
        RegistryError::Transport("HTTP response did not include status".into())
    );
    assert!(matches!(read_response("body\nabc").unwrap_err(), RegistryError::Transport(_)));
    assert!(matches!(read_response("body\n70000").unwrap_err(), RegistryError::Transport(_)));
    assert!(matches!(read_response("body\n").unwrap_err(), RegistryError::Transport(_)));
}

#[test]
fn registry_errors_read_as_messages() {
    assert_eq!(RegistryError::HttpStatus(503).message(), "registry returned HTTP status 503");
    assert_eq!(RegistryError::Transport("t".into()).message(), "registry transport error: t");
    assert_eq!(RegistryError::Json("j".into()).message(), "invalid registry JSON: j");
    assert_eq!(RegistryError::Protocol("p".into()).message(), "registry protocol error: p");
}

#[test]
fn selection_does_not_depend_on_listing_order() {
    let listed = vec![entry("0.9.0", "sha256:a"), entry("1.3.0", "sha256:b"), entry("1.1.0", "sha256:c"), entry("2.1.0", "sha256:d")];
    let mut reversed = listed.clone();
    reversed.reverse();
    let tilde = Constraint::Tilde(Version::parse("1.1.0").unwrap());
    let caret = Constraint::Caret(Version::parse("1.0.0").unwrap());
    for c in [tilde, caret, Constraint::Any] {
        assert_eq!(
            index(listed.clone()).highest_matching(&c).unwrap().version,
            index(reversed.clone()).highest_matching(&c).unwrap().version
        );
    }
}

use splusnpp::registry::{after_response, redirect_allowed, split_redirect, Transfer, MAX_REDIRECTS};

#[test]
fn redirects_stay_on_the_registry_host_over_https() {
    let base = "https://registry.example.org";
    assert!(redirect_allowed(base, "https://registry.example.org/v1/index/demo.json"));
    assert!(redirect_allowed("https://registry.example.org:8443/x", "https://registry.example.org:8443"));
    assert!(!redirect_allowed(base, "http://registry.example.org/v1/index/demo.json"));
    assert!(!redirect_allowed(base, "https://registry.example.org.evil.test/x"));
    assert!(!redirect_allowed(base, "https://mirror.example.org/x"));
    assert!(!redirect_allowed("http://registry.example.org", "https://registry.example.org/x"));
    assert!(!redirect_allowed("https://", "https:///x"));
}

#[test]
fn decides_what_follows_a_response() {
    let base = "https://r.example";
    assert!(matches!(after_response(base, 0, 200, ""), Transfer::Done));
    assert!(matches!(after_response(base, 0, 404, "https://r.example/x"), Transfer::Done));
    assert!(matches!(after_response(base, 0, 302, ""), Transfer::Done));
    match after_response(base, 3, 301, "https://r.example/v1/index/b.json") {
        Transfer::Follow(next) => assert_eq!(next, "https://r.example/v1/index/b.json"),
        _ => panic!("expected to follow"),
    }
    match after_response(base, 0, 302, "https://other.example/x") {
        Transfer::Refused(e) => assert_eq!(
            e,
            RegistryError::Protocol("registry redirect to `https://other.example/x` leaves the registry origin".into())
        ),
        _ => panic!("expected a refusal"),
    }
    match after_response(base, MAX_REDIRECTS, 307, "https://r.example/y") {
        Transfer::Refused(e) => assert_eq!(e, RegistryError::Transport("too many registry redirects".into())),
        _ => panic!("expected a refusal"),
    }
}

#[test]
fn splits_the_redirect_location_from_the_body() {
    assert_eq!(split_redirect("{}\nhttps://r.example/a"), ("{}".to_string(), "https://r.example/a".to_string()));
    assert_eq!(split_redirect("a\nb\n"), ("a\nb".to_string(), String::new()));
    assert_eq!(split_redirect("plain"), ("plain".to_string(), String::new()));
    let (status, rest) = read_response("body\nhttps://r.example/z\n301").unwrap();
    assert_eq!(status, 301);
    assert_eq!(split_redirect(&rest), ("body".to_string(), "https://r.example/z".to_string()));
}

#[test]
fn a_status_that_is_not_a_number_reports_the_parse_error() {
    assert_eq!(
        read_response("body\nabc").unwrap_err(),
        RegistryError::Transport("abc".parse::<u16>().unwrap_err().to_string())
    );
    assert_eq!(
        read_response("body\n").unwrap_err(),
        RegistryError::Transport("".parse::<u16>().unwrap_err().to_string())
    );
}
