use nearhand::net::Ip;
use nearhand::server::config::{
    override_of, Config, Content, Entry, Line, Member, Problem, Setting, Tls, Variable,
};

fn env(pairs: &[(&str, &str)]) -> Vec<Variable> {
    pairs
        .iter()
        .map(|(name, value)| Variable {
            name: (*name).to_owned(),
            value: (*value).to_owned(),
        })
        .collect()
}

#[test]
fn nothing_given_means_defaults() {
    let config = Config::parse("", &env(&[])).expect("parse");
    assert_eq!(config.data.dir, ".");
    assert_eq!(config.audit.keep_days, 365);
    assert_eq!(config.relay.ceiling(), 100 * 1024 * 1024 * 1024);
    assert_eq!(config.quic.bind.port, 443);
    assert_eq!(config.http.tls, Tls::SelfSigned);
    assert_eq!(config.public_url(), "https://localhost");
    assert_eq!(config.public_address(), "localhost:443");
}

#[test]
fn the_audit_log_is_kept_for_a_year_unless_told_otherwise() {
    let set = Config::parse("[audit]\nkeep_days = 30\n", &env(&[])).expect("parse");
    assert_eq!(set.audit.keep_days, 30);
    let forever = Config::parse("", &env(&[("NEARHAND_AUDIT_KEEP_DAYS", "0")])).expect("parse");
    assert_eq!(forever.audit.keep_days, 0);
}

#[test]
fn the_file_sets_and_the_environment_overrides() {
    let text = r#"
            [data]
            dir = "/var/lib/nearhand"
            [http]
            bind = "127.0.0.1:8080"
            tls = "none"
            public_url = "https://desk.example.com/"
        "#;
    let config = Config::parse(
        text,
        &env(&[
            ("NEARHAND_DATA_DIR", "/srv/nearhand"),
            ("NEARHAND_QUIC_BIND", "0.0.0.0:4433"),
            ("UNRELATED", "x"),
            ("NEARHAND_OTHER_THING", "ignored"),
        ]),
    )
    .expect("parse");
    assert_eq!(config.data.dir, "/srv/nearhand");
    assert_eq!(config.quic.bind.port, 4433);
    assert_eq!(config.http.tls, Tls::Plain);
    assert_eq!(config.http.bind.ip, Ip::V4(0x7F00_0001));
    assert_eq!(config.public_url(), "https://desk.example.com");
    assert_eq!(config.public_address(), "desk.example.com:4433");
    let set = Config::parse(
        "",
        &env(&[("NEARHAND_QUIC_PUBLIC_ADDRESS", "203.0.113.5:443")]),
    )
    .expect("parse");
    assert_eq!(set.public_address(), "203.0.113.5:443");
}

#[test]
fn mistakes_are_reported_not_ignored() {
    assert!(Config::parse("[http]\nbnid = \"x\"", &env(&[])).is_err());
    assert!(Config::parse("[http]\ntls = \"files\"", &env(&[])).is_err());
    assert!(Config::parse("", &env(&[("NEARHAND_HTTP_BIND", "nonsense")])).is_err());
}

#[test]
fn each_mistake_is_told_apart() {
    assert!(matches!(
        Config::parse("[http", &env(&[])),
        Err(Problem::NotToml(_))
    ));
    assert!(matches!(
        Config::parse("[http]\nbnid = \"x\"", &env(&[])),
        Err(Problem::Unexpected(_))
    ));
    assert!(matches!(
        Config::parse("[http]\ntls = \"files\"", &env(&[])),
        Err(Problem::FilesMissing)
    ));
    match Config::parse("http = 1", &env(&[("NEARHAND_HTTP_TLS", "none")])) {
        Err(Problem::NotASection(name)) => assert_eq!(name, "http"),
        other => panic!("{other:?}"),
    }
}

#[test]
fn variables_name_a_section_and_a_key() {
    assert_eq!(
        override_of("NEARHAND_QUIC_PUBLIC_ADDRESS"),
        Some(("quic".to_owned(), "public_address".to_owned()))
    );
    assert_eq!(override_of("NEARHAND_OTHER_THING"), None);
    assert_eq!(override_of("UNRELATED"), None);
}

#[test]
fn variables_are_read_as_their_settings_want_them() {
    let config = Config::parse("", &env(&[("NEARHAND_DATA_DIR", "2024")])).expect("parse");
    assert_eq!(config.data.dir, "2024");
    let config = Config::parse(
        "[data]\ndir = \"x\"",
        &env(&[
            ("NEARHAND_DATA_DIR", "true"),
            ("NEARHAND_HTTP_CERT", "1"),
            ("NEARHAND_HTTP_KEY", "false"),
            ("NEARHAND_HTTP_PUBLIC_URL", "-3"),
            ("NEARHAND_QUIC_PUBLIC_ADDRESS", "7"),
            ("NEARHAND_AUDIT_KEEP_DAYS", "30"),
            ("NEARHAND_RELAY_MAX_GB", "7"),
        ]),
    )
    .expect("parse");
    assert_eq!(config.data.dir, "true");
    assert_eq!(config.http.cert.as_deref(), Some("1"));
    assert_eq!(config.http.key.as_deref(), Some("false"));
    assert_eq!(config.public_url(), "-3");
    assert_eq!(config.public_address(), "7");
    assert_eq!(config.audit.keep_days, 30);
    assert_eq!(config.relay.max_gb, 7);
    for days in ["thirty", "-1", "4294967296", ""] {
        assert!(matches!(
            Config::parse("", &env(&[("NEARHAND_AUDIT_KEEP_DAYS", days)])),
            Err(Problem::Unexpected(_))
        ));
    }
}

#[test]
fn a_section_may_come_as_a_list() {
    let config = Config::parse("data = [\"/srv\"]", &env(&[])).expect("parse");
    assert_eq!(config.data.dir, "/srv");
    let config = Config::parse(
        "http = [\"127.0.0.1:80\", \"none\"]\naudit = []\nrelay = [7]",
        &env(&[]),
    )
    .expect("parse");
    assert_eq!(config.http.bind.port, 80);
    assert_eq!(config.http.tls, Tls::Plain);
    assert_eq!(config.http.cert, None);
    assert_eq!(config.audit.keep_days, 365);
    assert_eq!(config.relay.max_gb, 7);
    assert!(matches!(
        Config::parse("data = [\"/srv\", \"/var\"]", &env(&[])),
        Err(Problem::Unexpected(_))
    ));
    assert!(matches!(
        Config::parse("data = [1]", &env(&[])),
        Err(Problem::Unexpected(what)) if what == "data.dir"
    ));
    assert!(matches!(
        Config::parse("data = [\"/srv\"]", &env(&[("NEARHAND_DATA_DIR", "/var")])),
        Err(Problem::NotASection(name)) if name == "data"
    ));
}

#[test]
fn a_kind_of_certificate_may_be_the_key_of_a_table() {
    for file in ["[http.tls.none]", "[http]\ntls = { none = [] }"] {
        let config = Config::parse(file, &env(&[])).expect("parse");
        assert_eq!(config.http.tls, Tls::Plain);
    }
    for file in [
        "[http]\ntls = {}",
        "[http]\ntls = { none = 1 }",
        "[http]\ntls = { none = [1] }",
        "[http]\ntls = { none = [], files = [] }",
        "[http]\ntls = { nothing = [] }",
        "[http]\ntls = true",
    ] {
        assert!(Config::parse(file, &env(&[])).is_err(), "{file}");
    }
}

#[test]
fn a_date_is_text_as_it_is_written() {
    let config = Config::parse("[data]\ndir = 2024-05-01", &env(&[])).expect("parse");
    assert_eq!(config.data.dir, "2024-05-01");
    assert!(Config::parse("[relay]\nmax_gb = 1.5", &env(&[])).is_err());
}

#[test]
fn settings_make_a_configuration() {
    let entries = vec![Entry {
        name: "quic".to_owned(),
        content: Content::List(vec![
            Setting::Text("[::]:4433".to_owned()),
            Setting::Moment("2024-05-01".to_owned()),
        ]),
    }];
    let config = Config::from_settings(entries, &env(&[])).expect("settings");
    assert_eq!(config.quic.bind.port, 4433);
    assert_eq!(config.public_address(), "2024-05-01");
    for value in [
        Setting::Fraction,
        Setting::YesNo(true),
        Setting::List,
        Setting::Table(vec![Member { key: "dir".to_owned(), empty: true }]),
        Setting::Number(1),
    ] {
        let lines = vec![Line { key: "dir".to_owned(), value }];
        let entries = vec![Entry {
            name: "data".to_owned(),
            content: Content::Section(lines),
        }];
        assert!(Config::from_settings(entries, &env(&[])).is_err());
    }
}

#[test]
fn a_file_has_types() {
    assert!(Config::parse("[data]\ndir = 2024", &env(&[])).is_err());
    assert!(Config::parse("[audit]\nkeep_days = \"30\"", &env(&[])).is_err());
}

#[test]
fn plain_http_is_in_the_clear_unless_only_this_machine_hears_it() {
    let mut config = Config::parse("[http]\ntls = \"none\"", &env(&[])).expect("parse");
    assert!(config.in_the_clear());
    config.http.bind.ip = Ip::V4(0x7F00_0001);
    assert!(!config.in_the_clear());
    config.http.bind.ip = Ip::V4(0);
    config.http.tls = Tls::SelfSigned;
    assert!(!config.in_the_clear());
}
