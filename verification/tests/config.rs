use idmon::config::{
    choose_source, default_ghost, default_gport, default_host, default_ntfy, default_port,
    load_file_config, quits, resolve_config, wants_version, Cli, FileConfig, Key, Source,
};

fn bare_cli() -> Cli {
    Cli {
        host: None,
        port: None,
        ntfy: None,
        debug: false,
        chart_height: 6,
        growl_host: None,
        growl_port: None,
        growl_password: None,
    }
}

fn file() -> FileConfig {
    FileConfig {
        host: "fh".into(),
        port: 1,
        ntfy_url: "fn".into(),
        growl_host: "fg".into(),
        growl_port: 2,
        growl_password: "fp".into(),
    }
}

#[test]
fn defaults() {
    assert_eq!(default_host(), "127.0.0.1");
    assert_eq!(default_port(), 8888);
    assert_eq!(default_ntfy(), "http://localhost:8080/androcall");
    assert_eq!(default_ghost(), "127.0.0.1");
    assert_eq!(default_gport(), 23053);
    let f = load_file_config(None);
    assert_eq!(f.host, "127.0.0.1");
    assert_eq!(f.port, 8888);
    assert_eq!(f.ntfy_url, "http://localhost:8080/androcall");
    assert_eq!(f.growl_host, "127.0.0.1");
    assert_eq!(f.growl_port, 23053);
    assert_eq!(f.growl_password, "");
}

#[test]
fn a_file_that_reads_is_taken() {
    let f = load_file_config(Some(file()));
    assert_eq!((f.host.as_str(), f.port, f.growl_password.as_str()), ("fh", 1, "fp"));
}

#[test]
fn the_file_fills_in_for_the_command_line() {
    let c = resolve_config(&bare_cli(), file());
    assert_eq!((c.host.as_str(), c.port, c.ntfy_url.as_str()), ("fh", 1, "fn"));
    assert_eq!((c.growl_host.as_str(), c.growl_port, c.growl_password.as_str()), ("fg", 2, "fp"));
}

#[test]
fn the_command_line_goes_first() {
    let cli = Cli {
        host: Some("ch".into()),
        port: Some(3),
        ntfy: Some("cn".into()),
        growl_host: Some("cg".into()),
        growl_port: Some(4),
        growl_password: Some("".into()),
        ..bare_cli()
    };
    let c = resolve_config(&cli, file());
    assert_eq!((c.host.as_str(), c.port, c.ntfy_url.as_str()), ("ch", 3, "fn"));
    assert_eq!((c.growl_host.as_str(), c.growl_port, c.growl_password.as_str()), ("cg", 4, ""));
}

#[test]
fn the_source_is_the_stream_where_one_is_asked_for() {
    let c = resolve_config(&bare_cli(), file());
    assert!(matches!(choose_source(&bare_cli(), &c), Source::Tcp(h, 1) if h == "fh"));
    let cli = Cli { ntfy: Some("u".into()), ..bare_cli() };
    assert!(matches!(choose_source(&cli, &c), Source::Ntfy(u) if u == "u"));
}

#[test]
fn the_version_is_asked_for_alone() {
    let args = |list: &[&str]| list.iter().map(|s| s.to_string()).collect::<Vec<String>>();
    assert!(wants_version(&args(&["idmon", "-V"])));
    assert!(wants_version(&args(&["idmon", "--version"])));
    assert!(!wants_version(&args(&["idmon"])));
    assert!(!wants_version(&args(&["idmon", "-v"])));
    assert!(!wants_version(&args(&["idmon", "-V", "-n"])));
    assert!(!wants_version(&args(&[])));
}

#[test]
fn keys_that_quit() {
    assert!(quits(Key::Char('q', false)));
    assert!(quits(Key::Char('Q', false)));
    assert!(quits(Key::Char('c', true)));
    assert!(quits(Key::Escape));
    assert!(!quits(Key::Char('c', false)));
    assert!(!quits(Key::Char('x', true)));
    assert!(!quits(Key::Other));
}
