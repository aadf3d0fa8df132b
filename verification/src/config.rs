//! Settings: what the command line gives, what the configuration file gives, and what holds.

use vstd::prelude::*;

use crate::text;

verus! {

/// The command line.
#[derive(Debug, Clone)]
pub struct Cli {
    pub host: Option<String>,
    pub port: Option<u16>,
    pub ntfy: Option<String>,
    pub debug: bool,
    pub chart_height: usize,
    pub growl_host: Option<String>,
    pub growl_port: Option<u16>,
    pub growl_password: Option<String>,
}

/// The configuration file.
#[derive(Debug, Clone)]
pub struct FileConfig {
    pub host: String,
    pub port: u16,
    pub ntfy_url: String,
    pub growl_host: String,
    pub growl_port: u16,
    pub growl_password: String,
}

/// The settings that hold.
#[derive(Debug, Clone)]
pub struct AppConfig {
    pub host: String,
    pub port: u16,
    pub ntfy_url: String,
    pub growl_host: String,
    pub growl_port: u16,
    pub growl_password: String,
}

/// Where reports come from.
#[derive(Debug)]
pub enum Source {
    /// Subscribe to the stream at this address.
    Ntfy(String),
    /// Listen on a TCP socket.
    Tcp(String, u16),
}

/// The address to listen on.
pub fn default_host() -> (r: String)
    ensures
        r@ == "127.0.0.1"@,
{
    "127.0.0.1".to_owned()
}

/// The port to listen on.
pub fn default_port() -> (r: u16)
    ensures
        r == 8888,
{
    8888
}

/// The stream to subscribe to.
pub fn default_ntfy() -> (r: String)
    ensures
        r@ == "http://localhost:8080/androcall"@,
{
    "http://localhost:8080/androcall".to_owned()
}

/// The address of the Growl server.
pub fn default_ghost() -> (r: String)
    ensures
        r@ == "127.0.0.1"@,
{
    "127.0.0.1".to_owned()
}

/// The port of the Growl server.
pub fn default_gport() -> (r: u16)
    ensures
        r == 23053,
{
    23053
}

/// Tells whether `f` is the configuration that holds without a file.
pub open spec fn is_default(f: FileConfig) -> bool {
    &&& f.host@ == "127.0.0.1"@
    &&& f.port == 8888
    &&& f.ntfy_url@ == "http://localhost:8080/androcall"@
    &&& f.growl_host@ == "127.0.0.1"@
    &&& f.growl_port == 23053
    &&& f.growl_password@ == Seq::<char>::empty()
}

impl Default for FileConfig {
    fn default() -> (r: Self)
        ensures
            is_default(r),
    {
        FileConfig {
            host: default_host(),
            port: default_port(),
            ntfy_url: default_ntfy(),
            growl_host: default_ghost(),
            growl_port: default_gport(),
            growl_password: String::new(),
        }
    }
}

/// The configuration to go by: the one that was read from the file, or the default one where
/// there is no file, or none that reads.
pub fn load_file_config(read: Option<FileConfig>) -> (r: FileConfig)
    ensures
        match read {
            Some(f) => r == f,
            None => is_default(r),
        },
{
    match read {
        Some(f) => f,
        None => FileConfig::default(),
    }
}

/// The text that holds: the one that was given, or else `fallback`.
pub open spec fn given_or(given: Option<String>, fallback: String) -> Seq<char> {
    match given {
        Some(s) => s@,
        None => fallback@,
    }
}

fn text_or(given: &Option<String>, fallback: String) -> (r: String)
    ensures
        r@ == given_or(*given, fallback),
{
    match given {
        Some(s) => s.clone(),
        None => fallback,
    }
}

fn port_or(given: Option<u16>, fallback: u16) -> (r: u16)
    ensures
        r == (match given {
            Some(p) => p,
            None => fallback,
        }),
{
    match given {
        Some(p) => p,
        None => fallback,
    }
}

/// The settings that hold: what the command line gives goes before what the file gives. The
/// stream's address comes from the file.
pub fn resolve_config(cli: &Cli, f: FileConfig) -> (r: AppConfig)
    ensures
        r.host@ == given_or(cli.host, f.host),
        r.port == (match cli.port {
            Some(p) => p,
            None => f.port,
        }),
        r.ntfy_url@ == f.ntfy_url@,
        r.growl_host@ == given_or(cli.growl_host, f.growl_host),
        r.growl_port == (match cli.growl_port {
            Some(p) => p,
            None => f.growl_port,
        }),
        r.growl_password@ == given_or(cli.growl_password, f.growl_password),
{
    AppConfig {
        host: text_or(&cli.host, f.host),
        port: port_or(cli.port, f.port),
        ntfy_url: f.ntfy_url,
        growl_host: text_or(&cli.growl_host, f.growl_host),
        growl_port: port_or(cli.growl_port, f.growl_port),
        growl_password: text_or(&cli.growl_password, f.growl_password),
    }
}

/// Where reports come from: the stream, where the command line asks for one, else the socket.
pub fn choose_source(cli: &Cli, cfg: &AppConfig) -> (r: Source)
    ensures
        match r {
            Source::Ntfy(url) => cli.ntfy matches Some(u) && url@ == u@,
            Source::Tcp(host, port) => cli.ntfy is None && host@ == cfg.host@ && port == cfg.port,
        },
{
    match &cli.ntfy {
        Some(url) => Source::Ntfy(url.clone()),
        None => Source::Tcp(cfg.host.clone(), cfg.port),
    }
}

/// Tells whether the arguments, the program's name first, ask for the version alone.
pub fn wants_version(args: &Vec<String>) -> (r: bool)
    ensures
        r == (args@.len() == 2 && (args@[1]@ == "-V"@ || args@[1]@ == "--version"@)),
{
    args.len() == 2 && (text::same(args[1].as_str(), "-V") || text::same(
        args[1].as_str(),
        "--version",
    ))
}

/// A key of the keyboard.
#[derive(Debug, Clone, Copy)]
pub enum Key {
    /// A character, with the control key held down or not.
    Char(char, bool),
    Escape,
    Other,
}

/// Tells whether a key ends the program: `q` in either case, escape, and `c` with control.
pub fn quits(key: Key) -> (r: bool)
    ensures
        r == (match key {
            Key::Char(c, control) => c == 'q' || c == 'Q' || (control && c == 'c'),
            Key::Escape => true,
            Key::Other => false,
        }),
{
    match key {
        Key::Char(c, control) => c == 'q' || c == 'Q' || (control && c == 'c'),
        Key::Escape => true,
        Key::Other => false,
    }
}

/// What the command line gives holds, also where it is empty; the other only where it gives none.
pub proof fn command_line_goes_first(given: String, fallback: String)
    ensures
        given_or(Some(given), fallback) == given@,
        given_or(None, fallback) == fallback@,
{
}

/// Without a file the defaults hold, and nothing else counts as them.
pub proof fn defaults_are_these(f: FileConfig)
    ensures
        is_default(f) <==> {
            &&& f.host@ == "127.0.0.1"@
            &&& f.port == 8888
            &&& f.ntfy_url@ == "http://localhost:8080/androcall"@
            &&& f.growl_host@ == "127.0.0.1"@
            &&& f.growl_port == 23053
            &&& f.growl_password@.len() == 0
        },
{
    if f.growl_password@.len() == 0 {
        assert(f.growl_password@ == Seq::<char>::empty());
    }
}

} // verus!
