//! The panel's configuration and its defaults.

use vstd::prelude::*;

verus! {

/// Where the HTTP server listens and how it is reached.
#[derive(Clone, Debug)]
pub struct ServerConfig {
    pub bind: String,
    pub public_url: String,
}

/// Where the panel keeps its data.
#[derive(Clone, Debug)]
pub struct DataConfig {
    pub data_dir: String,
    pub database_url: String,
}

/// How the panel talks to its terminal agent.
#[derive(Clone, Debug)]
pub struct AgentConfig {
    pub socket_path: String,
    pub terminal_scrollback_bytes: usize,
}

/// Login sessions.
#[derive(Clone, Debug)]
pub struct AuthConfig {
    pub cookie_name: String,
    pub session_days: u64,
}

/// The file browser's roots.
#[derive(Clone, Debug)]
pub struct FilesConfig {
    pub allowed_paths: Vec<String>,
}

/// Remote access rules.
#[derive(Clone, Debug)]
pub struct SecurityConfig {
    pub allow_remote_terminal: bool,
    pub require_https_for_remote: bool,
}

/// The whole configuration.
#[derive(Clone, Debug)]
pub struct AppConfig {
    pub server: ServerConfig,
    pub data: DataConfig,
    pub agent: AgentConfig,
    pub auth: AuthConfig,
    pub files: FilesConfig,
    pub security: SecurityConfig,
}

/// The roots the file browser allows when nothing is configured.
pub open spec fn default_allowed_paths() -> Seq<Seq<char>> {
    seq!["/home"@, "/srv"@, "/mnt"@, "/DATA"@]
}

impl Default for AppConfig {
    /// The configuration used when no file is found: local-only, data under
    /// `/var/lib/homepanel`, 10 MiB of scrollback, 30-day sessions.
    fn default() -> (c: Self)
        ensures
            c.server.bind@ == "127.0.0.1:8080"@,
            c.server.public_url@ == "http://127.0.0.1:8080"@,
            c.data.data_dir@ == "/var/lib/homepanel"@,
            c.data.database_url@ == "sqlite:///var/lib/homepanel/homepanel.db"@,
            c.agent.socket_path@ == "/run/homepanel/agent.sock"@,
            c.agent.terminal_scrollback_bytes == 10485760,
            c.auth.cookie_name@ == "homepanel_session"@,
            c.auth.session_days == 30,
            c.files.allowed_paths@.map_values(|p: String| p@) == default_allowed_paths(),
            !c.security.allow_remote_terminal,
            c.security.require_https_for_remote,
    {
        let mut allowed_paths: Vec<String> = Vec::new();
        allowed_paths.push("/home".to_owned());
        allowed_paths.push("/srv".to_owned());
        allowed_paths.push("/mnt".to_owned());
        allowed_paths.push("/DATA".to_owned());
        assert(allowed_paths@.map_values(|p: String| p@) =~= default_allowed_paths());
        AppConfig {
            server: ServerConfig {
                bind: "127.0.0.1:8080".to_owned(),
                public_url: "http://127.0.0.1:8080".to_owned(),
            },
            data: DataConfig {
                data_dir: "/var/lib/homepanel".to_owned(),
                database_url: "sqlite:///var/lib/homepanel/homepanel.db".to_owned(),
            },
            agent: AgentConfig {
                socket_path: "/run/homepanel/agent.sock".to_owned(),
                terminal_scrollback_bytes: 10485760,
            },
            auth: AuthConfig { cookie_name: "homepanel_session".to_owned(), session_days: 30 },
            files: FilesConfig { allowed_paths },
            security: SecurityConfig {
                allow_remote_terminal: false,
                require_https_for_remote: true,
            },
        }
    }
}

/// The files the configuration is looked for in, in order: the given path
/// alone, or `/etc/homepanel/config.toml` then `./config.toml`.
pub fn config_candidates(path: Option<&str>) -> (c: Vec<String>)
    ensures
        c@.map_values(|p: String| p@) == match path {
            Some(p) => seq![p@],
            None => seq!["/etc/homepanel/config.toml"@, "./config.toml"@],
        },
{
    let mut c: Vec<String> = Vec::new();
    match path {
        Some(p) => {
            c.push(p.to_owned());
        },
        None => {
            c.push("/etc/homepanel/config.toml".to_owned());
            c.push("./config.toml".to_owned());
        },
    }
    assert(c@.map_values(|p: String| p@) =~= match path {
        Some(p) => seq![p@],
        None => seq!["/etc/homepanel/config.toml"@, "./config.toml"@],
    });
    c
}

} // verus!
