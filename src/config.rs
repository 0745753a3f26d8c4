//! The configuration (which paths to take and which to leave out) and the manifest of a
//! snapshot (what was copied, from where, and the package inventory).
use vstd::prelude::*;

verus! {

pub struct Options {
    pub repository: String,
}

pub struct Configs {
    pub sources: Vec<String>,
    pub exclude: Vec<String>,
}

pub struct Config {
    pub options: Options,
    pub configs: Configs,
}

/// Installed packages, as listed by the package manager.
pub struct Packages {
    pub pacman: Vec<String>,
    pub aur: Vec<String>,
}

/// One manifest entry: the name a root was stored under, and where it came from.
pub struct ConfigLocations {
    pub name: String,
    pub out: String,
}

/// The manifest of one snapshot run.
pub struct GenConfig {
    pub packages: Packages,
    pub configs: Vec<ConfigLocations>,
}

pub struct Duplit {
    pub config: Config,
}

pub open spec fn strings_view(v: Seq<String>) -> Seq<Seq<char>> {
    v.map_values(|s: String| s@)
}

impl ConfigLocations {
    pub open spec fn spec_entry(&self) -> (Seq<char>, Seq<char>) {
        (self.name@, self.out@)
    }
}

pub open spec fn entries_view(v: Seq<ConfigLocations>) -> Seq<(Seq<char>, Seq<char>)> {
    v.map_values(|e: ConfigLocations| e.spec_entry())
}

impl Config {
    /// The configuration written on first use: the whole `$HOME/.config`,
    /// without `$HOME/.config/pavucontrol.ini`.
    pub fn default() -> (r: Config)
        ensures
            r.options.repository@ == "https://github.com/<YOUR REPOSITORY URL>"@,
            strings_view(r.configs.sources@) == seq!["$HOME/.config"@],
            strings_view(r.configs.exclude@) == seq!["$HOME/.config/pavucontrol.ini"@],
    {
        let sources: Vec<String> = vec![String::from_str("$HOME/.config")];
        let exclude: Vec<String> = vec![String::from_str("$HOME/.config/pavucontrol.ini")];
        assert(strings_view(sources@) =~= seq!["$HOME/.config"@]);
        assert(strings_view(exclude@) =~= seq!["$HOME/.config/pavucontrol.ini"@]);
        Config {
            options: Options {
                repository: String::from_str("https://github.com/<YOUR REPOSITORY URL>"),
            },
            configs: Configs { sources, exclude },
        }
    }
}

impl GenConfig {
    /// An empty manifest.
    pub fn new() -> (r: Self)
        ensures
            r.configs@.len() == 0,
            r.packages.pacman@.len() == 0,
            r.packages.aur@.len() == 0,
    {
        GenConfig { configs: Vec::new(), packages: Packages { aur: Vec::new(), pacman: Vec::new() } }
    }
}

impl Duplit {
    pub fn new(config: Config) -> (r: Self)
        ensures
            r.config == config,
    {
        Duplit { config }
    }

    /// The package inventory from the two lists that the package manager gave.
    pub fn get_pkgs(pacman: Vec<String>, aur: Vec<String>) -> (r: Packages)
        ensures
            r.pacman@ == pacman@,
            r.aur@ == aur@,
    {
        Packages { pacman, aur }
    }
}

} // verus!
