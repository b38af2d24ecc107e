//! Project configuration read from `graphite.yaml`.
use vstd::prelude::*;
use vstd::string::*;

use crate::yaml::{
    read_opt_field, read_opt_list_field, read_opt_list_field_exec, read_opt_string_field,
    mapping_view, strings_view, yaml_mapping, yaml_mapping_entries,
};

verus! {

pub const DEFAULT_GRAPH_DIR: &'static str = "graph";

pub const DEFAULT_OUTPUT_DIR: &'static str = "docs";

pub const DEFAULT_SCAN_SRC: &'static str = "src";

pub const DEFAULT_SCAN_TESTS: &'static str = "tests";

pub const GRAPH_DIR_FIELD: &'static str = "graph_dir";

pub const OUTPUT_DIR_FIELD: &'static str = "output_dir";

pub const SCAN_FIELD: &'static str = "scan";

pub const BASE_URL_FIELD: &'static str = "base_url";

pub const CANNOT_READ_PREFIX: &'static str = "Cannot read 'graphite.yaml': ";

pub const INVALID_PREFIX: &'static str = "Invalid graphite.yaml: ";

/// Graphite project configuration loaded from `graphite.yaml`.
#[derive(Clone, Debug)]
pub struct Config {
    /// Where `.node` / `.index` files live (relative to project root). Default: `"graph"`.
    pub graph_dir: String,
    /// Where rendered HTML docs go (relative to project root). Default: `"docs"`.
    pub output_dir: String,
    /// Directories to scan for `@graphite:evidence` anchors. Default: `["src", "tests"]`.
    pub scan: Vec<String>,
    /// Base URL prefix for rendered links (e.g. `/graphite/` for GitHub Pages); empty
    /// means relative links.
    pub base_url: String,
}

/// The mathematical view of a [`Config`].
pub struct ConfigView {
    pub graph_dir: Seq<char>,
    pub output_dir: Seq<char>,
    pub scan: Seq<Seq<char>>,
    pub base_url: Seq<char>,
}

impl View for Config {
    type V = ConfigView;

    open spec fn view(&self) -> ConfigView {
        ConfigView {
            graph_dir: self.graph_dir@,
            output_dir: self.output_dir@,
            scan: strings_view(self.scan@),
            base_url: self.base_url@,
        }
    }
}

/// The configuration used where `graphite.yaml` says nothing.
pub open spec fn default_config() -> ConfigView {
    ConfigView {
        graph_dir: DEFAULT_GRAPH_DIR@,
        output_dir: DEFAULT_OUTPUT_DIR@,
        scan: seq![DEFAULT_SCAN_SRC@, DEFAULT_SCAN_TESTS@],
        base_url: Seq::<char>::empty(),
    }
}

impl Default for Config {
    fn default() -> (c: Self)
        ensures
            c@ == default_config(),
    {
        let mut scan: Vec<String> = Vec::new();
        scan.push(String::from_str(DEFAULT_SCAN_SRC));
        scan.push(String::from_str(DEFAULT_SCAN_TESTS));
        let c = Config {
            graph_dir: String::from_str(DEFAULT_GRAPH_DIR),
            output_dir: String::from_str(DEFAULT_OUTPUT_DIR),
            scan,
            base_url: String::new(),
        };
        assert(c@.scan =~= default_config().scan);
        c
    }
}

/// The optional fields of `graphite.yaml`, or the reader's error.
pub open spec fn raw_config(yaml: Seq<char>) -> Result<
    (Option<Seq<char>>, Option<Seq<char>>, Option<Seq<Seq<char>>>, Option<Seq<char>>),
    Seq<char>,
> {
    raw_config_of(yaml_mapping(yaml))
}

/// The optional fields of the configuration, from what the YAML reader gave for the
/// document: its entries, or its error.
pub open spec fn raw_config_of(m: Result<Seq<(Seq<char>, Seq<char>)>, Seq<char>>) -> Result<
    (Option<Seq<char>>, Option<Seq<char>>, Option<Seq<Seq<char>>>, Option<Seq<char>>),
    Seq<char>,
> {
    match m {
        Err(e) => Err(e),
        Ok(es) => match read_opt_field(es, GRAPH_DIR_FIELD@) {
            Err(e) => Err(e),
            Ok(g) => match read_opt_field(es, OUTPUT_DIR_FIELD@) {
                Err(e) => Err(e),
                Ok(o) => match read_opt_list_field(es, SCAN_FIELD@) {
                    Err(e) => Err(e),
                    Ok(s) => match read_opt_field(es, BASE_URL_FIELD@) {
                        Err(e) => Err(e),
                        Ok(b) => Ok((g, o, s, b)),
                    },
                },
            },
        },
    }
}

/// The value given, or the default.
pub open spec fn or_default<T>(o: Option<T>, d: T) -> T {
    match o {
        Some(v) => v,
        None => d,
    }
}

/// The configuration that the text of `graphite.yaml` describes: each field it sets
/// replaces the default.
pub open spec fn config_from_yaml(yaml: Seq<char>) -> Result<ConfigView, Seq<char>> {
    config_of(yaml_mapping(yaml))
}

/// The configuration from what the YAML reader gave for `graphite.yaml`: each field set
/// replaces the default; an error of the reader is prefixed.
pub open spec fn config_of(m: Result<Seq<(Seq<char>, Seq<char>)>, Seq<char>>) -> Result<ConfigView, Seq<char>> {
    match raw_config_of(m) {
        Err(e) => Err(INVALID_PREFIX@ + e),
        Ok((g, o, s, b)) => Ok(
            ConfigView {
                graph_dir: or_default(g, default_config().graph_dir),
                output_dir: or_default(o, default_config().output_dir),
                scan: or_default(s, default_config().scan),
                base_url: or_default(b, default_config().base_url),
            },
        ),
    }
}

/// Loading from what reading `graphite.yaml` gave: no file, a read error, or its text.
pub open spec fn load_config(file: Option<Result<Seq<char>, Seq<char>>>) -> Result<
    Option<ConfigView>,
    Seq<char>,
> {
    match file {
        None => Ok(None),
        Some(Err(e)) => Err(CANNOT_READ_PREFIX@ + e),
        Some(Ok(text)) => match config_from_yaml(text) {
            Ok(c) => Ok(Some(c)),
            Err(e) => Err(e),
        },
    }
}

/// The view of what reading a file gave.
pub open spec fn file_view(file: Option<Result<String, String>>) -> Option<Result<Seq<char>, Seq<char>>> {
    match file {
        None => None,
        Some(Ok(t)) => Some(Ok(t@)),
        Some(Err(e)) => Some(Err(e@)),
    }
}

fn prefixed(prefix: &str, e: &str) -> (r: String)
    ensures
        r@ == prefix@ + e@,
{
    let mut r = String::from_str(prefix);
    r.append(e);
    r
}

impl Config {
    /// Reads the configuration from the text of `graphite.yaml`; fields it leaves out
    /// keep their defaults.
    pub fn from_yaml(yaml: &str) -> (r: Result<Config, String>)
        ensures
            match config_from_yaml(yaml@) {
                Ok(c) => r matches Ok(x) && x@ == c,
                Err(e) => r matches Err(x) && x@ == e,
            },
    {
        Config::from_mapping(yaml_mapping_entries(yaml))
    }

    /// Builds the configuration from what the YAML reader gave for `graphite.yaml`: its
    /// entries (key and value texts), or its error.
    pub fn from_mapping(m: Result<Vec<(String, String)>, String>) -> (r: Result<Config, String>)
        ensures
            match config_of(mapping_view(m)) {
                Ok(c) => r matches Ok(x) && x@ == c,
                Err(e) => r matches Err(x) && x@ == e,
            },
    {
        let es = match m {
            Ok(es) => es,
            Err(e) => {
                return Err(prefixed(INVALID_PREFIX, e.as_str()));
            },
        };
        let g = match read_opt_string_field(&es, GRAPH_DIR_FIELD) {
            Ok(g) => g,
            Err(e) => {
                return Err(prefixed(INVALID_PREFIX, e.as_str()));
            },
        };
        let o = match read_opt_string_field(&es, OUTPUT_DIR_FIELD) {
            Ok(o) => o,
            Err(e) => {
                return Err(prefixed(INVALID_PREFIX, e.as_str()));
            },
        };
        let s = match read_opt_list_field_exec(&es, SCAN_FIELD) {
            Ok(s) => s,
            Err(e) => {
                return Err(prefixed(INVALID_PREFIX, e.as_str()));
            },
        };
        let b = match read_opt_string_field(&es, BASE_URL_FIELD) {
            Ok(b) => b,
            Err(e) => {
                return Err(prefixed(INVALID_PREFIX, e.as_str()));
            },
        };
        let mut config = Config::default();
        if let Some(g) = g {
            config.graph_dir = g;
        }
        if let Some(o) = o {
            config.output_dir = o;
        }
        if let Some(s) = s {
            config.scan = s;
        }
        if let Some(b) = b {
            config.base_url = b;
        }
        Ok(config)
    }

    /// Loads the configuration from what reading `graphite.yaml` gave: `Ok(None)` when
    /// there is no file (the caller uses the defaults), `Ok(Some(..))` when it parses,
    /// `Err` when it cannot be read or parsed.
    pub fn load(file: Option<Result<String, String>>) -> (r: Result<Option<Config>, String>)
        ensures
            match load_config(file_view(file)) {
                Ok(Some(c)) => r matches Ok(Some(x)) && x@ == c,
                Ok(None) => r matches Ok(None),
                Err(e) => r matches Err(x) && x@ == e,
            },
    {
        match file {
            None => Ok(None),
            Some(Err(e)) => Err(prefixed(CANNOT_READ_PREFIX, e.as_str())),
            Some(Ok(text)) => match Config::from_yaml(text.as_str()) {
                Ok(c) => Ok(Some(c)),
                Err(e) => Err(e),
            },
        }
    }

    /// Loads the configuration, using the defaults when there is no file; read and parse
    /// errors are passed on.
    pub fn load_or_default(file: Option<Result<String, String>>) -> (r: Result<Config, String>)
        ensures
            match load_config(file_view(file)) {
                Ok(Some(c)) => r matches Ok(x) && x@ == c,
                Ok(None) => r matches Ok(x) && x@ == default_config(),
                Err(e) => r matches Err(x) && x@ == e,
            },
    {
        match Config::load(file) {
            Ok(Some(c)) => Ok(c),
            Ok(None) => Ok(Config::default()),
            Err(e) => Err(e),
        }
    }
}

} // verus!
