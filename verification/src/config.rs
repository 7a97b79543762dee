//! Multi-cluster configuration model: named cluster configurations and
//! the rule that picks the configuration of an object key — the first
//! cluster whose name is a whole-segment path prefix of the key.
//!
//! Reading configuration files and decoding their wire formats is the
//! caller's work; the decoded values enter here as plain data.

use vstd::prelude::*;
use crate::strutil::str_equal;

verus! {

/// What the download core consumes from one cluster's configuration.
#[derive(Clone, Debug)]
pub struct ClusterConfig {
    pub access_key: String,
    pub secret_key: String,
    pub bucket: String,
    pub io_urls: Vec<String>,
    pub uc_urls: Vec<String>,
    pub monitor_urls: Vec<String>,
    pub max_retry_concurrency: Option<u64>,
    pub retry: Option<u64>,
    pub original_path: Option<String>,
}

/// One named cluster.
#[derive(Clone, Debug)]
pub struct ClusterEntry {
    pub name: String,
    pub config: ClusterConfig,
}

/// Whether `name` is a whole-segment prefix of `key`: the name is empty,
/// the key equals the name, or the key continues right after it with a
/// `/` (or the name itself ends with one).
pub open spec fn spec_path_starts_with(key: Seq<char>, name: Seq<char>) -> bool {
    name.len() == 0 || {
        &&& name.len() <= key.len()
        &&& key.take(name.len() as int) == name
        &&& (key.len() == name.len() || key[name.len() as int] == '/' || name[name.len() as int
            - 1] == '/')
    }
}

/// Exec mirror of `spec_path_starts_with`.
pub fn path_starts_with(key: &str, name: &str) -> (r: bool)
    ensures
        r == spec_path_starts_with(key@, name@),
{
    let kn = key.unicode_len();
    let nn = name.unicode_len();
    if nn == 0 {
        return true;
    }
    if nn > kn {
        return false;
    }
    for i in 0..nn
        invariant
            kn == key@.len(),
            nn == name@.len(),
            nn <= kn,
            forall|j: int| 0 <= j < i ==> key@[j] == name@[j],
    {
        if key.get_char(i) != name.get_char(i) {
            proof {
                assert(key@[i as int] != name@[i as int]);
                assert(!spec_path_starts_with(key@, name@)) by {
                    if spec_path_starts_with(key@, name@) {
                        assert(key@.take(nn as int)[i as int] == name@[i as int]);
                    }
                }
            }
            return false;
        }
    }
    proof {
        assert(key@.take(nn as int) =~= name@);
    }
    if kn == nn {
        return true;
    }
    if key.get_char(nn) == '/' {
        return true;
    }
    if name.get_char(nn - 1) == '/' {
        return true;
    }
    false
}

/// The first listed cluster whose name is a path prefix of the key.
pub open spec fn spec_select_config(entries: Seq<ClusterEntry>, key: Seq<char>) -> Option<
    ClusterConfig,
>
    decreases entries.len(),
{
    if entries.len() == 0 {
        None
    } else if spec_path_starts_with(key, entries[0].name@) {
        Some(entries[0].config)
    } else {
        spec_select_config(entries.skip(1), key)
    }
}

/// Multi-cluster configuration: named cluster configurations, each name
/// appearing once, and the path the whole file was read from.
#[derive(Clone, Debug)]
pub struct MultipleClustersConfig {
    pub configs: Vec<ClusterEntry>,
    pub original_path: Option<String>,
}

impl Default for MultipleClustersConfig {
    fn default() -> (r: Self)
        ensures
            r.configs@.len() == 0,
            r.original_path is None,
    {
        MultipleClustersConfig { configs: Vec::new(), original_path: None }
    }
}

impl MultipleClustersConfig {
    /// Opens a builder with no clusters.
    pub fn builder() -> (r: MultipleClustersConfigBuilder)
        ensures
            r.config.configs@.len() == 0,
            r.config.original_path is None,
    {
        MultipleClustersConfigBuilder { config: MultipleClustersConfig::default() }
    }

    /// The configuration selected for an object key, under the default
    /// selection rule.
    pub fn with_key(&self, key: &str) -> (r: Option<&ClusterConfig>)
        ensures
            r matches Some(c) ==> spec_select_config(self.configs@, key@) == Some(*c),
            r is None ==> spec_select_config(self.configs@, key@) is None,
    {
        default_select_config(&self.configs, key)
    }

    /// Every configuration file this configuration came from: the whole
    /// file first, then each cluster's own source.
    pub fn config_paths(&self) -> (r: Vec<String>)
        ensures
            r@.len() <= 1 + self.configs@.len(),
    {
        let mut paths: Vec<String> = Vec::new();
        match &self.original_path {
            Option::Some(p) => {
                paths.push(p.clone());
            },
            Option::None => {},
        }
        let n = self.configs.len();
        let ghost base = paths@.len();
        for i in 0..n
            invariant
                n == self.configs@.len(),
                base <= 1,
                paths@.len() <= base + i,
        {
            match &self.configs[i].config.original_path {
                Option::Some(p) => {
                    paths.push(p.clone());
                },
                Option::None => {},
            }
        }
        paths
    }
}

/// Why a multi-cluster configuration could not be read: the file could
/// not be decoded, or could not be read at all.
#[derive(Clone, Debug)]
pub enum MultipleClustersConfigParseError {
    ParseError(String),
    IOError(String),
}

impl MultipleClustersConfigParseError {
    /// The human-readable description of the failure.
    pub fn message(&self) -> (r: &String)
        ensures
            r == (match self {
                MultipleClustersConfigParseError::ParseError(m) => m,
                MultipleClustersConfigParseError::IOError(m) => m,
            }),
    {
        match self {
            MultipleClustersConfigParseError::ParseError(m) => m,
            MultipleClustersConfigParseError::IOError(m) => m,
        }
    }
}

/// Builder of a multi-cluster configuration.
#[derive(Debug)]
pub struct MultipleClustersConfigBuilder {
    pub config: MultipleClustersConfig,
}

impl MultipleClustersConfigBuilder {
    /// Hands the built configuration out.
    pub fn build(self) -> (r: MultipleClustersConfig)
        ensures
            r == self.config,
    {
        self.config
    }

    /// Adds one cluster; a cluster already under that name is replaced.
    pub fn add_cluster(self, name: String, config: ClusterConfig) -> (r: Self)
        ensures
            r.config.original_path == self.config.original_path,
            r.config.configs@.len() <= self.config.configs@.len() + 1,
            spec_select_config(r.config.configs@, name@) is Some,
    {
        let mut b = self;
        let n = b.config.configs.len();
        let mut replace_at: Option<usize> = None;
        for i in 0..n
            invariant
                n == b.config.configs@.len(),
                replace_at matches Some(j) ==> j < n && b.config.configs@[j as int].name@ == name@,
        {
            if replace_at.is_none() && str_equal(b.config.configs[i].name.as_str(), name.as_str()) {
                replace_at = Some(i);
            }
        }
        match replace_at {
            Option::Some(i) => {
                b.config.configs[i] = ClusterEntry { name, config };
                proof {
                    lemma_select_member(b.config.configs@, name@, i as int);
                }
            },
            Option::None => {
                b.config.configs.push(ClusterEntry { name, config });
                proof {
                    lemma_select_member(
                        b.config.configs@,
                        name@,
                        b.config.configs@.len() as int - 1,
                    );
                }
            },
        }
        b
    }
}

/// The default selection rule: the first listed cluster whose name is a
/// whole-segment path prefix of the key.
pub fn default_select_config<'a>(entries: &'a Vec<ClusterEntry>, key: &str) -> (r: Option<
    &'a ClusterConfig,
>)
    ensures
        r matches Some(c) ==> spec_select_config(entries@, key@) == Some(*c),
        r is None ==> spec_select_config(entries@, key@) is None,
{
    let n = entries.len();
    proof {
        assert(entries@.skip(0) =~= entries@);
    }
    for i in 0..n
        invariant
            n == entries@.len(),
            spec_select_config(entries@.skip(i as int), key@) == spec_select_config(
                entries@,
                key@,
            ),
    {
        proof {
            assert(entries@.skip(i as int)[0] == entries@[i as int]);
            assert(entries@.skip(i as int).skip(1) =~= entries@.skip(i as int + 1));
        }
        if path_starts_with(key, entries[i].name.as_str()) {
            return Some(&entries[i].config);
        }
    }
    proof {
        assert(entries@.skip(n as int) =~= Seq::<ClusterEntry>::empty());
    }
    None
}

/// A key that names a listed cluster selects a configuration.
proof fn lemma_select_member(entries: Seq<ClusterEntry>, key: Seq<char>, i: int)
    requires
        0 <= i < entries.len(),
        entries[i].name@ == key,
    ensures
        spec_select_config(entries, key) is Some,
    decreases i,
{
    assert(spec_path_starts_with(key, key)) by {
        assert(key.take(key.len() as int) =~= key);
    }
    if !spec_path_starts_with(key, entries[0].name@) {
        lemma_select_member(entries.skip(1), key, i - 1);
    }
}

} // verus!
