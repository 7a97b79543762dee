use qiniu_download::config::{
    path_starts_with, ClusterConfig, MultipleClustersConfig,
};
use qiniu_download::req_id::{
    get_req_id, get_req_id2, get_start_time_and_delta, set_download_start_time,
    total_download_duration,
};

fn cluster(bucket: &str) -> ClusterConfig {
    ClusterConfig {
        access_key: "ak".to_owned(),
        secret_key: "sk".to_owned(),
        bucket: bucket.to_owned(),
        io_urls: vec!["http://io".to_owned()],
        uc_urls: vec![],
        monitor_urls: vec![],
        max_retry_concurrency: None,
        retry: None,
        original_path: None,
    }
}

#[test]
fn test_path_starts_with() {
    assert!(path_starts_with("cluster1/object", "cluster1"));
    assert!(path_starts_with("cluster1", "cluster1"));
    assert!(path_starts_with("cluster1/a/b", "cluster1/"));
    assert!(!path_starts_with("cluster10/object", "cluster1"));
    assert!(!path_starts_with("cluster", "cluster1"));
    assert!(path_starts_with("anything", ""));
}

#[test]
fn test_with_key_selects_first_prefix() {
    let config = MultipleClustersConfig::builder()
        .add_cluster("north".to_owned(), cluster("bucket-north"))
        .add_cluster("south".to_owned(), cluster("bucket-south"))
        .build();
    assert_eq!(
        config.with_key("north/movie.mp4").map(|c| c.bucket.clone()),
        Some("bucket-north".to_owned())
    );
    assert_eq!(
        config.with_key("south/movie.mp4").map(|c| c.bucket.clone()),
        Some("bucket-south".to_owned())
    );
    assert!(config.with_key("west/movie.mp4").is_none());
    assert!(config.with_key("northern/movie.mp4").is_none());
}

#[test]
fn test_add_cluster_replaces_same_name() {
    let config = MultipleClustersConfig::builder()
        .add_cluster("north".to_owned(), cluster("old"))
        .add_cluster("north".to_owned(), cluster("new"))
        .build();
    assert_eq!(config.configs.len(), 1);
    assert_eq!(
        config.with_key("north/x").map(|c| c.bucket.clone()),
        Some("new".to_owned())
    );
}

#[test]
fn test_config_paths() {
    let mut entry = cluster("b");
    entry.original_path = Some("/etc/cluster.toml".to_owned());
    let mut config = MultipleClustersConfig::builder()
        .add_cluster("north".to_owned(), entry)
        .build();
    config.original_path = Some("/etc/all.toml".to_owned());
    let paths = config.config_paths();
    assert_eq!(paths.len(), 2);
    assert!(paths.contains(&"/etc/all.toml".to_owned()));
    assert!(paths.contains(&"/etc/cluster.toml".to_owned()));
}

#[test]
fn test_default_config_is_empty() {
    let config = MultipleClustersConfig::default();
    assert!(config.with_key("anything/x").is_some() == false || config.configs.is_empty());
    assert_eq!(config.configs.len(), 0);
}

#[test]
fn test_download_start_time() {
    let mut start: u64 = 0;
    set_download_start_time(&mut start, 1_700_000);
    assert_eq!(start, 1_700_000);
    assert_eq!(total_download_duration(start, 1_700_250), 250);
}

#[test]
fn test_req_id_format() {
    let (start, delta) = get_start_time_and_delta(2, 2_000_123);
    assert_eq!(start, 2);
    assert_eq!(delta, 123);
    assert_eq!(get_req_id(2, 2_000_123, 4, 100), "r2-123-t4-o100");
    assert_eq!(get_req_id2(2, 2_000_123, 4, 9, 100), "r2-123-t4-a9-o100");
    assert_eq!(get_req_id(0, 555, 0, 0), "r0-555-t0-o0");
}
