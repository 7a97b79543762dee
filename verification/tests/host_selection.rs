use qiniu_download::dotter::{Dotter, Toggles};
use qiniu_download::host_selector::{HostSelector, HostSelectorBuilder, PunishResult};

fn hosts3() -> Vec<String> {
    vec![
        "http://host1".to_owned(),
        "http://host2".to_owned(),
        "http://host3".to_owned(),
    ]
}

fn inert_dotter() -> Dotter {
    Dotter::new(
        "bucket".to_owned(),
        vec![],
        None,
        None,
        None,
        None,
        None,
        None,
        None,
        false,
        0,
    )
}

fn select(sel: &mut HostSelector, now: u64) -> (String, u64) {
    let tried: Vec<String> = Vec::new();
    let hi = sel.select_host(&tried, now).unwrap();
    (hi.host().clone(), hi.timeout())
}

#[test]
fn test_hosts_updater() {
    let mut sel = HostSelectorBuilder::new(hosts3()).build(0);
    assert_eq!(sel.hosts(0).len(), 3);
    assert!(sel.update_hosts(vec![
        "http://host1".to_owned(),
        "http://host2".to_owned(),
        "http://host4".to_owned(),
        "http://host5".to_owned(),
    ]));
    let hs = sel.hosts(0);
    assert_eq!(hs.len(), 4);
    assert!(hs.contains(&"http://host4".to_owned()));
    assert!(hs.contains(&"http://host5".to_owned()));
    assert!(!hs.contains(&"http://host3".to_owned()));
    assert!(!sel.update_hosts(vec![]));
}

#[test]
fn test_hosts_update() {
    let mut sel = HostSelectorBuilder::new(vec![]).update_callback(true).build(0);
    let fetched = vec![
        "http://host1".to_owned(),
        "http://host2".to_owned(),
        "http://host4".to_owned(),
        "http://host5".to_owned(),
    ];
    assert!(sel.update_hosts(fetched.clone()));
    let selected = select(&mut sel, 0).0;
    assert!(fetched.contains(&selected));
}

#[test]
fn test_hosts_updater_auto_update() {
    let mut sel = HostSelectorBuilder::new(hosts3())
        .update_callback(true)
        .update_interval(500)
        .build(0);
    assert!(!sel.should_auto_update(0));
    assert!(!sel.should_auto_update(499));
    assert!(sel.should_auto_update(500));
    assert!(sel.update_hosts(vec![
        "http://host1".to_owned(),
        "http://host2".to_owned(),
        "http://host4".to_owned(),
        "http://host5".to_owned(),
    ]));
    sel.note_updated(500);
    assert!(!sel.should_auto_update(999));
    assert!(sel.should_auto_update(1000));
    let hs = sel.hosts(1000);
    assert_eq!(hs.len(), 4);
    assert!(hs.contains(&"http://host4".to_owned()));
    assert!(hs.contains(&"http://host5".to_owned()));
    assert!(!hs.contains(&"http://host3".to_owned()));
}

#[test]
fn test_hosts_selector() {
    let toggles = Toggles::new();
    let mut dotter = inert_dotter();
    let mut sel = HostSelectorBuilder::new(hosts3())
        .should_punish_callback(true)
        .punish_duration(500)
        .base_timeout(100)
        .max_punished_times(2)
        .build(0);
    let t0: u64 = 0;

    assert_eq!(select(&mut sel, t0), ("http://host1".to_owned(), 100));
    assert_eq!(select(&mut sel, t0).0, "http://host2");
    assert_eq!(select(&mut sel, t0).0, "http://host3");
    assert_eq!(select(&mut sel, t0).0, "http://host1");

    sel.increase_timeout_power_by("http://host1", 0, t0);
    sel.punish("http://host1", true, t0, &toggles, &mut dotter);
    assert_eq!(select(&mut sel, t0), ("http://host2".to_owned(), 100));

    sel.punish("http://host1", true, t0, &toggles, &mut dotter);
    assert_eq!(select(&mut sel, t0), ("http://host3".to_owned(), 100));
    assert_eq!(select(&mut sel, t0), ("http://host2".to_owned(), 100));

    sel.increase_timeout_power_by("http://host1", 1, t0);
    sel.punish("http://host1", true, t0, &toggles, &mut dotter);
    assert_eq!(select(&mut sel, t0).0, "http://host3");

    sel.punish("http://host2", true, t0, &toggles, &mut dotter);
    assert_eq!(select(&mut sel, t0).0, "http://host2");

    sel.increase_timeout_power_by("http://host2", 0, t0);
    sel.punish("http://host2", true, t0, &toggles, &mut dotter);
    sel.increase_timeout_power_by("http://host3", 1, t0);
    sel.punish("http://host3", true, t0, &toggles, &mut dotter);
    assert_eq!(select(&mut sel, t0), ("http://host3".to_owned(), 400));
    assert_eq!(select(&mut sel, t0), ("http://host2".to_owned(), 200));
    assert_eq!(select(&mut sel, t0), ("http://host3".to_owned(), 400));
    assert_eq!(select(&mut sel, t0), ("http://host2".to_owned(), 200));

    sel.increase_timeout_power_by("http://host3", 2, t0);
    sel.punish("http://host3", true, t0, &toggles, &mut dotter);
    assert_eq!(select(&mut sel, t0), ("http://host3".to_owned(), 800));
    assert_eq!(select(&mut sel, t0), ("http://host2".to_owned(), 200));

    sel.reward("http://host1");
    assert_eq!(select(&mut sel, t0), ("http://host1".to_owned(), 200));
    assert_eq!(select(&mut sel, t0), ("http://host2".to_owned(), 200));
    assert_eq!(select(&mut sel, t0), ("http://host1".to_owned(), 200));
    assert_eq!(select(&mut sel, t0), ("http://host2".to_owned(), 200));

    // all punishments expire after the configured 500 ms
    let t1: u64 = 500;
    assert_eq!(select(&mut sel, t1), ("http://host3".to_owned(), 100));
    assert_eq!(select(&mut sel, t1), ("http://host1".to_owned(), 100));
    assert_eq!(select(&mut sel, t1), ("http://host2".to_owned(), 100));
    assert_eq!(select(&mut sel, t1), ("http://host3".to_owned(), 100));

    sel.increase_timeout_power_by("http://host3", 2, t1);
    sel.punish("http://host3", true, t1, &toggles, &mut dotter);
    sel.punish("http://host3", true, t1, &toggles, &mut dotter);
    sel.punish("http://host3", true, t1, &toggles, &mut dotter);
    sel.increase_timeout_power_by("http://host1", 3, t1);
    sel.punish("http://host1", true, t1, &toggles, &mut dotter);
    sel.punish("http://host1", true, t1, &toggles, &mut dotter);
    sel.punish("http://host1", true, t1, &toggles, &mut dotter);
    assert_eq!(select(&mut sel, t1), ("http://host2".to_owned(), 100));
    assert_eq!(select(&mut sel, t1), ("http://host3".to_owned(), 800));

    sel.increase_timeout_power_by("http://host3", 3, t1);
    sel.punish("http://host3", true, t1, &toggles, &mut dotter);
    assert_eq!(select(&mut sel, t1), ("http://host2".to_owned(), 100));
    assert_eq!(select(&mut sel, t1), ("http://host1".to_owned(), 1600));

    sel.reward("http://host3");
    assert_eq!(select(&mut sel, t1), ("http://host2".to_owned(), 100));
    assert_eq!(select(&mut sel, t1), ("http://host3".to_owned(), 800));

    sel.mark_connection_as_failed("http://host2", t1);
    assert_eq!(select(&mut sel, t1), ("http://host3".to_owned(), 800));
    // among the buffered candidates the count-available host wins over the
    // over-punished one, whatever their connection marks
    assert_eq!(select(&mut sel, t1), ("http://host2".to_owned(), 200));
    assert_eq!(select(&mut sel, t1), ("http://host3".to_owned(), 800));

    sel.reward("http://host2");
    assert_eq!(select(&mut sel, t1), ("http://host2".to_owned(), 100));

    let mut tried = vec!["http://host1".to_owned()];
    let hi = sel.select_host(&tried, t1).unwrap();
    assert_eq!((hi.host().clone(), hi.timeout()), ("http://host3".to_owned(), 800));
    let hi = sel.select_host(&tried, t1).unwrap();
    assert_eq!((hi.host().clone(), hi.timeout()), ("http://host2".to_owned(), 100));
    let hi = sel.select_host(&tried, t1).unwrap();
    assert_eq!((hi.host().clone(), hi.timeout()), ("http://host3".to_owned(), 800));
    tried.push("http://host2".to_owned());
    let hi = sel.select_host(&tried, t1).unwrap();
    assert_eq!((hi.host().clone(), hi.timeout()), ("http://host3".to_owned(), 800));
    tried.push("http://host3".to_owned());
    assert!(sel.select_host(&tried, t1).is_none());
}

#[test]
fn test_selector_rotation_resumes_after_expiry() {
    let toggles = Toggles::new();
    let mut dotter = inert_dotter();
    let mut sel = HostSelectorBuilder::new(hosts3())
        .punish_duration(500)
        .base_timeout(100)
        .max_punished_times(2)
        .build(0);
    sel.increase_timeout_power_by("http://host1", 0, 0);
    sel.punish("http://host1", true, 0, &toggles, &mut dotter);
    sel.increase_timeout_power_by("http://host2", 0, 0);
    sel.punish("http://host2", true, 0, &toggles, &mut dotter);
    sel.increase_timeout_power_by("http://host3", 0, 0);
    sel.punish("http://host3", true, 0, &toggles, &mut dotter);
    // after the punishments expire, plain rotation at the base timeout
    let t = 500;
    let a = select(&mut sel, t);
    let b = select(&mut sel, t);
    let c = select(&mut sel, t);
    assert_eq!(a.1, 100);
    assert_eq!(b.1, 100);
    assert_eq!(c.1, 100);
    assert_ne!(a.0, b.0);
    assert_ne!(b.0, c.0);
    assert_ne!(a.0, c.0);
}

#[test]
fn test_selector_empty_and_tried_exhaustion() {
    let mut sel = HostSelectorBuilder::new(vec![]).build(0);
    let tried: Vec<String> = Vec::new();
    assert!(sel.select_host(&tried, 0).is_none());

    let mut sel = HostSelectorBuilder::new(hosts3()).build(0);
    let all = hosts3();
    assert!(sel.select_host(&all, 0).is_none());
}

#[test]
fn test_punish_freezes_after_bound() {
    let toggles = Toggles::new();
    let mut dotter = inert_dotter();
    let mut sel = HostSelectorBuilder::new(hosts3())
        .max_punished_times(2)
        .build(0);
    assert_eq!(
        sel.punish_without_dotter("http://host1", true, 0),
        PunishResult::Punished
    );
    assert_eq!(
        sel.punish_without_dotter("http://host1", true, 0),
        PunishResult::Punished
    );
    assert_eq!(
        sel.punish_without_dotter("http://host1", true, 0),
        PunishResult::PunishedAndFreezed
    );
    // the should-punish policy can refuse to punish
    let mut sel2 = HostSelectorBuilder::new(hosts3())
        .should_punish_callback(true)
        .build(0);
    assert_eq!(
        sel2.punish_without_dotter("http://host1", false, 0),
        PunishResult::NoPunishment
    );
    assert!(!sel2.punish("http://host1", false, 0, &toggles, &mut dotter));
}

#[test]
fn test_all_hosts_crc32_ignores_order() {
    let sel1 = HostSelectorBuilder::new(hosts3()).build(0);
    let sel2 = HostSelectorBuilder::new(vec![
        "http://host3".to_owned(),
        "http://host1".to_owned(),
        "http://host2".to_owned(),
    ])
    .build(0);
    let sel3 = HostSelectorBuilder::new(vec![
        "http://host1".to_owned(),
        "http://host2".to_owned(),
    ])
    .build(0);
    assert_eq!(sel1.all_hosts_crc32(), sel2.all_hosts_crc32());
    assert_ne!(sel1.all_hosts_crc32(), sel3.all_hosts_crc32());
    // the checksum matches crc32 of the sorted, dollar-joined list
    assert_eq!(
        sel1.all_hosts_crc32(),
        crc32fast::hash(b"http://host1$http://host2$http://host3")
    );
}
