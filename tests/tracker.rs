use utrackr::addr::IpAddress;
use utrackr::announce::{AnnounceParams, Event};
use utrackr::config::TrackerConfig;
use utrackr::swarm::Swarm;
use utrackr::tracker::{NoExtension, Tracker};
use utrackr::Error;

const T0: u64 = 1_000_000;

fn announce(peer_id: [u8; 20]) -> AnnounceParams {
    AnnounceParams {
        info_hash: [0; 20],
        peer_id,
        port: 6881,
        remote_ip: IpAddress::V4([150, 150, 150, 150]),
        unsafe_ip: None,
        uploaded: 0,
        downloaded: 0,
        left: i64::MAX,
        event: Event::Started,
        num_want: 32,
        key: None,
        time: T0,
    }
}

fn tracker() -> Tracker<NoExtension> {
    let mut config = TrackerConfig::default();
    config.track_unknown_torrents = true;
    Tracker::new(config)
}

#[test]
fn test_simple_announce() {
    let mut tracker = tracker();
    tracker.announce(&announce([1; 20]), &vec![]).unwrap();
    let mut a = announce([2; 20]);
    a.left = 0;
    tracker.announce(&a, &vec![]).unwrap();
    tracker.announce(&announce([3; 20]), &vec![]).unwrap();
    let mut a = announce([0; 20]);
    a.left = 0;
    let (_, _, peers) = tracker.announce(&a, &vec![]).unwrap();
    assert_eq!(peers.len(), 2);
    assert!(peers.iter().all(|p| *p == (IpAddress::V4([150, 150, 150, 150]), 6881)));
}

#[test]
fn seeder_and_self_are_not_handed_out() {
    let mut tracker = tracker();
    for (id, port, left) in [(1u8, 7001u16, i64::MAX), (2, 7002, 0), (3, 7003, i64::MAX)] {
        let mut a = announce([id; 20]);
        a.port = port;
        a.left = left;
        tracker.announce(&a, &vec![]).unwrap();
    }
    let mut a = announce([0; 20]);
    a.left = 0;
    a.port = 7000;
    let (seeders, leechers, peers) = tracker.announce(&a, &vec![]).unwrap();
    assert_eq!((seeders, leechers), (1, 2));
    let mut ports: Vec<u16> = peers.iter().map(|p| p.1).collect();
    ports.sort();
    assert_eq!(ports, vec![7001, 7003]);
}

#[test]
fn test_announce_deny_ip_change_without_key() {
    let mut tracker = tracker();
    tracker.announce(&announce([1u8; 20]), &vec![]).unwrap();
    let mut a = announce([1u8; 20]);
    a.remote_ip = IpAddress::V4([150, 150, 150, 151]);
    assert_eq!(tracker.announce(&a, &vec![]).unwrap_err(), Error::IpAddressChanged);
}

#[test]
fn test_announce_deny_ip_change_with_wrong_key() {
    let mut tracker = tracker();
    let mut a = announce([1u8; 20]);
    a.key = Some(12345);
    tracker.announce(&a, &vec![]).unwrap();
    let mut a = announce([1u8; 20]);
    a.remote_ip = IpAddress::V4([150, 150, 150, 151]);
    a.key = Some(0);
    assert_eq!(tracker.announce(&a, &vec![]).unwrap_err(), Error::IpAddressChanged);
}

#[test]
fn test_announce_accept_ip_change_with_key() {
    let mut tracker = tracker();
    let mut a = announce([1u8; 20]);
    a.key = Some(12345);
    tracker.announce(&a, &vec![]).unwrap();
    let mut a = announce([1u8; 20]);
    a.remote_ip = IpAddress::V4([150, 150, 150, 151]);
    a.key = Some(12345);
    tracker.announce(&a, &vec![]).unwrap();
}

#[test]
fn deny_all_ip_changes_overrides_key() {
    let mut config = TrackerConfig::default();
    config.track_unknown_torrents = true;
    config.deny_all_ip_changes = true;
    let mut tracker = Tracker::new(config);
    let mut a = announce([1u8; 20]);
    a.key = Some(12345);
    tracker.announce(&a, &vec![]).unwrap();
    a.remote_ip = IpAddress::V4([150, 150, 150, 151]);
    assert_eq!(tracker.announce(&a, &vec![]).unwrap_err(), Error::IpAddressChanged);
}

#[test]
fn test_scrape() {
    let mut tracker = tracker();
    let mut a = announce([1u8; 20]);
    a.event = Event::Completed;
    a.left = 0;
    tracker.announce(&a, &vec![]).unwrap();
    tracker.announce(&announce([2u8; 20]), &vec![]).unwrap();
    let results = tracker.scrape(&[[0; 20]]);
    assert_eq!(results.len(), 1);
    assert_eq!(results[0], (1, 1, 1));
}

#[test]
fn scrape_of_unknown_torrent_is_zero() {
    let tracker = tracker();
    assert_eq!(tracker.scrape(&[[7; 20], [8; 20]]), vec![(0, 0, 0), (0, 0, 0)]);
}

#[test]
fn test_eviction() {
    let mut config = TrackerConfig::default();
    config.track_unknown_torrents = true;
    config.max_interval = 0;
    let mut tracker = Tracker::new(config);
    tracker.announce(&announce([0; 20]), &vec![]).unwrap();
    tracker.evict(T0);
    assert_eq!(tracker.scrape(&[[0; 20]]), vec![(0, 0, 0)]);
}

#[test]
fn eviction_keeps_fresh_peers() {
    let mut tracker = tracker();
    tracker.announce(&announce([1; 20]), &vec![]).unwrap();
    let mut a = announce([2; 20]);
    a.time = T0 + 1000;
    tracker.announce(&a, &vec![]).unwrap();
    tracker.evict(T0 + 1800);
    assert_eq!(tracker.scrape(&[[0; 20]]), vec![(0, 1, 0)]);
}

#[test]
fn unknown_torrent_rejected_by_default() {
    let mut tracker = Tracker::new(TrackerConfig::default());
    assert_eq!(tracker.announce(&announce([1; 20]), &vec![]).unwrap_err(), Error::TorrentNotFound);
}

#[test]
fn system_ports_rejected() {
    let mut tracker = tracker();
    let mut a = announce([1; 20]);
    a.port = 1023;
    assert_eq!(tracker.announce(&a, &vec![]).unwrap_err(), Error::InvalidPort);
}

#[test]
fn stop_of_unknown_peer_changes_nothing() {
    let mut tracker = tracker();
    tracker.announce(&announce([1; 20]), &vec![]).unwrap();
    let mut a = announce([9; 20]);
    a.event = Event::Stopped;
    tracker.announce(&a, &vec![]).unwrap();
    assert_eq!(tracker.scrape(&[[0; 20]]), vec![(0, 1, 0)]);
}

#[test]
fn stop_removes_peer() {
    let mut tracker = tracker();
    let mut a = announce([1; 20]);
    a.left = 0;
    tracker.announce(&a, &vec![]).unwrap();
    a.event = Event::Stopped;
    tracker.announce(&a, &vec![]).unwrap();
    assert_eq!(tracker.scrape(&[[0; 20]]), vec![(0, 0, 0)]);
}

#[test]
fn repeated_announce_keeps_counts() {
    let mut tracker = tracker();
    let mut a = announce([1; 20]);
    a.event = Event::Empty;
    tracker.announce(&a, &vec![]).unwrap();
    let before = tracker.scrape(&[[0; 20]]);
    tracker.announce(&a, &vec![]).unwrap();
    assert_eq!(tracker.scrape(&[[0; 20]]), before);
    assert_eq!(before, vec![(0, 1, 0)]);
}

#[test]
fn finishing_leecher_becomes_seeder() {
    let mut tracker = tracker();
    tracker.announce(&announce([1; 20]), &vec![]).unwrap();
    let mut a = announce([1; 20]);
    a.left = 0;
    a.event = Event::Completed;
    a.time = T0 + 100;
    tracker.announce(&a, &vec![]).unwrap();
    assert_eq!(tracker.scrape(&[[0; 20]]), vec![(1, 0, 1)]);
}

#[test]
fn early_reannounce_gets_no_peers() {
    let mut tracker = tracker();
    tracker.announce(&announce([1; 20]), &vec![]).unwrap();
    tracker.announce(&announce([2; 20]), &vec![]).unwrap();
    let mut a = announce([2; 20]);
    a.time = T0 + 59;
    let (_, _, peers) = tracker.announce(&a, &vec![]).unwrap();
    assert!(peers.is_empty());
    a.time = T0 + 119;
    let (_, _, peers) = tracker.announce(&a, &vec![]).unwrap();
    assert_eq!(peers.len(), 1);
}

#[test]
fn num_want_limits() {
    let mut tracker = tracker();
    for id in 1..=40u8 {
        tracker.announce(&announce([id; 20]), &vec![]).unwrap();
    }
    let mut a = announce([100; 20]);
    a.num_want = -1;
    assert_eq!(tracker.announce(&a, &vec![]).unwrap().2.len(), 32);
    let mut a = announce([101; 20]);
    a.num_want = 0;
    assert_eq!(tracker.announce(&a, &vec![]).unwrap().2.len(), 0);
    let mut a = announce([102; 20]);
    a.num_want = 5;
    let peers = tracker.announce(&a, &vec![]).unwrap().2;
    assert_eq!(peers.len(), 5);
    assert_eq!(tracker.num_wanted(1000), 128);
    assert_eq!(tracker.num_wanted(-5), 32);
}

#[test]
fn ipv4_requester_gets_ipv4_peers_only() {
    let mut tracker = tracker();
    let mut a = announce([1; 20]);
    a.remote_ip = IpAddress::V6([0x20, 1, 0xd, 0xb8, 0, 0, 0, 0, 0, 0, 0, 0, 0, 0, 0, 1]);
    tracker.announce(&a, &vec![]).unwrap();
    tracker.announce(&announce([2; 20]), &vec![]).unwrap();
    let (_, _, peers) = tracker.announce(&announce([3; 20]), &vec![]).unwrap();
    assert_eq!(peers, vec![(IpAddress::V4([150, 150, 150, 150]), 6881)]);
    let mut a = announce([4; 20]);
    a.remote_ip = IpAddress::V6([0x20, 1, 0xd, 0xb8, 0, 0, 0, 0, 0, 0, 0, 0, 0, 0, 0, 2]);
    let (_, _, peers) = tracker.announce(&a, &vec![]).unwrap();
    assert_eq!(peers.len(), 3);
}

#[test]
fn declared_ip_trusted_only_by_policy() {
    let mut config = TrackerConfig::default();
    config.track_unknown_torrents = true;
    config.trust_ip_param_if_local = true;
    let tracker = Tracker::new(config);
    assert!(tracker.is_trusted(&IpAddress::V4([192, 168, 1, 2])));
    assert!(tracker.is_trusted(&IpAddress::V4([172, 16, 0, 1])));
    assert!(!tracker.is_trusted(&IpAddress::V4([172, 32, 0, 1])));
    assert!(tracker.is_trusted(&IpAddress::V6([0xfd, 0, 0, 0, 0, 0, 0, 0, 0, 0, 0, 0, 0, 0, 0, 1])));
    assert!(!tracker.is_trusted(&IpAddress::V4([150, 150, 150, 150])));
    let mut tracker = Tracker::new(config);
    let mut a = announce([1; 20]);
    a.remote_ip = IpAddress::V4([10, 0, 0, 5]);
    a.unsafe_ip = Some(IpAddress::V4([150, 150, 150, 1]));
    tracker.announce(&a, &vec![]).unwrap();
    let (_, _, peers) = tracker.announce(&announce([2; 20]), &vec![]).unwrap();
    assert_eq!(peers, vec![(IpAddress::V4([150, 150, 150, 1]), 6881)]);
}

#[test]
fn default_config_values() {
    let c = TrackerConfig::default();
    assert_eq!((c.interval, c.min_interval, c.max_interval), (900, 60, 1800));
    assert_eq!((c.default_num_want, c.max_num_want), (32, 128));
    assert!(!c.track_unknown_torrents && !c.unsafe_trust_ip_param);
    assert!(!c.trust_ip_param_if_local && !c.deny_all_ip_changes);
}

#[test]
fn swarm_select_draws_distinct_candidates() {
    let mut swarm = Swarm::new();
    for id in 1..=10u8 {
        let mut a = announce([id; 20]);
        a.port = 7000 + id as u16;
        swarm.announce(&a, IpAddress::V4([1, 2, 3, id]));
    }
    let picked = swarm.select(&[1; 20], &IpAddress::V4([9, 9, 9, 9]), false, 4);
    assert_eq!(picked.len(), 4);
    for p in &picked {
        assert!(p.1 != 7001);
    }
    let mut ports: Vec<u16> = picked.iter().map(|p| p.1).collect();
    ports.sort();
    ports.dedup();
    assert_eq!(ports.len(), 4);
    assert_eq!(swarm.select(&[1; 20], &IpAddress::V4([9, 9, 9, 9]), false, 100).len(), 9);
    assert!(!swarm.evict(T0 + 1, 10));
    assert!(swarm.evict(T0 + 10, 10));
    assert!(swarm.is_empty());
}

#[test]
fn error_messages() {
    assert_eq!(Error::AccessDenied.message(), "access denied");
    assert_eq!(Error::IpAddressChanged.message(), "IP address changed");
    assert_eq!(Error::Custom("no").message(), "no");
    assert_eq!(Error::InvalidParams.message_bytes(), b"invalid parameters");
}

#[test]
fn seeder_gets_no_peer_without_bytes_left() {
    let mut tracker = tracker();
    let mut odd = announce([1; 20]);
    odd.left = -1;
    odd.port = 7001;
    tracker.announce(&odd, &vec![]).unwrap();
    let mut paused = announce([2; 20]);
    paused.event = Event::Paused;
    paused.port = 7002;
    tracker.announce(&paused, &vec![]).unwrap();
    let mut leecher = announce([3; 20]);
    leecher.port = 7003;
    tracker.announce(&leecher, &vec![]).unwrap();
    let mut seeder = announce([4; 20]);
    seeder.left = 0;
    let (_, _, peers) = tracker.announce(&seeder, &vec![]).unwrap();
    assert_eq!(peers, vec![(IpAddress::V4([150, 150, 150, 150]), 7003)]);
}
