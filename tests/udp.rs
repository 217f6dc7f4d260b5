use utrackr::addr::IpAddress;
use utrackr::announce::Event;
use utrackr::config::TrackerConfig;
use utrackr::tracker::Tracker;
use utrackr::udp::connection::{connection_id, make_connection_id, two_min_window, verify_connection_id};
use utrackr::udp::extensions::{collect_url_data, parse_extensions};
use utrackr::udp::transaction::handle_packet;
use utrackr::udp::wire::{
    encode_announce_request, encode_connect_request, encode_connect_response, encode_error_response,
    encode_scrape_request, encode_scrape_response, parse_announce_response, parse_connect_request,
    parse_connect_response, parse_error_response, parse_scrape_response, scrape_hashes,
    AnnouncePacket, AnnounceReply, AnnounceRequest,
};
use utrackr::Error;

const SECRET: [u8; 8] = [1, 2, 3, 4, 5, 6, 7, 8];
const T: u64 = 1_000_000_000;
const REMOTE: IpAddress = IpAddress::V4([150, 150, 150, 150]);

#[test]
fn connection_id_is_sha256_prefix() {
    assert_eq!(two_min_window(T), 8333333);
    assert_eq!(
        make_connection_id(&SECRET, 8333333, &REMOTE),
        [241, 108, 242, 181, 83, 223, 200, 132]
    );
}

#[test]
fn connection_id_sliding_window() {
    let id = connection_id(&SECRET, T, &REMOTE);
    assert!(verify_connection_id(&SECRET, T, &REMOTE, &id));
    assert!(verify_connection_id(&SECRET, T + 119, &REMOTE, &id));
    assert!(verify_connection_id(&SECRET, T + 121, &REMOTE, &id));
    assert!(!verify_connection_id(&SECRET, T + 241, &REMOTE, &id));
    assert!(!verify_connection_id(&SECRET, T, &IpAddress::V4([150, 150, 150, 151]), &id));
    assert!(!verify_connection_id(&[0; 8], T, &REMOTE, &id));
}

#[test]
fn canonical_addresses() {
    let mapped = IpAddress::V6([0, 0, 0, 0, 0, 0, 0, 0, 0, 0, 0xff, 0xff, 1, 2, 3, 4]);
    assert_eq!(mapped.to_canonical(), IpAddress::V4([1, 2, 3, 4]));
    let v6 = IpAddress::V6([0x20, 1, 0, 0, 0, 0, 0, 0, 0, 0, 0xff, 0xff, 1, 2, 3, 4]);
    assert_eq!(v6.to_canonical(), v6);
    assert_eq!(IpAddress::V4([1, 2, 3, 4]).octets16(), [0, 0, 0, 0, 0, 0, 0, 0, 0, 0, 0xff, 0xff, 1, 2, 3, 4]);
}

fn sample_request(extensions: Vec<u8>) -> AnnounceRequest {
    AnnounceRequest {
        connection_id: [9; 8],
        transaction_id: 0xdeadbeef,
        info_hash: [0xab; 20],
        peer_id: [1; 20],
        downloaded: -5,
        left: i64::MAX,
        uploaded: 1 << 40,
        event: Event::Stopped,
        ip: [0; 4],
        key: 12345,
        num_want: -1,
        port: 6881,
        extensions,
    }
}

#[test]
fn connect_round_trip() {
    let b = encode_connect_request(0x01020304);
    assert_eq!(b.len(), 16);
    assert_eq!(&b[..8], &[0, 0, 0x04, 0x17, 0x27, 0x10, 0x19, 0x80]);
    assert_eq!(parse_connect_request(&b), Some(0x01020304));
    let r = encode_connect_response(7, &[1, 2, 3, 4, 5, 6, 7, 8]);
    assert_eq!(parse_connect_response(&r), Some((7, [1, 2, 3, 4, 5, 6, 7, 8])));
}

#[test]
fn announce_request_round_trip() {
    let m = sample_request(vec![2, 1, b'/']);
    let b = encode_announce_request(&m);
    assert_eq!(b.len(), 101);
    let p = AnnouncePacket::new(b).unwrap();
    assert_eq!(p.connection_id(), m.connection_id);
    assert_eq!(p.action(), 1);
    assert_eq!(p.transaction_id(), m.transaction_id);
    assert_eq!(p.info_hash(), m.info_hash);
    assert_eq!(p.peer_id(), m.peer_id);
    assert_eq!(p.downloaded(), m.downloaded);
    assert_eq!(p.left(), m.left);
    assert_eq!(p.uploaded(), m.uploaded);
    assert_eq!(p.event(), m.event);
    assert_eq!(p.ip(), m.ip);
    assert_eq!(p.key(), m.key);
    assert_eq!(p.num_want(), m.num_want);
    assert_eq!(p.port(), m.port);
    assert_eq!(p.extensions(), &[2, 1, b'/']);
    assert!(AnnouncePacket::new(vec![0; 97]).is_none());
}

#[test]
fn announce_reply_round_trip() {
    let mut reply = AnnounceReply::new(42, false);
    reply.set_interval(900);
    reply.set_leechers(3);
    reply.set_seeders(2);
    reply.push_peer(IpAddress::V4([1, 2, 3, 4]), 6881);
    reply.add_peers(&[(IpAddress::V4([5, 6, 7, 8]), 51413)]);
    let b = reply.to_bytes();
    assert_eq!(
        b,
        vec![0, 0, 0, 1, 0, 0, 0, 42, 0, 0, 3, 132, 0, 0, 0, 3, 0, 0, 0, 2, 1, 2, 3, 4, 0x1a, 0xe1, 5, 6, 7, 8, 0xc8, 0xd5]
    );
    let (t, interval, leechers, seeders, peers) = parse_announce_response(&b, false).unwrap();
    assert_eq!((t, interval, leechers, seeders), (42, 900, 3, 2));
    assert_eq!(peers, vec![(IpAddress::V4([1, 2, 3, 4]), 6881), (IpAddress::V4([5, 6, 7, 8]), 51413)]);

    let v6 = IpAddress::V6([0x20, 1, 0xd, 0xb8, 0, 0, 0, 0, 0, 0, 0, 0, 0, 0, 0, 1]);
    let mut reply = AnnounceReply::new(1, true);
    reply.push_peer(v6, 1);
    let b = reply.to_bytes();
    assert_eq!(b.len(), 38);
    assert_eq!(parse_announce_response(&b, true).unwrap().4, vec![(v6, 1)]);
}

#[test]
fn scrape_round_trip() {
    let b = encode_scrape_request(&[9; 8], 77, &[[1; 20], [2; 20]]);
    assert_eq!(b.len(), 56);
    assert_eq!(scrape_hashes(&b), vec![[1; 20], [2; 20]]);
    let r = encode_scrape_response(77, &[(1, 2, 3), (4, 5, 6)]);
    assert_eq!(parse_scrape_response(&r), Some((77, vec![(1, 2, 3), (4, 5, 6)])));
    let many = vec![[3u8; 20]; 100];
    let b = encode_scrape_request(&[9; 8], 77, &many);
    assert_eq!(scrape_hashes(&b).len(), 80);
}

#[test]
fn error_round_trip() {
    let b = encode_error_response(5, b"access denied");
    assert_eq!(b.len(), 8 + 13 + 1);
    assert_eq!(parse_error_response(&b), Some((5, b"access denied".to_vec())));
}

fn url_records(parts: &[&[u8]]) -> Vec<u8> {
    let mut out = Vec::new();
    for p in parts {
        out.push(2);
        out.push(p.len() as u8);
        out.extend_from_slice(p);
    }
    out.push(0);
    out
}

#[test]
fn extensions_parse() {
    assert_eq!(parse_extensions(&[]), Ok(vec![]));
    assert_eq!(parse_extensions(&[0, 2, 1, b'x']), Ok(vec![]));
    assert_eq!(parse_extensions(&[1, 1, 0]), Ok(vec![]));
    assert_eq!(parse_extensions(&url_records(&[b"/announce"])), Ok(vec![]));
    assert_eq!(
        parse_extensions(&url_records(&[b"/ann", b"ounce?a=1", b"&b=%41"])),
        Ok(vec![(b"a".to_vec(), b"1".to_vec()), (b"b".to_vec(), b"A".to_vec())])
    );
    assert_eq!(
        parse_extensions(&url_records(&[b"/%61nnounce?k=v"])),
        Ok(vec![(b"k".to_vec(), b"v".to_vec())])
    );
    assert_eq!(parse_extensions(&url_records(&[b"/scrape"])), Err(Error::InvalidAnnounceUrl));
    assert_eq!(parse_extensions(&url_records(&[b"/announces"])), Err(Error::InvalidAnnounceUrl));
    assert_eq!(parse_extensions(&url_records(&[b"announce"])), Err(Error::InvalidAnnounceUrl));
    let long = format!("/announce?x={}", "v".repeat(260));
    let half = long.len() / 2;
    assert_eq!(
        parse_extensions(&url_records(&[&long.as_bytes()[..half], &long.as_bytes()[half..]])),
        Err(Error::InvalidParams)
    );
}

#[test]
fn test_parse() {
    let pkt = b"\x02\x0bhello world\x01\x02\x0bhello world\x00\x02\x0bhello world";
    let url = collect_url_data(pkt);
    println!("pkt: {}", std::str::from_utf8(&url).unwrap());
    assert_eq!(url, b"hello worldhello world".to_vec());
    assert_eq!(parse_extensions(pkt), Err(Error::InvalidAnnounceUrl));
}

fn connect(tracker: &mut Tracker<utrackr::tracker::NoExtension>, now: u64) -> [u8; 8] {
    let reply = handle_packet(tracker, &SECRET, &REMOTE, &encode_connect_request(99), now).unwrap();
    let (tid, id) = parse_connect_response(&reply).unwrap();
    assert_eq!(tid, 99);
    id
}

#[test]
fn udp_session_end_to_end() {
    let mut config = TrackerConfig::default();
    config.track_unknown_torrents = true;
    let mut tracker = Tracker::new(config);
    let id = connect(&mut tracker, T);
    assert_eq!(id, connection_id(&SECRET, T, &REMOTE));

    let mut m = sample_request(vec![]);
    m.connection_id = id;
    m.event = Event::Started;
    m.left = 0;
    let reply = handle_packet(&mut tracker, &SECRET, &REMOTE, &encode_announce_request(&m), T + 5).unwrap();
    let (tid, interval, leechers, seeders, peers) = parse_announce_response(&reply, false).unwrap();
    assert_eq!((tid, interval, leechers, seeders, peers.len()), (0xdeadbeef, 900, 0, 0, 0));

    m.peer_id = [2; 20];
    m.left = 10;
    m.port = 7000;
    let reply = handle_packet(&mut tracker, &SECRET, &REMOTE, &encode_announce_request(&m), T + 6).unwrap();
    let (_, _, leechers, seeders, peers) = parse_announce_response(&reply, false).unwrap();
    assert_eq!((leechers, seeders), (0, 1));
    assert_eq!(peers, vec![(REMOTE, 6881)]);

    let scrape = encode_scrape_request(&id, 5, &[[0xab; 20], [0; 20]]);
    let reply = handle_packet(&mut tracker, &SECRET, &REMOTE, &scrape, T + 7).unwrap();
    assert_eq!(parse_scrape_response(&reply), Some((5, vec![(1, 0, 1), (0, 0, 0)])));

    let mut bad = m.clone_request();
    bad.connection_id = [0; 8];
    let reply = handle_packet(&mut tracker, &SECRET, &REMOTE, &encode_announce_request(&bad), T + 8).unwrap();
    assert_eq!(parse_error_response(&reply), Some((0xdeadbeef, b"access denied".to_vec())));

    let mut low = m.clone_request();
    low.port = 80;
    let reply = handle_packet(&mut tracker, &SECRET, &REMOTE, &encode_announce_request(&low), T + 8).unwrap();
    assert_eq!(parse_error_response(&reply), Some((0xdeadbeef, b"invalid port".to_vec())));

    let mut scraper = m.clone_request();
    scraper.extensions = url_records(&[b"/scrape"]);
    let reply = handle_packet(&mut tracker, &SECRET, &REMOTE, &encode_announce_request(&scraper), T + 8).unwrap();
    assert_eq!(parse_error_response(&reply), Some((0xdeadbeef, b"invalid announce URL".to_vec())));
}

trait CloneRequest {
    fn clone_request(&self) -> AnnounceRequest;
}

impl CloneRequest for AnnounceRequest {
    fn clone_request(&self) -> AnnounceRequest {
        AnnounceRequest {
            connection_id: self.connection_id,
            transaction_id: self.transaction_id,
            info_hash: self.info_hash,
            peer_id: self.peer_id,
            downloaded: self.downloaded,
            left: self.left,
            uploaded: self.uploaded,
            event: self.event,
            ip: self.ip,
            key: self.key,
            num_want: self.num_want,
            port: self.port,
            extensions: self.extensions.clone(),
        }
    }
}

#[test]
fn ill_sized_or_unknown_packets_are_dropped() {
    let mut tracker = Tracker::new(TrackerConfig::default());
    assert!(handle_packet(&mut tracker, &SECRET, &REMOTE, &[0; 15], T).is_none());
    assert!(handle_packet(&mut tracker, &SECRET, &REMOTE, &vec![0; 8193], T).is_none());
    let mut b = encode_connect_request(1);
    b[0] = 1;
    assert!(handle_packet(&mut tracker, &SECRET, &REMOTE, &b, T).is_none());
    let mut b = encode_connect_request(1);
    b[11] = 9;
    assert!(handle_packet(&mut tracker, &SECRET, &REMOTE, &b, T).is_none());
    let mut b = vec![0u8; 50];
    b[11] = 1;
    assert!(handle_packet(&mut tracker, &SECRET, &REMOTE, &b, T).is_none());
}

#[test]
fn unknown_torrent_gets_error_reply() {
    let mut tracker = Tracker::new(TrackerConfig::default());
    let id = connect(&mut tracker, T);
    let mut m = sample_request(vec![]);
    m.connection_id = id;
    let reply = handle_packet(&mut tracker, &SECRET, &REMOTE, &encode_announce_request(&m), T).unwrap();
    assert_eq!(parse_error_response(&reply), Some((0xdeadbeef, b"torrent not found".to_vec())));
}
