use utrackr::addr::IpAddress;
use utrackr::announce::Event;
use utrackr::numbers::{parse_integer, parse_ip, parse_ipv4, parse_ipv6};
use utrackr::params::parse_announce_query;
use utrackr::query::{decode, to_digit, QueryParser};
use utrackr::Error;

fn pairs_of(input: &[u8]) -> Vec<(Vec<u8>, Vec<u8>)> {
    let mut parser = QueryParser::new(input.to_vec());
    let mut out = Vec::new();
    while let Some(pair) = parser.next() {
        out.push(pair);
    }
    out
}

#[test]
fn test_query_parser() {
    let mut parser = QueryParser::new(
        b"=a+value+%without+a+key&a+key+without+a+value&i%20love%20escapes%%41%41%43=%values%20love%20escapes%20too%".to_vec(),
    );
    let mut seen = Vec::new();
    while let Some((key, value)) = parser.next() {
        println!(
            "{:?} = {:?}",
            std::str::from_utf8(&key).unwrap(),
            std::str::from_utf8(&value).unwrap()
        );
        seen.push((key, value));
    }
    assert_eq!(
        seen,
        vec![
            (b"".to_vec(), b"a value %without a key".to_vec()),
            (b"a key without a value".to_vec(), b"".to_vec()),
            (b"i love escapes%AAC".to_vec(), b"%values love escapes too%".to_vec()),
        ]
    );
}

#[test]
fn query_trailing_key_without_value_is_dropped() {
    assert_eq!(pairs_of(b"a=1&b"), vec![(b"a".to_vec(), b"1".to_vec())]);
    assert_eq!(pairs_of(b""), vec![]);
    assert_eq!(pairs_of(b"&&"), vec![(vec![], vec![]), (vec![], vec![])]);
}

#[test]
fn query_binary_values_decode() {
    assert_eq!(
        pairs_of(b"k=%00%ff%FE+x=y"),
        vec![(b"k".to_vec(), vec![0x00, 0xff, 0xfe, b' ', b'x', b'=', b'y'])]
    );
}

#[test]
fn hex_digits() {
    assert_eq!(to_digit(b'0'), Some(0));
    assert_eq!(to_digit(b'9'), Some(9));
    assert_eq!(to_digit(b'a'), Some(10));
    assert_eq!(to_digit(b'F'), Some(15));
    assert_eq!(to_digit(b'g'), None);
    assert_eq!(decode(b"%4a%4", 0, 5), b"J%4".to_vec());
}

#[test]
fn integers_follow_from_str() {
    assert_eq!(parse_integer(b"6881", false, 0, 65535), Some(6881));
    assert_eq!(parse_integer(b"+7", false, 0, 65535), Some(7));
    assert_eq!(parse_integer(b"-7", false, 0, 65535), None);
    assert_eq!(parse_integer(b"-7", true, -128, 127), Some(-7));
    assert_eq!(parse_integer(b"65536", false, 0, 65535), None);
    assert_eq!(parse_integer(b"", true, -1, 1), None);
    assert_eq!(parse_integer(b"-", true, -1, 1), None);
    assert_eq!(parse_integer(b"1x", true, -1, 10), None);
    assert_eq!(
        parse_integer(b"-9223372036854775808", true, i64::MIN as i128, i64::MAX as i128),
        Some(i64::MIN as i128)
    );
    assert_eq!(
        parse_integer(b"9223372036854775808", true, i64::MIN as i128, i64::MAX as i128),
        None
    );
}

#[test]
fn ipv4_text() {
    assert_eq!(parse_ipv4(b"150.150.150.151"), Some([150, 150, 150, 151]));
    assert_eq!(parse_ipv4(b"0.0.0.0"), Some([0, 0, 0, 0]));
    assert_eq!(parse_ipv4(b"1.2.3"), None);
    assert_eq!(parse_ipv4(b"1.2.3.4.5"), None);
    assert_eq!(parse_ipv4(b"1.2.3.256"), None);
    assert_eq!(parse_ipv4(b"01.2.3.4"), None);
    assert_eq!(parse_ipv4(b"1..3.4"), None);
    assert_eq!(parse_ipv4(b"tracker.example"), None);
}

const REMOTE: IpAddress = IpAddress::V4([10, 0, 0, 1]);

fn hash_param(name: &str, byte: u8) -> String {
    let mut s = format!("{}=", name);
    for _ in 0..20 {
        s.push_str(&format!("%{:02x}", byte));
    }
    s
}

#[test]
fn announce_query_with_defaults() {
    let q = format!("{}&{}&port=6881&x=1", hash_param("info_hash", 0xab), hash_param("peer_id", 1));
    let (a, extra) = parse_announce_query(q.into_bytes(), REMOTE, 77).unwrap();
    assert_eq!(a.info_hash, [0xab; 20]);
    assert_eq!(a.peer_id, [1; 20]);
    assert_eq!(a.port, 6881);
    assert_eq!(a.uploaded, 0);
    assert_eq!(a.downloaded, 0);
    assert_eq!(a.left, i64::MAX);
    assert_eq!(a.event, Event::Empty);
    assert_eq!(a.num_want, -1);
    assert_eq!(a.key, None);
    assert_eq!(a.unsafe_ip, None);
    assert_eq!(a.remote_ip, REMOTE);
    assert_eq!(a.time, 77);
    assert_eq!(extra, vec![(b"x".to_vec(), b"1".to_vec())]);
}

#[test]
fn announce_query_with_every_field() {
    let q = format!(
        "{}&{}&port=51413&uploaded=10&downloaded=20&left=0&event=completed&numwant=50&key=12345&ip=150.150.150.151",
        hash_param("info_hash", 2),
        hash_param("peer_id", 3)
    );
    let (a, extra) = parse_announce_query(q.into_bytes(), REMOTE, 1).unwrap();
    assert_eq!(a.uploaded, 10);
    assert_eq!(a.downloaded, 20);
    assert_eq!(a.left, 0);
    assert_eq!(a.event, Event::Completed);
    assert_eq!(a.num_want, 50);
    assert_eq!(a.key, Some(12345));
    assert_eq!(a.unsafe_ip, Some(IpAddress::V4([150, 150, 150, 151])));
    assert!(extra.is_empty());
}

#[test]
fn announce_query_unknown_event_is_regular() {
    let q = format!("{}&{}&port=6881&event=resumed", hash_param("info_hash", 2), hash_param("peer_id", 3));
    let (a, _) = parse_announce_query(q.into_bytes(), REMOTE, 1).unwrap();
    assert_eq!(a.event, Event::Empty);
}

#[test]
fn announce_query_errors() {
    let ih = hash_param("info_hash", 2);
    let pid = hash_param("peer_id", 3);
    let err = |q: String| parse_announce_query(q.into_bytes(), REMOTE, 1).unwrap_err();
    assert_eq!(err(format!("{}&port=6881", pid)), Error::InvalidInfoHash);
    assert_eq!(err(format!("{}&port=6881", ih)), Error::InvalidPeerId);
    assert_eq!(err(format!("{}&{}", ih, pid)), Error::InvalidPort);
    assert_eq!(err(format!("{}&{}&port=0", ih, pid)), Error::InvalidPort);
    assert_eq!(err(format!("{}&{}&port=65536", ih, pid)), Error::InvalidPort);
    assert_eq!(err(format!("{}&{}&{}&port=1", ih, ih, pid)), Error::InvalidParams);
    assert_eq!(err(format!("{}&{}&{}&port=1", ih, pid, pid)), Error::InvalidParams);
    assert_eq!(err(format!("{}&{}&port=6881&port=6882", ih, pid)), Error::InvalidParams);
    assert_eq!(err(format!("{}&{}&port=1&event=started&event=stopped", ih, pid)), Error::InvalidParams);
    assert_eq!(err(format!("{}&{}&port=1&ip=1.2.3.4&ip=1.2.3.4", ih, pid)), Error::InvalidParams);
    assert_eq!(err(format!("info_hash=short&{}&port=1", pid)), Error::InvalidInfoHash);
    assert_eq!(err(format!("{}&{}&port=1&left=1&left=2", ih, pid)), Error::InvalidParams);
    assert_eq!(err(format!("{}&{}&port=1&numwant=x", ih, pid)), Error::InvalidParams);
    assert_eq!(err(format!("{}&{}&port=1&key=-1", ih, pid)), Error::InvalidParams);
    assert_eq!(err(format!("{}&{}&port=1&ip=tracker.example", ih, pid)), Error::InvalidIpAddress);
    let long_value = "v".repeat(257);
    assert_eq!(err(format!("{}&{}&port=1&x={}", ih, pid, long_value)), Error::InvalidParams);
    let long_key = "k".repeat(33);
    assert_eq!(err(format!("{}&{}&port=1&{}=1", ih, pid, long_key)), Error::InvalidParams);
}

#[test]
fn ipv6_text() {
    let mut loopback = [0u8; 16];
    loopback[15] = 1;
    assert_eq!(parse_ipv6(b"::"), Some([0; 16]));
    assert_eq!(parse_ipv6(b"::1"), Some(loopback));
    assert_eq!(
        parse_ipv6(b"2001:DB8::1"),
        Some([0x20, 0x01, 0x0d, 0xb8, 0, 0, 0, 0, 0, 0, 0, 0, 0, 0, 0, 1])
    );
    assert_eq!(
        parse_ipv6(b"::ffff:1.2.3.4"),
        Some([0, 0, 0, 0, 0, 0, 0, 0, 0, 0, 0xff, 0xff, 1, 2, 3, 4])
    );
    assert_eq!(
        parse_ipv6(b"1:2:3:4:5:6:7:8"),
        Some([0, 1, 0, 2, 0, 3, 0, 4, 0, 5, 0, 6, 0, 7, 0, 8])
    );
    assert_eq!(
        parse_ipv6(b"1:2:3:4:5:6:7::"),
        Some([0, 1, 0, 2, 0, 3, 0, 4, 0, 5, 0, 6, 0, 7, 0, 0])
    );
    assert_eq!(
        parse_ipv6(b"1:2:3:4:5:6:10.0.0.1"),
        Some([0, 1, 0, 2, 0, 3, 0, 4, 0, 5, 0, 6, 10, 0, 0, 1])
    );
    assert_eq!(parse_ipv6(b"1::2::3"), None);
    assert_eq!(parse_ipv6(b"12345::"), None);
    assert_eq!(parse_ipv6(b"1:2:3:4:5:6:7:8:9"), None);
    assert_eq!(parse_ipv6(b"1:2:3:4:5:6:7:8::"), None);
    assert_eq!(parse_ipv6(b"::1:2:3:4:5:6:7:8"), None);
    assert_eq!(parse_ipv6(b"::1.2.3.4.5"), None);
    assert_eq!(parse_ipv6(b"1.2.3.4::"), None);
    assert_eq!(parse_ipv6(b":1::"), None);
    assert_eq!(parse_ipv6(b":::"), None);
    assert_eq!(parse_ipv6(b""), None);
    assert_eq!(parse_ip(b"::1"), Some(IpAddress::V6(loopback)));
    assert_eq!(parse_ip(b"127.0.0.1"), Some(IpAddress::V4([127, 0, 0, 1])));
    assert_eq!(parse_ip(b"localhost"), None);
}

#[test]
fn announce_query_ipv6_param() {
    let q = format!("{}&{}&port=6881&ip=2001%3Adb8%3A%3A1", hash_param("info_hash", 2), hash_param("peer_id", 3));
    let (a, _) = parse_announce_query(q.into_bytes(), REMOTE, 1).unwrap();
    assert_eq!(
        a.unsafe_ip,
        Some(IpAddress::V6([0x20, 0x01, 0x0d, 0xb8, 0, 0, 0, 0, 0, 0, 0, 0, 0, 0, 0, 1]))
    );
}

#[test]
fn announce_query_bounds_values_not_text() {
    let q = format!(
        "{}&{}&port=0006881&left=-9223372036854775808&uploaded=%2B00000000000000000000042",
        hash_param("info_hash", 2),
        hash_param("peer_id", 3)
    );
    let (a, _) = parse_announce_query(q.into_bytes(), REMOTE, 1).unwrap();
    assert_eq!(a.port, 6881);
    assert_eq!(a.left, i64::MIN);
    assert_eq!(a.uploaded, 42);
    let q = format!("{}&{}&port=1&left=9223372036854775808", hash_param("info_hash", 2), hash_param("peer_id", 3));
    assert_eq!(parse_announce_query(q.into_bytes(), REMOTE, 1).unwrap_err(), Error::InvalidParams);
}
