use ring::signature::{Ed25519KeyPair, KeyPair};

use utrackr::addr::IpAddress;
use utrackr::announce::{AnnounceParams, Event};
use utrackr::config::TrackerConfig;
use utrackr::ed25519::{find_signature, Ed25519, Ed25519Config};
use utrackr::tracker::Tracker;
use utrackr::Error;

fn key_pair() -> Ed25519KeyPair {
    Ed25519KeyPair::from_seed_unchecked(&[7u8; 32]).unwrap()
}

fn announce(info_hash: [u8; 20]) -> AnnounceParams {
    AnnounceParams {
        info_hash,
        peer_id: [1; 20],
        port: 6881,
        remote_ip: IpAddress::V4([150, 150, 150, 150]),
        unsafe_ip: None,
        uploaded: 0,
        downloaded: 0,
        left: 100,
        event: Event::Started,
        num_want: 32,
        key: None,
        time: 1_000_000,
    }
}

fn signed_tracker() -> Tracker<Ed25519> {
    let pair = key_pair();
    let mut public_key = [0u8; 32];
    public_key.copy_from_slice(pair.public_key().as_ref());
    let mut config = TrackerConfig::default();
    config.track_unknown_torrents = true;
    Tracker::with_extension(
        Ed25519::new(Some(Ed25519Config { param_name: b"sig".to_vec(), public_key })),
        config,
    )
}

fn signature_param(info_hash: &[u8]) -> (Vec<u8>, Vec<u8>) {
    let sig = key_pair().sign(info_hash);
    let text = base64::encode_config(sig.as_ref(), base64::URL_SAFE_NO_PAD);
    assert_eq!(text.len(), 86);
    (b"sig".to_vec(), text.into_bytes())
}

#[test]
fn signed_torrent_accepted() {
    let mut tracker = signed_tracker();
    let ext = vec![signature_param(&[5; 20])];
    assert!(tracker.announce(&announce([5; 20]), &ext).is_ok());
}

#[test]
fn wrong_or_missing_signature_rejected() {
    let mut tracker = signed_tracker();
    let ext = vec![signature_param(&[6; 20])];
    assert_eq!(tracker.announce(&announce([5; 20]), &ext).unwrap_err(), Error::TorrentNotFound);
    assert_eq!(tracker.announce(&announce([5; 20]), &vec![]).unwrap_err(), Error::TorrentNotFound);
    assert_eq!(tracker.scrape(&[[5; 20]]), vec![(0, 0, 0)]);
}

#[test]
fn malformed_signature_parameter() {
    let mut tracker = signed_tracker();
    let short = vec![(b"sig".to_vec(), b"abc".to_vec())];
    assert_eq!(tracker.announce(&announce([5; 20]), &short).unwrap_err(), Error::InvalidParams);
    let bad_chars = vec![(b"sig".to_vec(), vec![b'!'; 86])];
    assert_eq!(tracker.announce(&announce([5; 20]), &bad_chars).unwrap_err(), Error::InvalidParams);
    let twice = vec![signature_param(&[5; 20]), signature_param(&[5; 20])];
    assert_eq!(tracker.announce(&announce([5; 20]), &twice).unwrap_err(), Error::InvalidParams);
}

#[test]
fn signature_lookup_decodes() {
    let (k, v) = signature_param(&[5; 20]);
    let found = find_signature(&vec![(b"other".to_vec(), b"x".to_vec()), (k, v)], b"sig").unwrap().unwrap();
    assert_eq!(found, key_pair().sign(&[5; 20]).as_ref().to_vec());
    assert_eq!(find_signature(&vec![], b"sig"), Ok(None));
}

#[test]
fn unconfigured_extension_accepts() {
    let mut config = TrackerConfig::default();
    config.track_unknown_torrents = true;
    let mut tracker = Tracker::with_extension(Ed25519::new(None), config);
    assert!(tracker.announce(&announce([5; 20]), &vec![]).is_ok());
}
