//! Turns the decoded key/value pairs of an announce query into a structured
//! announce request.
use vstd::prelude::*;

use crate::addr::IpAddress;
use crate::announce::{AnnounceParams, Event};
use crate::error::Error;
use crate::numbers::{parse_integer, parse_ip, spec_parse_int, spec_parse_ip};
use crate::query::{query_pairs, QueryParser};
use crate::tracker::{params_view, ExtensionParams};

verus! {

/// The longest decoded key that the parser accepts.
pub const MAX_KEY_LEN: usize = 32;

/// The longest decoded value that the parser accepts.
pub const MAX_VALUE_LEN: usize = 256;

/// The parameters that the announce parser recognises.
#[derive(Debug, Clone, Copy, PartialEq, Eq, Structural)]
pub enum ParamName {
    InfoHash,
    PeerId,
    Port,
    Uploaded,
    Downloaded,
    Left,
    Event,
    Ip,
    NumWant,
    Key,
    Other,
}

/// The parameter that a decoded key names.
pub open spec fn spec_param_name(k: Seq<u8>) -> ParamName {
    if k == seq![105u8, 110, 102, 111, 95, 104, 97, 115, 104] {
        ParamName::InfoHash
    }
    else if k == seq![112u8, 101, 101, 114, 95, 105, 100] {
        ParamName::PeerId
    }
    else if k == seq![112u8, 111, 114, 116] {
        ParamName::Port
    }
    else if k == seq![117u8, 112, 108, 111, 97, 100, 101, 100] {
        ParamName::Uploaded
    }
    else if k == seq![100u8, 111, 119, 110, 108, 111, 97, 100, 101, 100] {
        ParamName::Downloaded
    }
    else if k == seq![108u8, 101, 102, 116] {
        ParamName::Left
    }
    else if k == seq![101u8, 118, 101, 110, 116] {
        ParamName::Event
    }
    else if k == seq![105u8, 112] {
        ParamName::Ip
    }
    else if k == seq![110u8, 117, 109, 119, 97, 110, 116] {
        ParamName::NumWant
    }
    else if k == seq![107u8, 101, 121] {
        ParamName::Key
    }
    else {
        ParamName::Other
    }
}

/// The parameter that the decoded key `k` names.
pub fn param_name(k: &[u8]) -> (r: ParamName)
    ensures
        r == spec_param_name(k@),
{
    if k.len() == 9 && k[0] == 105 && k[1] == 110 && k[2] == 102 && k[3] == 111 && k[4] == 95 && k[5] == 104 && k[6] == 97 && k[7] == 115 && k[8] == 104 {
        assert(k@ =~= seq![105u8, 110, 102, 111, 95, 104, 97, 115, 104]);
        return ParamName::InfoHash;
    }
    if k.len() == 7 && k[0] == 112 && k[1] == 101 && k[2] == 101 && k[3] == 114 && k[4] == 95 && k[5] == 105 && k[6] == 100 {
        assert(k@ =~= seq![112u8, 101, 101, 114, 95, 105, 100]);
        return ParamName::PeerId;
    }
    if k.len() == 4 && k[0] == 112 && k[1] == 111 && k[2] == 114 && k[3] == 116 {
        assert(k@ =~= seq![112u8, 111, 114, 116]);
        return ParamName::Port;
    }
    if k.len() == 8 && k[0] == 117 && k[1] == 112 && k[2] == 108 && k[3] == 111 && k[4] == 97 && k[5] == 100 && k[6] == 101 && k[7] == 100 {
        assert(k@ =~= seq![117u8, 112, 108, 111, 97, 100, 101, 100]);
        return ParamName::Uploaded;
    }
    if k.len() == 10 && k[0] == 100 && k[1] == 111 && k[2] == 119 && k[3] == 110 && k[4] == 108 && k[5] == 111 && k[6] == 97 && k[7] == 100 && k[8] == 101 && k[9] == 100 {
        assert(k@ =~= seq![100u8, 111, 119, 110, 108, 111, 97, 100, 101, 100]);
        return ParamName::Downloaded;
    }
    if k.len() == 4 && k[0] == 108 && k[1] == 101 && k[2] == 102 && k[3] == 116 {
        assert(k@ =~= seq![108u8, 101, 102, 116]);
        return ParamName::Left;
    }
    if k.len() == 5 && k[0] == 101 && k[1] == 118 && k[2] == 101 && k[3] == 110 && k[4] == 116 {
        assert(k@ =~= seq![101u8, 118, 101, 110, 116]);
        return ParamName::Event;
    }
    if k.len() == 2 && k[0] == 105 && k[1] == 112 {
        assert(k@ =~= seq![105u8, 112]);
        return ParamName::Ip;
    }
    if k.len() == 7 && k[0] == 110 && k[1] == 117 && k[2] == 109 && k[3] == 119 && k[4] == 97 && k[5] == 110 && k[6] == 116 {
        assert(k@ =~= seq![110u8, 117, 109, 119, 97, 110, 116]);
        return ParamName::NumWant;
    }
    if k.len() == 3 && k[0] == 107 && k[1] == 101 && k[2] == 121 {
        assert(k@ =~= seq![107u8, 101, 121]);
        return ParamName::Key;
    }
    assert(k@ != seq![105u8, 110, 102, 111, 95, 104, 97, 115, 104]) by {
        if k@ == seq![105u8, 110, 102, 111, 95, 104, 97, 115, 104] {
            assert(k@.len() == 9);
        }
    };
    assert(k@ != seq![112u8, 101, 101, 114, 95, 105, 100]) by {
        if k@ == seq![112u8, 101, 101, 114, 95, 105, 100] {
            assert(k@.len() == 7);
        }
    };
    assert(k@ != seq![112u8, 111, 114, 116]) by {
        if k@ == seq![112u8, 111, 114, 116] {
            assert(k@.len() == 4);
        }
    };
    assert(k@ != seq![117u8, 112, 108, 111, 97, 100, 101, 100]) by {
        if k@ == seq![117u8, 112, 108, 111, 97, 100, 101, 100] {
            assert(k@.len() == 8);
        }
    };
    assert(k@ != seq![100u8, 111, 119, 110, 108, 111, 97, 100, 101, 100]) by {
        if k@ == seq![100u8, 111, 119, 110, 108, 111, 97, 100, 101, 100] {
            assert(k@.len() == 10);
        }
    };
    assert(k@ != seq![108u8, 101, 102, 116]) by {
        if k@ == seq![108u8, 101, 102, 116] {
            assert(k@.len() == 4);
        }
    };
    assert(k@ != seq![101u8, 118, 101, 110, 116]) by {
        if k@ == seq![101u8, 118, 101, 110, 116] {
            assert(k@.len() == 5);
        }
    };
    assert(k@ != seq![105u8, 112]) by {
        if k@ == seq![105u8, 112] {
            assert(k@.len() == 2);
        }
    };
    assert(k@ != seq![110u8, 117, 109, 119, 97, 110, 116]) by {
        if k@ == seq![110u8, 117, 109, 119, 97, 110, 116] {
            assert(k@.len() == 7);
        }
    };
    assert(k@ != seq![107u8, 101, 121]) by {
        if k@ == seq![107u8, 101, 121] {
            assert(k@.len() == 3);
        }
    };
    ParamName::Other
}

/// The event that an `event` value names; any other value is a regular
/// announce.
pub open spec fn spec_event_named(v: Seq<u8>) -> Event {
    if v == seq![115u8, 116, 97, 114, 116, 101, 100] {
        Event::Started
    }
    else if v == seq![115u8, 116, 111, 112, 112, 101, 100] {
        Event::Stopped
    }
    else if v == seq![99u8, 111, 109, 112, 108, 101, 116, 101, 100] {
        Event::Completed
    }
    else if v == seq![112u8, 97, 117, 115, 101, 100] {
        Event::Paused
    }
    else {
        Event::Empty
    }
}

/// The event that the `event` value `k` names.
pub fn event_named(k: &[u8]) -> (r: Event)
    ensures
        r == spec_event_named(k@),
{
    if k.len() == 7 && k[0] == 115 && k[1] == 116 && k[2] == 97 && k[3] == 114 && k[4] == 116 && k[5] == 101 && k[6] == 100 {
        assert(k@ =~= seq![115u8, 116, 97, 114, 116, 101, 100]);
        return Event::Started;
    }
    if k.len() == 7 && k[0] == 115 && k[1] == 116 && k[2] == 111 && k[3] == 112 && k[4] == 112 && k[5] == 101 && k[6] == 100 {
        assert(k@ =~= seq![115u8, 116, 111, 112, 112, 101, 100]);
        return Event::Stopped;
    }
    if k.len() == 9 && k[0] == 99 && k[1] == 111 && k[2] == 109 && k[3] == 112 && k[4] == 108 && k[5] == 101 && k[6] == 116 && k[7] == 101 && k[8] == 100 {
        assert(k@ =~= seq![99u8, 111, 109, 112, 108, 101, 116, 101, 100]);
        return Event::Completed;
    }
    if k.len() == 6 && k[0] == 112 && k[1] == 97 && k[2] == 117 && k[3] == 115 && k[4] == 101 && k[5] == 100 {
        assert(k@ =~= seq![112u8, 97, 117, 115, 101, 100]);
        return Event::Paused;
    }
    assert(k@ != seq![115u8, 116, 97, 114, 116, 101, 100]) by {
        if k@ == seq![115u8, 116, 97, 114, 116, 101, 100] {
            assert(k@.len() == 7);
        }
    };
    assert(k@ != seq![115u8, 116, 111, 112, 112, 101, 100]) by {
        if k@ == seq![115u8, 116, 111, 112, 112, 101, 100] {
            assert(k@.len() == 7);
        }
    };
    assert(k@ != seq![99u8, 111, 109, 112, 108, 101, 116, 101, 100]) by {
        if k@ == seq![99u8, 111, 109, 112, 108, 101, 116, 101, 100] {
            assert(k@.len() == 9);
        }
    };
    assert(k@ != seq![112u8, 97, 117, 115, 101, 100]) by {
        if k@ == seq![112u8, 97, 117, 115, 101, 100] {
            assert(k@.len() == 6);
        }
    };
    Event::Empty
}

/// What the parser has gathered so far.
pub struct ParamsState {
    pub info_hash: Option<Seq<u8>>,
    pub peer_id: Option<Seq<u8>>,
    pub port: Option<u16>,
    pub unsafe_ip: Option<IpAddress>,
    pub uploaded: Option<i64>,
    pub downloaded: Option<i64>,
    pub left: Option<i64>,
    pub event: Option<Event>,
    pub num_want: Option<i32>,
    pub key: Option<u32>,
    /// The pairs that the parser does not recognise, in order.
    pub extra: Seq<(Seq<u8>, Seq<u8>)>,
}

/// The state of a parser that has seen nothing yet.
pub open spec fn initial_state() -> ParamsState {
    ParamsState {
        info_hash: None,
        peer_id: None,
        port: None,
        unsafe_ip: None,
        uploaded: None,
        downloaded: None,
        left: None,
        event: None,
        num_want: None,
        key: None,
        extra: seq![],
    }
}

/// The value of a byte counter (`uploaded`, `downloaded`, `left`).
pub open spec fn spec_counter(v: Seq<u8>) -> Option<int> {
    spec_parse_int(v, true, -0x8000_0000_0000_0000, 0x7fff_ffff_ffff_ffff)
}

/// The state after the pair `(k, v)`, or the error that it raises. Each
/// field may be given once: a repeated field fails with `InvalidParams`.
pub open spec fn apply_pair(st: ParamsState, k: Seq<u8>, v: Seq<u8>) -> Result<ParamsState, Error> {
    if k.len() > MAX_KEY_LEN || v.len() > MAX_VALUE_LEN {
        Err(Error::InvalidParams)
    } else {
        match spec_param_name(k) {
            ParamName::InfoHash => if st.info_hash is Some {
                Err(Error::InvalidParams)
            } else if v.len() != 20 {
                Err(Error::InvalidInfoHash)
            } else {
                Ok(ParamsState { info_hash: Some(v), ..st })
            },
            ParamName::PeerId => if st.peer_id is Some {
                Err(Error::InvalidParams)
            } else if v.len() != 20 {
                Err(Error::InvalidPeerId)
            } else {
                Ok(ParamsState { peer_id: Some(v), ..st })
            },
            ParamName::Port => {
                let p = spec_parse_int(v, false, 0, 65535);
                if st.port is Some {
                    Err(Error::InvalidParams)
                } else if p is None || p == Some(0int) {
                    Err(Error::InvalidPort)
                } else {
                    Ok(ParamsState { port: Some(p.unwrap() as u16), ..st })
                }
            },
            ParamName::Uploaded => if st.uploaded is Some || spec_counter(v) is None {
                Err(Error::InvalidParams)
            } else {
                Ok(ParamsState { uploaded: Some(spec_counter(v).unwrap() as i64), ..st })
            },
            ParamName::Downloaded => if st.downloaded is Some || spec_counter(v) is None {
                Err(Error::InvalidParams)
            } else {
                Ok(ParamsState { downloaded: Some(spec_counter(v).unwrap() as i64), ..st })
            },
            ParamName::Left => if st.left is Some || spec_counter(v) is None {
                Err(Error::InvalidParams)
            } else {
                Ok(ParamsState { left: Some(spec_counter(v).unwrap() as i64), ..st })
            },
            ParamName::Event => if st.event is Some {
                Err(Error::InvalidParams)
            } else {
                Ok(ParamsState { event: Some(spec_event_named(v)), ..st })
            },
            ParamName::Ip => if st.unsafe_ip is Some {
                Err(Error::InvalidParams)
            } else {
                match spec_parse_ip(v) {
                    Some(ip) => Ok(ParamsState { unsafe_ip: Some(ip), ..st }),
                    None => Err(Error::InvalidIpAddress),
                }
            },
            ParamName::NumWant => {
                let n = spec_parse_int(v, true, -0x8000_0000, 0x7fff_ffff);
                if st.num_want is Some || n is None {
                    Err(Error::InvalidParams)
                } else {
                    Ok(ParamsState { num_want: Some(n.unwrap() as i32), ..st })
                }
            },
            ParamName::Key => {
                let n = spec_parse_int(v, false, 0, 0xffff_ffff);
                if st.key is Some || n is None {
                    Err(Error::InvalidParams)
                } else {
                    Ok(ParamsState { key: Some(n.unwrap() as u32), ..st })
                }
            },
            ParamName::Other => Ok(ParamsState { extra: st.extra.push((k, v)), ..st }),
        }
    }
}

/// The state after every pair of `pairs` in order, or the first error.
pub open spec fn apply_pairs(st: ParamsState, pairs: Seq<(Seq<u8>, Seq<u8>)>) -> Result<ParamsState, Error>
    decreases pairs.len(),
{
    if pairs.len() == 0 {
        Ok(st)
    } else {
        match apply_pair(st, pairs[0].0, pairs[0].1) {
            Ok(next) => apply_pairs(next, pairs.skip(1)),
            Err(e) => Err(e),
        }
    }
}

/// The error with which a finished parse fails: a port, an info hash and a
/// peer id are required.
pub open spec fn missing_error(st: ParamsState) -> Option<Error> {
    if st.port is None {
        Some(Error::InvalidPort)
    } else if st.info_hash is None {
        Some(Error::InvalidInfoHash)
    } else if st.peer_id is None {
        Some(Error::InvalidPeerId)
    } else {
        None
    }
}

/// The announce that a finished parse yields: the fields given, and the
/// defaults for the others.
pub open spec fn finished(st: ParamsState, remote_ip: IpAddress, time: u64, a: AnnounceParams) -> bool {
    &&& a.info_hash@ == st.info_hash.unwrap()
    &&& a.peer_id@ == st.peer_id.unwrap()
    &&& a.port == st.port.unwrap()
    &&& a.remote_ip == remote_ip
    &&& a.unsafe_ip == st.unsafe_ip
    &&& a.uploaded == (if st.uploaded is Some { st.uploaded.unwrap() } else { 0i64 })
    &&& a.downloaded == (if st.downloaded is Some { st.downloaded.unwrap() } else { 0i64 })
    &&& a.left == (if st.left is Some { st.left.unwrap() } else { i64::MAX })
    &&& a.event == (if st.event is Some { st.event.unwrap() } else { Event::Empty })
    &&& a.num_want == (if st.num_want is Some { st.num_want.unwrap() } else { -1i32 })
    &&& a.key == st.key
    &&& a.time == time
}

/// A parser of announce parameters, fed one decoded pair at a time.
pub struct ParseAnnounceParams {
    remote_ip: IpAddress,
    info_hash: Option<[u8; 20]>,
    peer_id: Option<[u8; 20]>,
    port: Option<u16>,
    unsafe_ip: Option<IpAddress>,
    uploaded: Option<i64>,
    downloaded: Option<i64>,
    left: Option<i64>,
    event: Option<Event>,
    num_want: Option<i32>,
    key: Option<u32>,
    extra: ExtensionParams,
}

fn copy20(v: &[u8]) -> (r: [u8; 20])
    requires
        v@.len() == 20,
    ensures
        r@ == v@,
{
    crate::bytes::read_array20(v, 0)
}

fn to_vec(v: &[u8]) -> (r: Vec<u8>)
    ensures
        r@ == v@,
{
    let mut out: Vec<u8> = Vec::new();
    crate::bytes::push_all(&mut out, v);
    out
}

impl ParseAnnounceParams {
    /// What the parser has gathered so far.
    pub closed spec fn state(&self) -> ParamsState {
        ParamsState {
            info_hash: match self.info_hash {
                Some(h) => Some(h@),
                None => None,
            },
            peer_id: match self.peer_id {
                Some(h) => Some(h@),
                None => None,
            },
            port: self.port,
            unsafe_ip: self.unsafe_ip,
            uploaded: self.uploaded,
            downloaded: self.downloaded,
            left: self.left,
            event: self.event,
            num_want: self.num_want,
            key: self.key,
            extra: params_view(self.extra),
        }
    }

    /// The address that the request came from.
    pub closed spec fn remote(&self) -> IpAddress {
        self.remote_ip
    }

    /// A parser for a request that came from `remote_ip`.
    pub fn new(remote_ip: IpAddress) -> (r: Self)
        ensures
            r.state() == initial_state(),
            r.remote() == remote_ip,
    {
        let r = ParseAnnounceParams {
            remote_ip,
            info_hash: None,
            peer_id: None,
            port: None,
            unsafe_ip: None,
            uploaded: None,
            downloaded: None,
            left: None,
            event: None,
            num_want: None,
            key: None,
            extra: Vec::new(),
        };
        assert(r.state().extra =~= Seq::<(Seq<u8>, Seq<u8>)>::empty());
        r
    }

    /// Takes in one decoded pair. On an error the parse is over and the
    /// parser is to be dropped.
    pub fn parse(&mut self, key: &[u8], value: &[u8]) -> (r: Result<(), Error>)
        ensures
            final(self).remote() == old(self).remote(),
            match apply_pair(old(self).state(), key@, value@) {
                Ok(st) => r is Ok && final(self).state() == st,
                Err(e) => r == Err::<(), Error>(e),
            },
    {
        if key.len() > MAX_KEY_LEN || value.len() > MAX_VALUE_LEN {
            return Err(Error::InvalidParams);
        }
        let ghost st = self.state();
        match param_name(key) {
            ParamName::InfoHash => {
                if self.info_hash.is_some() {
                    return Err(Error::InvalidParams);
                }
                if value.len() != 20 {
                    return Err(Error::InvalidInfoHash);
                }
                self.info_hash = Some(copy20(value));
            },
            ParamName::PeerId => {
                if self.peer_id.is_some() {
                    return Err(Error::InvalidParams);
                }
                if value.len() != 20 {
                    return Err(Error::InvalidPeerId);
                }
                self.peer_id = Some(copy20(value));
            },
            ParamName::Port => {
                if self.port.is_some() {
                    return Err(Error::InvalidParams);
                }
                match parse_integer(value, false, 0, 65535) {
                    Some(p) => {
                        if p == 0 {
                            return Err(Error::InvalidPort);
                        }
                        self.port = Some(p as u16);
                    },
                    None => return Err(Error::InvalidPort),
                }
            },
            ParamName::Uploaded => {
                if self.uploaded.is_some() {
                    return Err(Error::InvalidParams);
                }
                self.uploaded = Some(parse_counter(value)?);
            },
            ParamName::Downloaded => {
                if self.downloaded.is_some() {
                    return Err(Error::InvalidParams);
                }
                self.downloaded = Some(parse_counter(value)?);
            },
            ParamName::Left => {
                if self.left.is_some() {
                    return Err(Error::InvalidParams);
                }
                self.left = Some(parse_counter(value)?);
            },
            ParamName::Event => {
                if self.event.is_some() {
                    return Err(Error::InvalidParams);
                }
                self.event = Some(event_named(value));
            },
            ParamName::Ip => {
                if self.unsafe_ip.is_some() {
                    return Err(Error::InvalidParams);
                }
                match parse_ip(value) {
                    Some(ip) => self.unsafe_ip = Some(ip),
                    None => return Err(Error::InvalidIpAddress),
                }
            },
            ParamName::NumWant => {
                if self.num_want.is_some() {
                    return Err(Error::InvalidParams);
                }
                match parse_integer(value, true, -0x8000_0000, 0x7fff_ffff) {
                    Some(n) => self.num_want = Some(n as i32),
                    None => return Err(Error::InvalidParams),
                }
            },
            ParamName::Key => {
                if self.key.is_some() {
                    return Err(Error::InvalidParams);
                }
                match parse_integer(value, false, 0, 0xffff_ffff) {
                    Some(n) => self.key = Some(n as u32),
                    None => return Err(Error::InvalidParams),
                }
            },
            ParamName::Other => {
                let k = to_vec(key);
                let v = to_vec(value);
                self.extra.push((k, v));
                assert(params_view(self.extra) =~= st.extra.push((key@, value@)));
            },
        }
        assert(self.state() =~= apply_pair(st, key@, value@).unwrap());
        Ok(())
    }

    /// Ends the parse: the announce, with defaults for the fields not given,
    /// and the pairs left for an extension.
    pub fn finish(self, time: u64) -> (r: Result<(AnnounceParams, ExtensionParams), Error>)
        ensures
            match missing_error(self.state()) {
                Some(e) => r == Err::<(AnnounceParams, ExtensionParams), Error>(e),
                None => r is Ok && finished(self.state(), self.remote(), time, r.unwrap().0)
                    && params_view(r.unwrap().1) == self.state().extra,
            },
    {
        let port = match self.port {
            Some(p) => p,
            None => return Err(Error::InvalidPort),
        };
        let info_hash = match self.info_hash {
            Some(h) => h,
            None => return Err(Error::InvalidInfoHash),
        };
        let peer_id = match self.peer_id {
            Some(h) => h,
            None => return Err(Error::InvalidPeerId),
        };
        let a = AnnounceParams {
            info_hash,
            peer_id,
            port,
            remote_ip: self.remote_ip,
            unsafe_ip: self.unsafe_ip,
            uploaded: match self.uploaded {
                Some(v) => v,
                None => 0,
            },
            downloaded: match self.downloaded {
                Some(v) => v,
                None => 0,
            },
            left: match self.left {
                Some(v) => v,
                None => i64::MAX,
            },
            event: match self.event {
                Some(e) => e,
                None => Event::Empty,
            },
            num_want: match self.num_want {
                Some(n) => n,
                None => -1,
            },
            key: self.key,
            time,
        };
        Ok((a, self.extra))
    }
}

/// Parses a byte counter: a signed 64-bit decimal.
fn parse_counter(v: &[u8]) -> (r: Result<i64, Error>)
    ensures
        match spec_counter(v@) {
            Some(n) => r == Ok::<i64, Error>(n as i64),
            None => r == Err::<i64, Error>(Error::InvalidParams),
        },
{
    match parse_integer(v, true, -0x8000_0000_0000_0000, 0x7fff_ffff_ffff_ffff) {
        Some(n) => Ok(n as i64),
        None => Err(Error::InvalidParams),
    }
}

/// Parses an announce query string: its pairs, decoded, go through the
/// parser in order; the first error ends the parse.
pub fn parse_announce_query(query: Vec<u8>, remote_ip: IpAddress, time: u64) -> (r: Result<(AnnounceParams, ExtensionParams), Error>)
    ensures
        match apply_pairs(initial_state(), query_pairs(query@, 0)) {
            Err(e) => r == Err::<(AnnounceParams, ExtensionParams), Error>(e),
            Ok(st) => match missing_error(st) {
                Some(e) => r == Err::<(AnnounceParams, ExtensionParams), Error>(e),
                None => r is Ok && finished(st, remote_ip, time, r.unwrap().0) && params_view(
                    r.unwrap().1,
                ) == st.extra,
            },
        },
{
    let ghost all = query_pairs(query@, 0);
    let mut q = QueryParser::new(query);
    let mut p = ParseAnnounceParams::new(remote_ip);
    let ghost mut done: int = 0;
    loop
        invariant_except_break
            q.wf(),
            0 <= done <= all.len(),
            q.remaining() == all.skip(done),
            apply_pairs(initial_state(), all) == apply_pairs(p.state(), all.skip(done)),
        invariant
            p.remote() == remote_ip,
            all == query_pairs(query@, 0),
        ensures
            apply_pairs(initial_state(), all) == Ok::<ParamsState, Error>(p.state()),
        decreases q.input().len() - q.pos(),
    {
        let ghost rest = all.skip(done);
        match q.next() {
            Some((k, v)) => {
                let ghost pst = p.state();
                proof {
                    assert(rest[0] == (k@, v@));
                    assert(rest.skip(1) =~= all.skip(done + 1));
                    done = done + 1;
                    assert(q.remaining() == all.skip(done));
                }
                let res = p.parse(k.as_slice(), v.as_slice());
                if let Err(e) = res {
                    assert(apply_pair(pst, k@, v@) == Err::<ParamsState, Error>(e));
                    assert(apply_pairs(pst, rest) == Err::<ParamsState, Error>(e));
                    assert(apply_pairs(initial_state(), all) == Err::<ParamsState, Error>(e));
                    return Err(e);
                }
                assert(apply_pairs(pst, rest) == apply_pairs(p.state(), rest.skip(1)));
            },
            None => {
                assert(rest =~= Seq::<(Seq<u8>, Seq<u8>)>::empty());
                assert(apply_pairs(p.state(), rest) == Ok::<ParamsState, Error>(p.state()));
                break;
            },
        }
    }
    p.finish(time)
}

} // verus!
