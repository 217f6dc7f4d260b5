//! A tracker extension that serves only torrents whose info hash is signed
//! with a configured Ed25519 key: the announce carries the signature in a
//! query parameter, base64url-encoded.
use vstd::prelude::*;

use ring::signature::VerificationAlgorithm;

use crate::addr::bytes_eq;
use crate::announce::AnnounceParams;
use crate::error::Error;
use crate::swarm::Peer;
use crate::tracker::{params_view, ExtensionParams, TrackerExtension};

verus! {

/// The length of a base64url-encoded Ed25519 signature, without padding.
pub const SIGNATURE_TEXT_LEN: usize = 86;

/// The length of an Ed25519 signature.
pub const SIGNATURE_LEN: usize = 64;

/// What base64url decoding without padding makes of `s`, if it is valid.
pub uninterp spec fn base64_url_decoded(s: Seq<u8>) -> Option<Seq<u8>>;

/// Whether `signature` is a valid Ed25519 signature of `message` under
/// `public_key`.
pub uninterp spec fn ed25519_signature_valid(public_key: Seq<u8>, message: Seq<u8>, signature: Seq<u8>) -> bool;

/// Relies on base64's `decode_config` with `URL_SAFE_NO_PAD`: the decoded
/// bytes, which depend on the input alone, or `None` where the input is not
/// valid base64url.
#[verifier::external_body]
fn decode_base64_url(s: &[u8]) -> (r: Option<Vec<u8>>)
    requires
        s@.len() <= SIGNATURE_TEXT_LEN,
    ensures
        match r {
            Some(v) => base64_url_decoded(s@) == Some(v@),
            None => base64_url_decoded(s@) is None,
        },
{
    base64::decode_config(s, base64::URL_SAFE_NO_PAD).ok()
}

/// Relies on ring's `ED25519` `VerificationAlgorithm::verify`: whether the
/// signature checks out, which depends on the three inputs alone.
#[verifier::external_body]
fn ed25519_verify(public_key: &[u8], message: &[u8], signature: &[u8]) -> (r: bool)
    ensures
        r == ed25519_signature_valid(public_key@, message@, signature@),
{
    ring::signature::ED25519.verify(
        untrusted::Input::from(public_key),
        untrusted::Input::from(message),
        untrusted::Input::from(signature),
    ).is_ok()
}

/// The signature that the parameter `name` carries among `params`: none if
/// it is absent, `InvalidParams` if it is given twice or is not a
/// base64url-encoded 64-byte signature.
pub open spec fn signature_param(params: Seq<(Seq<u8>, Seq<u8>)>, name: Seq<u8>) -> Result<Option<Seq<u8>>, Error>
    decreases params.len(),
{
    if params.len() == 0 {
        Ok(None)
    } else {
        let rest = signature_param(params.drop_last(), name);
        let (k, v) = params.last();
        if k != name {
            rest
        } else {
            let sig = base64_url_decoded(v);
            match rest {
                Err(e) => Err(e),
                Ok(Some(_)) => Err(Error::InvalidParams),
                Ok(None) => if v.len() == SIGNATURE_TEXT_LEN && sig is Some && sig.unwrap().len()
                    == SIGNATURE_LEN {
                    Ok(sig)
                } else {
                    Err(Error::InvalidParams)
                },
            }
        }
    }
}

pub proof fn lemma_signature_error_sticks(s: Seq<(Seq<u8>, Seq<u8>)>, name: Seq<u8>, j: int)
    requires
        0 <= j <= s.len(),
        signature_param(s.subrange(0, j), name) is Err,
    ensures
        signature_param(s, name) == signature_param(s.subrange(0, j), name),
    decreases s.len(),
{
    if j == s.len() {
        assert(s.subrange(0, j) =~= s);
    } else {
        assert(s.drop_last().subrange(0, j) =~= s.subrange(0, j));
        lemma_signature_error_sticks(s.drop_last(), name, j);
    }
}

/// The key that signs the torrents, and the parameter that carries the
/// signatures.
pub struct Ed25519Config {
    pub param_name: Vec<u8>,
    pub public_key: [u8; 32],
}

/// The extension: without a configuration it accepts every announce.
pub struct Ed25519 {
    pub config: Option<Ed25519Config>,
}

impl Ed25519 {
    pub fn new(config: Option<Ed25519Config>) -> (r: Self)
        ensures
            r.config == config,
    {
        Ed25519 { config }
    }
}

/// The signature that the parameter `name` carries among `params`.
pub fn find_signature(params: &ExtensionParams, name: &[u8]) -> (r: Result<Option<Vec<u8>>, Error>)
    ensures
        match signature_param(params_view(*params), name@) {
            Ok(Some(sig)) => r is Ok && r.unwrap() is Some && r.unwrap().unwrap()@ == sig,
            Ok(None) => r is Ok && r.unwrap() is None,
            Err(e) => r == Err::<Option<Vec<u8>>, Error>(e),
        },
{
    let ghost all = params_view(*params);
    let mut found: Option<Vec<u8>> = None;
    let mut i: usize = 0;
    while i < params.len()
        invariant
            i <= params@.len(),
            all == params_view(*params),
            match signature_param(all.subrange(0, i as int), name@) {
                Ok(Some(sig)) => found is Some && found.unwrap()@ == sig,
                Ok(None) => found is None,
                Err(_) => false,
            },
        decreases params@.len() - i,
    {
        proof {
            assert(all.subrange(0, i + 1).drop_last() =~= all.subrange(0, i as int));
            assert(all.subrange(0, i + 1).last() == all[i as int]);
        }
        let (k, v) = (&params[i].0, &params[i].1);
        if bytes_eq(k.as_slice(), name) {
            if found.is_some() || v.len() != SIGNATURE_TEXT_LEN {
                proof {
                    lemma_signature_error_sticks(all, name@, i + 1);
                }
                return Err(Error::InvalidParams);
            }
            match decode_base64_url(v.as_slice()) {
                Some(sig) => {
                    if sig.len() != SIGNATURE_LEN {
                        proof {
                            lemma_signature_error_sticks(all, name@, i + 1);
                        }
                        return Err(Error::InvalidParams);
                    }
                    found = Some(sig);
                },
                None => {
                    proof {
                        lemma_signature_error_sticks(all, name@, i + 1);
                    }
                    return Err(Error::InvalidParams);
                },
            }
        }
        i = i + 1;
    }
    assert(all.subrange(0, i as int) =~= all);
    Ok(found)
}

impl TrackerExtension for Ed25519 {
    open spec fn spec_validate(&self, announce: AnnounceParams, params: Seq<(Seq<u8>, Seq<u8>)>, peer: Option<Peer>) -> Result<(), Error> {
        match self.config {
            None => Ok(()),
            Some(c) => match signature_param(params, c.param_name@) {
                Err(e) => Err(e),
                Ok(None) => Err(Error::TorrentNotFound),
                Ok(Some(sig)) => if ed25519_signature_valid(c.public_key@, announce.info_hash@, sig) {
                    Ok(())
                } else {
                    Err(Error::TorrentNotFound)
                },
            },
        }
    }

    fn validate(&self, announce: &AnnounceParams, params: &ExtensionParams, peer: Option<Peer>) -> (r: Result<(), Error>) {
        match &self.config {
            None => Ok(()),
            Some(c) => match find_signature(params, c.param_name.as_slice()) {
                Err(e) => Err(e),
                Ok(None) => Err(Error::TorrentNotFound),
                Ok(Some(sig)) => {
                    if ed25519_verify(c.public_key.as_slice(), announce.info_hash.as_slice(), sig.as_slice()) {
                        Ok(())
                    } else {
                        Err(Error::TorrentNotFound)
                    }
                },
            },
        }
    }
}

} // verus!
