//! Encodes the address in the bridge's address slot as a printable SafeKey URL and
//! writes it to the encoded-address slot.

use vstd::prelude::*;
use crate::bridge::{Bridge, NAME_SIZE, URL_SIZE};

verus! {

/// The base32z SafeKey URL of a 32-byte address, or `None` where the encoder
/// reports an error.
pub uninterp spec fn safekey_url_of(name: Seq<u8>) -> Option<Seq<u8>>;

/// Relies on sn_url's `SafeUrl::encode_safekey` with `XorUrlBase::Base32z`: the URL
/// of the address, as bytes, or its error.
#[verifier::external_body]
fn encode_safekey(name: &[u8]) -> (r: Option<Vec<u8>>)
    requires
        name@.len() == NAME_SIZE,
    ensures
        match r {
            Some(u) => safekey_url_of(name@) == Some(u@),
            None => safekey_url_of(name@) is None,
        },
{
    let mut bytes = [0u8; 32];
    bytes.copy_from_slice(name);
    let encoded = sn_url::SafeUrl::encode_safekey(xor_name::XorName(bytes), sn_url::XorUrlBase::Base32z);
    encoded.ok().map(|s| s.into_bytes())
}

/// The URL that ends up in the encoded-address slot for the address `name`: the
/// encoder's result where there is one and it fits the slot.
pub open spec fn safeurl_result(name: Seq<u8>) -> Option<Seq<u8>> {
    match safekey_url_of(name) {
        Some(u) => if u.len() <= URL_SIZE {
            Some(u)
        } else {
            None
        },
        None => None,
    }
}

/// `after` is `before` with `url` written at the start of the encoded-address slot.
pub open spec fn url_written(before: Bridge, after: Bridge, url: Seq<u8>) -> bool {
    &&& after == (Bridge { safeurl: after.safeurl, ..before })
    &&& after.safeurl@ == url + before.safeurl@.subrange(url.len() as int, URL_SIZE as int)
}

/// Writes `url` to the encoded-address slot and returns its length, or returns
/// `None` and changes nothing where it is longer than the slot.
pub fn write_safeurl(bridge: &mut Bridge, url: &[u8]) -> (r: Option<usize>)
    requires
        old(bridge).wf(),
    ensures
        final(bridge).wf(),
        url@.len() <= URL_SIZE ==> r == Some(url@.len() as usize) && url_written(*old(bridge), *final(bridge), url@),
        url@.len() > URL_SIZE ==> r is None && *final(bridge) == *old(bridge),
{
    let url_len = url.len();
    if url_len > URL_SIZE {
        return None;
    }
    let ghost s0 = bridge.safeurl@;
    let ghost b0 = *bridge;
    let mut i: usize = 0;
    while i < url_len
        invariant
            bridge.wf(),
            *bridge == (Bridge { safeurl: bridge.safeurl, ..b0 }),
            s0.len() == URL_SIZE,
            url_len == url@.len() <= URL_SIZE,
            i <= url_len,
            bridge.safeurl@ == url@.subrange(0, i as int) + s0.subrange(i as int, URL_SIZE as int),
        decreases url_len - i,
    {
        bridge.safeurl[i] = url[i];
        i = i + 1;
        assert(bridge.safeurl@ =~= url@.subrange(0, i as int) + s0.subrange(i as int, URL_SIZE as int));
    }
    assert(url@.subrange(0, i as int) =~= url@);
    Some(url_len)
}

/// Encodes the address in the address slot and writes the URL to the encoded-address
/// slot, returning its length; `None`, with nothing changed, where the encoder fails
/// or the URL does not fit the slot.
pub fn xorname_to_safeurl(bridge: &mut Bridge) -> (r: Option<usize>)
    requires
        old(bridge).wf(),
    ensures
        final(bridge).wf(),
        match safeurl_result(old(bridge).xorname@) {
            Some(u) => r == Some(u.len() as usize) && url_written(*old(bridge), *final(bridge), u),
            None => r is None && *final(bridge) == *old(bridge),
        },
{
    match encode_safekey(bridge.xorname.as_slice()) {
        Some(url) => write_safeurl(bridge, url.as_slice()),
        None => None,
    }
}

/// The encoded address is a function of the address alone: two calls on the same
/// address report the same URL and length.
pub proof fn lemma_safeurl_deterministic(first: Bridge, second: Bridge)
    requires
        first.xorname@ == second.xorname@,
    ensures
        safeurl_result(first.xorname@) == safeurl_result(second.xorname@),
{
}

} // verus!
