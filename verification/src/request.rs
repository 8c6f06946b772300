//! The parsed request and its lookup facade: case-insensitive header
//! access and client-IP resolution.

use vstd::prelude::*;
use crate::headers::Entry;
use crate::headers::HeaderMap;
use crate::headers::first_ci;
use crate::headers::first_exact;

verus! {

/// One parsed HTTP request.  The live connection itself stays with
/// the caller; only its peer address, the one thing the lookup logic
/// reads from it, is carried here.
#[derive(Debug)]
pub struct Request {
    pub method: String,
    pub path: String,
    pub version: String,
    pub headers: HeaderMap,
    pub body: Vec<u8>,
    /// The address of the TCP peer the request arrived from.
    pub peer_addr: String,
}

/// The views of a list of header names.
pub open spec fn views_of(ss: Seq<&str>) -> Seq<Seq<char>> {
    Seq::new(ss.len(), |i: int| ss[i]@)
}

/// The value of the first name in `keys` stored in `es` exactly, if any.
pub open spec fn first_from_list(es: Seq<Entry>, keys: Seq<Seq<char>>) -> Option<Seq<char>>
    decreases keys.len(),
{
    if keys.len() == 0 {
        None
    } else {
        match first_exact(es, keys[0]) {
            Some(v) => Some(v),
            None => first_from_list(es, keys.skip(1)),
        }
    }
}

/// The built-in trust order once no caller-supplied name matched: the
/// CDN header, then the generic real-IP header, then the TCP peer.
pub open spec fn spec_fallback_ip(es: Seq<Entry>, peer: Seq<char>) -> Seq<char> {
    match first_ci(es, "cf-connecting-ip"@) {
        Some(v) => v,
        None => match first_ci(es, "X-Real-IP"@) {
            Some(v) => v,
            None => peer,
        },
    }
}

/// The whole trust policy: a caller-supplied name wins over the
/// built-in order, which wins over the peer address.
pub open spec fn spec_real_ip(es: Seq<Entry>, keys: Option<Seq<Seq<char>>>, peer: Seq<char>) -> Seq<
    char,
> {
    match keys {
        Some(ks) => match first_from_list(es, ks) {
            Some(v) => v,
            None => spec_fallback_ip(es, peer),
        },
        None => spec_fallback_ip(es, peer),
    }
}

impl Request {
    /// Look a header up by name, ignoring ASCII case: the value of the
    /// first entry whose key matches, or nothing.
    pub fn get_header(&self, key: &str) -> (r: Option<String>)
        ensures
            match r {
                Some(v) => first_ci(self.headers@, key@) == Some(v@),
                None => first_ci(self.headers@, key@) is None,
            },
    {
        self.headers.get_ci(key)
    }

    /// Resolve the client address: the first present name of the
    /// caller-supplied list (matched exactly), else the built-in
    /// fallback order, else the TCP peer address.
    pub fn get_real_ip(&self, headers: Option<Vec<&str>>) -> (r: String)
        ensures
            r@ == spec_real_ip(
                self.headers@,
                match headers {
                    Some(ks) => Some(views_of(ks@)),
                    None => None,
                },
                self.peer_addr@,
            ),
    {
        if let Some(list) = headers {
            let ghost ks = views_of(list@);
            proof {
                assert(ks.skip(0) =~= ks);
            }
            let n = list.len();
            for i in 0..n
                invariant
                    n == list@.len(),
                    headers == Some(list),
                    ks == views_of(list@),
                    first_from_list(self.headers@, ks) == first_from_list(
                        self.headers@,
                        ks.skip(i as int),
                    ),
            {
                proof {
                    assert(ks.skip(i as int)[0] == ks[i as int]);
                    assert(ks.skip(i as int).skip(1) =~= ks.skip(i + 1));
                }
                let key = list[i];
                proof {
                    assert(key@ == ks[i as int]);
                }
                if let Some(v) = self.headers.get(key) {
                    proof {
                        assert(first_from_list(self.headers@, ks.skip(i as int)) == Some(v@));
                        assert(first_from_list(self.headers@, ks) == Some(v@));
                    }
                    return v;
                }
            }
            proof {
                assert(ks.skip(n as int) =~= Seq::<Seq<char>>::empty());
            }
            self.fallback_ip()
        } else {
            self.fallback_ip()
        }
    }

    /// The built-in order alone: CDN header, generic real-IP header,
    /// TCP peer address.
    fn fallback_ip(&self) -> (r: String)
        ensures
            r@ == spec_fallback_ip(self.headers@, self.peer_addr@),
    {
        if let Some(v) = self.headers.get_ci("cf-connecting-ip") {
            return v;
        }
        if let Some(v) = self.headers.get_ci("X-Real-IP") {
            return v;
        }
        self.peer_addr.clone()
    }
}

/// A caller-supplied header list wins: when its first present name
/// carries a value, that value is the resolved address, whatever the
/// built-in fallback headers hold.
pub proof fn lemma_caller_list_wins(
    es: Seq<Entry>,
    keys: Seq<Seq<char>>,
    peer: Seq<char>,
    v: Seq<char>,
)
    requires
        first_from_list(es, keys) == Some(v),
    ensures
        spec_real_ip(es, Some(keys), peer) == v,
{
}

/// With no caller-supplied list and neither fallback header present,
/// resolution lands on the TCP peer address.
pub proof fn lemma_peer_fallback(es: Seq<Entry>, peer: Seq<char>)
    requires
        first_ci(es, "cf-connecting-ip"@) is None,
        first_ci(es, "X-Real-IP"@) is None,
    ensures
        spec_real_ip(es, None, peer) == peer,
{
}

} // verus!
