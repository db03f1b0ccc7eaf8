//! Version negotiation: the catalogue of version ranges the server
//! advertised, and the version and wire mode each call uses.
use crate::api::{api_key_code, ApiKey, ApiRequest};
use crate::api_versions::{ApiVersionsItem, ApiVersionsResponse};
use crate::compose::items_model;
use crate::error::Error;
use crate::wire::Wired;
use std::collections::HashMap;
use vstd::prelude::*;

verus! {

broadcast use vstd::std_specs::hash::group_hash_axioms;

/// The common part of the client's range `c_min..=c_max` and the server's
/// range `s_min..=s_max` (versions are never negative), if any.
pub open spec fn intersect(c_min: int, c_max: int, s_min: int, s_max: int) -> Option<(int, int)> {
    let lo = if c_min >= s_min && c_min >= 0 {
        c_min
    } else if s_min >= 0 {
        s_min
    } else {
        0
    };
    let hi = if c_max <= s_max {
        c_max
    } else {
        s_max
    };
    if lo <= hi {
        Some((lo, hi))
    } else {
        None
    }
}

/// The catalogue that a list of advertised entries builds: each message
/// type's code maps to its `(min, max)`; a later entry for the same type
/// replaces an earlier one.
pub open spec fn catalogue_of(items: Seq<<ApiVersionsItem as Wired>::Model>) -> Map<i16, (i16, i16)>
    decreases items.len(),
{
    if items.len() == 0 {
        Map::empty()
    } else {
        let last = items.last();
        catalogue_of(items.drop_last()).insert(api_key_code(last.0), (last.1.0, last.1.1.0))
    }
}

/// What the server supports, per message type, on one connection.
pub struct Client {
    pub api_versions: HashMap<i16, (i16, i16)>,
}

impl Client {
    /// The version catalogue, keyed by message-type code.
    pub open spec fn catalogue(&self) -> Map<i16, (i16, i16)> {
        self.api_versions@
    }

    /// A client that knows no server versions yet.
    pub fn new() -> (r: Client)
        ensures
            r.catalogue() == Map::<i16, (i16, i16)>::empty(),
    {
        Client { api_versions: HashMap::new() }
    }

    /// Builds the catalogue from the answer to the capability query, or
    /// `None` when the answer carries a nonzero error code.
    pub fn from_versions(resp: &ApiVersionsResponse) -> (r: Option<Client>)
        ensures
            resp.error_code != 0 <==> r is None,
            r matches Some(c) ==> c.catalogue() == catalogue_of(items_model(resp.versions@)),
    {
        if resp.error_code != 0 {
            return None;
        }
        let mut c = Client::new();
        let ghost m = items_model(resp.versions@);
        let mut i: usize = 0;
        while i < resp.versions.len()
            invariant
                i <= resp.versions.len(),
                m == items_model(resp.versions@),
                c.catalogue() == catalogue_of(m.take(i as int)),
            decreases resp.versions.len() - i,
        {
            let item = &resp.versions[i];
            c.api_versions.insert(item.api_key.code(), (item.min_version, item.max_version));
            proof {
                assert(m.take(i + 1).drop_last() == m.take(i as int));
                assert(m.take(i + 1).last() == item.model());
            }
            i = i + 1;
        }
        proof {
            assert(m.take(resp.versions.len() as int) == m);
        }
        Some(c)
    }

    /// The range the server advertised for a message type, if it did.
    pub fn server_versions(&self, key: ApiKey) -> (r: Option<(i16, i16)>)
        ensures
            self.catalogue().contains_key(api_key_code(key)) ==> r == Some(
                self.catalogue()[api_key_code(key)],
            ),
            !self.catalogue().contains_key(api_key_code(key)) ==> r is None,
    {
        match self.api_versions.get(&key.code()) {
            Some(v) => Some(*v),
            None => None,
        }
    }

    /// The versions both sides support for a message type: from the larger
    /// minimum to the smaller maximum. `IncompatibleVersion` when the server
    /// did not advertise the type or the ranges do not overlap.
    pub fn version_match(&self, key: ApiKey, client: (usize, usize)) -> (r: Result<(usize, usize), Error>)
        ensures
            match self.catalogue().get(api_key_code(key)) {
                Some((s_min, s_max)) => match intersect(client.0 as int, client.1 as int, s_min as int, s_max as int) {
                    Some((lo, hi)) => r matches Ok((l, h)) && l == lo && h == hi,
                    None => r == Err::<(usize, usize), Error>(Error::IncompatibleVersion),
                },
                None => r == Err::<(usize, usize), Error>(Error::IncompatibleVersion),
            },
    {
        let (c_min, c_max) = client;
        match self.api_versions.get(&key.code()) {
            Some(range) => {
                let (s_min, s_max) = *range;
                if s_max < 0 {
                    return Err(Error::IncompatibleVersion);
                }
                let s_min: usize = if s_min < 0 {
                    0
                } else {
                    s_min as usize
                };
                let s_max = s_max as usize;
                let lo = if c_min >= s_min {
                    c_min
                } else {
                    s_min
                };
                let hi = if c_max <= s_max {
                    c_max
                } else {
                    s_max
                };
                if lo <= hi {
                    Ok((lo, hi))
                } else {
                    Err(Error::IncompatibleVersion)
                }
            },
            None => Err(Error::IncompatibleVersion),
        }
    }

    /// The version a call of `R` uses, the highest both sides support, and
    /// whether it is in compact mode (that version being at or above the
    /// message type's flexible threshold). Fails as `version_match` does,
    /// before any bytes are sent.
    pub fn negotiate<R: ApiRequest>(&self, client: (usize, usize)) -> (r: Result<(usize, bool), Error>)
        ensures
            match self.catalogue().get(api_key_code(R::key())) {
                Some((s_min, s_max)) => match intersect(client.0 as int, client.1 as int, s_min as int, s_max as int) {
                    Some((lo, hi)) => r matches Ok((v, compact)) && v == hi && compact == (hi >= R::flexible_from()),
                    None => r == Err::<(usize, bool), Error>(Error::IncompatibleVersion),
                },
                None => r == Err::<(usize, bool), Error>(Error::IncompatibleVersion),
            },
    {
        let (_, hi) = self.version_match(R::api_key(), client)?;
        Ok((hi, hi >= R::flexible_version()))
    }
}

/// Negotiation picks exactly the versions both sides support: every version
/// in the agreed range is in the client's range, in the server's, and not
/// negative, and every such version is in the agreed range; when there is
/// none, no version is supported by both.
pub proof fn lemma_negotiation(c_min: int, c_max: int, s_min: int, s_max: int, v: int)
    ensures
        intersect(c_min, c_max, s_min, s_max) matches Some((lo, hi)) ==> (lo <= v <= hi <==> (c_min
            <= v <= c_max && s_min <= v <= s_max && v >= 0)),
        intersect(c_min, c_max, s_min, s_max) is None ==> !(c_min <= v <= c_max && s_min <= v <= s_max
            && v >= 0),
{
}

} // verus!
