//! What a node makes of a service that discovery on the local network
//! has found.

use vstd::prelude::*;
use vstd::utf8::decode_utf8;
use vstd::utf8::valid_utf8;

use crate::crypto::format_uuid;
use crate::crypto::parse_uuid;
use crate::crypto::string_from_utf8;
use crate::crypto::uuid_parse;
use crate::crypto::uuid_text;
use crate::glob::contains_text;
use crate::glob::find_text;
use crate::size::chars_of;

verus! {

/// The position of the first address of version 4 in a list that says of
/// each address whether it is one; the first position where none is.
pub open spec fn preferred_address(is_v4: Seq<bool>) -> int
    decreases is_v4.len(),
{
    if is_v4.len() == 0 || is_v4[0] {
        0
    } else if exists|i: int| 0 <= i < is_v4.len() && is_v4[i] {
        1 + preferred_address(is_v4.drop_first())
    } else {
        0
    }
}

/// Whether a service that was found is a peer to connect to. It is none
/// where it is this node's own announcement, which carries this node's id
/// in its name; where it states no id, or an id that is no UUID; or where
/// it has no address.
pub open spec fn is_peer(
    own_id: u128,
    fullname: Seq<char>,
    id_property: Option<Option<Seq<u8>>>,
    is_v4: Seq<bool>,
) -> bool {
    &&& !contains_text(fullname, uuid_text(own_id))
    &&& id_property.is_some()
    &&& id_property.unwrap().is_some()
    &&& valid_utf8(id_property.unwrap().unwrap())
    &&& uuid_parse(decode_utf8(id_property.unwrap().unwrap())).is_some()
    &&& is_v4.len() > 0
}

/// The peer that a service that was found stands for: its id, and the
/// position of the address to dial, an address of version 4 where it has
/// one. Nothing where the service is no peer.
#[verifier::loop_isolation(false)]
pub fn discovered_peer(
    own_id: u128,
    fullname: &str,
    id_property: Option<Option<Vec<u8>>>,
    is_v4: &Vec<bool>,
) -> (r: Option<(u128, usize)>)
    ensures
        r.is_some() == is_peer(own_id, fullname@, property_view(id_property), is_v4@),
        r.is_some() ==> ({
            &&& Some(r.unwrap().0) == uuid_parse(decode_utf8(id_property.unwrap().unwrap()@))
            &&& r.unwrap().1 == preferred_address(is_v4@)
            &&& r.unwrap().1 < is_v4@.len()
        }),
{
    let own = format_uuid(own_id);
    if find_text(&chars_of(fullname), &chars_of(own.as_str())) {
        return None;
    }
    let bytes = match id_property {
        Some(Some(b)) => b,
        _ => {
            return None;
        },
    };
    let text = match string_from_utf8(bytes) {
        Some(t) => t,
        None => {
            return None;
        },
    };
    let id = match parse_uuid(text.as_str()) {
        Some(id) => id,
        None => {
            return None;
        },
    };
    if is_v4.len() == 0 {
        return None;
    }
    let mut i: usize = 0;
    while i < is_v4.len()
        invariant
            i <= is_v4@.len(),
            is_v4@.len() > 0,
            forall|j: int| 0 <= j < i ==> !is_v4@[j],
        decreases is_v4@.len() - i,
    {
        if is_v4[i] {
            proof {
                lemma_preferred_found(is_v4@, i as int);
            }
            return Some((id, i));
        }
        i = i + 1;
    }
    proof {
        lemma_preferred_none(is_v4@);
    }
    Some((id, 0))
}

/// The value of a property as bytes.
pub open spec fn property_view(p: Option<Option<Vec<u8>>>) -> Option<Option<Seq<u8>>> {
    match p {
        Some(Some(b)) => Some(Some(b@)),
        Some(None) => Some(None),
        None => None,
    }
}

proof fn lemma_preferred_found(is_v4: Seq<bool>, i: int)
    requires
        0 <= i < is_v4.len(),
        is_v4[i],
        forall|j: int| 0 <= j < i ==> !is_v4[j],
    ensures
        preferred_address(is_v4) == i,
    decreases i,
{
    if i > 0 {
        let rest = is_v4.drop_first();
        assert(rest[i - 1] == is_v4[i]);
        assert forall|j: int| 0 <= j < i - 1 implies !rest[j] by {
            assert(rest[j] == is_v4[j + 1]);
        }
        lemma_preferred_found(rest, i - 1);
    }
}

proof fn lemma_preferred_none(is_v4: Seq<bool>)
    requires
        forall|j: int| 0 <= j < is_v4.len() ==> !is_v4[j],
    ensures
        preferred_address(is_v4) == 0,
{
}

} // verus!
