//! The prefix sweep: reads the kernel's JSON listings of namespaces and links
//! and picks out, for deletion, every one this playground's prefix names.
use vstd::prelude::*;

use crate::kernel::{opt_view, verbs, Action, Verb};
use crate::text::starts_with;

verus! {

#[verifier::external_type_specification]
#[verifier::external_body]
pub struct ExJsonError(serde_json::Error);

/// For a JSON text that is an array of objects: the `key` field of each
/// object where that field is a string.
pub uninterp spec fn listed_names(json: Seq<u8>, key: Seq<char>) -> Option<Seq<Option<Seq<char>>>>;

/// The views of a sequence of optional strings.
pub open spec fn opt_texts(v: Seq<Option<String>>) -> Seq<Option<Seq<char>>> {
    v.map_values(|o: Option<String>| opt_view(o))
}

/// Relies on `serde_json::from_slice`: reads an array of JSON objects, or
/// fails; of each object it keeps the `key` field where that is a string.
#[verifier::external_body]
fn read_listing(json: &[u8], key: &str) -> (r: Result<Vec<Option<String>>, serde_json::Error>)
    ensures
        r is Ok <==> listed_names(json@, key@) is Some,
        r is Ok ==> listed_names(json@, key@) == Some(opt_texts(r->Ok_0@)),
{
    serde_json::from_slice::<Vec<serde_json::Map<String, serde_json::Value>>>(json).map(
        |objects| objects.iter().map(|o| o.get(key).and_then(|v| v.as_str()).map(|s| s.to_string())).collect(),
    )
}

/// Why a listing could not be read.
#[derive(Debug, Clone, Copy, PartialEq, Eq)]
pub enum ListingError {
    /// The listing is not a JSON array of objects.
    Malformed,
}

/// The deletions a sweep makes: for each listed name that starts with
/// `prefix`, in order, delete that namespace (`namespaces`) or link.
pub open spec fn sweep(names: Seq<Option<Seq<char>>>, prefix: Seq<char>, namespaces: bool) -> Seq<Verb>
    decreases names.len(),
{
    if names.len() == 0 {
        seq![]
    } else {
        let rest = sweep(names.drop_last(), prefix, namespaces);
        match names.last() {
            Some(n) => if prefix.is_prefix_of(n) {
                rest.push(if namespaces { Verb::DelNamespace { ns: n } } else { Verb::DelLink { name: n } })
            } else {
                rest
            },
            None => rest,
        }
    }
}

fn sweep_listing(listing: &[u8], key: &str, prefix: &str, namespaces: bool) -> (r: Result<Vec<Action>, ListingError>)
    ensures
        r is Ok <==> listed_names(listing@, key@) is Some,
        r is Ok ==> verbs(r->Ok_0@) == sweep(listed_names(listing@, key@)->0, prefix@, namespaces),
{
    let names = match read_listing(listing, key) {
        Ok(n) => n,
        Err(_) => {
            return Err(ListingError::Malformed);
        },
    };
    let ghost all = opt_texts(names@);
    let mut out: Vec<Action> = Vec::new();
    let mut i: usize = 0;
    while i < names.len()
        invariant
            i <= names@.len(),
            all == opt_texts(names@),
            verbs(out@) == sweep(all.take(i as int), prefix@, namespaces),
        decreases names@.len() - i,
    {
        assert(all.take(i as int + 1).drop_last() =~= all.take(i as int));
        assert(all.take(i as int + 1).last() == opt_view(names@[i as int]));
        match &names[i] {
            Some(n) => {
                if starts_with(n.as_str(), prefix) {
                    let a = if namespaces {
                        Action::DelNamespace { ns: n.clone() }
                    } else {
                        Action::DelLink { name: n.clone() }
                    };
                    let ghost before = out@;
                    out.push(a);
                    assert(verbs(out@) =~= verbs(before).push(a@));
                }
            },
            None => {},
        }
        i = i + 1;
    }
    assert(all.take(names@.len() as int) =~= all);
    Ok(out)
}

/// The command that lists the namespaces as JSON.
pub fn namespace_listing() -> (r: String)
    ensures
        r@ == "ip -json netns list"@,
{
    String::from_str("ip -json netns list")
}

/// The command that lists the bridges as JSON.
pub fn bridge_listing() -> (r: String)
    ensures
        r@ == "ip -json link show type bridge"@,
{
    String::from_str("ip -json link show type bridge")
}

/// The command that lists the veth links as JSON.
pub fn veth_listing() -> (r: String)
    ensures
        r@ == "ip -json link show type veth"@,
{
    String::from_str("ip -json link show type veth")
}

/// The namespaces of a namespace listing whose names start with `prefix`, to delete.
pub fn namespace_cleanup(listing: &[u8], prefix: &str) -> (r: Result<Vec<Action>, ListingError>)
    ensures
        r is Ok <==> listed_names(listing@, "name"@) is Some,
        r is Ok ==> verbs(r->Ok_0@) == sweep(listed_names(listing@, "name"@)->0, prefix@, true),
{
    sweep_listing(listing, "name", prefix, true)
}

/// The bridges of a bridge listing whose names start with `prefix`, to delete.
pub fn bridge_cleanup(listing: &[u8], prefix: &str) -> (r: Result<Vec<Action>, ListingError>)
    ensures
        r is Ok <==> listed_names(listing@, "ifname"@) is Some,
        r is Ok ==> verbs(r->Ok_0@) == sweep(listed_names(listing@, "ifname"@)->0, prefix@, false),
{
    sweep_listing(listing, "ifname", prefix, false)
}

/// The veth links of a veth listing whose names start with `v-<prefix>`, to delete.
pub fn veth_cleanup(listing: &[u8], prefix: &str) -> (r: Result<Vec<Action>, ListingError>)
    ensures
        r is Ok <==> listed_names(listing@, "ifname"@) is Some,
        r is Ok ==> verbs(r->Ok_0@) == sweep(listed_names(listing@, "ifname"@)->0, "v-"@ + prefix@, false),
{
    let p = String::from_str("v-").concat(prefix);
    sweep_listing(listing, "ifname", p.as_str(), false)
}

} // verus!
