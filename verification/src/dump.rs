//! Preparing raw API answers to be saved as compatibility fixtures.
use vstd::prelude::*;

use crate::text::str_eq;
use crate::xml::{extract_xml_value, xml_value};

verus! {

broadcast use vstd::string::group_string_axioms;

/// Built-in QNAP account and group names, which carry no personal information.
pub open spec fn is_generic_principal(name: Seq<char>) -> bool {
    name == "admin"@ || name == "administrators"@ || name == "everyone"@ || name.len() == 0
}

/// The owner or group name to save: built-in names as they are, any other
/// name replaced by `user`.
pub open spec fn anonymized_principal(name: Seq<char>) -> Seq<char> {
    if is_generic_principal(name) {
        name
    } else {
        "user"@
    }
}

/// Replace a personal owner or group name by `user`.
pub fn anonymize_principal(name: &str) -> (res: String)
    ensures
        res@ == anonymized_principal(name@),
{
    if str_eq(name, "admin") || str_eq(name, "administrators") || str_eq(name, "everyone")
        || name.is_empty() {
        String::from_str(name)
    } else {
        String::from_str("user")
    }
}

/// The owner and group names of one entry of a file listing; `None` where
/// the entry has no such field or its value is not a string.
#[derive(Debug, Clone)]
pub struct FileOwners {
    pub owner: Option<String>,
    pub group: Option<String>,
}

/// A name field as saved: a string is anonymized, anything else kept.
pub open spec fn anonymized_field(name: Option<Seq<char>>) -> Option<Seq<char>> {
    match name {
        Some(n) => Some(anonymized_principal(n)),
        None => None,
    }
}

/// Anonymize one optional name field.
fn anonymize_field(name: &Option<String>) -> (res: Option<String>)
    ensures
        res.deep_view() == anonymized_field(name.deep_view()),
{
    match name {
        Some(n) => Some(anonymize_principal(n.as_str())),
        None => None,
    }
}

/// The entries of a file listing with every personal owner and group name
/// replaced by `user`; built-in names and absent fields are kept.
pub fn anonymize_owners(entries: &Vec<FileOwners>) -> (res: Vec<FileOwners>)
    ensures
        res.len() == entries.len(),
        forall|i: int|
            #![trigger res[i]]
            0 <= i < entries.len() ==> res[i].owner.deep_view() == anonymized_field(
                entries[i].owner.deep_view(),
            ) && res[i].group.deep_view() == anonymized_field(entries[i].group.deep_view()),
{
    let mut res: Vec<FileOwners> = Vec::new();
    let mut k: usize = 0;
    while k < entries.len()
        invariant
            k <= entries.len(),
            res.len() == k,
            forall|i: int|
                #![trigger res[i]]
                0 <= i < k ==> res[i].owner.deep_view() == anonymized_field(
                    entries[i].owner.deep_view(),
                ) && res[i].group.deep_view() == anonymized_field(entries[i].group.deep_view()),
        decreases entries.len() - k,
    {
        let e = &entries[k];
        let owner = anonymize_field(&e.owner);
        let group = anonymize_field(&e.group);
        res.push(FileOwners { owner, group });
        k = k + 1;
    }
    res
}

/// What `serde_json::from_str::<serde_json::Value>` makes of a text: the
/// JSON value it holds, or nothing when it is not JSON.
pub uninterp spec fn json_parsed(text: Seq<char>) -> Option<serde_json::Value>;

/// The compact text that `serde_json::to_string` writes for a value.
pub uninterp spec fn json_text(v: serde_json::Value) -> Seq<char>;

/// For each element of the value's `datas` array, in order, its `owner`
/// and `group` strings (`None` where the field is absent or not a string);
/// empty when the value has no `datas` array.
pub uninterp spec fn json_owner_entries(v: serde_json::Value) -> Seq<
    (Option<Seq<char>>, Option<Seq<char>>),
>;

/// The two values differ at most in the `owner` and `group` strings of the
/// elements of their `datas` arrays.
pub uninterp spec fn json_same_but_owner_names(a: serde_json::Value, b: serde_json::Value) -> bool;

/// The `id` string of the first element of the value, when the value is an
/// array whose first element has one.
pub uninterp spec fn json_first_id(v: serde_json::Value) -> Option<Seq<char>>;

/// The owner and group names of file-listing entries, as plain text.
pub open spec fn owner_pairs(entries: Seq<FileOwners>) -> Seq<(Option<Seq<char>>, Option<Seq<char>>)> {
    entries.map_values(|e: FileOwners| (e.owner.deep_view(), e.group.deep_view()))
}

/// Owner and group names as saved: strings anonymized, the rest kept.
pub open spec fn anonymized_pairs(entries: Seq<(Option<Seq<char>>, Option<Seq<char>>)>) -> Seq<
    (Option<Seq<char>>, Option<Seq<char>>),
> {
    entries.map_values(
        |e: (Option<Seq<char>>, Option<Seq<char>>)| (anonymized_field(e.0), anonymized_field(e.1)),
    )
}

/// Calls `serde_json::from_str::<serde_json::Value>`; an error reads as `None`.
#[verifier::external_body]
fn json_parse(text: &str) -> (res: Option<serde_json::Value>)
    ensures
        res == json_parsed(text@),
{
    serde_json::from_str::<serde_json::Value>(text).ok()
}

/// Calls `serde_json::to_string` on a value; an error reads as `None`.
#[verifier::external_body]
fn json_to_text(v: &serde_json::Value) -> (res: Option<String>)
    ensures
        res matches Some(t) ==> t@ == json_text(*v),
{
    serde_json::to_string(v).ok()
}

/// Reads, through `serde_json::Value::get`, `as_array` and `as_str`, the
/// `owner` and `group` strings of the elements of the value's `datas` array.
#[verifier::external_body]
fn json_owner_names(v: &serde_json::Value) -> (res: Vec<FileOwners>)
    ensures
        res.len() == json_owner_entries(*v).len(),
        forall|i: int|
            0 <= i < res.len() ==> (#[trigger] res[i].owner.deep_view(), res[i].group.deep_view())
                == json_owner_entries(*v)[i],
{
    let mut res = Vec::new();
    if let Some(items) = v.get("datas").and_then(serde_json::Value::as_array) {
        for e in items {
            let owner = e.get("owner").and_then(serde_json::Value::as_str).map(String::from);
            let group = e.get("group").and_then(serde_json::Value::as_str).map(String::from);
            res.push(FileOwners { owner, group });
        }
    }
    res
}

/// Writes, through `serde_json::Value::get_mut`, `as_array_mut`,
/// `as_object_mut` and `serde_json::Map::insert`, new `owner` and `group`
/// strings into the elements of the value's `datas` array, where the
/// element holds a string there already.
#[verifier::external_body]
fn json_set_owner_names(v: &mut serde_json::Value, names: &Vec<FileOwners>)
    requires
        names.len() == json_owner_entries(*old(v)).len(),
        forall|i: int|
            0 <= i < names.len() ==> (#[trigger] names[i].owner is Some <==> json_owner_entries(
                *old(v),
            )[i].0 is Some) && (names[i].group is Some <==> json_owner_entries(*old(v))[i].1 is Some),
    ensures
        json_owner_entries(*final(v)) == owner_pairs(names@),
        json_same_but_owner_names(*final(v), *old(v)),
{
    if let Some(items) = v.get_mut("datas").and_then(serde_json::Value::as_array_mut) {
        for (e, n) in items.iter_mut().zip(names.iter()) {
            if let (Some(obj), Some(o)) = (e.as_object_mut(), &n.owner) {
                obj.insert("owner".to_string(), serde_json::Value::String(o.clone()));
            }
            if let (Some(obj), Some(g)) = (e.as_object_mut(), &n.group) {
                obj.insert("group".to_string(), serde_json::Value::String(g.clone()));
            }
        }
    }
}

/// Reads, through `serde_json::Value::as_array`, `get` and `as_str`, the
/// `id` string of the value's first element.
#[verifier::external_body]
fn json_first_id_of(v: &serde_json::Value) -> (res: Option<String>)
    ensures
        res.deep_view() == json_first_id(*v),
{
    match v.get(0) {
        Some(e) => e.get("id").and_then(serde_json::Value::as_str).map(String::from),
        None => None,
    }
}

/// Replace non-generic owner and group names in a file-list JSON answer.
///
/// A body that is not JSON comes back as it is. Otherwise the answer is
/// written anew from a value that differs from the body's only in the
/// `owner` and `group` strings of its `datas` elements, each of which is
/// anonymized; should writing fail, the body comes back as it is.
pub fn anonymize_json_owners(body: &str) -> (res: String)
    ensures
        json_parsed(body@) is None ==> res@ == body@,
        json_parsed(body@) matches Some(v) ==> (res@ == body@ || exists|w: serde_json::Value|
            json_same_but_owner_names(w, v) && json_owner_entries(w) == anonymized_pairs(
                json_owner_entries(v),
            ) && res@ == json_text(w)),
{
    match json_parse(body) {
        None => String::from_str(body),
        Some(mut v) => {
            let ghost v0 = v;
            let names = json_owner_names(&v);
            let scrubbed = anonymize_owners(&names);
            proof {
                assert forall|i: int| 0 <= i < scrubbed.len() implies (
                #[trigger] scrubbed[i].owner is Some <==> json_owner_entries(v0)[i].0 is Some) && (
                scrubbed[i].group is Some <==> json_owner_entries(v0)[i].1 is Some) by {
                    assert((names[i].owner.deep_view(), names[i].group.deep_view())
                        == json_owner_entries(v0)[i]);
                }
            }
            json_set_owner_names(&mut v, &scrubbed);
            proof {
                assert(owner_pairs(scrubbed@) =~= anonymized_pairs(json_owner_entries(v0))) by {
                    assert forall|i: int| 0 <= i < scrubbed.len() implies #[trigger] owner_pairs(
                        scrubbed@,
                    )[i] == anonymized_pairs(json_owner_entries(v0))[i] by {
                        assert((names[i].owner.deep_view(), names[i].group.deep_view())
                            == json_owner_entries(v0)[i]);
                        assert(scrubbed[i].owner.deep_view() == anonymized_field(
                            names[i].owner.deep_view(),
                        ));
                    }
                }
            }
            match json_to_text(&v) {
                Some(t) => t,
                None => String::from_str(body),
            }
        },
    }
}

/// The id of the first share of a share-tree answer, when it is a JSON
/// array whose first element has a string `id`.
pub fn first_share_id(shares_body: &str) -> (res: Option<String>)
    ensures
        res.deep_view() == match json_parsed(shares_body@) {
            Some(v) => json_first_id(v),
            None => None,
        },
{
    match json_parse(shares_body) {
        Some(v) => json_first_id_of(&v),
        None => None,
    }
}

/// The value of `tag`, or `unknown` when absent.
pub open spec fn value_or_unknown(body: Seq<char>, tag: Seq<char>) -> Seq<char> {
    match xml_value(body, tag) {
        Some(v) => v,
        None => "unknown"@,
    }
}

/// Model, firmware version and build of a device, for fixture metadata.
#[derive(Debug)]
pub struct DeviceIdentity {
    pub model: String,
    pub firmware: String,
    pub build: String,
}

/// The value of `tag`, or `unknown` when absent.
fn extract_or_unknown(body: &str, tag: &str) -> (res: String)
    ensures
        res@ == value_or_unknown(body@, tag@),
{
    match extract_xml_value(body, tag) {
        Some(v) => v,
        None => String::from_str("unknown"),
    }
}

impl DeviceIdentity {
    /// The identity a sysinfo document reports; absent fields read `unknown`.
    pub fn from_sysinfo(body: &str) -> (res: DeviceIdentity)
        ensures
            res.model@ == value_or_unknown(body@, "modelName"@),
            res.firmware@ == value_or_unknown(body@, "version"@),
            res.build@ == value_or_unknown(body@, "build"@),
    {
        DeviceIdentity {
            model: extract_or_unknown(body, "modelName"),
            firmware: extract_or_unknown(body, "version"),
            build: extract_or_unknown(body, "build"),
        }
    }

    /// The `meta.toml` text saved next to the fixtures.
    pub fn meta_toml(&self) -> (res: String)
        ensures
            res@ == "model = \""@ + self.model@ + "\"\nfirmware = \""@ + self.firmware@
                + "\"\nbuild = \""@ + self.build@ + "\"\n"@,
    {
        let mut s = String::from_str("model = \"");
        s.append(self.model.as_str());
        s.append("\"\nfirmware = \"");
        s.append(self.firmware.as_str());
        s.append("\"\nbuild = \"");
        s.append(self.build.as_str());
        s.append("\"\n");
        s
    }
}

/// The share whose listing is saved: the first share of the tree, or
/// `/Public` when the tree names none.
pub fn listing_share(first_share_id: Option<String>) -> (res: String)
    ensures
        res@ == match first_share_id {
            Some(id) => id@,
            None => "/Public"@,
        },
{
    match first_share_id {
        Some(id) => id,
        None => String::from_str("/Public"),
    }
}

} // verus!
