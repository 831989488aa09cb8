//! The decoded representation of one namespace release.

use vstd::prelude::*;
use vstd::string::StringExecFns;

use crate::json::{
    members_model, pairs_model, parse_document_chars, spec_decode_str_map, spec_parse_document,
    str_to_chars, object_of_strings, Scalar, ScalarModel,
};

verus! {

/// Why decoding a release payload failed.
#[derive(Debug, Clone, Copy, PartialEq, Eq, Structural)]
pub enum DecodeError {
    /// The payload is not one JSON object of the grammar the service uses.
    Syntax,
    /// A required field is missing or does not have the expected type.
    Shape,
    /// The `configurations` field does not hold a flat string-to-string
    /// JSON object.
    Configurations,
}

impl DecodeError {
    /// A short description of the failure, for error reporting.
    pub fn describe(&self) -> (r: String)
        ensures
            r@ == (match self {
                DecodeError::Syntax => "the payload is not a JSON object of the expected form"@,
                DecodeError::Shape => "a payload field is missing or has the wrong type"@,
                DecodeError::Configurations => "the configurations field is not a flat string map"@,
            }),
    {
        match self {
            DecodeError::Syntax => String::from_str(
                "the payload is not a JSON object of the expected form",
            ),
            DecodeError::Shape => String::from_str(
                "a payload field is missing or has the wrong type",
            ),
            DecodeError::Configurations => String::from_str(
                "the configurations field is not a flat string map",
            ),
        }
    }
}

/// One decoded release, as the mathematical model the contracts speak of.
pub struct ConfigModel {
    pub id: int,
    pub release_key: Seq<char>,
    pub name: Seq<char>,
    pub app_id: Seq<char>,
    pub cluster_name: Seq<char>,
    pub namespace_name: Seq<char>,
    pub configurations: Seq<(Seq<char>, Seq<char>)>,
    pub comment: Seq<char>,
    pub is_abandoned: bool,
    pub data_change_created_by: Seq<char>,
    pub data_change_last_modified_by: Seq<char>,
    pub data_change_created_time: Seq<char>,
    pub data_change_last_modified_time: Seq<char>,
}

/// One decoded release of a configuration namespace.
///
/// The `configurations` mapping is always flat (string keys to string
/// values), in the order the wire payload listed it; the wire format
/// delivers it as a JSON string whose contents are themselves a JSON
/// object, and decoding performs the second parse pass.  The audit fields
/// are opaque strings and are not parsed further.
#[derive(Debug, PartialEq, Eq)]
pub struct Config {
    pub id: i64,
    pub release_key: String,
    pub name: String,
    pub app_id: String,
    pub cluster_name: String,
    pub namespace_name: String,
    pub configurations: Vec<(String, String)>,
    pub comment: String,
    pub is_abandoned: bool,
    pub data_change_created_by: String,
    pub data_change_last_modified_by: String,
    pub data_change_created_time: String,
    pub data_change_last_modified_time: String,
}

impl View for Config {
    type V = ConfigModel;

    open spec fn view(&self) -> ConfigModel {
        ConfigModel {
            id: self.id as int,
            release_key: self.release_key@,
            name: self.name@,
            app_id: self.app_id@,
            cluster_name: self.cluster_name@,
            namespace_name: self.namespace_name@,
            configurations: Seq::new(
                self.configurations@.len(),
                |i: int|
                    (self.configurations@[i].0@, self.configurations@[i].1@),
            ),
            comment: self.comment@,
            is_abandoned: self.is_abandoned,
            data_change_created_by: self.data_change_created_by@,
            data_change_last_modified_by: self.data_change_last_modified_by@,
            data_change_created_time: self.data_change_created_time@,
            data_change_last_modified_time: self.data_change_last_modified_time@,
        }
    }
}

// ---------------------------------------------------------------------------
// Field extraction from a parsed payload.
// ---------------------------------------------------------------------------

/// The value of the first member with the given key, if any.
pub open spec fn spec_lookup(ms: Seq<(Seq<char>, ScalarModel)>, k: Seq<char>) -> Option<
    ScalarModel,
>
    decreases ms.len(),
{
    if ms.len() == 0 {
        None
    } else if ms[0].0 == k {
        Some(ms[0].1)
    } else {
        spec_lookup(ms.drop_first(), k)
    }
}

/// The string under a key, if the key is there and holds one.
pub open spec fn spec_field_text(ms: Seq<(Seq<char>, ScalarModel)>, k: Seq<char>) -> Option<
    Seq<char>,
> {
    match spec_lookup(ms, k) {
        Some(ScalarModel::Text(s)) => Some(s),
        _ => None,
    }
}

/// The integer under a key, if the key is there and holds one.
pub open spec fn spec_field_int(ms: Seq<(Seq<char>, ScalarModel)>, k: Seq<char>) -> Option<int> {
    match spec_lookup(ms, k) {
        Some(ScalarModel::Integer(v)) => Some(v),
        _ => None,
    }
}

/// The boolean under a key, if the key is there and holds one.
pub open spec fn spec_field_flag(ms: Seq<(Seq<char>, ScalarModel)>, k: Seq<char>) -> Option<bool> {
    match spec_lookup(ms, k) {
        Some(ScalarModel::Flag(b)) => Some(b),
        _ => None,
    }
}

fn find_text(ms: &Vec<(String, Scalar)>, k: &String) -> (r: Option<String>)
    ensures
        match r {
            Some(v) => spec_field_text(members_model(ms@), k@) == Some(v@),
            None => spec_field_text(members_model(ms@), k@) is None,
        },
{
    let ghost mm = members_model(ms@);
    proof {
        assert(mm.skip(0) =~= mm);
    }
    let mut idx: usize = 0;
    while idx < ms.len()
        invariant
            idx <= ms@.len(),
            mm == members_model(ms@),
            spec_lookup(mm, k@) == spec_lookup(mm.skip(idx as int), k@),
        decreases ms@.len() - idx,
    {
        proof {
            assert(mm.skip(idx as int)[0] == mm[idx as int]);
        }
        if ms[idx].0 == *k {
            match &ms[idx].1 {
                Scalar::Text(t) => {
                    return Some(t.clone());
                },
                _ => {
                    return None;
                },
            }
        }
        proof {
            assert(mm.skip(idx as int).drop_first() =~= mm.skip(idx as int + 1));
        }
        idx = idx + 1;
    }
    proof {
        assert(mm.skip(idx as int).len() == 0);
    }
    None
}

fn find_int(ms: &Vec<(String, Scalar)>, k: &String) -> (r: Option<i64>)
    ensures
        match r {
            Some(v) => spec_field_int(members_model(ms@), k@) == Some(v as int),
            None => spec_field_int(members_model(ms@), k@) is None,
        },
{
    let ghost mm = members_model(ms@);
    proof {
        assert(mm.skip(0) =~= mm);
    }
    let mut idx: usize = 0;
    while idx < ms.len()
        invariant
            idx <= ms@.len(),
            mm == members_model(ms@),
            spec_lookup(mm, k@) == spec_lookup(mm.skip(idx as int), k@),
        decreases ms@.len() - idx,
    {
        proof {
            assert(mm.skip(idx as int)[0] == mm[idx as int]);
        }
        if ms[idx].0 == *k {
            match &ms[idx].1 {
                Scalar::Integer(v) => {
                    return Some(*v);
                },
                _ => {
                    return None;
                },
            }
        }
        proof {
            assert(mm.skip(idx as int).drop_first() =~= mm.skip(idx as int + 1));
        }
        idx = idx + 1;
    }
    proof {
        assert(mm.skip(idx as int).len() == 0);
    }
    None
}

fn find_flag(ms: &Vec<(String, Scalar)>, k: &String) -> (r: Option<bool>)
    ensures
        match r {
            Some(v) => spec_field_flag(members_model(ms@), k@) == Some(v),
            None => spec_field_flag(members_model(ms@), k@) is None,
        },
{
    let ghost mm = members_model(ms@);
    proof {
        assert(mm.skip(0) =~= mm);
    }
    let mut idx: usize = 0;
    while idx < ms.len()
        invariant
            idx <= ms@.len(),
            mm == members_model(ms@),
            spec_lookup(mm, k@) == spec_lookup(mm.skip(idx as int), k@),
        decreases ms@.len() - idx,
    {
        proof {
            assert(mm.skip(idx as int)[0] == mm[idx as int]);
        }
        if ms[idx].0 == *k {
            match &ms[idx].1 {
                Scalar::Flag(b) => {
                    return Some(*b);
                },
                _ => {
                    return None;
                },
            }
        }
        proof {
            assert(mm.skip(idx as int).drop_first() =~= mm.skip(idx as int + 1));
        }
        idx = idx + 1;
    }
    proof {
        assert(mm.skip(idx as int).len() == 0);
    }
    None
}

// ---------------------------------------------------------------------------
// Decoding.
// ---------------------------------------------------------------------------

/// What decoding a release payload gives: the decoded release, or the
/// first failure in decoding order.
pub open spec fn spec_decode_config(t: Seq<char>) -> Result<ConfigModel, DecodeError> {
    match spec_parse_document(t) {
        None => Err(DecodeError::Syntax),
        Some(ms) => {
            if spec_field_int(ms, "id"@) is Some && spec_field_text(ms, "releaseKey"@) is Some
                && spec_field_text(ms, "name"@) is Some && spec_field_text(ms, "appId"@) is Some
                && spec_field_text(ms, "clusterName"@) is Some && spec_field_text(
                ms,
                "namespaceName"@,
            ) is Some && spec_field_text(ms, "configurations"@) is Some && spec_field_text(
                ms,
                "comment"@,
            ) is Some && spec_field_flag(ms, "isAbandoned"@) is Some && spec_field_text(
                ms,
                "dataChangeCreatedBy"@,
            ) is Some && spec_field_text(ms, "dataChangeLastModifiedBy"@) is Some
                && spec_field_text(ms, "dataChangeCreatedTime"@) is Some && spec_field_text(
                ms,
                "dataChangeLastModifiedTime"@,
            ) is Some {
                match spec_decode_str_map(spec_field_text(ms, "configurations"@)->0) {
                    None => Err(DecodeError::Configurations),
                    Some(pairs) => Ok(
                        ConfigModel {
                            id: spec_field_int(ms, "id"@)->0,
                            release_key: spec_field_text(ms, "releaseKey"@)->0,
                            name: spec_field_text(ms, "name"@)->0,
                            app_id: spec_field_text(ms, "appId"@)->0,
                            cluster_name: spec_field_text(ms, "clusterName"@)->0,
                            namespace_name: spec_field_text(ms, "namespaceName"@)->0,
                            configurations: pairs,
                            comment: spec_field_text(ms, "comment"@)->0,
                            is_abandoned: spec_field_flag(ms, "isAbandoned"@)->0,
                            data_change_created_by: spec_field_text(ms, "dataChangeCreatedBy"@)->0,
                            data_change_last_modified_by: spec_field_text(
                                ms,
                                "dataChangeLastModifiedBy"@,
                            )->0,
                            data_change_created_time: spec_field_text(
                                ms,
                                "dataChangeCreatedTime"@,
                            )->0,
                            data_change_last_modified_time: spec_field_text(
                                ms,
                                "dataChangeLastModifiedTime"@,
                            )->0,
                        },
                    ),
                }
            } else {
                Err(DecodeError::Shape)
            }
        },
    }
}

/// Decode a text that must be a flat JSON object of strings — the form the
/// wire protocol nests inside the `configurations` field, and the form the
/// cache file holds — into its key/value pairs, in document order.
pub fn decode_configurations(s: &str) -> (r: Result<Vec<(String, String)>, DecodeError>)
    ensures
        match r {
            Ok(ps) => spec_decode_str_map(s@) == Some(pairs_model(ps@)),
            Err(e) => spec_decode_str_map(s@) is None && e == DecodeError::Configurations,
        },
{
    let chars = str_to_chars(s);
    match parse_document_chars(&chars) {
        None => Err(DecodeError::Configurations),
        Some(ms) => match object_of_strings(&ms) {
            None => Err(DecodeError::Configurations),
            Some(ps) => Ok(ps),
        },
    }
}

/// Decode one release payload.
///
/// The outer document is parsed field by field — camel-case names on the
/// wire — and the `configurations` field is decoded a second time, as the
/// JSON object its string contents hold.  Fields the expected shape does
/// not name are tolerated and ignored; of a repeated key the first
/// occurrence counts.
pub fn decode_config(body: &str) -> (r: Result<Config, DecodeError>)
    ensures
        match r {
            Ok(c) => spec_decode_config(body@) == Ok::<ConfigModel, DecodeError>(c@),
            Err(e) => spec_decode_config(body@) == Err::<ConfigModel, DecodeError>(e),
        },
{
    let chars = str_to_chars(body);
    match parse_document_chars(&chars) {
        None => Err(DecodeError::Syntax),
        Some(ms) => {
            let id = find_int(&ms, &String::from_str("id"));
            let release_key = find_text(&ms, &String::from_str("releaseKey"));
            let name = find_text(&ms, &String::from_str("name"));
            let app_id = find_text(&ms, &String::from_str("appId"));
            let cluster_name = find_text(&ms, &String::from_str("clusterName"));
            let namespace_name = find_text(&ms, &String::from_str("namespaceName"));
            let configurations_text = find_text(&ms, &String::from_str("configurations"));
            let comment = find_text(&ms, &String::from_str("comment"));
            let is_abandoned = find_flag(&ms, &String::from_str("isAbandoned"));
            let created_by = find_text(&ms, &String::from_str("dataChangeCreatedBy"));
            let modified_by = find_text(&ms, &String::from_str("dataChangeLastModifiedBy"));
            let created_time = find_text(&ms, &String::from_str("dataChangeCreatedTime"));
            let modified_time = find_text(&ms, &String::from_str("dataChangeLastModifiedTime"));
            if id.is_none() || release_key.is_none() || name.is_none() || app_id.is_none()
                || cluster_name.is_none() || namespace_name.is_none()
                || configurations_text.is_none() || comment.is_none() || is_abandoned.is_none()
                || created_by.is_none() || modified_by.is_none() || created_time.is_none()
                || modified_time.is_none() {
                return Err(DecodeError::Shape);
            }
            let configurations_text = configurations_text.unwrap();
            match decode_configurations(configurations_text.as_str()) {
                Err(_) => Err(DecodeError::Configurations),
                Ok(pairs) => {
                    let c = Config {
                        id: id.unwrap(),
                        release_key: release_key.unwrap(),
                        name: name.unwrap(),
                        app_id: app_id.unwrap(),
                        cluster_name: cluster_name.unwrap(),
                        namespace_name: namespace_name.unwrap(),
                        configurations: pairs,
                        comment: comment.unwrap(),
                        is_abandoned: is_abandoned.unwrap(),
                        data_change_created_by: created_by.unwrap(),
                        data_change_last_modified_by: modified_by.unwrap(),
                        data_change_created_time: created_time.unwrap(),
                        data_change_last_modified_time: modified_time.unwrap(),
                    };
                    proof {
                        assert(c@.configurations =~= pairs_model(c.configurations@));
                        match spec_decode_config(body@) {
                            Ok(model) => {
                                assert(c@ == model);
                            },
                            Err(_) => (),
                        }
                    }
                    Ok(c)
                },
            }
        },
    }
}

} // verus!
