//! Reading YAML documents through `serde_yaml`, as plain strings.
//!
//! A YAML mapping is handed out as its entries, each key and each value being the
//! YAML text that `serde_yaml` writes for it; a scalar is read as a string the way a
//! `String` or `Option<String>` field of a derived `Deserialize` reads it.
use vstd::prelude::*;

verus! {

/// What `serde_yaml::from_str::<serde_yaml::Mapping>` gives for `doc`, each key and value
/// written back as text: the entries, or the error. As for a struct, an empty document
/// reads as an empty mapping and any other value that is not a mapping (a null one
/// included) is an error.
pub uninterp spec fn yaml_mapping(doc: Seq<char>) -> Result<Seq<(Seq<char>, Seq<char>)>, Seq<char>>;

/// What `serde_yaml::from_str::<String>` gives for `doc`.
pub uninterp spec fn yaml_string(doc: Seq<char>) -> Result<Seq<char>, Seq<char>>;

/// What `serde_yaml::from_str::<Option<String>>` gives for `doc`.
pub uninterp spec fn yaml_opt_string(doc: Seq<char>) -> Result<Option<Seq<char>>, Seq<char>>;

/// The view of a list of pairs of strings.
pub open spec fn pairs_view(v: Seq<(String, String)>) -> Seq<(Seq<char>, Seq<char>)> {
    v.map_values(|p: (String, String)| (p.0@, p.1@))
}

/// The view of a mapping read from YAML: its entries, or the error.
pub open spec fn mapping_view(r: Result<Vec<(String, String)>, String>) -> Result<Seq<(Seq<char>, Seq<char>)>, Seq<char>> {
    match r {
        Ok(v) => Ok(pairs_view(v@)),
        Err(e) => Err(e@),
    }
}

/// The view of a list of strings.
pub open spec fn strings_view(v: Seq<String>) -> Seq<Seq<char>> {
    v.map_values(|s: String| s@)
}

/// Parses `doc` with `serde_yaml::from_str::<serde_yaml::Mapping>` and writes each key and
/// value back with `serde_yaml::to_string`. The contract names the result.
#[verifier::external_body]
pub(crate) fn yaml_mapping_entries(doc: &str) -> (r: Result<Vec<(String, String)>, String>)
    ensures
        match r {
            Ok(v) => yaml_mapping(doc@) == Ok::<_, Seq<char>>(pairs_view(v@)),
            Err(e) => yaml_mapping(doc@) == Err::<Seq<(Seq<char>, Seq<char>)>, _>(e@),
        },
        mapping_view(r) == yaml_mapping(doc@),
{
    let m: serde_yaml::Mapping = serde_yaml::from_str(doc).map_err(|e| e.to_string())?;
    m.into_iter().map(|(k, v)| {
        Ok((serde_yaml::to_string(&k)?, serde_yaml::to_string(&v)?))
    }).collect::<Result<Vec<_>, serde_yaml::Error>>().map_err(|e| e.to_string())
}

/// Reads `doc` with `serde_yaml::from_str::<String>`; the contract names the result.
#[verifier::external_body]
pub(crate) fn yaml_read_string(doc: &str) -> (r: Result<String, String>)
    ensures
        match r {
            Ok(s) => yaml_string(doc@) == Ok::<_, Seq<char>>(s@),
            Err(e) => yaml_string(doc@) == Err::<Seq<char>, _>(e@),
        },
{
    serde_yaml::from_str::<String>(doc).map_err(|e| e.to_string())
}

/// Reads `doc` with `serde_yaml::from_str::<Option<String>>`; the contract names the result.
#[verifier::external_body]
pub(crate) fn yaml_read_opt_string(doc: &str) -> (r: Result<Option<String>, String>)
    ensures
        match r {
            Ok(Some(s)) => yaml_opt_string(doc@) == Ok::<_, Seq<char>>(Some(s@)),
            Ok(None) => yaml_opt_string(doc@) == Ok::<_, Seq<char>>(None::<Seq<char>>),
            Err(e) => yaml_opt_string(doc@) == Err::<Option<Seq<char>>, _>(e@),
        },
{
    serde_yaml::from_str::<Option<String>>(doc).map_err(|e| e.to_string())
}

/// The position of the first entry whose key reads as `name`, after checking that every
/// key up to it reads as a string (the way a derived `Deserialize` identifies fields).
pub open spec fn field_index_from(
    es: Seq<(Seq<char>, Seq<char>)>,
    name: Seq<char>,
    i: int,
) -> Result<Option<int>, Seq<char>>
    decreases es.len() - i,
{
    if i < 0 || i >= es.len() {
        Ok(None)
    } else {
        match yaml_string(es[i].0) {
            Err(e) => Err(e),
            Ok(k) => if k == name {
                Ok(Some(i))
            } else {
                field_index_from(es, name, i + 1)
            },
        }
    }
}

/// Finds the entry of field `name` among mapping entries.
pub fn find_field(es: &Vec<(String, String)>, name: &str) -> (r: Result<Option<usize>, String>)
    ensures
        match r {
            Ok(Some(i)) => i < es@.len() && field_index_from(pairs_view(es@), name@, 0) == Ok::<
                _,
                Seq<char>,
            >(Some(i as int)),
            Ok(None) => field_index_from(pairs_view(es@), name@, 0) == Ok::<_, Seq<char>>(
                None::<int>,
            ),
            Err(e) => field_index_from(pairs_view(es@), name@, 0) == Err::<Option<int>, _>(e@),
        },
{
    let ghost ev = pairs_view(es@);
    let mut i: usize = 0;
    while i < es.len()
        invariant
            i <= es@.len(),
            ev == pairs_view(es@),
            field_index_from(ev, name@, 0) == field_index_from(ev, name@, i as int),
        decreases es.len() - i,
    {
        let k = yaml_read_string(es[i].0.as_str());
        match k {
            Err(e) => {
                return Err(e);
            },
            Ok(k) => {
                if crate::text::str_eq(k.as_str(), name) {
                    return Ok(Some(i));
                }
            },
        }
        i = i + 1;
    }
    Ok(None)
}


/// What `serde_yaml::from_str::<Option<Vec<String>>>` gives for `doc`.
pub uninterp spec fn yaml_opt_string_list(doc: Seq<char>) -> Result<Option<Seq<Seq<char>>>, Seq<char>>;

/// Reads `doc` with `serde_yaml::from_str::<Option<Vec<String>>>`; the contract names the
/// result.
#[verifier::external_body]
pub(crate) fn yaml_read_opt_string_list(doc: &str) -> (r: Result<Option<Vec<String>>, String>)
    ensures
        match r {
            Ok(Some(v)) => yaml_opt_string_list(doc@) == Ok::<_, Seq<char>>(Some(strings_view(v@))),
            Ok(None) => yaml_opt_string_list(doc@) == Ok::<_, Seq<char>>(None::<Seq<Seq<char>>>),
            Err(e) => yaml_opt_string_list(doc@) == Err::<Option<Seq<Seq<char>>>, _>(e@),
        },
{
    serde_yaml::from_str::<Option<Vec<String>>>(doc).map_err(|e| e.to_string())
}

/// Reads an optional string field from the entries of a YAML mapping.
pub open spec fn read_opt_field(es: Seq<(Seq<char>, Seq<char>)>, name: Seq<char>) -> Result<
    Option<Seq<char>>,
    Seq<char>,
> {
    match field_index_from(es, name, 0) {
        Err(e) => Err(e),
        Ok(None) => Ok(None),
        Ok(Some(i)) => yaml_opt_string(es[i].1),
    }
}

/// Reads an optional list-of-strings field from the entries of a YAML mapping.
pub open spec fn read_opt_list_field(es: Seq<(Seq<char>, Seq<char>)>, name: Seq<char>) -> Result<
    Option<Seq<Seq<char>>>,
    Seq<char>,
> {
    match field_index_from(es, name, 0) {
        Err(e) => Err(e),
        Ok(None) => Ok(None),
        Ok(Some(i)) => yaml_opt_string_list(es[i].1),
    }
}

/// Reads the optional string field `name` from mapping entries.
pub fn read_opt_string_field(es: &Vec<(String, String)>, name: &str) -> (r: Result<Option<String>, String>)
    ensures
        match read_opt_field(pairs_view(es@), name@) {
            Ok(Some(v)) => r matches Ok(Some(x)) && x@ == v,
            Ok(None) => r matches Ok(None),
            Err(e) => r matches Err(x) && x@ == e,
        },
{
    match find_field(es, name) {
        Err(e) => Err(e),
        Ok(None) => Ok(None),
        Ok(Some(i)) => {
            assert(pairs_view(es@)[i as int].1 == es@[i as int].1@);
            yaml_read_opt_string(es[i].1.as_str())
        },
    }
}

/// Reads the optional list-of-strings field `name` from mapping entries.
pub fn read_opt_list_field_exec(es: &Vec<(String, String)>, name: &str) -> (r: Result<Option<Vec<String>>, String>)
    ensures
        match read_opt_list_field(pairs_view(es@), name@) {
            Ok(Some(v)) => r matches Ok(Some(x)) && strings_view(x@) == v,
            Ok(None) => r matches Ok(None),
            Err(e) => r matches Err(x) && x@ == e,
        },
{
    match find_field(es, name) {
        Err(e) => Err(e),
        Ok(None) => Ok(None),
        Ok(Some(i)) => {
            assert(pairs_view(es@)[i as int].1 == es@[i as int].1@);
            yaml_read_opt_string_list(es[i].1.as_str())
        },
    }
}

} // verus!
