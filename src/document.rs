//! Binary documents of string fields, encoded as BSON.

use vstd::prelude::*;
use vstd::string::*;

verus! {

/// The plain view of a list of (name, value) string fields.
pub open spec fn fields_view(fields: Seq<(String, String)>) -> Seq<(Seq<char>, Seq<char>)> {
    fields.map_values(|f: (String, String)| (f.0@, f.1@))
}

/// The BSON bytes of the document built by inserting the given string
/// fields in order, or `None` where BSON cannot encode it.
pub uninterp spec fn bson_document_bytes(fields: Seq<(Seq<char>, Seq<char>)>) -> Option<Seq<u8>>;

/// The string fields of the BSON document in `bytes`, in ascending order of
/// name, or `None` where `bytes` is not a document of string fields.
pub uninterp spec fn bson_document_fields(bytes: Seq<u8>) -> Option<Seq<(Seq<char>, Seq<char>)>>;

/// Relies on `bson::to_vec` applied to a `bson::Document` built from the
/// fields: the result depends on the fields alone.
#[verifier::external_body]
pub(crate) fn encode_document(fields: &Vec<(String, String)>) -> (r: Result<Vec<u8>, bson::ser::Error>)
    ensures
        match bson_document_bytes(fields_view(fields@)) {
            Some(b) => r matches Ok(v) && v@ == b,
            None => r is Err,
        },
{
    let doc: bson::Document = fields.iter().map(
        |f| (f.0.clone(), bson::Bson::String(f.1.clone())),
    ).collect();
    bson::to_vec(&doc)
}

/// Relies on `bson::from_slice` into a map from string to string: the
/// result depends on the bytes alone.
#[verifier::external_body]
pub(crate) fn decode_document(bytes: &[u8]) -> (r: Result<Vec<(String, String)>, bson::de::Error>)
    ensures
        match bson_document_fields(bytes@) {
            Some(fs) => r matches Ok(v) && fields_view(v@) == fs,
            None => r is Err,
        },
{
    bson::from_slice::<std::collections::BTreeMap<String, String>>(bytes).map(
        |m| m.into_iter().collect(),
    )
}

/// Relies on `serde::de::Error::custom` for `bson::de::Error`: a decoding
/// error that carries the message.
#[verifier::external_body]
pub(crate) fn decode_error(msg: &str) -> bson::de::Error {
    <bson::de::Error as serde::de::Error>::custom(msg)
}

/// An owned copy of a string slice.
pub(crate) fn text(s: &str) -> (r: String)
    ensures
        r@ == s@,
{
    String::from_str(s)
}

/// The value of the first field named `name`.
pub open spec fn field_value(fields: Seq<(Seq<char>, Seq<char>)>, name: Seq<char>) -> Option<Seq<char>>
    decreases fields.len(),
{
    if fields.len() == 0 {
        None
    } else if fields[0].0 == name {
        Some(fields[0].1)
    } else {
        field_value(fields.drop_first(), name)
    }
}

/// Looks up the first field named `name`.
pub fn find_field(fields: &Vec<(String, String)>, name: &str) -> (r: Option<String>)
    ensures
        match field_value(fields_view(fields@), name@) {
            Some(v) => r matches Some(s) && s@ == v,
            None => r is None,
        },
{
    let ghost fv = fields_view(fields@);
    let key = String::from_str(name);
    let mut i: usize = 0;
    assert(fv.subrange(0, fv.len() as int) =~= fv);
    while i < fields.len()
        invariant
            i <= fields.len(),
            fv == fields_view(fields@),
            key@ == name@,
            field_value(fv, name@) == field_value(fv.subrange(i as int, fv.len() as int), name@),
        decreases fields.len() - i,
    {
        let ghost rest = fv.subrange(i as int, fv.len() as int);
        assert(rest[0] == (fields@[i as int].0@, fields@[i as int].1@));
        if fields[i].0 == key {
            return Some(fields[i].1.clone());
        }
        assert(rest.drop_first() =~= fv.subrange(i + 1, fv.len() as int));
        i = i + 1;
    }
    None
}

} // verus!
