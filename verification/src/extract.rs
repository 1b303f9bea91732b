//! Entry extraction: derives a grouping key and a byte-size measurement
//! from one raw oplog document.
//!
//! A document is a `bson::Document`, opaque to verification; what the logic
//! reads from it is named by two uninterpreted views: the map of its
//! string-valued fields and its serialized wire bytes.  Extraction is a pure
//! function of those views.

use vstd::prelude::*;

verus! {

#[verifier::external_type_specification]
#[verifier::external_body]
pub struct ExDocument(bson::Document);

/// The string-valued fields of a document: each key that is present with a
/// string value, mapped to that value's characters.
pub uninterp spec fn doc_str_fields(d: bson::Document) -> Map<Seq<char>, Seq<char>>;

/// The canonical serialized wire form of a document, as bytes.
pub uninterp spec fn doc_wire(d: bson::Document) -> Seq<u8>;

/// Whether serializing the document to its wire form succeeds; failure
/// depends on the document's contents alone.
pub uninterp spec fn doc_serializable(d: bson::Document) -> bool;

/// Relies on `bson::Document::get_str`: returns the value under `key` when
/// it is present and string-valued, and an error when the key is absent or
/// its value has another type.
#[verifier::external_body]
fn get_str_field(d: &bson::Document, key: &str) -> (r: Option<String>)
    ensures
        r is Some <==> doc_str_fields(*d).contains_key(key@),
        r matches Some(s) ==> s@ == doc_str_fields(*d)[key@],
{
    match d.get_str(key) {
        Ok(s) => Some(s.to_owned()),
        Err(_) => None,
    }
}

/// Relies on `bson::Document::to_writer`: serializes the document into the
/// byte vector and reports the number of bytes written; writing into a
/// `Vec<u8>` cannot fail, so the outcome depends on the document alone.
#[verifier::external_body]
fn serialized_size(d: &bson::Document) -> (r: Option<u64>)
    ensures
        r is Some <==> doc_serializable(*d),
        r matches Some(n) ==> n as nat == doc_wire(*d).len(),
{
    let mut bytes: Vec<u8> = Vec::new();
    match d.to_writer(&mut bytes) {
        Ok(()) => Some(bytes.len() as u64),
        Err(_) => None,
    }
}

/// Why extracting a key and size from a document failed.
#[derive(Clone, Copy, Debug, PartialEq, Eq, Structural)]
pub enum ExtractError {
    /// The document could not be serialized to measure its size.
    SerializeFailed,
    /// The namespace field (`"ns"`) is absent or not a string.
    MissingNamespace,
    /// The operation-code field (`"op"`) is absent or not a string.
    MissingOperation,
}

/// The grouping key for a namespace and an operation code: the namespace,
/// a colon, and the operation code, in that fixed order.
pub open spec fn spec_grouping_key(ns: Seq<char>, op: Seq<char>) -> Seq<char> {
    ns + ":"@ + op
}

/// What extraction yields for a document: first the size measurement, then
/// the namespace field, then the operation-code field; the first failure
/// wins.  A pure function of the document's contents.
pub open spec fn spec_extract(d: bson::Document) -> Result<(Seq<char>, u64), ExtractError> {
    if !doc_serializable(d) {
        Err(ExtractError::SerializeFailed)
    } else if !doc_str_fields(d).contains_key("ns"@) {
        Err(ExtractError::MissingNamespace)
    } else if !doc_str_fields(d).contains_key("op"@) {
        Err(ExtractError::MissingOperation)
    } else {
        Ok(
            (
                spec_grouping_key(doc_str_fields(d)["ns"@], doc_str_fields(d)["op"@]),
                doc_wire(d).len() as u64,
            ),
        )
    }
}

/// Derives the grouping key and the serialized byte size of one oplog
/// document.  The result is exactly `spec_extract` of the document: the
/// same document always yields the same key and size.
pub fn extract(d: &bson::Document) -> (r: Result<(String, u64), ExtractError>)
    ensures
        (match r {
            Ok(p) => spec_extract(*d) == Ok::<_, ExtractError>((p.0@, p.1)),
            Err(e) => spec_extract(*d) == Err::<(Seq<char>, u64), _>(e),
        }),
{
    let size = match serialized_size(d) {
        Some(n) => n,
        None => {
            return Err(ExtractError::SerializeFailed);
        },
    };
    let ns = match get_str_field(d, "ns") {
        Some(s) => s,
        None => {
            return Err(ExtractError::MissingNamespace);
        },
    };
    let op = match get_str_field(d, "op") {
        Some(s) => s,
        None => {
            return Err(ExtractError::MissingOperation);
        },
    };
    let mut key = ns;
    key.append(":");
    key.append(op.as_str());
    proof {
        assert(key@ =~= spec_grouping_key(doc_str_fields(*d)["ns"@], doc_str_fields(*d)["op"@]));
    }
    Ok((key, size))
}

} // verus!
