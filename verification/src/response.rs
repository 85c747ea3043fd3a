//! Interpretation of server responses. Every response is a JSON object
//! with a `status` field; `SUCCESS` means the operation went through and
//! anything else collapses to an absent result. Retrieve responses add a
//! `records` array, SSL responses the certificate fields.

use vstd::prelude::*;

use crate::json::{
    elems_view, fields_view, get_str_field, lookup_field, lookup_scalar_field, parse_json_object,
    scalar_fields_view, spec_lookup, spec_parse_object, spec_scalar_lookup, spec_str_field,
    JsonScalar, JsonValue, SpecScalar, SpecValue,
};
use crate::types::{Certificate, CertificateView, ProvidedRecord, ProvidedRecordView, Record, RecordView};

verus! {

/// Whether an object's `status` field holds `SUCCESS`.
pub open spec fn spec_status_ok(fs: Seq<(Seq<char>, SpecValue)>) -> bool {
    spec_lookup(fs, "status"@) == Some(SpecValue::Str("SUCCESS"@))
}

/// Whether a response document parses and reports success.
pub open spec fn spec_ack_ok(s: Seq<char>) -> bool {
    match spec_parse_object(s) {
        Some(fs) => spec_status_ok(fs),
        None => false,
    }
}

/// The string under a key among a scalar object's fields, if it is a
/// string.
pub open spec fn spec_scalar_str(ob: Seq<(Seq<char>, SpecScalar)>, k: Seq<char>) -> Option<
    Seq<char>,
> {
    match spec_scalar_lookup(ob, k) {
        Some(SpecScalar::Str(t)) => Some(t),
        _ => None,
    }
}

/// The integer under a key among a scalar object's fields, if it is an
/// integer.
pub open spec fn spec_scalar_int(ob: Seq<(Seq<char>, SpecScalar)>, k: Seq<char>) -> Option<int> {
    match spec_scalar_lookup(ob, k) {
        Some(SpecScalar::Int(n)) => Some(n),
        _ => None,
    }
}

/// Checks the `status` field of a parsed response.
pub fn status_ok(fs: &Vec<(String, JsonValue)>) -> (r: bool)
    ensures
        r == spec_status_ok(fields_view(fs@)),
{
    match lookup_field(fs, "status") {
        Some(v) => match v {
            JsonValue::Str(st) => crate::str_eq(st.as_str(), "SUCCESS"),
            _ => false,
        },
        None => false,
    }
}

/// Interprets a response to an operation that only acknowledges: present
/// exactly when the document parses and reports success.
pub fn parse_ack_response(s: &str) -> (r: Option<()>)
    ensures
        r is Some <==> spec_ack_ok(s@),
{
    match parse_json_object(s) {
        Some(fs) => {
            if status_ok(&fs) {
                Some(())
            } else {
                None
            }
        },
        None => None,
    }
}

/// What an SSL retrieve response holds when it parses, reports success,
/// and carries all four certificate fields as strings.
pub open spec fn spec_ssl_of(s: Seq<char>) -> Option<CertificateView> {
    match spec_parse_object(s) {
        Some(fs) => if spec_status_ok(fs) {
            if spec_str_field(fs, "intermediate_certificate"@) is Some && spec_str_field(
                fs,
                "certificate_chain"@,
            ) is Some && spec_str_field(fs, "private_key"@) is Some && spec_str_field(
                fs,
                "public_key"@,
            ) is Some {
                Some(
                    CertificateView {
                        intermediate_certificate: spec_str_field(
                            fs,
                            "intermediate_certificate"@,
                        )->0,
                        certificate_chain: spec_str_field(fs, "certificate_chain"@)->0,
                        private_key: spec_str_field(fs, "private_key"@)->0,
                        public_key: spec_str_field(fs, "public_key"@)->0,
                    },
                )
            } else {
                None
            }
        } else {
            None
        },
        None => None,
    }
}

/// Interprets an SSL retrieve response.
pub fn parse_ssl_response(s: &str) -> (r: Option<Certificate>)
    ensures
        match r {
            Some(c) => spec_ssl_of(s@) == Some(c@),
            None => spec_ssl_of(s@) is None,
        },
{
    let fs = match parse_json_object(s) {
        Some(fs) => fs,
        None => {
            return None;
        },
    };
    if !status_ok(&fs) {
        return None;
    }
    let intermediate_certificate = match get_str_field(&fs, "intermediate_certificate") {
        Some(t) => t,
        None => {
            return None;
        },
    };
    let certificate_chain = match get_str_field(&fs, "certificate_chain") {
        Some(t) => t,
        None => {
            return None;
        },
    };
    let private_key = match get_str_field(&fs, "private_key") {
        Some(t) => t,
        None => {
            return None;
        },
    };
    let public_key = match get_str_field(&fs, "public_key") {
        Some(t) => t,
        None => {
            return None;
        },
    };
    Some(Certificate { intermediate_certificate, certificate_chain, private_key, public_key })
}

/// What a record object of a retrieve response holds when all its fields
/// are present, with a ttl an `i32` can hold.
pub open spec fn spec_record_of(ob: Seq<(Seq<char>, SpecScalar)>) -> Option<ProvidedRecordView> {
    if spec_scalar_str(ob, "name"@) is Some && spec_scalar_str(ob, "dtype"@) is Some
        && spec_scalar_str(ob, "content"@) is Some && spec_scalar_int(ob, "ttl"@) is Some
        && i32::MIN <= spec_scalar_int(ob, "ttl"@)->0 <= i32::MAX && spec_scalar_str(ob, "id"@) is Some
        && spec_scalar_str(ob, "prio"@) is Some && spec_scalar_str(ob, "notes"@) is Some {
        Some(
            ProvidedRecordView {
                record: RecordView {
                    name: spec_scalar_str(ob, "name"@)->0,
                    dtype: spec_scalar_str(ob, "dtype"@)->0,
                    content: spec_scalar_str(ob, "content"@)->0,
                    ttl: spec_scalar_int(ob, "ttl"@)->0,
                },
                id: spec_scalar_str(ob, "id"@)->0,
                prio: spec_scalar_str(ob, "prio"@)->0,
                notes: spec_scalar_str(ob, "notes"@)->0,
            },
        )
    } else {
        None
    }
}

/// Fetches a string field of a record object.
fn get_scalar_str(ob: &Vec<(String, JsonScalar)>, k: &str) -> (r: Option<String>)
    ensures
        match r {
            Some(t) => spec_scalar_str(scalar_fields_view(ob@), k@) == Some(t@),
            None => spec_scalar_str(scalar_fields_view(ob@), k@) is None,
        },
{
    match lookup_scalar_field(ob, k) {
        Some(v) => match v {
            JsonScalar::Str(t) => Some(t.clone()),
            _ => None,
        },
        None => None,
    }
}

/// Fetches an integer field of a record object.
fn get_scalar_int(ob: &Vec<(String, JsonScalar)>, k: &str) -> (r: Option<i64>)
    ensures
        match r {
            Some(n) => spec_scalar_int(scalar_fields_view(ob@), k@) == Some(n as int),
            None => spec_scalar_int(scalar_fields_view(ob@), k@) is None,
        },
{
    match lookup_scalar_field(ob, k) {
        Some(v) => match v {
            JsonScalar::Int(n) => Some(*n),
            _ => None,
        },
        None => None,
    }
}

/// Builds a `ProvidedRecord` from one record object of a retrieve
/// response.
pub fn record_from_scalar_fields(ob: &Vec<(String, JsonScalar)>) -> (r: Option<ProvidedRecord>)
    ensures
        match r {
            Some(p) => spec_record_of(scalar_fields_view(ob@)) == Some(p@),
            None => spec_record_of(scalar_fields_view(ob@)) is None,
        },
{
    let name = match get_scalar_str(ob, "name") {
        Some(t) => t,
        None => {
            return None;
        },
    };
    let dtype = match get_scalar_str(ob, "dtype") {
        Some(t) => t,
        None => {
            return None;
        },
    };
    let content = match get_scalar_str(ob, "content") {
        Some(t) => t,
        None => {
            return None;
        },
    };
    let ttl_wide = match get_scalar_int(ob, "ttl") {
        Some(n) => n,
        None => {
            return None;
        },
    };
    if ttl_wide < i32::MIN as i64 || ttl_wide > i32::MAX as i64 {
        return None;
    }
    let ttl = ttl_wide as i32;
    let id = match get_scalar_str(ob, "id") {
        Some(t) => t,
        None => {
            return None;
        },
    };
    let prio = match get_scalar_str(ob, "prio") {
        Some(t) => t,
        None => {
            return None;
        },
    };
    let notes = match get_scalar_str(ob, "notes") {
        Some(t) => t,
        None => {
            return None;
        },
    };
    Some(ProvidedRecord { record: Record { name, dtype, content, ttl }, id, prio, notes })
}

/// What a list of record objects holds when every one of them is a
/// complete record.
pub open spec fn spec_records_list(es: Seq<Seq<(Seq<char>, SpecScalar)>>) -> Option<
    Seq<ProvidedRecordView>,
>
    decreases es.len(),
{
    if es.len() == 0 {
        Some(Seq::empty())
    } else {
        match spec_record_of(es[0]) {
            Some(v) => match spec_records_list(es.drop_first()) {
                Some(t) => Some(seq![v] + t),
                None => None,
            },
            None => None,
        }
    }
}

/// The mathematical contents of a list of records.
pub open spec fn recs_view(rs: Seq<ProvidedRecord>) -> Seq<ProvidedRecordView> {
    Seq::new(rs.len(), |i: int| rs[i]@)
}

/// What a record retrieve response holds when it parses, reports
/// success, and carries a well-formed `records` array.
pub open spec fn spec_records_of(s: Seq<char>) -> Option<Seq<ProvidedRecordView>> {
    match spec_parse_object(s) {
        Some(fs) => if spec_status_ok(fs) {
            match spec_lookup(fs, "records"@) {
                Some(SpecValue::Arr(es)) => spec_records_list(es),
                _ => None,
            }
        } else {
            None
        },
        None => None,
    }
}

/// Interprets a record retrieve response.
pub fn parse_records_response(s: &str) -> (r: Option<Vec<ProvidedRecord>>)
    ensures
        match r {
            Some(rs) => spec_records_of(s@) == Some(recs_view(rs@)),
            None => spec_records_of(s@) is None,
        },
{
    let fs = match parse_json_object(s) {
        Some(fs) => fs,
        None => {
            return None;
        },
    };
    if !status_ok(&fs) {
        return None;
    }
    let es: &Vec<Vec<(String, JsonScalar)>> = match lookup_field(&fs, "records") {
        Some(v) => match v {
            JsonValue::Arr(es) => es,
            _ => {
                return None;
            },
        },
        None => {
            return None;
        },
    };
    let ghost esv = elems_view(es@);
    let mut recs: Vec<ProvidedRecord> = Vec::new();
    let mut i: usize = 0;
    proof {
        assert(esv.skip(0) =~= esv);
        assert(recs_view(recs@) =~= Seq::<ProvidedRecordView>::empty());
    }
    while i < es.len()
        invariant
            i <= es@.len(),
            esv == elems_view(es@),
            spec_records_of(s@) == spec_records_list(esv),
            spec_records_list(esv) == match spec_records_list(esv.skip(i as int)) {
                Some(t) => Some(recs_view(recs@) + t),
                None => None::<Seq<ProvidedRecordView>>,
            },
        decreases es@.len() - i,
    {
        proof {
            assert(esv.skip(i as int)[0] == scalar_fields_view(es@[i as int]@));
            assert(esv.skip(i as int).drop_first() =~= esv.skip(i + 1));
        }
        match record_from_scalar_fields(&es[i]) {
            Some(p) => {
                let ghost recs_old = recs@;
                let ghost pv = p@;
                recs.push(p);
                proof {
                    assert(recs_view(recs@) =~= recs_view(recs_old) + seq![pv]);
                    let o = spec_records_list(esv.skip(i + 1));
                    if o is Some {
                        let t = o->0;
                        assert(spec_records_list(esv.skip(i as int)) == Some(seq![pv] + t));
                        assert(recs_view(recs_old) + (seq![pv] + t) =~= (recs_view(recs_old)
                            + seq![pv]) + t);
                    } else {
                        assert(spec_records_list(esv.skip(i as int)) is None);
                    }
                }
                i += 1;
            },
            None => {
                return None;
            },
        }
    }
    proof {
        assert(esv.skip(i as int).len() == 0);
        assert(spec_records_list(esv.skip(i as int)) == Some(Seq::<ProvidedRecordView>::empty()));
        assert(recs_view(recs@) + Seq::<ProvidedRecordView>::empty() =~= recs_view(recs@));
    }
    Some(recs)
}

} // verus!
