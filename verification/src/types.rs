//! Data model: API credentials, DNS records as the provider returns them,
//! SSL certificate bundles, and the two request-body shapes.

use vstd::prelude::*;

verus! {

/// The API credential pair; both values ride along in every request body.
pub struct Keys {
    pub secretapikey: String,
    pub apikey: String,
}

/// A DNS record payload for create and edit operations.
pub struct Record {
    pub name: String,
    pub dtype: String,
    pub content: String,
    pub ttl: i32,
}

/// A record as the server returns it: the payload fields plus the
/// provider-assigned id, priority and notes.
pub struct ProvidedRecord {
    pub record: Record,
    pub id: String,
    pub prio: String,
    pub notes: String,
}

/// An SSL certificate bundle for a domain.
pub struct Certificate {
    pub intermediate_certificate: String,
    pub certificate_chain: String,
    pub private_key: String,
    pub public_key: String,
}

/// The request body for create and edit by id: credentials plus the full
/// record payload.
pub struct ComplicatedBody<'a> {
    pub secretapikey: &'a str,
    pub apikey: &'a str,
    pub name: &'a str,
    pub dtype: &'a str,
    pub content: &'a str,
    pub ttl: i32,
}

/// The request body for edit by subdomain and type: credentials plus the
/// replacement content and ttl.
pub struct SimpleBody<'a> {
    pub secretapikey: &'a str,
    pub apikey: &'a str,
    pub content: &'a str,
    pub ttl: i32,
}

/// The mathematical contents of a `Record`.
pub struct RecordView {
    pub name: Seq<char>,
    pub dtype: Seq<char>,
    pub content: Seq<char>,
    pub ttl: int,
}

impl View for Record {
    type V = RecordView;

    open spec fn view(&self) -> RecordView {
        RecordView {
            name: self.name@,
            dtype: self.dtype@,
            content: self.content@,
            ttl: self.ttl as int,
        }
    }
}

/// The mathematical contents of a `ProvidedRecord`.
pub struct ProvidedRecordView {
    pub record: RecordView,
    pub id: Seq<char>,
    pub prio: Seq<char>,
    pub notes: Seq<char>,
}

impl View for ProvidedRecord {
    type V = ProvidedRecordView;

    open spec fn view(&self) -> ProvidedRecordView {
        ProvidedRecordView { record: self.record@, id: self.id@, prio: self.prio@, notes: self.notes@ }
    }
}

/// The mathematical contents of a `Certificate`.
pub struct CertificateView {
    pub intermediate_certificate: Seq<char>,
    pub certificate_chain: Seq<char>,
    pub private_key: Seq<char>,
    pub public_key: Seq<char>,
}

impl View for Certificate {
    type V = CertificateView;

    open spec fn view(&self) -> CertificateView {
        CertificateView {
            intermediate_certificate: self.intermediate_certificate@,
            certificate_chain: self.certificate_chain@,
            private_key: self.private_key@,
            public_key: self.public_key@,
        }
    }
}

impl Record {
    /// Builds the create/edit request body for this record under the given
    /// credentials.
    pub fn to_complicated_body<'a>(&'a self, keys: &'a Keys) -> (b: ComplicatedBody<'a>)
        ensures
            b.secretapikey@ == keys.secretapikey@,
            b.apikey@ == keys.apikey@,
            b.name@ == self.name@,
            b.dtype@ == self.dtype@,
            b.content@ == self.content@,
            b.ttl == self.ttl,
    {
        ComplicatedBody {
            secretapikey: keys.secretapikey.as_str(),
            apikey: keys.apikey.as_str(),
            name: self.name.as_str(),
            dtype: self.dtype.as_str(),
            content: self.content.as_str(),
            ttl: self.ttl,
        }
    }

    /// Builds the edit-by-name-and-type request body for this record under
    /// the given credentials.
    pub fn to_simple_body<'a>(&'a self, keys: &'a Keys) -> (b: SimpleBody<'a>)
        ensures
            b.secretapikey@ == keys.secretapikey@,
            b.apikey@ == keys.apikey@,
            b.content@ == self.content@,
            b.ttl == self.ttl,
    {
        SimpleBody {
            secretapikey: keys.secretapikey.as_str(),
            apikey: keys.apikey.as_str(),
            content: self.content.as_str(),
            ttl: self.ttl,
        }
    }
}

} // verus!
