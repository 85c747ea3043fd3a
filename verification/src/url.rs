//! Request URL construction: every API endpoint is the fixed base URL
//! followed by an operation path and the caller's path segments. Each
//! builder's result is pinned down exactly, as a pure function of its
//! arguments.

use vstd::prelude::*;
use vstd::string::StringExecFns;

verus! {

/// The fixed base of every API URL.
pub open spec fn spec_api_url() -> Seq<char> {
    "https://porkbun.com/api/json/v3/"@
}

/// The URL that creates a record under a domain.
pub open spec fn spec_create_url(domain: Seq<char>) -> Seq<char> {
    spec_api_url() + "dns/create/"@ + domain
}

/// The URL that edits the record of a domain with a given id.
pub open spec fn spec_edit_url(domain: Seq<char>, id: Seq<char>) -> Seq<char> {
    spec_api_url() + "dns/edit/"@ + domain + "/"@ + id
}

/// The URL that edits records of a domain by subdomain and type.
pub open spec fn spec_edit_by_name_type_url(
    domain: Seq<char>,
    dtype: Seq<char>,
    subdomain: Seq<char>,
) -> Seq<char> {
    spec_api_url() + "dns/editByNameType/"@ + domain + "/"@ + dtype + "/"@ + subdomain
}

/// The URL that deletes the record of a domain with a given id.
pub open spec fn spec_delete_url(domain: Seq<char>, id: Seq<char>) -> Seq<char> {
    spec_api_url() + "dns/delete/"@ + domain + "/"@ + id
}

/// The URL that deletes records of a domain by subdomain and type.
pub open spec fn spec_delete_by_name_type_url(
    domain: Seq<char>,
    dtype: Seq<char>,
    subdomain: Seq<char>,
) -> Seq<char> {
    spec_api_url() + "dns/deleteByNameType/"@ + domain + "/"@ + dtype + "/"@ + subdomain
}

/// The URL that retrieves the record of a domain with a given id; with an
/// empty id it lists every record of the domain.
pub open spec fn spec_retrieve_url(domain: Seq<char>, id: Seq<char>) -> Seq<char> {
    spec_api_url() + "dns/retrieve/"@ + domain + "/"@ + id
}

/// The URL that retrieves records of a domain by subdomain and type.
pub open spec fn spec_retrieve_by_name_type_url(
    domain: Seq<char>,
    dtype: Seq<char>,
    subdomain: Seq<char>,
) -> Seq<char> {
    spec_api_url() + "dns/retrieveByNameType/"@ + domain + "/"@ + dtype + "/"@ + subdomain
}

/// The URL that retrieves the SSL certificate bundle of a domain.
pub open spec fn spec_ssl_retrieve_url(domain: Seq<char>) -> Seq<char> {
    spec_api_url() + "ssl/retrieve/"@ + domain
}

/// Builds `spec_create_url`.
pub fn create_url(domain: &str) -> (r: String)
    ensures
        r@ == spec_create_url(domain@),
{
    let mut s = "https://porkbun.com/api/json/v3/".to_owned();
    s.append("dns/create/");
    s.append(domain);
    s
}

/// Builds `spec_edit_url`.
pub fn edit_url(domain: &str, id: &str) -> (r: String)
    ensures
        r@ == spec_edit_url(domain@, id@),
{
    let mut s = "https://porkbun.com/api/json/v3/".to_owned();
    s.append("dns/edit/");
    s.append(domain);
    s.append("/");
    s.append(id);
    s
}

/// Builds `spec_edit_by_name_type_url`.
pub fn edit_by_name_type_url(domain: &str, dtype: &str, subdomain: &str) -> (r: String)
    ensures
        r@ == spec_edit_by_name_type_url(domain@, dtype@, subdomain@),
{
    let mut s = "https://porkbun.com/api/json/v3/".to_owned();
    s.append("dns/editByNameType/");
    s.append(domain);
    s.append("/");
    s.append(dtype);
    s.append("/");
    s.append(subdomain);
    s
}

/// Builds `spec_delete_url`.
pub fn delete_url(domain: &str, id: &str) -> (r: String)
    ensures
        r@ == spec_delete_url(domain@, id@),
{
    let mut s = "https://porkbun.com/api/json/v3/".to_owned();
    s.append("dns/delete/");
    s.append(domain);
    s.append("/");
    s.append(id);
    s
}

/// Builds `spec_delete_by_name_type_url`.
pub fn delete_by_name_type_url(domain: &str, dtype: &str, subdomain: &str) -> (r: String)
    ensures
        r@ == spec_delete_by_name_type_url(domain@, dtype@, subdomain@),
{
    let mut s = "https://porkbun.com/api/json/v3/".to_owned();
    s.append("dns/deleteByNameType/");
    s.append(domain);
    s.append("/");
    s.append(dtype);
    s.append("/");
    s.append(subdomain);
    s
}

/// Builds `spec_retrieve_url`.
pub fn retrieve_url(domain: &str, id: &str) -> (r: String)
    ensures
        r@ == spec_retrieve_url(domain@, id@),
{
    let mut s = "https://porkbun.com/api/json/v3/".to_owned();
    s.append("dns/retrieve/");
    s.append(domain);
    s.append("/");
    s.append(id);
    s
}

/// Builds `spec_retrieve_by_name_type_url`.
pub fn retrieve_by_name_type_url(domain: &str, dtype: &str, subdomain: &str) -> (r: String)
    ensures
        r@ == spec_retrieve_by_name_type_url(domain@, dtype@, subdomain@),
{
    let mut s = "https://porkbun.com/api/json/v3/".to_owned();
    s.append("dns/retrieveByNameType/");
    s.append(domain);
    s.append("/");
    s.append(dtype);
    s.append("/");
    s.append(subdomain);
    s
}

/// Builds `spec_ssl_retrieve_url`.
pub fn ssl_retrieve_url(domain: &str) -> (r: String)
    ensures
        r@ == spec_ssl_retrieve_url(domain@),
{
    let mut s = "https://porkbun.com/api/json/v3/".to_owned();
    s.append("ssl/retrieve/");
    s.append(domain);
    s
}

} // verus!
