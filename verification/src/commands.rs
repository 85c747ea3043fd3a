//! The CLI surface and its mapping to planned requests. Each subcommand
//! selects one API operation; the planner turns a command into the URL,
//! the request body and the way the answer is to be read. The id
//! selector and the subdomain-and-type selector are mutually exclusive:
//! giving both is rejected.

use vstd::prelude::*;

use crate::body::{
    encode_complicated_body, encode_keys_body, encode_simple_body, spec_complicated_json,
    spec_keys_json, spec_simple_json,
};
use crate::json::{parse_i32, spec_parse_i32};
use crate::types::{ComplicatedBody, Keys, SimpleBody};
use crate::url::{
    create_url, delete_by_name_type_url, delete_url, edit_by_name_type_url, edit_url,
    retrieve_by_name_type_url, retrieve_url, spec_create_url, spec_delete_by_name_type_url,
    spec_delete_url, spec_edit_by_name_type_url, spec_edit_url, spec_retrieve_by_name_type_url,
    spec_retrieve_url, spec_ssl_retrieve_url, ssl_retrieve_url,
};

verus! {

/// The CLI: an optional config-file path, one subcommand, and the domain
/// it works on.
pub struct Cli {
    pub config: Option<String>,
    pub command: Commands,
    pub domain: String,
}

/// The subcommands of the CLI.
pub enum Commands {
    RetreiveRecord { id: Option<String>, subdomain: Option<String>, record_type: Option<String> },
    RetreiveSSL {},
    DeleteRecord(DeleteCommand),
    AddRecord { name: String, record_type: String, content: String, ttl: i32 },
    EditRecord(EditCommand),
}

/// The edit subcommand: one of the two selectors.
pub struct EditCommand {
    pub command: EditOptions,
}

/// The delete subcommand: one of the two selectors.
pub struct DeleteCommand {
    pub command: DeleteOptions,
}

/// How a record to delete is addressed.
pub enum DeleteOptions {
    ById { id: String },
    BySubdomainAndType { subdomain: String, record_type: String },
}

/// How a record to edit is addressed, and its replacement fields.
pub enum EditOptions {
    ById { id: String, name: String, record_type: String, content: String, ttl: Option<String> },
    BySubdomainAndType { subdomain: String, record_type: String, content: String, ttl: String },
}

/// How the response to a planned request is to be read.
pub enum ResponseKind {
    Ack,
    Records,
    Ssl,
}

/// One planned API request: where to post, what to send, and how to
/// read the answer.
pub struct RequestPlan {
    pub url: String,
    pub body: String,
    pub expects: ResponseKind,
}

/// Why a command cannot be turned into a request.
#[derive(Debug)]
pub enum CommandError {
    ConflictingSelectors,
    InvalidTtl,
}

/// Whether a planning result is a plan with exactly this URL, body and
/// reading.
pub open spec fn plan_is(
    r: Result<RequestPlan, CommandError>,
    url: Seq<char>,
    body: Seq<char>,
    expects: ResponseKind,
) -> bool {
    match r {
        Ok(p) => p.url@ == url && p.body@ == body && p.expects == expects,
        Err(_) => false,
    }
}

/// What planning a command must produce: for every subcommand, the exact
/// URL and body of the one request it stands for, or the error that
/// rejects it.
pub open spec fn spec_plan_matches(
    keys: Keys,
    domain: Seq<char>,
    cmd: Commands,
    r: Result<RequestPlan, CommandError>,
) -> bool {
    let sk = keys.secretapikey@;
    let ak = keys.apikey@;
    match cmd {
        Commands::RetreiveRecord { id, subdomain, record_type } => {
            if id is Some && (subdomain is Some || record_type is Some) {
                r == Err::<RequestPlan, CommandError>(CommandError::ConflictingSelectors)
            } else if record_type is Some {
                let sub = if subdomain is Some {
                    subdomain->0@
                } else {
                    Seq::empty()
                };
                plan_is(
                    r,
                    spec_retrieve_by_name_type_url(domain, record_type->0@, sub),
                    spec_keys_json(sk, ak),
                    ResponseKind::Records,
                )
            } else if id is Some {
                plan_is(
                    r,
                    spec_retrieve_url(domain, id->0@),
                    spec_keys_json(sk, ak),
                    ResponseKind::Records,
                )
            } else {
                plan_is(
                    r,
                    spec_retrieve_url(domain, Seq::empty()),
                    spec_keys_json(sk, ak),
                    ResponseKind::Records,
                )
            }
        },
        Commands::RetreiveSSL {  } => plan_is(
            r,
            spec_ssl_retrieve_url(domain),
            spec_keys_json(sk, ak),
            ResponseKind::Ssl,
        ),
        Commands::DeleteRecord(dc) => match dc.command {
            DeleteOptions::ById { id } => plan_is(
                r,
                spec_delete_url(domain, id@),
                spec_keys_json(sk, ak),
                ResponseKind::Ack,
            ),
            DeleteOptions::BySubdomainAndType { subdomain, record_type } => plan_is(
                r,
                spec_delete_by_name_type_url(domain, record_type@, subdomain@),
                spec_keys_json(sk, ak),
                ResponseKind::Ack,
            ),
        },
        Commands::AddRecord { name, record_type, content, ttl } => plan_is(
            r,
            spec_create_url(domain),
            spec_complicated_json(sk, ak, name@, record_type@, content@, ttl as int),
            ResponseKind::Ack,
        ),
        Commands::EditRecord(ec) => match ec.command {
            EditOptions::ById { id, name, record_type, content, ttl } => match ttl {
                None => r == Err::<RequestPlan, CommandError>(CommandError::InvalidTtl),
                Some(t) => match spec_parse_i32(t@) {
                    None => r == Err::<RequestPlan, CommandError>(CommandError::InvalidTtl),
                    Some(v) => plan_is(
                        r,
                        spec_edit_url(domain, id@),
                        spec_complicated_json(sk, ak, name@, record_type@, content@, v),
                        ResponseKind::Ack,
                    ),
                },
            },
            EditOptions::BySubdomainAndType { subdomain, record_type, content, ttl } => match
                spec_parse_i32(ttl@) {
                None => r == Err::<RequestPlan, CommandError>(CommandError::InvalidTtl),
                Some(v) => plan_is(
                    r,
                    spec_edit_by_name_type_url(domain, record_type@, subdomain@),
                    spec_simple_json(sk, ak, content@, v),
                    ResponseKind::Ack,
                ),
            },
        },
    }
}

/// Turns a subcommand into the one request it stands for.
pub fn plan_command(keys: &Keys, domain: &str, cmd: &Commands) -> (r: Result<
    RequestPlan,
    CommandError,
>)
    ensures
        spec_plan_matches(*keys, domain@, *cmd, r),
{
    match cmd {
        Commands::RetreiveRecord { id, subdomain, record_type } => {
            if id.is_some() && (subdomain.is_some() || record_type.is_some()) {
                return Err(CommandError::ConflictingSelectors);
            }
            match record_type {
                Some(rt) => {
                    let url = match subdomain {
                        Some(sub) => retrieve_by_name_type_url(domain, rt.as_str(), sub.as_str()),
                        None => {
                            proof {
                                reveal_strlit("");
                                assert(""@ =~= Seq::<char>::empty());
                            }
                            retrieve_by_name_type_url(domain, rt.as_str(), "")
                        },
                    };
                    Ok(
                        RequestPlan {
                            url,
                            body: encode_keys_body(keys),
                            expects: ResponseKind::Records,
                        },
                    )
                },
                None => match id {
                    Some(i) => Ok(
                        RequestPlan {
                            url: retrieve_url(domain, i.as_str()),
                            body: encode_keys_body(keys),
                            expects: ResponseKind::Records,
                        },
                    ),
                    None => {
                        proof {
                            reveal_strlit("");
                            assert(""@ =~= Seq::<char>::empty());
                        }
                        Ok(
                            RequestPlan {
                                url: retrieve_url(domain, ""),
                                body: encode_keys_body(keys),
                                expects: ResponseKind::Records,
                            },
                        )
                    },
                },
            }
        },
        Commands::RetreiveSSL {  } => Ok(
            RequestPlan {
                url: ssl_retrieve_url(domain),
                body: encode_keys_body(keys),
                expects: ResponseKind::Ssl,
            },
        ),
        Commands::DeleteRecord(dc) => match &dc.command {
            DeleteOptions::ById { id } => Ok(
                RequestPlan {
                    url: delete_url(domain, id.as_str()),
                    body: encode_keys_body(keys),
                    expects: ResponseKind::Ack,
                },
            ),
            DeleteOptions::BySubdomainAndType { subdomain, record_type } => Ok(
                RequestPlan {
                    url: delete_by_name_type_url(domain, record_type.as_str(), subdomain.as_str()),
                    body: encode_keys_body(keys),
                    expects: ResponseKind::Ack,
                },
            ),
        },
        Commands::AddRecord { name, record_type, content, ttl } => {
            let body = encode_complicated_body(
                &ComplicatedBody {
                    secretapikey: keys.secretapikey.as_str(),
                    apikey: keys.apikey.as_str(),
                    name: name.as_str(),
                    dtype: record_type.as_str(),
                    content: content.as_str(),
                    ttl: *ttl,
                },
            );
            Ok(RequestPlan { url: create_url(domain), body, expects: ResponseKind::Ack })
        },
        Commands::EditRecord(ec) => match &ec.command {
            EditOptions::ById { id, name, record_type, content, ttl } => {
                let t = match ttl {
                    Some(t) => t,
                    None => {
                        return Err(CommandError::InvalidTtl);
                    },
                };
                let v = match parse_i32(t.as_str()) {
                    Some(v) => v,
                    None => {
                        return Err(CommandError::InvalidTtl);
                    },
                };
                let body = encode_complicated_body(
                    &ComplicatedBody {
                        secretapikey: keys.secretapikey.as_str(),
                        apikey: keys.apikey.as_str(),
                        name: name.as_str(),
                        dtype: record_type.as_str(),
                        content: content.as_str(),
                        ttl: v,
                    },
                );
                Ok(
                    RequestPlan {
                        url: edit_url(domain, id.as_str()),
                        body,
                        expects: ResponseKind::Ack,
                    },
                )
            },
            EditOptions::BySubdomainAndType { subdomain, record_type, content, ttl } => {
                let v = match parse_i32(ttl.as_str()) {
                    Some(v) => v,
                    None => {
                        return Err(CommandError::InvalidTtl);
                    },
                };
                let body = encode_simple_body(
                    &SimpleBody {
                        secretapikey: keys.secretapikey.as_str(),
                        apikey: keys.apikey.as_str(),
                        content: content.as_str(),
                        ttl: v,
                    },
                );
                Ok(
                    RequestPlan {
                        url: edit_by_name_type_url(domain, record_type.as_str(), subdomain.as_str()),
                        body,
                        expects: ResponseKind::Ack,
                    },
                )
            },
        },
    }
}

/// Law: a retrieve command that gives the id selector together with any
/// part of the subdomain-and-type selector is rejected.
pub proof fn lemma_conflicting_selectors_rejected(
    keys: Keys,
    domain: Seq<char>,
    cmd: Commands,
    r: Result<RequestPlan, CommandError>,
)
    requires
        spec_plan_matches(keys, domain, cmd, r),
        cmd matches Commands::RetreiveRecord { id, subdomain, record_type } && id is Some && (
        subdomain is Some || record_type is Some),
    ensures
        r == Err::<RequestPlan, CommandError>(CommandError::ConflictingSelectors),
{
}

} // verus!
