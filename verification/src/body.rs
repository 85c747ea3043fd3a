//! Request body encoding. Every request carries the credentials; create
//! and edit requests add record fields. The encoders produce exactly the
//! object encodings of `crate::json`, so the round trip through the
//! parser is proved once and instantiated here.

use vstd::prelude::*;

use crate::json::{
    enc_members, enc_object, enc_string, enc_value, get_str_field, lemma_parse_object_enc,
    parse_json_object, spec_lookup, spec_parse_object, spec_str_field, wf_fields, wf_value,
    SpecValue,
};
use crate::json::{dec_int, push_char, push_int, push_json_string};
use crate::types::{ComplicatedBody, Keys, SimpleBody};

verus! {

/// The members of a credentials-only request body, as retrieve and
/// delete requests send it.
pub open spec fn spec_keys_fields(sk: Seq<char>, ak: Seq<char>) -> Seq<(Seq<char>, SpecValue)> {
    seq![("secretapikey"@, SpecValue::Str(sk)), ("apikey"@, SpecValue::Str(ak))]
}

/// The credentials-only request body.
pub open spec fn spec_keys_json(sk: Seq<char>, ak: Seq<char>) -> Seq<char> {
    enc_object(spec_keys_fields(sk, ak))
}

/// The members of a create or edit-by-id request body: the credentials
/// and the full record payload.
pub open spec fn spec_complicated_fields(
    sk: Seq<char>,
    ak: Seq<char>,
    name: Seq<char>,
    dtype: Seq<char>,
    content: Seq<char>,
    ttl: int,
) -> Seq<(Seq<char>, SpecValue)> {
    seq![
        ("secretapikey"@, SpecValue::Str(sk)),
        ("apikey"@, SpecValue::Str(ak)),
        ("name"@, SpecValue::Str(name)),
        ("dtype"@, SpecValue::Str(dtype)),
        ("content"@, SpecValue::Str(content)),
        ("ttl"@, SpecValue::Int(ttl)),
    ]
}

/// The create or edit-by-id request body.
pub open spec fn spec_complicated_json(
    sk: Seq<char>,
    ak: Seq<char>,
    name: Seq<char>,
    dtype: Seq<char>,
    content: Seq<char>,
    ttl: int,
) -> Seq<char> {
    enc_object(spec_complicated_fields(sk, ak, name, dtype, content, ttl))
}

/// The members of an edit-by-name-and-type request body: the credentials
/// and the replacement content and ttl.
pub open spec fn spec_simple_fields(
    sk: Seq<char>,
    ak: Seq<char>,
    content: Seq<char>,
    ttl: int,
) -> Seq<(Seq<char>, SpecValue)> {
    seq![
        ("secretapikey"@, SpecValue::Str(sk)),
        ("apikey"@, SpecValue::Str(ak)),
        ("content"@, SpecValue::Str(content)),
        ("ttl"@, SpecValue::Int(ttl)),
    ]
}

/// The edit-by-name-and-type request body.
pub open spec fn spec_simple_json(
    sk: Seq<char>,
    ak: Seq<char>,
    content: Seq<char>,
    ttl: int,
) -> Seq<char> {
    enc_object(spec_simple_fields(sk, ak, content, ttl))
}

/// Appends one string-valued member, preceded by a separator: the
/// opening brace for the first member, a comma afterwards.
fn push_str_member(out: &mut String, sep: char, key: &str, val: &str)
    ensures
        final(out)@ == old(out)@ + (seq![sep] + enc_string(key@) + seq![':'] + enc_string(val@)),
{
    push_char(out, sep);
    push_json_string(out, key);
    push_char(out, ':');
    push_json_string(out, val);
    proof {
        assert(final(out)@ =~= old(out)@ + (seq![sep] + enc_string(key@) + seq![':'] + enc_string(
            val@,
        )));
    }
}

/// Appends one integer-valued member, preceded by a separator.
fn push_int_member(out: &mut String, sep: char, key: &str, val: i64)
    requires
        val > i64::MIN,
    ensures
        final(out)@ == old(out)@ + (seq![sep] + enc_string(key@) + seq![':'] + dec_int(val as int)),
{
    push_char(out, sep);
    push_json_string(out, key);
    push_char(out, ':');
    push_int(out, val);
    proof {
        assert(final(out)@ =~= old(out)@ + (seq![sep] + enc_string(key@) + seq![':'] + dec_int(
            val as int,
        )));
    }
}

/// Encodes the credentials-only request body.
pub fn encode_keys_body(keys: &Keys) -> (r: String)
    ensures
        r@ == spec_keys_json(keys.secretapikey@, keys.apikey@),
{
    let ghost fs = spec_keys_fields(keys.secretapikey@, keys.apikey@);
    let mut out = String::new();
    push_str_member(&mut out, '{', "secretapikey", keys.secretapikey.as_str());
    push_str_member(&mut out, ',', "apikey", keys.apikey.as_str());
    push_char(&mut out, '}');
    proof {
        let t1 = fs.drop_first();
        assert(t1 =~= seq![("apikey"@, SpecValue::Str(keys.apikey@))]);
        assert(enc_members(t1) == enc_string("apikey"@) + seq![':'] + enc_value(
            SpecValue::Str(keys.apikey@),
        ));
        assert(enc_members(fs) == enc_string("secretapikey"@) + seq![':'] + enc_value(
            SpecValue::Str(keys.secretapikey@),
        ) + seq![','] + enc_members(t1));
        assert(out@ =~= enc_object(fs));
    }
    out
}

/// Encodes a create or edit-by-id request body.
#[verifier::rlimit(100)]
pub fn encode_complicated_body(b: &ComplicatedBody) -> (r: String)
    ensures
        r@ == spec_complicated_json(
            b.secretapikey@,
            b.apikey@,
            b.name@,
            b.dtype@,
            b.content@,
            b.ttl as int,
        ),
{
    let ghost fs = spec_complicated_fields(
        b.secretapikey@,
        b.apikey@,
        b.name@,
        b.dtype@,
        b.content@,
        b.ttl as int,
    );
    let mut out = String::new();
    push_str_member(&mut out, '{', "secretapikey", b.secretapikey);
    push_str_member(&mut out, ',', "apikey", b.apikey);
    push_str_member(&mut out, ',', "name", b.name);
    push_str_member(&mut out, ',', "dtype", b.dtype);
    push_str_member(&mut out, ',', "content", b.content);
    push_int_member(&mut out, ',', "ttl", b.ttl as i64);
    push_char(&mut out, '}');
    proof {
        let t1 = fs.drop_first();
        let t2 = t1.drop_first();
        let t3 = t2.drop_first();
        let t4 = t3.drop_first();
        let t5 = t4.drop_first();
        assert(t5 =~= seq![("ttl"@, SpecValue::Int(b.ttl as int))]);
        assert(t4 =~= seq![("content"@, SpecValue::Str(b.content@))] + t5);
        assert(t3 =~= seq![("dtype"@, SpecValue::Str(b.dtype@))] + t4);
        assert(t2 =~= seq![("name"@, SpecValue::Str(b.name@))] + t3);
        assert(t1 =~= seq![("apikey"@, SpecValue::Str(b.apikey@))] + t2);
        assert(enc_members(t5) == enc_string("ttl"@) + seq![':'] + enc_value(
            SpecValue::Int(b.ttl as int),
        ));
        assert(enc_members(t4) == enc_string("content"@) + seq![':'] + enc_value(
            SpecValue::Str(b.content@),
        ) + seq![','] + enc_members(t5));
        assert(enc_members(t3) == enc_string("dtype"@) + seq![':'] + enc_value(
            SpecValue::Str(b.dtype@),
        ) + seq![','] + enc_members(t4));
        assert(enc_members(t2) == enc_string("name"@) + seq![':'] + enc_value(
            SpecValue::Str(b.name@),
        ) + seq![','] + enc_members(t3));
        assert(enc_members(t1) == enc_string("apikey"@) + seq![':'] + enc_value(
            SpecValue::Str(b.apikey@),
        ) + seq![','] + enc_members(t2));
        assert(enc_members(fs) == enc_string("secretapikey"@) + seq![':'] + enc_value(
            SpecValue::Str(b.secretapikey@),
        ) + seq![','] + enc_members(t1));
        assert(out@ =~= enc_object(fs));
    }
    out
}

/// Encodes an edit-by-name-and-type request body.
#[verifier::rlimit(60)]
pub fn encode_simple_body(b: &SimpleBody) -> (r: String)
    ensures
        r@ == spec_simple_json(b.secretapikey@, b.apikey@, b.content@, b.ttl as int),
{
    let ghost fs = spec_simple_fields(b.secretapikey@, b.apikey@, b.content@, b.ttl as int);
    let mut out = String::new();
    push_str_member(&mut out, '{', "secretapikey", b.secretapikey);
    push_str_member(&mut out, ',', "apikey", b.apikey);
    push_str_member(&mut out, ',', "content", b.content);
    push_int_member(&mut out, ',', "ttl", b.ttl as i64);
    push_char(&mut out, '}');
    proof {
        let t1 = fs.drop_first();
        let t2 = t1.drop_first();
        let t3 = t2.drop_first();
        assert(t3 =~= seq![("ttl"@, SpecValue::Int(b.ttl as int))]);
        assert(t2 =~= seq![("content"@, SpecValue::Str(b.content@))] + t3);
        assert(t1 =~= seq![("apikey"@, SpecValue::Str(b.apikey@))] + t2);
        assert(enc_members(t3) == enc_string("ttl"@) + seq![':'] + enc_value(
            SpecValue::Int(b.ttl as int),
        ));
        assert(enc_members(t2) == enc_string("content"@) + seq![':'] + enc_value(
            SpecValue::Str(b.content@),
        ) + seq![','] + enc_members(t3));
        assert(enc_members(t1) == enc_string("apikey"@) + seq![':'] + enc_value(
            SpecValue::Str(b.apikey@),
        ) + seq![','] + enc_members(t2));
        assert(enc_members(fs) == enc_string("secretapikey"@) + seq![':'] + enc_value(
            SpecValue::Str(b.secretapikey@),
        ) + seq![','] + enc_members(t1));
        assert(out@ =~= enc_object(fs));
    }
    out
}

/// Law: a record payload encoded as a request body and parsed back, as
/// when the server echoes it, yields exactly the same field values.
#[verifier::rlimit(100)]
pub proof fn lemma_record_payload_round_trip(
    sk: Seq<char>,
    ak: Seq<char>,
    name: Seq<char>,
    dtype: Seq<char>,
    content: Seq<char>,
    ttl: int,
)
    requires
        i32::MIN <= ttl <= i32::MAX,
    ensures
        ({
            let fs = spec_complicated_fields(sk, ak, name, dtype, content, ttl);
            &&& spec_parse_object(spec_complicated_json(sk, ak, name, dtype, content, ttl))
                == Some(fs)
            &&& spec_lookup(fs, "secretapikey"@) == Some(SpecValue::Str(sk))
            &&& spec_lookup(fs, "apikey"@) == Some(SpecValue::Str(ak))
            &&& spec_lookup(fs, "name"@) == Some(SpecValue::Str(name))
            &&& spec_lookup(fs, "dtype"@) == Some(SpecValue::Str(dtype))
            &&& spec_lookup(fs, "content"@) == Some(SpecValue::Str(content))
            &&& spec_lookup(fs, "ttl"@) == Some(SpecValue::Int(ttl))
        }),
{
    let fs = spec_complicated_fields(sk, ak, name, dtype, content, ttl);
    assert forall|i: int| 0 <= i < fs.len() implies wf_value(#[trigger] fs[i].1) by {
        if i == 5 {
            assert(fs[5].1 == SpecValue::Int(ttl));
        }
    }
    lemma_parse_object_enc(fs);
    reveal_strlit("secretapikey");
    reveal_strlit("apikey");
    reveal_strlit("name");
    reveal_strlit("dtype");
    reveal_strlit("content");
    reveal_strlit("ttl");
    let t1 = fs.drop_first();
    let t2 = t1.drop_first();
    let t3 = t2.drop_first();
    let t4 = t3.drop_first();
    let t5 = t4.drop_first();
    assert(fs[0].0 == "secretapikey"@ && fs[1].0 == "apikey"@ && fs[2].0 == "name"@ && fs[3].0
        == "dtype"@ && fs[4].0 == "content"@ && fs[5].0 == "ttl"@);
    assert("secretapikey"@.len() == 12 && "apikey"@.len() == 6 && "name"@.len() == 4
        && "dtype"@.len() == 5 && "content"@.len() == 7 && "ttl"@.len() == 3);
    assert(t1[0] == fs[1] && t1[1] == fs[2] && t1[2] == fs[3] && t1[3] == fs[4] && t1[4] == fs[5]);
    assert(t2[0] == fs[2] && t2[1] == fs[3] && t2[2] == fs[4] && t2[3] == fs[5]);
    assert(t3[0] == fs[3] && t3[1] == fs[4] && t3[2] == fs[5]);
    assert(t4[0] == fs[4] && t4[1] == fs[5]);
    assert(t5[0] == fs[5] && t5.len() == 1);
    assert(spec_lookup(fs, "secretapikey"@) == Some(SpecValue::Str(sk)));
    assert("apikey"@.len() != "secretapikey"@.len());
    assert(spec_lookup(fs, "apikey"@) == spec_lookup(t1, "apikey"@));
    assert(spec_lookup(t1, "apikey"@) == Some(SpecValue::Str(ak)));
    assert(spec_lookup(fs, "name"@) == spec_lookup(t1, "name"@));
    assert(spec_lookup(t1, "name"@) == spec_lookup(t2, "name"@));
    assert(spec_lookup(t2, "name"@) == Some(SpecValue::Str(name)));
    assert(spec_lookup(fs, "dtype"@) == spec_lookup(t1, "dtype"@));
    assert(spec_lookup(t1, "dtype"@) == spec_lookup(t2, "dtype"@));
    assert(spec_lookup(t2, "dtype"@) == spec_lookup(t3, "dtype"@));
    assert(spec_lookup(t3, "dtype"@) == Some(SpecValue::Str(dtype)));
    assert(spec_lookup(fs, "content"@) == spec_lookup(t1, "content"@));
    assert(spec_lookup(t1, "content"@) == spec_lookup(t2, "content"@));
    assert(spec_lookup(t2, "content"@) == spec_lookup(t3, "content"@));
    assert(spec_lookup(t3, "content"@) == spec_lookup(t4, "content"@));
    assert(spec_lookup(t4, "content"@) == Some(SpecValue::Str(content)));
    assert(spec_lookup(fs, "ttl"@) == spec_lookup(t1, "ttl"@));
    assert(spec_lookup(t1, "ttl"@) == spec_lookup(t2, "ttl"@));
    assert(spec_lookup(t2, "ttl"@) == spec_lookup(t3, "ttl"@));
    assert(spec_lookup(t3, "ttl"@) == spec_lookup(t4, "ttl"@));
    assert(spec_lookup(t4, "ttl"@) == spec_lookup(t5, "ttl"@));
    assert(spec_lookup(t5, "ttl"@) == Some(SpecValue::Int(ttl)));
}

/// What a stored credential document holds when it parses with both
/// key fields present as strings.
pub open spec fn spec_keys_of(s: Seq<char>) -> Option<(Seq<char>, Seq<char>)> {
    match spec_parse_object(s) {
        Some(fs) => if spec_str_field(fs, "secretapikey"@) is Some && spec_str_field(
            fs,
            "apikey"@,
        ) is Some {
            Some((spec_str_field(fs, "secretapikey"@)->0, spec_str_field(fs, "apikey"@)->0))
        } else {
            None
        },
        None => None,
    }
}

/// Reads a credential pair back from its JSON form, as the config file
/// stores it.
pub fn parse_keys_json(s: &str) -> (r: Option<Keys>)
    ensures
        match r {
            Some(k) => spec_keys_of(s@) == Some((k.secretapikey@, k.apikey@)),
            None => spec_keys_of(s@) is None,
        },
{
    let fs = match parse_json_object(s) {
        Some(fs) => fs,
        None => {
            return None;
        },
    };
    let secretapikey = match get_str_field(&fs, "secretapikey") {
        Some(t) => t,
        None => {
            return None;
        },
    };
    let apikey = match get_str_field(&fs, "apikey") {
        Some(t) => t,
        None => {
            return None;
        },
    };
    Some(Keys { secretapikey, apikey })
}

/// Law: a credential pair written out as its JSON body and read back
/// yields the same two keys.
pub proof fn lemma_keys_round_trip(sk: Seq<char>, ak: Seq<char>)
    ensures
        spec_keys_of(spec_keys_json(sk, ak)) == Some((sk, ak)),
{
    let fs = spec_keys_fields(sk, ak);
    assert forall|i: int| 0 <= i < fs.len() implies wf_value(#[trigger] fs[i].1) by {}
    lemma_parse_object_enc(fs);
    reveal_strlit("secretapikey");
    reveal_strlit("apikey");
    assert(fs[0].0 == "secretapikey"@ && fs[1].0 == "apikey"@);
    assert("secretapikey"@.len() == 12 && "apikey"@.len() == 6);
    let t1 = fs.drop_first();
    assert(t1[0] == fs[1] && t1.len() == 1);
    assert(spec_lookup(fs, "secretapikey"@) == Some(SpecValue::Str(sk)));
    assert(spec_lookup(fs, "apikey"@) == spec_lookup(t1, "apikey"@));
    assert(spec_lookup(t1, "apikey"@) == Some(SpecValue::Str(ak)));
}

} // verus!
