use pigrabbit::url::{
    create_url, delete_by_name_type_url, delete_url, edit_by_name_type_url, edit_url,
    retrieve_by_name_type_url, retrieve_url, ssl_retrieve_url,
};

#[test]
fn retrieve_url_exact() {
    assert_eq!(
        retrieve_url("example.com", "123"),
        "https://porkbun.com/api/json/v3/dns/retrieve/example.com/123"
    );
}

#[test]
fn retrieve_url_empty_id_lists_all() {
    assert_eq!(
        retrieve_url("example.com", ""),
        "https://porkbun.com/api/json/v3/dns/retrieve/example.com/"
    );
}

#[test]
fn retrieve_by_name_type_url_exact() {
    assert_eq!(
        retrieve_by_name_type_url("example.com", "A", "www"),
        "https://porkbun.com/api/json/v3/dns/retrieveByNameType/example.com/A/www"
    );
}

#[test]
fn create_url_exact() {
    assert_eq!(
        create_url("example.com"),
        "https://porkbun.com/api/json/v3/dns/create/example.com"
    );
}

#[test]
fn edit_url_exact() {
    assert_eq!(
        edit_url("example.com", "42"),
        "https://porkbun.com/api/json/v3/dns/edit/example.com/42"
    );
}

#[test]
fn edit_by_name_type_url_exact() {
    assert_eq!(
        edit_by_name_type_url("example.com", "TXT", "blog"),
        "https://porkbun.com/api/json/v3/dns/editByNameType/example.com/TXT/blog"
    );
}

#[test]
fn delete_url_exact() {
    assert_eq!(
        delete_url("example.com", "7"),
        "https://porkbun.com/api/json/v3/dns/delete/example.com/7"
    );
}

#[test]
fn delete_by_name_type_url_exact() {
    assert_eq!(
        delete_by_name_type_url("example.com", "CNAME", "mail"),
        "https://porkbun.com/api/json/v3/dns/deleteByNameType/example.com/CNAME/mail"
    );
}

#[test]
fn ssl_retrieve_url_exact() {
    assert_eq!(
        ssl_retrieve_url("example.com"),
        "https://porkbun.com/api/json/v3/ssl/retrieve/example.com"
    );
}
