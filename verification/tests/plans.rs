use pigrabbit::commands::{
    plan_command, CommandError, Commands, DeleteCommand, DeleteOptions, EditCommand, EditOptions,
    ResponseKind,
};
use pigrabbit::types::Keys;

fn keys() -> Keys {
    Keys { secretapikey: "sk".to_string(), apikey: "ak".to_string() }
}

const KEYS_BODY: &str = "{\"secretapikey\":\"sk\",\"apikey\":\"ak\"}";

#[test]
fn conflicting_selectors_rejected() {
    let cmd = Commands::RetreiveRecord {
        id: Some("12".to_string()),
        subdomain: None,
        record_type: Some("A".to_string()),
    };
    let r = plan_command(&keys(), "example.com", &cmd);
    assert!(matches!(r, Err(CommandError::ConflictingSelectors)));
}

#[test]
fn id_with_subdomain_rejected() {
    let cmd = Commands::RetreiveRecord {
        id: Some("12".to_string()),
        subdomain: Some("www".to_string()),
        record_type: None,
    };
    let r = plan_command(&keys(), "example.com", &cmd);
    assert!(matches!(r, Err(CommandError::ConflictingSelectors)));
}

#[test]
fn retrieve_by_id_plan() {
    let cmd = Commands::RetreiveRecord {
        id: Some("123".to_string()),
        subdomain: None,
        record_type: None,
    };
    let plan = plan_command(&keys(), "example.com", &cmd).expect("should plan");
    assert_eq!(plan.url, "https://porkbun.com/api/json/v3/dns/retrieve/example.com/123");
    assert_eq!(plan.body, KEYS_BODY);
    assert!(matches!(plan.expects, ResponseKind::Records));
}

#[test]
fn retrieve_all_plan() {
    let cmd = Commands::RetreiveRecord { id: None, subdomain: None, record_type: None };
    let plan = plan_command(&keys(), "example.com", &cmd).expect("should plan");
    assert_eq!(plan.url, "https://porkbun.com/api/json/v3/dns/retrieve/example.com/");
    assert_eq!(plan.body, KEYS_BODY);
    assert!(matches!(plan.expects, ResponseKind::Records));
}

#[test]
fn retrieve_by_type_plan() {
    let cmd = Commands::RetreiveRecord {
        id: None,
        subdomain: Some("www".to_string()),
        record_type: Some("A".to_string()),
    };
    let plan = plan_command(&keys(), "example.com", &cmd).expect("should plan");
    assert_eq!(
        plan.url,
        "https://porkbun.com/api/json/v3/dns/retrieveByNameType/example.com/A/www"
    );
    assert_eq!(plan.body, KEYS_BODY);
    assert!(matches!(plan.expects, ResponseKind::Records));
}

#[test]
fn retrieve_by_type_without_subdomain_plan() {
    let cmd = Commands::RetreiveRecord {
        id: None,
        subdomain: None,
        record_type: Some("MX".to_string()),
    };
    let plan = plan_command(&keys(), "example.com", &cmd).expect("should plan");
    assert_eq!(
        plan.url,
        "https://porkbun.com/api/json/v3/dns/retrieveByNameType/example.com/MX/"
    );
}

#[test]
fn retrieve_ssl_plan() {
    let plan = plan_command(&keys(), "example.com", &Commands::RetreiveSSL {}).expect(
        "should plan",
    );
    assert_eq!(plan.url, "https://porkbun.com/api/json/v3/ssl/retrieve/example.com");
    assert_eq!(plan.body, KEYS_BODY);
    assert!(matches!(plan.expects, ResponseKind::Ssl));
}

#[test]
fn add_record_plan() {
    let cmd = Commands::AddRecord {
        name: "www".to_string(),
        record_type: "A".to_string(),
        content: "1.2.3.4".to_string(),
        ttl: 300,
    };
    let plan = plan_command(&keys(), "example.com", &cmd).expect("should plan");
    assert_eq!(plan.url, "https://porkbun.com/api/json/v3/dns/create/example.com");
    assert_eq!(
        plan.body,
        "{\"secretapikey\":\"sk\",\"apikey\":\"ak\",\"name\":\"www\",\"dtype\":\"A\",\"content\":\"1.2.3.4\",\"ttl\":300}"
    );
    assert!(matches!(plan.expects, ResponseKind::Ack));
}

#[test]
fn delete_by_id_plan() {
    let cmd = Commands::DeleteRecord(DeleteCommand {
        command: DeleteOptions::ById { id: "7".to_string() },
    });
    let plan = plan_command(&keys(), "example.com", &cmd).expect("should plan");
    assert_eq!(plan.url, "https://porkbun.com/api/json/v3/dns/delete/example.com/7");
    assert_eq!(plan.body, KEYS_BODY);
    assert!(matches!(plan.expects, ResponseKind::Ack));
}

#[test]
fn delete_by_subdomain_and_type_plan() {
    let cmd = Commands::DeleteRecord(DeleteCommand {
        command: DeleteOptions::BySubdomainAndType {
            subdomain: "mail".to_string(),
            record_type: "CNAME".to_string(),
        },
    });
    let plan = plan_command(&keys(), "example.com", &cmd).expect("should plan");
    assert_eq!(
        plan.url,
        "https://porkbun.com/api/json/v3/dns/deleteByNameType/example.com/CNAME/mail"
    );
    assert!(matches!(plan.expects, ResponseKind::Ack));
}

#[test]
fn edit_by_id_plan() {
    let cmd = Commands::EditRecord(EditCommand {
        command: EditOptions::ById {
            id: "42".to_string(),
            name: "www".to_string(),
            record_type: "A".to_string(),
            content: "5.6.7.8".to_string(),
            ttl: Some("600".to_string()),
        },
    });
    let plan = plan_command(&keys(), "example.com", &cmd).expect("should plan");
    assert_eq!(plan.url, "https://porkbun.com/api/json/v3/dns/edit/example.com/42");
    assert_eq!(
        plan.body,
        "{\"secretapikey\":\"sk\",\"apikey\":\"ak\",\"name\":\"www\",\"dtype\":\"A\",\"content\":\"5.6.7.8\",\"ttl\":600}"
    );
    assert!(matches!(plan.expects, ResponseKind::Ack));
}

#[test]
fn edit_by_id_without_ttl_rejected() {
    let cmd = Commands::EditRecord(EditCommand {
        command: EditOptions::ById {
            id: "42".to_string(),
            name: "www".to_string(),
            record_type: "A".to_string(),
            content: "5.6.7.8".to_string(),
            ttl: None,
        },
    });
    let r = plan_command(&keys(), "example.com", &cmd);
    assert!(matches!(r, Err(CommandError::InvalidTtl)));
}

#[test]
fn edit_with_unparsable_ttl_rejected() {
    let cmd = Commands::EditRecord(EditCommand {
        command: EditOptions::BySubdomainAndType {
            subdomain: "www".to_string(),
            record_type: "A".to_string(),
            content: "5.6.7.8".to_string(),
            ttl: "soon".to_string(),
        },
    });
    let r = plan_command(&keys(), "example.com", &cmd);
    assert!(matches!(r, Err(CommandError::InvalidTtl)));
}

#[test]
fn edit_by_subdomain_and_type_plan() {
    let cmd = Commands::EditRecord(EditCommand {
        command: EditOptions::BySubdomainAndType {
            subdomain: "blog".to_string(),
            record_type: "TXT".to_string(),
            content: "v=spf1".to_string(),
            ttl: "300".to_string(),
        },
    });
    let plan = plan_command(&keys(), "example.com", &cmd).expect("should plan");
    assert_eq!(
        plan.url,
        "https://porkbun.com/api/json/v3/dns/editByNameType/example.com/TXT/blog"
    );
    assert_eq!(
        plan.body,
        "{\"secretapikey\":\"sk\",\"apikey\":\"ak\",\"content\":\"v=spf1\",\"ttl\":300}"
    );
    assert!(matches!(plan.expects, ResponseKind::Ack));
}
