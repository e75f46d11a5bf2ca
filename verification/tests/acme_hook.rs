use std::cell::RefCell;

use surmount_edge::acme::cred::{fqdn_to_hostname, parse_credentials, require_owner_only, Credentials};
use surmount_edge::acme::hook::{
    api_base, api_xml_error, check_clear_args, check_set_args, clear_txt, get_hosts, get_hosts_request,
    parse_get_hosts, parse_hook_command, parse_set_hosts_ok, refuse_wipe, reply_body, set_hosts, set_hosts_request,
    set_txt, txt_ready, ApiReply, HookCommand, Hosts, DEFAULT_API, PREFIX,
};
use surmount_edge::acme::zone::{parse_zone, render_zone, Record};
use surmount_edge::tls::LinkMeta;

fn cred(client_ip: &str) -> Credentials {
    Credentials {
        api_user: "u".to_string(),
        api_key: "surmount-test-apikey-not-real-001".to_string(),
        user_name: "u".to_string(),
        client_ip: client_ip.to_string(),
        sld: "surmount".to_string(),
        tld: "systems".to_string(),
        settle_secs: 0,
        txt_ttl: 60,
        path: "/tmp/namecheap.env".to_string(),
    }
}

fn rec(name: &str, typ: &str, addr: &str) -> Record {
    Record {
        name: name.to_string(),
        record_type: typ.to_string(),
        address: addr.to_string(),
        mx_pref: "10".to_string(),
        ttl: "1800".to_string(),
    }
}

fn lines(text: &str) -> Vec<Option<String>> {
    text.lines().map(|l| Some(l.to_string())).collect()
}

#[test]
fn parse_get_hosts_records_and_email_type() {
    let xml = r#"<?xml version="1.0"?><ApiResponse Status="OK"><CommandResponse><DomainDNSGetHostsResult EmailType="MX"><host Name="@" Type="A" Address="203.0.113.10" MXPref="10" TTL="1800" /><host Name="_acme-challenge" Type="TXT" Address="abc" MXPref="10" TTL="60" /></DomainDNSGetHostsResult></CommandResponse></ApiResponse>"#;
    let h = parse_get_hosts(xml, PREFIX).unwrap();
    assert_eq!(h.email_type, "MX");
    assert_eq!(h.records.len(), 2);
    assert_eq!(h.records[0].name, "@");
    assert_eq!(h.records[1].address, "abc");
}

#[test]
fn parse_get_hosts_invalid_request_ip() {
    let xml = r#"<ApiResponse Status="ERROR"><Errors><Error Number="1011150">Invalid request IP</Error></Errors></ApiResponse>"#;
    let err = parse_get_hosts(xml, PREFIX).err().unwrap();
    assert!(err.to_ascii_lowercase().contains("invalid request ip"));
    assert!(err.contains("BLOCKED"));
}

#[test]
fn parse_get_hosts_empty_refuses_wipe() {
    let xml = r#"<ApiResponse Status="OK"><DomainDNSGetHostsResult EmailType="MX"></DomainDNSGetHostsResult></ApiResponse>"#;
    let err = parse_get_hosts(xml, PREFIX).err().unwrap();
    assert!(err.to_ascii_lowercase().contains("no records"));
}

#[test]
fn api_error_replies() {
    let e = api_xml_error(r#"<ApiResponse Status="ERROR"><Errors><Error Number="1011150">Invalid request IP</Error></Errors></ApiResponse>"#, PREFIX)
        .unwrap();
    assert_eq!(
        e,
        "acme-dns-hook-namecheap: BLOCKED: Invalid request IP (Namecheap ClientIp whitelist of laptop egress) Number=1011150"
    );
    assert!(api_xml_error(r#"<ApiResponse Status="OK"></ApiResponse>"#, PREFIX).is_none());
    assert!(parse_set_hosts_ok(r#"<ApiResponse Status="OK"><DomainDNSSetHostsResult IsSuccess="true" /></ApiResponse>"#, PREFIX).is_ok());
    assert_eq!(
        parse_set_hosts_ok(r#"<ApiResponse><DomainDNSSetHostsResult IsSuccess="false" /></ApiResponse>"#, PREFIX).unwrap_err(),
        "acme-dns-hook-namecheap: Namecheap setHosts did not report success"
    );
}

#[test]
fn requests_need_client_ip_and_refuse_wipes() {
    let err = get_hosts_request(&cred("  "), PREFIX).err().unwrap();
    assert_eq!(err, "acme-dns-hook-namecheap: BLOCKED: live Namecheap API requires ClientIp (laptop egress whitelist)");
    let q = get_hosts_request(&cred("198.51.100.7"), PREFIX).unwrap();
    let keys: Vec<&str> = q.iter().map(|(k, _)| k.as_str()).collect();
    assert_eq!(keys, vec!["ApiUser", "ApiKey", "UserName", "ClientIp", "Command", "SLD", "TLD"]);
    let empty = Hosts { records: vec![], email_type: "MX".to_string() };
    assert!(set_hosts_request(&cred("198.51.100.7"), &empty, PREFIX).unwrap_err().contains("refuse setHosts wipe"));
    let no_email = Hosts { records: vec![rec("@", "A", "203.0.113.10")], email_type: String::new() };
    assert!(set_hosts_request(&cred("198.51.100.7"), &no_email, PREFIX).unwrap_err().contains("EmailType"));
    let ok = Hosts { records: vec![rec("@", "A", "203.0.113.10"), rec("_acme-challenge", "TXT", "v")], email_type: "MX".to_string() };
    let q = set_hosts_request(&cred("198.51.100.7"), &ok, PREFIX).unwrap();
    assert!(q.contains(&("HostName2".to_string(), "_acme-challenge".to_string())));
    assert!(q.contains(&("EmailType".to_string(), "MX".to_string())));
    assert!(q.contains(&("TTL1".to_string(), "1800".to_string())));
    assert!(refuse_wipe(&vec![]).is_err());
}

#[test]
fn get_and_set_hosts_through_a_transport() {
    let seen: RefCell<Vec<Vec<(String, String)>>> = RefCell::new(Vec::new());
    let xml = r#"<ApiResponse Status="OK"><DomainDNSGetHostsResult EmailType="MX"><host Name="@" Type="A" Address="203.0.113.10" MXPref="10" TTL="1800" /></DomainDNSGetHostsResult></ApiResponse>"#;
    let fetch = |q: &Vec<(String, String)>| {
        seen.borrow_mut().push(q.clone());
        ApiReply::Reply { success: true, body: xml.to_string() }
    };
    let c = cred("198.51.100.7");
    let hosts = get_hosts(&c, fetch).unwrap();
    assert_eq!(hosts.records, vec![rec("@", "A", "203.0.113.10")]);
    assert_eq!(seen.borrow().len(), 1);
    assert!(seen.borrow()[0].contains(&("Command".to_string(), "namecheap.domains.dns.getHosts".to_string())));
    // Without a ClientIp nothing is sent.
    assert!(get_hosts(&cred(""), |_q: &Vec<(String, String)>| ApiReply::SendFailed).is_err());
    let ok = r#"<ApiResponse Status="OK"><DomainDNSSetHostsResult IsSuccess="true" /></ApiResponse>"#;
    let recs = set_txt(hosts.records, "_acme-challenge", "txt-1", 60);
    let h2 = Hosts { records: recs, email_type: hosts.email_type };
    assert!(set_hosts(&c, &h2, |_q: &Vec<(String, String)>| ApiReply::Reply { success: true, body: ok.to_string() }).is_ok());
    let err = set_hosts(&c, &h2, |_q: &Vec<(String, String)>| ApiReply::ClientFailed).unwrap_err();
    assert_eq!(err, "acme-dns-hook-namecheap: Namecheap API HTTP client failed (URL not logged)");
}

#[test]
fn transport_failures_never_echo_the_url() {
    assert_eq!(
        reply_body(ApiReply::SendFailed, PREFIX).unwrap_err(),
        "acme-dns-hook-namecheap: Namecheap API HTTP failed (URL not logged)"
    );
    assert_eq!(
        reply_body(ApiReply::BodyUnreadable, PREFIX).unwrap_err(),
        "acme-dns-hook-namecheap: Namecheap API body unreadable (URL not logged)"
    );
    assert_eq!(
        reply_body(ApiReply::Reply { success: false, body: "<html>oops</html>".to_string() }, PREFIX).unwrap_err(),
        "acme-dns-hook-namecheap: Namecheap API HTTP status failed (URL and body not logged)"
    );
    assert_eq!(reply_body(ApiReply::Reply { success: true, body: "x".to_string() }, PREFIX).unwrap(), "x");
    assert_eq!(api_base(Some(String::new()), None), DEFAULT_API);
    assert_eq!(api_base(Some("https://a".into()), Some("https://b".into())), "https://a");
    assert_eq!(api_base(None, Some("https://b".into())), "https://b");
}

#[test]
fn hook_set_wait_clear_preserve_in_memory() {
    // A zone with an A record survives set / clear of the challenge TXT.
    let zone = parse_zone("@|A|203.0.113.10|10|1800\n");
    let host = fqdn_to_hostname("_acme-challenge.services.surmount.systems", "surmount", "systems").unwrap();
    assert_eq!(host, "_acme-challenge.services");
    let set = set_txt(zone, &host, "synthetic-txt-aaa", 60);
    assert!(txt_ready(&set, &host, "synthetic-txt-aaa"));
    assert!(!txt_ready(&set, &host, "other"));
    let text = render_zone(&set);
    assert_eq!(text, "@|A|203.0.113.10|10|1800\n_acme-challenge.services|TXT|synthetic-txt-aaa|10|60\n");
    let again = set_txt(parse_zone(&text), &host, "synthetic-txt-bbb", 60);
    assert_eq!(again.len(), 2);
    let cleared = clear_txt(again, &host);
    assert_eq!(cleared, vec![rec("@", "A", "203.0.113.10")]);
    assert!(!txt_ready(&cleared, &host, "synthetic-txt-bbb"));
}

#[test]
fn hook_commands_and_arguments() {
    let args = |v: &[&str]| v.iter().map(|s| s.to_string()).collect::<Vec<String>>();
    assert_eq!(
        parse_hook_command(&args(&["set", "a.surmount.systems", "v"])).unwrap(),
        HookCommand::SetTxt { fqdn: "a.surmount.systems".to_string(), value: "v".to_string() }
    );
    assert!(parse_hook_command(&args(&[])).unwrap_err().contains("usage"));
    assert_eq!(parse_hook_command(&args(&["set", "a"])).unwrap_err(), "acme-dns-hook-namecheap: set requires <fqdn> <txt_value>");
    assert!(parse_hook_command(&args(&["clear"])).is_err());
    assert_eq!(check_set_args("", "v").unwrap_err(), "acme-dns-hook-namecheap: set: missing fqdn");
    assert_eq!(check_set_args("a", "v\u{7}").unwrap_err(), "acme-dns-hook-namecheap: set: control characters refused");
    assert!(check_set_args("a", "v").is_ok());
    assert!(check_clear_args("a\n").is_err());
}

#[test]
fn fqdn_host_names() {
    assert_eq!(fqdn_to_hostname("surmount.systems.", "surmount", "systems").unwrap(), "@");
    assert_eq!(fqdn_to_hostname("_acme-challenge.surmount.systems", "surmount", "systems").unwrap(), "_acme-challenge");
    assert_eq!(fqdn_to_hostname("...", "a", "b").unwrap_err(), "acme-dns-hook-namecheap: empty fqdn");
    assert_eq!(
        fqdn_to_hostname("x.example.org", "surmount", "systems").unwrap_err(),
        "acme-dns-hook-namecheap: fqdn x.example.org is not under surmount.systems (check SLD/TLD in credentials)"
    );
}

#[test]
fn credentials_parse_and_refusals() {
    let text = "# comment\nApiUser=u\nApiKey=\"k\"\nSLD=surmount\r\nTLD='systems'\nClientIp=198.51.100.7\nSettleSeconds=120\n";
    let c = parse_credentials(&lines(text), "/tmp/nc.env", PREFIX).unwrap();
    assert_eq!(c.api_key, "k");
    assert_eq!(c.user_name, "u");
    assert_eq!(c.tld, "systems");
    assert_eq!(c.sld, "surmount");
    assert_eq!(c.settle_secs, 120);
    assert_eq!(c.txt_ttl, 60);
    let missing = parse_credentials(&lines("ApiUser=u\nSLD=a\nTLD=b\n"), "/tmp/nc.env", PREFIX).err().unwrap();
    assert_eq!(missing, "acme-dns-hook-namecheap: credentials missing ApiKey (file=/tmp/nc.env)");
    let bad = parse_credentials(&lines("just words\n"), "/tmp/nc.env", PREFIX).err().unwrap();
    assert_eq!(bad, "acme-dns-hook-namecheap: credentials line must be KEY=value (file=/tmp/nc.env)");
    let ttl = parse_credentials(&lines("ApiUser=u\nApiKey=k\nSLD=a\nTLD=b\nTxtTtl=30\n"), "/tmp/nc.env", PREFIX).err().unwrap();
    assert_eq!(ttl, "acme-dns-hook-namecheap: TxtTtl must be an integer >= 60");
    let unreadable = parse_credentials(&vec![Some("ApiUser=u".to_string()), None], "/tmp/nc.env", PREFIX).err().unwrap();
    assert_eq!(unreadable, "acme-dns-hook-namecheap: credentials unreadable: /tmp/nc.env");
}

#[test]
fn credentials_file_must_be_owner_only() {
    assert!(require_owner_only("/tmp/nc.env", PREFIX, &LinkMeta::Regular { mode: 0o100600 }).is_ok());
    let err = require_owner_only("/tmp/nc.env", PREFIX, &LinkMeta::Regular { mode: 0o100644 }).unwrap_err();
    assert_eq!(
        err,
        "acme-dns-hook-namecheap: credentials file must be owner-only (mode 0600; refuse group/world bits): /tmp/nc.env (mode 644)"
    );
    assert!(require_owner_only("/tmp/nc.env", PREFIX, &LinkMeta::Symlink).unwrap_err().contains("symlink refused"));
    assert_eq!(require_owner_only("", PREFIX, &LinkMeta::NotFound).unwrap_err(), "acme-dns-hook-namecheap: credentials path empty");
    assert_eq!(
        require_owner_only("/x", PREFIX, &LinkMeta::NotFound).unwrap_err(),
        "acme-dns-hook-namecheap: credentials file missing: /x"
    );
}

#[test]
fn zone_file_round_trip_and_defaults() {
    let recs = parse_zone("# c\n\n@|A|203.0.113.10\r\nmail|MX|mx.example|5|300\n|TXT|x\nbad\n");
    assert_eq!(
        recs,
        vec![
            Record {
                name: "@".into(),
                record_type: "A".into(),
                address: "203.0.113.10".into(),
                mx_pref: "10".into(),
                ttl: "1800".into()
            },
            Record {
                name: "mail".into(),
                record_type: "MX".into(),
                address: "mx.example".into(),
                mx_pref: "5".into(),
                ttl: "300".into()
            },
        ]
    );
    assert_eq!(parse_zone(&render_zone(&recs)), recs);
}

#[test]
fn refused_requests_never_reach_the_transport() {
    let calls: RefCell<u32> = RefCell::new(0);
    let count = |_q: &Vec<(String, String)>| {
        *calls.borrow_mut() += 1;
        ApiReply::SendFailed
    };
    let err = get_hosts(&cred("  "), count).unwrap_err();
    assert!(err.contains("BLOCKED"), "{err}");
    let empty = Hosts { records: vec![], email_type: "MX".to_string() };
    let count = |_q: &Vec<(String, String)>| {
        *calls.borrow_mut() += 1;
        ApiReply::SendFailed
    };
    assert!(set_hosts(&cred("198.51.100.7"), &empty, count).unwrap_err().contains("refuse setHosts wipe"));
    assert_eq!(*calls.borrow(), 0);
    let one = Hosts { records: vec![rec("@", "A", "203.0.113.10")], email_type: "MX".to_string() };
    let count = |_q: &Vec<(String, String)>| {
        *calls.borrow_mut() += 1;
        ApiReply::Reply { success: true, body: r#"<ApiResponse Status="OK" />"#.to_string() }
    };
    assert!(set_hosts(&cred("198.51.100.7"), &one, count).is_ok());
    assert_eq!(*calls.borrow(), 1);
}

#[test]
fn set_with_new_value_retires_old_value() {
    let recs = vec![rec("@", "A", "203.0.113.10")];
    let once = set_txt(recs, "_acme-challenge", "old", 60);
    let twice = set_txt(once, "_acme-challenge", "new", 60);
    assert!(!txt_ready(&twice, "_acme-challenge", "old"));
    assert!(txt_ready(&twice, "_acme-challenge", "new"));
}

use surmount_edge::acme::cred::load_credentials;
use surmount_edge::acme::hook::{hosts_from_reply, set_outcome_from_reply};

#[test]
fn load_credentials_checks_mode_then_reads() {
    let text = lines("ApiUser=u\nApiKey=surmount-test-apikey-not-real-001\nSLD=a\nTLD=b\n");
    let loose = LinkMeta::Regular { mode: 0o644 };
    let e = load_credentials("/tmp/nc.env", PREFIX, &loose, Some(&text)).err().unwrap();
    assert!(e.contains("owner-only"), "{e}");
    assert!(!e.contains("surmount-test-apikey-not-real-001"));
    let ok = LinkMeta::Regular { mode: 0o600 };
    let e = load_credentials("/tmp/nc.env", PREFIX, &ok, None).err().unwrap();
    assert_eq!(e, "acme-dns-hook-namecheap: credentials file unreadable: /tmp/nc.env");
    let c = load_credentials("/tmp/nc.env", PREFIX, &ok, Some(&text)).unwrap();
    assert_eq!(c.user_name, "u");
    assert_eq!(c.txt_ttl, 60);
}

#[test]
fn replies_read_without_a_transport() {
    let xml = r#"<ApiResponse Status="OK"><DomainDNSGetHostsResult EmailType="MX"><host Name="@" Type="A" Address="203.0.113.10" /></DomainDNSGetHostsResult></ApiResponse>"#;
    let h = hosts_from_reply(ApiReply::Reply { success: true, body: xml.to_string() }, PREFIX).unwrap();
    assert_eq!(h.records[0].mx_pref, "10");
    assert_eq!(h.records[0].ttl, "1800");
    assert!(hosts_from_reply(ApiReply::SendFailed, PREFIX).is_err());
    assert!(set_outcome_from_reply(ApiReply::Reply { success: true, body: r#"<ApiResponse Status="OK" />"#.into() }, PREFIX).is_ok());
}
