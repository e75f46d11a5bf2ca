use surmount_edge::acme::dispatch::{
    check_inner_hook, data_homes, dispatch_args, extra_candidates, inner_hook_path, is_primary_zone, pick_first,
    primary_candidates, zone_env_not_found,
};
use surmount_edge::acme::lab::{
    check_lab_zone, lab_clear, lab_ready, lab_set, parse_lab, parse_lab_command, render_lab, LabCommand,
};
use surmount_edge::acme::laptop::{
    absolutize, check_install_timer, check_issued_sans, check_namecheap_env, check_report, check_restart_target,
    check_settle, checkend_secs, default_hook_name, env_file_key, exit_code, extra_namecheap_zones, finalize_opts,
    floor_intended_leaf, install_args, issue_env, issue_fail, issue_step, laptop_steps, parse_host_profile,
    parse_laptop_cli, refuse_dropped_intended_leaf, resolve_directory, sh_quote, stage_attributes, unquote,
    validate_hook_file, wrap_script, ChildState, IssueStep, LaptopCli, LaptopStep, PRODUCTION, STAGING,
};
use surmount_edge::tls::LinkMeta;

fn args(v: &[&str]) -> Vec<String> {
    v.iter().map(|s| s.to_string()).collect()
}

fn pair(a: &str, b: &str) -> (String, String) {
    (a.to_string(), b.to_string())
}

const DROPPED: &str = "surmount.systems,www.surmount.systems,mail.surmount.systems,services.surmount.systems,mta-sts.surmount.systems,baxterartworks.com,www.baxterartworks.com,btcfur.com,www.btcfur.com,iantuckerstudios.com,www.iantuckerstudios.com,nostrfurs.com,www.nostrfurs.com,yiffa.app,www.yiffa.app,cryptoquick.com,www.cryptoquick.com,mail.cryptoquick.com";

const PROFILE: &str = "host_id = \"surmount-1\"\nacme_email = \"admin@example.invalid\"\nacme_domains = [\n  \"surmount.systems\",\n  \"www.surmount.systems\",\n  \"mail.surmount.systems\",\n  \"services.surmount.systems\",\n  \"mta-sts.surmount.systems\",\n  \"cryptoquick.com\",\n  \"www.cryptoquick.com\",\n  \"mail.cryptoquick.com\",\n  \"btcdragonlord.com\",\n  \"www.btcdragonlord.com\",\n  \"btckitties.com\",\n  \"www.btckitties.com\",\n]\n";

#[test]
fn lab_set_wait_clear_in_memory() {
    let zone = parse_lab("");
    let cmd = parse_lab_command(&args(&["set", "_acme-challenge.example.test", "lab-txt-1"])).unwrap();
    assert_eq!(
        cmd,
        LabCommand::SetTxt { fqdn: "_acme-challenge.example.test".into(), value: "lab-txt-1".into() }
    );
    let zone = lab_set(zone, "_acme-challenge.example.test", "lab-txt-1");
    let text = render_lab(&zone);
    assert_eq!(text, "_acme-challenge.example.test lab-txt-1\n");
    let zone = parse_lab(&text);
    assert!(lab_ready(&zone, "_acme-challenge.example.test", "lab-txt-1"));
    let zone = parse_lab(&render_lab(&lab_clear(&zone, "_acme-challenge.example.test")));
    assert!(!lab_ready(&zone, "_acme-challenge.example.test", "lab-txt-1"));
}

#[test]
fn lab_file_and_command_rules() {
    let zone = parse_lab("# c\n\nx v1\ny\nx v2\n");
    assert_eq!(zone, vec![pair("x", "v1"), pair("y", ""), pair("x", "v2")]);
    let set = lab_set(zone, "x", "new");
    assert_eq!(set, vec![pair("x", "new"), pair("y", ""), pair("x", "v2")]);
    assert_eq!(lab_clear(&set, "x"), vec![pair("y", "")]);
    assert_eq!(parse_lab_command(&args(&[])).unwrap_err(), "acme-dns-hook-lab: usage: set|clear|wait");
    assert_eq!(parse_lab_command(&args(&["set", "a"])).unwrap_err(), "acme-dns-hook-lab: set: missing fqdn");
    assert_eq!(parse_lab_command(&args(&["set", "a", "b\t"])).unwrap_err(), "acme-dns-hook-lab: set: control characters refused");
    assert_eq!(parse_lab_command(&args(&["nope"])).unwrap_err(), "acme-dns-hook-lab: unknown command: nope");
    assert_eq!(
        check_lab_zone("/z", &LinkMeta::Symlink).unwrap_err(),
        "acme-dns-hook-lab: zone path must be a regular file (symlink refused): /z"
    );
    assert!(check_lab_zone("/z", &LinkMeta::Regular { mode: 0o600 }).is_ok());
}

#[test]
fn dispatch_maps_zones_to_env_files() {
    let (xdg, share) = data_homes(Some("/x".to_string()), Some("/h".to_string()));
    assert_eq!((xdg.as_str(), share.as_str()), ("/x", "/h/.local/share"));
    let (xdg2, _) = data_homes(Some(String::new()), Some("/h".to_string()));
    assert_eq!(xdg2, "/h/.local/share");
    assert_eq!(dispatch_args(&args(&["set", "_Acme-Challenge.Services.Surmount.Systems.."])).unwrap(), "_acme-challenge.services.surmount.systems");
    assert!(dispatch_args(&args(&[])).is_err());
    assert_eq!(
        dispatch_args(&args(&["list", "x"])).unwrap_err(),
        "acme-dns-hook-namecheap-dispatch: unknown command: list (expected set|clear|wait)"
    );
    assert_eq!(dispatch_args(&args(&["set"])).unwrap_err(), "acme-dns-hook-namecheap-dispatch: set requires <fqdn>");
    assert!(is_primary_zone("_acme-challenge.services.surmount.systems"));
    assert!(!is_primary_zone("notsurmount.systems"));
    assert_eq!(
        primary_candidates("/x", "/h/.local/share"),
        vec!["/x/surmount/issue-le-prod/namecheap.env", "/h/.local/share/surmount/issue-le-prod/namecheap.env"]
    );
    assert_eq!(
        extra_candidates("_acme-challenge.www.cryptoquick.com", "/x", "/s"),
        vec![
            "/x/surmount/namecheap/_acme-challenge.www.cryptoquick.com.env",
            "/s/surmount/namecheap/_acme-challenge.www.cryptoquick.com.env",
            "/x/surmount/namecheap/www.cryptoquick.com.env",
            "/s/surmount/namecheap/www.cryptoquick.com.env",
            "/x/surmount/namecheap/cryptoquick.com.env",
            "/s/surmount/namecheap/cryptoquick.com.env",
        ]
    );
    assert!(extra_candidates("localhost", "/x", "/s").is_empty());
    let cands = args(&["", "/a.env", "/b.env"]);
    let picked = pick_first(&cands, &vec![LinkMeta::NotFound, LinkMeta::NotFound, LinkMeta::Regular { mode: 0o600 }]);
    assert_eq!(picked.unwrap().as_deref(), Some("/b.env"));
    let refused = pick_first(&cands, &vec![LinkMeta::NotFound, LinkMeta::Symlink, LinkMeta::Regular { mode: 0o600 }]);
    assert_eq!(
        refused.unwrap_err(),
        "acme-dns-hook-namecheap-dispatch: zone env must be a regular file (symlink refused): /a.env"
    );
    let loose = pick_first(&cands, &vec![LinkMeta::NotFound, LinkMeta::Regular { mode: 0o640 }, LinkMeta::NotFound]);
    assert_eq!(
        loose.unwrap_err(),
        "acme-dns-hook-namecheap-dispatch: zone env must be owner-only (mode 0600): /a.env (mode 640)"
    );
    assert_eq!(pick_first(&cands, &vec![LinkMeta::NotFound, LinkMeta::NotFound, LinkMeta::NotFound]).unwrap(), None);
    assert!(zone_env_not_found("yiffa.app").contains("no per-zone Namecheap env for yiffa.app"));
    assert!(zone_env_not_found("surmount.systems").contains("no primary Namecheap env"));
    assert_eq!(inner_hook_path(Some(String::new())), "acme-dns-hook-namecheap");
    assert_eq!(inner_hook_path(Some("/bin/h".to_string())), "/bin/h");
    assert!(check_inner_hook("/bin/h", &LinkMeta::Symlink).unwrap_err().contains("symlink refused"));
    assert_eq!(check_inner_hook("/bin/h", &LinkMeta::NotFound).unwrap_err(), "acme-dns-hook-namecheap-dispatch: inner hook missing: /bin/h");
}

#[test]
fn host_profile_floors_intended_leaf_and_strips_cloudflare_extras_in_memory() {
    let p = parse_host_profile(PROFILE);
    assert_eq!(p.host_id, "surmount-1");
    assert_eq!(p.email, "admin@example.invalid");
    assert_eq!(p.domains.len(), 12);
    let floored = floor_intended_leaf(&p.domains);
    assert!(floored.contains("exophiles.org") && floored.contains("www.exophiles.org"));
    assert!(!floored.contains("btcdragonlord.com") && !floored.contains("btckitties.com"));
    assert_eq!(floored.split(',').count(), 20);
    assert!(refuse_dropped_intended_leaf(&floored).is_ok());
    let inline = parse_host_profile("acme_domains = [\"a.test\", 'b.test', \"\"]\nhost_id='h'\n");
    assert_eq!(inline.domains, vec!["a.test".to_string(), "b.test".to_string()]);
    assert_eq!(inline.host_id, "h");
}

#[test]
fn issue_refuses_extra_zone_list_that_drops_exophiles_in_memory() {
    let err = refuse_dropped_intended_leaf(DROPPED).unwrap_err();
    assert!(err.contains("exophiles.org"));
    assert!(err.contains("intended"));
    assert!(err.contains("BLOCKED"));
    assert!(refuse_dropped_intended_leaf("services.surmount.systems,surmount.systems").is_ok());
    assert!(extra_namecheap_zones(DROPPED));
    assert!(!extra_namecheap_zones(" services.surmount.systems. ,,surmount.systems"));
    assert_eq!(default_hook_name(DROPPED), "acme-dns-hook-namecheap-dispatch");
    assert_eq!(default_hook_name("surmount.systems"), "acme-dns-hook-namecheap");
}

#[test]
fn laptop_command_line_and_steps() {
    assert!(matches!(parse_laptop_cli(&args(&[]), None).unwrap(), LaptopCli::Help));
    assert!(matches!(parse_laptop_cli(&args(&["--issue", "-h"]), None).unwrap(), LaptopCli::Help));
    assert_eq!(
        parse_laptop_cli(&args(&["--bogus"]), None).err().unwrap(),
        "laptop-renew-cert: unknown argument: --bogus"
    );
    let o = match parse_laptop_cli(&args(&["--live", "--directory", "production", "--timeout-secs", "x"]), Some("/e".to_string())).unwrap() {
        LaptopCli::Run(o) => o,
        LaptopCli::Help => panic!("expected a run"),
    };
    assert!(o.live && o.install && !o.issue);
    assert_eq!(o.timeout_secs, 300);
    assert_eq!(o.namecheap.as_deref(), Some("/e"));
    assert_eq!(o.directory_arg, "production");
    assert_eq!(laptop_steps(&o), vec![]);
    let o = match parse_laptop_cli(&args(&["--issue", "--install", "--restart-ui", "--directory", "staging"]), None).unwrap() {
        LaptopCli::Run(o) => o,
        LaptopCli::Help => panic!("expected a run"),
    };
    assert_eq!(laptop_steps(&o), vec![LaptopStep::Issue, LaptopStep::Install, LaptopStep::RestartUi]);
    let o = match parse_laptop_cli(&args(&["--dry-run", "--directory", "staging"]), None).unwrap() {
        LaptopCli::Run(o) => o,
        LaptopCli::Help => panic!("expected a run"),
    };
    assert_eq!(laptop_steps(&o), vec![LaptopStep::PrintOnly]);
    let o = finalize_opts(o, Some(parse_host_profile(PROFILE))).unwrap();
    assert!(o.domains.contains("exophiles.org"));
    assert_eq!(o.email, "admin@example.invalid");
}

#[test]
fn laptop_preflight_refusals() {
    assert_eq!(resolve_directory("production").unwrap(), (PRODUCTION.to_string(), "production".to_string()));
    assert_eq!(resolve_directory("staging").unwrap(), (STAGING.to_string(), "staging".to_string()));
    assert_eq!(resolve_directory("https://ca.example/dir").unwrap().1, "custom");
    assert!(resolve_directory("").unwrap_err().contains("BLOCKED: missing --directory"));
    assert_eq!(
        resolve_directory("ftp://x").unwrap_err(),
        "laptop-renew-cert: unknown --directory ftp://x (use production, staging, or https:// URL)"
    );
    assert!(check_namecheap_env("/e", &LinkMeta::Regular { mode: 0o600 }).is_ok());
    assert!(check_namecheap_env("/e", &LinkMeta::Regular { mode: 0o644 }).unwrap_err().contains("owner-only"));
    assert!(check_namecheap_env("/e", &LinkMeta::Symlink).unwrap_err().contains("symlink refused"));
    assert!(check_settle(&Some("120".to_string()), "production", true).is_ok());
    assert!(check_settle(&Some("60".to_string()), "production", false).unwrap_err().contains("below floor 120"));
    assert!(check_settle(&Some("30".to_string()), "staging", true).is_ok());
    assert!(check_settle(&Some("x".to_string()), "staging", true).unwrap_err().contains("not an integer"));
    assert!(check_settle(&None, "production", true).unwrap_err().contains("SettleSeconds>=120"));
    assert!(check_settle(&None, "production", false).is_ok());
    assert!(check_install_timer(true, "").is_err());
    assert!(check_install_timer(true, "root@host").is_ok());
    assert!(check_restart_target("").unwrap_err().contains("--restart-ui requires --target"));
    assert_eq!(env_file_key("# x\r\nSettleSeconds=120\r\nSettleSeconds=5\n", "SettleSeconds").as_deref(), Some("120"));
    assert_eq!(env_file_key("A=1\n", "SettleSeconds"), None);
}

#[test]
fn laptop_issue_pieces() {
    assert_eq!(sh_quote("it's"), "'it'\\''s'");
    assert_eq!(unquote(" \"a b\" "), "a b");
    assert_eq!(unquote("'x"), "'x");
    let w = wrap_script("/e/nc.env", "/home/u", "/bin/hook", Some("/bin/inner"), "/w/hook-stderr.log");
    assert_eq!(
        w,
        "#!/bin/sh\nset -eu\nexport SURMOUNT_ACME_DNS_NAMECHEAP_ENV='/e/nc.env'\nexport HOME='/home/u'\nexport SURMOUNT_ACME_DNS_DISPATCH_INNER_HOOK='/bin/inner'\nexec '/bin/hook' \"$@\" 2>>'/w/hook-stderr.log'\n"
    );
    assert!(validate_hook_file("/h", &LinkMeta::NotFound).unwrap_err().contains("--hook missing: /h"));
    assert!(validate_hook_file("/h", &LinkMeta::NotRegular).unwrap_err().contains("--hook must be a regular file: /h"));
    assert_eq!(
        issue_fail(Some("...Invalid Request IP..."), "x"),
        "laptop-renew-cert: BLOCKED: Invalid request IP (Namecheap API ClientIp whitelist of laptop egress)"
    );
    assert_eq!(issue_fail(None, "ui-bin exited before PEMs"), "laptop-renew-cert: ui-bin exited before PEMs");
    assert_eq!(checkend_secs(30), 2_592_000);
    assert_eq!(checkend_secs(u64::MAX), u64::MAX);
    assert_eq!(
        install_args("surmount-1", Some("/w/staging"), "root@h", "ssh"),
        args(&[
            "--require-kind", "tls-cert", "--require-kind", "tls-key", "--host-id", "surmount-1", "--from-staging",
            "/w/staging", "--target", "root@h", "--ssh-cmd", "ssh"
        ])
    );
    assert_eq!(
        stage_attributes("tls-cert", "surmount-1", "/var/lib/surmount/secrets/tls/cert.pem"),
        "surmount.kind=tls-cert\nsurmount.host=surmount-1\nsurmount.path=/var/lib/surmount/secrets/tls/cert.pem\n"
    );
    let env = issue_env("https://acme", "a.test", "/w/wrap.sh", "/w/acct.json", "/w/c.pem", "/w/k.pem", "", "");
    assert_eq!(env.len(), 12);
    assert!(env.contains(&pair("SURMOUNT_LISTEN", "127.0.0.1:18780")));
    assert!(env.contains(&pair("SURMOUNT_AUTH_MODE", "off")));
    let env = issue_env("https://acme", "a.test", "/w", "/a", "/c", "/k", "127.0.0.1:9", "me@x");
    assert_eq!(env.last(), Some(&pair("SURMOUNT_ACME_EMAIL", "me@x")));
}

#[test]
fn laptop_issue_fails_when_ui_child_exits_nonzero_in_memory() {
    assert_eq!(
        issue_step(false, &ChildState::Exited { success: false, code: Some(3) }, false),
        IssueStep::Fail { kill_child: false, msg: "ui-bin/hook child exited non-zero (3)".to_string() }
    );
    assert_eq!(
        issue_step(false, &ChildState::Exited { success: false, code: None }, false),
        IssueStep::Fail { kill_child: false, msg: "ui-bin/hook child exited non-zero (-1)".to_string() }
    );
    assert_eq!(
        issue_step(false, &ChildState::Exited { success: true, code: Some(0) }, false),
        IssueStep::Fail { kill_child: false, msg: "ui-bin exited before PEMs".to_string() }
    );
    assert_eq!(issue_step(false, &ChildState::Exited { success: false, code: Some(1) }, true), IssueStep::Done { kill_child: false });
    assert_eq!(issue_step(false, &ChildState::Running, true), IssueStep::Done { kill_child: true });
    assert_eq!(issue_step(false, &ChildState::Running, false), IssueStep::Wait);
    assert_eq!(
        issue_step(true, &ChildState::Running, false),
        IssueStep::Fail { kill_child: true, msg: "issue timed out waiting for PEMs".to_string() }
    );
    assert_eq!(
        issue_step(false, &ChildState::WaitFailed("boom".to_string()), false),
        IssueStep::Refuse { kill_child: true, err: "laptop-renew-cert: ui-bin wait: boom".to_string() }
    );
}

#[test]
fn issued_names_must_cover_the_request() {
    let text = "            X509v3 Subject Alternative Name: \n                DNS:surmount.systems, DNS:www.surmount.systems.\n";
    assert_eq!(check_issued_sans(text, "surmount.systems,WWW.surmount.systems").unwrap(), Some(2));
    assert_eq!(
        check_issued_sans(text, "surmount.systems,mail.surmount.systems,a.test").unwrap_err(),
        "laptop-renew-cert: issued certificate omitted requested hostnames: mail.surmount.systems,a.test"
    );
    assert_eq!(check_issued_sans("no names here", "a.test").unwrap(), None);
}

#[test]
fn run_reports_and_exit_codes() {
    assert_eq!(exit_code("laptop-renew-cert: BLOCKED: x"), 2);
    assert_eq!(exit_code("laptop-renew-cert: x"), 1);
    assert_eq!(check_report(false, false), "laptop-renew-cert: renew_needed=yes (leaf missing)");
    assert_eq!(check_report(true, true), "laptop-renew-cert: renew_needed=no (not due; issue not needed)");
    assert_eq!(check_report(true, false), "laptop-renew-cert: renew_needed=yes (due; issue needed)");
    assert_eq!(absolutize("/abs/p", "/cwd"), "/abs/p");
    assert_eq!(absolutize("rel/p", "/cwd"), "/cwd/rel/p");
    assert_eq!(absolutize("rel", "/"), "/rel");
}

use surmount_edge::acme::laptop::{laptop_preflight, Preflight};

fn opts_of(v: &[&str]) -> surmount_edge::acme::laptop::LaptopOpts {
    match parse_laptop_cli(&args(v), None).unwrap() {
        LaptopCli::Run(o) => o,
        LaptopCli::Help => panic!("help"),
    }
}

#[test]
fn preflight_refusals_in_order() {
    let ok = LinkMeta::Regular { mode: 0o600 };
    // Directory first, even without a Namecheap env.
    let e = laptop_preflight(opts_of(&["--directory", "bogus"]), &ok, None, &LinkMeta::NotFound, None).err().unwrap();
    assert!(e.contains("directory"), "{e}");
    // Then the Namecheap env path.
    let e = laptop_preflight(opts_of(&["--directory", "production"]), &ok, None, &LinkMeta::NotFound, None).err().unwrap();
    assert!(e.contains("missing Namecheap env"), "{e}");
    // Then the settle floor for a production issue.
    let o = opts_of(&["--directory", "production", "--issue", "--namecheap-env", "/tmp/nc.env"]);
    let e = laptop_preflight(o, &ok, Some("SettleSeconds=60\n"), &LinkMeta::NotFound, None).err().unwrap();
    assert!(e.contains("below floor 120"), "{e}");
    // Then --install-timer without --target.
    let o = opts_of(&["--directory", "staging", "--install-timer", "--namecheap-env", "/tmp/nc.env"]);
    let e = laptop_preflight(o, &ok, Some(""), &LinkMeta::NotFound, None).err().unwrap();
    assert!(e.contains("--install-timer requires --target"), "{e}");
    // Then an unreadable host profile.
    let o = opts_of(&["--directory", "staging", "--namecheap-env", "/tmp/nc.env", "--host-profile", "/tmp/hp.nix"]);
    let e = laptop_preflight(o, &ok, Some(""), &ok, None).err().unwrap();
    assert!(e.contains("BLOCKED: host-profile unreadable: /tmp/hp.nix"), "{e}");
}

#[test]
fn preflight_passes_with_resolved_paths() {
    let ok = LinkMeta::Regular { mode: 0o600 };
    let o = opts_of(&["--directory", "staging", "--namecheap-env", "/tmp/nc.env"]);
    let Preflight { url, label, namecheap, .. } = laptop_preflight(o, &ok, Some(""), &LinkMeta::NotFound, None).unwrap();
    assert_eq!(label, "staging");
    assert_eq!(url, STAGING);
    assert_eq!(namecheap, "/tmp/nc.env");
}
