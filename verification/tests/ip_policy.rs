use flowlens::ip_policy::{
    apply_unsupported, binding_outcome, binding_script_for, failure_text, first_line, parse_bindings,
    parse_int, parse_prefix_policies, replace_str, status, status_unsupported, PolicyApply,
    PolicyCommand, PolicyStep, ADMIN_REQUIRED_MESSAGE, EMPTY_OUTPUT_MESSAGE, PREFER_IPV6_MESSAGE,
};

fn chars(s: &str) -> Vec<char> {
    s.chars().collect()
}

const PREFIX_LISTING: &str = "Querying active state...\r\n\r\n  ::1/128   50  0\r\n  ::/0      40  1\r\n  ::ffff:0:0/96  35  4\r\n  2002::/16  30  2\r\n";

#[test]
fn integers_parse_like_from_str() {
    assert_eq!(parse_int(&chars("40")), Some(40));
    assert_eq!(parse_int(&chars("+7")), Some(7));
    assert_eq!(parse_int(&chars("-12")), Some(-12));
    assert_eq!(parse_int(&chars("9223372036854775807")), Some(i64::MAX));
    assert_eq!(parse_int(&chars("-9223372036854775808")), Some(i64::MIN));
    assert_eq!(parse_int(&chars("9223372036854775808")), None);
    assert_eq!(parse_int(&chars("")), None);
    assert_eq!(parse_int(&chars("-")), None);
    assert_eq!(parse_int(&chars("4x")), None);
    assert_eq!(parse_int(&chars(" 4")), None);
    assert_eq!(parse_int(&chars("00012")), Some(12));
    for s in ["0", "-0", "123456789", "+-1", "99999999999999999999", "1_000"] {
        assert_eq!(parse_int(&chars(s)), s.parse::<i64>().ok(), "{s}");
    }
}

#[test]
fn prefix_policies_are_read() {
    assert_eq!(parse_prefix_policies(PREFIX_LISTING), (40, 35));
    assert_eq!(parse_prefix_policies("::/0 abc\n::ffff:0:0/96 46\n"), (-1, 46));
    assert_eq!(parse_prefix_policies("nothing here"), (0, 0));
    assert_eq!(parse_prefix_policies("40 ::/0\n::/0 45\n::/0 41"), (41, 0));
    // a line is read prefix first; a line that starts with the precedence sets nothing
    assert_eq!(parse_prefix_policies("        40      1  ::/0\r\n"), (0, 0));
}

#[test]
fn bindings_are_read() {
    let b = parse_bindings("Wi-Fi|True|False\r\n bad line \nEthernet 2|False|True\n|x|y|z\n");
    assert_eq!(b.len(), 2);
    assert_eq!((b[0].name.as_str(), b[0].ipv4, b[0].ipv6), ("Wi-Fi", true, false));
    assert_eq!((b[1].name.as_str(), b[1].ipv4, b[1].ipv6), ("Ethernet 2", false, true));
}

#[test]
fn first_nonblank_line() {
    assert_eq!(first_line("\n  \r\nAccess denied.\r\nmore"), "Access denied.");
    assert_eq!(first_line(""), "");
    assert_eq!(first_line(" \n\t\n"), "");
}

#[test]
fn status_from_command_outputs() {
    let st = status(Ok(PREFIX_LISTING.to_string()), Ok("Wi-Fi|True|True\n".to_string()), true);
    assert_eq!((st.v6_precedence, st.v4_precedence), (40, 35));
    assert!(st.prefer_ipv6);
    assert!(st.elevated);
    assert_eq!(st.adapters.len(), 1);
    assert_eq!(st.error, None);

    let st = status(Ok("::ffff:0:0/96 46\n::/0 40".to_string()), Err("boom\nmore".to_string()), false);
    assert!(!st.prefer_ipv6);
    assert_eq!(st.error.as_deref(), Some("读取网卡协议绑定失败: boom"));

    let st = status(Err("\nno netsh".to_string()), Err("denied".to_string()), false);
    assert_eq!((st.v6_precedence, st.v4_precedence, st.prefer_ipv6), (0, 0, false));
    assert_eq!(
        st.error.as_deref(),
        Some("读取 IPv6 前缀策略失败: no netsh；读取网卡协议绑定失败: denied")
    );

    let st = status_unsupported();
    assert_eq!(st.error.as_deref(), Some("IP 协议策略功能仅支持 Windows。"));
    assert_eq!(apply_unsupported(), Err("IP 协议策略功能仅支持 Windows。".to_string()));
}

#[test]
fn replace_matches_std() {
    for (s, from, to) in [
        ("a__X__b__X__", "__X__", "yy"),
        ("aaa", "aa", "b"),
        ("", "x", "y"),
        ("it's", "'", "''"),
        ("no match", "zz", "q"),
    ] {
        assert_eq!(replace_str(s, from, to), s.replace(from, to));
    }
}

#[test]
fn binding_script_is_templated() {
    let s = binding_script_for("ms_tcpip6", false, "done");
    assert!(s.contains("-ComponentID 'ms_tcpip6'"));
    assert!(s.contains("Disable-NetAdapterBinding"));
    assert!(s.contains("-eq $false"));
    assert!(s.contains("|done（当前已处于目标状态）"));
    assert!(!s.contains("__"));
}

#[test]
fn binding_outcomes() {
    assert_eq!(binding_outcome(Ok("noise\nOK|Wi-Fi|switched\nERR|x".to_string())), Ok("Wi-Fi|switched".to_string()));
    assert_eq!(binding_outcome(Ok("ERR|未找到已连接的物理网卡\n".to_string())), Err("未找到已连接的物理网卡".to_string()));
    assert_eq!(binding_outcome(Ok("  \n ".to_string())), Err(EMPTY_OUTPUT_MESSAGE.to_string()));
    assert_eq!(binding_outcome(Ok("  something\n".to_string())), Ok("something".to_string()));
    assert_eq!(binding_outcome(Err("failed".to_string())), Err("failed".to_string()));
}

#[test]
fn failure_text_prefers_stderr() {
    assert_eq!(failure_text("out", "err"), "err");
    assert_eq!(failure_text("out", "  \n"), "out");
}

fn netsh_args(step: &PolicyStep) -> Vec<String> {
    match step {
        PolicyStep::Run(PolicyCommand::Netsh(args)) => args.clone(),
        other => panic!("expected netsh, got {other:?}"),
    }
}

#[test]
fn apply_requires_elevation_and_a_known_mode() {
    let (m, step) = PolicyApply::apply("prefer_ipv6", false);
    assert!(!m.is_awaiting());
    assert!(matches!(step, PolicyStep::Done(Err(e)) if e == ADMIN_REQUIRED_MESSAGE));
    let (m, step) = PolicyApply::apply("bogus", true);
    assert!(!m.is_awaiting());
    assert!(matches!(step, PolicyStep::Done(Err(e)) if e == "未知模式: bogus"));
}

#[test]
fn prefer_ipv6_sets_both_policies_with_add_fallback() {
    let (mut m, step) = PolicyApply::apply("prefer_ipv6", true);
    assert_eq!(netsh_args(&step), vec!["interface", "ipv6", "set", "prefixpolicy", "::/0", "40", "1"]);
    let step = m.resume(Err("not found".to_string()));
    assert_eq!(netsh_args(&step), vec!["interface", "ipv6", "add", "prefixpolicy", "::/0", "40", "1"]);
    let step = m.resume(Ok(String::new()));
    assert_eq!(netsh_args(&step), vec!["interface", "ipv6", "set", "prefixpolicy", "::ffff:0:0/96", "35", "4"]);
    let step = m.resume(Ok(String::new()));
    assert!(matches!(step, PolicyStep::Done(Ok(t)) if t == PREFER_IPV6_MESSAGE));
    assert!(!m.is_awaiting());
}

#[test]
fn set_policy_failure_is_reported() {
    let (mut m, _) = PolicyApply::apply("prefer_ipv4", true);
    let _ = m.resume(Err("x".to_string()));
    let step = m.resume(Err("\nThe parameter is incorrect.\n".to_string()));
    assert!(matches!(step, PolicyStep::Done(Err(e)) if e == "netsh 设置前缀策略 ::/0=40 失败: The parameter is incorrect."));
}

#[test]
fn restore_dual_joins_the_binding_results() {
    let (mut m, step) = PolicyApply::apply("restore_dual", true);
    assert!(matches!(&step, PolicyStep::Run(PolicyCommand::PowerShell(s)) if s.contains("'ms_tcpip'") && s.contains("Enable-NetAdapterBinding")));
    let step = m.resume(Ok("OK|Wi-Fi|a\n".to_string()));
    assert!(matches!(&step, PolicyStep::Run(PolicyCommand::PowerShell(s)) if s.contains("'ms_tcpip6'")));
    let step = m.resume(Ok("OK|Wi-Fi|b".to_string()));
    assert_eq!(netsh_args(&step)[2], "set");
    let step = m.resume(Ok(String::new()));
    assert_eq!(netsh_args(&step)[4], "::ffff:0:0/96");
    let step = m.resume(Ok(String::new()));
    assert!(matches!(step, PolicyStep::Done(Ok(t)) if t == "Wi-Fi|a；Wi-Fi|b；已重置为默认 IPv6 优先策略"));
}

#[test]
fn binding_error_stops_the_mode() {
    let (mut m, _) = PolicyApply::apply("ipv6_only", true);
    let step = m.resume(Ok("ERR|未找到已连接的物理网卡".to_string()));
    assert!(matches!(step, PolicyStep::Done(Err(e)) if e == "未找到已连接的物理网卡"));
    let (mut m, _) = PolicyApply::apply("ipv4_only", true);
    let step = m.resume(Ok("OK|Wi-Fi|IPv4-only done".to_string()));
    assert!(matches!(step, PolicyStep::Done(Ok(t)) if t == "Wi-Fi|IPv4-only done"));
}
