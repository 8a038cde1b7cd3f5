use dhdesktop::backend::{
    cleanup_step, comma_list_of, cookie_from_response, force_kill_message, group_pids_from,
    launch_args, listing_is_ours, not_running, parse_pidfile, parse_ready_line, percent_decode,
    pidfile_text, plan_open, ready_message, stop_message, window_target, BackendStatus,
    CleanupAction, CleanupEvent, CleanupState, Lifecycle, MAX_LOG_LINES,
};
use dhdesktop::backend::{exchange_request, is_auth_cookie, ready_info_from};
use dhdesktop::urlparts::UrlParts;
use dhdesktop::locate::{ResolvedDsh, Source};

#[test]
fn ready_line_is_read() {
    let r = parse_ready_line("dsh web: http://127.0.0.1:57710/?token=BNHjr4Kc_yd").unwrap();
    assert_eq!(r.url, "http://127.0.0.1:57710/?token=BNHjr4Kc_yd");
    assert_eq!(r.port, 57710);
    assert_eq!(r.token, "BNHjr4Kc_yd");
}

#[test]
fn ready_line_after_other_text_is_trimmed() {
    let r = parse_ready_line("[info] dsh web: http://127.0.0.1:3899/?a=1&token=t%20x  ").unwrap();
    assert_eq!(r.url, "http://127.0.0.1:3899/?a=1&token=t%20x");
    assert_eq!(r.token, "t x");
}

#[test]
fn ready_line_needs_port_and_token() {
    assert!(parse_ready_line("dsh web: http://127.0.0.1/?token=x").is_none());
    assert!(parse_ready_line("dsh web: http://127.0.0.1:80/?token=x").is_none());
    assert!(parse_ready_line("dsh web: http://127.0.0.1:3899/").is_none());
    assert!(parse_ready_line("dsh web: not a url").is_none());
    assert!(parse_ready_line("installing dependencies...").is_none());
}

#[test]
fn percent_decode_cases() {
    assert_eq!(percent_decode("a%20b+c"), "a b c");
    assert_eq!(percent_decode("%41%4a%4A"), "AJJ");
    assert_eq!(percent_decode("%+5"), "\u{5}");
    assert_eq!(percent_decode("%zz"), "%zz");
    assert_eq!(percent_decode("100%"), "100%");
    assert_eq!(percent_decode("%4"), "%4");
    assert_eq!(percent_decode("%41"), "A");
    assert_eq!(percent_decode("x%41"), "xA");
    assert_eq!(percent_decode("%C3%A9"), "é");
    assert_eq!(percent_decode("%FF"), "\u{FFFD}");
    assert_eq!(percent_decode("plain 文本"), "plain 文本");
}

#[test]
fn cookie_is_taken_from_the_first_set_cookie_line() {
    let raw = b"HTTP/1.1 303 See Other\r\nlocation: /\r\nSET-Cookie:  dsh-auth-ab = v1.xyz.sig ; HttpOnly; SameSite=Strict\r\nset-cookie: other=1\r\n\r\n";
    assert_eq!(
        cookie_from_response(raw),
        Some(("dsh-auth-ab".to_string(), "v1.xyz.sig".to_string()))
    );
    let bad_first = b"HTTP/1.1 303\r\nSet-Cookie: novalue; Path=/\r\nSet-Cookie: a=b\r\n\r\n";
    assert_eq!(cookie_from_response(bad_first), None);
    assert_eq!(cookie_from_response(b"HTTP/1.1 401\r\ncontent-type: text/plain\r\n\r\n"), None);
    assert_eq!(cookie_from_response(b"set-cookie:"), None);
}

#[test]
fn open_plan_with_token() {
    let p = plan_open("http://127.0.0.1:3899/?token=abc").unwrap();
    assert!(p.has_token);
    assert_eq!(p.href, "http://127.0.0.1:3899/?token=abc");
    assert_eq!(p.root, Some("http://127.0.0.1:3899/".to_string()));
    let x = p.exchange.as_ref().unwrap();
    assert_eq!(x.host, "127.0.0.1");
    assert_eq!(x.port, 3899);
    assert_eq!(
        x.request,
        "GET /?token=abc HTTP/1.1\r\nHost: 127.0.0.1:3899\r\nConnection: close\r\n\r\n"
    );
    assert_eq!(window_target(&p, true), "http://127.0.0.1:3899/");
    assert_eq!(window_target(&p, false), "http://127.0.0.1:3899/?token=abc");
}

#[test]
fn open_plan_without_token_or_address() {
    let p = plan_open("http://127.0.0.1:3899/app").unwrap();
    assert!(!p.has_token);
    assert!(p.exchange.is_none());
    assert_eq!(
        plan_open("not a url").err(),
        Some("后端地址无法解析:not a url".to_string())
    );
}

#[test]
fn pidfile_round_trip() {
    assert_eq!(pidfile_text(4242), "4242");
    assert_eq!(parse_pidfile(&pidfile_text(4242)), Some(4242));
    assert_eq!(parse_pidfile(&pidfile_text(u32::MAX)), Some(u32::MAX));
    assert_eq!(parse_pidfile(" 17\n"), Some(17));
    assert_eq!(parse_pidfile("+7"), Some(7));
    assert_eq!(parse_pidfile("-7"), None);
    assert_eq!(parse_pidfile("4294967296"), None);
    assert_eq!(parse_pidfile("12a"), None);
    assert_eq!(parse_pidfile(""), None);
}

#[test]
fn pgrep_output_and_pid_list() {
    let pids = group_pids_from(b"  101\n102\r\nxyz\n\n103");
    assert_eq!(pids, vec![101, 102, 103]);
    assert_eq!(comma_list_of(&pids), "101,102,103");
    assert_eq!(comma_list_of(&vec![]), "");
}

#[test]
fn ps_listing_must_show_our_profile() {
    assert!(listing_is_ours(b"npm exec\nnode /x/dsh --profile dhdesktop --no-open\n"));
    assert!(!listing_is_ours(b"node /x/dsh --profile web\n"));
    assert!(!listing_is_ours(b"node --profile\ndhdesktop\n"));
}

#[test]
fn cleanup_of_our_stale_group() {
    let (s, a) = cleanup_step(CleanupState::Begin, CleanupEvent::PidfileRead(Some("321\n".to_string())));
    assert!(matches!(s, CleanupState::Recorded { pgid: 321 }));
    assert!(matches!(a, CleanupAction::CheckGroup { pgid: 321 }));
    let (s, a) = cleanup_step(s, CleanupEvent::GroupAlive(true));
    assert!(matches!(a, CleanupAction::ListGroup { pgid: 321 }));
    let (s, a) = cleanup_step(s, CleanupEvent::GroupListed(b"321\n322\n".to_vec()));
    match a {
        CleanupAction::ListCommands { pids } => assert_eq!(pids, "321,322"),
        _ => panic!("expected a listing"),
    }
    let (s, a) = cleanup_step(
        s,
        CleanupEvent::CommandsListed(Some(b"npx -y x\nnode dsh --profile dhdesktop\n".to_vec())),
    );
    assert!(matches!(a, CleanupAction::TerminateGroup { pgid: 321 }));
    let (s, a) = cleanup_step(s, CleanupEvent::Terminated);
    assert!(matches!(s, CleanupState::Finished));
    match a {
        CleanupAction::Report { message } => {
            assert_eq!(message, "已清理上次遗留的 dsh 后端(进程组 321,2 个进程)")
        }
        _ => panic!("expected a report"),
    }
}

#[test]
fn cleanup_stops_early() {
    let (_, a) = cleanup_step(CleanupState::Begin, CleanupEvent::PidfileRead(None));
    assert!(matches!(a, CleanupAction::Finish { clear_pidfile: false }));
    let (_, a) = cleanup_step(CleanupState::Begin, CleanupEvent::PidfileRead(Some("x".to_string())));
    assert!(matches!(a, CleanupAction::Finish { clear_pidfile: true }));
    let (_, a) = cleanup_step(CleanupState::Recorded { pgid: 5 }, CleanupEvent::GroupAlive(false));
    assert!(matches!(a, CleanupAction::Finish { clear_pidfile: true }));
    let (_, a) = cleanup_step(CleanupState::Alive { pgid: 5 }, CleanupEvent::GroupListed(b"\n".to_vec()));
    assert!(matches!(a, CleanupAction::Finish { clear_pidfile: true }));
    let (_, a) = cleanup_step(CleanupState::Listed { pgid: 5, count: 1 }, CleanupEvent::CommandsListed(None));
    assert!(matches!(a, CleanupAction::Finish { clear_pidfile: false }));
    let (_, a) = cleanup_step(
        CleanupState::Listed { pgid: 5, count: 1 },
        CleanupEvent::CommandsListed(Some(b"vim notes".to_vec())),
    );
    assert!(matches!(a, CleanupAction::Finish { clear_pidfile: true }));
    let (_, a) = cleanup_step(CleanupState::Finished, CleanupEvent::Terminated);
    assert!(matches!(a, CleanupAction::Finish { clear_pidfile: false }));
}

fn resolved() -> ResolvedDsh {
    ResolvedDsh {
        program: "/usr/local/bin/npx".to_string(),
        args: vec!["-y".to_string(), "@deepseek-ai/dsh@0.1.5-rc.1".to_string()],
        source: Source::Npx,
        source_label: Source::Npx.label().to_string(),
        display: "/usr/local/bin/npx -y @deepseek-ai/dsh@0.1.5-rc.1".to_string(),
    }
}

#[test]
fn launch_arguments() {
    let r = resolved();
    assert_eq!(
        launch_args(&r, false),
        vec![
            "-y", "@deepseek-ai/dsh@0.1.5-rc.1", "--profile", "dhdesktop",
            "--from-default-profile", "web", "--no-open", "--port", "0", "--host", "127.0.0.1",
        ]
    );
    assert_eq!(
        launch_args(&r, true),
        vec![
            "-y", "@deepseek-ai/dsh@0.1.5-rc.1", "--profile", "dhdesktop", "--no-open", "--port",
            "0", "--host", "127.0.0.1",
        ]
    );
}

fn last_text(l: &Lifecycle) -> String {
    l.log_lines().last().unwrap().text.clone()
}

#[test]
fn start_ready_stop() {
    let mut l = Lifecycle::new();
    assert!(l.start_check().is_none());
    l.start_launching(&resolved(), "/h/dsh-home", false, 10);
    match l.current() {
        BackendStatus::Starting { program, source } => {
            assert_eq!(program, "/usr/local/bin/npx -y @deepseek-ai/dsh@0.1.5-rc.1");
            assert_eq!(source, "npx 兜底(首次需下载)");
        }
        _ => panic!("expected starting"),
    }
    let logs = l.log_lines();
    assert_eq!(logs[0].text, "使用 /usr/local/bin/npx -y @deepseek-ai/dsh@0.1.5-rc.1 (npx 兜底(首次需下载)) 启动 dsh");
    assert_eq!(logs[1].text, "DSH_HOME=/h/dsh-home,首次启动:从内置模板 web 初始化 profile");
    assert!(matches!(l.start_check(), Some(BackendStatus::Starting { .. })));
    l.spawned(77, 11);
    assert_eq!(last_text(&l), "dsh 子进程已启动 (pid 77)");
    assert_eq!(l.pending_pid, Some(77));
    assert!(l.stdout_line("resolving packages".to_string(), 77, 12).is_none());
    let info = l.stdout_line("dsh web: http://127.0.0.1:40001/?token=tk".to_string(), 77, 13).unwrap();
    assert_eq!(info.port, 40001);
    match l.current() {
        BackendStatus::Ready { url, port, pid, started_at_ms } => {
            assert_eq!(url, "http://127.0.0.1:40001/?token=tk");
            assert_eq!((port, pid, started_at_ms), (40001, 77, 13));
        }
        _ => panic!("expected ready"),
    }
    assert!(l.current().is_ready());
    assert_eq!(l.current().ready_url(), Some("http://127.0.0.1:40001/?token=tk".to_string()));
    assert_eq!(l.running, Some(77));
    assert_eq!(l.pending_pid, None);
    assert_eq!(l.stop_begin(), Some(77));
    assert!(matches!(l.current(), BackendStatus::Stopping));
    assert!(l.start_check().is_some());
    l.exited(Some(0), 20);
    assert!(matches!(l.current(), BackendStatus::Idle));
    assert_eq!(last_text(&l), "dsh 后端已停止");
    assert!(!l.stopping);
    assert_eq!(l.current().ready_url(), None);
}

#[test]
fn unexpected_exits() {
    let mut l = Lifecycle::new();
    l.start_launching(&resolved(), "/h", true, 1);
    assert_eq!(l.log_lines()[1].text, "DSH_HOME=/h,复用已有 profile dhdesktop");
    l.spawned(5, 2);
    l.exited(None, 3);
    match l.current() {
        BackendStatus::Failed { message } => assert_eq!(message, "dsh 启动失败 —— 详见下方日志"),
        _ => panic!("expected failed"),
    }
    l.spawned(6, 4);
    l.stdout_line("dsh web: http://127.0.0.1:9/?token=a".to_string(), 6, 5);
    l.exited(Some(-9), 6);
    match l.current() {
        BackendStatus::Exited { code, message } => {
            assert_eq!(code, Some(-9));
            assert_eq!(message, "dsh 后端已退出(退出码 -9)");
        }
        _ => panic!("expected exited"),
    }
    assert_eq!(l.running, None);
}

#[test]
fn timeout_fails_only_a_starting_backend() {
    let mut l = Lifecycle::new();
    assert!(!l.ready_timeout(1));
    assert!(matches!(l.current(), BackendStatus::Idle));
    l.start_launching(&resolved(), "/h", true, 1);
    l.spawned(9, 2);
    assert!(l.ready_timeout(3));
    match l.current() {
        BackendStatus::Failed { message } => {
            assert_eq!(message, "dsh 启动超时(300s 内没有就绪),详见日志")
        }
        _ => panic!("expected failed"),
    }
    assert_eq!(l.pending_pid, None);
    assert!(!l.ready_timeout(4));
}

#[test]
fn start_failures() {
    let mut l = Lifecycle::new();
    match l.start_not_found(1) {
        BackendStatus::Failed { message } => assert!(message.starts_with("未找到可用的 dsh:PATH")),
        _ => panic!("expected failed"),
    }
    match l.spawn_failed("No such file", 2) {
        BackendStatus::Failed { message } => assert_eq!(message, "启动 dsh 失败: No such file"),
        _ => panic!("expected failed"),
    }
    let before = l.log_lines().len();
    match l.spawn_without_pid() {
        BackendStatus::Failed { message } => assert_eq!(message, "启动 dsh 失败:拿不到子进程 pid"),
        _ => panic!("expected failed"),
    }
    assert_eq!(l.log_lines().len(), before);
}

#[test]
fn stop_with_nothing_running() {
    let mut l = Lifecycle::new();
    assert_eq!(l.stop_begin(), None);
    assert!(matches!(l.current(), BackendStatus::Idle));
    l.spawned(3, 1);
    assert_eq!(l.stop_begin(), Some(3));
    l.stop_finish();
    assert!(matches!(l.current(), BackendStatus::Idle));
    assert_eq!(l.pending_pid, None);
}

#[test]
fn log_keeps_the_newest_lines() {
    let mut l = Lifecycle::new();
    for i in 0..(MAX_LOG_LINES + 5) {
        l.stderr_line(format!("line {i}"), i as u64);
    }
    let logs = l.log_lines();
    assert_eq!(logs.len(), MAX_LOG_LINES);
    assert_eq!(logs[0].seq, 6);
    assert_eq!(logs[0].text, "line 5");
    assert_eq!(logs.last().unwrap().seq, (MAX_LOG_LINES + 5) as u64);
    assert_eq!(logs.last().unwrap().stream, "stderr");
    for w in logs.windows(2) {
        assert_eq!(w[0].seq + 1, w[1].seq);
    }
}

#[test]
fn messages() {
    assert_eq!(ready_message("dsh"), "dsh 后端就绪:dsh");
    assert_eq!(stop_message(12), "正在停止 dsh 后端 (pid 12)");
    assert_eq!(force_kill_message(12), "pid 12 在宽限期内未退出,强制 SIGKILL");
    assert_eq!(not_running(), "后端未运行,无法打开 dsh 界面");
}

#[test]
fn auth_cookie_names() {
    assert!(is_auth_cookie("dsh-auth-3f2a"));
    assert!(!is_auth_cookie("dsh-aut"));
    assert!(!is_auth_cookie("session"));
}

fn parts(port: Option<u16>, pairs: &[(&str, &str)]) -> UrlParts {
    UrlParts {
        host: Some("127.0.0.1".to_string()),
        port,
        path: "/".to_string(),
        query: None,
        query_pairs: pairs.iter().map(|(k, v)| (k.to_string(), v.to_string())).collect(),
        origin: "http://127.0.0.1:3899".to_string(),
        href: "http://127.0.0.1:3899/".to_string(),
    }
}

#[test]
fn ready_info_takes_port_and_first_token() {
    let p = parts(Some(3899), &[("a", "1"), ("token", "first"), ("token", "second")]);
    let info = ready_info_from("raw address".to_string(), &p).unwrap();
    assert_eq!(info.url, "raw address");
    assert_eq!(info.port, 3899);
    assert_eq!(info.token, "first");
}

#[test]
fn ready_info_needs_port_and_token() {
    assert!(ready_info_from("x".to_string(), &parts(None, &[("token", "t")])).is_none());
    assert!(ready_info_from("x".to_string(), &parts(Some(1), &[("tok", "t")])).is_none());
}

#[test]
fn exchange_request_from_parts() {
    let mut p = parts(Some(3899), &[("token", "abc")]);
    p.path = "/ui".to_string();
    p.query = Some("token=abc".to_string());
    let x = exchange_request(&p).unwrap();
    assert_eq!(x.host, "127.0.0.1");
    assert_eq!(x.port, 3899);
    assert_eq!(
        x.request,
        "GET /ui?token=abc HTTP/1.1\r\nHost: 127.0.0.1:3899\r\nConnection: close\r\n\r\n"
    );
}
