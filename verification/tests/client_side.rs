use abrasive::cli::{
    build_event, cached_token, expect_need_files, expect_sync_ack, first_poll_interval, poll_step, relative_subdir,
    should_go_remote, token_path, BuildEvent, CliError, PollStep, TokenPoll,
};
use abrasive::protocol::{decode, encode, Abi, Arch, Header, Message, Os, PlatformTriple};

fn sv(v: &[&str]) -> Vec<String> {
    v.iter().map(|s| s.to_string()).collect()
}

#[test]
fn remote_commands() {
    assert!(should_go_remote(&sv(&["build", "--release"])));
    assert!(should_go_remote(&sv(&["run"])));
    assert!(!should_go_remote(&sv(&["clean"])));
    assert!(!should_go_remote(&sv(&[])));
}

#[test]
fn subdirectories() {
    assert_eq!(relative_subdir("a/b", "a/b/c/d"), Some("c/d".to_string()));
    assert_eq!(relative_subdir("/a/b", "/a/b/c"), Some("c".to_string()));
    assert_eq!(relative_subdir("/a/b", "/a/b"), None);
    assert_eq!(relative_subdir("/a/b", "/a/x/c"), None);
    assert_eq!(relative_subdir("/a/b", "/a"), None);
}

#[test]
fn token_locations() {
    assert_eq!(token_path(Some("/x"), Some("/h")), Some("/x/abrasive/token".to_string()));
    assert_eq!(token_path(None, Some("/h")), Some("/h/.config/abrasive/token".to_string()));
    assert_eq!(token_path(None, None), None);
}

#[test]
fn cached_tokens_are_trimmed() {
    assert_eq!(cached_token("  gho_abc \n"), Some("gho_abc".to_string()));
    assert_eq!(cached_token(" \n\t"), None);
    assert_eq!(cached_token(""), None);
}

#[test]
fn device_flow_steps() {
    let p = |t: Option<&str>, e: Option<&str>| TokenPoll {
        access_token: t.map(|s| s.to_string()),
        error: e.map(|s| s.to_string()),
    };
    assert_eq!(poll_step(&p(Some("tok"), None), 5, "{}"), PollStep::Authorized("tok".to_string()));
    assert_eq!(poll_step(&p(None, Some("authorization_pending")), 5, "{}"), PollStep::Wait(5));
    assert_eq!(poll_step(&p(None, Some("slow_down")), 5, "{}"), PollStep::Wait(10));
    assert_eq!(
        poll_step(&p(None, Some("access_denied")), 5, "{}"),
        PollStep::Failed(CliError::Auth("authorization denied".to_string()))
    );
    assert_eq!(
        poll_step(&p(None, Some("expired_token")), 5, "{}"),
        PollStep::Failed(CliError::Auth("device code expired before authorization; run again".to_string()))
    );
    assert_eq!(
        poll_step(&p(None, Some("weird")), 5, "{}"),
        PollStep::Failed(CliError::Auth("github error: weird".to_string()))
    );
    assert_eq!(
        poll_step(&p(None, None), 5, "{\"x\":1}"),
        PollStep::Failed(CliError::Auth("unexpected token response: {\"x\":1}".to_string()))
    );
    assert_eq!(first_poll_interval(0), 1);
    assert_eq!(first_poll_interval(7), 7);
}

#[test]
fn sync_replies() {
    assert_eq!(expect_need_files(Message::NeedFiles(sv(&["a"]))), Ok(sv(&["a"])));
    assert_eq!(expect_need_files(Message::SyncAck), Err(CliError::Disconnected));
    assert_eq!(expect_sync_ack(&Message::SyncAck), Ok(()));
    assert_eq!(expect_sync_ack(&Message::SyncDone), Err(CliError::Disconnected));
    assert_eq!(build_event(Message::BuildOutput(vec![1, 2])), BuildEvent::Output(vec![1, 2]));
    assert_eq!(build_event(Message::BuildFinished { exit_code: 3 }), BuildEvent::Finished(3));
    assert_eq!(build_event(Message::SyncAck), BuildEvent::Ignored);
    assert_eq!(CliError::Disconnected.exit_code(), 1);
    assert_eq!(CliError::Disconnected.message(), "server closed connection before build finished");
    assert_eq!(CliError::Io("x".to_string()).message(), "build server IO error: x");
}

#[test]
fn header_is_big_endian() {
    let h = Header::from_bytes(&[0x01, 0x02, 0x03, 0x04]);
    assert_eq!(h.length, 0x01020304);
    assert_eq!(h.to_bytes(), [0x01, 0x02, 0x03, 0x04]);
    assert_eq!(Header::from_bytes(&Header { length: 0xdeadbeef }.to_bytes()).length, 0xdeadbeef);
}

#[test]
fn frames_round_trip() {
    let payload = vec![9u8, 8, 7];
    let f = encode(&payload);
    assert_eq!(f, vec![0, 0, 0, 3, 9, 8, 7]);
    let (h, p) = decode(&f);
    assert_eq!(h.length, 3);
    assert_eq!(p, payload);
    let (h, p) = decode(&encode(&[]));
    assert_eq!(h.length, 0);
    assert!(p.is_empty());
}

#[test]
fn cargo_targets() {
    let t = |arch, os, abi| PlatformTriple { arch, os, abi };
    assert_eq!(t(Arch::X86_64, Os::Linux, Abi::Musl).as_cargo_target_string(), "x86_64-unknown-linux-musl");
    assert_eq!(t(Arch::Aarch64, Os::Windows, Abi::Msvc).as_cargo_target_string(), "aarch64-pc-windows-msvc");
    assert_eq!(t(Arch::X86_64, Os::Mac, Abi::Gnu).as_cargo_target_string(), "x86_64-apple-darwin");
    assert!(!t(Arch::Aarch64, Os::Windows, Abi::Gnu).is_supported());
    assert!(t(Arch::X86_64, Os::Windows, Abi::Gnu).is_supported());
}
