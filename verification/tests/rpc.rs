use easyjump::model::{REFRESH_MS, SOURCE, TOKEN, TOKEN_TTL_MS};
use easyjump::rpc::{read_reply, reply_error, snapshot_text, socket_path, Client};

#[test]
fn socket_path_prefers_the_environment() {
    assert_eq!(socket_path(Some("/run/herdr.sock".to_string()), "/home/u"), "/run/herdr.sock");
    assert_eq!(socket_path(Some(String::new()), "/home/u"), "/home/u/.config/herdr/herdr.sock");
    assert_eq!(socket_path(None, "/home/u"), "/home/u/.config/herdr/herdr.sock");
    assert_eq!(socket_path(None, ""), "/.config/herdr/herdr.sock");
}

#[test]
fn client_keeps_its_path() {
    let c = Client::new("/tmp/x.sock".to_string());
    assert_eq!(c.path(), "/tmp/x.sock");
}

#[test]
fn reply_error_names_the_method() {
    assert_eq!(reply_error("pane.focus", Some("no such pane")), "pane.focus: no such pane");
    assert_eq!(reply_error("tab.rename", None), "tab.rename: error");
}

#[test]
fn protocol_constants() {
    assert_eq!(TOKEN, "hint");
    assert_eq!(SOURCE, "xzedx.easyjump");
    assert_eq!(TOKEN_TTL_MS, 30_000);
    assert_eq!(REFRESH_MS, 5_000);
}

#[test]
fn read_reply_gives_the_result_text() {
    assert_eq!(read_reply("m", "{\"id\":\"x\",\"result\":{\"a\":1}}\n"), Ok(Some("{\"a\":1}".to_string())));
    assert_eq!(read_reply("m", "{\"id\":\"x\"}\n"), Ok(None));
}

#[test]
fn read_reply_reports_failures() {
    assert_eq!(read_reply("pane.focus", ""), Err("pane.focus: connection closed".to_string()));
    assert_eq!(
        read_reply("pane.focus", "{\"error\":{\"message\":\"no such pane\"}}\n"),
        Err("pane.focus: no such pane".to_string())
    );
    assert_eq!(read_reply("tab.rename", "{\"error\":{\"code\":3}}"), Err("tab.rename: error".to_string()));
    match read_reply("m", "not json\n") {
        Err(e) => assert!(e.starts_with("m: ") && e.len() > 3),
        Ok(_) => panic!("a line that is no JSON must fail"),
    }
}

#[test]
fn snapshot_text_takes_the_snapshot_field() {
    assert_eq!(snapshot_text(Some("{\"snapshot\":{\"panes\":[]}}".to_string())), Ok("{\"panes\":[]}".to_string()));
    assert_eq!(snapshot_text(Some("{}".to_string())), Err("snapshot missing".to_string()));
    assert_eq!(snapshot_text(None), Err("snapshot missing".to_string()));
}
