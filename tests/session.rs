use cping::config::Config;
use cping::ping::Ping;
use cping::ping_entry::PingEntry;
use cping::session::{is_quit_key, stream_end_outcome, Coordinator, Key};

fn session() -> Ping {
    let c = Config {
        no_legend: false,
        no_graph: false,
        no_history: false,
        no_title: false,
        addr: "h".to_string(),
        ping_args: vec![],
    };
    Ping::new(c, (80, 24))
}

#[test]
fn error_lines_set_aside_until_first_entry() {
    let mut p = session();
    let mut diag = String::new();
    let drawn = p.take_error_line(PingEntry::parse("ping: unknown host".to_string()), &mut diag);
    assert!(!drawn);
    assert_eq!(diag, "ping: unknown host\n");
    assert_eq!(p.histo.len(), 0);
    p.take_output_line(PingEntry::parse("PING h".to_string()));
    assert_eq!(p.header, "PING h");
    assert_eq!(p.histo.len(), 0);
    p.take_output_line(PingEntry::parse("64 bytes from h: icmp_seq=1 ttl=7 time=1 ms".to_string()));
    assert_eq!(p.histo.len(), 1);
    let drawn = p.take_error_line(PingEntry::parse("ping: sendto failed".to_string()), &mut diag);
    assert!(drawn);
    assert_eq!(diag, "ping: unknown host\n");
    assert_eq!(p.histo.len(), 2);
    assert_eq!(p.histo[1].t.get_inner(), "ping: sendto failed");
}

#[test]
fn quit_keys() {
    assert!(is_quit_key(Key::Char('q')));
    assert!(is_quit_key(Key::Ctrl('c')));
    assert!(is_quit_key(Key::Esc));
    assert!(!is_quit_key(Key::Char('c')));
    assert!(!is_quit_key(Key::Ctrl('q')));
    assert!(!is_quit_key(Key::Other));
}

#[test]
fn quit_first_succeeds() {
    let mut c = Coordinator::new();
    c.resolve(Ok(()));
    c.resolve(stream_end_outcome("ping: unknown host\n".to_string()));
    assert_eq!(c.result, Some(Ok(())));
}

#[test]
fn stream_end_first_fails_with_diagnostics() {
    let mut c = Coordinator::new();
    c.resolve(stream_end_outcome("ping: unknown host\n".to_string()));
    c.resolve(Ok(()));
    assert_eq!(c.result, Some(Err("ping: unknown host\n".to_string())));
}

#[test]
fn clean_stream_end() {
    assert_eq!(stream_end_outcome(String::new()), Ok(()));
}

#[test]
fn error_stream_title_goes_to_header() {
    let mut p = session();
    let mut diag = String::new();
    p.take_output_line(PingEntry::parse("64 bytes from h: icmp_seq=1 ttl=7 time=1 ms".to_string()));
    let drawn = p.take_error_line(PingEntry::parse("PING other".to_string()), &mut diag);
    assert!(drawn);
    assert_eq!(p.header, "PING other");
    assert_eq!(p.histo.len(), 1);
    assert_eq!(diag, "");
}
