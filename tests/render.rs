use cping::config::Config;
use cping::ping::Ping;
use cping::ping_entry::PingEntry;

fn config(no_legend: bool, no_graph: bool, no_history: bool, no_title: bool) -> Config {
    Config {
        no_legend,
        no_graph,
        no_history,
        no_title,
        addr: "h".to_string(),
        ping_args: vec!["h".to_string()],
    }
}

fn reading(seq: u64, ms: u64) -> PingEntry {
    PingEntry::parse(format!("64 bytes from h (a): icmp_seq={} ttl=7 time={} ms", seq, ms))
}

#[test]
fn too_small_terminal() {
    let mut p = Ping::new(config(false, false, false, false), (80, 24));
    assert_eq!(p.print((0, 24)), "Error: Too small terminal\n");
    assert_eq!(p.term_size, (0, 24));
    assert_eq!(p.print((80, 0)), "Error: Too small terminal\n");
}

#[test]
fn history_shows_latest_rows() {
    let mut p = Ping::new(config(true, true, false, true), (80, 2));
    let a = reading(1, 5);
    let b = reading(2, 15);
    let c = reading(3, 60);
    p.add(a);
    p.add(b.clone());
    p.add(c.clone());
    let expected = format!(
        "\x1b[2J\x1b[1;1H{}\x1b[2;1H{}\x1b[m",
        b.format(),
        c.format()
    );
    assert_eq!(p.print((80, 2)), expected);
}

#[test]
fn histogram_shows_latest_columns() {
    let mut p = Ping::new(config(true, false, true, true), (2, 10));
    p.add(reading(1, 5));
    p.add(reading(2, 15));
    p.add(reading(3, 60));
    let expected = "\x1b[2J\x1b[1;1H\x1b[38;5;6m\u{2582}\x1b[m\x1b[38;5;11m\u{2584}\x1b[m";
    assert_eq!(p.print((2, 10)), expected);
}

#[test]
fn title_and_legend_rows() {
    let mut p = Ping::new(config(false, true, true, false), (80, 24));
    p.take_output_line(PingEntry::parse("PING h (a): 56 data bytes".to_string()));
    let frame = p.print((80, 24));
    let title = "\x1b[1;1H\x1b[1m\x1b[48;5;7m\x1b[38;5;0mPING h (a): 56 data bytes\x1b[m";
    let legend = [
        "\x1b[2;1H\x1b[38;5;7mLegend: ",
        "\x1b[38;5;12m\u{2581} < 10ms ",
        "\x1b[38;5;6m\u{2582} < 20ms ",
        "\x1b[38;5;10m\u{2583} < 50ms ",
        "\x1b[38;5;11m\u{2584} < 100ms ",
        "\x1b[38;5;3m\u{2585} < 200ms ",
        "\x1b[38;5;9m\u{2586} < 500ms ",
        "\x1b[38;5;1m\u{2587} < 1000ms ",
        "\x1b[38;5;13m\u{2588} > 1000ms ",
        "\x1b[48;5;1m\x1b[38;5;7mX Error\x1b[m",
    ]
    .concat();
    assert_eq!(frame, format!("\x1b[2J{}{}", title, legend));
}

#[test]
fn full_frame_rows() {
    let mut p = Ping::new(config(false, false, false, false), (3, 5));
    p.take_output_line(PingEntry::parse("PING h".to_string()));
    for i in 0..4 {
        p.add(reading(i, 30));
    }
    let frame = p.print((3, 5));
    // title at row 1, two history rows from row 2, histogram at row 4, legend at row 5
    assert!(frame.starts_with("\x1b[2J\x1b[1;1H"));
    assert!(frame.contains("\x1b[2;1H\x1b[m"));
    assert!(frame.contains("icmp_seq=2 "));
    assert!(frame.contains("\x1b[3;1H\x1b[m"));
    assert!(frame.contains("icmp_seq=3 "));
    assert!(!frame.contains("icmp_seq=1 "));
    assert!(frame.contains("\x1b[4;1H\x1b[38;5;10m\u{2583}\x1b[m\x1b[38;5;10m\u{2583}\x1b[m\x1b[38;5;10m\u{2583}\x1b[m\x1b[5;1H"));
}

#[test]
fn sections_follow_the_history() {
    let mut p = Ping::new(config(false, false, false, false), (80, 24));
    let frame = p.print((80, 24));
    // empty history: histogram right under the title, legend below it
    assert!(frame.starts_with("\x1b[2J\x1b[1;1H\x1b[1m\x1b[48;5;7m\x1b[38;5;0m\x1b[m\x1b[m\x1b[2;1H\x1b[3;1H\x1b[38;5;7mLegend: "));
    p.add(reading(1, 5));
    let frame = p.print((80, 24));
    assert!(frame.contains("\x1b[2;1H\x1b[m\x1b[38;5;12m\u{2581} 64 bytes"));
    assert!(frame.contains("\x1b[3;1H\x1b[38;5;12m\u{2581}\x1b[m\x1b[4;1H\x1b[38;5;7mLegend: "));
}

#[test]
fn legend_under_full_history_without_graph() {
    let mut p = Ping::new(config(false, true, false, false), (80, 4));
    for i in 0..5 {
        p.add(reading(i, 5));
    }
    let frame = p.print((80, 4));
    // rows 2 and 3 hold the two latest entries, the legend is on row 4
    assert!(frame.contains("\x1b[2;1H\x1b[m\x1b[38;5;12m\u{2581} 64 bytes from h (a): icmp_seq=3 "));
    assert!(frame.contains("\x1b[3;1H\x1b[m\x1b[38;5;12m\u{2581} 64 bytes from h (a): icmp_seq=4 "));
    assert!(frame.contains("\x1b[m\x1b[4;1H\x1b[38;5;7mLegend: "));
    assert!(!frame.contains("icmp_seq=2 "));
}
