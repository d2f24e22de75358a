use cping::ping_entry::{bucket, EntryType, PingEntry, Tier};

#[test]
fn parses_reading_with_address() {
    let e = PingEntry::parse(
        "64 bytes from example.com (1.2.3.4): icmp_seq=1 ttl=55 time=23.4 ms".to_string(),
    );
    assert!(matches!(e.t, EntryType::Pong(_)));
    assert_eq!(e.bytes, 64);
    assert_eq!(e.from_domain, "example.com");
    assert_eq!(e.from_ipv6, "1.2.3.4");
    assert_eq!(e.icmp_seq, 1);
    assert_eq!(e.ttl, 55);
    assert_eq!(e.time_us, 23_400);
    assert_eq!(
        e.t.get_inner(),
        "64 bytes from example.com (1.2.3.4): icmp_seq=1 ttl=55 time=23.4 ms"
    );
}

#[test]
fn parses_reading_without_address() {
    let e = PingEntry::parse("64 bytes from 1.1.1.1: icmp_seq=3 ttl=57 time=12.345 ms".to_string());
    assert!(matches!(e.t, EntryType::Pong(_)));
    assert_eq!(e.from_domain, "1.1.1.1:");
    assert_eq!(e.from_ipv6, "");
    assert_eq!(e.icmp_seq, 3);
    assert_eq!(e.ttl, 57);
    assert_eq!(e.time_us, 12_345);
}

#[test]
fn time_rounds_up_to_the_microsecond() {
    let e = PingEntry::parse("8 bytes from h (a): icmp_seq=0 ttl=1 time=10.0001 ms".to_string());
    assert_eq!(e.time_us, 10_001);
    assert_eq!(bucket(e.time_us), Tier::UpTo20);
    let w = PingEntry::parse("8 bytes from h (a): icmp_seq=0 ttl=1 time=7 ms".to_string());
    assert_eq!(w.time_us, 7_000);
    let f = PingEntry::parse("8 bytes from h (a): icmp_seq=0 ttl=1 time=.5 ms".to_string());
    assert_eq!(f.time_us, 500);
}

#[test]
fn title_line() {
    let e = PingEntry::parse("PING example.com (1.2.3.4): 56 data bytes".to_string());
    assert!(matches!(e.t, EntryType::Title(_)));
    assert_eq!(e.t.get_inner(), "PING example.com (1.2.3.4): 56 data bytes");
    assert_eq!(e.bytes, 0);
    assert_eq!(e.time_us, 0);
}

#[test]
fn error_line_first_word_not_a_number() {
    let e = PingEntry::parse("ping: cannot resolve example.invalid: Unknown host".to_string());
    assert!(matches!(e.t, EntryType::Error(_)));
    assert_eq!(e.t.get_inner(), "ping: cannot resolve example.invalid: Unknown host");
}

#[test]
fn error_line_on_bad_fields() {
    for line in [
        "64 bytes from h (a): icmp_seq=1 ttl=70000 time=1 ms",
        "300 bytes from h (a): icmp_seq=1 ttl=7 time=1 ms",
        "64 bytes from h (a): icmp_seq=x ttl=7 time=1 ms",
        "64 bytes from h (a): icmp_seq=1 ttl=7 time=1.2.3 ms",
        "64 bytes from h (a): icmp_seq=1 ttl=7",
        "64 bytes from",
        "",
    ] {
        let e = PingEntry::parse(line.to_string());
        assert!(matches!(e.t, EntryType::Error(_)), "{}", line);
        assert_eq!(e.t.get_inner(), line);
        assert_eq!(e.time_us, 0);
    }
}

#[test]
fn bucket_edges() {
    assert_eq!(bucket(10_000), Tier::UpTo10);
    assert_eq!(bucket(10_100), Tier::UpTo20);
    assert_eq!(bucket(0), Tier::Unreachable);
    assert_eq!(bucket(-1_000), Tier::Unreachable);
    assert_eq!(bucket(1_500_000), Tier::Above1000);
    assert_eq!(bucket(1), Tier::UpTo10);
    assert_eq!(bucket(20_000), Tier::UpTo20);
    assert_eq!(bucket(20_001), Tier::UpTo50);
    assert_eq!(bucket(50_000), Tier::UpTo50);
    assert_eq!(bucket(50_001), Tier::UpTo100);
    assert_eq!(bucket(100_000), Tier::UpTo100);
    assert_eq!(bucket(100_001), Tier::UpTo200);
    assert_eq!(bucket(200_000), Tier::UpTo200);
    assert_eq!(bucket(200_001), Tier::UpTo500);
    assert_eq!(bucket(500_000), Tier::UpTo500);
    assert_eq!(bucket(500_001), Tier::UpTo1000);
    assert_eq!(bucket(1_000_000), Tier::UpTo1000);
    assert_eq!(bucket(1_000_001), Tier::Above1000);
}

#[test]
fn glyph_escape_sequences() {
    assert_eq!(PingEntry::get_histo_char(5_000), "\x1b[38;5;12m\u{2581}");
    assert_eq!(PingEntry::get_histo_char(15_000), "\x1b[38;5;6m\u{2582}");
    assert_eq!(PingEntry::get_histo_char(2_000_000), "\x1b[38;5;13m\u{2588}");
    assert_eq!(PingEntry::get_histo_char(0), "\x1b[48;5;1m\x1b[38;5;7mX");
}

#[test]
fn entry_text() {
    let e = PingEntry::parse("64 bytes from h (a): icmp_seq=1 ttl=7 time=1 ms".to_string());
    assert_eq!(
        e.format(),
        "\x1b[m\x1b[38;5;12m\u{2581} 64 bytes from h (a): icmp_seq=1 ttl=7 time=1 ms"
    );
    assert_eq!(e.print(), e.format());
    let t = PingEntry::parse("PING h".to_string());
    assert_eq!(t.print(), "");
    let d = EntryType::default();
    assert!(matches!(d, EntryType::Error(_)));
    assert_eq!(d.get_inner(), "DEFAULT");
}

#[test]
fn words_split_on_any_whitespace() {
    let t = PingEntry::parse("PING\tx".to_string());
    assert!(matches!(t.t, EntryType::Title(_)));
    let t = PingEntry::parse("  PING example.com".to_string());
    assert!(matches!(t.t, EntryType::Title(_)));
    let e = PingEntry::parse(" 64  bytes from\th (1.2.3.4):  icmp_seq=2 ttl=9 time=3.5 ms".to_string());
    assert!(matches!(e.t, EntryType::Pong(_)));
    assert_eq!(e.from_domain, "h");
    assert_eq!(e.from_ipv6, "1.2.3.4");
    assert_eq!(e.icmp_seq, 2);
    assert_eq!(e.ttl, 9);
    assert_eq!(e.time_us, 3_500);
    let x = PingEntry::parse("PINGS x".to_string());
    assert!(matches!(x.t, EntryType::Error(_)));
}

#[test]
fn time_written_as_a_float() {
    let time_of = |t: &str| {
        PingEntry::parse(format!("64 bytes from h (a): icmp_seq=1 ttl=7 time={} ms", t))
    };
    for (t, us) in [
        ("1e3", 1_000_000),
        ("2.5E-1", 250),
        ("+5", 5_000),
        ("1.5e+2", 150_000),
        ("1e-4", 1),
        ("0e5", 0),
        ("0.0001E1", 1),
        ("12345e-3", 12_345),
        ("9e15", 9_000_000_000_000_000_000),
    ] {
        let e = time_of(t);
        assert!(matches!(e.t, EntryType::Pong(_)), "{}", t);
        assert_eq!(e.time_us, us, "{}", t);
    }
    assert_eq!(bucket(time_of("1e3").time_us), Tier::UpTo1000);
}

#[test]
fn negative_or_malformed_time_is_not_a_reading() {
    for t in ["-5", "-1e3", "1e", "e3", "1e3.5", "1.2e-", "++5", "1e1001", "1e16", "."] {
        let e = PingEntry::parse(format!("64 bytes from h (a): icmp_seq=1 ttl=7 time={} ms", t));
        assert!(matches!(e.t, EntryType::Error(_)), "{}", t);
    }
}
