//! The parts on their own, with exact values.
use fleet_api::auth::bearer_token;
use fleet_api::clock::{current_timestamp_sec, timestamp_of, ClockBeforeEpoch};
use fleet_api::health::health_handler;
use fleet_api::history::{
    get_telemetry, group_by_hostname, history_hours, history_statement, history_window,
    HistoryWindow, NodeHistories, TelemetryQuery, DEFAULT_HISTORY_HOURS, MAX_HISTORY_HOURS,
};
use fleet_api::ingest::{post_telemetry, post_telemetry_reply};
use fleet_api::numbers::{to_signed, to_unsigned};
use fleet_api::retention::{
    cleanup_old_telemetry, retention_report, RetentionReport, CLEANUP_INTERVAL_SECS, RETENTION_DAYS,
};
use fleet_api::status::Status;
use fleet_api::store::{
    delete_statement, insert_statement, node_from_row, select_statement, SqlValue,
};
use fleet_api::telemetry::{Float32, Float64, NodeTelemetry};
use fleet_api::text::{order_text, same_text, Order};
use fleet_api::token::{checked_reply, decode_base64, read_token_claims, token_reply};

fn node(hostname: &str, timestamp_sec: i64) -> NodeTelemetry {
    NodeTelemetry {
        hostname: hostname.to_string(),
        cpu_usage: Float32 { bits: 20.5f32.to_bits() },
        ram_used_mb: 1,
        ram_total_mb: 2,
        load_avg_1m: Float64 { bits: 0.5f64.to_bits() },
        load_avg_5m: Float64 { bits: 0.4f64.to_bits() },
        load_avg_15m: Float64 { bits: 0.3f64.to_bits() },
        uptime_secs: 3,
        disk_used_gb: Float64 { bits: 50.0f64.to_bits() },
        disk_total_gb: Float64 { bits: 100.0f64.to_bits() },
        tailscale_ip: "100.0.0.1".to_string(),
        timestamp_sec,
    }
}

#[test]
fn the_clock_is_past_the_epoch() {
    let reference =
        std::time::SystemTime::now().duration_since(std::time::UNIX_EPOCH).unwrap().as_secs();
    let now = current_timestamp_sec().unwrap();
    assert!(now >= reference as i64);
    assert!(now <= reference as i64 + 5);
}

#[test]
fn a_timestamp_counts_whole_seconds_from_the_epoch() {
    let epoch = std::time::UNIX_EPOCH;
    let millis = std::time::Duration::from_millis;
    assert_eq!(timestamp_of(&epoch), Ok(0));
    assert_eq!(timestamp_of(&(epoch + millis(999))), Ok(0));
    assert_eq!(timestamp_of(&(epoch + millis(1_700_000_000_999))), Ok(1_700_000_000));
    assert_eq!(timestamp_of(&(epoch - millis(1))), Err(ClockBeforeEpoch));
}

#[test]
fn counters_wrap_into_signed_integers() {
    assert_eq!(to_signed(0), 0);
    assert_eq!(to_signed(i64::MAX as u64), i64::MAX);
    assert_eq!(to_signed(i64::MAX as u64 + 1), i64::MIN);
    assert_eq!(to_signed(u64::MAX), -1);
    assert_eq!(to_unsigned(7), Some(7));
    assert_eq!(to_unsigned(-1), None);
}

#[test]
fn text_is_ordered_by_its_bytes() {
    assert_eq!(order_text("", ""), Order::Same);
    assert_eq!(order_text("", "a"), Order::Before);
    assert_eq!(order_text("ab", "a"), Order::After);
    assert_eq!(order_text("B", "a"), Order::Before);
    assert_eq!(order_text("z", "\u{e9}"), Order::Before);
    assert_eq!(order_text("\u{ffff}", "\u{10000}"), Order::Before);
    assert!(same_text("sbl1", "sbl1"));
    assert!(!same_text("sbl1", "sbl2"));
}

#[test]
fn windows_are_clamped() {
    assert_eq!(DEFAULT_HISTORY_HOURS, 24);
    assert_eq!(MAX_HISTORY_HOURS, 168);
    let now = 1_700_000_000;
    let cases = [
        (None, 24),
        (Some(0), 1),
        (Some(1), 1),
        (Some(2), 2),
        (Some(168), 168),
        (Some(169), 168),
        (Some(u64::MAX), 168),
    ];
    for (hours, expected) in cases {
        let window = history_window(&TelemetryQuery { hours }, now);
        assert_eq!(window.hours, expected);
        assert_eq!(history_hours(&TelemetryQuery { hours }), expected);
        assert_eq!(window.now, now);
        assert_eq!(window.min_timestamp, now - expected as i64 * 3600);
        let again = history_window(&TelemetryQuery { hours: Some(window.hours) }, now);
        assert_eq!(again.hours, window.hours);
    }
}

#[test]
fn the_history_is_read_from_the_start_of_the_window() {
    let window = history_window(&TelemetryQuery { hours: Some(2) }, 10_000);
    let statement = history_statement(&window);
    assert_eq!(
        statement.sql,
        "SELECT hostname, cpu_usage, ram_used_mb, ram_total_mb, load_avg_1m, load_avg_5m, \
         load_avg_15m, uptime_secs, disk_used_gb, disk_total_gb, tailscale_ip, timestamp_sec \
         FROM telemetry WHERE timestamp_sec >= ? ORDER BY hostname ASC, timestamp_sec ASC"
    );
    assert!(matches!(statement.args.as_slice(), [SqlValue::Integer(2800)]));
    assert_eq!(select_statement(2800).sql, statement.sql);
}

#[test]
fn rows_are_written_column_by_column() {
    let statement = insert_statement("key".to_string(), &node("sbl1", 99));
    assert_eq!(
        statement.sql,
        "INSERT INTO telemetry (id, hostname, cpu_usage, ram_used_mb, ram_total_mb, load_avg_1m, \
         load_avg_5m, load_avg_15m, uptime_secs, disk_used_gb, disk_total_gb, tailscale_ip, \
         timestamp_sec) VALUES (?, ?, ?, ?, ?, ?, ?, ?, ?, ?, ?, ?, ?)"
    );
    assert_eq!(statement.args.len(), 13);
    assert_eq!(statement.sql.matches('?').count(), statement.args.len());
    assert!(matches!(&statement.args[0], SqlValue::Text(id) if id == "key"));
    assert!(matches!(&statement.args[1], SqlValue::Text(name) if name == "sbl1"));
    assert!(matches!(&statement.args[2], SqlValue::Single(cpu) if cpu.bits == 20.5f32.to_bits()));
    assert!(matches!(&statement.args[8], SqlValue::Integer(3)));
    assert!(matches!(&statement.args[12], SqlValue::Integer(99)));
}

#[test]
fn a_stored_row_reads_back() {
    let mut args = insert_statement("key".to_string(), &node("sbl1", 99)).args;
    args.remove(0);
    let read = node_from_row(&args).unwrap();
    assert_eq!(read.hostname, "sbl1");
    assert_eq!(read.cpu_usage.bits, 20.5f32.to_bits());
    assert_eq!((read.ram_used_mb, read.ram_total_mb, read.uptime_secs), (1, 2, 3));
    assert_eq!(read.load_avg_15m.bits, 0.3f64.to_bits());
    assert_eq!(read.disk_total_gb.bits, 100.0f64.to_bits());
    assert_eq!(read.tailscale_ip, "100.0.0.1");
    assert_eq!(read.timestamp_sec, 99);
}

#[test]
fn a_row_of_another_shape_holds_no_node() {
    let mut row = insert_statement("key".to_string(), &node("sbl1", 99)).args;
    assert!(node_from_row(&row).is_none());
    row.remove(0);
    let mut negative = row.clone();
    negative[2] = SqlValue::Integer(-1);
    assert!(node_from_row(&negative).is_none());
    let mut odd = row.clone();
    odd[0] = SqlValue::Integer(1);
    assert!(node_from_row(&odd).is_none());
    row.pop();
    assert!(node_from_row(&row).is_none());
}

#[test]
fn new_rows_have_random_keys() {
    let first = post_telemetry(&node("sbl1", 99));
    let second = post_telemetry(&node("sbl1", 99));
    let keys: Vec<String> = [first, second]
        .iter()
        .map(|statement| match &statement.args[0] {
            SqlValue::Text(id) => id.clone(),
            _ => panic!("a key is text"),
        })
        .collect();
    assert_ne!(keys[0], keys[1]);
    for key in &keys {
        let letters: Vec<char> = key.chars().collect();
        assert_eq!(letters.len(), 36);
        for (at, letter) in letters.iter().enumerate() {
            match at {
                8 | 13 | 18 | 23 => assert_eq!(*letter, '-'),
                14 => assert_eq!(*letter, '4'),
                19 => assert!("89ab".contains(*letter)),
                _ => assert!("0123456789abcdef".contains(*letter)),
            }
        }
    }
}

#[test]
fn posts_are_answered_by_their_outcome() {
    assert_eq!(post_telemetry_reply(true), Ok(Status::Success));
    assert_eq!(post_telemetry_reply(false), Err(Status::InternalServerError));
    assert_eq!(Status::Success.code(), 200);
    assert_eq!(Status::Unauthorized.code(), 401);
    assert_eq!(Status::InternalServerError.code(), 500);
}

#[test]
fn measurements_are_grouped_in_their_order() {
    let records = vec![node("b", 3), node("a", 1), node("b", 1), node("c", 9), node("b", 2)];
    let histories = group_by_hostname(records);
    assert_eq!(histories.len(), 3);
    let times: Vec<i64> =
        histories.get("b").unwrap().iter().map(|record| record.timestamp_sec).collect();
    assert_eq!(times, vec![3, 1, 2]);
    assert!(histories.get("d").is_none());
    let entries = histories.into_entries();
    let names: Vec<&str> = entries.iter().map(|entry| entry.hostname.as_str()).collect();
    assert_eq!(names, vec!["a", "b", "c"]);
    let total: usize = entries.iter().map(|entry| entry.records.len()).sum();
    assert_eq!(total, 5);
}

#[test]
fn no_measurements_make_no_groups() {
    assert_eq!(NodeHistories::new().len(), 0);
    let histories = group_by_hostname(Vec::new());
    assert_eq!(histories.len(), 0);
    assert!(histories.get("").is_none());
    assert!(histories.into_entries().is_empty());
}

#[test]
fn many_names_stay_sorted() {
    let mut histories = NodeHistories::new();
    for i in 0..200i64 {
        histories.push(node(&format!("node-{}", (i * 37) % 100), i));
    }
    assert_eq!(histories.len(), 100);
    assert_eq!(histories.get("node-37").unwrap().len(), 2);
    let entries = histories.into_entries();
    for pair in entries.windows(2) {
        assert!(pair[0].hostname < pair[1].hostname);
    }
}

#[test]
fn a_history_tells_its_window() {
    let window = HistoryWindow { hours: 2, now: 10_000, min_timestamp: 2800 };
    let mut row = insert_statement("key".to_string(), &node("sbl1", 3000)).args;
    row.remove(0);
    let history = get_telemetry(&window, Some(vec![row.clone()])).unwrap();
    assert_eq!(history.window_hours, 2);
    assert_eq!(history.generated_at_sec, 10_000);
    assert_eq!(history.nodes.get("sbl1").unwrap().len(), 1);
    let mut spoiled = row.clone();
    spoiled[3] = SqlValue::Integer(-5);
    let refused = get_telemetry(&window, Some(vec![row, spoiled]));
    assert_eq!(refused.unwrap_err(), Status::InternalServerError);
    assert_eq!(get_telemetry(&window, None).unwrap_err(), Status::InternalServerError);
}

#[test]
fn measurements_are_kept_for_two_weeks() {
    assert_eq!(RETENTION_DAYS, 14);
    assert_eq!(CLEANUP_INTERVAL_SECS, 3600);
    let statement = cleanup_old_telemetry(2_000_000);
    assert_eq!(statement.sql, "DELETE FROM telemetry WHERE timestamp_sec < ?");
    assert!(matches!(statement.args.as_slice(), [SqlValue::Integer(790_400)]));
    assert!(matches!(delete_statement(-1).args.as_slice(), [SqlValue::Integer(-1)]));
}

#[test]
fn pruning_is_reported_when_it_matters() {
    assert!(matches!(
        retention_report(Ok(3)),
        RetentionReport::Pruned { rows: 3, days: 14 }
    ));
    assert!(matches!(retention_report(Ok(0)), RetentionReport::Quiet));
    match retention_report(Err("disk full".to_string())) {
        RetentionReport::Failed { reason } => assert_eq!(reason, "disk full"),
        _ => panic!("a failure is reported"),
    }
}

#[test]
fn the_service_is_online() {
    let health = health_handler("1.2.3");
    assert_eq!(health.status, "online");
    assert_eq!(health.repository, "antimony-labs/core");
    assert_eq!(health.version, "1.2.3");
}

#[test]
fn a_bearer_token_follows_its_word() {
    assert_eq!(bearer_token("Bearer abc.def"), Some("abc.def"));
    assert_eq!(bearer_token("Bearer "), Some(""));
    assert_eq!(bearer_token("Bearer  x"), Some(" x"));
    assert_eq!(bearer_token("Bearer"), None);
    assert_eq!(bearer_token("bearer abc"), None);
    assert_eq!(bearer_token(""), None);
}

#[test]
fn claims_are_read_from_their_json() {
    let carried = |sub: &str, exp: &str| {
        vec![
            ("exp".to_string(), exp.to_string()),
            ("role".to_string(), "null".to_string()),
            ("sub".to_string(), sub.to_string()),
        ]
    };
    let claims = token_reply(Some(&carried("\"sb\\u006c1\"", "1700000000"))).unwrap();
    assert_eq!(claims.sub, "sbl1");
    assert_eq!(claims.exp, 1_700_000_000);
    for (sub, exp) in [("7", "1"), ("\"a\"", "1.5"), ("\"a\"", "-1"), ("\"a\"", "\"1\"")] {
        let refused = token_reply(Some(&carried(sub, exp)));
        assert_eq!(refused.unwrap_err(), Status::Unauthorized);
    }
    let nothing: Vec<(String, String)> = Vec::new();
    assert_eq!(token_reply(Some(&nothing)).unwrap_err(), Status::Unauthorized);
    assert_eq!(token_reply(None).unwrap_err(), Status::Unauthorized);
}

#[test]
fn an_expiry_is_a_plain_integer() {
    let reply = |exp: &str| {
        token_reply(Some(&vec![
            ("exp".to_string(), exp.to_string()),
            ("sub".to_string(), "\"sbl1\"".to_string()),
        ]))
    };
    for (json, expected) in [
        ("0", 0),
        ("7", 7),
        (" \t\r\n42 \n", 42),
        ("10", 10),
        ("18446744073709551615", usize::MAX),
    ] {
        assert_eq!(reply(json).unwrap().exp, expected);
    }
    for json in [
        "",
        " ",
        "00",
        "07",
        "-0",
        "-7",
        "+7",
        "7.0",
        "7e0",
        "7x",
        "7 8",
        "\u{a0}7",
        "null",
        "[7]",
        "18446744073709551616",
        "99999999999999999999999",
    ] {
        assert_eq!(reply(json).unwrap_err(), Status::Unauthorized);
    }
}

#[test]
fn a_name_is_a_json_string() {
    let reply = |sub: &str| {
        token_reply(Some(&vec![
            ("exp".to_string(), "1".to_string()),
            ("sub".to_string(), sub.to_string()),
        ]))
    };
    for (json, expected) in [
        ("\"\"", ""),
        ("\"sbl1\"", "sbl1"),
        ("\"\u{e9}\u{1f600}\u{7f}\"", "\u{e9}\u{1f600}\u{7f}"),
        ("\"a\\nb\"", "a\nb"),
        (" \"sbl1\" ", "sbl1"),
    ] {
        assert_eq!(reply(json).unwrap().sub, expected);
    }
    for json in ["", "\"", "sbl1", "\"a\"b\"", "\"a\nb\"", "\"\\ud800\"", "\"\\\""] {
        assert_eq!(reply(json).unwrap_err(), Status::Unauthorized);
    }
}

#[test]
fn base64_is_url_safe_and_unpadded() {
    for (text, bytes) in [
        (&b""[..], &b""[..]),
        (b"Zg", b"f"),
        (b"Zm8", b"fo"),
        (b"Zm9v", b"foo"),
        (b"Zm9vYg", b"foob"),
        (b"Zm9vYmE", b"fooba"),
        (b"Zm9vYmFy", b"foobar"),
        (b"-_8A", &[0xfb, 0xff, 0x00]),
        (b"AZaz", &[0x01, 0x96, 0xb3]),
        (b"09AA", &[0xd3, 0xd0, 0x00]),
    ] {
        assert_eq!(decode_base64(text).unwrap(), bytes);
    }
    for text in [&b"Z"[..], b"Zm9vY", b"Zh", b"Zm9", b"Zg==", b"Zm9v\n", b"+/8A", b"Zm.v"] {
        assert_eq!(decode_base64(text), None);
    }
}

#[test]
fn the_payload_stands_between_the_last_two_dots() {
    let claims = |token: &str| read_token_claims(token);
    let expected = vec![
        ("a".to_string(), "1".to_string()),
        ("b".to_string(), "\"x\"".to_string()),
    ];
    // {"b":"x","a":1}
    assert_eq!(claims("h.eyJiIjoieCIsImEiOjF9.s"), Some(expected.clone()));
    assert_eq!(claims(".eyJiIjoieCIsImEiOjF9."), Some(expected.clone()));
    assert_eq!(claims("g.h.eyJiIjoieCIsImEiOjF9.s"), Some(expected.clone()));
    assert_eq!(claims("\u{e9}.eyJiIjoieCIsImEiOjF9.\u{e9}"), Some(expected));
    // {}
    assert_eq!(claims("h.e30.s"), Some(Vec::new()));
    // {"a":"<0xff>"}
    assert_eq!(
        claims("h.eyJhIjoi_yJ9.s"),
        Some(vec![("a".to_string(), "\"\u{fffd}\"".to_string())])
    );
    for token in ["", "h", "h.e30", ".e30", "h..s", "h.e3.s", "h.W10.s", "h.e30.s.t"] {
        assert_eq!(claims(token), None);
    }
}

#[test]
fn only_an_accepted_token_names_its_owner() {
    // {"sub":"sbl1","exp":1700000000}
    let token = "h.eyJzdWIiOiJzYmwxIiwiZXhwIjoxNzAwMDAwMDAwfQ.s";
    let claims = checked_reply(token, true).unwrap();
    assert_eq!(claims.sub, "sbl1");
    assert_eq!(claims.exp, 1_700_000_000);
    assert_eq!(checked_reply(token, false).unwrap_err(), Status::Unauthorized);
    for nameless in ["", "h.s", "h.e30.s", "h.eyJzdWIiOiJzYmwxIn0.s", "h.eyJleHAiOjF9.s"] {
        assert_eq!(checked_reply(nameless, true).unwrap_err(), Status::Unauthorized);
    }
}
