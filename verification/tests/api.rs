//! Requests from end to end, with a database in memory and tokens signed for the occasion.
use axum::http::{HeaderMap, HeaderValue};
use fleet_api::auth::{auth_middleware, verify_token};
use fleet_api::clock::current_timestamp_sec;
use fleet_api::headers::cors_middleware;
use fleet_api::history::{
    get_telemetry, history_statement, history_window, TelemetryHistoryResponse, TelemetryQuery,
};
use fleet_api::ingest::{post_telemetry, post_telemetry_reply};
use fleet_api::retention::cleanup_old_telemetry;
use fleet_api::status::Status;
use fleet_api::store::{insert_statement, SqlValue, Statement};
use fleet_api::telemetry::{Float32, Float64, NodeTelemetry};
use jsonwebtoken::{encode, Algorithm, EncodingKey, Header};
use sqlx::sqlite::{SqliteArguments, SqlitePoolOptions, SqliteRow};
use sqlx::{Row, Sqlite, SqlitePool};

const PUBLIC_KEY: &[u8] = b"-----BEGIN PUBLIC KEY-----
MCowBQYDK2VwAyEAGb9ECWmEzf6FQbrBZ9w7lshQhqowtrbLDFw4rXAxZuE=
-----END PUBLIC KEY-----
";

const OTHER_PUBLIC_KEY: &[u8] = b"-----BEGIN PUBLIC KEY-----
MCowBQYDK2VwAyEA11qYAYKxCrfVS/7TyWQHOg7hcvPapiMlrwIaaPcHURo=
-----END PUBLIC KEY-----
";

/// The private half of `PUBLIC_KEY`, in PKCS#8.
const SIGNING_KEY: [u8; 48] = [
    0x30, 0x2e, 0x02, 0x01, 0x00, 0x30, 0x05, 0x06, 0x03, 0x2b, 0x65, 0x70, 0x04, 0x22, 0x04, 0x20,
    0xd4, 0xee, 0x72, 0xdb, 0xf9, 0x13, 0x58, 0x4a, 0xd5, 0xb6, 0xd8, 0xf1, 0xf7, 0x69, 0xf8, 0xad,
    0x3a, 0xfe, 0x7c, 0x28, 0xcb, 0xf1, 0xd4, 0xfb, 0xe0, 0x97, 0xa8, 0x8f, 0x44, 0x75, 0x58, 0x42,
];

fn claims(sub: &str, exp: i64) -> serde_json::Map<String, serde_json::Value> {
    let mut claims = serde_json::Map::new();
    claims.insert("sub".to_string(), serde_json::Value::from(sub));
    claims.insert("exp".to_string(), serde_json::Value::from(exp));
    claims
}

fn sign(claims: &serde_json::Map<String, serde_json::Value>) -> String {
    encode(&Header::new(Algorithm::EdDSA), claims, &EncodingKey::from_ed_der(&SIGNING_KEY)).unwrap()
}

/// URL-safe Base64 without padding.
fn base64(bytes: &[u8]) -> String {
    let symbols = b"ABCDEFGHIJKLMNOPQRSTUVWXYZabcdefghijklmnopqrstuvwxyz0123456789-_";
    let mut text = String::new();
    for chunk in bytes.chunks(3) {
        let mut group = [0u8; 3];
        group[..chunk.len()].copy_from_slice(chunk);
        let bits = (group[0] as usize) << 16 | (group[1] as usize) << 8 | group[2] as usize;
        for place in 0..chunk.len() + 1 {
            text.push(symbols[bits >> (18 - 6 * place) & 63] as char);
        }
    }
    text
}

/// Signs a payload as it stands.
fn sign_bytes(payload: &[u8]) -> String {
    let message = format!("{}.{}", base64(b"{\"alg\":\"EdDSA\"}"), base64(payload));
    let key = EncodingKey::from_ed_der(&SIGNING_KEY);
    let signature = jsonwebtoken::crypto::sign(message.as_bytes(), &key, Algorithm::EdDSA).unwrap();
    format!("{}.{}", message, signature)
}

/// A payload that names a host and an expiry, with more between.
fn payload(exp: i64, more: &[u8]) -> Vec<u8> {
    let mut bytes = format!("{{\"exp\":{},", exp).into_bytes();
    bytes.extend_from_slice(more);
    bytes.extend_from_slice(b"\"sub\":\"sbl1\"}");
    bytes
}

fn bearer(token: &str) -> HeaderMap<HeaderValue> {
    let mut headers = HeaderMap::new();
    headers.insert("content-type", HeaderValue::from_static("application/json"));
    headers.insert("authorization", format!("Bearer {}", token).parse().unwrap());
    headers
}

fn run<F: std::future::Future>(work: F) -> F::Output {
    tokio::runtime::Builder::new_current_thread().enable_all().build().unwrap().block_on(work)
}

async fn open_table() -> SqlitePool {
    let pool =
        SqlitePoolOptions::new().max_connections(1).connect("sqlite::memory:").await.unwrap();
    sqlx::query(
        "CREATE TABLE IF NOT EXISTS telemetry (
            id TEXT PRIMARY KEY NOT NULL,
            hostname TEXT NOT NULL,
            cpu_usage REAL NOT NULL,
            ram_used_mb INTEGER NOT NULL,
            ram_total_mb INTEGER NOT NULL,
            load_avg_1m REAL NOT NULL,
            load_avg_5m REAL NOT NULL,
            load_avg_15m REAL NOT NULL,
            uptime_secs INTEGER NOT NULL,
            disk_used_gb REAL NOT NULL,
            disk_total_gb REAL NOT NULL,
            tailscale_ip TEXT NOT NULL,
            timestamp_sec INTEGER NOT NULL
        );",
    )
    .execute(&pool)
    .await
    .unwrap();
    pool
}

fn bound(statement: &Statement) -> sqlx::query::Query<'_, Sqlite, SqliteArguments<'_>> {
    let mut query = sqlx::query(statement.sql.as_str());
    for arg in &statement.args {
        query = match arg {
            SqlValue::Text(text) => query.bind(text.as_str()),
            SqlValue::Integer(value) => query.bind(*value),
            SqlValue::Single(value) => query.bind(f32::from_bits(value.bits)),
            SqlValue::Double(value) => query.bind(f64::from_bits(value.bits)),
        };
    }
    query
}

fn values(row: &SqliteRow) -> Vec<SqlValue> {
    let text = |at: usize| SqlValue::Text(row.get::<String, _>(at));
    let integer = |at: usize| SqlValue::Integer(row.get::<i64, _>(at));
    let single = |at: usize| SqlValue::Single(f32_of(row.get::<f32, _>(at)));
    let double = |at: usize| SqlValue::Double(f64_of(row.get::<f64, _>(at)));
    vec![
        text(0),
        single(1),
        integer(2),
        integer(3),
        double(4),
        double(5),
        double(6),
        integer(7),
        double(8),
        double(9),
        text(10),
        integer(11),
    ]
}

fn f32_of(value: f32) -> Float32 {
    Float32 { bits: value.to_bits() }
}

fn f64_of(value: f64) -> Float64 {
    Float64 { bits: value.to_bits() }
}

/// Posts a measurement, and gives the status code of the answer.
async fn post(pool: &SqlitePool, headers: &HeaderMap<HeaderValue>, payload: &NodeTelemetry) -> u16 {
    if let Err(status) = auth_middleware("POST", headers, PUBLIC_KEY) {
        return status.code();
    }
    let statement = post_telemetry(payload);
    match post_telemetry_reply(bound(&statement).execute(pool).await.is_ok()) {
        Ok(status) => status.code(),
        Err(status) => status.code(),
    }
}

async fn store(pool: &SqlitePool, payload: &NodeTelemetry) {
    bound(&post_telemetry(payload)).execute(pool).await.unwrap();
}

/// Reads the history, as a request with `hours` does at time `now`.
async fn read(
    pool: &SqlitePool,
    hours: Option<u64>,
    now: i64,
) -> Result<TelemetryHistoryResponse, Status> {
    let window = history_window(&TelemetryQuery { hours }, now);
    let statement = history_statement(&window);
    let rows = match bound(&statement).fetch_all(pool).await {
        Ok(rows) => Some(rows.iter().map(values).collect()),
        Err(_) => None,
    };
    get_telemetry(&window, rows)
}

fn node(hostname: &str, timestamp_sec: i64) -> NodeTelemetry {
    NodeTelemetry {
        hostname: hostname.to_string(),
        cpu_usage: f32_of(20.0),
        ram_used_mb: 4000,
        ram_total_mb: 16000,
        load_avg_1m: f64_of(0.5),
        load_avg_5m: f64_of(0.4),
        load_avg_15m: f64_of(0.3),
        uptime_secs: 100,
        disk_used_gb: f64_of(50.0),
        disk_total_gb: f64_of(100.0),
        tailscale_ip: "100.120.241.78".to_string(),
        timestamp_sec,
    }
}

#[test]
fn test_unauthorized_post_rejected() {
    let payload = NodeTelemetry {
        hostname: "hacker_node".to_string(),
        cpu_usage: f32_of(99.0),
        ram_used_mb: 1024,
        ram_total_mb: 2048,
        load_avg_1m: f64_of(4.0),
        load_avg_5m: f64_of(3.5),
        load_avg_15m: f64_of(3.0),
        uptime_secs: 86400,
        disk_used_gb: f64_of(50.0),
        disk_total_gb: f64_of(100.0),
        tailscale_ip: "100.0.0.1".to_string(),
        timestamp_sec: 123456789,
    };
    let mut headers = HeaderMap::new();
    headers.insert("content-type", HeaderValue::from_static("application/json"));
    run(async {
        let pool = open_table().await;
        assert_eq!(post(&pool, &headers, &payload).await, 401);
        let rows: i64 =
            sqlx::query("SELECT COUNT(*) FROM telemetry").fetch_one(&pool).await.unwrap().get(0);
        assert_eq!(rows, 0);
    });
}

#[test]
fn test_authorized_post_accepted() {
    let exp = current_timestamp_sec().unwrap() + 60;
    let token = sign(&claims("test_node_01", exp));
    let payload = NodeTelemetry {
        hostname: "test_node_01".to_string(),
        cpu_usage: f32_of(45.5),
        ram_used_mb: 2048,
        ram_total_mb: 16384,
        load_avg_1m: f64_of(1.5),
        load_avg_5m: f64_of(1.2),
        load_avg_15m: f64_of(1.0),
        uptime_secs: 3600,
        disk_used_gb: f64_of(25.0),
        disk_total_gb: f64_of(500.0),
        tailscale_ip: "100.0.0.99".to_string(),
        timestamp_sec: 123456789,
    };
    run(async {
        let pool = open_table().await;
        assert_eq!(post(&pool, &bearer(&token), &payload).await, 200);
        let record = sqlx::query("SELECT cpu_usage FROM telemetry WHERE hostname = 'test_node_01'")
            .fetch_one(&pool)
            .await
            .unwrap();
        let cpu_usage: f64 = record.get("cpu_usage");
        assert_eq!(cpu_usage, 45.5);
    });
}

#[test]
fn test_get_telemetry_groups_rows_by_hostname_and_filters_window() {
    run(async {
        let pool = open_table().await;
        let now = current_timestamp_sec().unwrap();
        store(
            &pool,
            &NodeTelemetry {
                hostname: "sbl1".to_string(),
                cpu_usage: f32_of(20.0),
                ram_used_mb: 4000,
                ram_total_mb: 16000,
                load_avg_1m: f64_of(0.5),
                load_avg_5m: f64_of(0.4),
                load_avg_15m: f64_of(0.3),
                uptime_secs: 100,
                disk_used_gb: f64_of(50.0),
                disk_total_gb: f64_of(100.0),
                tailscale_ip: "100.120.241.78".to_string(),
                timestamp_sec: now - 60,
            },
        )
        .await;
        store(
            &pool,
            &NodeTelemetry {
                hostname: "sbl1".to_string(),
                cpu_usage: f32_of(21.0),
                ram_used_mb: 4100,
                ram_total_mb: 16000,
                load_avg_1m: f64_of(0.6),
                load_avg_5m: f64_of(0.5),
                load_avg_15m: f64_of(0.4),
                uptime_secs: 200,
                disk_used_gb: f64_of(51.0),
                disk_total_gb: f64_of(100.0),
                tailscale_ip: "100.120.241.78".to_string(),
                timestamp_sec: now - 30,
            },
        )
        .await;
        store(
            &pool,
            &NodeTelemetry {
                hostname: "sbl2".to_string(),
                cpu_usage: f32_of(42.0),
                ram_used_mb: 2000,
                ram_total_mb: 8000,
                load_avg_1m: f64_of(1.2),
                load_avg_5m: f64_of(1.0),
                load_avg_15m: f64_of(0.8),
                uptime_secs: 300,
                disk_used_gb: f64_of(20.0),
                disk_total_gb: f64_of(80.0),
                tailscale_ip: "100.121.42.39".to_string(),
                timestamp_sec: now - 90,
            },
        )
        .await;
        store(
            &pool,
            &NodeTelemetry {
                hostname: "sbl3".to_string(),
                cpu_usage: f32_of(99.0),
                ram_used_mb: 7000,
                ram_total_mb: 8000,
                load_avg_1m: f64_of(8.0),
                load_avg_5m: f64_of(7.0),
                load_avg_15m: f64_of(6.0),
                uptime_secs: 400,
                disk_used_gb: f64_of(70.0),
                disk_total_gb: f64_of(80.0),
                tailscale_ip: "100.88.237.49".to_string(),
                timestamp_sec: now - (3 * 60 * 60),
            },
        )
        .await;

        let payload = read(&pool, Some(2), now).await.unwrap();
        assert_eq!(payload.window_hours, 2);
        assert_eq!(payload.generated_at_sec, now);
        assert_eq!(payload.nodes.len(), 2);
        assert_eq!(payload.nodes.get("sbl1").unwrap().len(), 2);
        assert_eq!(payload.nodes.get("sbl2").unwrap().len(), 1);
        assert!(payload.nodes.get("sbl3").is_none());
        let sbl1 = payload.nodes.get("sbl1").unwrap();
        assert!(sbl1[0].timestamp_sec < sbl1[1].timestamp_sec);
        assert_eq!(sbl1[0].cpu_usage, f32_of(20.0));
        assert_eq!(sbl1[1].ram_used_mb, 4100);
        assert_eq!(sbl1[1].disk_used_gb, f64_of(51.0));
    });
}

#[test]
fn the_window_starts_on_the_second() {
    run(async {
        let pool = open_table().await;
        let now = 1_000_000;
        store(&pool, &node("edge", now - 3600)).await;
        store(&pool, &node("late", now - 3601)).await;
        let history = read(&pool, Some(1), now).await.unwrap();
        assert_eq!(history.nodes.get("edge").unwrap().len(), 1);
        assert!(history.nodes.get("late").is_none());
    });
}

#[test]
fn rows_come_back_by_name_and_time() {
    run(async {
        let pool = open_table().await;
        for (name, at) in [("b", 30), ("a", 20), ("b", 10), ("a", 40), ("B", 50)] {
            store(&pool, &node(name, at)).await;
        }
        let entries = read(&pool, None, 100).await.unwrap().nodes.into_entries();
        let names: Vec<&str> = entries.iter().map(|entry| entry.hostname.as_str()).collect();
        assert_eq!(names, vec!["B", "a", "b"]);
        let times: Vec<i64> =
            entries[2].records.iter().map(|record| record.timestamp_sec).collect();
        assert_eq!(times, vec![10, 30]);
    });
}

#[test]
fn a_counter_beyond_the_signed_range_spoils_the_reading() {
    run(async {
        let pool = open_table().await;
        let mut widest = node("wide", 10);
        widest.ram_used_mb = i64::MAX as u64;
        store(&pool, &widest).await;
        let history = read(&pool, None, 100).await.unwrap();
        assert_eq!(history.nodes.get("wide").unwrap()[0].ram_used_mb, i64::MAX as u64);

        let mut too_wide = node("wide", 20);
        too_wide.uptime_secs = i64::MAX as u64 + 1;
        store(&pool, &too_wide).await;
        let stored: i64 =
            sqlx::query("SELECT uptime_secs FROM telemetry WHERE timestamp_sec = 20")
                .fetch_one(&pool)
                .await
                .unwrap()
                .get(0);
        assert_eq!(stored, i64::MIN);
        assert_eq!(read(&pool, None, 100).await.unwrap_err(), Status::InternalServerError);
    });
}

#[test]
fn a_database_that_fails_is_an_internal_error() {
    run(async {
        let pool =
            SqlitePoolOptions::new().max_connections(1).connect("sqlite::memory:").await.unwrap();
        assert_eq!(read(&pool, None, 100).await.unwrap_err(), Status::InternalServerError);
        let exp = current_timestamp_sec().unwrap() + 60;
        let token = sign(&claims("sbl1", exp));
        assert_eq!(post(&pool, &bearer(&token), &node("sbl1", 1)).await, 500);
    });
}

#[test]
fn a_key_is_taken_only_once() {
    run(async {
        let pool = open_table().await;
        let first = insert_statement("same".to_string(), &node("a", 1));
        assert!(bound(&first).execute(&pool).await.is_ok());
        let second = insert_statement("same".to_string(), &node("b", 2));
        assert!(bound(&second).execute(&pool).await.is_err());
    });
}

#[test]
fn a_repeated_post_is_stored_again() {
    run(async {
        let pool = open_table().await;
        let headers = bearer(&sign(&claims("sbl1", current_timestamp_sec().unwrap() + 60)));
        let payload = node("sbl1", 7);
        assert_eq!(post(&pool, &headers, &payload).await, 200);
        assert_eq!(post(&pool, &headers, &payload).await, 200);
        let keys = sqlx::query("SELECT DISTINCT id FROM telemetry").fetch_all(&pool).await.unwrap();
        assert_eq!(keys.len(), 2);
        let history = read(&pool, Some(1), 7).await.unwrap();
        assert_eq!(history.nodes.len(), 1);
        let records = history.nodes.get("sbl1").unwrap();
        assert_eq!(records.len(), 2);
        for record in records {
            assert_eq!(format!("{:?}", record), format!("{:?}", payload));
        }
    });
}

#[test]
fn a_narrower_window_cuts_the_groups_of_a_wider_one() {
    run(async {
        let pool = open_table().await;
        let now = 10_000_000;
        for (name, hours) in [("a", 3), ("a", 2), ("a", 1), ("b", 3), ("c", 200)] {
            store(&pool, &node(name, now - hours * 3600)).await;
        }
        let times = |history: &TelemetryHistoryResponse, name: &str| -> Option<Vec<i64>> {
            let records = history.nodes.get(name)?;
            Some(records.iter().map(|record| record.timestamp_sec).collect())
        };
        let wide = read(&pool, None, now).await.unwrap();
        let narrow = read(&pool, Some(2), now).await.unwrap();
        let start = now - 2 * 3600;
        assert_eq!(wide.nodes.len(), 2);
        assert_eq!(narrow.nodes.len(), 1);
        let cut: Vec<i64> =
            times(&wide, "a").unwrap().into_iter().filter(|time| *time >= start).collect();
        assert_eq!(cut, vec![start, now - 3600]);
        assert_eq!(times(&narrow, "a"), Some(cut));
        assert_eq!(times(&wide, "b"), Some(vec![now - 3 * 3600]));
        assert_eq!(times(&narrow, "b"), None);
    });
}

#[test]
fn the_later_round_of_pruning_decides() {
    run(async {
        let cutoff = |now: i64| now - 14 * 86_400;
        let (earlier, later) = (10_000_000, 10_000_100);
        for rounds in [vec![later], vec![earlier, later], vec![later, earlier], vec![later; 2]] {
            let pool = open_table().await;
            for time in [cutoff(earlier) - 1, cutoff(earlier), cutoff(later) - 1, cutoff(later)] {
                store(&pool, &node("sbl1", time)).await;
            }
            for now in rounds {
                bound(&cleanup_old_telemetry(now)).execute(&pool).await.unwrap();
            }
            let left =
                sqlx::query("SELECT timestamp_sec FROM telemetry").fetch_all(&pool).await.unwrap();
            assert_eq!(left.len(), 1);
            assert_eq!(left[0].get::<i64, _>(0), cutoff(later));
        }
    });
}

#[test]
fn pruning_removes_what_is_older_than_two_weeks() {
    run(async {
        let pool = open_table().await;
        let now = 10_000_000;
        store(&pool, &node("kept", now - 14 * 86_400)).await;
        store(&pool, &node("gone", now - 14 * 86_400 - 1)).await;
        let statement = cleanup_old_telemetry(now);
        let removed = bound(&statement).execute(&pool).await.unwrap().rows_affected();
        assert_eq!(removed, 1);
        let left: String =
            sqlx::query("SELECT hostname FROM telemetry").fetch_one(&pool).await.unwrap().get(0);
        assert_eq!(left, "kept");
    });
}

#[test]
fn pruning_leaves_the_widest_window_whole() {
    run(async {
        let pool = open_table().await;
        let now = 10_000_000;
        store(&pool, &node("oldest", now - 168 * 3600)).await;
        bound(&cleanup_old_telemetry(now + 7 * 86_400)).execute(&pool).await.unwrap();
        assert_eq!(read(&pool, Some(10_000), now).await.unwrap().nodes.len(), 1);
    });
}

#[test]
fn a_signed_token_names_its_owner() {
    let exp = current_timestamp_sec().unwrap() + 60;
    let owner = verify_token(&sign(&claims("sbl1", exp)), PUBLIC_KEY).unwrap();
    assert_eq!(owner.sub, "sbl1");
    assert_eq!(owner.exp, exp as usize);
}

#[test]
fn an_expired_token_is_refused() {
    let now = current_timestamp_sec().unwrap();
    let refused = verify_token(&sign(&claims("sbl1", now - 3600)), PUBLIC_KEY);
    assert_eq!(refused.unwrap_err(), Status::Unauthorized);
    let within_the_minute = verify_token(&sign(&claims("sbl1", now - 30)), PUBLIC_KEY);
    assert!(within_the_minute.is_ok());
}

#[test]
fn a_token_of_another_key_is_refused() {
    let token = sign(&claims("sbl1", current_timestamp_sec().unwrap() + 60));
    assert_eq!(verify_token(&token, OTHER_PUBLIC_KEY).unwrap_err(), Status::Unauthorized);
    let mut tampered = token.clone();
    tampered.replace_range(0..1, "f");
    assert_eq!(verify_token(&tampered, PUBLIC_KEY).unwrap_err(), Status::Unauthorized);
    assert_eq!(verify_token("", PUBLIC_KEY).unwrap_err(), Status::Unauthorized);
}

#[test]
fn a_token_without_its_claims_is_refused() {
    let exp = current_timestamp_sec().unwrap() + 60;
    let mut no_sub = claims("sbl1", exp);
    no_sub.remove("sub");
    assert_eq!(verify_token(&sign(&no_sub), PUBLIC_KEY).unwrap_err(), Status::Unauthorized);
    let mut no_exp = claims("sbl1", exp);
    no_exp.remove("exp");
    assert_eq!(verify_token(&sign(&no_exp), PUBLIC_KEY).unwrap_err(), Status::Unauthorized);
    let mut odd_sub = claims("sbl1", exp);
    odd_sub.insert("sub".to_string(), serde_json::Value::from(7));
    assert_eq!(verify_token(&sign(&odd_sub), PUBLIC_KEY).unwrap_err(), Status::Unauthorized);
    let mut fractional = claims("sbl1", exp);
    fractional.insert("exp".to_string(), serde_json::Value::from(exp as f64 + 0.5));
    assert_eq!(verify_token(&sign(&fractional), PUBLIC_KEY).unwrap_err(), Status::Unauthorized);
    let mut addressed = claims("sbl1", exp);
    addressed.insert("aud".to_string(), serde_json::Value::from("elsewhere"));
    assert_eq!(verify_token(&sign(&addressed), PUBLIC_KEY).unwrap_err(), Status::Unauthorized);
    let mut more = claims("sbl1", exp);
    more.insert("role".to_string(), serde_json::Value::from("node"));
    assert!(verify_token(&sign(&more), PUBLIC_KEY).is_ok());
}

#[test]
fn other_claims_are_not_read() {
    let exp = current_timestamp_sec().unwrap() + 60;
    let deep = [b"\"note\":".to_vec(), vec![b'['; 300], vec![b']'; 300], b",".to_vec()].concat();
    for more in [
        &b""[..],
        &b"\"note\":\"plain\","[..],
        &b"\"note\":\"\xff\","[..],
        &b"\"note\":\"\xc3\","[..],
        &b"\"note\":[{\"a\":\"\xe2\x82\"}],"[..],
        &b"\"note\":\"\\ud800\","[..],
        &b"\"iss\":\"\xff\","[..],
        &b"\"note\":1,\"note\":2,"[..],
        &b" \n"[..],
        &deep[..],
    ] {
        let token = sign_bytes(&payload(exp, more));
        let owner = verify_token(&token, PUBLIC_KEY).unwrap();
        assert_eq!(owner.sub, "sbl1");
        assert_eq!(owner.exp, exp as usize);
        assert_eq!(auth_middleware("POST", &bearer(&token), PUBLIC_KEY), Ok(()));
    }
}

#[test]
fn a_payload_of_another_form_is_refused() {
    let exp = current_timestamp_sec().unwrap() + 60;
    for refused in [
        payload(exp, b"\"\xff\":1,"),
        payload(exp, b"\"sub\":\"sbl2\","),
        payload(exp, b"\"exp\":1,"),
        payload(exp, b"\"note\":,"),
        payload(exp, b"\"note\":\"\n\","),
        payload(exp, b"\"note\":\"\\\xff\","),
        format!("{{\"exp\":{},\"sub\":\"", exp).into_bytes(),
        [format!("{{\"exp\":{},\"sub\":\"", exp).as_bytes(), b"\xff\"}"].concat(),
        format!("{{\"exp\":{},\"sub\":null}}", exp).into_bytes(),
        format!("{{\"exp\":0{},\"sub\":\"sbl1\"}}", exp).into_bytes(),
        format!("{{\"exp\":{}.0,\"sub\":\"sbl1\"}}", exp).into_bytes(),
        format!("{{\"exp\":\"{}\",\"sub\":\"sbl1\"}}", exp).into_bytes(),
        format!("[\"sbl1\",{}]", exp).into_bytes(),
        format!("[{},\"sbl1\"]", exp).into_bytes(),
        Vec::new(),
    ] {
        let token = sign_bytes(&refused);
        assert_eq!(verify_token(&token, PUBLIC_KEY).unwrap_err(), Status::Unauthorized);
    }
}

#[test]
fn a_refusal_by_expiry_is_final() {
    let now = current_timestamp_sec().unwrap();
    let expired = bearer(&sign(&claims("sbl1", now - 61 - 1)));
    let lasting = bearer(&sign(&claims("sbl1", i64::MAX)));
    for _ in 0..3 {
        assert_eq!(auth_middleware("POST", &expired, PUBLIC_KEY), Err(Status::Unauthorized));
        assert_eq!(auth_middleware("GET", &expired, PUBLIC_KEY), Err(Status::Unauthorized));
        assert_eq!(auth_middleware("OPTIONS", &expired, PUBLIC_KEY), Ok(()));
        assert_eq!(auth_middleware("POST", &lasting, PUBLIC_KEY), Ok(()));
    }
    let ancient = sign_bytes(b"{\"exp\":0,\"sub\":\"sbl1\"}");
    assert_eq!(verify_token(&ancient, PUBLIC_KEY).unwrap_err(), Status::Unauthorized);
}

#[test]
fn a_service_without_a_key_is_at_fault() {
    let headers = bearer("anything");
    assert_eq!(
        auth_middleware("POST", &headers, b"no key at all"),
        Err(Status::InternalServerError)
    );
    assert_eq!(
        auth_middleware("POST", &HeaderMap::new(), b"no key at all"),
        Err(Status::Unauthorized)
    );
}

#[test]
fn options_pass_without_a_token() {
    assert_eq!(auth_middleware("OPTIONS", &HeaderMap::new(), b""), Ok(()));
    assert_eq!(auth_middleware("options", &HeaderMap::new(), b""), Err(Status::Unauthorized));
}

#[test]
fn the_authorization_field_must_be_a_bearer_token() {
    let token = sign(&claims("sbl1", current_timestamp_sec().unwrap() + 60));
    assert_eq!(auth_middleware("POST", &bearer(&token), PUBLIC_KEY), Ok(()));
    for field in [format!("bearer {}", token), format!("Bearer{}", token), token.clone()] {
        let mut headers = HeaderMap::new();
        headers.insert("authorization", field.parse().unwrap());
        assert_eq!(auth_middleware("POST", &headers, PUBLIC_KEY), Err(Status::Unauthorized));
    }
    let mut opaque = HeaderMap::new();
    opaque.insert("authorization", HeaderValue::from_bytes(b"Bearer \xff").unwrap());
    assert_eq!(auth_middleware("POST", &opaque, PUBLIC_KEY), Err(Status::Unauthorized));
    let mut second = HeaderMap::new();
    second.append("authorization", HeaderValue::from_static("Basic x"));
    second.append("authorization", format!("Bearer {}", token).parse().unwrap());
    assert_eq!(auth_middleware("POST", &second, PUBLIC_KEY), Err(Status::Unauthorized));
}

#[test]
fn answers_are_open_to_every_origin() {
    let mut headers = HeaderMap::new();
    headers.insert("content-type", HeaderValue::from_static("application/json"));
    headers.append("access-control-allow-origin", HeaderValue::from_static("one"));
    headers.append("access-control-allow-origin", HeaderValue::from_static("two"));
    cors_middleware(&mut headers).unwrap();
    assert_eq!(headers.get("content-type").unwrap(), "application/json");
    let origins: Vec<&HeaderValue> =
        headers.get_all("access-control-allow-origin").iter().collect();
    assert_eq!(origins, vec!["*"]);
    assert_eq!(headers.get("access-control-allow-methods").unwrap(), "GET, POST, OPTIONS");
    assert_eq!(
        headers.get("access-control-allow-headers").unwrap(),
        "Content-Type, Authorization"
    );
    assert_eq!(headers.len(), 4);
    let once = headers.clone();
    cors_middleware(&mut headers).unwrap();
    assert_eq!(headers, once);
}

#[test]
fn an_overfull_answer_takes_no_more_fields() {
    let mut headers: HeaderMap<HeaderValue> = HeaderMap::new();
    let mut i: usize = 0;
    while headers.keys_len() < 24_576 {
        let name: axum::http::HeaderName = format!("x-{}", i).parse().unwrap();
        headers.try_insert(name, HeaderValue::from_static("v")).unwrap();
        i += 1;
    }
    assert!(cors_middleware(&mut headers).is_err());
    assert!(headers.get("access-control-allow-origin").is_none());
}
