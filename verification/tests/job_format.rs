use std::time::{SystemTime, UNIX_EPOCH};

use sidekiq::{Job, JobOpts, JsonValue};

fn args() -> Vec<JsonValue> {
    let features = JsonValue::Arr(vec![
        JsonValue::Str("serde".to_string()),
        JsonValue::Str("json".to_string()),
    ]);
    let payload = JsonValue::Obj(vec![("features".to_string(), features)]);
    let value = JsonValue::Obj(vec![
        ("code".to_string(), JsonValue::Int(200)),
        ("success".to_string(), JsonValue::Bool(true)),
        ("payload".to_string(), payload),
    ]);
    vec![value]
}

fn time_ok(time: u64) -> bool {
    let now = SystemTime::now()
        .duration_since(UNIX_EPOCH)
        .unwrap()
        .as_secs();
    now >= time
}

#[test]
fn test_job_format_with_default() {
    let class = "Maman".to_string();
    let job = Job::new(class.clone(), args(), Default::default());
    assert_eq!(job.class, class);
    assert_eq!(job.retry, 25);
    assert_eq!(job.jid.len(), 24);
    assert_eq!(job.queue, "default".to_string());
    assert!(time_ok(job.created_at));
    assert!(time_ok(job.enqueued_at));
}

#[test]
fn test_default_jid_alphanumeric() {
    let opts = JobOpts::default();
    assert_eq!(opts.jid.len(), 24);
    assert!(opts.jid.chars().all(|c| c.is_ascii_alphanumeric()));
    assert_eq!(opts.created_at, opts.enqueued_at);
}

#[test]
fn test_serialize_exact() {
    let opts = JobOpts {
        retry: -1,
        queue: "mailers".to_string(),
        jid: "0123456789abcdefghijklmn".to_string(),
        created_at: 1_500_000_000,
        enqueued_at: 1_500_000_001,
    };
    let job = Job::new(
        "Maman".to_string(),
        vec![
            JsonValue::Str("arg1".to_string()),
            JsonValue::Int(7),
            JsonValue::Null,
            JsonValue::Bool(false),
        ],
        opts,
    );
    let expected = "{\"class\":\"Maman\",\"args\":[\"arg1\",7,null,false],\"retry\":-1,\"queue\":\"mailers\",\"jid\":\"0123456789abcdefghijklmn\",\"created_at\":1500000000,\"enqueued_at\":1500000001}";
    assert_eq!(job.serialize(), expected);
}

#[test]
fn test_serialize_escapes_strings() {
    let opts = JobOpts {
        retry: 0,
        queue: "q".to_string(),
        jid: "aaaaaaaaaaaaaaaaaaaaaaaa".to_string(),
        created_at: 0,
        enqueued_at: 0,
    };
    let job = Job::new(
        "He said \"hi\"\\\n".to_string(),
        vec![JsonValue::Str("tab\there\r\u{1}".to_string())],
        opts,
    );
    let out = job.serialize();
    assert!(out.contains("\"class\":\"He said \\\"hi\\\"\\\\\\n\""));
    assert!(out.contains("\"args\":[\"tab\\there\\r\\u0001\"]"));

    // the escaped output is valid JSON and decodes to the original text
    let decoded: serde_json::Value = serde_json::from_str(&out).unwrap();
    assert_eq!(decoded["class"].as_str().unwrap(), "He said \"hi\"\\\n");
    assert_eq!(decoded["args"][0].as_str().unwrap(), "tab\there\r\u{1}");
}

#[test]
fn test_round_trip_decodes_to_same_fields() {
    let opts = JobOpts {
        retry: 25,
        queue: "default".to_string(),
        jid: "ABCDEFGHIJKLMNOPQRSTUVWX".to_string(),
        created_at: 1_700_000_000,
        enqueued_at: 1_700_000_000,
    };
    let job = Job::new("Worker::Hard".to_string(), args(), opts);
    let out = job.serialize();

    let decoded: serde_json::Value = serde_json::from_str(&out).unwrap();
    let obj = decoded.as_object().unwrap();
    assert_eq!(obj.len(), 7);
    assert_eq!(obj["class"].as_str().unwrap(), "Worker::Hard");
    assert_eq!(obj["retry"].as_i64().unwrap(), 25);
    assert_eq!(obj["queue"].as_str().unwrap(), "default");
    assert_eq!(obj["jid"].as_str().unwrap(), "ABCDEFGHIJKLMNOPQRSTUVWX");
    assert_eq!(obj["created_at"].as_u64().unwrap(), 1_700_000_000);
    assert_eq!(obj["enqueued_at"].as_u64().unwrap(), 1_700_000_000);

    let decoded_args = obj["args"].as_array().unwrap();
    assert_eq!(decoded_args.len(), 1);
    let value = decoded_args[0].as_object().unwrap();
    assert_eq!(value["code"].as_i64().unwrap(), 200);
    assert_eq!(value["success"].as_bool().unwrap(), true);
    let payload = value["payload"].as_object().unwrap();
    let features = payload["features"].as_array().unwrap();
    assert_eq!(features[0].as_str().unwrap(), "serde");
    assert_eq!(features[1].as_str().unwrap(), "json");
}

#[test]
fn test_serialize_largest_timestamp() {
    let opts = JobOpts {
        retry: 25,
        queue: "q".to_string(),
        jid: "zzzzzzzzzzzzzzzzzzzzzzzz".to_string(),
        created_at: u64::MAX,
        enqueued_at: 0,
    };
    let job = Job::new("W".to_string(), vec![], opts);
    let out = job.serialize();
    assert!(out.contains("\"created_at\":18446744073709551615"));
    assert!(out.contains("\"enqueued_at\":0"));
    assert!(out.contains("\"args\":[]"));
}

#[test]
fn test_encode_json_extremes() {
    let min = sidekiq::json::encode_json(&JsonValue::Int(i64::MIN));
    assert_eq!(min, "-9223372036854775808");
    let max = sidekiq::json::encode_json(&JsonValue::Int(i64::MAX));
    assert_eq!(max, "9223372036854775807");
    let empty_arr = sidekiq::json::encode_json(&JsonValue::Arr(vec![]));
    assert_eq!(empty_arr, "[]");
    let empty_obj = sidekiq::json::encode_json(&JsonValue::Obj(vec![]));
    assert_eq!(empty_obj, "{}");
    let empty_str = sidekiq::json::encode_json(&JsonValue::Str(String::new()));
    assert_eq!(empty_str, "\"\"");
}
