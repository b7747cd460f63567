use sidekiq::{calc_at, Client, ClientOpts, Job, JsonValue};

fn args() -> Vec<JsonValue> {
    let features = JsonValue::Arr(vec![
        JsonValue::Str("serde".to_string()),
        JsonValue::Str("json".to_string()),
    ]);
    let payload = JsonValue::Obj(vec![("features".to_string(), features)]);
    let value = JsonValue::Obj(vec![
        ("code".to_string(), JsonValue::Int(200)),
        ("success".to_string(), JsonValue::Bool(true)),
        ("payload".to_string(), payload),
    ]);
    vec![value]
}

fn get_client() -> Client {
    let ns = "test";
    let client_opts = ClientOpts {
        namespace: Some(ns.to_string()),
    };
    Client::new(client_opts)
}

fn now_secs() -> i64 {
    time::OffsetDateTime::now_utc().unix_timestamp()
}

#[test]
fn test_client_push_single() {
    let class = "Maman".to_string();
    let job = Job::new(class, args(), Default::default());
    let client = get_client();
    let txn = client.push(job);
    assert_eq!(txn.cmds.len(), 2);
}

#[test]
fn test_client_push_bulk() {
    let class = "Maman".to_string();
    let jobs = vec![
        Job::new(class.clone(), args(), Default::default()),
        Job::new(class, args(), Default::default()),
    ];
    let client = get_client();
    let txn = client.push_bulk(&jobs);
    assert_eq!(txn.cmds.len(), 2);
}

#[test]
fn test_client_perform_in() {
    let class = "Maman".to_string();
    let job = Job::new(class, args(), Default::default());
    let client = get_client();
    let interval = time::Duration::minutes(1);
    match client.perform_in(interval.whole_seconds(), job) {
        Some(_) => {}
        None => {
            println!("Sidekiq push failed");
            unreachable!()
        }
    }
}

#[test]
fn test_client_perform_at() {
    let class = "Maman".to_string();
    let job = Job::new(class, args(), Default::default());
    let client = get_client();
    let start_at = time::OffsetDateTime::now_utc()
        .checked_add(time::Duration::MINUTE)
        .unwrap();
    match client.perform_at(start_at.unix_timestamp(), job) {
        Some(_) => {}
        None => {
            println!("Sidekiq push failed");
            unreachable!()
        }
    }
}

#[test]
fn test_queue_name_namespacing() {
    let plain = Client::new(ClientOpts { namespace: None });
    assert_eq!(plain.queue_name("default"), "queue:default");
    assert_eq!(plain.schedule_queue_name(), "schedule");

    let namespaced = Client::new(ClientOpts {
        namespace: Some("ns".to_string()),
    });
    assert_eq!(namespaced.queue_name("default"), "ns:queue:default");
    assert_eq!(namespaced.schedule_queue_name(), "ns:schedule");
}

#[test]
fn test_calc_at_boundaries() {
    let t: i64 = 1_700_000_000;
    // relative offset of zero: not strictly in the future
    assert_eq!(calc_at(t, 0), None);
    // an absolute timestamp equal to now: rejected too
    assert_eq!(calc_at(t, t), None);
    // a relative offset is added to now
    assert_eq!(calc_at(t, 60), Some(t + 60));
    assert_eq!(calc_at(t, 999_999_999), Some(t + 999_999_999));
    // at the threshold the value counts as absolute, and lies in the past
    assert_eq!(calc_at(t, 1_000_000_000), None);
    // an absolute timestamp in the future is kept unchanged
    assert_eq!(calc_at(t, t + 100), Some(t + 100));
    // a negative offset lies in the past
    assert_eq!(calc_at(t, -5), None);
}

#[test]
fn test_push_single_transaction_contents() {
    let client = Client::new(ClientOpts { namespace: None });
    let job = Job::new(
        "Maman".to_string(),
        vec![
            JsonValue::Str("arg1".to_string()),
            JsonValue::Str("arg2".to_string()),
        ],
        Default::default(),
    );
    let expected_payload = job.serialize();
    let txn = client.push(job);

    assert_eq!(txn.cmds.len(), 2);
    let sadd = &txn.cmds[0];
    assert_eq!(sadd.name, "SADD");
    assert_eq!(sadd.args, vec!["queues".to_string(), "default".to_string()]);
    assert!(sadd.ignore);

    let lpush = &txn.cmds[1];
    assert_eq!(lpush.name, "LPUSH");
    assert_eq!(lpush.args.len(), 2);
    assert_eq!(lpush.args[0], "queue:default");
    assert_eq!(lpush.args[1], expected_payload);

    let decoded: serde_json::Value = serde_json::from_str(&lpush.args[1]).unwrap();
    assert_eq!(decoded["class"].as_str().unwrap(), "Maman");
    assert_eq!(decoded["args"][0].as_str().unwrap(), "arg1");
    assert_eq!(decoded["args"][1].as_str().unwrap(), "arg2");
}

#[test]
fn test_push_bulk_one_round_trip_in_order() {
    let client = Client::new(ClientOpts { namespace: None });
    let opts = |jid: &str| sidekiq::JobOpts {
        retry: 25,
        queue: "q1".to_string(),
        jid: jid.to_string(),
        created_at: 1,
        enqueued_at: 1,
    };
    let first = Job::new("A".to_string(), vec![], opts("aaaaaaaaaaaaaaaaaaaaaaaa"));
    let second = Job::new("B".to_string(), vec![], opts("bbbbbbbbbbbbbbbbbbbbbbbb"));
    let p1 = first.serialize();
    let p2 = second.serialize();
    let jobs = vec![first, second];
    // one atomic transaction, however many jobs: one round trip
    let txn = client.push_bulk(&jobs);
    assert_eq!(txn.cmds.len(), 2);
    assert_eq!(txn.cmds[0].args, vec!["queues".to_string(), "q1".to_string()]);
    let lpush = &txn.cmds[1];
    assert_eq!(lpush.name, "LPUSH");
    // payloads in push order: the second job is pushed last, so the store
    // leaves it at the head of the list
    assert_eq!(lpush.args, vec!["queue:q1".to_string(), p1, p2]);
}

#[test]
fn test_perform_in_schedules_without_registration() {
    let client = get_client();
    let job = Job::new("Maman".to_string(), args(), Default::default());
    let before = now_secs();
    let txn = client.perform_in(60, job).unwrap();
    let after = now_secs();

    // a single command: nothing touches the queues set
    assert_eq!(txn.cmds.len(), 1);
    let zadd = &txn.cmds[0];
    assert_eq!(zadd.name, "ZADD");
    assert_eq!(zadd.args.len(), 3);
    assert_eq!(zadd.args[0], "test:schedule");
    let score: i64 = zadd.args[1].parse().unwrap();
    assert!(before + 60 <= score && score <= after + 60);
    let decoded: serde_json::Value = serde_json::from_str(&zadd.args[2]).unwrap();
    assert_eq!(decoded["class"].as_str().unwrap(), "Maman");
}

#[test]
fn test_perform_in_past_yields_no_schedule() {
    let client = get_client();
    let job = Job::new("Maman".to_string(), args(), Default::default());
    assert!(client.perform_in(0, job).is_none());
}

#[test]
fn test_perform_at_now_yields_no_schedule() {
    let client = get_client();
    let job = Job::new("Maman".to_string(), args(), Default::default());
    // an absolute timestamp that is not strictly in the future is rejected
    let now = time::OffsetDateTime::now_utc().unix_timestamp();
    assert!(client.perform_at(now, job).is_none());
}

#[test]
fn test_queue_registration_identical_across_pushes() {
    let client = Client::new(ClientOpts { namespace: None });
    let j1 = Job::new("A".to_string(), vec![], Default::default());
    let j2 = Job::new("B".to_string(), vec![], Default::default());
    let t1 = client.push(j1);
    let t2 = client.push(j2);
    // both pushes register the queue with the identical set member, so the
    // store's set gains it once
    assert_eq!(t1.cmds[0].name, "SADD");
    assert_eq!(t1.cmds[0].args, t2.cmds[0].args);
}
