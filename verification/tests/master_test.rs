use axis::agent::task::{Payload, Task, TaskId};
use axis::errors::Error;
use axis::key::{Key, Pair};
use axis::master::agents::accept;
use axis::master::{handle, publish, reporter, reporter_at, Config, Envelope};
use axis::orm::models::{Agent, Registry};
use axis::protocol::Request;
use axis::Port;

fn cfg() -> Config {
    Config {
        port: Port {
            publisher: 5555,
            reporter: 5556,
        },
        secret: "s".to_string(),
    }
}

fn pair() -> Pair {
    Pair {
        public: Key([0xaa; 32]),
        private: Key([0xbb; 32]),
    }
}

fn f1() -> Key {
    Key([1u8; 32])
}

fn f2() -> Key {
    Key([2u8; 32])
}

fn task() -> Task {
    Task {
        id: TaskId([9u8; 16]),
        payload: vec![Payload::Shell {
            user: "root".to_string(),
            script: "echo hi".to_string(),
        }],
    }
}

fn register(host: &str, finger: Key) -> Request {
    Request::Register {
        host: host.to_string(),
        finger,
    }
}

fn publish_to(secret: &str, agents: &[&str]) -> Request {
    Request::Publish {
        secret: secret.to_string(),
        agents: agents.iter().map(|it| it.to_string()).collect(),
        task: task(),
    }
}

fn envelope(topic: &str) -> Envelope {
    Envelope {
        topic: topic.to_string(),
        body: task().encode(),
    }
}

fn registry(agents: &[(&str, bool)]) -> Registry {
    let mut db = Registry::new();
    for (sn, enable) in agents {
        db.add_at(sn, &f1().to_string(), 1).unwrap();
        if *enable {
            accept(&mut db, sn).unwrap();
        }
    }
    db
}

#[test]
fn register_of_an_unseen_serial_adds_one_row_that_is_not_trusted() {
    let mut db = registry(&[("other", true)]);
    let r = handle(&cfg(), &pair(), &mut db, &register("node-1", f1()), 42);
    assert_eq!((r.sent, r.reply), (vec![], Ok(f1())));
    let rows: Vec<Agent> = db
        .list()
        .into_iter()
        .filter(|row| row.sn == "node-1")
        .collect();
    assert_eq!(
        rows,
        vec![Agent {
            id: 2,
            sn: "node-1".to_string(),
            key: f1().to_string(),
            enable: false,
            updated_at: 42,
            created_at: 42,
        }]
    );
    assert_eq!(db.len(), 2);
}

#[test]
fn register_of_a_known_serial_keeps_the_stored_key() {
    let mut db = Registry::new();
    handle(&cfg(), &pair(), &mut db, &register("node-1", f1()), 1);
    let before = db.list();
    let r = handle(&cfg(), &pair(), &mut db, &register("node-1", f2()), 2);
    assert_eq!(r.reply, Ok(f2()));
    assert_eq!(r.sent, vec![]);
    assert_eq!(db.list(), before);
    assert_eq!(db.by_sn("node-1").unwrap().key, f1().to_string());
}

#[test]
fn register_of_a_known_serial_keeps_the_trust() {
    let mut db = registry(&[("node-1", true)]);
    let before = db.list();
    handle(&cfg(), &pair(), &mut db, &register("node-1", f1()), 9);
    assert_eq!(db.list(), before);
    assert!(db.by_sn("node-1").unwrap().enable);
}

#[test]
fn register_fails_when_the_registry_is_full() {
    let mut db = Registry::load(vec![Agent {
        id: i32::MAX - 1,
        sn: "last".to_string(),
        key: "k".to_string(),
        enable: true,
        updated_at: 0,
        created_at: 0,
    }])
    .unwrap();
    let r = handle(&cfg(), &pair(), &mut db, &register("node-1", f1()), 1);
    assert_eq!(r.reply, Err(Error::Exhausted));
    assert_eq!(db.len(), 1);
}

#[test]
fn report_is_answered_under_the_stored_key() {
    let mut db = Registry::new();
    handle(&cfg(), &pair(), &mut db, &register("node-1", f1()), 1);
    let before = db.list();
    let request = Request::Report {
        host: "node-1".to_string(),
        task: TaskId([9u8; 16]),
        result: "fine".to_string(),
    };
    let r = handle(&cfg(), &pair(), &mut db, &request, 2);
    assert_eq!((r.sent, r.reply), (vec![], Ok(f1())));
    assert_eq!(db.list(), before);
}

#[test]
fn report_of_an_unknown_agent_is_not_answered() {
    let mut db = registry(&[("node-1", true)]);
    let request = Request::Report {
        host: "node-2".to_string(),
        task: TaskId([9u8; 16]),
        result: "fine".to_string(),
    };
    let r = handle(&cfg(), &pair(), &mut db, &request, 2);
    assert_eq!(r.reply, Err(Error::NotFound));
    assert_eq!(r.sent, vec![]);
}

#[test]
fn report_of_an_agent_with_a_broken_key_is_not_answered() {
    let mut db = Registry::new();
    db.add_at("node-1", "not base64!", 1).unwrap();
    db.add_at("node-2", "c2hvcnQ=", 1).unwrap();
    let report = |host: &str| Request::Report {
        host: host.to_string(),
        task: TaskId([9u8; 16]),
        result: String::new(),
    };
    assert_eq!(
        handle(&cfg(), &pair(), &mut db, &report("node-1"), 2).reply,
        Err(Error::Base64)
    );
    assert_eq!(
        handle(&cfg(), &pair(), &mut db, &report("node-2"), 2).reply,
        Err(Error::KeyLength)
    );
}

#[test]
fn publish_with_another_secret_sends_nothing() {
    let mut db = registry(&[("node-1", true), ("node-2", true)]);
    let before = db.list();
    for secret in ["", "S", "s ", "wrong"] {
        let r = handle(
            &cfg(),
            &pair(),
            &mut db,
            &publish_to(secret, &["node-1", "node-2"]),
            1,
        );
        assert_eq!((r.sent, r.reply), (vec![], Err(Error::Unauthorized)));
    }
    assert_eq!(db.list(), before);
}

#[test]
fn publish_passes_over_agents_that_are_not_trusted() {
    let mut db = registry(&[("a", true), ("b", false), ("c", true)]);
    let r = handle(&cfg(), &pair(), &mut db, &publish_to("s", &["a", "b", "c"]), 1);
    assert_eq!((r.sent, r.reply), (vec![envelope("a"), envelope("c")], Ok(pair().public)));
}

#[test]
fn publish_to_agents_none_of_which_is_trusted() {
    let mut db = registry(&[("a", false), ("b", false)]);
    let r = handle(&cfg(), &pair(), &mut db, &publish_to("s", &["a", "b"]), 1);
    assert_eq!(r.sent, vec![]);
    assert_eq!(r.reply, Ok(pair().public));
}

#[test]
fn publish_to_nobody() {
    let mut db = registry(&[("a", true)]);
    let r = handle(&cfg(), &pair(), &mut db, &publish_to("s", &[]), 1);
    assert_eq!(r.sent, vec![]);
    assert_eq!(r.reply, Ok(pair().public));
}

#[test]
fn publish_goes_in_the_order_of_the_request() {
    let mut db = registry(&[("a", true), ("b", true), ("c", true)]);
    let r = handle(&cfg(), &pair(), &mut db, &publish_to("s", &["c", "a", "c"]), 1);
    assert_eq!(r.sent, vec![envelope("c"), envelope("a"), envelope("c")]);
}

#[test]
fn publish_ends_at_an_agent_that_is_not_known() {
    let mut db = registry(&[("a", true), ("c", true)]);
    let r = handle(&cfg(), &pair(), &mut db, &publish_to("s", &["a", "b", "c"]), 1);
    assert_eq!((r.sent, r.reply), (vec![envelope("a")], Err(Error::NotFound)));
}

#[test]
fn publish_by_itself() {
    let db = registry(&[("a", true), ("b", false)]);
    let (sent, failure) = publish(&db, &vec!["b".to_string(), "a".to_string()], b"body");
    assert_eq!(
        sent,
        vec![Envelope {
            topic: "a".to_string(),
            body: b"body".to_vec(),
        }]
    );
    assert_eq!(failure, None);
    let (sent, failure) = publish(&db, &vec!["x".to_string(), "a".to_string()], b"body");
    assert_eq!(sent, vec![]);
    assert_eq!(failure, Some(Error::NotFound));
}

#[test]
fn bytes_that_are_no_request_change_nothing() {
    let mut db = registry(&[("a", true)]);
    let before = db.list();
    for bytes in [&b""[..], &b"\x07"[..], &b"\x00\x01"[..]] {
        let r = reporter_at(&cfg(), &pair(), &mut db, bytes, 1);
        assert_eq!((r.sent, r.reply), (vec![], Err(Error::Codec)));
    }
    assert_eq!(db.list(), before);
}

#[test]
fn bytes_of_a_request_are_handled() {
    let mut db = Registry::new();
    let r = reporter_at(
        &cfg(),
        &pair(),
        &mut db,
        &register("node-1", f1()).encode(),
        7,
    );
    assert_eq!(r.reply, Ok(f1()));
    assert_eq!(db.by_sn("node-1").unwrap().created_at, 7);
}

#[test]
fn reporter_stamps_new_rows_with_the_time() {
    let mut db = Registry::new();
    let r = reporter(&cfg(), &pair(), &mut db, &register("node-1", f1()).encode());
    assert_eq!(r.reply, Ok(f1()));
    let row = db.by_sn("node-1").unwrap();
    assert!(row.created_at > 1_500_000_000);
    assert!(!row.enable);
    let r = reporter(&cfg(), &pair(), &mut db, b"junk");
    assert_eq!(r.reply, Err(Error::Codec));
    assert_eq!(db.len(), 1);
}

#[test]
fn request_goes_to_the_log_in_words() {
    let mut db = registry(&[("node-1", true)]);
    let request = Request::Report {
        host: "node-1".to_string(),
        task: TaskId([9u8; 16]),
        result: "fine".to_string(),
    };
    let r = handle(&cfg(), &pair(), &mut db, &request, 2);
    assert_eq!(
        r.log,
        "report node-1@09090909-0909-0909-0909-090909090909\nfine"
    );
    assert_eq!(r.log, request.to_string());
    let r = handle(&cfg(), &pair(), &mut db, &publish_to("wrong", &["node-1"]), 2);
    assert_eq!(r.log, publish_to("wrong", &["node-1"]).to_string());
    assert!(!r.log.contains("wrong"));
    let r = reporter_at(&cfg(), &pair(), &mut db, b"junk", 2);
    assert_eq!(r.log, "");
}

#[test]
fn master_addresses() {
    assert_eq!(cfg().publisher(), "tcp://*:5555");
    assert_eq!(cfg().reporter(), "tcp://*:5556");
    let port = Port {
        publisher: 0,
        reporter: 65535,
    };
    assert_eq!(port.publisher(), 0);
    assert_eq!(port.reporter(), 65535);
}

#[test]
fn from_registration_to_report() {
    let key = pair();
    let mut db = Registry::new();

    let r = reporter_at(&cfg(), &key, &mut db, &register("node-1", f1()).encode(), 1);
    assert_eq!(r.reply, Ok(f1()));
    assert_eq!(
        db.list(),
        vec![Agent {
            id: 1,
            sn: "node-1".to_string(),
            key: f1().to_string(),
            enable: false,
            updated_at: 1,
            created_at: 1,
        }]
    );

    accept(&mut db, "node-1").unwrap();
    assert!(db.by_sn("node-1").unwrap().enable);

    let r = reporter_at(
        &cfg(),
        &key,
        &mut db,
        &publish_to("s", &["node-1"]).encode(),
        2,
    );
    assert_eq!(r.reply, Ok(key.public));
    assert_eq!(r.sent.len(), 1);
    assert_eq!(r.sent[0].topic, "node-1");
    assert_eq!(r.sent[0].body, task().encode());
    assert_eq!(Task::decode(&r.sent[0].body), Ok(task()));
}
