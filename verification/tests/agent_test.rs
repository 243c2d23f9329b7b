use axis::agent::task::{Action, Outcome, Payload, Task, TaskId};
use axis::agent::{Config, Event, Master, Next, State};
use axis::errors::Error;
use axis::key::{Key, Pair};
use axis::master::agents::accept;
use axis::master::reporter_at;
use axis::orm::models::Registry;
use axis::protocol::Request;
use axis::Port;

fn master_pair() -> Pair {
    Pair {
        public: Key([0xaa; 32]),
        private: Key([0xbb; 32]),
    }
}

fn agent_pair() -> Pair {
    Pair {
        public: Key([0x11; 32]),
        private: Key([0x22; 32]),
    }
}

fn cfg() -> Config {
    Config {
        id: "node-1".to_string(),
        master: Master {
            port: Port {
                publisher: 5555,
                reporter: 5556,
            },
            host: "master.local".to_string(),
            finger: master_pair().public.to_string(),
        },
    }
}

fn task() -> Task {
    Task {
        id: TaskId([9u8; 16]),
        payload: vec![
            Payload::Shell {
                user: "root".to_string(),
                script: "echo hi".to_string(),
            },
            Payload::File {
                path: "/tmp/a/b.txt".to_string(),
                body: vec![1, 2, 3],
            },
        ],
    }
}

fn hi() -> Outcome {
    Outcome::Ran {
        status: "exit status: 0".to_string(),
        stdout: b"hi\n".to_vec(),
        stderr: vec![],
    }
}

fn delivered(topic: &str, body: Vec<u8>) -> Event {
    Event::Delivered {
        topic: topic.as_bytes().to_vec(),
        body,
    }
}

#[test]
fn master_key_of_the_configuration() {
    assert_eq!(cfg().master.finger(), Ok([0xaa; 32]));
    let mut broken = cfg().master;
    broken.finger = "???".to_string();
    assert_eq!(broken.finger(), Err(Error::Base64));
    broken.finger = "c2hvcnQ=".to_string();
    assert_eq!(broken.finger(), Err(Error::KeyLength));
}

#[test]
fn addresses_of_the_master_as_the_agent_knows_it() {
    let master = cfg().master;
    assert_eq!(master.to_string(), "master.local:5555");
    assert_eq!(master.publisher(), "tcp://master.local:5555");
    assert_eq!(master.reporter(), "tcp://master.local:5556");
}

#[test]
fn agent_starts_by_registering() {
    let (state, next) = cfg().step(&agent_pair(), State::Idle, Event::Started);
    assert_eq!(state, State::Registering);
    let want = Request::Register {
        host: "node-1".to_string(),
        finger: Key([0x11; 32]),
    };
    assert_eq!(next, Next::Send(want.encode()));
    assert_eq!(cfg().register(&agent_pair()), want);
}

#[test]
fn agent_listens_once_it_is_answered() {
    let (state, next) = cfg().step(
        &agent_pair(),
        State::Registering,
        Event::Answered(b"Ok".to_vec()),
    );
    assert_eq!((state, next), (State::Listening, Next::Listen));
    let (state, next) = cfg().step(
        &agent_pair(),
        State::Reporting,
        Event::Answered(b"Ok".to_vec()),
    );
    assert_eq!((state, next), (State::Listening, Next::Listen));
}

#[test]
fn agent_gives_up_on_an_answer_that_is_not_text() {
    let (state, next) = cfg().step(
        &agent_pair(),
        State::Registering,
        Event::Answered(vec![0xff]),
    );
    assert_eq!((state, next), (State::Stopped, Next::Stop(Error::Codec)));
}

#[test]
fn agent_carries_out_a_task_and_reports() {
    let key = agent_pair();
    let (state, next) = cfg().step(&key, State::Listening, delivered("node-1", task().encode()));
    assert_eq!(
        state,
        State::Working {
            task: task(),
            outcomes: vec![],
        }
    );
    assert_eq!(
        next,
        Next::Perform(Action::Run {
            program: "su".to_string(),
            args: vec![
                "-".to_string(),
                "root".to_string(),
                "-c".to_string(),
                "echo hi".to_string()
            ],
        })
    );

    let (state, next) = cfg().step(&key, state, Event::Done(hi()));
    assert_eq!(
        state,
        State::Working {
            task: task(),
            outcomes: vec![hi()],
        }
    );
    assert_eq!(
        next,
        Next::Perform(Action::Write {
            directory: Some("/tmp/a".to_string()),
            path: "/tmp/a/b.txt".to_string(),
            body: vec![1, 2, 3],
        })
    );

    let (state, next) = cfg().step(&key, state, Event::Done(Outcome::Written));
    assert_eq!(state, State::Reporting);
    let report = Request::Report {
        host: "node-1".to_string(),
        task: TaskId([9u8; 16]),
        result: "\nstatus: exit status: 0 \nstdout: hi\n \nstderr: ".to_string(),
    };
    assert_eq!(next, Next::Send(report.encode()));
    assert_eq!(cfg().report(&task(), &vec![hi(), Outcome::Written]), report);
}

#[test]
fn agent_reports_a_failure_in_words() {
    let key = agent_pair();
    let (state, _) = cfg().step(&key, State::Listening, delivered("node-1", task().encode()));
    let (state, _) = cfg().step(&key, state, Event::Done(hi()));
    let (state, next) = cfg().step(
        &key,
        state,
        Event::Done(Outcome::Failed("Permission denied".to_string())),
    );
    assert_eq!(state, State::Reporting);
    let report = Request::Report {
        host: "node-1".to_string(),
        task: TaskId([9u8; 16]),
        result: "Permission denied".to_string(),
    };
    assert_eq!(next, Next::Send(report.encode()));
}

#[test]
fn agent_reports_a_task_without_payloads_at_once() {
    let empty = Task {
        id: TaskId([3u8; 16]),
        payload: vec![],
    };
    let (state, next) = cfg().step(
        &agent_pair(),
        State::Listening,
        delivered("node-1", empty.encode()),
    );
    assert_eq!(state, State::Reporting);
    let report = Request::Report {
        host: "node-1".to_string(),
        task: TaskId([3u8; 16]),
        result: String::new(),
    };
    assert_eq!(next, Next::Send(report.encode()));
}

#[test]
fn agent_passes_over_a_message_for_another_agent() {
    for topic in ["node-10", "node-", "", "other"] {
        let (state, next) = cfg().step(
            &agent_pair(),
            State::Listening,
            delivered(topic, task().encode()),
        );
        assert_eq!((state, next), (State::Listening, Next::Listen));
    }
}

#[test]
fn agent_gives_up_on_a_task_that_it_cannot_read() {
    let (state, next) = cfg().step(
        &agent_pair(),
        State::Listening,
        delivered("node-1", b"junk".to_vec()),
    );
    assert_eq!((state, next), (State::Stopped, Next::Stop(Error::Codec)));
}

#[test]
fn agent_gives_up_on_what_it_does_not_wait_for() {
    let key = agent_pair();
    let unexpected = (State::Stopped, Next::Stop(Error::Unexpected));
    assert_eq!(
        cfg().step(&key, State::Idle, Event::Answered(b"Ok".to_vec())),
        unexpected
    );
    assert_eq!(
        cfg().step(&key, State::Listening, Event::Started),
        unexpected
    );
    assert_eq!(
        cfg().step(&key, State::Registering, Event::Done(Outcome::Written)),
        unexpected
    );
    assert_eq!(
        cfg().step(&key, State::Stopped, Event::Started),
        unexpected
    );
    assert_eq!(
        cfg().step(
            &key,
            State::Working {
                task: task(),
                outcomes: vec![]
            },
            Event::Answered(b"Ok".to_vec())
        ),
        unexpected
    );
}

#[test]
fn agent_and_master_from_registration_to_report() {
    let master_cfg = axis::master::Config {
        port: Port {
            publisher: 5555,
            reporter: 5556,
        },
        secret: "s".to_string(),
    };
    let master_key = master_pair();
    let key = agent_pair();
    let mut db = Registry::new();

    let (state, next) = cfg().step(&key, State::Idle, Event::Started);
    let sent = match next {
        Next::Send(bytes) => bytes,
        other => panic!("{:?}", other),
    };
    let handled = reporter_at(&master_cfg, &master_key, &mut db, &sent, 1);
    assert_eq!(handled.reply, Ok(key.public));
    let row = db.by_sn("node-1").unwrap();
    assert_eq!(row.key, key.public.to_string());
    assert!(!row.enable);
    assert_eq!(db.len(), 1);
    let (state, next) = cfg().step(&key, state, Event::Answered(b"Ok".to_vec()));
    assert_eq!(next, Next::Listen);

    accept(&mut db, "node-1").unwrap();
    assert!(db.by_sn("node-1").unwrap().enable);

    let t = Task {
        id: TaskId([9u8; 16]),
        payload: vec![Payload::Shell {
            user: "root".to_string(),
            script: "echo hi".to_string(),
        }],
    };
    let request = Request::Publish {
        secret: "s".to_string(),
        agents: vec!["node-1".to_string()],
        task: Task {
            id: t.id,
            payload: vec![Payload::Shell {
                user: "root".to_string(),
                script: "echo hi".to_string(),
            }],
        },
    };
    let handled = reporter_at(&master_cfg, &master_key, &mut db, &request.encode(), 2);
    assert_eq!(handled.reply, Ok(master_key.public));
    assert_eq!(handled.sent.len(), 1);
    assert_eq!(handled.sent[0].topic, "node-1");
    assert_eq!(handled.sent[0].body, t.encode());

    let event = Event::Delivered {
        topic: handled.sent[0].topic.as_bytes().to_vec(),
        body: handled.sent[0].body.clone(),
    };
    let (state, next) = cfg().step(&key, state, event);
    assert_eq!(next, Next::Perform(t.payload[0].action()));
    let (state, next) = cfg().step(&key, state, Event::Done(hi()));
    assert_eq!(state, State::Reporting);
    let sent = match next {
        Next::Send(bytes) => bytes,
        other => panic!("{:?}", other),
    };
    match Request::decode(&sent).unwrap() {
        Request::Report { host, task, result } => {
            assert_eq!(host, "node-1");
            assert_eq!(task, t.id);
            assert!(result.contains("hi"));
            assert!(result.contains("exit status: 0"));
        }
        other => panic!("{:?}", other),
    }
    let handled = reporter_at(&master_cfg, &master_key, &mut db, &sent, 3);
    assert_eq!(handled.reply, Ok(key.public));
    assert_eq!(handled.sent, vec![]);
    let (state, next) = cfg().step(&key, state, Event::Answered(b"Ok".to_vec()));
    assert_eq!((state, next), (State::Listening, Next::Listen));
}
