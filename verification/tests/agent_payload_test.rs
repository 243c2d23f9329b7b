use axis::agent::task::{Action, Outcome, Payload, Task, TaskId};
use axis::errors::Error;

fn ran(status: &str, stdout: &[u8], stderr: &[u8]) -> Outcome {
    Outcome::Ran {
        status: status.to_string(),
        stdout: stdout.to_vec(),
        stderr: stderr.to_vec(),
    }
}

fn shell(user: &str, script: &str) -> Payload {
    Payload::Shell {
        user: user.to_string(),
        script: script.to_string(),
    }
}

fn file(path: &str, body: &[u8]) -> Payload {
    Payload::File {
        path: path.to_string(),
        body: body.to_vec(),
    }
}

#[test]
fn it_shell() {
    for it in vec![
        Payload::Shell {
            user: "root".to_string(),
            script: "uname -a".to_string(),
        },
        Payload::Shell {
            user: "root".to_string(),
            script: r#"echo "$PATH""#.to_string(),
        },
        Payload::Shell {
            user: "root".to_string(),
            script: "whoami".to_string(),
        },
        Payload::Shell {
            user: "jeremy".to_string(),
            script: "date".to_string(),
        },
        Payload::Shell {
            user: "jeremy".to_string(),
            script: r#"echo "$PATH""#.to_string(),
        },
        Payload::Shell {
            user: "jeremy".to_string(),
            script: "whoami".to_string(),
        },
    ] {
        println!("run {}", it.to_string());
        let (user, script) = match &it {
            Payload::Shell { user, script } => (user.clone(), script.clone()),
            Payload::File { .. } => unreachable!(),
        };
        assert_eq!(
            it.action(),
            Action::Run {
                program: "su".to_string(),
                args: vec!["-".to_string(), user.clone(), "-c".to_string(), script],
            }
        );
        let result = it
            .execute(&ran("exit status: 0", user.as_bytes(), b""))
            .unwrap();
        println!("result {}", result.clone().unwrap());
        assert_eq!(
            result,
            Some(format!(
                "status: exit status: 0 \nstdout: {} \nstderr: ",
                user
            ))
        );
    }
}

#[test]
fn shell_that_ends_badly_is_reported_as_data() {
    let it = shell("root", "false");
    assert_eq!(
        it.execute(&ran("exit status: 1", b"", b"boom\n")),
        Ok(Some(
            "status: exit status: 1 \nstdout:  \nstderr: boom\n".to_string()
        ))
    );
}

#[test]
fn shell_output_that_is_not_text_is_reported_all_the_same() {
    let it = shell("root", "cat blob");
    assert_eq!(
        it.execute(&ran("exit status: 0", &[b'a', 0xff], &[0xc0])),
        Ok(Some(
            "status: exit status: 0 \nstdout: a\u{fffd} \nstderr: \u{fffd}".to_string()
        ))
    );
}

#[test]
fn shell_that_cannot_be_started_fails() {
    let it = shell("root", "true");
    assert_eq!(
        it.execute(&Outcome::Failed("No such file or directory".to_string())),
        Err(Error::Execution("No such file or directory".to_string()))
    );
}

#[test]
fn file_that_is_written_reports_nothing() {
    let it = file("/tmp/a/b.txt", &[1, 2, 3]);
    assert_eq!(it.execute(&Outcome::Written), Ok(None));
}

#[test]
fn file_that_cannot_be_written_fails() {
    let it = file("/proc/nope", &[1]);
    assert_eq!(
        it.execute(&Outcome::Failed("Permission denied".to_string())),
        Err(Error::Execution("Permission denied".to_string()))
    );
}

#[test]
fn outcome_of_the_other_kind_reports_nothing() {
    assert_eq!(shell("root", "true").execute(&Outcome::Written), Ok(None));
    assert_eq!(
        file("/tmp/x", &[]).execute(&ran("exit status: 0", b"x", b"")),
        Ok(None)
    );
}

#[test]
fn file_is_written_after_its_directory_is_there() {
    let it = file("/tmp/a/b.txt", &[1, 2, 3]);
    assert_eq!(
        it.action(),
        Action::Write {
            directory: Some("/tmp/a".to_string()),
            path: "/tmp/a/b.txt".to_string(),
            body: vec![1, 2, 3],
        }
    );
}

#[test]
fn directory_of_a_file() {
    let directory = |path: &str| match file(path, &[]).action() {
        Action::Write { directory, .. } => directory,
        Action::Run { .. } => unreachable!(),
    };
    assert_eq!(directory("b.txt"), Some(String::new()));
    assert_eq!(directory("/b.txt"), Some("/".to_string()));
    assert_eq!(directory("a/b/c"), Some("a/b".to_string()));
    assert_eq!(directory("a//b/"), Some("a".to_string()));
    assert_eq!(directory("/"), None);
    assert_eq!(directory(""), None);
}

#[test]
fn payload_text() {
    assert_eq!(shell("root", "echo hi").to_string(), "shell root\necho hi");
    assert_eq!(
        file("/tmp/a/b.txt", &[1, 2, 3]).to_string(),
        "file /tmp/a/b.txt, 3 bytes"
    );
    assert_eq!(file("/x", &[0u8; 1234]).to_string(), "file /x, 1234 bytes");
    assert_eq!(file("/x", &[]).to_string(), "file /x, 0 bytes");
}

fn task() -> Task {
    Task {
        id: TaskId([0xab; 16]),
        payload: vec![
            shell("root", "echo hi"),
            file("/tmp/a/b.txt", &[1, 2, 3]),
            shell("nobody", "id"),
        ],
    }
}

#[test]
fn task_is_carried_out_in_order() {
    let task = task();
    let mut outcomes = Vec::new();
    assert_eq!(task.next(&outcomes), Some(task.payload[0].action()));
    outcomes.push(ran("exit status: 0", b"hi\n", b""));
    assert_eq!(task.next(&outcomes), Some(task.payload[1].action()));
    outcomes.push(Outcome::Written);
    assert_eq!(task.next(&outcomes), Some(task.payload[2].action()));
    outcomes.push(ran("exit status: 1", b"", b"nope"));
    assert_eq!(task.next(&outcomes), None);
    assert_eq!(
        task.execute(&outcomes),
        Ok(
            "\nstatus: exit status: 0 \nstdout: hi\n \nstderr: \nstatus: exit status: 1 \nstdout:  \nstderr: nope"
                .to_string()
        )
    );
}

#[test]
fn task_report_so_far() {
    let task = task();
    assert_eq!(task.execute(&vec![]), Ok(String::new()));
    assert_eq!(
        task.execute(&vec![ran("exit status: 0", b"hi\n", b"")]),
        Ok("\nstatus: exit status: 0 \nstdout: hi\n \nstderr: ".to_string())
    );
    assert_eq!(
        task.execute(&vec![ran("exit status: 0", b"hi\n", b""), Outcome::Written]),
        Ok("\nstatus: exit status: 0 \nstdout: hi\n \nstderr: ".to_string())
    );
}

#[test]
fn task_stops_at_the_first_failure() {
    let task = task();
    let outcomes = vec![
        ran("exit status: 0", b"hi\n", b""),
        Outcome::Failed("Read-only file system".to_string()),
    ];
    assert_eq!(task.next(&outcomes), None);
    assert_eq!(
        task.execute(&outcomes),
        Err(Error::Execution("Read-only file system".to_string()))
    );
    let more = vec![
        ran("exit status: 0", b"hi\n", b""),
        Outcome::Failed("Read-only file system".to_string()),
        Outcome::Failed("another".to_string()),
    ];
    assert_eq!(
        task.execute(&more),
        Err(Error::Execution("Read-only file system".to_string()))
    );
}

#[test]
fn task_without_payloads_has_nothing_to_do() {
    let task = Task {
        id: TaskId([0; 16]),
        payload: vec![],
    };
    assert_eq!(task.next(&vec![]), None);
    assert_eq!(task.execute(&vec![]), Ok(String::new()));
    assert_eq!(task.execute(&vec![Outcome::Written]), Ok(String::new()));
}

#[test]
fn outcomes_beyond_the_payloads_are_not_looked_at() {
    let task = Task {
        id: TaskId([0; 16]),
        payload: vec![file("/x", &[])],
    };
    let outcomes = vec![Outcome::Written, Outcome::Failed("late".to_string())];
    assert_eq!(task.execute(&outcomes), Ok(String::new()));
    assert_eq!(task.next(&outcomes), None);
}

#[test]
fn task_id_text() {
    let id = TaskId([
        0x12, 0x3e, 0x45, 0x67, 0xe8, 0x9b, 0x42, 0xd3, 0xa4, 0x56, 0x42, 0x66, 0x14, 0x17, 0x40,
        0x00,
    ]);
    assert_eq!(id.to_string(), "123e4567-e89b-42d3-a456-426614174000");
    assert_eq!(
        TaskId([0; 16]).to_string(),
        "00000000-0000-0000-0000-000000000000"
    );
    assert!(id.same(&id));
    assert!(!id.same(&TaskId([0; 16])));
    assert_eq!(TaskId::from_bytes(&[7u8; 20]), TaskId([7u8; 16]));
}

#[test]
fn task_ids_are_random_and_marked_so() {
    let a = TaskId::generate();
    let b = TaskId::generate();
    assert_ne!(a, b);
    for id in [a, b] {
        assert_eq!(id.0[6] >> 4, 4);
        assert_eq!(id.0[8] >> 6, 2);
    }
    let task = Task::new(vec![shell("root", "true")]);
    assert_eq!(task.payload, vec![shell("root", "true")]);
    assert_eq!(task.id.0[6] >> 4, 4);
}

#[test]
fn task_text() {
    let task = Task {
        id: TaskId([0xab; 16]),
        payload: vec![shell("root", "echo hi"), file("/tmp/a/b.txt", &[1, 2, 3])],
    };
    assert_eq!(
        task.to_string(),
        "===abababab-abab-abab-abab-abababababab===\n------\nshell root\necho hi\n------\n------\nfile /tmp/a/b.txt, 3 bytes\n------\n======"
    );
    let empty = Task {
        id: TaskId([0; 16]),
        payload: vec![],
    };
    assert_eq!(
        empty.to_string(),
        "===00000000-0000-0000-0000-000000000000===\n======"
    );
}
