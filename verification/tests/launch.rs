use shell_engine::host::{ChildOp, Reply, Request};
use shell_engine::jobs::{Job, JobTable};
use shell_engine::launch::{BuildResult, Launch, Phase, SpawnResult};
use shell_engine::redirection::parse_redirection;

fn words(items: &[&str]) -> Vec<String> {
    items.iter().map(|w| w.to_string()).collect()
}

fn search_path() -> Option<String> {
    Some("/usr/bin:/bin".to_string())
}

fn probe(path: &str) -> Request {
    Request::Probe { path: path.to_string() }
}

fn say(line: &str) -> Request {
    Request::Say { line: line.to_string() }
}

fn fork(path: &str, argv: &[&str], setup: Vec<ChildOp>) -> Request {
    Request::Fork {
        path: path.to_string(),
        argv: words(argv),
        setup,
        complaint: "Command execution failed".to_string(),
        status: 1,
    }
}

fn onto_input(from: i32) -> ChildOp {
    ChildOp::Duplicate { from, onto: 0 }
}

fn onto_output(from: i32) -> ChildOp {
    ChildOp::Duplicate { from, onto: 1 }
}

fn close(fd: i32) -> ChildOp {
    ChildOp::Close { fd }
}

/// Hands the launch the replies one by one and returns what it asked for.
fn drive(launch: &mut Launch, jobs: &mut JobTable, replies: Vec<Reply>) -> Vec<Request> {
    let mut asked = Vec::new();
    let mut reply = Reply::Done;
    let mut rest = replies.into_iter();
    loop {
        let request = launch.advance(jobs, &reply);
        let finished = request == Request::Finish;
        asked.push(request);
        if finished {
            break;
        }
        reply = rest.next().expect("the launch asked for more than the replies answer");
    }
    assert_eq!(rest.next(), None, "the launch finished before the replies ran out");
    assert!(launch.is_finished());
    asked
}

#[test]
fn a_pipeline_of_two_runs_both_and_waits_for_both() {
    let stages = vec![words(&["echo", "hi"]), words(&["cat"])];
    let mut launch = Launch::pipeline(stages, false, search_path()).unwrap();
    let mut jobs = JobTable::new();
    let asked = drive(
        &mut launch,
        &mut jobs,
        vec![
            Reply::Piped { read: 3, write: 4 },
            Reply::Exists(false),
            Reply::Exists(true),
            Reply::Forked { pid: 100 },
            Reply::Exists(true),
            Reply::Forked { pid: 101 },
            Reply::Done,
            Reply::Done,
            Reply::Waited { pid: 101 },
            Reply::Waited { pid: 100 },
        ],
    );
    assert_eq!(
        asked,
        vec![
            Request::Pipe,
            probe("/usr/bin/echo"),
            probe("/bin/echo"),
            fork("/bin/echo", &["echo", "hi"], vec![onto_output(4), close(3), close(4)]),
            probe("/usr/bin/cat"),
            fork("/usr/bin/cat", &["cat"], vec![onto_input(3), close(3), close(4)]),
            Request::Close { fd: 3 },
            Request::Close { fd: 4 },
            Request::Wait { pid: -1, options: 0 },
            Request::Wait { pid: -1, options: 0 },
            Request::Finish,
        ]
    );
    assert_eq!(launch.outcome(), BuildResult::Built);
    assert_eq!(launch.results(), &vec![SpawnResult::Spawned(100), SpawnResult::Spawned(101)]);
    assert!(launch.succeeded());
    assert!(jobs.is_empty());
}

#[test]
fn a_pipeline_is_not_finished_before_its_last_wait() {
    let stages = vec![words(&["echo", "hi"]), words(&["cat"])];
    let mut launch = Launch::pipeline(stages, false, search_path()).unwrap();
    let mut jobs = JobTable::new();
    let replies = vec![
        Reply::Done,
        Reply::Piped { read: 3, write: 4 },
        Reply::Exists(true),
        Reply::Forked { pid: 100 },
        Reply::Exists(true),
        Reply::Forked { pid: 101 },
        Reply::Done,
        Reply::Done,
        Reply::Waited { pid: 100 },
    ];
    for reply in &replies {
        assert_ne!(launch.advance(&mut jobs, reply), Request::Finish);
        assert!(!launch.is_finished());
        assert_eq!(launch.outcome() == BuildResult::Built, launch.results().len() == 2);
    }
    assert_eq!(launch.phase(), Phase::Waiting { done: 1 });
    assert_eq!(launch.advance(&mut jobs, &Reply::Waited { pid: 101 }), Request::Finish);
    assert!(launch.is_finished());
}

#[test]
fn a_pipeline_of_three_makes_two_pipes_and_three_children() {
    let stages = vec![words(&["a"]), words(&["b", "-x"]), words(&["c"])];
    let mut launch = Launch::pipeline(stages, false, Some("/bin".to_string())).unwrap();
    let mut jobs = JobTable::new();
    let asked = drive(
        &mut launch,
        &mut jobs,
        vec![
            Reply::Piped { read: 3, write: 4 },
            Reply::Piped { read: 5, write: 6 },
            Reply::Exists(true),
            Reply::Forked { pid: 11 },
            Reply::Exists(true),
            Reply::Forked { pid: 12 },
            Reply::Exists(true),
            Reply::Forked { pid: 13 },
            Reply::Done,
            Reply::Done,
            Reply::Done,
            Reply::Done,
            Reply::Waited { pid: 13 },
            Reply::Waited { pid: 11 },
            Reply::Waited { pid: 12 },
        ],
    );
    let every = vec![close(3), close(4), close(5), close(6)];
    assert_eq!(
        asked,
        vec![
            Request::Pipe,
            Request::Pipe,
            probe("/bin/a"),
            fork("/bin/a", &["a"], [vec![onto_output(4)], every.clone()].concat()),
            probe("/bin/b"),
            fork(
                "/bin/b",
                &["b", "-x"],
                [vec![onto_input(3), onto_output(6)], every.clone()].concat()
            ),
            probe("/bin/c"),
            fork("/bin/c", &["c"], [vec![onto_input(5)], every.clone()].concat()),
            Request::Close { fd: 3 },
            Request::Close { fd: 4 },
            Request::Close { fd: 5 },
            Request::Close { fd: 6 },
            Request::Wait { pid: -1, options: 0 },
            Request::Wait { pid: -1, options: 0 },
            Request::Wait { pid: -1, options: 0 },
            Request::Finish,
        ]
    );
    assert_eq!(asked.iter().filter(|r| **r == Request::Pipe).count(), 2);
    assert_eq!(asked.iter().filter(|r| matches!(r, Request::Fork { .. })).count(), 3);
}

#[test]
fn a_child_writes_to_standard_output_and_reads_from_standard_input() {
    let stages = vec![words(&["a"]), words(&["b"])];
    let mut launch = Launch::pipeline(stages, false, Some("/bin".to_string())).unwrap();
    let mut jobs = JobTable::new();
    let asked = drive(
        &mut launch,
        &mut jobs,
        vec![
            Reply::Piped { read: 8, write: 9 },
            Reply::Exists(true),
            Reply::Forked { pid: 11 },
            Reply::Exists(true),
            Reply::Forked { pid: 12 },
            Reply::Done,
            Reply::Done,
            Reply::Waited { pid: 11 },
            Reply::Waited { pid: 12 },
        ],
    );
    assert_eq!(
        asked[2],
        fork(
            "/bin/a",
            &["a"],
            vec![ChildOp::Duplicate { from: 9, onto: libc::STDOUT_FILENO }, close(8), close(9)]
        )
    );
    assert_eq!(
        asked[4],
        fork(
            "/bin/b",
            &["b"],
            vec![ChildOp::Duplicate { from: 8, onto: libc::STDIN_FILENO }, close(8), close(9)]
        )
    );
}

#[test]
fn a_command_in_the_background_is_announced_and_not_waited_for() {
    let mut jobs = JobTable::new();
    assert_eq!(jobs.reserve(), Some(1));
    let mut launch = Launch::command(words(&["sleep", "5"]), true, search_path()).unwrap();
    let asked = drive(
        &mut launch,
        &mut jobs,
        vec![Reply::Exists(true), Reply::Forked { pid: 4242 }, Reply::Done],
    );
    assert_eq!(
        asked,
        vec![
            probe("/usr/bin/sleep"),
            fork("/usr/bin/sleep", &["sleep", "5"], vec![]),
            say("[1] [4242]"),
            Request::Finish,
        ]
    );
    assert_eq!(jobs.jobs(), &vec![Job { pid: 4242, line: "sleep 5".to_string(), number: 1 }]);
    assert!(launch.succeeded());
}

#[test]
fn a_job_in_the_background_is_reported_once_when_it_has_ended() {
    let mut jobs = JobTable::new();
    assert_eq!(jobs.reserve(), Some(1));
    let mut launch = Launch::command(words(&["sleep", "5"]), true, search_path()).unwrap();
    drive(
        &mut launch,
        &mut jobs,
        vec![Reply::Exists(true), Reply::Forked { pid: 4242 }, Reply::Done],
    );

    assert_eq!(jobs.sweep_requests(), vec![Request::Wait { pid: 4242, options: libc::WNOHANG }]);
    assert_eq!(jobs.sweep(&vec![Reply::Waited { pid: 0 }]), Vec::<String>::new());
    assert_eq!(jobs.len(), 1);

    assert_eq!(
        jobs.sweep(&vec![Reply::Waited { pid: 4242 }]),
        vec!["[1] + done [sleep 5]".to_string()]
    );
    assert!(jobs.is_empty());

    assert_eq!(jobs.sweep_requests(), Vec::<Request>::new());
    assert_eq!(jobs.sweep(&Vec::new()), Vec::<String>::new());
    assert!(jobs.is_empty());
}

#[test]
fn a_redirected_command_reads_and_writes_its_files() {
    let redirection =
        parse_redirection(&words(&["cat", "<", "in.txt", ">", "out.txt"])).unwrap();
    let mut launch = Launch::redirected(redirection, false, search_path()).unwrap();
    let mut jobs = JobTable::new();
    let asked = drive(
        &mut launch,
        &mut jobs,
        vec![
            Reply::Opened { fd: 3 },
            Reply::Opened { fd: 4 },
            Reply::Exists(true),
            Reply::Forked { pid: 77 },
            Reply::Done,
            Reply::Done,
            Reply::Waited { pid: 77 },
        ],
    );
    assert_eq!(
        asked,
        vec![
            Request::OpenInput { path: "in.txt".to_string() },
            Request::OpenOutput { path: "out.txt".to_string(), mode: 0o600 },
            probe("/usr/bin/cat"),
            fork("/usr/bin/cat", &["cat"], vec![onto_input(3), onto_output(4), close(3), close(4)]),
            Request::Close { fd: 3 },
            Request::Close { fd: 4 },
            Request::Wait { pid: 77, options: 0 },
            Request::Finish,
        ]
    );
    assert!(asked.iter().all(|r| !matches!(r, Request::Say { .. })));
    assert_eq!(launch.results(), &vec![SpawnResult::Spawned(77)]);
    assert!(jobs.is_empty());
}

#[test]
fn an_output_file_alone_is_wired_to_standard_output() {
    let redirection = parse_redirection(&words(&["ls", ">", "out.txt"])).unwrap();
    let mut launch = Launch::redirected(redirection, false, search_path()).unwrap();
    let mut jobs = JobTable::new();
    let asked = drive(
        &mut launch,
        &mut jobs,
        vec![
            Reply::Opened { fd: 5 },
            Reply::Exists(true),
            Reply::Forked { pid: 78 },
            Reply::Done,
            Reply::Waited { pid: 78 },
        ],
    );
    assert_eq!(
        asked,
        vec![
            Request::OpenOutput { path: "out.txt".to_string(), mode: 0o600 },
            probe("/usr/bin/ls"),
            fork("/usr/bin/ls", &["ls"], vec![onto_output(5), close(5)]),
            Request::Close { fd: 5 },
            Request::Wait { pid: 78, options: 0 },
            Request::Finish,
        ]
    );
}

#[test]
fn a_program_that_is_not_found_is_not_forked() {
    let mut launch = Launch::command(words(&["bogus123"]), false, search_path()).unwrap();
    let mut jobs = JobTable::new();
    let asked = drive(
        &mut launch,
        &mut jobs,
        vec![Reply::Exists(false), Reply::Exists(false), Reply::Done],
    );
    assert_eq!(
        asked,
        vec![
            probe("/usr/bin/bogus123"),
            probe("/bin/bogus123"),
            say("Command Path Not Found"),
            Request::Finish,
        ]
    );
    assert!(asked.iter().all(|r| !matches!(r, Request::Fork { .. })));
    assert_eq!(launch.results(), &vec![SpawnResult::PathNotFound]);
    assert_eq!(launch.outcome(), BuildResult::Built);
    assert!(!launch.succeeded());
}

#[test]
fn nothing_is_found_without_a_search_path() {
    for path in [None, Some(String::new())] {
        let mut launch = Launch::command(words(&["ls"]), false, path).unwrap();
        let mut jobs = JobTable::new();
        let asked = drive(&mut launch, &mut jobs, vec![Reply::Done]);
        assert_eq!(asked, vec![say("Command Path Not Found"), Request::Finish]);
        assert_eq!(launch.results(), &vec![SpawnResult::PathNotFound]);
    }
}

#[test]
fn a_command_in_the_foreground_is_waited_for_by_its_process() {
    let mut launch = Launch::command(words(&["ls", "-l"]), false, search_path()).unwrap();
    let mut jobs = JobTable::new();
    let asked = drive(
        &mut launch,
        &mut jobs,
        vec![
            Reply::Exists(false),
            Reply::Exists(true),
            Reply::Forked { pid: 900 },
            Reply::Waited { pid: 900 },
        ],
    );
    assert_eq!(
        asked,
        vec![
            probe("/usr/bin/ls"),
            probe("/bin/ls"),
            fork("/bin/ls", &["ls", "-l"], vec![]),
            Request::Wait { pid: 900, options: 0 },
            Request::Finish,
        ]
    );
    assert_eq!(launch.results(), &vec![SpawnResult::Spawned(900)]);
    assert!(jobs.is_empty());
    assert_eq!(launch.line(), "ls -l");
}

#[test]
fn a_pipeline_of_one_is_a_single_command() {
    let replies = vec![
        Reply::Exists(false),
        Reply::Exists(true),
        Reply::Forked { pid: 900 },
        Reply::Waited { pid: 900 },
    ];
    let mut single = Launch::command(words(&["ls", "-l"]), false, search_path()).unwrap();
    let mut piped = Launch::pipeline(vec![words(&["ls", "-l"])], false, search_path()).unwrap();
    let mut jobs = JobTable::new();
    let of_single = drive(&mut single, &mut jobs, replies.clone());
    let of_piped = drive(&mut piped, &mut jobs, replies);
    assert_eq!(of_single, of_piped);
    assert_eq!(single.results(), piped.results());
    assert_eq!(single.outcome(), piped.outcome());
    assert!(of_piped.iter().all(|r| *r != Request::Pipe));
    assert!(jobs.is_empty());
}

#[test]
fn a_fork_that_fails_is_said_and_not_waited_for() {
    let mut launch = Launch::command(words(&["ls"]), false, search_path()).unwrap();
    let mut jobs = JobTable::new();
    let asked = drive(
        &mut launch,
        &mut jobs,
        vec![Reply::Exists(true), Reply::Forked { pid: -1 }, Reply::Done],
    );
    assert_eq!(
        asked,
        vec![
            probe("/usr/bin/ls"),
            fork("/usr/bin/ls", &["ls"], vec![]),
            say("External Command Failed"),
            Request::Finish,
        ]
    );
    assert_eq!(launch.results(), &vec![SpawnResult::ForkFailed]);
    assert!(!launch.succeeded());
}

#[test]
fn a_pipe_that_cannot_be_made_ends_the_pipeline_before_any_child() {
    let stages = vec![words(&["a"]), words(&["b"]), words(&["c"])];
    let mut launch = Launch::pipeline(stages, false, search_path()).unwrap();
    let mut jobs = JobTable::new();
    let asked = drive(
        &mut launch,
        &mut jobs,
        vec![
            Reply::Piped { read: 3, write: 4 },
            Reply::Failed { reason: "Too many open files".to_string() },
            Reply::Done,
            Reply::Done,
            Reply::Done,
        ],
    );
    assert_eq!(
        asked,
        vec![
            Request::Pipe,
            Request::Pipe,
            say("Failed to create pipe"),
            Request::Close { fd: 3 },
            Request::Close { fd: 4 },
            Request::Finish,
        ]
    );
    assert_eq!(launch.outcome(), BuildResult::PipeCreationFailed);
    assert_eq!(launch.results(), &Vec::<SpawnResult>::new());
    assert!(!launch.succeeded());
}

#[test]
fn an_input_file_that_cannot_be_opened_ends_the_launch() {
    let redirection = parse_redirection(&words(&["cat", "<", "missing", ">", "out"])).unwrap();
    let mut launch = Launch::redirected(redirection, false, search_path()).unwrap();
    let mut jobs = JobTable::new();
    let asked = drive(
        &mut launch,
        &mut jobs,
        vec![
            Reply::Failed { reason: "No such file or directory (os error 2)".to_string() },
            Reply::Done,
        ],
    );
    assert_eq!(
        asked,
        vec![
            Request::OpenInput { path: "missing".to_string() },
            say("Error opening input file: No such file or directory (os error 2)"),
            Request::Finish,
        ]
    );
    assert_eq!(launch.outcome(), BuildResult::RedirectionFileError);
}

#[test]
fn an_output_file_that_cannot_be_opened_closes_the_input_file() {
    let redirection = parse_redirection(&words(&["cat", "<", "in", ">", "/out"])).unwrap();
    let mut launch = Launch::redirected(redirection, false, search_path()).unwrap();
    let mut jobs = JobTable::new();
    let asked = drive(
        &mut launch,
        &mut jobs,
        vec![
            Reply::Opened { fd: 3 },
            Reply::Failed { reason: "Permission denied (os error 13)".to_string() },
            Reply::Done,
            Reply::Done,
        ],
    );
    assert_eq!(
        asked,
        vec![
            Request::OpenInput { path: "in".to_string() },
            Request::OpenOutput { path: "/out".to_string(), mode: 0o600 },
            say("Error creating output file: Permission denied (os error 13)"),
            Request::Close { fd: 3 },
            Request::Finish,
        ]
    );
    assert_eq!(launch.outcome(), BuildResult::RedirectionFileError);
    assert!(asked.iter().all(|r| !matches!(r, Request::Fork { .. })));
}

#[test]
fn a_stage_that_fails_does_not_stop_the_others() {
    let stages = vec![words(&["a"]), words(&["nope"]), words(&["c"])];
    let mut launch = Launch::pipeline(stages, false, Some("/bin".to_string())).unwrap();
    let mut jobs = JobTable::new();
    let asked = drive(
        &mut launch,
        &mut jobs,
        vec![
            Reply::Piped { read: 3, write: 4 },
            Reply::Piped { read: 5, write: 6 },
            Reply::Exists(true),
            Reply::Forked { pid: 11 },
            Reply::Exists(false),
            Reply::Done,
            Reply::Exists(true),
            Reply::Forked { pid: -1 },
            Reply::Done,
            Reply::Done,
            Reply::Done,
            Reply::Done,
            Reply::Done,
            Reply::Waited { pid: 11 },
        ],
    );
    assert_eq!(asked[5], say("Command Path Not Found"));
    assert_eq!(asked[8], say("External Command Failed"));
    assert_eq!(
        &asked[9..],
        &[
            Request::Close { fd: 3 },
            Request::Close { fd: 4 },
            Request::Close { fd: 5 },
            Request::Close { fd: 6 },
            Request::Wait { pid: -1, options: 0 },
            Request::Finish,
        ]
    );
    assert_eq!(
        launch.results(),
        &vec![SpawnResult::Spawned(11), SpawnResult::PathNotFound, SpawnResult::ForkFailed]
    );
    assert_eq!(launch.outcome(), BuildResult::Built);
    assert!(!launch.succeeded());
}

#[test]
fn a_pipeline_in_the_background_has_one_job_for_its_last_stage() {
    let stages = vec![words(&["yes"]), words(&["head", "-1"])];
    let mut jobs = JobTable::new();
    assert_eq!(jobs.reserve(), Some(1));
    let mut launch = Launch::pipeline(stages, true, Some("/bin".to_string())).unwrap();
    let asked = drive(
        &mut launch,
        &mut jobs,
        vec![
            Reply::Piped { read: 3, write: 4 },
            Reply::Exists(true),
            Reply::Forked { pid: 21 },
            Reply::Exists(true),
            Reply::Forked { pid: 22 },
            Reply::Done,
            Reply::Done,
            Reply::Done,
        ],
    );
    assert_eq!(asked[5], say("[1] [22]"));
    assert_eq!(
        &asked[6..],
        &[Request::Close { fd: 3 }, Request::Close { fd: 4 }, Request::Finish]
    );
    assert!(asked.iter().all(|r| !matches!(r, Request::Wait { .. })));
    assert_eq!(
        jobs.jobs(),
        &vec![Job { pid: 22, line: "yes | head -1".to_string(), number: 1 }]
    );
}

#[test]
fn a_child_in_the_background_without_a_reserved_number_is_not_tracked() {
    let mut jobs = JobTable::new();
    let mut launch = Launch::command(words(&["sleep", "5"]), true, search_path()).unwrap();
    let asked =
        drive(&mut launch, &mut jobs, vec![Reply::Exists(true), Reply::Forked { pid: 4242 }]);
    assert_eq!(
        asked,
        vec![
            probe("/usr/bin/sleep"),
            fork("/usr/bin/sleep", &["sleep", "5"], vec![]),
            Request::Finish,
        ]
    );
    assert!(jobs.is_empty());
    assert_eq!(launch.results(), &vec![SpawnResult::Spawned(4242)]);
}

#[test]
fn an_empty_command_cannot_be_launched() {
    assert!(Launch::command(Vec::new(), false, search_path()).is_none());
    assert!(Launch::pipeline(Vec::new(), false, search_path()).is_none());
    assert!(Launch::pipeline(vec![words(&["a"]), Vec::new()], false, search_path()).is_none());
    assert!(Launch::pipeline(vec![Vec::new(), words(&["a"])], true, search_path()).is_none());
    assert!(Launch::pipeline(vec![words(&["a"]), words(&["b"])], true, None).is_some());
}

#[test]
fn a_new_launch_has_asked_for_nothing() {
    let launch = Launch::command(words(&["ls"]), false, search_path()).unwrap();
    assert_eq!(launch.phase(), Phase::Ready);
    assert_eq!(launch.outcome(), BuildResult::Unfinished);
    assert_eq!(launch.results(), &Vec::<SpawnResult>::new());
    assert!(!launch.is_finished());
    assert!(!launch.succeeded());
}

#[test]
fn a_finished_launch_asks_for_nothing_more() {
    let mut launch = Launch::command(words(&["ls"]), false, None).unwrap();
    let mut jobs = JobTable::new();
    drive(&mut launch, &mut jobs, vec![Reply::Done]);
    assert_eq!(launch.advance(&mut jobs, &Reply::Done), Request::Finish);
    assert_eq!(launch.advance(&mut jobs, &Reply::Forked { pid: 3 }), Request::Finish);
    assert_eq!(launch.results(), &vec![SpawnResult::PathNotFound]);
}

#[test]
fn the_line_of_a_pipeline_has_its_bars() {
    let stages = vec![words(&["echo", "hi"]), words(&["cat"]), words(&["wc", "-l"])];
    let launch = Launch::pipeline(stages, false, None).unwrap();
    assert_eq!(launch.line(), "echo hi | cat | wc -l");
}
