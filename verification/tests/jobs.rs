use shell_engine::host::{Reply, Request};
use shell_engine::jobs::{announcement_text, Job, JobTable};

fn table_of(jobs: &[(i32, &str)]) -> JobTable {
    let mut table = JobTable::new();
    for (pid, line) in jobs {
        assert!(table.reserve().is_some());
        assert!(table.add(*pid, line.to_string()).is_some());
    }
    table
}

fn numbers(table: &JobTable) -> Vec<i32> {
    table.jobs().iter().map(|job| job.number).collect()
}

fn no_change(count: usize) -> Vec<Reply> {
    vec![Reply::Waited { pid: 0 }; count]
}

#[test]
fn a_new_table_is_empty() {
    let table = JobTable::new();
    assert_eq!(table.len(), 0);
    assert!(table.is_empty());
    assert_eq!(table.next_number(), 1);
    assert_eq!(table.list(), vec!["No background processes running".to_string()]);
}

#[test]
fn numbers_start_at_one_and_grow() {
    let mut table = JobTable::new();
    assert_eq!(table.reserve(), Some(1));
    assert_eq!(table.add(500, "sleep 5".to_string()), Some(1));
    assert_eq!(table.reserve(), Some(2));
    assert_eq!(table.add(501, "sleep 6".to_string()), Some(2));
    assert_eq!(table.reserve(), Some(3));
    assert_eq!(table.next_number(), 4);
    assert_eq!(numbers(&table), vec![1, 2]);
}

#[test]
fn a_job_is_added_as_it_was_given() {
    let table = table_of(&[(4242, "sleep 5")]);
    assert_eq!(
        table.jobs(),
        &vec![Job { pid: 4242, line: "sleep 5".to_string(), number: 1 }]
    );
    assert_eq!(table.len(), 1);
    assert!(!table.is_empty());
}

#[test]
fn nothing_is_added_without_a_reservation() {
    let mut table = JobTable::new();
    assert_eq!(table.add(500, "sleep 5".to_string()), None);
    assert!(table.is_empty());
    assert_eq!(table.reserve(), Some(1));
    assert_eq!(table.add(500, "sleep 5".to_string()), Some(1));
    assert_eq!(table.add(501, "sleep 6".to_string()), None);
    assert_eq!(table.len(), 1);
    assert_eq!(table.next_number(), 2);
}

#[test]
fn a_reservation_that_is_not_used_is_given_up() {
    let mut table = JobTable::new();
    assert_eq!(table.reserve(), Some(1));
    assert_eq!(table.reserve(), Some(2));
    assert_eq!(table.add(500, "sleep 5".to_string()), Some(2));
    assert_eq!(numbers(&table), vec![2]);
}

#[test]
fn the_announcement_has_the_number_and_the_process() {
    assert_eq!(announcement_text(1, 4242), "[1] [4242]");
    assert_eq!(announcement_text(12, 7), "[12] [7]");
}

#[test]
fn the_listing_has_a_row_for_each_job() {
    let table = table_of(&[(4242, "sleep 5"), (4250, "cat | wc")]);
    assert_eq!(
        table.list(),
        vec!["[1] + [4242][sleep 5]".to_string(), "[2] + [4250][cat | wc]".to_string()]
    );
}

#[test]
fn listing_changes_nothing() {
    let table = table_of(&[(4242, "sleep 5")]);
    let before = table.jobs().clone();
    let first = table.list();
    assert_eq!(table.list(), first);
    assert_eq!(table.jobs(), &before);
    assert_eq!(table.next_number(), 2);
}

#[test]
fn a_sweep_asks_from_the_last_job_to_the_first_without_blocking() {
    let table = table_of(&[(10, "a"), (20, "b"), (30, "c")]);
    assert_eq!(
        table.sweep_requests(),
        vec![
            Request::Wait { pid: 30, options: libc::WNOHANG },
            Request::Wait { pid: 20, options: libc::WNOHANG },
            Request::Wait { pid: 10, options: libc::WNOHANG },
        ]
    );
    assert_eq!(JobTable::new().sweep_requests(), Vec::<Request>::new());
}

#[test]
fn a_sweep_takes_out_the_jobs_that_have_ended() {
    let mut table = table_of(&[(10, "a"), (20, "b"), (30, "c")]);
    let notices = table.sweep(&vec![
        Reply::Waited { pid: 30 },
        Reply::Waited { pid: 0 },
        Reply::Waited { pid: 10 },
    ]);
    assert_eq!(notices, vec!["[3] + done [c]".to_string(), "[1] + done [a]".to_string()]);
    assert_eq!(table.jobs(), &vec![Job { pid: 20, line: "b".to_string(), number: 2 }]);
}

#[test]
fn a_job_has_ended_only_where_the_wait_returned_its_process() {
    let mut table = table_of(&[(10, "a"), (20, "b"), (30, "c"), (40, "d")]);
    let notices = table.sweep(&vec![
        Reply::Waited { pid: -1 },
        Reply::Waited { pid: 20 },
        Reply::Done,
        Reply::Forked { pid: 10 },
    ]);
    assert_eq!(notices, Vec::<String>::new());
    assert_eq!(numbers(&table), vec![1, 2, 3, 4]);
}

#[test]
fn a_job_without_a_reply_stays() {
    let mut table = table_of(&[(10, "a"), (20, "b")]);
    let notices = table.sweep(&vec![Reply::Waited { pid: 20 }]);
    assert_eq!(notices, vec!["[2] + done [b]".to_string()]);
    assert_eq!(numbers(&table), vec![1]);
    let notices = table.sweep(&Vec::new());
    assert_eq!(notices, Vec::<String>::new());
    assert_eq!(numbers(&table), vec![1]);
}

#[test]
fn a_second_sweep_without_a_change_says_nothing() {
    let mut table = table_of(&[(10, "a"), (20, "b"), (30, "c")]);
    let first = table.sweep(&vec![
        Reply::Waited { pid: 0 },
        Reply::Waited { pid: 20 },
        Reply::Waited { pid: 0 },
    ]);
    assert_eq!(first, vec!["[2] + done [b]".to_string()]);
    let left = table.jobs().clone();
    assert_eq!(
        table.sweep_requests(),
        vec![
            Request::Wait { pid: 30, options: libc::WNOHANG },
            Request::Wait { pid: 10, options: libc::WNOHANG },
        ]
    );
    let second = table.sweep(&no_change(2));
    assert_eq!(second, Vec::<String>::new());
    assert_eq!(table.jobs(), &left);
    assert_eq!(table.len(), 2);
}

#[test]
fn a_number_is_not_given_out_again_after_its_job_has_gone() {
    let mut table = table_of(&[(10, "a"), (20, "b")]);
    table.sweep(&vec![Reply::Waited { pid: 20 }, Reply::Waited { pid: 10 }]);
    assert!(table.is_empty());
    assert_eq!(table.reserve(), Some(3));
    assert_eq!(table.add(30, "c".to_string()), Some(3));
    assert_eq!(numbers(&table), vec![3]);
    table.drain_blocking();
    assert_eq!(table.reserve(), Some(4));
}

#[test]
fn a_reaped_process_has_no_job_left() {
    let mut table = table_of(&[(10, "a"), (20, "b")]);
    table.sweep(&vec![Reply::Waited { pid: 0 }, Reply::Waited { pid: 10 }]);
    assert!(table.jobs().iter().all(|job| job.pid != 10));
    assert_eq!(table.len(), 1);
}

#[test]
fn draining_waits_for_every_job_and_empties_the_table() {
    let mut table = table_of(&[(10, "a"), (20, "b"), (30, "c")]);
    let waits = table.drain_blocking();
    assert_eq!(
        waits,
        vec![
            Request::Wait { pid: 10, options: 0 },
            Request::Wait { pid: 20, options: 0 },
            Request::Wait { pid: 30, options: 0 },
        ]
    );
    assert!(table.is_empty());
    assert_eq!(table.next_number(), 4);
    assert_eq!(table.drain_blocking(), Vec::<Request>::new());
}
