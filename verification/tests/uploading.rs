use oss_cli::errors::CliError;
use oss_cli::upload::{
    plan, report_line, BatchProgress, LocalFile, Source, Step, Upload, UploadOutcome,
};

fn local(name: &str) -> LocalFile {
    LocalFile { path: format!("/tmp/dir/{}", name), name: name.to_string() }
}

fn directory(n: usize) -> Source {
    Source::Directory((0..n).map(|i| local(&format!("f{}.txt", i))).collect())
}

fn result_for(i: usize, failing: &[usize]) -> Result<String, CliError> {
    if failing.contains(&i) {
        Err(CliError::OssError(format!("transfer {} broke", i)))
    } else {
        Ok(format!("etag-{}", i))
    }
}

/// Runs a batch to its end; of the running transfers, the one at `pick`
/// (counted from the oldest, wrapping round) ends first.
fn run(n: usize, limit: usize, failing: &[usize], pick: usize) -> (Vec<UploadOutcome>, usize, usize) {
    let mut up = Upload::new(&directory(n), "remote/", limit).unwrap();
    let mut in_flight: Vec<usize> = Vec::new();
    let mut most = 0;
    let mut lines = 0;
    loop {
        let (next, step) = up.upload();
        up = next;
        match step {
            Step::Start(i) => {
                in_flight.push(i);
                assert!(in_flight.len() <= limit);
                most = most.max(in_flight.len());
            }
            Step::Wait => {
                assert!(!in_flight.is_empty());
                let i = in_flight.remove(pick % in_flight.len());
                let before = up.progress().completed;
                let (next, line) = up.complete(i, 7, result_for(i, failing));
                up = next;
                assert!(line.is_ok());
                lines += 1;
                assert_eq!(up.progress().completed, before + 1);
            }
            Step::Done => break,
        }
    }
    assert!(in_flight.is_empty());
    assert!(up.is_done());
    assert_eq!(up.progress(), BatchProgress { completed: n, total: n });
    (up.into_outcomes().unwrap(), most, lines)
}

#[test]
fn three_files_with_two_workers() {
    let (outcomes, most, lines) = run(3, 2, &[], 0);
    assert_eq!(outcomes.len(), 3);
    assert_eq!(most, 2);
    assert_eq!(lines, 3);
    let mut keys: Vec<String> = Vec::new();
    for o in &outcomes {
        match o {
            UploadOutcome::Succeeded(key) => keys.push(key.clone()),
            UploadOutcome::Failed(_, _) => panic!("no transfer failed"),
        }
    }
    assert_eq!(keys, vec!["remote/f0.txt", "remote/f1.txt", "remote/f2.txt"]);
}

#[test]
fn every_limit_gives_one_outcome_per_file() {
    for n in 0..6 {
        for limit in 1..=(n + 2) {
            for pick in 0..3 {
                let (outcomes, most, lines) = run(n, limit, &[], pick);
                assert_eq!(outcomes.len(), n);
                assert_eq!(lines, n);
                assert_eq!(most, limit.min(n));
            }
        }
    }
}

#[test]
fn failures_are_kept_and_do_not_stop_the_rest() {
    let failing = [1, 3];
    for limit in 1..=5 {
        for pick in 0..4 {
            let (outcomes, _, _) = run(5, limit, &failing, pick);
            assert_eq!(outcomes.len(), 5);
            for (i, o) in outcomes.iter().enumerate() {
                match o {
                    UploadOutcome::Succeeded(key) => {
                        assert!(!failing.contains(&i));
                        assert_eq!(key, &format!("remote/f{}.txt", i));
                    }
                    UploadOutcome::Failed(path, cause) => {
                        assert!(failing.contains(&i));
                        assert_eq!(path, &format!("/tmp/dir/f{}.txt", i));
                        assert_eq!(cause, &format!("oss-client error: transfer {} broke", i));
                    }
                }
            }
            let failed = outcomes.iter().filter(|o| matches!(o, UploadOutcome::Failed(_, _))).count();
            assert_eq!(failed, 2);
        }
    }
}

#[test]
fn all_failing_still_ends() {
    let (outcomes, _, lines) = run(3, 2, &[0, 1, 2], 1);
    assert_eq!(lines, 3);
    assert!(outcomes.iter().all(|o| matches!(o, UploadOutcome::Failed(_, _))));
}

#[test]
fn limit_of_none_is_refused() {
    let e = Upload::new(&directory(2), "remote/", 0).unwrap_err();
    assert!(e.is_input());
    assert_eq!(e.message(), "input error: worker limit must be at least one");
}

#[test]
fn empty_directory_is_done_at_once() {
    let up = Upload::new(&directory(0), "remote/", 4).unwrap();
    assert!(up.is_done());
    let (up, step) = up.upload();
    assert_eq!(step, Step::Done);
    assert_eq!(up.into_outcomes().unwrap().len(), 0);
}

#[test]
fn end_of_a_transfer_is_counted_once() {
    let up = Upload::new(&directory(2), "p/", 2).unwrap();
    let (up, s0) = up.upload();
    let (up, s1) = up.upload();
    assert_eq!((s0, s1), (Step::Start(0), Step::Start(1)));
    let (up, s2) = up.upload();
    assert_eq!(s2, Step::Wait);
    let (up, first) = up.complete(1, 10, Ok(String::new()));
    assert_eq!(first.unwrap(), "正在上传: f1.txt(size:10)   [1/2]");
    let (up, again) = up.complete(1, 10, Ok(String::new()));
    let e = again.unwrap_err();
    assert!(e.is_input());
    assert_eq!(e.message(), "input error: no such transfer is running");
    assert_eq!(up.progress(), BatchProgress { completed: 1, total: 2 });
    let (up, beyond) = up.complete(2, 10, Ok(String::new()));
    assert!(beyond.is_err());
    assert!(!up.is_done());
    let (up, last) = up.complete(0, 0, Err(CliError::Io("gone".to_string())));
    assert_eq!(last.unwrap(), "正在上传: f0.txt(size:0)   [2/2]");
    assert!(up.is_done());
}

#[test]
fn transfer_that_was_not_started_cannot_end() {
    let up = Upload::new(&directory(3), "p/", 1).unwrap();
    let (up, _) = up.upload();
    let (up, r) = up.complete(1, 1, Ok(String::new()));
    assert!(r.is_err());
    assert_eq!(up.progress().completed, 0);
    assert!(up.into_outcomes().is_none());
}

#[test]
fn outcomes_are_withheld_until_all_is_done() {
    let up = Upload::new(&directory(2), "p/", 2).unwrap();
    assert!(up.into_outcomes().is_none());
    let up = Upload::new(&directory(2), "p/", 1).unwrap();
    let (up, _) = up.upload();
    let (up, _) = up.complete(0, 1, Ok(String::new()));
    assert!(up.into_outcomes().is_none());
}

#[test]
fn single_file_goes_to_the_target_itself() {
    let source = Source::File(local("one.txt"));
    let targets = plan(&source, "docs/renamed.txt");
    assert_eq!(targets.len(), 1);
    assert_eq!(targets[0].local_path, "/tmp/dir/one.txt");
    assert_eq!(targets[0].file_name, "one.txt");
    assert_eq!(targets[0].remote_key, "docs/renamed.txt");
    let up = Upload::new(&source, "docs/renamed.txt", 1).unwrap();
    assert_eq!(up.targets().len(), 1);
    let (up, step) = up.upload();
    assert_eq!(step, Step::Start(0));
    let (up, line) = up.complete(0, 1234, Ok("etag".to_string()));
    assert_eq!(line.unwrap(), "正在上传: one.txt(size:1234)   [1/1]");
    match up.into_outcomes().unwrap().pop().unwrap() {
        UploadOutcome::Succeeded(key) => assert_eq!(key, "docs/renamed.txt"),
        UploadOutcome::Failed(_, _) => panic!("the transfer succeeded"),
    }
}

#[test]
fn directory_keys_join_prefix_and_name_without_separator() {
    let targets = plan(&directory(2), "backup");
    assert_eq!(targets[0].remote_key, "backupf0.txt");
    assert_eq!(targets[1].remote_key, "backupf1.txt");
    let slashed = plan(&directory(2), "backup/");
    assert_eq!(slashed[1].remote_key, "backup/f1.txt");
    assert_eq!(slashed[1].local_path, "/tmp/dir/f1.txt");
}

#[test]
fn report_line_shows_name_size_and_count() {
    let line = report_line("a.bin", 18027, BatchProgress { completed: 12, total: 340 });
    assert_eq!(line, "正在上传: a.bin(size:18027)   [12/340]");
    let zero = report_line("", 0, BatchProgress { completed: 0, total: 0 });
    assert_eq!(zero, "正在上传: (size:0)   [0/0]");
    let big = report_line("x", u64::MAX, BatchProgress { completed: 1, total: 1 });
    assert_eq!(big, "正在上传: x(size:18446744073709551615)   [1/1]");
}

#[test]
fn default_limit_bounds_a_large_directory() {
    assert_eq!(oss_cli::upload::WORKERS, 8);
    let (outcomes, most, _) = run(20, oss_cli::upload::WORKERS, &[], 2);
    assert_eq!(outcomes.len(), 20);
    assert_eq!(most, 8);
}
