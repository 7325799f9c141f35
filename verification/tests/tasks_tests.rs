use ugdown::downloader::DownloadInfo;
use ugdown::tasks::TaskInfo;
use ugdown::tasks::TaskQueue;
use ugdown::tasks::TaskStatus;
use ugdown::watch::watch_progress;
use ugdown::DownError;

fn stream(title: &str, size: usize) -> DownloadInfo {
    let mut info = DownloadInfo::default();
    info.url = "https://example.test/v".to_owned();
    info.title = title.to_owned();
    info.ext = "mp4".to_owned();
    info.stream_id = "s1".to_owned();
    info.stream_size = size;
    info.downloader = "X".to_owned();
    info
}

#[test]
fn add_then_snapshot_shows_added_tasks_queued() {
    let mut q = TaskQueue::default();
    let infos = vec![stream("one", 10), stream("two", 20)];
    let count = q.add_tasks(&infos);
    assert_eq!(2, count);
    let rows = q.snapshot();
    assert_eq!(2, rows.len());
    assert_eq!("one", rows[0].title);
    assert_eq!("two", rows[1].title);
    assert_eq!(TaskStatus::Queued, rows[0].status);
    assert_eq!(TaskStatus::Queued, rows[1].status);
    assert_eq!(0, rows[0].progress);
    assert_eq!(86400, rows[0].eta);
}

#[test]
fn stop_on_never_running_task_acts_on_nothing() {
    let mut q = TaskQueue::default();
    let id = q.add_task(stream("one", 10));
    let count = q.stop_tasks(&vec![id]);
    assert_eq!(0, count);
    let rows = q.snapshot();
    assert_eq!(TaskStatus::Queued, rows[0].status);
}

#[test]
fn starting_twice_spawns_one_worker() {
    let mut q = TaskQueue::default();
    let id = q.add_task(stream("one", 10));
    let first = q.start_task(id).unwrap();
    assert!(first.is_some());
    let second = q.start_task(id).unwrap();
    assert!(second.is_none());
    let rows = q.snapshot();
    assert_eq!(TaskStatus::Running, rows[0].status);
}

#[test]
fn stop_acts_once_per_armed_signal() {
    let mut q = TaskQueue::default();
    let id = q.add_task(stream("one", 10));
    q.start_task(id).unwrap();
    assert_eq!(Ok(true), q.kill_task(id));
    assert_eq!(Ok(false), q.kill_task(id));
    assert!(q.poll_cancel(id));
    assert!(!q.poll_cancel(id));
}

#[test]
fn remove_deletes_and_signals_the_worker() {
    let mut q = TaskQueue::default();
    let id = q.add_task(stream("one", 10));
    q.start_task(id).unwrap();
    q.remove_task(id).unwrap();
    assert!(q.snapshot().is_empty());
    // the worker of a removed task learns of it at its next poll
    assert!(q.poll_cancel(id));
    assert_eq!(Err(DownError::NoSuchTask), q.remove_task(id));
}

#[test]
fn missing_ids_are_no_such_task() {
    let mut q = TaskQueue::default();
    assert_eq!(Err(DownError::NoSuchTask), q.start_task(7).map(|_| ()));
    assert_eq!(Err(DownError::NoSuchTask), q.kill_task(7).map(|_| ()));
    assert_eq!(Err(DownError::NoSuchTask), q.get_task(7).map(|_| ()));
}

#[test]
fn estimator_matches_the_formula() {
    let mut ti = TaskInfo { progress: 100000, speed: 0, eta: 86400 };
    // p0 = 0.10 at t = 0, p1 = 0.30 at t = 2s
    ti.update(300000, 2000);
    assert_eq!(300000, ti.progress);
    assert_eq!(100000, ti.speed);
    assert_eq!(7, ti.eta);
}

#[test]
fn estimator_updates_on_every_increasing_sample() {
    // a gain whose rate rounds below one millionth per second still counts
    let mut ti = TaskInfo { progress: 0, speed: 0, eta: 86400 };
    ti.update(1, 2000);
    assert_eq!(1, ti.progress);
    assert_eq!(0, ti.speed);
    assert_eq!(1999998, ti.eta);
}

#[test]
fn failed_start_returns_the_task_to_queued() {
    let mut q = TaskQueue::default();
    let id = q.add_task(stream("clip", 10));
    q.start_task(id).unwrap();
    assert_eq!(TaskStatus::Running, q.snapshot()[0].status);
    q.fail_start(id);
    assert_eq!(TaskStatus::Queued, q.snapshot()[0].status);
    // the signal is disarmed, so a stop acts on nothing
    assert_eq!(Ok(false), q.kill_task(id));
    // and the task can be started again
    assert!(q.start_task(id).unwrap().is_some());
}

#[test]
fn estimator_ignores_non_increasing_samples() {
    let mut ti = TaskInfo { progress: 300000, speed: 5, eta: 9 };
    ti.update(300000, 1000);
    ti.update(200000, 1000);
    ti.update(400000, 0);
    assert_eq!(TaskInfo { progress: 300000, speed: 5, eta: 9 }, ti);
}

#[test]
fn end_to_end_mock_run_reaches_stopped_at_one_whole() {
    let mut q = TaskQueue::default();
    let id = q.add_task(stream("clip", 1000000));
    let started = q.start_task(id).unwrap();
    assert!(started.is_some());
    // the mock engine writes its progress channel, then exits
    let samples = watch_progress(b"50%100%");
    assert_eq!(vec![500000u64, 1000000], samples);
    let mut dur = 1000u64;
    for s in samples {
        q.apply_progress(id, s, dur);
        dur += 1000;
    }
    q.finish_task(id);
    let rows = q.snapshot();
    assert_eq!(1, rows.len());
    assert_eq!(1000000, rows[0].progress);
    assert_eq!(TaskStatus::Stopped, rows[0].status);
    assert_eq!(0, rows[0].eta);
}

#[test]
fn restart_after_stop_keeps_progress() {
    let mut q = TaskQueue::default();
    let id = q.add_task(stream("clip", 100));
    q.start_task(id).unwrap();
    q.apply_progress(id, 250000, 1000);
    q.finish_task(id);
    assert_eq!(TaskStatus::Stopped, q.snapshot()[0].status);
    let again = q.start_task(id).unwrap();
    assert!(again.is_some());
    let rows = q.snapshot();
    assert_eq!(TaskStatus::Running, rows[0].status);
    assert_eq!(250000, rows[0].progress);
}

#[test]
fn snapshot_speed_is_bytes_per_second() {
    let mut q = TaskQueue::default();
    let id = q.add_task(stream("clip", 2000000));
    q.start_task(id).unwrap();
    // a quarter per second over a 2 MB stream is 500 KB per second
    q.apply_progress(id, 250000, 1000);
    let rows = q.snapshot();
    assert_eq!(500000, rows[0].speed);
}

#[test]
fn remove_tasks_stops_at_first_missing_id() {
    let mut q = TaskQueue::default();
    let a = q.add_task(stream("a", 1));
    let b = q.add_task(stream("b", 1));
    assert_eq!(Err(DownError::NoSuchTask), q.remove_tasks(&vec![a, 99, b]));
    // the task before the missing id is already gone
    let rows = q.snapshot();
    assert_eq!(1, rows.len());
    assert_eq!("b", rows[0].title);
}
