use dirust::error::DirustError;
use dirust::scanner::engine::{Action, ScanEngine};
use std::sync::atomic::{AtomicUsize, Ordering};
use std::sync::Arc;
use tokio::sync::mpsc;

/// Drives a scan with real tasks on a runtime with several threads. Each task
/// counts itself in, yields a number of times, and counts itself out; the
/// highest count ever seen is returned with the order of launch and the
/// result of the scan.
fn drive(total: usize, limit: usize, fail: &[usize]) -> (usize, Vec<usize>, Result<(), DirustError>) {
    let targets: Vec<String> = (0..total).map(|i| format!("http://h/{}", i)).collect();
    let mut engine = ScanEngine::new(targets, limit).unwrap();
    let failing: Arc<Vec<usize>> = Arc::new(fail.to_vec());
    let running = Arc::new(AtomicUsize::new(0));
    let peak = Arc::new(AtomicUsize::new(0));
    let runtime = tokio::runtime::Builder::new_multi_thread().worker_threads(4).build().unwrap();

    let launched = runtime.block_on(async {
        let (done, mut completions) = mpsc::unbounded_channel::<(usize, Result<(), DirustError>)>();
        let mut launched = Vec::new();
        loop {
            match engine.step() {
                Action::Launch { unit, target } => {
                    launched.push(target);
                    let done = done.clone();
                    let running = running.clone();
                    let peak = peak.clone();
                    let failing = failing.clone();
                    tokio::spawn(async move {
                        let now = running.fetch_add(1, Ordering::SeqCst) + 1;
                        peak.fetch_max(now, Ordering::SeqCst);
                        for _ in 0..(1 + (target * 7) % 5) {
                            tokio::task::yield_now().await;
                        }
                        running.fetch_sub(1, Ordering::SeqCst);
                        let outcome = if failing.contains(&target) {
                            Err(DirustError::Io(std::io::Error::new(
                                std::io::ErrorKind::Other,
                                format!("target {}", target),
                            )))
                        } else {
                            Ok(())
                        };
                        let _ = done.send((unit, outcome));
                    });
                }
                Action::Skip { target } => panic!("target {} was skipped", target),
                Action::Wait => {
                    let (unit, outcome) = completions.recv().await.unwrap();
                    assert!(engine.complete(unit, outcome));
                }
                Action::Finish => break,
            }
        }
        launched
    });

    assert_eq!(running.load(Ordering::SeqCst), 0);
    let result = engine.into_result().expect("the scan is over");
    (peak.load(Ordering::SeqCst), launched, result)
}

#[test]
fn running_tasks_never_exceed_the_limit() {
    for limit in [1usize, 2, 3, 8, 64] {
        let (peak, launched, result) = drive(200, limit, &[]);
        assert!(peak <= limit, "peak {} over limit {}", peak, limit);
        assert!(peak >= 1);
        assert_eq!(launched, (0..200).collect::<Vec<usize>>());
        assert!(result.is_ok());
    }
}

#[test]
fn limit_of_one_runs_one_task_at_a_time() {
    let (peak, launched, result) = drive(50, 1, &[]);
    assert_eq!(peak, 1);
    assert_eq!(launched.len(), 50);
    assert!(result.is_ok());
}

#[test]
fn every_task_runs_though_an_early_one_fails() {
    let (peak, launched, result) = drive(60, 4, &[3, 41, 17]);
    assert!(peak <= 4);
    assert_eq!(launched, (0..60).collect::<Vec<usize>>());
    assert_eq!(result.unwrap_err().message(), "io error: target 3");
}
