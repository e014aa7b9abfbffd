use selfplay::alpha_zero::network_batched_executor::deliveries_to_await;
use selfplay::alpha_zero::network_batched_executor::pair_outputs;
use selfplay::alpha_zero::BatcherCommand;
use selfplay::alpha_zero::BatcherStep;
use selfplay::alpha_zero::ConfigurationError;
use selfplay::alpha_zero::NetworkBatchedExecutor;

type Scheduler = NetworkBatchedExecutor<u32, &'static str>;

fn requests(range: std::ops::Range<u32>) -> Vec<(u32, &'static str)> {
    const NAMES: [&str; 8] = ["a", "b", "c", "d", "e", "f", "g", "h"];
    range.map(|i| (i, NAMES[i as usize])).collect()
}

fn expect_run(step: BatcherStep<u32, &'static str>) -> (Vec<u32>, Vec<&'static str>) {
    match step {
        BatcherStep::Run(batch) => {
            assert_eq!(batch.len(), batch.inputs().len());
            batch.into_parts()
        }
        _ => panic!("no batch was closed"),
    }
}

#[test]
fn zero_ceiling_is_refused() {
    assert!(matches!(Scheduler::new(0, 100), Err(ConfigurationError::ZeroBatchSize)));
    let scheduler = Scheduler::new(1, 100).ok().unwrap();
    assert_eq!((scheduler.max_batch(), scheduler.window(), scheduler.buffered()), (1, 100, 0));
    assert_eq!(scheduler.room(), 1);
}

#[test]
fn full_batch_runs_once_and_each_result_reaches_its_requester() {
    let mut scheduler = Scheduler::new(4, 100).ok().unwrap();
    let (inputs, responders) = expect_run(scheduler.on_requests(requests(0..4)));
    assert_eq!(inputs.len(), 4);
    assert_eq!(scheduler.buffered(), 0);
    // The model squares each row.
    let outputs: Vec<u32> = inputs.iter().map(|x| x * x + 10).collect();
    let mut deliveries = pair_outputs(responders, outputs);
    deliveries.sort();
    assert_eq!(deliveries, vec![("a", 10), ("b", 11), ("c", 14), ("d", 19)]);
    // Nothing is left for a second run.
    assert!(matches!(scheduler.on_deadline(), BatcherStep::Backoff));
}

#[test]
fn batch_takes_the_last_request_first() {
    let mut scheduler = Scheduler::new(8, 100).ok().unwrap();
    assert!(matches!(scheduler.on_requests(requests(0..2)), BatcherStep::Wait));
    assert!(matches!(scheduler.on_requests(requests(2..3)), BatcherStep::Wait));
    assert_eq!((scheduler.buffered(), scheduler.room()), (3, 5));
    let (inputs, responders) = expect_run(scheduler.on_deadline());
    assert_eq!(inputs, vec![2, 1, 0]);
    assert_eq!(responders, vec!["c", "b", "a"]);
}

#[test]
fn requests_fill_the_window_up_to_the_ceiling() {
    let mut scheduler = Scheduler::new(3, 100).ok().unwrap();
    assert!(matches!(scheduler.on_requests(requests(0..1)), BatcherStep::Wait));
    assert!(matches!(scheduler.on_requests(vec![]), BatcherStep::Wait));
    assert_eq!(scheduler.room(), 2);
    let (inputs, _) = expect_run(scheduler.on_requests(requests(1..3)));
    assert_eq!(inputs, vec![2, 1, 0]);
    assert_eq!(scheduler.room(), 3);
}

#[test]
fn empty_window_doubles_and_batch_resets() {
    let mut scheduler = Scheduler::new(3, 100).ok().unwrap();
    assert!(matches!(scheduler.on_deadline(), BatcherStep::Backoff));
    assert_eq!(scheduler.window(), 200);
    assert!(matches!(scheduler.on_deadline(), BatcherStep::Backoff));
    assert!(matches!(scheduler.on_deadline(), BatcherStep::Backoff));
    assert_eq!(scheduler.window(), 800);
    assert!(matches!(scheduler.on_requests(requests(0..1)), BatcherStep::Wait));
    assert_eq!(scheduler.window(), 800);
    expect_run(scheduler.on_deadline());
    assert_eq!(scheduler.window(), 100);
}

#[test]
fn command_changes_the_ceiling_at_once() {
    let mut scheduler = Scheduler::new(8, 100).ok().unwrap();
    scheduler.on_deadline();
    assert!(matches!(scheduler.on_requests(requests(0..3)), BatcherStep::Wait));
    assert!(matches!(
        scheduler.on_command(BatcherCommand::SetBatchSize(4)),
        BatcherStep::Wait
    ));
    assert_eq!((scheduler.max_batch(), scheduler.room(), scheduler.window()), (4, 1, 200));
    let (inputs, _) = expect_run(scheduler.on_command(BatcherCommand::SetBatchSize(2)));
    assert_eq!(inputs, vec![2, 1, 0]);
    assert_eq!((scheduler.max_batch(), scheduler.buffered(), scheduler.window()), (2, 0, 100));
    let (inputs, _) = expect_run(scheduler.on_requests(requests(3..5)));
    assert_eq!(inputs, vec![4, 3]);
}

#[test]
fn closed_stream_flushes_and_stops() {
    let mut scheduler = Scheduler::new(8, 100).ok().unwrap();
    scheduler.on_requests(requests(0..2));
    let (inputs, _) = expect_run(scheduler.on_closed());
    assert_eq!(inputs, vec![1, 0]);
    assert!(matches!(scheduler.on_closed(), BatcherStep::Stop));
    assert_eq!(scheduler.window(), 100);
}

#[test]
fn one_delivery_may_stay_in_flight() {
    assert_eq!(deliveries_to_await(0), 0);
    assert_eq!(deliveries_to_await(1), 0);
    assert_eq!(deliveries_to_await(2), 1);
    assert_eq!(deliveries_to_await(7), 6);
}

#[test]
fn outputs_are_paired_by_row() {
    assert_eq!(pair_outputs(vec!['x', 'y', 'z'], vec![1, 2, 3]), vec![('x', 1), ('y', 2), ('z', 3)]);
    assert_eq!(pair_outputs(Vec::<char>::new(), Vec::<u8>::new()), vec![]);
}
