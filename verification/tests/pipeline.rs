use influxdb::pipeline::Pipeline;

/// Runs `total` operations through a pipeline with the given limit. The
/// operation with the number `n`, counted from one, fails iff `fails(n)`.
/// Operations end in an order that is not the order they started in.
fn run(total: usize, limit: usize, fails: fn(usize) -> bool)
    -> (Vec<(usize, usize)>, Vec<(usize, String)>, usize)
{
    let mut pipeline: Pipeline<usize, String> = Pipeline::new(total, limit).unwrap();
    let mut flying: Vec<usize> = Vec::new();
    let mut most = 0;
    let mut turn = 0usize;
    while !pipeline.is_done() {
        while let Some(id) = pipeline.start() {
            flying.push(id);
        }
        assert_eq!(pipeline.running(), flying.len());
        most = most.max(flying.len());
        assert!(!flying.is_empty());
        // End one of the operations in flight: now the oldest, now the newest.
        turn += 1;
        let id = if turn % 3 == 0 { flying.remove(0) } else { flying.pop().unwrap() };
        let number = id + 1;
        let outcome = if fails(number) { Err(format!("operation {} failed", number)) } else { Ok(number) };
        assert!(pipeline.complete(id, outcome).is_ok());
    }
    let (successes, failures) = pipeline.finish();
    (successes, failures, most)
}

#[test]
fn every_seventh_of_a_hundred_fails() {
    let (successes, failures, most) = run(100, 20, |n| n % 7 == 0);
    assert_eq!(successes.len(), 86);
    assert_eq!(failures.len(), 14);
    assert_eq!(most, 20);
    let mut seen: Vec<usize> = successes.iter().map(|s| s.0).chain(failures.iter().map(|f| f.0)).collect();
    seen.sort();
    assert_eq!(seen, (0..100).collect::<Vec<usize>>());
    for (id, value) in &successes {
        assert_eq!(*value, id + 1);
        assert!((id + 1) % 7 != 0);
    }
    for (id, error) in &failures {
        assert_eq!(error, &format!("operation {} failed", id + 1));
        assert!((id + 1) % 7 == 0);
    }
}

#[test]
fn the_limit_bounds_the_flight() {
    let mut pipeline: Pipeline<(), ()> = Pipeline::new(5, 2).unwrap();
    assert_eq!(pipeline.start(), Some(0));
    assert_eq!(pipeline.start(), Some(1));
    assert_eq!(pipeline.start(), None);
    assert_eq!(pipeline.running(), 2);
    assert!(pipeline.complete(1, Ok(())).is_ok());
    assert_eq!(pipeline.running(), 1);
    assert_eq!(pipeline.start(), Some(2));
    assert_eq!(pipeline.start(), None);
    assert!(!pipeline.is_done());
}

#[test]
fn an_outcome_for_an_operation_not_in_flight_is_handed_back() {
    let mut pipeline: Pipeline<u8, u8> = Pipeline::new(3, 3).unwrap();
    assert_eq!(pipeline.complete(0, Ok(1)), Err(Ok(1)));
    assert_eq!(pipeline.start(), Some(0));
    assert_eq!(pipeline.complete(7, Err(2)), Err(Err(2)));
    assert_eq!(pipeline.complete(0, Err(3)), Ok(()));
    assert_eq!(pipeline.complete(0, Ok(4)), Err(Ok(4)));
    assert_eq!(pipeline.running(), 0);
    let (successes, failures) = pipeline.finish();
    assert!(successes.is_empty());
    assert_eq!(failures, vec![(0, 3)]);
}

#[test]
fn a_limit_of_zero_is_refused_and_an_empty_run_is_done() {
    assert!(Pipeline::<(), ()>::new(4, 0).is_none());
    let mut pipeline: Pipeline<(), ()> = Pipeline::new(0, 1).unwrap();
    assert!(pipeline.is_done());
    assert_eq!(pipeline.start(), None);
}
