use tokio_tcpmux::state::{StreamIdGenerator, MAX_STREAM_ID};

#[test]
fn ids_are_handed_out_in_turn() {
    let mut g = StreamIdGenerator::new();
    assert_eq!(g.next(), 1);
    assert_eq!(g.next(), 2);
    assert_eq!(g.next(), 3);
}

#[test]
fn released_ids_are_not_reused_at_once() {
    let mut g = StreamIdGenerator::new();
    assert_eq!(g.next(), 1);
    assert_eq!(g.next(), 2);
    g.release_id(1);
    assert_eq!(g.next(), 3);
}

#[test]
fn acquired_ids_are_skipped() {
    let mut g = StreamIdGenerator::new();
    g.acquire_id(1);
    g.acquire_id(2);
    g.acquire_id(4);
    assert_eq!(g.next(), 3);
    assert_eq!(g.next(), 5);
    assert_eq!(g.try_next(), Some(6));
}

#[test]
fn max_id_constant() {
    assert_eq!(MAX_STREAM_ID, (1u32 << 30) - 2);
}

#[test]
fn open_ids_stay_distinct_across_a_run() {
    let mut g = StreamIdGenerator::new();
    let a = g.next();
    g.acquire_id(a + 1);
    let b = g.next();
    g.release_id(a + 1);
    let c = g.next();
    assert!(a != 0 && b != 0 && c != 0);
    assert!(a != b && a != c && b != c);
}
