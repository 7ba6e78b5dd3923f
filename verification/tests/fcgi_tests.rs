use bbox_tiles::fcgi::{fcgi_query, AcquireOutcome, FcgiDispatcher, FcgiPool};
use bbox_tiles::fcgi_parse::{parse_response, server_timing_value};
use bbox_tiles::service::{backend_error, ServiceError};

fn dispatcher(n: usize) -> FcgiDispatcher {
    FcgiDispatcher { backend_name: "wms".to_string(), num_groups: n }
}

#[test]
fn select_is_stable() {
    let d = dispatcher(4);
    let key = b"map=europe.qgz&LAYERS=rivers";
    let first = d.select(key);
    for _ in 0..5 {
        assert_eq!(d.select(key), first);
    }
    assert!(first < 4);
}

#[test]
fn select_spreads_within_bounds() {
    let d = dispatcher(3);
    for i in 0..50u8 {
        let key = vec![i, i + 1, 7];
        assert!(d.select(&key) < 3);
    }
}

#[test]
fn query_string_layout() {
    let q = fcgi_query("europe", "qgz", "LAYERS=rivers", "&extra");
    assert_eq!(q, "map=europe.qgz&LAYERS=rivers&extra");
}

#[test]
fn exhausted_pool_with_zero_timeout_fails_immediately() {
    let mut pool = FcgiPool::new(1);
    let conn = match pool.acquire(0) {
        AcquireOutcome::Acquired(c) => c,
        _ => panic!("one connection is free"),
    };
    // exhausted now: zero timeout fails at once, leases nothing
    assert!(matches!(pool.acquire(0), AcquireOutcome::Timeout));
    assert!(matches!(pool.acquire(0), AcquireOutcome::Timeout));
    let st = pool.status();
    assert_eq!(st.available, 0);
    assert_eq!(st.in_use, 1);
    // after a release the connection can be leased again, exactly once
    assert!(pool.release(conn).is_none());
    let again = match pool.acquire(0) {
        AcquireOutcome::Acquired(c) => c,
        _ => panic!("released connection is free again"),
    };
    assert_eq!(again, conn);
    assert!(matches!(pool.acquire(0), AcquireOutcome::Timeout));
}

#[test]
fn distinct_callers_get_distinct_connections() {
    let mut pool = FcgiPool::new(2);
    let a = match pool.acquire(0) {
        AcquireOutcome::Acquired(c) => c,
        _ => panic!(),
    };
    let b = match pool.acquire(0) {
        AcquireOutcome::Acquired(c) => c,
        _ => panic!(),
    };
    assert_ne!(a, b);
}

#[test]
fn released_connection_is_handed_to_the_oldest_waiter() {
    let mut pool = FcgiPool::new(1);
    let conn = match pool.acquire(1000) {
        AcquireOutcome::Acquired(c) => c,
        _ => panic!(),
    };
    let w1 = match pool.acquire(1000) {
        AcquireOutcome::Enqueued(w) => w,
        _ => panic!("pool is exhausted"),
    };
    let w2 = match pool.acquire(1000) {
        AcquireOutcome::Enqueued(w) => w,
        _ => panic!(),
    };
    assert_ne!(w1, w2);
    // FIFO: the first waiter is woken, and only that one
    assert_eq!(pool.release(conn), Some(w1));
    // the connection stays leased by the waiter; the pool has nothing free
    assert!(matches!(pool.acquire(0), AcquireOutcome::Timeout));
    // a cancelled waiter is never handed a connection
    assert!(pool.cancel_waiter(w2));
    assert!(pool.release(conn).is_none());
    assert_eq!(pool.status().available, 1);
}

#[test]
fn evicted_connection_shrinks_the_pool() {
    let mut pool = FcgiPool::new(2);
    let a = match pool.acquire(0) {
        AcquireOutcome::Acquired(c) => c,
        _ => panic!(),
    };
    pool.evict(a);
    let st = pool.status();
    assert_eq!(st.available, 1);
    assert_eq!(st.in_use, 0);
    // the evicted connection is not resurrected
    let b = match pool.acquire(0) {
        AcquireOutcome::Acquired(c) => c,
        _ => panic!(),
    };
    assert_ne!(a, b);
    assert!(matches!(pool.acquire(0), AcquireOutcome::Timeout));
}

#[test]
fn backend_error_evicts_and_is_internal() {
    let mut pool = FcgiPool::new(1);
    let conn = match pool.acquire(0) {
        AcquireOutcome::Acquired(c) => c,
        _ => panic!(),
    };
    let e = backend_error(&mut pool, conn);
    assert_eq!(e, ServiceError::BackendCommunication);
    let st = pool.status();
    assert_eq!(st.available, 0);
    assert_eq!(st.in_use, 0);
    assert!(matches!(pool.acquire(0), AcquireOutcome::Timeout));
}

#[test]
fn preamble_parses_to_a_structured_record() {
    let data = b"Content-Type: image/png\r\nContent-Length: 4\r\nX-us: 2500\r\nX-metrics: cache_count:2,cache_hit:13,cache_miss:2\r\nX-trace: zz\r\n\r\nBODY";
    let (info, body_start) = parse_response(data);
    assert_eq!(info.content_type, Some(b"image/png".to_vec()));
    assert_eq!(info.timing_us, Some(2500));
    assert_eq!(info.cache_count, Some(2));
    assert_eq!(info.cache_hit, Some(13));
    assert_eq!(info.unrecognized, vec![b"X-trace".to_vec()]);
    assert_eq!(&data[body_start..], b"BODY");
}

#[test]
fn preamble_without_headers() {
    let (info, body_start) = parse_response(b"\r\npayload");
    assert!(info.content_type.is_none());
    assert!(info.timing_us.is_none());
    assert_eq!(body_start, 2);
}

#[test]
fn invalid_header_line_ends_the_preamble() {
    let data = b"Content-Type: text/xml\r\nnonsense without separator\r\nrest";
    let (info, body_start) = parse_response(data);
    assert_eq!(info.content_type, Some(b"text/xml".to_vec()));
    assert_eq!(&data[body_start..], b"rest");
}

#[test]
fn later_headers_win() {
    let (info, _) = parse_response(b"X-us: 1000\r\nX-us: 7000\r\n\r\n");
    assert_eq!(info.timing_us, Some(7000));
}

#[test]
fn unparsable_timing_is_dropped() {
    let (info, _) = parse_response(b"X-us: fast\r\n\r\n");
    assert!(info.timing_us.is_none());
}

#[test]
fn server_timing_reports_milliseconds() {
    assert_eq!(server_timing_value(2500), b"wms-backend;dur=2".to_vec());
    assert_eq!(server_timing_value(999), b"wms-backend;dur=0".to_vec());
    assert_eq!(server_timing_value(123456), b"wms-backend;dur=123".to_vec());
}
