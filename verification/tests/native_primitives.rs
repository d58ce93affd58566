use sift::native::{status_to_result, NativeBuffer, NativeError, NativeScanner};

#[test]
fn status_code_mapping() {
    assert_eq!(status_to_result(0), Ok(()));
    assert_eq!(status_to_result(-1), Err(NativeError::AllocationFailed));
    assert_eq!(status_to_result(-2), Err(NativeError::Overflow));
    assert_eq!(status_to_result(-3), Err(NativeError::InvalidArgument));
    assert_eq!(status_to_result(-4), Err(NativeError::CapacityExceeded));

    assert_eq!(status_to_result(1), Err(NativeError::NativeInvariantViolation));
    assert_eq!(status_to_result(-99), Err(NativeError::NativeInvariantViolation));
    assert_eq!(status_to_result(42), Err(NativeError::NativeInvariantViolation));
}

#[test]
fn buffer_overflow_rejection() {
    let mut buf = NativeBuffer::with_capacity(16).expect("buf");
    let res = buf.reserve(usize::MAX);
    assert_eq!(res, Err(NativeError::Overflow));
}

#[test]
fn native_error_display() {
    assert_eq!(NativeError::AllocationFailed.message(), "native allocation failed");
    assert_eq!(NativeError::Overflow.message(), "arithmetic overflow");
    assert_eq!(NativeError::InvalidArgument.message(), "invalid argument");
    assert_eq!(NativeError::CapacityExceeded.message(), "capacity exceeded");
    assert_eq!(NativeError::NativeInvariantViolation.message(), "native invariant violation");
}

#[test]
fn scanner_lifecycle_resets_scratch_arena() {
    let mut scanner = NativeScanner::new(1024).expect("scanner");
    assert_eq!(scanner.scratch_capacity(), 1024);
    assert_eq!(scanner.scratch_used(), 0);
    scanner.record_scan(512);
    assert_eq!(scanner.bytes_scanned(), 512);
    assert_eq!(scanner.scans(), 1);
    scanner.reset();
    assert_eq!(scanner.scratch_used(), 0);
    assert_eq!(scanner.bytes_scanned(), 512);
}

#[test]
fn buffer_init_append_and_growth() {
    let mut buf = NativeBuffer::with_capacity(16).expect("buffer creation");
    assert_eq!(buf.len(), 0);
    assert!(buf.is_empty());
    assert_eq!(buf.capacity(), 16);
    assert_eq!(buf.as_slice(), b"");

    buf.append(b"hello ").expect("append 1");
    assert_eq!(buf.len(), 6);
    assert!(!buf.is_empty());
    assert_eq!(buf.as_slice(), b"hello ");

    buf.append(b"world! This is a longer string that exceeds initial capacity.").expect("append 2");
    assert!(buf.len() > 16);
    assert!(buf.capacity() >= buf.len());
    assert!(buf.as_slice().starts_with(b"hello world!"));

    buf.clear();
    assert_eq!(buf.len(), 0);
    assert!(buf.is_empty());
    assert_eq!(buf.as_slice(), b"");

    buf.append(b"reused buffer content").expect("append 3");
    assert_eq!(buf.as_slice(), b"reused buffer content");
}

#[test]
fn buffer_zero_capacity_growth() {
    let mut buf = NativeBuffer::with_capacity(0).expect("zero-capacity buffer");
    assert_eq!(buf.capacity(), 0);
    assert_eq!(buf.len(), 0);

    buf.append(b"dynamically grown from zero").expect("append");
    assert_eq!(buf.as_slice(), b"dynamically grown from zero");
    assert!(buf.capacity() >= buf.len());
}

#[test]
fn buffer_reserve_expansion() {
    let mut buf = NativeBuffer::with_capacity(10).expect("buffer creation");
    buf.reserve(1000).expect("reserve 1000 bytes");
    assert!(buf.capacity() >= 1000);
    assert_eq!(buf.len(), 0);
}

#[test]
fn scanner_lifecycle_and_accounting() {
    let mut scanner = NativeScanner::new(4096).expect("scanner creation");
    assert_eq!(scanner.bytes_scanned(), 0);
    assert_eq!(scanner.scans(), 0);
    assert_eq!(scanner.scratch_capacity(), 4096);
    assert_eq!(scanner.scratch_used(), 0);

    scanner.record_scan(1024);
    scanner.record_scan(2048);
    assert_eq!(scanner.bytes_scanned(), 3072);
    assert_eq!(scanner.scans(), 2);

    scanner.reset();
    assert_eq!(scanner.bytes_scanned(), 3072);
    assert_eq!(scanner.scans(), 2);
    assert_eq!(scanner.scratch_used(), 0);
}

#[test]
fn scanner_zero_scratch_capacity() {
    let mut scanner = NativeScanner::new(0).expect("zero scratch scanner");
    assert_eq!(scanner.scratch_capacity(), 0);
    scanner.record_scan(500);
    assert_eq!(scanner.bytes_scanned(), 500);
    assert_eq!(scanner.scans(), 1);
}

#[test]
fn buffer_growth_doubles_capacity() {
    let mut buf = NativeBuffer::with_capacity(10).expect("buffer");
    buf.reserve(11).expect("reserve");
    assert_eq!(buf.capacity(), 20);
    buf.reserve(1000).expect("reserve");
    assert_eq!(buf.capacity(), 1280);
    let mut empty = NativeBuffer::with_capacity(0).expect("buffer");
    empty.append(b"abc").expect("append");
    assert_eq!(empty.capacity(), 3);
    assert_eq!(buf.append(b"x"), Ok(()));
}
