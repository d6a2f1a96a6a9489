use bytes::Bytes;
use http_core::BufList;
use std::ptr;

fn hello_world_buf() -> BufList {
    let mut bufs = BufList::new();
    bufs.push(Bytes::from("Hello"));
    bufs.push(Bytes::from(" "));
    bufs.push(Bytes::from("World"));
    bufs
}

#[test]
fn to_bytes_shorter() {
    let mut bufs = hello_world_buf();
    let old_ptr = bufs.chunk().as_ptr();
    let start = bufs.copy_to_bytes(4);
    assert_eq!(start, "Hell");
    assert!(ptr::eq(old_ptr, start.as_ptr()));
    assert_eq!(bufs.chunk(), b"o");
    assert!(ptr::eq(old_ptr.wrapping_add(4), bufs.chunk().as_ptr()));
    assert_eq!(bufs.remaining(), 7);
}

#[test]
fn to_bytes_eq() {
    let mut bufs = hello_world_buf();
    let old_ptr = bufs.chunk().as_ptr();
    let start = bufs.copy_to_bytes(5);
    assert_eq!(start, "Hello");
    assert!(ptr::eq(old_ptr, start.as_ptr()));
    assert_eq!(bufs.chunk(), b" ");
    assert_eq!(bufs.remaining(), 6);
}

#[test]
fn to_bytes_longer() {
    let mut bufs = hello_world_buf();
    let start = bufs.copy_to_bytes(7);
    assert_eq!(start, "Hello W");
    assert_eq!(bufs.remaining(), 4);
}

#[test]
fn one_long_buf_to_bytes() {
    let mut buf = BufList::new();
    buf.push(Bytes::from_static(b"Hello World"));
    assert_eq!(buf.copy_to_bytes(5), "Hello");
    assert_eq!(buf.chunk(), b" World");
}

#[test]
fn advance_across_chunks() {
    let mut bufs = hello_world_buf();
    assert_eq!(bufs.cnt(), 3);
    bufs.advance(6);
    assert_eq!(bufs.remaining(), 5);
    assert_eq!(bufs.chunk(), b"World");
    bufs.advance(5);
    assert_eq!(bufs.remaining(), 0);
    assert_eq!(bufs.cnt(), 0);
}

#[test]
fn chunks_vectored_lists_front_chunks() {
    let bufs = hello_world_buf();
    let all = bufs.chunks_vectored(8);
    assert_eq!(all.len(), 3);
    assert_eq!(all[0], b"Hello");
    assert_eq!(all[1], b" ");
    assert_eq!(all[2], b"World");
    let two = bufs.chunks_vectored(2);
    assert_eq!(two.len(), 2);
    assert_eq!(two[0], b"Hello");
}

#[test]
fn copy_to_bytes_gathers_across_chunks() {
    let mut bufs = hello_world_buf();
    let start = bufs.copy_to_bytes(11);
    assert_eq!(start, "Hello World");
    assert_eq!(bufs.remaining(), 0);
}
