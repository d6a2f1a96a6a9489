use http_core::{Authority, ConnKind, ConnectionPool, PoolEntry};

fn authority(host: &[u8], port: u16) -> Authority {
    Authority { scheme: b"http".to_vec(), host: host.to_vec(), port }
}

fn entry(host: &[u8], port: u16, kind: ConnKind, conn_id: u64) -> PoolEntry {
    PoolEntry { authority: authority(host, port), kind, conn_id }
}

#[test]
fn h1_checkout_is_exclusive() {
    let mut pool = ConnectionPool::new();
    assert!(pool.add(entry(b"a", 80, ConnKind::Tcp, 1), 8));
    assert_eq!(pool.len(), 1);
    let got = pool.acquire(&authority(b"a", 80)).unwrap();
    assert_eq!(got.conn_id, 1);
    // exclusive: the connection left the pool with its checkout
    assert!(pool.acquire(&authority(b"a", 80)).is_none());
    assert_eq!(pool.len(), 0);
}

#[test]
fn h2_checkout_is_shared() {
    let mut pool = ConnectionPool::new();
    assert!(pool.add(entry(b"a", 443, ConnKind::H2, 7), 8));
    let one = pool.acquire(&authority(b"a", 443)).unwrap();
    let two = pool.acquire(&authority(b"a", 443)).unwrap();
    assert_eq!(one.conn_id, 7);
    assert_eq!(two.conn_id, 7);
    assert_eq!(pool.len(), 1);
}

#[test]
fn acquire_matches_authority_exactly() {
    let mut pool = ConnectionPool::new();
    assert!(pool.add(entry(b"a", 80, ConnKind::Tcp, 1), 8));
    assert!(pool.acquire(&authority(b"a", 81)).is_none());
    assert!(pool.acquire(&authority(b"b", 80)).is_none());
    assert!(pool.acquire(&authority(b"a", 80)).is_some());
}

#[test]
fn add_respects_per_authority_capacity() {
    let mut pool = ConnectionPool::new();
    assert!(pool.add(entry(b"a", 80, ConnKind::Tcp, 1), 2));
    assert!(pool.add(entry(b"a", 80, ConnKind::Tcp, 2), 2));
    assert!(!pool.add(entry(b"a", 80, ConnKind::Tcp, 3), 2));
    // another authority has its own budget
    assert!(pool.add(entry(b"b", 80, ConnKind::Tcp, 4), 2));
    assert_eq!(pool.count_for(&authority(b"a", 80)), 2);
    assert_eq!(pool.count_for(&authority(b"b", 80)), 1);
}

#[test]
fn destroy_removes_every_entry_of_the_connection() {
    let mut pool = ConnectionPool::new();
    assert!(pool.add(entry(b"a", 443, ConnKind::H2, 7), 8));
    assert!(pool.add(entry(b"b", 443, ConnKind::H2, 7), 8));
    assert!(pool.add(entry(b"c", 80, ConnKind::Tcp, 9), 8));
    pool.destroy(7);
    assert_eq!(pool.len(), 1);
    assert!(pool.acquire(&authority(b"a", 443)).is_none());
    assert!(pool.acquire(&authority(b"c", 80)).is_some());
}
