//! The client connection pool: connections keyed by their authority. An
//! HTTP/1 connection is exclusively owned while checked out and leaves the
//! pool; a multiplexed HTTP/2 or HTTP/3 connection is shared and stays.
//! Destroying a connection removes every entry that refers to it.
//!
//! The pool stores connection identifiers; the IO shell maps them to the
//! live transports and guards the pool with its lock.

use crate::client::{uses_h1, ConnKind};
use crate::header::{bytes_eq, clone_vec_u8};
use vstd::prelude::*;

verus! {

/// The key of a pooled connection: scheme, host and port.
pub struct Authority {
    pub scheme: Vec<u8>,
    pub host: Vec<u8>,
    pub port: u16,
}

/// The value an authority stands for.
pub open spec fn authority_view(a: Authority) -> (Seq<u8>, Seq<u8>, u16) {
    (a.scheme@, a.host@, a.port)
}

/// One pooled connection: its key, protocol kind, and the identifier the
/// IO shell resolves to the live transport.
pub struct PoolEntry {
    pub authority: Authority,
    pub kind: ConnKind,
    pub conn_id: u64,
}

/// The value a pool entry stands for.
pub open spec fn pentry_view(e: PoolEntry) -> ((Seq<u8>, Seq<u8>, u16), ConnKind, u64) {
    (authority_view(e.authority), e.kind, e.conn_id)
}

/// The values a list of entries stands for.
pub open spec fn pool_view(es: Seq<PoolEntry>) -> Seq<((Seq<u8>, Seq<u8>, u16), ConnKind, u64)> {
    es.map_values(|e: PoolEntry| pentry_view(e))
}

proof fn lemma_pool_view_push(es: Seq<PoolEntry>, e: PoolEntry)
    ensures
        pool_view(es.push(e)) == pool_view(es).push(pentry_view(e)),
{
    assert(pool_view(es.push(e)) =~= pool_view(es).push(pentry_view(e)));
}

/// Whether a connection kind is shared across streams while pooled.
pub open spec fn spec_uses_h1(k: ConnKind) -> bool {
    k == ConnKind::Tcp || k == ConnKind::Tls || k == ConnKind::Unix
}

/// The index of the first entry keyed by `a`.
pub open spec fn first_match(
    v: Seq<((Seq<u8>, Seq<u8>, u16), ConnKind, u64)>,
    a: (Seq<u8>, Seq<u8>, u16),
) -> int {
    choose|i: int|
        0 <= i < v.len() && (#[trigger] v[i]).0 == a && forall|j: int|
            0 <= j < i ==> (#[trigger] v[j]).0 != a
}

/// Some entry is keyed by `a`.
pub open spec fn has_match(
    v: Seq<((Seq<u8>, Seq<u8>, u16), ConnKind, u64)>,
    a: (Seq<u8>, Seq<u8>, u16),
) -> bool {
    exists|i: int| 0 <= i < v.len() && (#[trigger] v[i]).0 == a
}

/// When `i` is the first index keyed by `a`, `first_match` picks it.
proof fn lemma_first_match(
    v: Seq<((Seq<u8>, Seq<u8>, u16), ConnKind, u64)>,
    a: (Seq<u8>, Seq<u8>, u16),
    i: int,
)
    requires
        0 <= i < v.len(),
        v[i].0 == a,
        forall|j: int| 0 <= j < i ==> (#[trigger] v[j]).0 != a,
    ensures
        first_match(v, a) == i,
{
    let k = first_match(v, a);
    assert(0 <= k < v.len() && v[k].0 == a && forall|j: int|
        0 <= j < k ==> (#[trigger] v[j]).0 != a) by {
        assert(0 <= i < v.len() && (#[trigger] v[i]).0 == a && forall|j: int|
            0 <= j < i ==> (#[trigger] v[j]).0 != a);
    }
    if k < i {
        assert(v[k].0 != a);
    }
    if i < k {
        assert(v[i].0 != a);
    }
}

/// The per-authority connection pool.
pub struct ConnectionPool {
    entries: Vec<PoolEntry>,
}

impl ConnectionPool {
    /// The pooled entries, in insertion order.
    pub closed spec fn view(&self) -> Seq<((Seq<u8>, Seq<u8>, u16), ConnKind, u64)> {
        pool_view(self.entries@)
    }

    pub fn new() -> (r: Self)
        ensures
            r@ == Seq::<((Seq<u8>, Seq<u8>, u16), ConnKind, u64)>::empty(),
    {
        let r = ConnectionPool { entries: Vec::new() };
        proof {
            assert(r@ =~= Seq::<((Seq<u8>, Seq<u8>, u16), ConnKind, u64)>::empty());
        }
        r
    }

    pub fn len(&self) -> (r: usize)
        ensures
            r == self@.len(),
    {
        self.entries.len()
    }

    /// How many pooled connections are keyed by the authority.
    #[verifier::loop_isolation(false)]
    pub fn count_for(&self, a: &Authority) -> (r: usize)
        ensures
            r == self@.filter(
                |t: ((Seq<u8>, Seq<u8>, u16), ConnKind, u64)| t.0 == authority_view(*a),
            ).len(),
    {
        let ghost pred = |t: ((Seq<u8>, Seq<u8>, u16), ConnKind, u64)| t.0 == authority_view(*a);
        let mut count: usize = 0;
        let mut i: usize = 0;
        while i < self.entries.len()
            invariant
                i <= self@.len(),
                self@.len() == self.entries@.len(),
                count == self@.take(i as int).filter(pred).len(),
                count <= i,
            decreases self@.len() - i,
        {
            let e = &self.entries[i];
            let matched = bytes_eq(e.authority.scheme.as_slice(), a.scheme.as_slice()) && bytes_eq(
                e.authority.host.as_slice(),
                a.host.as_slice(),
            ) && e.authority.port == a.port;
            proof {
                reveal(Seq::filter);
                assert(self@.take(i as int + 1).drop_last() =~= self@.take(i as int));
                assert(matched == pred(self@[i as int]));
            }
            if matched {
                count = count + 1;
            }
            i = i + 1;
        }
        proof {
            assert(self@.take(self@.len() as int) =~= self@);
        }
        count
    }

    /// Check a connection out of the pool. The first entry keyed by the
    /// authority is handed back: an HTTP/1 connection leaves the pool,
    /// since the caller owns it exclusively, while a multiplexed one stays
    /// and is shared.
    #[verifier::loop_isolation(false)]
    pub fn acquire(&mut self, a: &Authority) -> (r: Option<PoolEntry>)
        ensures
            match r {
                Option::None => !has_match(old(self)@, authority_view(*a)) && final(self)@ == old(
                    self,
                )@,
                Option::Some(e) => {
                    let i = first_match(old(self)@, authority_view(*a));
                    &&& has_match(old(self)@, authority_view(*a))
                    &&& pentry_view(e) == old(self)@[i]
                    &&& spec_uses_h1(e.kind) ==> final(self)@ == old(self)@.remove(i)
                    &&& !spec_uses_h1(e.kind) ==> final(self)@ == old(self)@
                },
            },
    {
        let mut i: usize = 0;
        while i < self.entries.len()
            invariant
                i <= self@.len(),
                self@ == old(self)@,
                self@.len() == self.entries@.len(),
                forall|j: int| 0 <= j < i ==> (#[trigger] self@[j]).0 != authority_view(*a),
            decreases self@.len() - i,
        {
            let e = &self.entries[i];
            let matched = bytes_eq(e.authority.scheme.as_slice(), a.scheme.as_slice()) && bytes_eq(
                e.authority.host.as_slice(),
                a.host.as_slice(),
            ) && e.authority.port == a.port;
            if matched {
                proof {
                    assert((#[trigger] self@[i as int]).0 == authority_view(*a));
                    lemma_first_match(self@, authority_view(*a), i as int);
                }
                if uses_h1(self.entries[i].kind) {
                    let e = self.entries.remove(i);
                    proof {
                        assert(self@ =~= old(self)@.remove(i as int));
                    }
                    return Some(e);
                }
                let e = &self.entries[i];
                let copy = PoolEntry {
                    authority: Authority {
                        scheme: clone_vec_u8(&e.authority.scheme),
                        host: clone_vec_u8(&e.authority.host),
                        port: e.authority.port,
                    },
                    kind: e.kind,
                    conn_id: e.conn_id,
                };
                proof {
                    assert(pentry_view(copy) == self@[i as int]);
                }
                return Some(copy);
            }
            i = i + 1;
        }
        None
    }

    /// Return a connection to the pool, bounded per authority: with `cap`
    /// connections already pooled for its key the entry is refused, and
    /// the caller drops the connection instead.
    pub fn add(&mut self, e: PoolEntry, cap: usize) -> (r: bool)
        ensures
            r == (old(self)@.filter(
                |t: ((Seq<u8>, Seq<u8>, u16), ConnKind, u64)| t.0 == authority_view(e.authority),
            ).len() < cap),
            r ==> final(self)@ == old(self)@.push(pentry_view(e)),
            !r ==> final(self)@ == old(self)@,
    {
        let count = self.count_for(&e.authority);
        if count < cap {
            proof {
                lemma_pool_view_push(self.entries@, e);
            }
            self.entries.push(e);
            true
        } else {
            false
        }
    }

    /// Drop every entry of a destroyed connection: once its
    /// destroy-on-drop flag fired, no checkout may see it again.
    #[verifier::loop_isolation(false)]
    pub fn destroy(&mut self, conn_id: u64)
        ensures
            final(self)@ == old(self)@.filter(
                |t: ((Seq<u8>, Seq<u8>, u16), ConnKind, u64)| t.2 != conn_id,
            ),
    {
        let ghost pred = |t: ((Seq<u8>, Seq<u8>, u16), ConnKind, u64)| t.2 != conn_id;
        let mut kept: Vec<PoolEntry> = Vec::new();
        let mut rest: Vec<PoolEntry> = Vec::new();
        core::mem::swap(&mut self.entries, &mut rest);
        let ghost orig = rest@;
        let orig_len = rest.len();
        let mut i: usize = 0;
        proof {
            assert(pool_view(orig) == old(self)@);
        }
        while rest.len() > 0
            invariant
                i + rest@.len() == orig_len,
                orig_len == orig.len(),
                i <= orig_len,
                rest@ =~= orig.skip(i as int),
                pool_view(kept@) == pool_view(orig).take(i as int).filter(pred),
            decreases rest@.len(),
        {
            let e = rest.remove(0);
            proof {
                reveal(Seq::filter);
                assert(pool_view(orig).take(i as int + 1).drop_last() =~= pool_view(orig).take(
                    i as int,
                ));
                assert(orig.skip(i as int)[0] == orig[i as int]);
                assert(pool_view(orig).take(i as int + 1).last() == pentry_view(orig[i as int]));
                assert(rest@ =~= orig.skip(i as int + 1));
            }
            if e.conn_id != conn_id {
                let ghost pre = kept@;
                kept.push(e);
                proof {
                    lemma_pool_view_push(pre, kept@[pre.len() as int]);
                    assert(pred(pentry_view(orig[i as int])));
                    assert(pool_view(kept@) == pool_view(orig).take(i as int + 1).filter(pred));
                }
            } else {
                proof {
                    assert(!pred(pentry_view(orig[i as int])));
                    assert(pool_view(kept@) == pool_view(orig).take(i as int + 1).filter(pred));
                }
            }
            i = i + 1;
        }
        proof {
            assert(pool_view(orig).take(orig.len() as int) =~= pool_view(orig));
        }
        self.entries = kept;
    }
}

} // verus!
