//! An ordered multimap of header names to values, reused across pipelined
//! requests, plus the ASCII case helpers the codecs need.
//!
//! Names are normalised to ASCII lower case when stored, so lookups compare
//! exact bytes after lowering the query.

use vstd::prelude::*;

verus! {

/// ASCII lower-casing of one byte.
pub open spec fn lower_byte(b: u8) -> u8 {
    if 65 <= b <= 90 {
        (b + 32) as u8
    } else {
        b
    }
}

/// ASCII lower-casing of a byte sequence.
pub open spec fn lower_seq(s: Seq<u8>) -> Seq<u8> {
    s.map_values(|b: u8| lower_byte(b))
}

/// ASCII lower-casing of one byte.
pub fn lower_u8(b: u8) -> (r: u8)
    ensures
        r == lower_byte(b),
{
    if 65 <= b && b <= 90 {
        b + 32
    } else {
        b
    }
}

/// Exact byte equality of two slices.
#[verifier::loop_isolation(false)]
pub fn bytes_eq(a: &[u8], b: &[u8]) -> (r: bool)
    ensures
        r == (a@ == b@),
{
    if a.len() != b.len() {
        proof {
            assert(a@.len() != b@.len());
        }
        return false;
    }
    let mut i: usize = 0;
    while i < a.len()
        invariant
            i <= a@.len(),
            a@.len() == b@.len(),
            forall|j: int| 0 <= j < i ==> a@[j] == b@[j],
        decreases a@.len() - i,
    {
        if a[i] != b[i] {
            return false;
        }
        i = i + 1;
    }
    proof {
        assert(a@ =~= b@);
    }
    true
}

/// Byte equality of two slices up to ASCII case.
#[verifier::loop_isolation(false)]
pub fn eq_ignore_ascii_case(a: &[u8], b: &[u8]) -> (r: bool)
    ensures
        r == (lower_seq(a@) == lower_seq(b@)),
{
    if a.len() != b.len() {
        proof {
            assert(lower_seq(a@).len() != lower_seq(b@).len());
        }
        return false;
    }
    let mut i: usize = 0;
    while i < a.len()
        invariant
            i <= a@.len(),
            a@.len() == b@.len(),
            forall|j: int| 0 <= j < i ==> lower_byte(a@[j]) == lower_byte(b@[j]),
        decreases a@.len() - i,
    {
        if lower_u8(a[i]) != lower_u8(b[i]) {
            proof {
                assert(lower_seq(a@)[i as int] != lower_seq(b@)[i as int]);
            }
            return false;
        }
        i = i + 1;
    }
    proof {
        assert(lower_seq(a@) =~= lower_seq(b@));
    }
    true
}

/// Copy a slice into a fresh vector with every byte lowered.
#[verifier::loop_isolation(false)]
pub fn lower_vec(s: &[u8]) -> (r: Vec<u8>)
    ensures
        r@ == lower_seq(s@),
{
    let mut out: Vec<u8> = Vec::with_capacity(s.len());
    let mut i: usize = 0;
    while i < s.len()
        invariant
            i <= s@.len(),
            out@.len() == i,
            forall|j: int| 0 <= j < i ==> out@[j] == lower_byte(s@[j]),
        decreases s@.len() - i,
    {
        out.push(lower_u8(s[i]));
        i = i + 1;
    }
    proof {
        assert(out@ =~= lower_seq(s@));
    }
    out
}

/// One stored header: a lower-cased name and its value.
pub struct HeaderEntry {
    pub name: Vec<u8>,
    pub value: Vec<u8>,
}

/// The pair of byte sequences an entry stands for.
pub open spec fn entry_view(e: HeaderEntry) -> (Seq<u8>, Seq<u8>) {
    (e.name@, e.value@)
}

/// An ordered multimap of header names to opaque values.
pub struct HeaderMap {
    entries: Vec<HeaderEntry>,
}

/// True when the pair's name equals `name`.
pub open spec fn has_name(p: (Seq<u8>, Seq<u8>), name: Seq<u8>) -> bool {
    p.0 == name
}

/// Some pair of the list carries `name`.
pub open spec fn view_contains(v: Seq<(Seq<u8>, Seq<u8>)>, name: Seq<u8>) -> bool {
    exists|i: int| 0 <= i < v.len() && (#[trigger] v[i]).0 == name
}

/// Copy the bytes of `v` between `from` and `to` into a fresh vector.
#[verifier::loop_isolation(false)]
pub(crate) fn copy_range(v: &[u8], from: usize, to: usize) -> (r: Vec<u8>)
    requires
        from <= to <= v@.len(),
    ensures
        r@ == v@.subrange(from as int, to as int),
{
    let mut out: Vec<u8> = Vec::with_capacity(to - from);
    let mut i: usize = from;
    while i < to
        invariant
            from <= i <= to,
            out@ == v@.subrange(from as int, i as int),
        decreases to - i,
    {
        out.push(v[i]);
        proof {
            assert(out@ =~= v@.subrange(from as int, i as int + 1));
        }
        i = i + 1;
    }
    out
}

/// The byte sequences a list of vectors stands for.
pub open spec fn values_view(vs: Seq<Vec<u8>>) -> Seq<Seq<u8>> {
    vs.map_values(|v: Vec<u8>| v@)
}

/// The second components of a list of pairs.
pub open spec fn pair_seconds(ps: Seq<(Seq<u8>, Seq<u8>)>) -> Seq<Seq<u8>> {
    ps.map_values(|p: (Seq<u8>, Seq<u8>)| p.1)
}

/// The pairs a list of entries stands for.
pub open spec fn entries_view(es: Seq<HeaderEntry>) -> Seq<(Seq<u8>, Seq<u8>)> {
    es.map_values(|e: HeaderEntry| entry_view(e))
}

proof fn lemma_entries_view_push(es: Seq<HeaderEntry>, e: HeaderEntry)
    ensures
        entries_view(es.push(e)) == entries_view(es).push(entry_view(e)),
{
    assert(entries_view(es.push(e)) =~= entries_view(es).push(entry_view(e)));
}

pub(crate) proof fn lemma_values_view_push(vs: Seq<Vec<u8>>, v: Vec<u8>)
    ensures
        values_view(vs.push(v)) == values_view(vs).push(v@),
{
    assert(values_view(vs.push(v)) =~= values_view(vs).push(v@));
}

proof fn lemma_pair_seconds_push(ps: Seq<(Seq<u8>, Seq<u8>)>, p: (Seq<u8>, Seq<u8>))
    ensures
        pair_seconds(ps.push(p)) == pair_seconds(ps).push(p.1),
{
    assert(pair_seconds(ps.push(p)) =~= pair_seconds(ps).push(p.1));
}

impl HeaderMap {
    /// The stored entries, in order, as (name, value) byte-sequence pairs.
    pub closed spec fn view(&self) -> Seq<(Seq<u8>, Seq<u8>)> {
        entries_view(self.entries@)
    }

    /// Every stored name is already lower-cased.
    pub open spec fn wf(&self) -> bool {
        forall|i: int| 0 <= i < self@.len() ==> lower_seq(#[trigger] self@[i].0) == self@[i].0
    }

    /// Some entry carries `name` (which must be in lower case).
    pub open spec fn spec_contains(&self, name: Seq<u8>) -> bool {
        view_contains(self@, name)
    }

    /// The values stored under `name`, in order.
    pub open spec fn spec_values(&self, name: Seq<u8>) -> Seq<Seq<u8>> {
        pair_seconds(self@.filter(|p: (Seq<u8>, Seq<u8>)| has_name(p, name)))
    }

    pub fn new() -> (r: Self)
        ensures
            r@ == Seq::<(Seq<u8>, Seq<u8>)>::empty(),
            r.wf(),
    {
        let r = HeaderMap { entries: Vec::new() };
        proof {
            assert(r@ =~= Seq::<(Seq<u8>, Seq<u8>)>::empty());
        }
        r
    }

    pub fn len(&self) -> (r: usize)
        ensures
            r == self@.len(),
    {
        self.entries.len()
    }

    pub fn is_empty(&self) -> (r: bool)
        ensures
            r == (self@.len() == 0),
    {
        self.entries.len() == 0
    }

    /// Drop every entry; the map keeps its storage for reuse.
    pub fn clear(&mut self)
        ensures
            final(self)@ == Seq::<(Seq<u8>, Seq<u8>)>::empty(),
            final(self).wf(),
    {
        self.entries.clear();
        proof {
            assert(self@ =~= Seq::<(Seq<u8>, Seq<u8>)>::empty());
        }
    }

    /// Add an entry at the end, keeping earlier values of the same name.
    pub fn append(&mut self, name: &[u8], value: Vec<u8>)
        requires
            old(self).wf(),
        ensures
            final(self).wf(),
            final(self)@ == old(self)@.push((lower_seq(name@), value@)),
    {
        let lname = lower_vec(name);
        proof {
            lower_seq_idempotent(name@);
        }
        self.entries.push(HeaderEntry { name: lname, value });
        proof {
            assert(self@ =~= old(self)@.push((lower_seq(name@), value@)));
        }
    }

    /// True when some entry carries the (lowered) name.
    #[verifier::loop_isolation(false)]
    pub fn contains_key(&self, name: &[u8]) -> (r: bool)
        ensures
            r == self.spec_contains(lower_seq(name@)),
    {
        let lname = lower_vec(name);
        let mut i: usize = 0;
        while i < self.entries.len()
            invariant
                i <= self@.len(),
                lname@ == lower_seq(name@),
                self@.len() == self.entries@.len(),
                forall|j: int| 0 <= j < i ==> (#[trigger] self@[j]).0 != lname@,
            decreases self@.len() - i,
        {
            if bytes_eq(self.entries[i].name.as_slice(), lname.as_slice()) {
                proof {
                    assert(self@[i as int].0 == lname@);
                }
                return true;
            }
            i = i + 1;
        }
        false
    }

    /// The first value stored under the (lowered) name, if any.
    #[verifier::loop_isolation(false)]
    pub fn get_first(&self, name: &[u8]) -> (r: Option<&Vec<u8>>)
        ensures
            match r {
                Some(v) => self.spec_contains(lower_seq(name@)) && v@ == first_value(
                    self@,
                    lower_seq(name@),
                ),
                None => !self.spec_contains(lower_seq(name@)),
            },
    {
        let lname = lower_vec(name);
        let mut i: usize = 0;
        while i < self.entries.len()
            invariant
                i <= self@.len(),
                lname@ == lower_seq(name@),
                self@.len() == self.entries@.len(),
                forall|j: int| 0 <= j < i ==> (#[trigger] self@[j]).0 != lname@,
            decreases self@.len() - i,
        {
            if bytes_eq(self.entries[i].name.as_slice(), lname.as_slice()) {
                proof {
                    assert(self@[i as int].0 == lname@);
                    lemma_first_value(self@, lname@, i as int);
                }
                return Some(&self.entries[i].value);
            }
            i = i + 1;
        }
        None
    }

    /// Every value stored under the (lowered) name, in order, copied out.
    #[verifier::loop_isolation(false)]
    pub fn get_all(&self, name: &[u8]) -> (r: Vec<Vec<u8>>)
        ensures
            values_view(r@) == self.spec_values(lower_seq(name@)),
    {
        let lname = lower_vec(name);
        let ghost pred = |p: (Seq<u8>, Seq<u8>)| has_name(p, lower_seq(name@));
        let mut out: Vec<Vec<u8>> = Vec::new();
        let mut i: usize = 0;
        while i < self.entries.len()
            invariant
                i <= self@.len(),
                lname@ == lower_seq(name@),
                self@.len() == self.entries@.len(),
                values_view(out@) == pair_seconds(self@.take(i as int).filter(pred)),
            decreases self@.len() - i,
        {
            let ghost pre_out = out@;
            if bytes_eq(self.entries[i].name.as_slice(), lname.as_slice()) {
                let v = clone_vec_u8(&self.entries[i].value);
                out.push(v);
                proof {
                    reveal(Seq::filter);
                    assert(self@.take(i as int + 1).drop_last() =~= self@.take(i as int));
                    assert(pred(self@[i as int]));
                    assert(self@.take(i as int + 1).filter(pred) == self@.take(i as int).filter(
                        pred,
                    ).push(self@[i as int]));
                    lemma_values_view_push(pre_out, out@[pre_out.len() as int]);
                    lemma_pair_seconds_push(self@.take(i as int).filter(pred), self@[i as int]);
                    assert(out@ == pre_out.push(out@[pre_out.len() as int]));
                    assert(values_view(out@) == pair_seconds(
                        self@.take(i as int + 1).filter(pred),
                    ));
                }
            } else {
                proof {
                    reveal(Seq::filter);
                    assert(self@.take(i as int + 1).drop_last() =~= self@.take(i as int));
                    assert(!pred(self@[i as int]));
                    assert(self@.take(i as int + 1).filter(pred) == self@.take(i as int).filter(
                        pred,
                    ));
                }
            }
            i = i + 1;
        }
        proof {
            assert(self@.take(self@.len() as int) =~= self@);
        }
        out
    }

    /// The entry at position `i`, as borrowed name and value.
    pub fn get_index(&self, i: usize) -> (r: (&Vec<u8>, &Vec<u8>))
        requires
            i < self@.len(),
        ensures
            r.0@ == self@[i as int].0,
            r.1@ == self@[i as int].1,
    {
        let e = &self.entries[i];
        (&e.name, &e.value)
    }

    /// Replace all values of the name by the given one, placed at the end.
    pub fn insert(&mut self, name: &[u8], value: Vec<u8>)
        requires
            old(self).wf(),
        ensures
            final(self).wf(),
            final(self)@ == old(self)@.filter(
                |p: (Seq<u8>, Seq<u8>)| !has_name(p, lower_seq(name@)),
            ).push((lower_seq(name@), value@)),
    {
        let _ = self.remove(name);
        self.append(name, value);
    }

    /// Drop every entry of the (lowered) name; the first dropped value, if
    /// any, is returned.
    #[verifier::loop_isolation(false)]
    #[verifier::rlimit(30)]
    pub fn remove(&mut self, name: &[u8]) -> (r: Option<Vec<u8>>)
        requires
            old(self).wf(),
        ensures
            final(self).wf(),
            final(self)@ == old(self)@.filter(
                |p: (Seq<u8>, Seq<u8>)| !has_name(p, lower_seq(name@)),
            ),
            match r {
                Some(v) => old(self).spec_contains(lower_seq(name@)) && v@ == first_value(
                    old(self)@,
                    lower_seq(name@),
                ),
                None => !old(self).spec_contains(lower_seq(name@)),
            },
    {
        let lname = lower_vec(name);
        let ghost pred = |p: (Seq<u8>, Seq<u8>)| !has_name(p, lower_seq(name@));
        let mut kept: Vec<HeaderEntry> = Vec::new();
        let mut first: Option<Vec<u8>> = None;
        let n = self.entries.len();
        let mut i: usize = 0;
        while i < n
            invariant
                i <= old(self)@.len(),
                n == old(self)@.len(),
                self@ == old(self)@,
                self.entries@.len() == n,
                lname@ == lower_seq(name@),
                entries_view(kept@) == old(self)@.take(i as int).filter(pred),
                forall|k: int|
                    0 <= k < kept@.len() ==> lower_seq(#[trigger] kept@[k].name@) == kept@[k].name@,
                match first {
                    Some(v) => exists|j: int|
                        0 <= j < i && (#[trigger] old(self)@[j]).0 == lname@ && v@ == first_value(
                            old(self)@,
                            lname@,
                        ),
                    None => forall|j: int| 0 <= j < i ==> (#[trigger] old(self)@[j]).0 != lname@,
                },
            decreases n - i,
        {
            let ghost pre_kept = kept@;
            let matched = bytes_eq(self.entries[i].name.as_slice(), lname.as_slice());
            if matched {
                if first.is_none() {
                    proof {
                        lemma_first_value(old(self)@, lname@, i as int);
                    }
                    first = Some(clone_vec_u8(&self.entries[i].value));
                }
                proof {
                    reveal(Seq::filter);
                    assert(old(self)@.take(i as int + 1).drop_last() =~= old(self)@.take(i as int));
                    assert(!pred(old(self)@[i as int]));
                    assert(old(self)@.take(i as int + 1).filter(pred) == old(self)@.take(
                        i as int,
                    ).filter(pred));
                }
            } else {
                let e = HeaderEntry {
                    name: clone_vec_u8(&self.entries[i].name),
                    value: clone_vec_u8(&self.entries[i].value),
                };
                kept.push(e);
                proof {
                    reveal(Seq::filter);
                    assert(old(self)@.take(i as int + 1).drop_last() =~= old(self)@.take(i as int));
                    assert(pred(old(self)@[i as int]));
                    assert(old(self)@.take(i as int + 1).filter(pred) == old(self)@.take(
                        i as int,
                    ).filter(pred).push(old(self)@[i as int]));
                    lemma_entries_view_push(pre_kept, kept@[pre_kept.len() as int]);
                    assert(kept@ == pre_kept.push(kept@[pre_kept.len() as int]));
                    assert(entry_view(kept@[pre_kept.len() as int]) == old(self)@[i as int]);
                    assert(entries_view(kept@) == old(self)@.take(i as int + 1).filter(pred));
                }
            }
            i = i + 1;
        }
        proof {
            assert(old(self)@.take(n as int) =~= old(self)@);
        }
        self.entries = kept;
        first
    }
}

/// The value of the first pair carrying `name`.
pub open spec fn first_value(view: Seq<(Seq<u8>, Seq<u8>)>, name: Seq<u8>) -> Seq<u8> {
    view[first_index(view, name)].1
}

/// The index of the first pair carrying `name`.
pub open spec fn first_index(view: Seq<(Seq<u8>, Seq<u8>)>, name: Seq<u8>) -> int {
    choose|i: int|
        0 <= i < view.len() && (#[trigger] view[i]).0 == name && forall|j: int|
            0 <= j < i ==> (#[trigger] view[j]).0 != name
}

/// When `i` is the first index carrying `name`, `first_value` picks `view[i].1`.
proof fn lemma_first_value(view: Seq<(Seq<u8>, Seq<u8>)>, name: Seq<u8>, i: int)
    requires
        0 <= i < view.len(),
        view[i].0 == name,
        forall|j: int| 0 <= j < i ==> (#[trigger] view[j]).0 != name,
    ensures
        first_index(view, name) == i,
        first_value(view, name) == view[i].1,
{
    let k = first_index(view, name);
    assert(0 <= k < view.len() && view[k].0 == name && forall|j: int|
        0 <= j < k ==> (#[trigger] view[j]).0 != name) by {
        assert(0 <= i < view.len() && (#[trigger] view[i]).0 == name && forall|j: int|
            0 <= j < i ==> (#[trigger] view[j]).0 != name);
    }
    if k < i {
        assert(view[k].0 != name);
    }
    if i < k {
        assert(view[i].0 != name);
    }
}

/// Lowering a byte sequence twice is the same as lowering it once.
proof fn lower_seq_idempotent(s: Seq<u8>)
    ensures
        lower_seq(lower_seq(s)) == lower_seq(s),
{
    assert(lower_seq(lower_seq(s)) =~= lower_seq(s));
}

/// Copy a byte vector.
#[verifier::loop_isolation(false)]
pub(crate) fn clone_vec_u8(v: &Vec<u8>) -> (r: Vec<u8>)
    ensures
        r@ == v@,
{
    let mut out: Vec<u8> = Vec::with_capacity(v.len());
    let mut i: usize = 0;
    while i < v.len()
        invariant
            i <= v@.len(),
            out@ == v@.take(i as int),
        decreases v@.len() - i,
    {
        out.push(v[i]);
        proof {
            assert(out@ =~= v@.take(i as int + 1));
        }
        i = i + 1;
    }
    proof {
        assert(v@.take(v@.len() as int) =~= v@);
    }
    out
}

/// As bytes: the `Connection` header name.
pub open spec fn spec_connection() -> Seq<u8> {
    seq![99u8, 111u8, 110u8, 110u8, 101u8, 99u8, 116u8, 105u8, 111u8, 110u8]
}

/// As bytes: the `Connection` header name.
pub fn connection() -> (r: Vec<u8>)
    ensures
        r@ == spec_connection(),
{
    let v: Vec<u8> = vec![99u8, 111u8, 110u8, 110u8, 101u8, 99u8, 116u8, 105u8, 111u8, 110u8];
    proof {
        assert(v@ =~= spec_connection());
    }
    v
}

/// As bytes: the `Content-Length` header name.
pub open spec fn spec_content_length() -> Seq<u8> {
    seq![99u8, 111u8, 110u8, 116u8, 101u8, 110u8, 116u8, 45u8, 108u8, 101u8, 110u8, 103u8, 116u8, 104u8]
}

/// As bytes: the `Content-Length` header name.
pub fn content_length() -> (r: Vec<u8>)
    ensures
        r@ == spec_content_length(),
{
    let v: Vec<u8> = vec![99u8, 111u8, 110u8, 116u8, 101u8, 110u8, 116u8, 45u8, 108u8, 101u8, 110u8, 103u8, 116u8, 104u8];
    proof {
        assert(v@ =~= spec_content_length());
    }
    v
}

/// As bytes: the `Transfer-Encoding` header name.
pub open spec fn spec_transfer_encoding() -> Seq<u8> {
    seq![116u8, 114u8, 97u8, 110u8, 115u8, 102u8, 101u8, 114u8, 45u8, 101u8, 110u8, 99u8, 111u8, 100u8, 105u8, 110u8, 103u8]
}

/// As bytes: the `Transfer-Encoding` header name.
pub fn transfer_encoding() -> (r: Vec<u8>)
    ensures
        r@ == spec_transfer_encoding(),
{
    let v: Vec<u8> = vec![116u8, 114u8, 97u8, 110u8, 115u8, 102u8, 101u8, 114u8, 45u8, 101u8, 110u8, 99u8, 111u8, 100u8, 105u8, 110u8, 103u8];
    proof {
        assert(v@ =~= spec_transfer_encoding());
    }
    v
}

/// As bytes: the `Date` header name.
pub open spec fn spec_date_header() -> Seq<u8> {
    seq![100u8, 97u8, 116u8, 101u8]
}

/// As bytes: the `Date` header name.
pub fn date_header() -> (r: Vec<u8>)
    ensures
        r@ == spec_date_header(),
{
    let v: Vec<u8> = vec![100u8, 97u8, 116u8, 101u8];
    proof {
        assert(v@ =~= spec_date_header());
    }
    v
}

/// As bytes: the `Expect` header name.
pub open spec fn spec_expect_header() -> Seq<u8> {
    seq![101u8, 120u8, 112u8, 101u8, 99u8, 116u8]
}

/// As bytes: the `Expect` header name.
pub fn expect_header() -> (r: Vec<u8>)
    ensures
        r@ == spec_expect_header(),
{
    let v: Vec<u8> = vec![101u8, 120u8, 112u8, 101u8, 99u8, 116u8];
    proof {
        assert(v@ =~= spec_expect_header());
    }
    v
}

/// As bytes: the `Upgrade` header name.
pub open spec fn spec_upgrade_header() -> Seq<u8> {
    seq![117u8, 112u8, 103u8, 114u8, 97u8, 100u8, 101u8]
}

/// As bytes: the `Upgrade` header name.
pub fn upgrade_header() -> (r: Vec<u8>)
    ensures
        r@ == spec_upgrade_header(),
{
    let v: Vec<u8> = vec![117u8, 112u8, 103u8, 114u8, 97u8, 100u8, 101u8];
    proof {
        assert(v@ =~= spec_upgrade_header());
    }
    v
}

/// As bytes: the `Content-Type` header name.
pub open spec fn spec_content_type() -> Seq<u8> {
    seq![99u8, 111u8, 110u8, 116u8, 101u8, 110u8, 116u8, 45u8, 116u8, 121u8, 112u8, 101u8]
}

/// As bytes: the `Content-Type` header name.
pub fn content_type() -> (r: Vec<u8>)
    ensures
        r@ == spec_content_type(),
{
    let v: Vec<u8> = vec![99u8, 111u8, 110u8, 116u8, 101u8, 110u8, 116u8, 45u8, 116u8, 121u8, 112u8, 101u8];
    proof {
        assert(v@ =~= spec_content_type());
    }
    v
}

/// As bytes: the `close` connection option.
pub open spec fn spec_close_value() -> Seq<u8> {
    seq![99u8, 108u8, 111u8, 115u8, 101u8]
}

/// As bytes: the `close` connection option.
pub fn close_value() -> (r: Vec<u8>)
    ensures
        r@ == spec_close_value(),
{
    let v: Vec<u8> = vec![99u8, 108u8, 111u8, 115u8, 101u8];
    proof {
        assert(v@ =~= spec_close_value());
    }
    v
}

/// As bytes: the `keep-alive` connection option.
pub open spec fn spec_keep_alive_value() -> Seq<u8> {
    seq![107u8, 101u8, 101u8, 112u8, 45u8, 97u8, 108u8, 105u8, 118u8, 101u8]
}

/// As bytes: the `keep-alive` connection option.
pub fn keep_alive_value() -> (r: Vec<u8>)
    ensures
        r@ == spec_keep_alive_value(),
{
    let v: Vec<u8> = vec![107u8, 101u8, 101u8, 112u8, 45u8, 97u8, 108u8, 105u8, 118u8, 101u8];
    proof {
        assert(v@ =~= spec_keep_alive_value());
    }
    v
}

/// As bytes: the `upgrade` connection option.
pub open spec fn spec_upgrade_value() -> Seq<u8> {
    seq![117u8, 112u8, 103u8, 114u8, 97u8, 100u8, 101u8]
}

/// As bytes: the `upgrade` connection option.
pub fn upgrade_value() -> (r: Vec<u8>)
    ensures
        r@ == spec_upgrade_value(),
{
    let v: Vec<u8> = vec![117u8, 112u8, 103u8, 114u8, 97u8, 100u8, 101u8];
    proof {
        assert(v@ =~= spec_upgrade_value());
    }
    v
}

/// As bytes: the `chunked` transfer coding.
pub open spec fn spec_chunked_value() -> Seq<u8> {
    seq![99u8, 104u8, 117u8, 110u8, 107u8, 101u8, 100u8]
}

/// As bytes: the `chunked` transfer coding.
pub fn chunked_value() -> (r: Vec<u8>)
    ensures
        r@ == spec_chunked_value(),
{
    let v: Vec<u8> = vec![99u8, 104u8, 117u8, 110u8, 107u8, 101u8, 100u8];
    proof {
        assert(v@ =~= spec_chunked_value());
    }
    v
}

/// As bytes: the `100-continue` expectation.
pub open spec fn spec_continue_value() -> Seq<u8> {
    seq![49u8, 48u8, 48u8, 45u8, 99u8, 111u8, 110u8, 116u8, 105u8, 110u8, 117u8, 101u8]
}

/// As bytes: the `100-continue` expectation.
pub fn continue_value() -> (r: Vec<u8>)
    ensures
        r@ == spec_continue_value(),
{
    let v: Vec<u8> = vec![49u8, 48u8, 48u8, 45u8, 99u8, 111u8, 110u8, 116u8, 105u8, 110u8, 117u8, 101u8];
    proof {
        assert(v@ =~= spec_continue_value());
    }
    v
}

/// As bytes: the plain-text content type.
pub open spec fn spec_text_plain_value() -> Seq<u8> {
    seq![116u8, 101u8, 120u8, 116u8, 47u8, 112u8, 108u8, 97u8, 105u8, 110u8, 59u8, 32u8, 99u8, 104u8, 97u8, 114u8, 115u8, 101u8, 116u8, 61u8, 117u8, 116u8, 102u8, 45u8, 56u8]
}

/// As bytes: the plain-text content type.
pub fn text_plain_value() -> (r: Vec<u8>)
    ensures
        r@ == spec_text_plain_value(),
{
    let v: Vec<u8> = vec![116u8, 101u8, 120u8, 116u8, 47u8, 112u8, 108u8, 97u8, 105u8, 110u8, 59u8, 32u8, 99u8, 104u8, 97u8, 114u8, 115u8, 101u8, 116u8, 61u8, 117u8, 116u8, 102u8, 45u8, 56u8];
    proof {
        assert(v@ =~= spec_text_plain_value());
    }
    v
}

/// As bytes: the JSON content type.
pub open spec fn spec_json_value() -> Seq<u8> {
    seq![97u8, 112u8, 112u8, 108u8, 105u8, 99u8, 97u8, 116u8, 105u8, 111u8, 110u8, 47u8, 106u8, 115u8, 111u8, 110u8]
}

/// As bytes: the JSON content type.
pub fn json_value() -> (r: Vec<u8>)
    ensures
        r@ == spec_json_value(),
{
    let v: Vec<u8> = vec![97u8, 112u8, 112u8, 108u8, 105u8, 99u8, 97u8, 116u8, 105u8, 111u8, 110u8, 47u8, 106u8, 115u8, 111u8, 110u8];
    proof {
        assert(v@ =~= spec_json_value());
    }
    v
}

/// Every one of the well-known names and values above is already in lower
/// case.
pub proof fn lemma_known_names_lowercase()
    ensures
        lower_seq(spec_connection()) == spec_connection(),
        lower_seq(spec_content_length()) == spec_content_length(),
        lower_seq(spec_transfer_encoding()) == spec_transfer_encoding(),
        lower_seq(spec_date_header()) == spec_date_header(),
        lower_seq(spec_expect_header()) == spec_expect_header(),
        lower_seq(spec_upgrade_header()) == spec_upgrade_header(),
        lower_seq(spec_content_type()) == spec_content_type(),
        lower_seq(spec_close_value()) == spec_close_value(),
        lower_seq(spec_keep_alive_value()) == spec_keep_alive_value(),
        lower_seq(spec_upgrade_value()) == spec_upgrade_value(),
        lower_seq(spec_chunked_value()) == spec_chunked_value(),
        lower_seq(spec_continue_value()) == spec_continue_value(),
        lower_seq(spec_text_plain_value()) == spec_text_plain_value(),
        lower_seq(spec_json_value()) == spec_json_value(),
{
    assert(lower_seq(spec_connection()) =~= spec_connection());
    assert(lower_seq(spec_content_length()) =~= spec_content_length());
    assert(lower_seq(spec_transfer_encoding()) =~= spec_transfer_encoding());
    assert(lower_seq(spec_date_header()) =~= spec_date_header());
    assert(lower_seq(spec_expect_header()) =~= spec_expect_header());
    assert(lower_seq(spec_upgrade_header()) =~= spec_upgrade_header());
    assert(lower_seq(spec_content_type()) =~= spec_content_type());
    assert(lower_seq(spec_close_value()) =~= spec_close_value());
    assert(lower_seq(spec_keep_alive_value()) =~= spec_keep_alive_value());
    assert(lower_seq(spec_upgrade_value()) =~= spec_upgrade_value());
    assert(lower_seq(spec_chunked_value()) =~= spec_chunked_value());
    assert(lower_seq(spec_continue_value()) =~= spec_continue_value());
    assert(lower_seq(spec_text_plain_value()) =~= spec_text_plain_value());
    assert(lower_seq(spec_json_value()) =~= spec_json_value());
}

} // verus!
