//! Conflict-free merge of a note's content.
//!
//! A document is the set of updates folded into it, kept as a strictly
//! increasing sequence under the lexicographic order on bytes. Merging an
//! update inserts it at its place, so the result does not depend on the order
//! in which updates arrive, and merging an update twice changes nothing.
use vstd::prelude::*;

verus! {

/// Strict lexicographic order on byte strings (a proper prefix comes first).
pub open spec fn lex_lt(a: Seq<u8>, b: Seq<u8>) -> bool
    decreases a.len(),
{
    if a.len() == 0 {
        b.len() > 0
    } else if b.len() == 0 {
        false
    } else if a[0] != b[0] {
        a[0] < b[0]
    } else {
        lex_lt(a.drop_first(), b.drop_first())
    }
}

/// Every update comes strictly before the ones after it.
pub open spec fn strictly_sorted(s: Seq<Seq<u8>>) -> bool {
    forall|i: int, j: int| 0 <= i < j < s.len() ==> lex_lt(#[trigger] s[i], #[trigger] s[j])
}

/// The state reached by merging `u` into the state `s`: `u` inserted at its
/// place in the order, unless it is already there.
pub open spec fn merged(s: Seq<Seq<u8>>, u: Seq<u8>) -> Seq<Seq<u8>>
    decreases s.len(),
{
    if s.len() == 0 {
        seq![u]
    } else if s[0] == u {
        s
    } else if lex_lt(u, s[0]) {
        seq![u] + s
    } else {
        seq![s[0]] + merged(s.drop_first(), u)
    }
}

/// The state reached by merging the updates `ds` into `s`, in their order.
pub open spec fn folded(s: Seq<Seq<u8>>, ds: Seq<Seq<u8>>) -> Seq<Seq<u8>>
    decreases ds.len(),
{
    if ds.len() == 0 {
        s
    } else {
        merged(folded(s, ds.drop_last()), ds.last())
    }
}

pub proof fn lemma_lex_irreflexive(a: Seq<u8>)
    ensures
        !lex_lt(a, a),
    decreases a.len(),
{
    if a.len() > 0 {
        lemma_lex_irreflexive(a.drop_first());
    }
}

pub proof fn lemma_lex_transitive(a: Seq<u8>, b: Seq<u8>, c: Seq<u8>)
    requires
        lex_lt(a, b),
        lex_lt(b, c),
    ensures
        lex_lt(a, c),
    decreases a.len(),
{
    if a.len() > 0 && b.len() > 0 && c.len() > 0 && a[0] == b[0] && b[0] == c[0] {
        lemma_lex_transitive(a.drop_first(), b.drop_first(), c.drop_first());
    }
}

pub proof fn lemma_lex_total(a: Seq<u8>, b: Seq<u8>)
    requires
        a != b,
    ensures
        lex_lt(a, b) || lex_lt(b, a),
    decreases a.len(),
{
    if a.len() == 0 || b.len() == 0 {
        if a.len() == 0 && b.len() == 0 {
            assert(a =~= b);
        }
    } else if a[0] == b[0] {
        if a.drop_first() == b.drop_first() {
            assert(a =~= seq![a[0]] + a.drop_first());
            assert(b =~= seq![b[0]] + b.drop_first());
        }
        lemma_lex_total(a.drop_first(), b.drop_first());
    }
}

pub proof fn lemma_lex_asymmetric(a: Seq<u8>, b: Seq<u8>)
    requires
        lex_lt(a, b),
    ensures
        !lex_lt(b, a),
{
    if lex_lt(b, a) {
        lemma_lex_transitive(a, b, a);
        lemma_lex_irreflexive(a);
    }
}

/// Merging keeps a state sorted, and adds exactly the update to its set.
pub proof fn lemma_merged(s: Seq<Seq<u8>>, u: Seq<u8>)
    requires
        strictly_sorted(s),
    ensures
        strictly_sorted(merged(s, u)),
        merged(s, u).to_set() == s.to_set().insert(u),
    decreases s.len(),
{
    if s.len() == 0 {
        assert(seq![u].to_set() =~= Set::empty().insert(u)) by {
            assert(seq![u][0] == u);
        }
        assert(s.to_set() =~= Set::empty());
    } else if s[0] == u {
        assert(s.to_set() =~= s.to_set().insert(u)) by {
            assert(s.contains(u));
        }
    } else if lex_lt(u, s[0]) {
        let r = seq![u] + s;
        assert forall|i: int, j: int| 0 <= i < j < r.len() implies lex_lt(r[i], r[j]) by {
            if i == 0 && j > 1 {
                lemma_lex_transitive(u, s[0], s[j - 1]);
            }
        }
        assert(r.to_set() =~= s.to_set().insert(u)) by {
            assert forall|x: Seq<u8>| r.contains(x) <==> s.to_set().insert(u).contains(x) by {
                if s.contains(x) {
                    let k = choose|k: int| 0 <= k < s.len() && s[k] == x;
                    assert(r[k + 1] == x);
                }
                if x == u {
                    assert(r[0] == u);
                }
            }
        }
    } else {
        let t = s.drop_first();
        assert(strictly_sorted(t)) by {
            assert forall|i: int, j: int| 0 <= i < j < t.len() implies lex_lt(t[i], t[j]) by {
                assert(t[i] == s[i + 1] && t[j] == s[j + 1]);
            }
        }
        lemma_merged(t, u);
        lemma_lex_total(s[0], u);
        let m = merged(t, u);
        let r = seq![s[0]] + m;
        assert(s =~= seq![s[0]] + t);
        assert forall|x: Seq<u8>| r.contains(x) <==> s.to_set().insert(u).contains(x) by {
            if m.contains(x) {
                let k = choose|k: int| 0 <= k < m.len() && m[k] == x;
                assert(r[k + 1] == x);
                assert(m.to_set().contains(x));
            }
            if t.contains(x) {
                assert(t.to_set().contains(x));
                assert(m.to_set().contains(x));
                assert(m.contains(x));
                let k = choose|k: int| 0 <= k < m.len() && m[k] == x;
                assert(r[k + 1] == x);
            }
            if x == u {
                assert(m.to_set().contains(u));
                assert(m.contains(u));
                let k = choose|k: int| 0 <= k < m.len() && m[k] == u;
                assert(r[k + 1] == u);
            }
            if x == s[0] {
                assert(r[0] == x);
            }
            if r.contains(x) {
                let k = choose|k: int| 0 <= k < r.len() && r[k] == x;
                if k > 0 {
                    assert(m[k - 1] == x);
                    assert(m.to_set().contains(x));
                    if x != u {
                        assert(t.to_set().contains(x));
                        let i = choose|i: int| 0 <= i < t.len() && t[i] == x;
                        assert(s[i + 1] == x);
                    }
                } else {
                    assert(s[0] == x);
                }
            }
        }
        assert(r.to_set() =~= s.to_set().insert(u));
        assert forall|i: int, j: int| 0 <= i < j < r.len() implies lex_lt(r[i], r[j]) by {
            if i == 0 {
                let x = r[j];
                assert(m[j - 1] == x);
                assert(m.to_set().contains(x));
                if x != u {
                    assert(t.to_set().contains(x));
                    let k = choose|k: int| 0 <= k < t.len() && t[k] == x;
                    assert(s[k + 1] == x);
                }
            } else {
                assert(r[i] == m[i - 1] && r[j] == m[j - 1]);
            }
        }
    }
}

/// Two sorted states that hold the same updates are the same state.
pub proof fn lemma_sorted_unique(a: Seq<Seq<u8>>, b: Seq<Seq<u8>>)
    requires
        strictly_sorted(a),
        strictly_sorted(b),
        a.to_set() == b.to_set(),
    ensures
        a == b,
    decreases a.len(),
{
    if a.len() == 0 {
        if b.len() > 0 {
            assert(b.to_set().contains(b[0]));
        }
        assert(a =~= b);
    } else {
        assert(a.to_set().contains(a[0]));
        assert(b.contains(a[0]));
        assert(b.len() > 0);
        assert(b.to_set().contains(b[0]));
        assert(a.contains(b[0]));
        let ka = choose|k: int| 0 <= k < a.len() && a[k] == b[0];
        let kb = choose|k: int| 0 <= k < b.len() && b[k] == a[0];
        if ka > 0 && kb > 0 {
            lemma_lex_asymmetric(a[0], b[0]);
        } else if ka > 0 {
            lemma_lex_irreflexive(a[0]);
        } else if kb > 0 {
            lemma_lex_irreflexive(b[0]);
        }
        assert(a[0] == b[0]);
        let ta = a.drop_first();
        let tb = b.drop_first();
        assert(strictly_sorted(ta)) by {
            assert forall|i: int, j: int| 0 <= i < j < ta.len() implies lex_lt(ta[i], ta[j]) by {
                assert(ta[i] == a[i + 1] && ta[j] == a[j + 1]);
            }
        }
        assert(strictly_sorted(tb)) by {
            assert forall|i: int, j: int| 0 <= i < j < tb.len() implies lex_lt(tb[i], tb[j]) by {
                assert(tb[i] == b[i + 1] && tb[j] == b[j + 1]);
            }
        }
        assert forall|x: Seq<u8>| ta.contains(x) implies tb.contains(x) by {
            let i = choose|i: int| 0 <= i < ta.len() && ta[i] == x;
            assert(a[i + 1] == x);
            assert(a.to_set().contains(x));
            assert(b.contains(x));
            let j = choose|j: int| 0 <= j < b.len() && b[j] == x;
            if j == 0 {
                assert(lex_lt(a[0], a[i + 1]));
                lemma_lex_irreflexive(x);
            } else {
                assert(tb[j - 1] == x);
            }
        }
        assert forall|x: Seq<u8>| tb.contains(x) implies ta.contains(x) by {
            let i = choose|i: int| 0 <= i < tb.len() && tb[i] == x;
            assert(b[i + 1] == x);
            assert(b.to_set().contains(x));
            assert(a.contains(x));
            let j = choose|j: int| 0 <= j < a.len() && a[j] == x;
            if j == 0 {
                assert(lex_lt(b[0], b[i + 1]));
                lemma_lex_irreflexive(x);
            } else {
                assert(ta[j - 1] == x);
            }
        }
        assert(ta.to_set() =~= tb.to_set());
        lemma_sorted_unique(ta, tb);
        assert(a =~= seq![a[0]] + ta);
        assert(b =~= seq![b[0]] + tb);
    }
}

/// Folding keeps a state sorted, and adds exactly the folded updates to its set.
pub proof fn lemma_folded(s: Seq<Seq<u8>>, ds: Seq<Seq<u8>>)
    requires
        strictly_sorted(s),
    ensures
        strictly_sorted(folded(s, ds)),
        folded(s, ds).to_set() == s.to_set() + ds.to_set(),
    decreases ds.len(),
{
    if ds.len() == 0 {
        assert(ds.to_set() =~= Set::empty());
        assert(s.to_set() + ds.to_set() =~= s.to_set());
    } else {
        let init = ds.drop_last();
        lemma_folded(s, init);
        lemma_merged(folded(s, init), ds.last());
        assert(ds =~= init.push(ds.last()));
        assert forall|x: Seq<u8>| ds.contains(x) <==> init.contains(x) || x == ds.last() by {
            if ds.contains(x) {
                let k = choose|k: int| 0 <= k < ds.len() && ds[k] == x;
                if k < ds.len() - 1 {
                    assert(init[k] == x);
                }
            }
            if init.contains(x) {
                let k = choose|k: int| 0 <= k < init.len() && init[k] == x;
                assert(ds[k] == x);
            }
            if x == ds.last() {
                assert(ds[ds.len() - 1] == x);
            }
        }
        assert(folded(s, ds).to_set() =~= s.to_set() + ds.to_set());
    }
}

/// Merging is commutative: two updates merged in either order give the same
/// state.
pub proof fn lemma_merge_commutes(s: Seq<Seq<u8>>, d1: Seq<u8>, d2: Seq<u8>)
    requires
        strictly_sorted(s),
    ensures
        merged(merged(s, d1), d2) == merged(merged(s, d2), d1),
{
    lemma_merged(s, d1);
    lemma_merged(s, d2);
    lemma_merged(merged(s, d1), d2);
    lemma_merged(merged(s, d2), d1);
    assert(s.to_set().insert(d1).insert(d2) =~= s.to_set().insert(d2).insert(d1));
    lemma_sorted_unique(merged(merged(s, d1), d2), merged(merged(s, d2), d1));
}

/// Merging is idempotent: an update merged a second time changes nothing.
pub proof fn lemma_merge_idempotent(s: Seq<Seq<u8>>, d: Seq<u8>)
    requires
        strictly_sorted(s),
    ensures
        merged(merged(s, d), d) == merged(s, d),
{
    lemma_merged(s, d);
    lemma_merged(merged(s, d), d);
    assert(s.to_set().insert(d).insert(d) =~= s.to_set().insert(d));
    lemma_sorted_unique(merged(merged(s, d), d), merged(s, d));
}

/// Convergence: folding the same deltas into a state in any two orders (or
/// with repeats) gives the same state.
pub proof fn lemma_fold_converges(s: Seq<Seq<u8>>, ds1: Seq<Seq<u8>>, ds2: Seq<Seq<u8>>)
    requires
        strictly_sorted(s),
        ds1.to_set() == ds2.to_set(),
    ensures
        folded(s, ds1) == folded(s, ds2),
{
    lemma_folded(s, ds1);
    lemma_folded(s, ds2);
    lemma_sorted_unique(folded(s, ds1), folded(s, ds2));
}

/// `lex_lt` after a common prefix of length `i` is decided by what follows it.
proof fn lemma_lex_skip(a: Seq<u8>, b: Seq<u8>, i: int)
    requires
        0 <= i <= a.len(),
        i <= b.len(),
        forall|k: int| 0 <= k < i ==> a[k] == b[k],
    ensures
        lex_lt(a, b) == lex_lt(a.skip(i), b.skip(i)),
    decreases i,
{
    if i > 0 {
        lemma_lex_skip(a.drop_first(), b.drop_first(), i - 1);
        assert(a.drop_first().skip(i - 1) =~= a.skip(i));
        assert(b.drop_first().skip(i - 1) =~= b.skip(i));
    } else {
        assert(a.skip(0) =~= a);
        assert(b.skip(0) =~= b);
    }
}

/// Where `u` goes in `s`: after the updates that come before it.
proof fn lemma_merged_at(s: Seq<Seq<u8>>, u: Seq<u8>, p: int)
    requires
        0 <= p <= s.len(),
        forall|k: int| 0 <= k < p ==> lex_lt(#[trigger] s[k], u),
        p < s.len() ==> !lex_lt(s[p], u),
    ensures
        merged(s, u) == (if p < s.len() && s[p] == u {
            s
        } else {
            s.take(p) + seq![u] + s.skip(p)
        }),
    decreases p,
{
    if p == 0 {
        assert(s.take(0) + seq![u] + s.skip(0) =~= seq![u] + s);
        if s.len() > 0 && s[0] != u {
            lemma_lex_total(s[0], u);
        }
    } else {
        let t = s.drop_first();
        lemma_lex_irreflexive(u);
        lemma_lex_asymmetric(s[0], u);
        assert forall|k: int| 0 <= k < p - 1 implies lex_lt(#[trigger] t[k], u) by {
            assert(t[k] == s[k + 1]);
        }
        lemma_merged_at(t, u, p - 1);
        assert(s =~= seq![s[0]] + t);
        assert(seq![s[0]] + (t.take(p - 1) + seq![u] + t.skip(p - 1)) =~= s.take(p) + seq![u]
            + s.skip(p));
    }
}

/// Length-prefixed frame of one update: its length as eight big-endian bytes,
/// then its bytes.
pub open spec fn frame(u: Seq<u8>) -> Seq<u8> {
    be_u64(u.len() as u64) + u
}

/// The eight big-endian bytes of `n`.
pub open spec fn be_u64(n: u64) -> Seq<u8> {
    seq![
        ((n >> 56u64) & 0xffu64) as u8,
        ((n >> 48u64) & 0xffu64) as u8,
        ((n >> 40u64) & 0xffu64) as u8,
        ((n >> 32u64) & 0xffu64) as u8,
        ((n >> 24u64) & 0xffu64) as u8,
        ((n >> 16u64) & 0xffu64) as u8,
        ((n >> 8u64) & 0xffu64) as u8,
        (n & 0xffu64) as u8,
    ]
}

/// The bytes of a state: the frames of its updates, in order.
pub open spec fn encoded(s: Seq<Seq<u8>>) -> Seq<u8>
    decreases s.len(),
{
    if s.len() == 0 {
        Seq::empty()
    } else {
        encoded(s.drop_last()) + frame(s.last())
    }
}

/// The state of a note created with `content`: that content as its one
/// update, or nothing when it is empty.
pub open spec fn initial_state(content: Seq<u8>) -> Seq<Seq<u8>> {
    if content.len() == 0 {
        Seq::empty()
    } else {
        seq![content]
    }
}

/// Whether `a` comes strictly before `b` in the lexicographic order.
pub fn bytes_lt(a: &[u8], b: &[u8]) -> (r: bool)
    ensures
        r == lex_lt(a@, b@),
{
    let mut i: usize = 0;
    while i < a.len() && i < b.len() && a[i] == b[i]
        invariant
            i <= a@.len(),
            i <= b@.len(),
            forall|k: int| 0 <= k < i ==> a@[k] == b@[k],
        decreases a.len() - i,
    {
        i = i + 1;
    }
    proof {
        lemma_lex_skip(a@, b@, i as int);
    }
    if i == a.len() {
        i < b.len()
    } else if i == b.len() {
        false
    } else {
        a[i] < b[i]
    }
}

/// A fresh vector holding the bytes of `b`.
pub fn copy_bytes(b: &[u8]) -> (r: Vec<u8>)
    ensures
        r@ == b@,
{
    let mut r: Vec<u8> = Vec::new();
    let mut i: usize = 0;
    while i < b.len()
        invariant
            i <= b@.len(),
            r@ == b@.take(i as int),
        decreases b.len() - i,
    {
        r.push(b[i]);
        i = i + 1;
        assert(r@ =~= b@.take(i as int));
    }
    assert(b@.take(b@.len() as int) =~= b@);
    r
}

/// The byte strings held by a sequence of vectors.
pub open spec fn byte_views(vs: Seq<Vec<u8>>) -> Seq<Seq<u8>> {
    vs.map_values(|v: Vec<u8>| v@)
}

proof fn lemma_byte_views_push(vs: Seq<Vec<u8>>, v: Vec<u8>)
    ensures
        byte_views(vs.push(v)) == byte_views(vs).push(v@),
{
    assert(byte_views(vs.push(v)) =~= byte_views(vs).push(v@));
}

/// The content of a note: the updates folded into it, strictly sorted.
pub struct Document {
    updates: Vec<Vec<u8>>,
}

impl View for Document {
    type V = Seq<Seq<u8>>;

    closed spec fn view(&self) -> Seq<Seq<u8>> {
        byte_views(self.updates@)
    }
}

impl Document {
    /// A document is well formed when its updates are strictly sorted.
    pub open spec fn wf(&self) -> bool {
        strictly_sorted(self@)
    }

    /// The empty document.
    pub fn new() -> (r: Document)
        ensures
            r.wf(),
            r@ == Seq::<Seq<u8>>::empty(),
    {
        let r = Document { updates: Vec::new() };
        assert(r@ =~= Seq::<Seq<u8>>::empty());
        r
    }

    /// The document of a note created with `content`.
    pub fn from_content(content: &[u8]) -> (r: Document)
        ensures
            r.wf(),
            r@ == initial_state(content@),
    {
        let mut updates: Vec<Vec<u8>> = Vec::new();
        if content.len() > 0 {
            let c = copy_bytes(content);
            proof {
                lemma_byte_views_push(updates@, c);
            }
            updates.push(c);
        }
        let r = Document { updates };
        assert(r@ =~= initial_state(content@));
        r
    }

    /// Number of updates folded into the document.
    pub fn len(&self) -> (r: usize)
        ensures
            r == self@.len(),
    {
        self.updates.len()
    }

    /// A copy of the document.
    pub fn duplicate(&self) -> (r: Document)
        ensures
            r@ == self@,
    {
        let mut updates: Vec<Vec<u8>> = Vec::new();
        let mut i: usize = 0;
        while i < self.updates.len()
            invariant
                i <= self@.len(),
                self@.len() == self.updates@.len(),
                byte_views(updates@) == self@.take(i as int),
            decreases self.updates.len() - i,
        {
            let c = copy_bytes(self.updates[i].as_slice());
            assert(c@ == self@[i as int]);
            proof {
                lemma_byte_views_push(updates@, c);
            }
            updates.push(c);
            i = i + 1;
            assert(byte_views(updates@) =~= self@.take(i as int));
        }
        let r = Document { updates };
        assert(r@ =~= self@);
        r
    }

    /// The document with `update` merged into it.
    pub fn merge(&self, update: &[u8]) -> (r: Document)
        requires
            self.wf(),
        ensures
            r.wf(),
            r@ == merged(self@, update@),
    {
        let n = self.updates.len();
        let mut p: usize = 0;
        while p < n && bytes_lt(self.updates[p].as_slice(), update)
            invariant
                p <= n,
                n == self@.len(),
                forall|k: int| 0 <= k < p ==> lex_lt(#[trigger] self@[k], update@),
            decreases n - p,
        {
            p = p + 1;
        }
        proof {
            lemma_merged_at(self@, update@, p as int);
            lemma_merged(self@, update@);
        }
        if p < n && !bytes_lt(update, self.updates[p].as_slice()) {
            proof {
                if self@[p as int] != update@ {
                    lemma_lex_total(self@[p as int], update@);
                }
            }
            return self.duplicate();
        }
        proof {
            if p < n {
                lemma_lex_irreflexive(update@);
            }
        }
        let mut updates: Vec<Vec<u8>> = Vec::new();
        let mut i: usize = 0;
        while i < n
            invariant
                i <= n,
                p <= n,
                n == self@.len(),
                n == self.updates@.len(),
                byte_views(updates@) == (if i <= p {
                    self@.take(i as int)
                } else {
                    self@.take(p as int) + seq![update@] + self@.subrange(p as int, i as int)
                }),
            decreases n - i,
        {
            if i == p {
                let c = copy_bytes(update);
                proof {
                    lemma_byte_views_push(updates@, c);
                }
                updates.push(c);
                assert(byte_views(updates@) =~= self@.take(p as int) + seq![update@]
                    + self@.subrange(p as int, i as int));
            }
            let c = copy_bytes(self.updates[i].as_slice());
            assert(c@ == self@[i as int]);
            proof {
                lemma_byte_views_push(updates@, c);
            }
            updates.push(c);
            i = i + 1;
            assert(byte_views(updates@) =~= (if i <= p {
                self@.take(i as int)
            } else {
                self@.take(p as int) + seq![update@] + self@.subrange(p as int, i as int)
            }));
        }
        if p == n {
            let c = copy_bytes(update);
            proof {
                lemma_byte_views_push(updates@, c);
            }
            updates.push(c);
        }
        let r = Document { updates };
        assert(r@ =~= self@.take(p as int) + seq![update@] + self@.skip(p as int));
        r
    }

    /// The bytes of the document: the frame of each update, in order.
    pub fn encode(&self) -> (r: Vec<u8>)
        ensures
            r@ == encoded(self@),
    {
        let mut out: Vec<u8> = Vec::new();
        let mut i: usize = 0;
        while i < self.updates.len()
            invariant
                i <= self@.len(),
                self@.len() == self.updates@.len(),
                out@ == encoded(self@.take(i as int)),
            decreases self.updates.len() - i,
        {
            let u = self.updates[i].as_slice();
            let n = u.len() as u64;
            let start = out.len();
            out.push(((n >> 56u64) & 0xffu64) as u8);
            out.push(((n >> 48u64) & 0xffu64) as u8);
            out.push(((n >> 40u64) & 0xffu64) as u8);
            out.push(((n >> 32u64) & 0xffu64) as u8);
            out.push(((n >> 24u64) & 0xffu64) as u8);
            out.push(((n >> 16u64) & 0xffu64) as u8);
            out.push(((n >> 8u64) & 0xffu64) as u8);
            out.push((n & 0xffu64) as u8);
            assert(out@ =~= encoded(self@.take(i as int)) + be_u64(n));
            let mut j: usize = 0;
            while j < u.len()
                invariant
                    j <= u@.len(),
                    out@ == encoded(self@.take(i as int)) + be_u64(n) + u@.take(j as int),
                decreases u.len() - j,
            {
                out.push(u[j]);
                j = j + 1;
                assert(out@ =~= encoded(self@.take(i as int)) + be_u64(n) + u@.take(j as int));
            }
            assert(u@.take(u@.len() as int) =~= u@);
            assert(self@.take(i + 1).drop_last() =~= self@.take(i as int));
            i = i + 1;
        }
        assert(self@.take(self@.len() as int) =~= self@);
        out
    }
}

} // verus!
