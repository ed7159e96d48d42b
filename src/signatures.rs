use vstd::prelude::*;
use crate::bytes::{bytes_lt, bytes_less, bytes_equal, lemma_bytes_lt_strict_total};

verus! {

/// One signature of a stored state, with the timestamp it was made for.
#[derive(Debug, Clone)]
pub struct SignatureEntry {
    pub timestamp: u64,
    pub signature: Vec<u8>,
}

/// The mathematical value of a signature entry: timestamp and signature bytes.
pub type EntryV = (u64, Seq<u8>);

impl View for SignatureEntry {
    type V = EntryV;

    open spec fn view(&self) -> EntryV {
        (self.timestamp, self.signature@)
    }
}

/// The views of a sequence of entries.
pub open spec fn entries_view(s: Seq<SignatureEntry>) -> Seq<EntryV> {
    s.map_values(|e: SignatureEntry| e@)
}

/// The total order on entries: by timestamp, then by signature bytes.
pub open spec fn entry_lt(x: EntryV, y: EntryV) -> bool {
    x.0 < y.0 || (x.0 == y.0 && bytes_lt(x.1, y.1))
}

/// Ascending in the entry order, with no entry twice.
pub open spec fn strictly_sorted(s: Seq<EntryV>) -> bool {
    forall|i: int, j: int| 0 <= i < j < s.len() ==> entry_lt(#[trigger] s[i], #[trigger] s[j])
}

/// `s` with `e` put in its place in the entry order; `s` itself where an
/// entry equal to `e` is met first.
pub open spec fn insert_sorted(s: Seq<EntryV>, e: EntryV) -> Seq<EntryV>
    decreases s.len(),
{
    if s.len() == 0 {
        seq![e]
    } else if s[0] == e {
        s
    } else if entry_lt(s[0], e) {
        seq![s[0]] + insert_sorted(s.drop_first(), e)
    } else {
        seq![e] + s
    }
}

/// The entries of `old` with those of `new` merged in, one at a time.
pub open spec fn merged(old: Seq<EntryV>, new: Seq<EntryV>) -> Seq<EntryV>
    decreases new.len(),
{
    if new.len() == 0 {
        old
    } else {
        insert_sorted(merged(old, new.drop_last()), new.last())
    }
}

pub proof fn lemma_entry_order(x: EntryV, y: EntryV, z: EntryV)
    ensures
        !entry_lt(x, x),
        entry_lt(x, y) && entry_lt(y, z) ==> entry_lt(x, z),
        x == y || entry_lt(x, y) || entry_lt(y, x),
{
    lemma_bytes_lt_strict_total(x.1, y.1, z.1);
}

proof fn lemma_insert_sorted_contains(s: Seq<EntryV>, e: EntryV, x: EntryV)
    ensures
        insert_sorted(s, e).contains(x) ==> (s.contains(x) || x == e),
        insert_sorted(s, e).contains(e),
    decreases s.len(),
{
    if s.len() > 0 && s[0] != e && entry_lt(s[0], e) {
        lemma_insert_sorted_contains(s.drop_first(), e, x);
        let t = insert_sorted(s.drop_first(), e);
        let r = seq![s[0]] + t;
        if r.contains(x) {
            let k = choose|k: int| 0 <= k < r.len() && r[k] == x;
            if k > 0 {
                assert(t[k - 1] == x);
                assert(t.contains(x));
                if x != e {
                    let m = choose|m: int| 0 <= m < s.drop_first().len() && s.drop_first()[m] == x;
                    assert(s[m + 1] == x);
                }
            } else {
                assert(s[0] == x);
            }
        }
        let m = choose|m: int| 0 <= m < t.len() && t[m] == e;
        assert(r[m + 1] == e);
    } else if s.len() > 0 && s[0] != e {
        let r = seq![e] + s;
        if r.contains(x) {
            let k = choose|k: int| 0 <= k < r.len() && r[k] == x;
            if k > 0 {
                assert(s[k - 1] == x);
            }
        }
        assert(r[0] == e);
    } else if s.len() > 0 {
        assert(s[0] == e);
    } else {
        assert(seq![e][0] == e);
    }
}

proof fn lemma_insert_sorted_keeps(s: Seq<EntryV>, e: EntryV, x: EntryV)
    requires
        s.contains(x),
    ensures
        insert_sorted(s, e).contains(x),
    decreases s.len(),
{
    let k = choose|k: int| 0 <= k < s.len() && s[k] == x;
    if s[0] != e && entry_lt(s[0], e) {
        let t = insert_sorted(s.drop_first(), e);
        let r = seq![s[0]] + t;
        if k == 0 {
            assert(r[0] == x);
        } else {
            assert(s.drop_first()[k - 1] == x);
            lemma_insert_sorted_keeps(s.drop_first(), e, x);
            let m = choose|m: int| 0 <= m < t.len() && t[m] == x;
            assert(r[m + 1] == x);
        }
    } else if s[0] != e {
        let r = seq![e] + s;
        assert(r[k + 1] == x);
    }
}

/// The entries of a merge are exactly those of `old` and those of `new`.
pub proof fn lemma_merged_contents(old: Seq<EntryV>, new: Seq<EntryV>, x: EntryV)
    ensures
        merged(old, new).contains(x) <==> (old.contains(x) || new.contains(x)),
    decreases new.len(),
{
    if new.len() > 0 {
        let front = new.drop_last();
        let e = new.last();
        lemma_merged_contents(old, front, x);
        lemma_insert_sorted_contains(merged(old, front), e, x);
        if merged(old, front).contains(x) {
            lemma_insert_sorted_keeps(merged(old, front), e, x);
        }
        if front.contains(x) {
            let k = choose|k: int| 0 <= k < front.len() && front[k] == x;
            assert(new[k] == x);
        }
        if new.contains(x) {
            let k = choose|k: int| 0 <= k < new.len() && new[k] == x;
            if k < new.len() - 1 {
                assert(front[k] == x);
            }
        }
        assert(new[new.len() - 1] == e);
    }
}

/// Putting an entry in its place keeps a list strictly sorted.
pub proof fn lemma_insert_sorted_sorted(s: Seq<EntryV>, e: EntryV)
    requires
        strictly_sorted(s),
    ensures
        strictly_sorted(insert_sorted(s, e)),
    decreases s.len(),
{
    if s.len() > 0 && s[0] != e && entry_lt(s[0], e) {
        let tail = s.drop_first();
        assert(strictly_sorted(tail)) by {
            assert forall|i: int, j: int| 0 <= i < j < tail.len() implies entry_lt(
                #[trigger] tail[i],
                #[trigger] tail[j],
            ) by {
                assert(tail[i] == s[i + 1] && tail[j] == s[j + 1]);
            }
        }
        lemma_insert_sorted_sorted(tail, e);
        let t = insert_sorted(tail, e);
        let r = seq![s[0]] + t;
        assert forall|i: int, j: int| 0 <= i < j < r.len() implies entry_lt(
            #[trigger] r[i],
            #[trigger] r[j],
        ) by {
            if i == 0 {
                assert(r[j] == t[j - 1]);
                assert(t.contains(t[j - 1]));
                lemma_insert_sorted_contains(tail, e, t[j - 1]);
                if t[j - 1] != e {
                    let m = choose|m: int| 0 <= m < tail.len() && tail[m] == t[j - 1];
                    assert(s[m + 1] == t[j - 1]);
                }
            } else {
                assert(r[i] == t[i - 1] && r[j] == t[j - 1]);
            }
        }
    } else if s.len() > 0 && s[0] != e {
        let r = seq![e] + s;
        assert forall|i: int, j: int| 0 <= i < j < r.len() implies entry_lt(
            #[trigger] r[i],
            #[trigger] r[j],
        ) by {
            if i == 0 {
                lemma_entry_order(s[0], e, e);
                if j > 1 {
                    lemma_entry_order(e, s[0], s[j - 1]);
                }
            } else {
                assert(r[i] == s[i - 1] && r[j] == s[j - 1]);
            }
        }
    }
}

/// Merging keeps a list strictly sorted.
pub proof fn lemma_merged_sorted(old: Seq<EntryV>, new: Seq<EntryV>)
    requires
        strictly_sorted(old),
    ensures
        strictly_sorted(merged(old, new)),
    decreases new.len(),
{
    if new.len() > 0 {
        lemma_merged_sorted(old, new.drop_last());
        lemma_insert_sorted_sorted(merged(old, new.drop_last()), new.last());
    }
}

/// Putting the same entry in its place twice gives what putting it once gave.
pub proof fn lemma_insert_sorted_idempotent(s: Seq<EntryV>, e: EntryV)
    ensures
        insert_sorted(insert_sorted(s, e), e) == insert_sorted(s, e),
    decreases s.len(),
{
    if s.len() == 0 {
        assert(seq![e][0] == e);
    } else if s[0] == e {
    } else if entry_lt(s[0], e) {
        let t = insert_sorted(s.drop_first(), e);
        let r = seq![s[0]] + t;
        lemma_insert_sorted_idempotent(s.drop_first(), e);
        assert(r[0] == s[0]);
        assert(r.drop_first() =~= t);
    } else {
        let r = seq![e] + s;
        assert(r[0] == e);
    }
}

/// Appending the same signature entry a second time leaves the list as the
/// first append left it.
pub proof fn lemma_append_entry_twice(old: Seq<EntryV>, e: EntryV)
    ensures
        merged(merged(old, seq![e]), seq![e]) == merged(old, seq![e]),
{
    let once = insert_sorted(old, e);
    assert(seq![e].drop_last() =~= Seq::<EntryV>::empty());
    assert(seq![e].last() == e);
    assert(merged(old, Seq::<EntryV>::empty()) == old);
    assert(merged(old, seq![e]) == once);
    assert(merged(once, Seq::<EntryV>::empty()) == once);
    assert(merged(once, seq![e]) == insert_sorted(once, e));
    lemma_insert_sorted_idempotent(old, e);
}

/// A copy of `e`.
pub fn copy_entry(e: &SignatureEntry) -> (r: SignatureEntry)
    ensures
        r@ == e@,
{
    let signature = e.signature.clone();
    assert(signature@ =~= e.signature@);
    SignatureEntry { timestamp: e.timestamp, signature }
}

fn entry_less(a: &SignatureEntry, b: &SignatureEntry) -> (r: bool)
    ensures
        r == entry_lt(a@, b@),
{
    if a.timestamp < b.timestamp {
        true
    } else if a.timestamp > b.timestamp {
        false
    } else {
        bytes_less(a.signature.as_slice(), b.signature.as_slice())
    }
}

fn entry_equal(a: &SignatureEntry, b: &SignatureEntry) -> (r: bool)
    ensures
        r == (a@ == b@),
{
    a.timestamp == b.timestamp && bytes_equal(a.signature.as_slice(), b.signature.as_slice())
}

proof fn lemma_entries_view_insert(s: Seq<SignatureEntry>, i: int, e: SignatureEntry)
    requires
        0 <= i <= s.len(),
    ensures
        entries_view(s.insert(i, e)) == entries_view(s).insert(i, e@),
{
    assert(entries_view(s.insert(i, e)) =~= entries_view(s).insert(i, e@));
}

/// Puts `e` in its place in `v`, unless an equal entry is already there.
fn insert_entry(v: &mut Vec<SignatureEntry>, e: SignatureEntry)
    ensures
        entries_view(final(v)@) == insert_sorted(entries_view(old(v)@), e@),
{
    let ghost s = entries_view(v@);
    assert(s.subrange(0, s.len() as int) =~= s);
    assert(s.subrange(0, 0) + insert_sorted(s, e@) =~= insert_sorted(s, e@));
    let mut i: usize = 0;
    while i < v.len()
        invariant
            s == entries_view(v@),
            s == entries_view(old(v)@),
            0 <= i <= v@.len(),
            insert_sorted(s, e@) == s.subrange(0, i as int) + insert_sorted(
                s.subrange(i as int, s.len() as int),
                e@,
            ),
        decreases v@.len() - i,
    {
        let ghost rest = s.subrange(i as int, s.len() as int);
        assert(rest[0] == s[i as int]);
        assert(rest.drop_first() =~= s.subrange(i + 1, s.len() as int));
        if entry_equal(&v[i], &e) {
            assert(insert_sorted(rest, e@) == rest);
            assert(s.subrange(0, i as int) + rest =~= s);
            return;
        }
        if !entry_less(&v[i], &e) {
            proof {
                lemma_entries_view_insert(v@, i as int, e);
            }
            v.insert(i, e);
            assert(insert_sorted(rest, e@) == seq![e@] + rest);
            assert(s.subrange(0, i as int) + (seq![e@] + rest) =~= s.insert(i as int, e@));
            return;
        }
        assert(s.subrange(0, i as int) + seq![s[i as int]] =~= s.subrange(0, i + 1));
        assert(s.subrange(0, i as int) + (seq![s[i as int]] + insert_sorted(rest.drop_first(), e@))
            =~= s.subrange(0, i + 1) + insert_sorted(rest.drop_first(), e@));
        i = i + 1;
    }
    proof {
        lemma_entries_view_insert(v@, i as int, e);
    }
    assert(s.subrange(i as int, s.len() as int) =~= Seq::<EntryV>::empty());
    v.insert(i, e);
    assert(s.subrange(0, i as int) + seq![e@] =~= s.insert(i as int, e@));
}

/// Sorts `new` into the entry order and drops repeated entries.
pub fn sort_signatures(new: &mut Vec<SignatureEntry>)
    ensures
        entries_view(final(new)@) == merged(Seq::empty(), entries_view(old(new)@)),
        strictly_sorted(entries_view(final(new)@)),
{
    let mut input: Vec<SignatureEntry> = Vec::new();
    std::mem::swap(new, &mut input);
    assert(entries_view(new@) =~= Seq::<EntryV>::empty());
    append_signatures(new, input);
}

/// Merges the entries of `new` into `current`, which is strictly sorted; the
/// result is strictly sorted and holds each entry of either once.
pub fn append_signatures(current: &mut Vec<SignatureEntry>, new: Vec<SignatureEntry>)
    requires
        strictly_sorted(entries_view(old(current)@)),
    ensures
        entries_view(final(current)@) == merged(entries_view(old(current)@), entries_view(new@)),
        strictly_sorted(entries_view(final(current)@)),
{
    let ghost start = entries_view(current@);
    let ghost all = entries_view(new@);
    let mut k: usize = 0;
    while k < new.len()
        invariant
            0 <= k <= new@.len(),
            all == entries_view(new@),
            entries_view(current@) == merged(start, all.subrange(0, k as int)),
        decreases new@.len() - k,
    {
        let e = copy_entry(&new[k]);
        insert_entry(current, e);
        assert(all.subrange(0, k + 1).drop_last() =~= all.subrange(0, k as int));
        k = k + 1;
    }
    assert(all.subrange(0, new@.len() as int) =~= all);
    proof {
        lemma_merged_sorted(start, all);
    }
}

} // verus!
