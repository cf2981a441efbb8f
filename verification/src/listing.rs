//! What a store shows: the records that are not tombstones, oldest first.

use crate::record::{MessageRecord, RecordView};
use crate::store::{
    entry_ok, has_key, placeholder, position, resolved, store_ok, EntryView,
};
use vstd::prelude::*;

verus! {

/// The values of a run of records.
pub open spec fn views(records: Seq<MessageRecord>) -> Seq<RecordView> {
    Seq::new(records.len(), |i: int| records[i]@)
}

/// No record stands before one that was created earlier.
pub open spec fn sorted_by_created(l: Seq<RecordView>) -> bool {
    forall|i: int, j: int| 0 <= i < j < l.len() ==> l[i].created <= l[j].created
}

/// `l` with `r` placed behind the last record that is not younger than `r`.
pub open spec fn insert_by_created(l: Seq<RecordView>, r: RecordView) -> Seq<RecordView>
    decreases l.len(),
{
    if l.len() == 0 {
        seq![r]
    } else if l.last().created <= r.created {
        l.push(r)
    } else {
        insert_by_created(l.drop_last(), r).push(l.last())
    }
}

/// The listing of a store: each entry's record, tombstones left out, in
/// ascending order of creation; records of one creation time stand in the
/// order of their entries.
pub open spec fn listing(s: Seq<EntryView>) -> Seq<RecordView>
    decreases s.len(),
{
    if s.len() == 0 {
        Seq::empty()
    } else {
        let rest = listing(s.drop_last());
        let r = resolved(s.last());
        if r.is_delete {
            rest
        } else {
            insert_by_created(rest, r)
        }
    }
}

/// `insert_by_created` places the record at the one index behind which every
/// record is younger and before which none is.
pub proof fn lemma_insert_at(l: Seq<RecordView>, r: RecordView, at: int)
    requires
        0 <= at <= l.len(),
        forall|j: int| at <= j < l.len() ==> (#[trigger] l[j]).created > r.created,
        at > 0 ==> l[at - 1].created <= r.created,
    ensures
        insert_by_created(l, r) == l.insert(at, r),
    decreases l.len(),
{
    if l.len() == 0 {
        assert(seq![r] =~= l.insert(at, r));
    } else if at == l.len() {
        assert(l.push(r) =~= l.insert(at, r));
    } else {
        assert(l[l.len() - 1].created > r.created);
        lemma_insert_at(l.drop_last(), r, at);
        assert(l.drop_last().insert(at, r).push(l.last()) =~= l.insert(at, r));
    }
}

/// Some index is the one that `lemma_insert_at` speaks of.
pub proof fn lemma_insert_position(l: Seq<RecordView>, r: RecordView) -> (at: int)
    ensures
        0 <= at <= l.len(),
        insert_by_created(l, r) == l.insert(at, r),
        forall|j: int| at <= j < l.len() ==> (#[trigger] l[j]).created > r.created,
        at > 0 ==> l[at - 1].created <= r.created,
    decreases l.len(),
{
    if l.len() == 0 {
        assert(seq![r] =~= l.insert(0, r));
        0
    } else if l.last().created <= r.created {
        assert(l.push(r) =~= l.insert(l.len() as int, r));
        l.len() as int
    } else {
        let at = lemma_insert_position(l.drop_last(), r);
        assert(l.drop_last().insert(at, r).push(l.last()) =~= l.insert(at, r));
        assert forall|j: int| at <= j < l.len() implies (#[trigger] l[j]).created
            > r.created by {
            if j < l.len() - 1 {
                assert(l.drop_last()[j].created > r.created);
            }
        }
        at
    }
}

/// Placing a record into an ordered run leaves it ordered.
pub proof fn lemma_insert_sorted(l: Seq<RecordView>, r: RecordView)
    requires
        sorted_by_created(l),
    ensures
        sorted_by_created(insert_by_created(l, r)),
{
    let at = lemma_insert_position(l, r);
    let t = l.insert(at, r);
    assert forall|i: int, j: int| 0 <= i < j < t.len() implies t[i].created <= t[j].created by {
        if j == at {
            if at > 0 {
                assert(l[i].created <= l[at - 1].created || i == at - 1);
            }
        } else if i == at {
            assert(l[j - 1].created > r.created);
        } else if i < at && j > at {
            assert(l[j - 1].created > r.created);
            assert(l[i].created <= l[at - 1].created || i == at - 1);
        }
    }
}

/// A listing is in ascending order of creation.
pub proof fn lemma_listing_sorted(s: Seq<EntryView>)
    ensures
        sorted_by_created(listing(s)),
    decreases s.len(),
{
    if s.len() > 0 {
        lemma_listing_sorted(s.drop_last());
        lemma_insert_sorted(listing(s.drop_last()), resolved(s.last()));
    }
}

/// A listing holds exactly the records of the entries that are not tombstones.
pub proof fn lemma_listing_members(s: Seq<EntryView>, r: RecordView)
    ensures
        listing(s).contains(r) <==> !r.is_delete && exists|i: int|
            0 <= i < s.len() && resolved(#[trigger] s[i]) == r,
    decreases s.len(),
{
    if s.len() == 0 {
    } else {
        let head = s.drop_last();
        let rest = listing(head);
        let last = resolved(s.last());
        lemma_listing_members(head, r);
        if listing(s).contains(r) {
            let k = choose|k: int| 0 <= k < listing(s).len() && listing(s)[k] == r;
            if last.is_delete {
                assert(rest.contains(r));
            } else {
                let at = lemma_insert_position(rest, last);
                if k < at {
                    assert(rest[k] == r);
                } else if k > at {
                    assert(rest[k - 1] == r);
                }
            }
            if rest.contains(r) {
                let i = choose|i: int| 0 <= i < head.len() && resolved(#[trigger] head[i]) == r;
                assert(resolved(s[i]) == r);
            } else {
                assert(resolved(s[s.len() - 1]) == r);
            }
        }
        if !r.is_delete && exists|i: int| 0 <= i < s.len() && resolved(#[trigger] s[i]) == r {
            let i = choose|i: int| 0 <= i < s.len() && resolved(#[trigger] s[i]) == r;
            if i < s.len() - 1 {
                assert(resolved(head[i]) == r);
                assert(rest.contains(r));
                let k = choose|k: int| 0 <= k < rest.len() && rest[k] == r;
                if !last.is_delete {
                    let at = lemma_insert_position(rest, last);
                    if k < at {
                        assert(rest.insert(at, last)[k] == r);
                    } else {
                        assert(rest.insert(at, last)[k + 1] == r);
                    }
                }
            } else {
                let at = lemma_insert_position(rest, last);
                assert(rest.insert(at, last)[at] == r);
            }
        }
    }
}

/// In a store that is in order, an entry's record carries the entry's key as its id.
pub proof fn lemma_resolved_id(e: EntryView)
    requires
        entry_ok(e),
    ensures
        resolved(e).id == e.key,
{
}

/// In a store that is in order no two listed records carry one id: with
/// `lemma_listing_members`, every key that is not deleted is listed once.
pub proof fn lemma_listing_ids_differ(s: Seq<EntryView>)
    requires
        store_ok(s),
    ensures
        forall|i: int, j: int|
            0 <= i < j < listing(s).len() ==> (#[trigger] listing(s)[i]).id != (
            #[trigger] listing(s)[j]).id,
    decreases s.len(),
{
    if s.len() > 0 {
        let head = s.drop_last();
        let rest = listing(head);
        let last = resolved(s.last());
        assert(store_ok(head)) by {
            assert forall|i: int| 0 <= i < head.len() implies entry_ok(#[trigger] head[i]) by {
                assert(head[i] == s[i]);
            }
            assert forall|i: int, j: int| 0 <= i < j < head.len() implies (#[trigger] head[i]).key
                != (#[trigger] head[j]).key by {
                assert(head[i] == s[i] && head[j] == s[j]);
            }
        }
        lemma_listing_ids_differ(head);
        if !last.is_delete {
            let at = lemma_insert_position(rest, last);
            let t = rest.insert(at, last);
            lemma_resolved_id(s.last());
            assert forall|k: int| 0 <= k < rest.len() implies (#[trigger] rest[k]).id
                != last.id by {
                lemma_listing_members(head, rest[k]);
                assert(rest.contains(rest[k]));
                let i = choose|i: int| 0 <= i < head.len() && resolved(#[trigger] head[i]) == rest[k];
                lemma_resolved_id(head[i]);
                assert(head[i] == s[i]);
                assert(s[i].key != s[s.len() - 1].key);
            }
            assert forall|i: int, j: int| 0 <= i < j < t.len() implies (#[trigger] t[i]).id != (
            #[trigger] t[j]).id by {
                let a = if i < at {
                    i
                } else {
                    i - 1
                };
                let b = if j < at {
                    j
                } else {
                    j - 1
                };
                if i == at {
                    assert(t[j] == rest[b]);
                } else if j == at {
                    assert(t[i] == rest[a]);
                } else {
                    assert(t[i] == rest[a] && t[j] == rest[b]);
                    assert(rest[a].id != rest[b].id);
                }
            }
        }
    }
}

/// A key whose record is a tombstone is the id of no listed record.
pub proof fn lemma_tombstone_not_listed(s: Seq<EntryView>, key: Seq<char>)
    requires
        store_ok(s),
        has_key(s, key),
        resolved(s[position(s, key)]).is_delete,
    ensures
        forall|j: int| 0 <= j < listing(s).len() ==> (#[trigger] listing(s)[j]).id != key,
{
    let p = position(s, key);
    assert forall|j: int| 0 <= j < listing(s).len() implies (#[trigger] listing(s)[j]).id
        != key by {
        let r = listing(s)[j];
        lemma_listing_members(s, r);
        assert(listing(s).contains(r));
        let i = choose|i: int| 0 <= i < s.len() && resolved(#[trigger] s[i]) == r;
        lemma_resolved_id(s[i]);
        if r.id == key {
            if i < p {
                assert(s[i].key != s[p].key);
            } else if p < i {
                assert(s[p].key != s[i].key);
            }
        }
    }
}

/// A key whose bytes have not arrived is listed with the placeholder record.
pub proof fn lemma_missing_is_listed(s: Seq<EntryView>, i: int)
    requires
        0 <= i < s.len(),
        s[i].content is None,
    ensures
        listing(s).contains(placeholder(s[i].key)),
        placeholder(s[i].key).label == "Missing Content"@,
        placeholder(s[i].key).created == 0,
{
    lemma_listing_members(s, placeholder(s[i].key));
    assert(resolved(s[i]) == placeholder(s[i].key));
}

/// Places `r` into `out` behind the last record that is not younger.
pub fn insert_sorted(out: &mut Vec<MessageRecord>, r: MessageRecord)
    ensures
        views(final(out)@) == insert_by_created(views(old(out)@), r@),
{
    let mut at: usize = out.len();
    while at > 0 && out[at - 1].created > r.created
        invariant
            at <= out@.len(),
            forall|j: int| at <= j < out@.len() ==> (#[trigger] out@[j]).created > r.created,
        decreases at,
    {
        at -= 1;
    }
    proof {
        let l = views(out@);
        assert forall|j: int| at <= j < l.len() implies (#[trigger] l[j]).created
            > r.created by {
            assert(out@[j].created > r.created);
        }
        lemma_insert_at(l, r@, at as int);
        assert(views(out@.insert(at as int, r)) =~= l.insert(at as int, r@));
    }
    out.insert(at, r);
}

} // verus!
