//! The message list of one shared document, as one replica holds it.
//!
//! A replica keeps, for every key, the latest version it knows: who wrote it,
//! when, and the encoded record if the bytes have arrived. Writes made here
//! always replace the version held and are stamped later than it (see
//! [`next_stamp`]); versions that arrive from other replicas replace it only
//! when they are later (see [`supersedes`]). Deleting writes
//! a tombstone: the key stays, readable and writable, and is left out of the
//! listing.
//!
//! A store always holds entries that may be held, each under a key of its
//! own ([`store_ok`]); no operation asks its caller for more.

use crate::listing::{
    insert_sorted, lemma_listing_ids_differ, lemma_listing_sorted, lemma_tombstone_not_listed, listing, sorted_by_created,
    views,
};
use crate::record::{parsed, serialized, serialized_len, MessageRecord, RecordView};
use vstd::prelude::*;
use vstd::slice::slice_to_vec;
use vstd::utf8::{encode_utf8, encode_utf8_decode_utf8};

verus! {

/// An encoded record must be shorter than this many bytes.
pub const MAX_RECORD_SIZE: usize = 2048;

/// A replacement label must be shorter than this many bytes.
pub const MAX_LABEL_LEN: usize = 2000;

/// Why a store refused an operation.
#[derive(Debug, Clone, Copy, PartialEq, Eq, Structural)]
pub enum StoreError {
    /// The encoded record would reach [`MAX_RECORD_SIZE`].
    TooLarge,
    /// The replacement label reaches [`MAX_LABEL_LEN`].
    TooLong,
    /// No readable record is held under the key.
    NotFound,
    /// The bytes do not decode to a record stored under its own key.
    Malformed,
    /// The version held carries the last stamp there is: none can follow it.
    Exhausted,
}

/// The latest known version under one key.
#[derive(Debug, PartialEq, Eq)]
pub struct Entry {
    pub key: String,
    /// When the version was written.
    pub stamp: u64,
    /// Which replica wrote it.
    pub writer: u64,
    /// The encoded record, or `None` while its bytes have not arrived.
    pub content: Option<Vec<u8>>,
}

/// The mathematical value of an [`Entry`].
pub ghost struct EntryView {
    pub key: Seq<char>,
    pub stamp: u64,
    pub writer: u64,
    pub content: Option<Seq<u8>>,
}

/// The view of an optional byte buffer.
pub open spec fn content_view(content: Option<Vec<u8>>) -> Option<Seq<u8>> {
    match content {
        Some(bytes) => Some(bytes@),
        None => None,
    }
}

impl View for Entry {
    type V = EntryView;

    open spec fn view(&self) -> EntryView {
        EntryView {
            key: self.key@,
            stamp: self.stamp,
            writer: self.writer,
            content: content_view(self.content),
        }
    }
}

impl Clone for Entry {
    fn clone(&self) -> (copy: Self)
        ensures
            copy@ == self@,
    {
        let content = match &self.content {
            Some(bytes) => Some(slice_to_vec(bytes.as_slice())),
            None => None,
        };
        Entry { key: self.key.clone(), stamp: self.stamp, writer: self.writer, content }
    }
}

/// The text shown for a record whose bytes have not arrived.
pub open spec fn missing_label() -> Seq<char> {
    "Missing Content"@
}

/// The record that stands in for a key whose bytes have not arrived.
pub open spec fn placeholder(key: Seq<char>) -> RecordView {
    RecordView { id: key, label: missing_label(), created: 0, is_delete: false }
}

/// The record that an entry stands for: the decoded bytes, or the
/// placeholder where there are none to decode.
pub open spec fn resolved(e: EntryView) -> RecordView {
    match e.content {
        Some(bytes) => match parsed(bytes) {
            Some(r) => r,
            None => placeholder(e.key),
        },
        None => placeholder(e.key),
    }
}

/// An entry may be held: its bytes, if any, are short enough and decode to a
/// record whose id is the entry's key.
pub open spec fn entry_ok(e: EntryView) -> bool {
    match e.content {
        Some(bytes) => {
            &&& bytes.len() < MAX_RECORD_SIZE
            &&& parsed(bytes) is Some
            &&& parsed(bytes)->Some_0.id == e.key
        },
        None => true,
    }
}

/// Every entry may be held and no key occurs twice.
pub open spec fn store_ok(s: Seq<EntryView>) -> bool {
    &&& forall|i: int| 0 <= i < s.len() ==> entry_ok(#[trigger] s[i])
    &&& forall|i: int, j: int|
        0 <= i < j < s.len() ==> (#[trigger] s[i]).key != (#[trigger] s[j]).key
}

/// Some entry is held under `key`.
pub open spec fn has_key(s: Seq<EntryView>, key: Seq<char>) -> bool {
    exists|i: int| 0 <= i < s.len() && (#[trigger] s[i]).key == key
}

/// Where the entry under `key` stands.
pub open spec fn position(s: Seq<EntryView>, key: Seq<char>) -> int {
    choose|i: int| 0 <= i < s.len() && (#[trigger] s[i]).key == key
}

/// The entries after `e` has replaced the entry under its key, or has been
/// added behind the others where the key is new.
pub open spec fn put(s: Seq<EntryView>, e: EntryView) -> Seq<EntryView> {
    if has_key(s, e.key) {
        s.update(position(s, e.key), e)
    } else {
        s.push(e)
    }
}

/// The readable record under `key`, tombstones included.
pub open spec fn current(s: Seq<EntryView>, key: Seq<char>) -> Option<RecordView> {
    if has_key(s, key) {
        match s[position(s, key)].content {
            Some(bytes) => parsed(bytes),
            None => None,
        }
    } else {
        None
    }
}

/// The version of a record that replica `writer` wrote with the stamp `stamp`.
pub open spec fn written(r: RecordView, stamp: u64, writer: u64) -> EntryView {
    EntryView { key: r.id, stamp, writer, content: Some(serialized(r)) }
}

/// The stamp of the version held under `key`, if one is held.
pub open spec fn held_stamp(s: Seq<EntryView>, key: Seq<char>) -> Option<u64> {
    if has_key(s, key) {
        Some(s[position(s, key)].stamp)
    } else {
        None
    }
}

/// The stamp that a write made here at clock value `now` gives to its
/// version: `now`, or one past the stamp held where the clock is not ahead
/// of that. A write is thereby later than whatever it replaces, also where
/// the clock stands still or runs behind a peer's.
pub open spec fn next_stamp(s: Seq<EntryView>, key: Seq<char>, now: u64) -> int {
    match held_stamp(s, key) {
        Some(held) => if held >= now {
            held + 1
        } else {
            now as int
        },
        None => now as int,
    }
}

/// Why a record is not written, if it is not: its encoding reaches
/// [`MAX_RECORD_SIZE`], or else no stamp is left for it.
pub open spec fn write_refusal(s: Seq<EntryView>, r: RecordView, now: u64) -> Option<StoreError> {
    if serialized_len(r) >= MAX_RECORD_SIZE {
        Some(StoreError::TooLarge)
    } else if next_stamp(s, r.id, now) > u64::MAX {
        Some(StoreError::Exhausted)
    } else {
        None
    }
}

/// The entries after replica `writer` wrote `r` at clock value `now`.
pub open spec fn after_write(s: Seq<EntryView>, r: RecordView, now: u64, writer: u64) -> Seq<
    EntryView,
> {
    put(s, written(r, next_stamp(s, r.id, now) as u64, writer))
}

/// Whether an arriving version replaces the one held: it is later; or as
/// late, from a writer with a greater number; or it is the same version and
/// brings the bytes that were missing.
pub open spec fn supersedes(arriving: EntryView, held: EntryView) -> bool {
    ||| arriving.stamp > held.stamp
    ||| arriving.stamp == held.stamp && arriving.writer > held.writer
    ||| arriving.stamp == held.stamp && arriving.writer == held.writer && held.content is None
        && arriving.content is Some
}

/// Whether a store takes an arriving version: its key is new, or it
/// supersedes the version held.
pub open spec fn accepts(s: Seq<EntryView>, arriving: EntryView) -> bool {
    !has_key(s, arriving.key) || supersedes(arriving, s[position(s, arriving.key)])
}

/// The entries after a version has arrived.
pub open spec fn merged(s: Seq<EntryView>, arriving: EntryView) -> Seq<EntryView> {
    if accepts(s, arriving) {
        put(s, arriving)
    } else {
        s
    }
}

/// Why an arriving version may not be held, if it may not.
pub open spec fn merge_refusal(e: EntryView) -> Option<StoreError> {
    match e.content {
        Some(bytes) => if bytes.len() >= MAX_RECORD_SIZE {
            Some(StoreError::TooLarge)
        } else if parsed(bytes) is None || parsed(bytes)->Some_0.id != e.key {
            Some(StoreError::Malformed)
        } else {
            None
        },
        None => None,
    }
}

/// After `put`, the key is held, its entry is the one put, and a store that
/// was in order still is.
pub proof fn lemma_put(s: Seq<EntryView>, e: EntryView)
    requires
        store_ok(s),
        entry_ok(e),
    ensures
        store_ok(put(s, e)),
        has_key(put(s, e), e.key),
        put(s, e)[position(put(s, e), e.key)] == e,
        position(put(s, e), e.key) == (if has_key(s, e.key) {
            position(s, e.key)
        } else {
            s.len() as int
        }),
        forall|key: Seq<char>| key != e.key ==> has_key(put(s, e), key) == has_key(s, key),
        forall|key: Seq<char>|
            key != e.key && has_key(s, key) ==> put(s, e)[position(put(s, e), key)]
                == s[position(s, key)],
{
    let t = put(s, e);
    let at = if has_key(s, e.key) {
        position(s, e.key)
    } else {
        s.len() as int
    };
    assert(t.len() > at && t[at] == e);
    assert forall|i: int| 0 <= i < t.len() && i != at implies #[trigger] t[i] == s[i] && s[i].key
        != e.key by {
        if has_key(s, e.key) && s[i].key == e.key {
            assert(s[at].key == s[i].key);
        }
    }
    assert(store_ok(t)) by {
        assert forall|i: int, j: int| 0 <= i < j < t.len() implies (#[trigger] t[i]).key != (
        #[trigger] t[j]).key by {
            if i != at && j != at {
                assert(s[i].key != s[j].key);
            }
        }
    }
    assert(has_key(t, e.key));
    let found = position(t, e.key);
    assert(found == at);
    assert forall|key: Seq<char>| key != e.key implies has_key(t, key) == has_key(s, key) by {
        if has_key(s, key) {
            let i = position(s, key);
            assert(t[i].key == key);
        }
        if has_key(t, key) {
            let i = position(t, key);
            assert(s[i].key == key);
        }
    }
    assert forall|key: Seq<char>| key != e.key && has_key(s, key) implies t[position(t, key)]
        == s[position(s, key)] by {
        let i = position(s, key);
        assert(t[i].key == key);
        let j = position(t, key);
        assert(s[j].key == key);
        if i < j {
            assert(s[i].key != s[j].key);
        } else if j < i {
            assert(s[j].key != s[i].key);
        }
    }
}

/// Two versions of one key leave the same entries in whichever order they
/// arrive: the later one, or of two equally late ones that of the writer
/// with the greater number. Two arrivals of one version, with or without its
/// bytes, are included; one writer never gives one stamp to two different
/// records of a key (`lemma_write_is_later`).
pub proof fn lemma_merge_order(s: Seq<EntryView>, a: EntryView, b: EntryView)
    requires
        store_ok(s),
        entry_ok(a),
        entry_ok(b),
        a.key == b.key,
        a.stamp != b.stamp || a.writer != b.writer || a.content == b.content || a.content is None
            || b.content is None,
    ensures
        merged(merged(s, a), b) == merged(merged(s, b), a),
        accepts(s, a) || accepts(s, b) ==> merged(merged(s, a), b)[position(
            merged(merged(s, a), b),
            a.key,
        )] == (if supersedes(b, a) {
            b
        } else {
            a
        }),
{
    lemma_put(s, a);
    lemma_put(s, b);
    lemma_put(put(s, a), b);
    lemma_put(put(s, b), a);
    assert(merged(merged(s, a), b) =~= merged(merged(s, b), a));
}

/// A version that arrives a second time changes nothing.
pub proof fn lemma_merge_again(s: Seq<EntryView>, a: EntryView)
    requires
        store_ok(s),
        entry_ok(a),
    ensures
        merged(merged(s, a), a) == merged(s, a),
{
    lemma_put(s, a);
}

/// Whether two texts are the same, decided on their UTF-8 bytes.
pub fn same_text(a: &str, b: &str) -> (same: bool)
    ensures
        same == (a@ == b@),
{
    let x = a.as_bytes();
    let y = b.as_bytes();
    if x.len() != y.len() {
        return false;
    }
    let mut i: usize = 0;
    while i < x.len()
        invariant
            i <= x@.len(),
            x@.len() == y@.len(),
            x@ == encode_utf8(a@),
            y@ == encode_utf8(b@),
            forall|j: int| 0 <= j < i ==> x@[j] == y@[j],
        decreases x@.len() - i,
    {
        if x[i] != y[i] {
            return false;
        }
        i += 1;
    }
    proof {
        assert(x@ =~= y@);
        encode_utf8_decode_utf8(a@);
        encode_utf8_decode_utf8(b@);
    }
    true
}

/// One replica's copy of the message list.
pub struct Store {
    entries: Vec<Entry>,
    author: u64,
}

impl View for Store {
    type V = Seq<EntryView>;

    closed spec fn view(&self) -> Seq<EntryView> {
        Seq::new(self.entries@.len(), |i: int| self.entries@[i]@)
    }
}

impl Store {
    /// The number under which this replica writes.
    pub closed spec fn writer(&self) -> u64 {
        self.author
    }

    /// Every entry may be held and no key occurs twice.
    pub open spec fn wf(&self) -> bool {
        store_ok(self@)
    }

    #[verifier::type_invariant]
    closed spec fn inv(&self) -> bool {
        store_ok(self@)
    }

    /// An empty list, written to under `author`.
    pub fn new(author: u64) -> (store: Store)
        ensures
            store@ == Seq::<EntryView>::empty(),
            store.writer() == author,
            store.wf(),
    {
        let store = Store { entries: Vec::new(), author };
        assert(store@ =~= Seq::<EntryView>::empty());
        store
    }

    /// The number under which this replica writes.
    pub fn author(&self) -> (author: u64)
        ensures
            author == self.writer(),
    {
        self.author
    }

    /// Where the entry under `key` stands, if there is one.
    fn find(&self, key: &str) -> (found: Option<usize>)
        ensures
            match found {
                Some(i) => i < self@.len() && self@[i as int].key == key@ && has_key(
                    self@,
                    key@,
                ) && position(self@, key@) == i,
                None => !has_key(self@, key@),
            },
    {
        proof {
            use_type_invariant(self);
        }
        let mut i: usize = 0;
        while i < self.entries.len()
            invariant
                i <= self.entries@.len(),
                self@.len() == self.entries@.len(),
                store_ok(self@),
                forall|j: int| 0 <= j < i ==> (#[trigger] self@[j]).key != key@,
            decreases self.entries@.len() - i,
        {
            if same_text(self.entries[i].key.as_str(), key) {
                proof {
                    assert(self@[i as int].key == key@);
                    let p = position(self@, key@);
                    if p != i {
                        if p < i {
                            assert(self@[p].key != self@[i as int].key);
                        } else {
                            assert(self@[i as int].key != self@[p].key);
                        }
                    }
                }
                return Some(i);
            }
            i += 1;
        }
        None
    }

    /// Replaces the entry under the key of `e`, or adds `e` where the key is new.
    fn install(&mut self, e: Entry)
        requires
            entry_ok(e@),
        ensures
            final(self)@ == put(old(self)@, e@),
            old(self).wf(),
            final(self).wf(),
            final(self).writer() == old(self).writer(),
            has_key(final(self)@, e@.key),
            final(self)@[position(final(self)@, e@.key)] == e@,
    {
        proof {
            use_type_invariant(&*self);
            lemma_put(self@, e@);
        }
        let ghost before = self@;
        let ghost ev = e@;
        let found = self.find(e.key.as_str());
        let mut entries: Vec<Entry> = Vec::new();
        std::mem::swap(&mut entries, &mut self.entries);
        match found {
            Some(i) => {
                entries.set(i, e);
            },
            None => {
                entries.push(e);
            },
        }
        proof {
            let after = Seq::new(entries@.len(), |i: int| entries@[i]@);
            assert(after =~= put(before, ev));
        }
        self.entries = entries;
    }

    /// The readable record under `id`, tombstones included; `None` where the
    /// key is unknown or its bytes have not arrived.
    pub fn get(&self, id: &str) -> (found: Option<MessageRecord>)
        ensures
            self.wf(),
            match found {
                Some(r) => current(self@, id@) == Some(r@),
                None => current(self@, id@) is None,
            },
    {
        proof {
            use_type_invariant(self);
        }
        match self.find(id) {
            Some(i) => match &self.entries[i].content {
                Some(bytes) => MessageRecord::deserialize(bytes.as_slice()),
                None => None,
            },
            None => None,
        }
    }

    /// The record that the entry at `i` stands for.
    fn resolve(&self, i: usize) -> (r: MessageRecord)
        requires
            i < self@.len(),
        ensures
            r@ == resolved(self@[i as int]),
    {
        let e = &self.entries[i];
        let decoded = match &e.content {
            Some(bytes) => MessageRecord::deserialize(bytes.as_slice()),
            None => None,
        };
        match decoded {
            Some(r) => r,
            None => MessageRecord {
                id: e.key.clone(),
                label: "Missing Content".to_owned(),
                created: 0,
                is_delete: false,
            },
        }
    }

    /// The messages to show: every key's record, the placeholder where the
    /// bytes have not arrived, tombstones left out, oldest first.
    pub fn list(&self) -> (out: Vec<MessageRecord>)
        ensures
            self.wf(),
            views(out@) == listing(self@),
            out@.len() == listing(self@).len(),
            forall|j: int| 0 <= j < out@.len() ==> (#[trigger] out@[j])@ == listing(self@)[j],
            sorted_by_created(views(out@)),
            forall|i: int, j: int|
                0 <= i < j < out@.len() ==> (#[trigger] out@[i])@.id != (#[trigger] out@[j])@.id,
    {
        proof {
            use_type_invariant(self);
            lemma_listing_ids_differ(self@);
            lemma_listing_sorted(self@);
        }
        let mut out: Vec<MessageRecord> = Vec::new();
        let mut i: usize = 0;
        assert(views(out@) =~= listing(self@.take(0)));
        while i < self.entries.len()
            invariant
                i <= self.entries@.len(),
                self@.len() == self.entries@.len(),
                views(out@) == listing(self@.take(i as int)),
            decreases self.entries@.len() - i,
        {
            let r = self.resolve(i);
            proof {
                let next = self@.take(i + 1);
                assert(next.drop_last() =~= self@.take(i as int));
                assert(next.last() == self@[i as int]);
            }
            if !r.is_delete {
                insert_sorted(&mut out, r);
            }
            i += 1;
        }
        proof {
            assert(self@.take(i as int) =~= self@);
            assert forall|j: int| 0 <= j < out@.len() implies (#[trigger] out@[j])@ == listing(
                self@,
            )[j] by {
                assert(views(out@)[j] == out@[j]@);
            }
        }
        out
    }

    /// Every version held, in the order of the entries: what a replica hands
    /// to its peers.
    pub fn versions(&self) -> (out: Vec<Entry>)
        ensures
            self.wf(),
            out@.len() == self@.len(),
            forall|i: int| 0 <= i < out@.len() ==> (#[trigger] out@[i])@ == self@[i],
    {
        proof {
            use_type_invariant(self);
        }
        let mut out: Vec<Entry> = Vec::new();
        let mut i: usize = 0;
        while i < self.entries.len()
            invariant
                i <= self.entries@.len(),
                self@.len() == self.entries@.len(),
                out@.len() == i,
                forall|j: int| 0 <= j < i ==> (#[trigger] out@[j])@ == self@[j],
            decreases self.entries@.len() - i,
        {
            out.push(self.entries[i].clone());
            i += 1;
        }
        out
    }

    /// Takes a version that arrived from another replica. One that may not
    /// be held is refused; one that may is installed if its key is new or it
    /// supersedes the version held, and the answer says whether it was.
    pub fn merge(&mut self, arriving: Entry) -> (res: Result<bool, StoreError>)
        ensures
            old(self).wf(),
            final(self).wf(),
            final(self).writer() == old(self).writer(),
            match res {
                Ok(taken) => entry_ok(arriving@) && taken == accepts(old(self)@, arriving@)
                    && final(self)@ == merged(old(self)@, arriving@) && (taken ==> has_key(
                    final(self)@,
                    arriving@.key,
                ) && final(self)@[position(final(self)@, arriving@.key)] == arriving@),
                Err(e) => merge_refusal(arriving@) == Some(e) && final(self)@ == old(self)@,
            },
    {
        proof {
            use_type_invariant(&*self);
        }
        match &arriving.content {
            Some(bytes) => {
                if bytes.len() >= MAX_RECORD_SIZE {
                    return Err(StoreError::TooLarge);
                }
                match MessageRecord::deserialize(bytes.as_slice()) {
                    None => {
                        return Err(StoreError::Malformed);
                    },
                    Some(r) => {
                        if !same_text(r.id.as_str(), arriving.key.as_str()) {
                            return Err(StoreError::Malformed);
                        }
                    },
                }
            },
            None => {},
        }
        let take = match self.find(arriving.key.as_str()) {
            None => true,
            Some(i) => {
                let held = &self.entries[i];
                arriving.stamp > held.stamp || (arriving.stamp == held.stamp && (arriving.writer
                    > held.writer || (arriving.writer == held.writer && held.content.is_none()
                    && arriving.content.is_some())))
            },
        };
        if take {
            self.install(arriving);
        }
        Ok(take)
    }

    /// Encodes `r` and installs it as this replica's write at clock value
    /// `now`, unless `write_refusal` names a reason not to.
    fn write(&mut self, r: &MessageRecord, now: u64) -> (res: Result<(), StoreError>)
        ensures
            old(self).wf(),
            final(self).wf(),
            final(self).writer() == old(self).writer(),
            match res {
                Ok(()) => write_refusal(old(self)@, r@, now) is None && final(self)@
                    == after_write(old(self)@, r@, now, old(self).writer()) && current(
                    final(self)@,
                    r@.id,
                ) == Some(r@),
                Err(e) => write_refusal(old(self)@, r@, now) == Some(e) && final(self)@ == old(
                    self,
                )@,
            },
    {
        proof {
            use_type_invariant(&*self);
        }
        let bytes = r.serialize();
        if bytes.len() >= MAX_RECORD_SIZE {
            return Err(StoreError::TooLarge);
        }
        let held = match self.find(r.id.as_str()) {
            Some(i) => Some(self.entries[i].stamp),
            None => None,
        };
        let stamp = match held {
            Some(h) => {
                if h == u64::MAX {
                    return Err(StoreError::Exhausted);
                }
                if h >= now {
                    h + 1
                } else {
                    now
                }
            },
            None => now,
        };
        proof {
            crate::record::lemma_round_trip(r@);
        }
        let e = Entry { key: r.id.clone(), stamp, writer: self.author, content: Some(bytes) };
        self.install(e);
        Ok(())
    }

    /// Stores a new message under `id`, created at `now`. A record whose
    /// encoding would reach [`MAX_RECORD_SIZE`] is refused with `TooLarge`
    /// and nothing changes. The version is stamped as `next_stamp` says.
    pub fn add(&mut self, id: &str, label: &str, now: u64) -> (res: Result<(), StoreError>)
        ensures
            old(self).wf(),
            final(self).wf(),
            final(self).writer() == old(self).writer(),
            ({
                let r = RecordView { id: id@, label: label@, created: now, is_delete: false };
                match res {
                    Ok(()) => write_refusal(old(self)@, r, now) is None && final(self)@
                        == after_write(old(self)@, r, now, old(self).writer()) && current(
                        final(self)@,
                        id@,
                    ) == Some(r),
                    Err(e) => write_refusal(old(self)@, r, now) == Some(e) && final(self)@
                        == old(self)@,
                }
            }),
    {
        let r = MessageRecord {
            id: id.to_owned(),
            label: label.to_owned(),
            created: now,
            is_delete: false,
        };
        self.write(&r, now)
    }

    /// Gives the message under `id` a new label, keeping its creation time
    /// and its tombstone flag. Refused, with nothing changed: a label of
    /// [`MAX_LABEL_LEN`] bytes or more; a key with no readable record; a
    /// record that would reach [`MAX_RECORD_SIZE`]; a key whose stamps are
    /// used up.
    pub fn update(&mut self, id: &str, label: &str, now: u64) -> (res: Result<(), StoreError>)
        ensures
            old(self).wf(),
            final(self).wf(),
            final(self).writer() == old(self).writer(),
            match res {
                Ok(_) => update_refusal(old(self)@, id@, label@, now) is None && current(
                    final(self)@,
                    id@,
                ) == Some(relabelled(old(self)@, id@, label@)),
                Err(e) => update_refusal(old(self)@, id@, label@, now) == Some(e),
            },
            final(self)@ == (if res is Ok {
                after_write(
                    old(self)@,
                    relabelled(old(self)@, id@, label@),
                    now,
                    old(self).writer(),
                )
            } else {
                old(self)@
            }),
    {
        proof {
            use_type_invariant(&*self);
        }
        if label.as_bytes().len() >= MAX_LABEL_LEN {
            return Err(StoreError::TooLong);
        }
        match self.get(id) {
            None => Err(StoreError::NotFound),
            Some(held) => {
                proof {
                    lemma_current_id(self@, id@);
                }
                let r = MessageRecord {
                    id: held.id,
                    label: label.to_owned(),
                    created: held.created,
                    is_delete: held.is_delete,
                };
                self.write(&r, now)
            },
        }
    }

    /// Marks the message under `id` as deleted by writing a tombstone under
    /// the same key. Refused with `NotFound`, and nothing changed, where the
    /// key has no readable record; with `Exhausted` where its stamps are
    /// used up.
    pub fn delete(&mut self, id: &str, now: u64) -> (res: Result<(), StoreError>)
        ensures
            old(self).wf(),
            final(self).wf(),
            final(self).writer() == old(self).writer(),
            match res {
                Ok(_) => delete_refusal(old(self)@, id@, now) is None && current(
                    final(self)@,
                    id@,
                ) == Some(tombstone(old(self)@, id@)),
                Err(e) => delete_refusal(old(self)@, id@, now) == Some(e),
            },
            final(self)@ == (if res is Ok {
                after_write(old(self)@, tombstone(old(self)@, id@), now, old(self).writer())
            } else {
                old(self)@
            }),
            res is Ok ==> forall|j: int|
                0 <= j < listing(final(self)@).len() ==> (#[trigger] listing(final(self)@)[j]).id
                    != id@,
    {
        proof {
            use_type_invariant(&*self);
        }
        match self.get(id) {
            None => Err(StoreError::NotFound),
            Some(held) => {
                proof {
                    lemma_current_id(self@, id@);
                    lemma_current_fits(self@, id@);
                }
                let r = MessageRecord {
                    id: held.id,
                    label: held.label,
                    created: held.created,
                    is_delete: true,
                };
                let res = self.write(&r, now);
                proof {
                    if res is Ok {
                        lemma_tombstone_not_listed(self@, id@);
                    }
                }
                res
            },
        }
    }
}

/// The record under `key` with its label replaced.
pub open spec fn relabelled(s: Seq<EntryView>, key: Seq<char>, label: Seq<char>) -> RecordView {
    let held = current(s, key)->Some_0;
    RecordView { id: held.id, label, created: held.created, is_delete: held.is_delete }
}

/// The record under `key` turned into a tombstone.
pub open spec fn tombstone(s: Seq<EntryView>, key: Seq<char>) -> RecordView {
    let held = current(s, key)->Some_0;
    RecordView { id: held.id, label: held.label, created: held.created, is_delete: true }
}

/// Why `update` refuses, if it does: the checks in the order they are made.
pub open spec fn update_refusal(
    s: Seq<EntryView>,
    key: Seq<char>,
    label: Seq<char>,
    now: u64,
) -> Option<StoreError> {
    if encode_utf8(label).len() >= MAX_LABEL_LEN {
        Some(StoreError::TooLong)
    } else if current(s, key) is None {
        Some(StoreError::NotFound)
    } else if serialized_len(relabelled(s, key, label)) >= MAX_RECORD_SIZE {
        Some(StoreError::TooLarge)
    } else if next_stamp(s, key, now) > u64::MAX {
        Some(StoreError::Exhausted)
    } else {
        None
    }
}

/// Why `delete` refuses, if it does.
pub open spec fn delete_refusal(s: Seq<EntryView>, key: Seq<char>, now: u64) -> Option<
    StoreError,
> {
    if current(s, key) is None {
        Some(StoreError::NotFound)
    } else if next_stamp(s, key, now) > u64::MAX {
        Some(StoreError::Exhausted)
    } else {
        None
    }
}

/// A write is later than the version it replaces.
pub proof fn lemma_write_is_later(s: Seq<EntryView>, r: RecordView, now: u64, writer: u64)
    requires
        has_key(s, r.id),
        next_stamp(s, r.id, now) <= u64::MAX,
    ensures
        supersedes(written(r, next_stamp(s, r.id, now) as u64, writer), s[position(s, r.id)]),
        next_stamp(s, r.id, now) >= now,
{
}

/// What is written here reaches a peer: a peer that holds nothing under the
/// key, or a version that is not later than the one this replica held when
/// it wrote, takes the written version when it arrives and then reads the
/// record that was written.
pub proof fn lemma_write_reaches_peer(
    s: Seq<EntryView>,
    peer: Seq<EntryView>,
    r: RecordView,
    now: u64,
    writer: u64,
)
    requires
        store_ok(s),
        store_ok(peer),
        encode_utf8(r.id).len() <= u64::MAX,
        write_refusal(s, r, now) is None,
        has_key(peer, r.id) ==> has_key(s, r.id) && peer[position(peer, r.id)].stamp
            <= s[position(s, r.id)].stamp,
    ensures
        ({
            let e = written(r, next_stamp(s, r.id, now) as u64, writer);
            &&& after_write(s, r, now, writer)[position(after_write(s, r, now, writer), r.id)]
                == e
            &&& accepts(peer, e)
            &&& store_ok(merged(peer, e))
            &&& current(merged(peer, e), r.id) == Some(r)
            &&& r.is_delete ==> forall|j: int|
                0 <= j < listing(merged(peer, e)).len() ==> (#[trigger] listing(
                    merged(peer, e),
                )[j]).id != r.id
        }),
{
    let e = written(r, next_stamp(s, r.id, now) as u64, writer);
    crate::record::lemma_round_trip(r);
    crate::record::lemma_serialized_len(r);
    lemma_put(s, e);
    lemma_put(peer, e);
    if r.is_delete {
        lemma_tombstone_not_listed(merged(peer, e), r.id);
    }
}

/// A deleted message stays readable under its key: after the tombstone was
/// written, the key resolves to the record it held, marked as deleted, and
/// an update of it is not refused as `NotFound`.
pub proof fn lemma_deleted_stays_readable(
    s: Seq<EntryView>,
    key: Seq<char>,
    now: u64,
    writer: u64,
)
    requires
        store_ok(s),
        current(s, key) is Some,
        encode_utf8(key).len() <= u64::MAX,
    ensures
        current(put(s, written(tombstone(s, key), now, writer)), key) == Some(tombstone(s, key)),
        forall|label: Seq<char>, at: u64|
            #[trigger] update_refusal(
                put(s, written(tombstone(s, key), now, writer)),
                key,
                label,
                at,
            ) != Some(StoreError::NotFound),
{
    let r = tombstone(s, key);
    let e = written(r, now, writer);
    lemma_current_id(s, key);
    lemma_current_fits(s, key);
    crate::record::lemma_round_trip(r);
    crate::record::lemma_serialized_len(r);
    lemma_put(s, e);
}

/// A message that was added and then deleted is not listed, and its key
/// still resolves: an update of it is not refused as `NotFound`.
pub proof fn lemma_add_then_delete(
    s: Seq<EntryView>,
    id: Seq<char>,
    label: Seq<char>,
    added: u64,
    deleted: u64,
    writer: u64,
)
    requires
        store_ok(s),
        encode_utf8(id).len() <= u64::MAX,
        serialized_len(RecordView { id, label, created: added, is_delete: false })
            < MAX_RECORD_SIZE,
    ensures
        ({
            let r = RecordView { id, label, created: added, is_delete: false };
            let after_add = put(s, written(r, added, writer));
            let after_delete = put(
                after_add,
                written(tombstone(after_add, id), deleted, writer),
            );
            &&& current(after_add, id) == Some(r)
            &&& current(after_delete, id) == Some(
                RecordView { id, label, created: added, is_delete: true },
            )
            &&& forall|j: int|
                0 <= j < listing(after_delete).len() ==> (#[trigger] listing(after_delete)[j]).id
                    != id
            &&& forall|other: Seq<char>, at: u64|
                #[trigger] update_refusal(after_delete, id, other, at) != Some(
                    StoreError::NotFound,
                )
        }),
{
    let r = RecordView { id, label, created: added, is_delete: false };
    let e = written(r, added, writer);
    crate::record::lemma_round_trip(r);
    crate::record::lemma_serialized_len(r);
    lemma_put(s, e);
    let after_add = put(s, e);
    lemma_deleted_stays_readable(after_add, id, deleted, writer);
    let gone = written(tombstone(after_add, id), deleted, writer);
    crate::record::lemma_round_trip(tombstone(after_add, id));
    crate::record::lemma_serialized_len(tombstone(after_add, id));
    lemma_put(after_add, gone);
    lemma_tombstone_not_listed(put(after_add, gone), id);
}

/// In a store that is in order, the readable record under a key carries that key as its id.
pub proof fn lemma_current_id(s: Seq<EntryView>, key: Seq<char>)
    requires
        store_ok(s),
        current(s, key) is Some,
    ensures
        current(s, key)->Some_0.id == key,
{
    let e = s[position(s, key)];
    assert(entry_ok(e));
}

/// In a store that is in order, the readable record under a key encodes to
/// fewer than [`MAX_RECORD_SIZE`] bytes.
pub proof fn lemma_current_fits(s: Seq<EntryView>, key: Seq<char>)
    requires
        store_ok(s),
        current(s, key) is Some,
    ensures
        serialized_len(current(s, key)->Some_0) < MAX_RECORD_SIZE,
{
    let e = s[position(s, key)];
    assert(entry_ok(e));
    let bytes = e.content->Some_0;
    crate::record::lemma_parsed_is_canonical(bytes);
    crate::record::lemma_serialized_len(parsed(bytes)->Some_0);
}

} // verus!
