//! Durable key/value store from (actor identity, idempotency key) to a saved
//! response snapshot. Its uniqueness guarantee is the system's sole
//! mutual-exclusion mechanism: no two `begin` calls for the same key can both
//! be told to start processing.

use vstd::prelude::*;

verus! {

/// Mathematical model of one response header.
#[verifier::ext_equal]
pub struct HdrV {
    pub name: Seq<char>,
    pub value: Seq<char>,
}

/// Mathematical model of a saved response snapshot.
#[verifier::ext_equal]
pub struct RespV {
    pub status: u16,
    pub headers: Seq<HdrV>,
    pub body: Seq<char>,
}

/// Mathematical model of one idempotency record. A record whose `response`
/// is `None` is in progress; once the response is set the record is never
/// changed again.
pub struct RecV {
    pub actor_id: u64,
    pub key: Seq<char>,
    pub created_at: u64,
    pub response: Option<RespV>,
}

/// One response header as stored and replayed.
pub struct HeaderPair {
    pub name: String,
    pub value: String,
}

impl View for HeaderPair {
    type V = HdrV;

    open spec fn view(&self) -> HdrV {
        HdrV { name: self.name@, value: self.value@ }
    }
}

/// Response snapshot as stored and replayed: status line, headers and body.
pub struct StoredResponse {
    pub status: u16,
    pub headers: Vec<HeaderPair>,
    pub body: String,
}

impl View for StoredResponse {
    type V = RespV;

    open spec fn view(&self) -> RespV {
        RespV {
            status: self.status,
            headers: self.headers@.map_values(|h: HeaderPair| h@),
            body: self.body@,
        }
    }
}

/// A faithful copy of a stored response, for replaying it while the record
/// keeps its own.
pub fn copy_response(r: &StoredResponse) -> (c: StoredResponse)
    ensures
        c@ == r@,
{
    let mut headers: Vec<HeaderPair> = Vec::new();
    let n = r.headers.len();
    let mut i: usize = 0;
    while i < n
        invariant
            n == r.headers.len(),
            i <= n,
            headers@.len() == i,
            forall|j: int| 0 <= j < i ==> (#[trigger] headers@[j])@ == r@.headers[j],
        decreases n - i,
    {
        let h = &r.headers[i];
        proof {
            assert(h@ == r@.headers[i as int]);
        }
        let pair = HeaderPair { name: h.name.clone(), value: h.value.clone() };
        proof {
            assert(pair@ == h@);
        }
        headers.push(pair);
        i += 1;
    }
    let c = StoredResponse { status: r.status, headers, body: r.body.clone() };
    proof {
        assert(c@.headers =~= r@.headers) by {
            assert(c@.headers.len() == n);
            assert forall|j: int| 0 <= j < n implies c@.headers[j] == r@.headers[j] by {
                assert(c@.headers[j] == (c.headers@[j])@);
            }
        }
        assert(c@ =~~= r@);
    }
    c
}

/// One row of the idempotency store.
pub struct IdempotencyRecord {
    pub actor_id: u64,
    pub key: String,
    pub created_at: u64,
    pub response: Option<StoredResponse>,
}

impl View for IdempotencyRecord {
    type V = RecV;

    open spec fn view(&self) -> RecV {
        RecV {
            actor_id: self.actor_id,
            key: self.key@,
            created_at: self.created_at,
            response: match self.response {
                Option::Some(r) => Option::Some(r@),
                Option::None => Option::None,
            },
        }
    }
}

/// Whether record `r` belongs to `(actor_id, key)`.
pub open spec fn rec_matches(r: RecV, actor_id: u64, key: Seq<char>) -> bool {
    r.actor_id == actor_id && r.key == key
}

/// Index of the first record for `(actor_id, key)`, or -1 when none exists.
pub open spec fn find_index(s: Seq<RecV>, actor_id: u64, key: Seq<char>) -> int
    decreases s.len(),
{
    if s.len() == 0 {
        -1
    } else if rec_matches(s[0], actor_id, key) {
        0
    } else {
        let r = find_index(s.drop_first(), actor_id, key);
        if r < 0 {
            -1
        } else {
            r + 1
        }
    }
}

pub open spec fn has_key(s: Seq<RecV>, actor_id: u64, key: Seq<char>) -> bool {
    find_index(s, actor_id, key) >= 0
}

/// The record stored under `(actor_id, key)`, if any.
pub open spec fn lookup(s: Seq<RecV>, actor_id: u64, key: Seq<char>) -> Option<RecV> {
    if has_key(s, actor_id, key) {
        Option::Some(s[find_index(s, actor_id, key)])
    } else {
        Option::None
    }
}

/// Key uniqueness: at most one record per (actor, key) pair.
pub open spec fn store_wf(s: Seq<RecV>) -> bool {
    forall|i: int, j: int|
        0 <= i < j < s.len() ==> !(s[i].actor_id == s[j].actor_id && s[i].key == s[j].key)
}

pub proof fn lemma_find_index_props(s: Seq<RecV>, actor_id: u64, key: Seq<char>)
    ensures
        has_key(s, actor_id, key) ==> {
            let i = find_index(s, actor_id, key);
            &&& 0 <= i < s.len()
            &&& rec_matches(s[i], actor_id, key)
            &&& forall|j: int| 0 <= j < i ==> !rec_matches(s[j], actor_id, key)
        },
        !has_key(s, actor_id, key) ==> forall|j: int|
            0 <= j < s.len() ==> !rec_matches(s[j], actor_id, key),
    decreases s.len(),
{
    if s.len() > 0 && !rec_matches(s[0], actor_id, key) {
        let t = s.drop_first();
        lemma_find_index_props(t, actor_id, key);
        if has_key(t, actor_id, key) {
            let it = find_index(t, actor_id, key);
            let i = find_index(s, actor_id, key);
            assert(i == it + 1);
            assert(s[i] == t[it]);
            assert forall|j: int| 0 <= j < i implies !rec_matches(s[j], actor_id, key) by {
                if j > 0 {
                    assert(s[j] == t[j - 1]);
                }
            }
        } else {
            assert forall|j: int| 0 <= j < s.len() implies !rec_matches(s[j], actor_id, key) by {
                if j > 0 {
                    assert(s[j] == t[j - 1]);
                }
            }
        }
    }
}

/// The first match determines `find_index`.
pub proof fn lemma_first_match(s: Seq<RecV>, actor_id: u64, key: Seq<char>, i: int)
    requires
        0 <= i < s.len(),
        rec_matches(s[i], actor_id, key),
        forall|j: int| 0 <= j < i ==> !rec_matches(s[j], actor_id, key),
    ensures
        find_index(s, actor_id, key) == i,
    decreases i,
{
    if i == 0 {
    } else {
        let t = s.drop_first();
        assert(forall|j: int| 0 <= j < t.len() ==> t[j] == s[j + 1]);
        lemma_first_match(t, actor_id, key, i - 1);
    }
}

/// `find_index` depends only on which positions match.
pub proof fn lemma_find_index_congruence(s1: Seq<RecV>, s2: Seq<RecV>, actor_id: u64, key: Seq<char>)
    requires
        s1.len() == s2.len(),
        forall|j: int|
            0 <= j < s1.len() ==> (rec_matches(s1[j], actor_id, key) <==> rec_matches(
                s2[j],
                actor_id,
                key,
            )),
    ensures
        find_index(s1, actor_id, key) == find_index(s2, actor_id, key),
{
    lemma_find_index_props(s1, actor_id, key);
    lemma_find_index_props(s2, actor_id, key);
    if has_key(s1, actor_id, key) {
        let i1 = find_index(s1, actor_id, key);
        lemma_first_match(s2, actor_id, key, i1);
    } else if has_key(s2, actor_id, key) {
        let i2 = find_index(s2, actor_id, key);
        assert(rec_matches(s1[i2], actor_id, key));
    }
}

/// Appending a record for a fresh key makes that key found at the end.
pub proof fn lemma_lookup_push_same(s: Seq<RecV>, rec: RecV)
    requires
        !has_key(s, rec.actor_id, rec.key),
    ensures
        lookup(s.push(rec), rec.actor_id, rec.key) == Option::Some(rec),
{
    lemma_find_index_props(s, rec.actor_id, rec.key);
    let p = s.push(rec);
    lemma_first_match(p, rec.actor_id, rec.key, s.len() as int);
}

/// Appending a record leaves every other key's lookup unchanged.
pub proof fn lemma_lookup_push_other(s: Seq<RecV>, rec: RecV, actor_id: u64, key: Seq<char>)
    requires
        !(rec.actor_id == actor_id && rec.key == key),
    ensures
        lookup(s.push(rec), actor_id, key) == lookup(s, actor_id, key),
{
    lemma_find_index_props(s, actor_id, key);
    let p = s.push(rec);
    if has_key(s, actor_id, key) {
        let i = find_index(s, actor_id, key);
        lemma_first_match(p, actor_id, key, i);
    } else {
        lemma_find_index_props(p, actor_id, key);
        if has_key(p, actor_id, key) {
            let i = find_index(p, actor_id, key);
            assert(rec_matches(p[i], actor_id, key));
            assert(i < s.len() ==> rec_matches(s[i], actor_id, key));
        }
    }
}

/// A key-preserving update at the found index changes that key's record and
/// no other key's lookup.
pub proof fn lemma_lookup_update(s: Seq<RecV>, actor_id: u64, key: Seq<char>, rec: RecV)
    requires
        has_key(s, actor_id, key),
        rec.actor_id == s[find_index(s, actor_id, key)].actor_id,
        rec.key == s[find_index(s, actor_id, key)].key,
    ensures
        lookup(s.update(find_index(s, actor_id, key), rec), actor_id, key) == Option::Some(rec),
        forall|a2: u64, k2: Seq<char>|
            !(a2 == actor_id && k2 == key) ==> #[trigger] lookup(
                s.update(find_index(s, actor_id, key), rec),
                a2,
                k2,
            ) == lookup(s, a2, k2),
{
    lemma_find_index_props(s, actor_id, key);
    let i = find_index(s, actor_id, key);
    let u = s.update(i, rec);
    assert(rec_matches(u[i], actor_id, key));
    lemma_first_match(u, actor_id, key, i);
    assert forall|a2: u64, k2: Seq<char>| !(a2 == actor_id && k2 == key) implies #[trigger] lookup(
        u,
        a2,
        k2,
    ) == lookup(s, a2, k2) by {
        assert(!rec_matches(rec, a2, k2));
        assert(forall|j: int|
            0 <= j < s.len() ==> (rec_matches(u[j], a2, k2) <==> rec_matches(s[j], a2, k2)));
        lemma_find_index_congruence(u, s, a2, k2);
        lemma_find_index_props(s, a2, k2);
    }
}

/// Outcome of an attempt to reserve an idempotency key.
pub enum BeginOutcome {
    /// The key was fresh: the caller now owns processing for it.
    Started,
    /// Another request holds the key and has not finalized yet.
    InProgress,
    /// The key was already processed: the saved response is replayed.
    Finalized(StoredResponse),
}

/// Spec-level mirror of `BeginOutcome`.
pub enum BeginV {
    Started,
    InProgress,
    Finalized(RespV),
}

impl View for BeginOutcome {
    type V = BeginV;

    open spec fn view(&self) -> BeginV {
        match self {
            BeginOutcome::Started => BeginV::Started,
            BeginOutcome::InProgress => BeginV::InProgress,
            BeginOutcome::Finalized(r) => BeginV::Finalized(r@),
        }
    }
}

pub open spec fn new_record(actor_id: u64, key: Seq<char>, now: u64) -> RecV {
    RecV { actor_id, key, created_at: now, response: Option::None }
}

/// What `begin` does: insert an in-progress record when the key is fresh,
/// otherwise report the key's current stage and leave the store unchanged.
pub open spec fn begin_spec(s: Seq<RecV>, actor_id: u64, key: Seq<char>, now: u64) -> (Seq<
    RecV,
>, BeginV) {
    match lookup(s, actor_id, key) {
        Option::None => (s.push(new_record(actor_id, key, now)), BeginV::Started),
        Option::Some(r) => match r.response {
            Option::None => (s, BeginV::InProgress),
            Option::Some(p) => (s, BeginV::Finalized(p)),
        },
    }
}

/// What `finalize` does: set the response of the in-progress record.
pub open spec fn finalize_spec(s: Seq<RecV>, actor_id: u64, key: Seq<char>, resp: RespV) -> Seq<
    RecV,
> {
    let i = find_index(s, actor_id, key);
    s.update(i, RecV { response: Option::Some(resp), ..s[i] })
}

/// The idempotency store. Backed by durable storage in a deployment; the
/// uniqueness of `(actor_id, key)` is its load-bearing invariant.
pub struct IdempotencyStore {
    records: Vec<IdempotencyRecord>,
}

impl View for IdempotencyStore {
    type V = Seq<RecV>;

    closed spec fn view(&self) -> Seq<RecV> {
        self.records@.map_values(|r: IdempotencyRecord| r@)
    }
}

impl IdempotencyStore {
    pub open spec fn wf(&self) -> bool {
        store_wf(self@)
    }

    pub fn new() -> (s: Self)
        ensures
            s@ =~= Seq::<RecV>::empty(),
            s.wf(),
    {
        let s = IdempotencyStore { records: Vec::new() };
        proof {
            assert(s@ =~= Seq::<RecV>::empty());
        }
        s
    }

    /// Index of the record for `(actor_id, key)` in this store, if present.
    fn find(&self, actor_id: u64, key: &String) -> (r: Option<usize>)
        ensures
            match r {
                Option::Some(i) => i < self@.len() && i as int == find_index(
                    self@,
                    actor_id,
                    key@,
                ),
                Option::None => !has_key(self@, actor_id, key@),
            },
    {
        let n = self.records.len();
        let mut i: usize = 0;
        while i < n
            invariant
                n == self.records.len(),
                i <= n,
                self@.len() == n,
                forall|j: int| 0 <= j < i ==> !rec_matches(self@[j], actor_id, key@),
            decreases n - i,
        {
            let rec = &self.records[i];
            if rec.actor_id == actor_id && rec.key == *key {
                proof {
                    lemma_first_match(self@, actor_id, key@, i as int);
                }
                return Some(i);
            }
            i += 1;
        }
        proof {
            lemma_find_index_props(self@, actor_id, key@);
            if has_key(self@, actor_id, key@) {
                let ix = find_index(self@, actor_id, key@);
                assert(rec_matches(self@[ix], actor_id, key@));
            }
        }
        None
    }

    /// Attempt to insert an in-progress record for `(actor_id, key)`.
    ///
    /// `Started` is returned exactly when the key was fresh; then the caller
    /// owns first-time processing. A duplicate key yields `InProgress` or the
    /// finalized response, and the store is left untouched.
    pub fn begin(&mut self, actor_id: u64, key: &String, now: u64) -> (r: BeginOutcome)
        requires
            old(self).wf(),
        ensures
            final(self).wf(),
            (final(self)@, r@) == begin_spec(old(self)@, actor_id, key@, now),
    {
        let found = self.find(actor_id, key);
        match found {
            Option::None => {
                proof {
                    lemma_find_index_props(self@, actor_id, key@);
                }
                let ghost prev = self@;
                let rec = IdempotencyRecord {
                    actor_id,
                    key: key.clone(),
                    created_at: now,
                    response: None,
                };
                proof {
                    assert(rec@ == new_record(actor_id, key@, now));
                }
                self.records.push(rec);
                proof {
                    assert(self@ =~= prev.push(new_record(actor_id, key@, now)));
                    assert forall|i: int, j: int| 0 <= i < j < self@.len() implies !(self@[i].actor_id
                        == self@[j].actor_id && self@[i].key == self@[j].key) by {
                        if j == self@.len() - 1 {
                            assert(!rec_matches(prev[i], actor_id, key@));
                        }
                    }
                }
                BeginOutcome::Started
            },
            Option::Some(i) => {
                match &self.records[i].response {
                    Option::None => BeginOutcome::InProgress,
                    Option::Some(resp) => BeginOutcome::Finalized(copy_response(resp)),
                }
            },
        }
    }

    /// Set the response of the in-progress record for `(actor_id, key)`.
    ///
    /// Finalizing twice is a programming error: the record to finalize must
    /// still be in progress, so a finalized record is immutable forever.
    pub fn finalize(&mut self, actor_id: u64, key: &String, response: StoredResponse)
        requires
            old(self).wf(),
            lookup(old(self)@, actor_id, key@) matches Option::Some(r) && r.response is None,
        ensures
            final(self).wf(),
            final(self)@ == finalize_spec(old(self)@, actor_id, key@, response@),
    {
        proof {
            lemma_find_index_props(self@, actor_id, key@);
        }
        let found = self.find(actor_id, key);
        match found {
            Option::Some(i) => {
                let ghost prev = self@;
                let ghost ix = i as int;
                let old_rec = self.records.remove(i);
                let new_rec = IdempotencyRecord {
                    actor_id: old_rec.actor_id,
                    key: old_rec.key,
                    created_at: old_rec.created_at,
                    response: Some(response),
                };
                self.records.insert(i, new_rec);
                proof {
                    assert(self@ =~= prev.update(ix, RecV {
                        response: Option::Some(response@),
                        ..prev[ix]
                    }));
                    assert forall|a: int, b: int| 0 <= a < b < self@.len() implies !(self@[a].actor_id
                        == self@[b].actor_id && self@[a].key == self@[b].key) by {
                        assert(prev[a].actor_id == self@[a].actor_id && prev[a].key == self@[a].key);
                        assert(prev[b].actor_id == self@[b].actor_id && prev[b].key == self@[b].key);
                    }
                }
            },
            Option::None => {
                proof {
                    assert(false);
                }
            },
        }
    }

    /// Read the record saved under `(actor_id, key)`, if any.
    pub fn load(&self, actor_id: u64, key: &String) -> (r: Option<IdempotencyRecord>)
        ensures
            match r {
                Option::Some(rec) => lookup(self@, actor_id, key@) == Option::Some(rec@),
                Option::None => lookup(self@, actor_id, key@) is None,
            },
    {
        proof {
            lemma_find_index_props(self@, actor_id, key@);
        }
        match self.find(actor_id, key) {
            Option::Some(i) => {
                let rec = &self.records[i];
                Some(IdempotencyRecord {
                    actor_id: rec.actor_id,
                    key: rec.key.clone(),
                    created_at: rec.created_at,
                    response: match &rec.response {
                        Option::Some(p) => Some(copy_response(p)),
                        Option::None => None,
                    },
                })
            },
            Option::None => None,
        }
    }
}

/// Law: storage-level mutual exclusion. Of two `begin` reservations for the
/// same (actor, key), one after the other in any interleaving, at most one
/// can be told to start processing.
pub proof fn lemma_begin_mutual_exclusion(
    s: Seq<RecV>,
    actor_id: u64,
    key: Seq<char>,
    now1: u64,
    now2: u64,
)
    ensures
        ({
            let (s1, r1) = begin_spec(s, actor_id, key, now1);
            let (s2, r2) = begin_spec(s1, actor_id, key, now2);
            !(r1 == BeginV::Started && r2 == BeginV::Started)
        }),
{
    let (s1, r1) = begin_spec(s, actor_id, key, now1);
    if r1 == BeginV::Started {
        lemma_lookup_push_same(s, new_record(actor_id, key, now1));
    }
}

/// Law: a reservation is never lost. Whatever later reservation attempts
/// or finalizations run — for this key or any other — the key stays known,
/// so of any number of racing requests only the one that reserved the key
/// first is ever told to start processing.
pub proof fn lemma_reservation_is_stable(
    s: Seq<RecV>,
    actor_id: u64,
    key: Seq<char>,
    a2: u64,
    k2: Seq<char>,
    now: u64,
    resp: RespV,
)
    requires
        has_key(s, actor_id, key),
    ensures
        has_key(begin_spec(s, a2, k2, now).0, actor_id, key),
        (lookup(s, a2, k2) matches Option::Some(r) && r.response is None) ==> has_key(
            finalize_spec(s, a2, k2, resp),
            actor_id,
            key,
        ),
{
    if lookup(s, a2, k2) is None {
        if a2 == actor_id && k2 == key {
            assert(false);
        } else {
            lemma_lookup_push_other(s, new_record(a2, k2, now), actor_id, key);
        }
    }
    if lookup(s, a2, k2) matches Option::Some(r) && r.response is None {
        lemma_find_index_props(s, a2, k2);
        let i2 = find_index(s, a2, k2);
        let s2 = finalize_spec(s, a2, k2, resp);
        lemma_find_index_props(s, actor_id, key);
        assert(forall|j: int|
            0 <= j < s.len() ==> (rec_matches(s2[j], actor_id, key) <==> rec_matches(
                s[j],
                actor_id,
                key,
            )));
        lemma_find_index_congruence(s2, s, actor_id, key);
    }
}

/// Law: a finalized record is immutable. Neither a later reservation attempt
/// for any key nor a finalization of a different in-progress key changes the
/// response saved under `(actor_id, key)`.
pub proof fn lemma_finalized_response_is_stable(
    s: Seq<RecV>,
    actor_id: u64,
    key: Seq<char>,
    p: RespV,
    a2: u64,
    k2: Seq<char>,
    now: u64,
    resp2: RespV,
)
    requires
        lookup(s, actor_id, key) matches Option::Some(r) && r.response == Option::Some(p),
    ensures
        ({
            let (s1, r1) = begin_spec(s, a2, k2, now);
            lookup(s1, actor_id, key) matches Option::Some(r) && r.response == Option::Some(p)
        }),
        (lookup(s, a2, k2) matches Option::Some(r) && r.response is None) ==> ({
            let s1 = finalize_spec(s, a2, k2, resp2);
            lookup(s1, actor_id, key) matches Option::Some(r) && r.response == Option::Some(p)
        }),
{
    let (s1, r1) = begin_spec(s, a2, k2, now);
    if lookup(s, a2, k2) is None {
        if a2 == actor_id && k2 == key {
            assert(false);
        } else {
            lemma_lookup_push_other(s, new_record(a2, k2, now), actor_id, key);
        }
    }
    if lookup(s, a2, k2) matches Option::Some(r) && r.response is None {
        if a2 == actor_id && k2 == key {
            assert(false);
        } else {
            lemma_find_index_props(s, a2, k2);
            let i = find_index(s, a2, k2);
            lemma_lookup_update(s, a2, k2, RecV { response: Option::Some(resp2), ..s[i] });
        }
    }
}

} // verus!
