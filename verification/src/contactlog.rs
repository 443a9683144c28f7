//! Implements the contact log.

use vstd::prelude::*;
use crate::auth::{reveal_spec, ShareIdentity, UniqueIdentity};
use crate::crypto::SecretKey;

verus! {

/// Represents contacts observed recently: each distinct envelope with the
/// timestamp it was last seen at (milliseconds since the Unix epoch).
pub struct ContactLog {
    seen: Vec<(ShareIdentity, i64)>,
}

// The mapping from envelope bytes to last-seen timestamp that the entries hold.
spec fn log_map(s: Seq<(ShareIdentity, i64)>) -> Map<Seq<u8>, int>
    decreases s.len(),
{
    if s.len() == 0 {
        Map::empty()
    } else {
        log_map(s.drop_last()).insert(s.last().0@, s.last().1 as int)
    }
}

spec fn entries_distinct(s: Seq<(ShareIdentity, i64)>) -> bool {
    forall|i: int, j: int| 0 <= i < j < s.len() ==> s[i].0@ != s[j].0@
}

impl View for ContactLog {
    type V = Map<Seq<u8>, int>;

    closed spec fn view(&self) -> Map<Seq<u8>, int> {
        log_map(self.seen@)
    }
}

proof fn lemma_log_map_dom(s: Seq<(ShareIdentity, i64)>)
    ensures
        forall|k: Seq<u8>|
            log_map(s).dom().contains(k) <==> exists|i: int| 0 <= i < s.len() && s[i].0@ == k,
    decreases s.len(),
{
    if s.len() > 0 {
        let d = s.drop_last();
        lemma_log_map_dom(d);
        assert forall|k: Seq<u8>| log_map(s).dom().contains(k) implies exists|i: int|
            0 <= i < s.len() && s[i].0@ == k by {
            if k == s.last().0@ {
                assert(s[s.len() - 1].0@ == k);
            } else {
                assert(log_map(d).dom().contains(k));
                let i = choose|i: int| 0 <= i < d.len() && d[i].0@ == k;
                assert(s[i] == d[i]);
                assert(s[i].0@ == k);
            }
        }
        assert forall|k: Seq<u8>| (exists|i: int| 0 <= i < s.len() && s[i].0@ == k) implies log_map(
            s,
        ).dom().contains(k) by {
            let i = choose|i: int| 0 <= i < s.len() && s[i].0@ == k;
            if i < s.len() - 1 {
                assert(d[i] == s[i]);
                assert(d[i].0@ == k);
                assert(log_map(d).dom().contains(k));
            }
        }
    }
}

proof fn lemma_log_map_value(s: Seq<(ShareIdentity, i64)>, i: int)
    requires
        entries_distinct(s),
        0 <= i < s.len(),
    ensures
        log_map(s).dom().contains(s[i].0@),
        log_map(s)[s[i].0@] == s[i].1 as int,
    decreases s.len(),
{
    if i < s.len() - 1 {
        assert(entries_distinct(s.drop_last()));
        lemma_log_map_value(s.drop_last(), i);
        assert(s.drop_last()[i] == s[i]);
        assert(s[i].0@ != s.last().0@);
    }
}

proof fn lemma_log_map_card(s: Seq<(ShareIdentity, i64)>)
    requires
        entries_distinct(s),
    ensures
        log_map(s).dom().finite(),
        log_map(s).dom().len() == s.len(),
    decreases s.len(),
{
    if s.len() > 0 {
        assert(entries_distinct(s.drop_last()));
        lemma_log_map_card(s.drop_last());
        lemma_log_map_dom(s.drop_last());
        assert(!log_map(s.drop_last()).dom().contains(s.last().0@));
    }
}

proof fn lemma_log_map_update(s: Seq<(ShareIdentity, i64)>, i: int, v: (ShareIdentity, i64))
    requires
        entries_distinct(s),
        0 <= i < s.len(),
        v.0@ == s[i].0@,
    ensures
        log_map(s.update(i, v)) == log_map(s).insert(v.0@, v.1 as int),
    decreases s.len(),
{
    if i == s.len() - 1 {
        assert(s.update(i, v).drop_last() =~= s.drop_last());
        assert(s.update(i, v).last() == v);
        assert(log_map(s.update(i, v)) =~= log_map(s).insert(v.0@, v.1 as int));
    } else {
        assert(entries_distinct(s.drop_last()));
        assert(s.update(i, v).drop_last() =~= s.drop_last().update(i, v));
        assert(s.drop_last()[i] == s[i]);
        lemma_log_map_update(s.drop_last(), i, v);
        assert(s.update(i, v).last() == s.last());
        assert(v.0@ != s.last().0@);
        assert(log_map(s.update(i, v)) =~= log_map(s).insert(v.0@, v.1 as int));
    }
}

// Looks up a revealed identity among the decoded entries.
fn find_uid(rv: &Vec<(UniqueIdentity, i64)>, u: &UniqueIdentity) -> (r: Option<usize>)
    ensures
        match r {
            Some(k) => k < rv@.len() && rv@[k as int].0@ == u@,
            None => forall|i: int| 0 <= i < rv@.len() ==> rv@[i].0@ != u@,
        },
{
    let mut k: usize = 0;
    while k < rv.len()
        invariant
            k <= rv@.len(),
            forall|i: int| 0 <= i < k ==> rv@[i].0@ != u@,
        decreases rv@.len() - k,
    {
        if rv[k].0 == *u {
            return Some(k);
        }
        k = k + 1;
    }
    None
}

/// Relies on `chrono::Utc::now` for the current wall-clock time, reduced to
/// milliseconds since the Unix epoch; nothing is promised of the value.
#[verifier::external_body]
fn now_ts() -> i64 {
    chrono::Utc::now().timestamp_millis()
}

/// Every envelope recorded in the log opens under the given secret key.
pub open spec fn decode_ok(m: Map<Seq<u8>, int>, sk: Seq<u8>) -> bool {
    forall|e: Seq<u8>| m.dom().contains(e) ==> reveal_spec(e, sk) is Some
}

/// The pair `(u, t)` is a correct decoded entry: some recorded envelope
/// reveals `u` at timestamp `t`, and no recorded envelope revealing `u` has a
/// later timestamp.
pub open spec fn decoded_entry_ok(m: Map<Seq<u8>, int>, sk: Seq<u8>, u: Seq<u8>, t: int) -> bool {
    &&& exists|e: Seq<u8>| m.dom().contains(e) && reveal_spec(e, sk) == Some(u) && m[e] == t
    &&& forall|e: Seq<u8>| m.dom().contains(e) && reveal_spec(e, sk) == Some(u) ==> m[e] <= t
}

/// The decoded entries are exactly the revealed identities, one per distinct
/// identity, each with the latest timestamp it was recorded at.
pub open spec fn decoded_ok(m: Map<Seq<u8>, int>, sk: Seq<u8>, d: Seq<(UniqueIdentity, i64)>) -> bool {
    &&& forall|i: int, j: int| 0 <= i < j < d.len() ==> d[i].0@ != d[j].0@
    &&& forall|i: int|
        0 <= i < d.len() ==> d[i].0.wf() && decoded_entry_ok(m, sk, d[i].0@, d[i].1 as int)
    &&& forall|e: Seq<u8>|
        m.dom().contains(e) && reveal_spec(e, sk) is Some ==> exists|i: int|
            0 <= i < d.len() && d[i].0@ == reveal_spec(e, sk)->0
}

impl ContactLog {
    /// The recorded envelopes are pairwise distinct.
    pub closed spec fn wf(&self) -> bool {
        entries_distinct(self.seen@)
    }

    /// Creates an empty contact log.
    pub fn new() -> (r: ContactLog)
        ensures
            r.wf(),
            r@ == Map::<Seq<u8>, int>::empty(),
    {
        ContactLog { seen: Vec::new() }
    }

    /// The number of distinct envelopes recorded.
    pub fn len(&self) -> (r: usize)
        requires
            self.wf(),
        ensures
            r as int == self@.dom().len(),
    {
        proof {
            lemma_log_map_card(self.seen@);
        }
        self.seen.len()
    }

    /// Returns the recorded entries: each distinct envelope with its
    /// last-seen timestamp.
    pub fn entries(&self) -> (r: &Vec<(ShareIdentity, i64)>)
        requires
            self.wf(),
        ensures
            forall|i: int, j: int| 0 <= i < j < r@.len() ==> r@[i].0@ != r@[j].0@,
            forall|i: int|
                #![trigger r@[i]]
                0 <= i < r@.len() ==> self@.dom().contains(r@[i].0@) && self@[r@[i].0@]
                    == r@[i].1 as int,
            r@.len() == self@.dom().len(),
    {
        proof {
            lemma_log_map_card(self.seen@);
            assert forall|i: int| #![trigger self.seen@[i]] 0 <= i < self.seen@.len() implies self@.dom().contains(
                self.seen@[i].0@,
            ) && self@[self.seen@[i].0@] == self.seen@[i].1 as int by {
                lemma_log_map_value(self.seen@, i);
            }
        }
        &self.seen
    }

    /// Registers a contact at the given timestamp; re-adding an envelope
    /// overwrites its timestamp (last-seen semantics).
    pub fn add_at(&mut self, share_id: &ShareIdentity, timestamp: i64)
        requires
            old(self).wf(),
        ensures
            final(self).wf(),
            final(self)@ == old(self)@.insert(share_id@, timestamp as int),
    {
        let ghost s0 = self.seen@;
        let n = self.seen.len();
        let mut i: usize = 0;
        while i < n
            invariant
                n == self.seen@.len(),
                i <= n,
                self.seen@ == s0,
                s0 == old(self).seen@,
                entries_distinct(s0),
                forall|j: int| 0 <= j < i ==> s0[j].0@ != share_id@,
            decreases n - i,
        {
            if self.seen[i].0 == *share_id {
                proof {
                    assert(s0[i as int].0@ == share_id@);
                }
                self.seen[i].1 = timestamp;
                proof {
                    assert(self.seen@ =~= s0.update(i as int, (s0[i as int].0, timestamp)));
                    lemma_log_map_update(s0, i as int, (s0[i as int].0, timestamp));
                    assert(entries_distinct(self.seen@));
                    assert(self@ == old(self)@.insert(share_id@, timestamp as int));
                }
                return;
            }
            i = i + 1;
        }
        self.seen.push((share_id.clone(), timestamp));
        proof {
            assert(self.seen@.drop_last() =~= s0);
            assert(self.seen@.last().0@ == share_id@);
            assert(entries_distinct(self.seen@));
        }
    }

    /// Registers a contact and the current timestamp.
    pub fn add(&mut self, share_id: &ShareIdentity)
        requires
            old(self).wf(),
        ensures
            final(self).wf(),
            exists|t: int| final(self)@ == old(self)@.insert(share_id@, t),
    {
        let t = now_ts();
        self.add_at(share_id, t);
    }

    /// Decodes the contacts with the secret key of the authority.
    ///
    /// This yields nothing if any envelope fails to open (invalid key or
    /// data); partial results are never surfaced.  On success it yields one
    /// entry per distinct revealed identity, deduplicated to the latest
    /// timestamp; no order is promised.
    #[verifier::rlimit(50)]
    pub fn decode(&self, secret_key: &SecretKey) -> (r: Option<Vec<(UniqueIdentity, i64)>>)
        requires
            self.wf(),
            secret_key.wf(),
        ensures
            r is Some <==> decode_ok(self@, secret_key@),
            match r {
                Some(v) => decoded_ok(self@, secret_key@, v@),
                None => !decode_ok(self@, secret_key@),
            },
    {
        let ghost s = self.seen@;
        let ghost sk = secret_key@;
        let mut rv: Vec<(UniqueIdentity, i64)> = Vec::new();
        let n = self.seen.len();
        let mut idx: usize = 0;
        while idx < n
            invariant
                self.wf(),
                secret_key.wf(),
                s == self.seen@,
                sk == secret_key@,
                n == s.len(),
                idx <= n,
                forall|j: int| 0 <= j < idx ==> reveal_spec(s[j].0@, sk) is Some,
                forall|i: int, j: int| 0 <= i < j < rv@.len() ==> rv@[i].0@ != rv@[j].0@,
                forall|i: int| 0 <= i < rv@.len() ==> rv@[i].0.wf(),
                forall|i: int|
                    #![trigger rv@[i]]
                    0 <= i < rv@.len() ==> exists|j: int|
                        #![trigger s[j]]
                        0 <= j < idx && reveal_spec(s[j].0@, sk) == Some(rv@[i].0@) && s[j].1
                            == rv@[i].1,
                forall|i: int, j: int|
                    0 <= i < rv@.len() && 0 <= j < idx && reveal_spec(s[j].0@, sk) == Some(
                        rv@[i].0@,
                    ) ==> s[j].1 <= rv@[i].1,
                forall|j: int|
                    #![trigger s[j]]
                    0 <= j < idx ==> exists|i: int|
                        #![trigger rv@[i]]
                        0 <= i < rv@.len() && rv@[i].0@ == reveal_spec(s[j].0@, sk)->0,
            decreases n - idx,
        {
            let entry = &self.seen[idx];
            let revealed = entry.0.reveal_identity(secret_key);
            let u = match revealed {
                Some(u) => u,
                None => {
                    proof {
                        lemma_log_map_dom(s);
                        assert(self@.dom().contains(s[idx as int].0@));
                        assert(!decode_ok(self@, sk));
                    }
                    return None;
                },
            };
            let ts = entry.1;
            let ghost rv0 = rv@;
            proof {
                assert(reveal_spec(s[idx as int].0@, sk) == Some(u@));
                assert(s[idx as int].1 == ts);
            }
            match find_uid(&rv, &u) {
                Some(k) => {
                    proof {
                        assert(rv0[k as int].0@ == u@);
                    }
                    if rv[k].1 < ts {
                        rv[k].1 = ts;
                        proof {
                            assert(rv@ =~= rv0.update(k as int, (rv0[k as int].0, ts)));
                            assert(forall|i: int|
                                0 <= i < rv@.len() && i != k ==> rv@[i] == rv0[i]);
                            assert(rv@[k as int].0@ == u@ && rv@[k as int].1 == ts);
                        }
                    }
                    proof {
                        assert(rv@[k as int].0@ == u@);
                        assert(rv@[k as int].1 >= ts);
                        // the new envelope reveals the identity at k, so no
                        // other entry's maximum is affected
                        assert forall|i: int, j: int|
                            0 <= i < rv@.len() && 0 <= j < idx + 1 && reveal_spec(s[j].0@, sk)
                                == Some(rv@[i].0@) implies s[j].1 <= rv@[i].1 by {
                            if j == idx as int && i != k as int {
                                assert(rv@[i].0@ != rv@[k as int].0@);
                            }
                        }
                        assert forall|i: int| #![trigger rv@[i]] 0 <= i < rv@.len() implies exists|
                            j: int,
                        |
                            #![trigger s[j]]
                            0 <= j < idx + 1 && reveal_spec(s[j].0@, sk) == Some(rv@[i].0@) && s[j].1
                                == rv@[i].1 by {
                            if i == k as int && rv@[k as int].1 == ts {
                                assert(reveal_spec(s[idx as int].0@, sk) == Some(rv@[i].0@)
                                    && s[idx as int].1 == rv@[i].1);
                            } else {
                                let j0 = choose|j0: int|
                                    #![trigger s[j0]]
                                    0 <= j0 < idx && reveal_spec(s[j0].0@, sk) == Some(rv0[i].0@)
                                        && s[j0].1 == rv0[i].1;
                                if i == k as int {
                                    assert(rv@[i] == rv0[i]);
                                }
                                assert(0 <= j0 < idx + 1 && reveal_spec(s[j0].0@, sk) == Some(
                                    rv@[i].0@,
                                ) && s[j0].1 == rv@[i].1);
                            }
                        }
                    }
                },
                None => {
                    proof {
                        assert(forall|i: int| 0 <= i < rv0.len() ==> rv0[i].0@ != u@);
                    }
                    rv.push((u, ts));
                    proof {
                        assert(rv@.drop_last() =~= rv0);
                        assert(rv@[rv@.len() - 1] == (u, ts));
                        assert(forall|i: int| 0 <= i < rv0.len() ==> rv@[i] == rv0[i]);
                        // no earlier envelope reveals the new identity: otherwise the
                        // completeness invariant would have put it into the results
                        assert forall|i: int, j: int|
                            0 <= i < rv@.len() && 0 <= j < idx + 1 && reveal_spec(s[j].0@, sk)
                                == Some(rv@[i].0@) implies s[j].1 <= rv@[i].1 by {
                            if i == rv@.len() - 1 && j < idx as int {
                                assert(reveal_spec(s[j].0@, sk) is Some);
                                let i0 = choose|i0: int|
                                    #![trigger rv0[i0]]
                                    0 <= i0 < rv0.len() && rv0[i0].0@ == reveal_spec(
                                        s[j].0@,
                                        sk,
                                    )->0;
                                assert(rv0[i0].0@ == u@);
                                assert(false);
                            }
                        }
                        assert forall|i: int| #![trigger rv@[i]] 0 <= i < rv@.len() implies exists|
                            j: int,
                        |
                            #![trigger s[j]]
                            0 <= j < idx + 1 && reveal_spec(s[j].0@, sk) == Some(rv@[i].0@) && s[j].1
                                == rv@[i].1 by {
                            if i == rv@.len() - 1 {
                                assert(reveal_spec(s[idx as int].0@, sk) == Some(rv@[i].0@)
                                    && s[idx as int].1 == rv@[i].1);
                            } else {
                                let j0 = choose|j0: int|
                                    #![trigger s[j0]]
                                    0 <= j0 < idx && reveal_spec(s[j0].0@, sk) == Some(rv0[i].0@)
                                        && s[j0].1 == rv0[i].1;
                                assert(0 <= j0 < idx + 1 && reveal_spec(s[j0].0@, sk) == Some(
                                    rv@[i].0@,
                                ) && s[j0].1 == rv@[i].1);
                            }
                        }
                    }
                },
            }
            idx = idx + 1;
        }
        proof {
            lemma_log_map_dom(s);
            let m = self@;
            assert forall|e: Seq<u8>| m.dom().contains(e) implies reveal_spec(e, sk) is Some by {
                let j = choose|j: int| 0 <= j < s.len() && s[j].0@ == e;
                assert(reveal_spec(s[j].0@, sk) is Some);
            }
            assert forall|i: int| 0 <= i < rv@.len() implies rv@[i].0.wf() && decoded_entry_ok(
                m,
                sk,
                rv@[i].0@,
                rv@[i].1 as int,
            ) by {
                let j = choose|j: int|
                    0 <= j < n && reveal_spec(s[j].0@, sk) == Some(rv@[i].0@) && s[j].1
                        == rv@[i].1;
                lemma_log_map_value(s, j);
                assert(m.dom().contains(s[j].0@) && reveal_spec(s[j].0@, sk) == Some(rv@[i].0@)
                    && m[s[j].0@] == rv@[i].1 as int);
                assert forall|e: Seq<u8>|
                    m.dom().contains(e) && reveal_spec(e, sk) == Some(rv@[i].0@) implies m[e]
                    <= rv@[i].1 as int by {
                    let j2 = choose|j2: int| 0 <= j2 < s.len() && s[j2].0@ == e;
                    lemma_log_map_value(s, j2);
                    assert(s[j2].1 <= rv@[i].1);
                }
            }
            assert forall|e: Seq<u8>|
                m.dom().contains(e) && reveal_spec(e, sk) is Some implies exists|i: int|
                0 <= i < rv@.len() && rv@[i].0@ == reveal_spec(e, sk)->0 by {
                let j = choose|j: int| 0 <= j < s.len() && s[j].0@ == e;
                assert(exists|i: int|
                    0 <= i < rv@.len() && rv@[i].0@ == reveal_spec(s[j].0@, sk)->0);
            }
        }
        Some(rv)
    }
}

impl Default for ContactLog {
    fn default() -> (r: ContactLog)
        ensures
            r.wf(),
            r@ == Map::<Seq<u8>, int>::empty(),
    {
        ContactLog::new()
    }
}

/// Law: recording the same envelope twice leaves exactly one entry for it,
/// holding the second timestamp.
pub proof fn lemma_readd_overwrites(m: Map<Seq<u8>, int>, e: Seq<u8>, t1: int, t2: int)
    ensures
        m.insert(e, t1).insert(e, t2) == m.insert(e, t2),
        m.insert(e, t1).insert(e, t2).dom() == m.dom().insert(e),
{
    assert(m.insert(e, t1).insert(e, t2) =~= m.insert(e, t2));
    assert(m.insert(e, t1).insert(e, t2).dom() =~= m.dom().insert(e));
}

} // verus!
