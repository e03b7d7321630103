//! Server-side lobby registry.
//!
//! The registry maps lobby codes to host entries and, in lock-step, host
//! clients back to their codes.  Both directions live in one vector of
//! records whose well-formedness invariant keeps codes and client
//! identities unique, so each direction behaves as a map.  The model of the
//! registry is the sequence of its records; lookups are specified by
//! last-match search, removal by filtering a client out.

use vstd::prelude::*;

use rand::RngExt;

use crate::is_ascii_alnum;
use crate::is_lobby_code;
use crate::is_upper_alnum;
use crate::norm_code;
use crate::normalize_code;
use crate::upper_byte;
use crate::bytes_eq;
use crate::clone_bytes;
use crate::PeerAddr;
use crate::LOBBY_CODE_LEN;

verus! {

/// How many random candidate codes a registration draws before giving up.
pub const MAX_CODE_ATTEMPTS: usize = 16;

/// What a lobby lookup hands back: the hosting client and its observed
/// address.
#[derive(Clone, Copy, Debug, PartialEq, Eq, Structural)]
pub struct HostEntry {
    pub client_id: u64,
    pub addr: PeerAddr,
}

/// Mathematical image of one registry record.
pub struct EntryView {
    pub code: Seq<u8>,
    pub client: u64,
    pub addr: PeerAddr,
}

struct HostRecord {
    code: Vec<u8>,
    client_id: u64,
    addr: PeerAddr,
}

/// Mathematical image of one stored record.
spec fn record_view(r: HostRecord) -> EntryView {
    EntryView { code: r.code@, client: r.client_id, addr: r.addr }
}

/// The entry for `code`, searching most recent record first.
pub open spec fn find_code(s: Seq<EntryView>, code: Seq<u8>) -> Option<EntryView>
    decreases s.len(),
{
    if s.len() == 0 {
        None
    } else if s.last().code == code {
        Some(s.last())
    } else {
        find_code(s.drop_last(), code)
    }
}

/// The entry owned by `client`, searching most recent record first.
pub open spec fn find_client(s: Seq<EntryView>, client: u64) -> Option<EntryView>
    decreases s.len(),
{
    if s.len() == 0 {
        None
    } else if s.last().client == client {
        Some(s.last())
    } else {
        find_client(s.drop_last(), client)
    }
}

/// The registry with every record of `client` removed, order kept.
pub open spec fn remove_client(s: Seq<EntryView>, client: u64) -> Seq<EntryView>
    decreases s.len(),
{
    if s.len() == 0 {
        s
    } else if s.last().client == client {
        remove_client(s.drop_last(), client)
    } else {
        remove_client(s.drop_last(), client).push(s.last())
    }
}

/// No two records share a lobby code.
pub open spec fn codes_unique(s: Seq<EntryView>) -> bool {
    forall|i: int, j: int|
        #![trigger s[i], s[j]]
        0 <= i < j < s.len() ==> s[i].code != s[j].code
}

/// No two records share a hosting client.
pub open spec fn clients_unique(s: Seq<EntryView>) -> bool {
    forall|i: int, j: int|
        #![trigger s[i], s[j]]
        0 <= i < j < s.len() ==> s[i].client != s[j].client
}

/// Every stored code is a normalized lobby code.
pub open spec fn codes_wf(s: Seq<EntryView>) -> bool {
    forall|i: int| 0 <= i < s.len() ==> is_lobby_code((#[trigger] s[i]).code)
}

/// Registry well-formedness: both key directions are unique and codes are
/// stored normalized.
pub open spec fn wf_seq(s: Seq<EntryView>) -> bool {
    codes_unique(s) && clients_unique(s) && codes_wf(s)
}

/// `find_code` misses exactly when no record carries the code.
pub proof fn lemma_find_code_absent(s: Seq<EntryView>, code: Seq<u8>)
    ensures
        (find_code(s, code) is None) <==> (forall|i: int|
            0 <= i < s.len() ==> (#[trigger] s[i]).code != code),
    decreases s.len(),
{
    if s.len() > 0 {
        lemma_find_code_absent(s.drop_last(), code);
        assert(forall|i: int| 0 <= i < s.len() - 1 ==> s.drop_last()[i] == #[trigger] s[i]);
        assert(s.last() == s[s.len() - 1]);
    }
}

/// `find_client` misses exactly when no record belongs to the client.
pub proof fn lemma_find_client_absent(s: Seq<EntryView>, client: u64)
    ensures
        (find_client(s, client) is None) <==> (forall|i: int|
            0 <= i < s.len() ==> (#[trigger] s[i]).client != client),
    decreases s.len(),
{
    if s.len() > 0 {
        lemma_find_client_absent(s.drop_last(), client);
        assert(forall|i: int| 0 <= i < s.len() - 1 ==> s.drop_last()[i] == #[trigger] s[i]);
        assert(s.last() == s[s.len() - 1]);
    }
}

proof fn lemma_find_code_some(s: Seq<EntryView>, code: Seq<u8>)
    ensures
        find_code(s, code) matches Some(e) ==> e.code == code && exists|i: int|
            0 <= i < s.len() && #[trigger] s[i] == e,
    decreases s.len(),
{
    if s.len() > 0 {
        if s.last().code == code {
            assert(s[s.len() - 1] == s.last());
        } else {
            lemma_find_code_some(s.drop_last(), code);
            if let Some(e) = find_code(s.drop_last(), code) {
                let i = choose|i: int| 0 <= i < s.drop_last().len() && s.drop_last()[i] == e;
                assert(s[i] == e);
            }
        }
    }
}

/// Removing a client empties its reverse index and touches nobody else's.
pub proof fn lemma_remove_client_find_client(s: Seq<EntryView>, c: u64, d: u64)
    ensures
        find_client(remove_client(s, c), d) == (if d == c {
            None::<EntryView>
        } else {
            find_client(s, d)
        }),
    decreases s.len(),
{
    if s.len() > 0 {
        lemma_remove_client_find_client(s.drop_last(), c, d);
        if s.last().client != c {
            let r = remove_client(s.drop_last(), c).push(s.last());
            assert(r.drop_last() =~= remove_client(s.drop_last(), c));
            assert(r.last() == s.last());
        }
    }
}

/// Removing a client that owns nothing changes nothing.
pub proof fn lemma_remove_client_noop(s: Seq<EntryView>, c: u64)
    requires
        find_client(s, c) is None,
    ensures
        remove_client(s, c) == s,
    decreases s.len(),
{
    if s.len() > 0 {
        lemma_remove_client_noop(s.drop_last(), c);
        assert(s.drop_last().push(s.last()) =~= s);
    }
}

/// A code survives the removal of a client exactly when some record of
/// another client carries it.
pub proof fn lemma_remove_client_code_absent(s: Seq<EntryView>, c: u64, k: Seq<u8>)
    ensures
        (find_code(remove_client(s, c), k) is None) <==> (forall|i: int|
            0 <= i < s.len() ==> ((#[trigger] s[i]).client == c || s[i].code != k)),
    decreases s.len(),
{
    if s.len() > 0 {
        lemma_remove_client_code_absent(s.drop_last(), c, k);
        assert(forall|i: int| 0 <= i < s.len() - 1 ==> s.drop_last()[i] == #[trigger] s[i]);
        assert(s.last() == s[s.len() - 1]);
        if s.last().client != c {
            let r = remove_client(s.drop_last(), c).push(s.last());
            assert(r.drop_last() =~= remove_client(s.drop_last(), c));
            assert(r.last() == s.last());
        }
    }
}

/// Every record left by a removal was a record of the registry.
pub proof fn lemma_remove_client_membership(s: Seq<EntryView>, c: u64)
    ensures
        forall|i: int|
            0 <= i < remove_client(s, c).len() ==> exists|j: int|
                0 <= j < s.len() && #[trigger] remove_client(s, c)[i] == s[j],
    decreases s.len(),
{
    if s.len() > 0 {
        let t = s.drop_last();
        lemma_remove_client_membership(t, c);
        assert(forall|i: int| 0 <= i < s.len() - 1 ==> t[i] == #[trigger] s[i]);
        if s.last().client == c {
            assert forall|i: int| 0 <= i < remove_client(s, c).len() implies exists|j: int|
                0 <= j < s.len() && #[trigger] remove_client(s, c)[i] == s[j] by {
                assert(remove_client(s, c)[i] == remove_client(t, c)[i]);
                let j = choose|j: int| 0 <= j < t.len() && remove_client(t, c)[i] == t[j];
                assert(remove_client(s, c)[i] == s[j]);
            }
        } else {
            let r = remove_client(t, c);
            assert forall|i: int| 0 <= i < remove_client(s, c).len() implies exists|j: int|
                0 <= j < s.len() && #[trigger] remove_client(s, c)[i] == s[j] by {
                if i < r.len() {
                    assert(remove_client(s, c)[i] == r[i]);
                    let j = choose|j: int| 0 <= j < t.len() && r[i] == t[j];
                    assert(remove_client(s, c)[i] == s[j]);
                } else {
                    assert(remove_client(s, c)[i] == s.last());
                    assert(remove_client(s, c)[i] == s[s.len() - 1]);
                }
            }
        }
    }
}

/// Removal keeps the registry well-formed.
pub proof fn lemma_remove_client_wf(s: Seq<EntryView>, c: u64)
    requires
        wf_seq(s),
    ensures
        wf_seq(remove_client(s, c)),
    decreases s.len(),
{
    if s.len() > 0 {
        let t = s.drop_last();
        assert(forall|i: int| 0 <= i < s.len() - 1 ==> t[i] == #[trigger] s[i]);
        assert(wf_seq(t));
        lemma_remove_client_wf(t, c);
        if s.last().client != c {
            let r = remove_client(t, c);
            lemma_remove_client_membership(t, c);
            assert(s.last() == s[s.len() - 1]);
            assert forall|i: int| 0 <= i < r.len() implies r[i].code != s.last().code && r[
                i
            ].client != s.last().client by {
                let j = choose|j: int| 0 <= j < t.len() && r[i] == t[j];
                assert(s[j] == t[j]);
            }
            let out = r.push(s.last());
            assert forall|i: int, j: int|
                #![trigger out[i], out[j]]
                0 <= i < j < out.len() implies out[i].code != out[j].code && out[i].client != out[
                j
            ].client by {
                if j < r.len() {
                    assert(out[i] == r[i] && out[j] == r[j]);
                } else {
                    assert(out[j] == s.last());
                    assert(out[i] == r[i]);
                }
            }
            assert forall|i: int| 0 <= i < out.len() implies is_lobby_code(
                (#[trigger] out[i]).code,
            ) by {
                if i < r.len() {
                    assert(out[i] == r[i]);
                    let j = choose|j: int| 0 <= j < t.len() && r[i] == t[j];
                    assert(t[j] == s[j]);
                } else {
                    assert(out[i] == s.last());
                    assert(s.last() == s[s.len() - 1]);
                }
            }
        }
    }
}

/// A fresh, well-formed record keeps the registry well-formed when appended.
pub proof fn lemma_wf_push(s: Seq<EntryView>, e: EntryView)
    requires
        wf_seq(s),
        find_code(s, e.code) is None,
        find_client(s, e.client) is None,
        is_lobby_code(e.code),
    ensures
        wf_seq(s.push(e)),
{
    lemma_find_code_absent(s, e.code);
    lemma_find_client_absent(s, e.client);
    let out = s.push(e);
    assert(forall|i: int| 0 <= i < s.len() ==> out[i] == #[trigger] s[i]);
    assert(out[s.len() as int] == e);
    assert forall|i: int, j: int|
        #![trigger out[i], out[j]]
        0 <= i < j < out.len() implies out[i].code != out[j].code && out[i].client != out[
        j
    ].client by {
        if j < s.len() {
            assert(out[i] == s[i] && out[j] == s[j]);
        } else {
            assert(out[j] == e);
            assert(out[i] == s[i]);
        }
    }
    assert forall|i: int| 0 <= i < out.len() implies is_lobby_code((#[trigger] out[i]).code) by {
        if i < s.len() {
            assert(out[i] == s[i]);
        } else {
            assert(out[i] == e);
        }
    }
}

/// At most one host entry exists per lobby code: in a well-formed registry,
/// two records carrying the same code are the same record.
pub proof fn lemma_at_most_one_host_per_code(s: Seq<EntryView>, i: int, j: int)
    requires
        codes_unique(s),
        0 <= i < s.len(),
        0 <= j < s.len(),
        s[i].code == s[j].code,
    ensures
        i == j,
{
}

/// Looking a code up after a registration returns exactly the most recent
/// host of that code, and leaves every other code's lookup unchanged.
pub proof fn lemma_lookup_most_recent(s: Seq<EntryView>, e: EntryView)
    ensures
        find_code(s.push(e), e.code) == Some(e),
        forall|k: Seq<u8>| k != e.code ==> #[trigger] find_code(s.push(e), k) == find_code(s, k),
{
    assert(s.push(e).last() == e);
    assert forall|k: Seq<u8>| k != e.code implies #[trigger] find_code(s.push(e), k) == find_code(
        s,
        k,
    ) by {
        assert(s.push(e).drop_last() =~= s);
    }
}

/// Unregistering a freshly registered host removes its entry and its
/// reverse index, landing exactly on the registry from before the
/// registration.
pub proof fn lemma_unregister_after_register(base: Seq<EntryView>, e: EntryView)
    requires
        find_client(base, e.client) is None,
    ensures
        remove_client(base.push(e), e.client) == base,
        find_client(remove_client(base.push(e), e.client), e.client) is None,
{
    assert(base.push(e).last() == e);
    assert(base.push(e).drop_last() =~= base);
    lemma_remove_client_noop(base, e.client);
}

/// When a lobby's host leaves a well-formed registry, the lobby's code
/// stops resolving: nobody else can have been holding it.
pub proof fn lemma_disconnect_frees_code(s: Seq<EntryView>, c: u64, k: Seq<u8>)
    requires
        wf_seq(s),
        find_code(s, k) matches Some(e) && e.client == c,
    ensures
        find_code(remove_client(s, c), k) is None,
{
    lemma_find_code_some(s, k);
    let e = find_code(s, k).unwrap();
    let j = choose|j: int| 0 <= j < s.len() && s[j] == e;
    lemma_remove_client_code_absent(s, c, k);
    assert forall|i: int| 0 <= i < s.len() implies ((#[trigger] s[i]).client == c || s[i].code
        != k) by {
        if s[i].code == k {
            assert(s[i] == s[j]);
        }
    }
}

/// Unregistering twice is the same as unregistering once.
pub proof fn lemma_unregister_idempotent(s: Seq<EntryView>, c: u64)
    ensures
        remove_client(remove_client(s, c), c) == remove_client(s, c),
{
    lemma_remove_client_find_client(s, c, c);
    lemma_remove_client_noop(remove_client(s, c), c);
}

/// Lookup sees only the normalized form of a query: two queries that
/// normalize alike resolve alike, whatever their case.
pub proof fn lemma_lookup_case_insensitive(s: Seq<EntryView>, q1: Seq<u8>, q2: Seq<u8>)
    requires
        norm_code(q1) == norm_code(q2),
    ensures
        find_code(s, norm_code(q1)) == find_code(s, norm_code(q2)),
{
}

/// The in-memory lobby registry owned by the rendezvous server.
pub struct PunchThroughServerRes {
    hosts: Vec<HostRecord>,
}

impl View for PunchThroughServerRes {
    type V = Seq<EntryView>;

    closed spec fn view(&self) -> Seq<EntryView> {
        self.hosts@.map(|i: int, r: HostRecord| record_view(r))
    }
}

/// Relies on `rand`: `rand::rng()` hands back the thread-local generator,
/// and sampling the `Alphanumeric` distribution yields bytes drawn from the
/// ASCII ranges `A-Z`, `a-z` and `0-9`.  Nothing beyond membership in that
/// charset is assumed of the draw.
#[verifier::external_body]
fn random_alnum_bytes(n: usize) -> (r: Vec<u8>)
    ensures
        r@.len() == n,
        forall|i: int| 0 <= i < r@.len() ==> is_ascii_alnum(#[trigger] r@[i]),
{
    rand::rng().sample_iter(rand::distr::Alphanumeric).take(n).collect()
}

fn is_lobby_code_exec(v: &Vec<u8>) -> (r: bool)
    ensures
        r == is_lobby_code(v@),
{
    if v.len() != LOBBY_CODE_LEN {
        return false;
    }
    let mut i: usize = 0;
    while i < v.len()
        invariant
            0 <= i <= v@.len(),
            forall|j: int| 0 <= j < i ==> is_upper_alnum(#[trigger] v@[j]),
        decreases v@.len() - i,
    {
        let b = v[i];
        if !((65 <= b && b <= 90) || (48 <= b && b <= 57)) {
            return false;
        }
        i += 1;
    }
    true
}

impl PunchThroughServerRes {
    /// Registry well-formedness; established by `new` and kept by every
    /// operation.
    pub open spec fn wf(self) -> bool {
        wf_seq(self@)
    }

    /// A fresh, empty registry.
    pub fn new() -> (r: Self)
        ensures
            r@ == Seq::<EntryView>::empty(),
            r.wf(),
    {
        let r = PunchThroughServerRes { hosts: Vec::new() };
        proof {
            assert(r@ =~= Seq::<EntryView>::empty());
        }
        r
    }

    /// How many lobbies are registered.
    pub fn host_count(&self) -> (n: usize)
        ensures
            n == self@.len(),
    {
        self.hosts.len()
    }

    /// Pure read: the host entry for `code`, after case normalization.
    pub fn lookup(&self, code: &Vec<u8>) -> (r: Option<HostEntry>)
        ensures
            (match find_code(self@, norm_code(code@)) {
                Some(e) => r == Some((HostEntry { client_id: e.client, addr: e.addr })),
                None => r is None,
            }),
    {
        let k = normalize_code(code);
        let mut i: usize = self.hosts.len();
        proof {
            assert(self@.subrange(0, self@.len() as int) =~= self@);
        }
        while i > 0
            invariant
                0 <= i <= self@.len(),
                k@ == norm_code(code@),
                find_code(self@, k@) == find_code(self@.subrange(0, i as int), k@),
            decreases i,
        {
            i -= 1;
            let rec = &self.hosts[i];
            let ghost prefix = self@.subrange(0, i + 1 as int);
            proof {
                assert(prefix.last() == self@[i as int]);
                assert(prefix.drop_last() =~= self@.subrange(0, i as int));
            }
            if bytes_eq(&rec.code, &k) {
                assert(find_code(prefix, k@) == Some(self@[i as int]));
                return Some(HostEntry { client_id: rec.client_id, addr: rec.addr });
            }
            assert(find_code(prefix, k@) == find_code(self@.subrange(0, i as int), k@));
        }
        proof {
            assert(self@.subrange(0, 0) =~= Seq::<EntryView>::empty());
        }
        None
    }

    /// Pure read of the reverse index: the code owned by `client_id`.
    pub fn lookup_client(&self, client_id: u64) -> (r: Option<Vec<u8>>)
        ensures
            (match find_client(self@, client_id) {
                Some(e) => r matches Some(v) && v@ == e.code,
                None => r is None,
            }),
    {
        let mut i: usize = self.hosts.len();
        proof {
            assert(self@.subrange(0, self@.len() as int) =~= self@);
        }
        while i > 0
            invariant
                0 <= i <= self@.len(),
                find_client(self@, client_id) == find_client(self@.subrange(0, i as int), client_id),
            decreases i,
        {
            i -= 1;
            let rec = &self.hosts[i];
            let ghost prefix = self@.subrange(0, i + 1 as int);
            proof {
                assert(prefix.last() == self@[i as int]);
                assert(prefix.drop_last() =~= self@.subrange(0, i as int));
            }
            if rec.client_id == client_id {
                assert(find_client(prefix, client_id) == Some(self@[i as int]));
                return Some(clone_bytes(&rec.code));
            }
            assert(find_client(prefix, client_id) == find_client(self@.subrange(0, i as int), client_id));
        }
        proof {
            assert(self@.subrange(0, 0) =~= Seq::<EntryView>::empty());
        }
        None
    }

    /// Registers `client_id` under the candidate `code` if the code is a
    /// normalized lobby code that no other client holds.  On success any
    /// lobby the client already owned is replaced; on failure the registry
    /// is untouched.
    #[verifier::loop_isolation(false)]
    pub fn register_with_code(&mut self, code: &Vec<u8>, client_id: u64, addr: PeerAddr) -> (inserted:
        bool)
        requires
            old(self).wf(),
        ensures
            final(self).wf(),
            inserted <==> (is_lobby_code(code@) && find_code(
                remove_client(old(self)@, client_id),
                code@,
            ) is None),
            inserted ==> final(self)@ == remove_client(old(self)@, client_id).push(
                (EntryView { code: code@, client: client_id, addr: addr }),
            ),
            !inserted ==> final(self)@ == old(self)@,
    {
        if !is_lobby_code_exec(code) {
            return false;
        }
        // Is the code already held by some other client?
        let n = self.hosts.len();
        let mut i: usize = 0;
        while i < n
            invariant
                0 <= i <= n,
                n == self@.len(),
                self == old(self),
                forall|j: int|
                    0 <= j < i ==> ((#[trigger] self@[j]).client == client_id || self@[j].code
                        != code@),
            decreases n - i,
        {
            let rec = &self.hosts[i];
            if rec.client_id != client_id && bytes_eq(&rec.code, code) {
                proof {
                    assert(self@[i as int].client != client_id && self@[i as int].code == code@);
                    lemma_remove_client_code_absent(self@, client_id, code@);
                    assert(!(find_code(remove_client(self@, client_id), code@) is None));
                }
                return false;
            }
            i += 1;
        }
        proof {
            lemma_remove_client_code_absent(self@, client_id, code@);
        }
        // Free: drop anything the client already owned, append the record.
        let ghost pre = self@;
        self.remove_records_of(client_id);
        let rec = HostRecord { code: clone_bytes(code), client_id, addr };
        let ghost e = EntryView { code: code@, client: client_id, addr: addr };
        let ghost mid = self@;
        self.hosts.push(rec);
        proof {
            assert(self@ =~= mid.push(e));
            lemma_remove_client_wf(pre, client_id);
            lemma_remove_client_find_client(pre, client_id, client_id);
            lemma_wf_push(mid, e);
        }
        true
    }

    /// Removes the lobby owned by `client_id`, if any; idempotent.
    pub fn unregister(&mut self, client_id: u64)
        requires
            old(self).wf(),
        ensures
            final(self).wf(),
            final(self)@ == remove_client(old(self)@, client_id),
    {
        self.remove_records_of(client_id);
        proof {
            lemma_remove_client_wf(old(self)@, client_id);
        }
    }

    /// Registers `client_id` at `addr` under a freshly generated code.
    /// Candidate codes are drawn at random and regenerated on collision, up
    /// to a fixed budget; `None` reports an exhausted budget, with the
    /// registry untouched.  A collision takes another client's record, so
    /// against a registry holding no other client's lobby the first draw
    /// must land: success is owed there.
    #[verifier::loop_isolation(false)]
    pub fn register(&mut self, client_id: u64, addr: PeerAddr) -> (r: Option<Vec<u8>>)
        requires
            old(self).wf(),
        ensures
            final(self).wf(),
            r matches Some(code) ==> is_lobby_code(code@) && find_code(
                remove_client(old(self)@, client_id),
                code@,
            ) is None && final(self)@ == remove_client(old(self)@, client_id).push(
                (EntryView { code: code@, client: client_id, addr: addr }),
            ),
            r is None ==> final(self)@ == old(self)@,
            remove_client(old(self)@, client_id).len() == 0 ==> r is Some,
    {
        let ghost orig = self@;
        let mut attempts: usize = 0;
        while attempts < MAX_CODE_ATTEMPTS
            invariant
                self@ == orig,
                self.wf(),
                attempts > 0 ==> remove_client(old(self)@, client_id).len() > 0,
            decreases MAX_CODE_ATTEMPTS - attempts,
        {
            let raw = random_alnum_bytes(LOBBY_CODE_LEN);
            let code = normalize_code(&raw);
            proof {
                assert forall|j: int| 0 <= j < code@.len() implies is_upper_alnum(
                    #[trigger] code@[j],
                ) by {
                    assert(code@[j] == upper_byte(raw@[j]));
                    assert(is_ascii_alnum(raw@[j]));
                }
                assert(is_lobby_code(code@));
            }
            if self.register_with_code(&code, client_id, addr) {
                return Some(code);
            }
            proof {
                // a collision is a hit in the registry without this client's
                // records, which an empty one cannot produce
                assert(!(find_code(remove_client(old(self)@, client_id), code@) is None));
                assert(remove_client(old(self)@, client_id).len() > 0);
            }
            attempts += 1;
        }
        None
    }

    /// Rebuilds the record vector without the records of `client_id`.
    fn remove_records_of(&mut self, client_id: u64)
        ensures
            final(self)@ == remove_client(old(self)@, client_id),
    {
        let n = self.hosts.len();
        let mut kept: Vec<HostRecord> = Vec::new();
        let mut i: usize = 0;
        proof {
            assert(kept@.map(|x: int, r: HostRecord| record_view(r)) =~= remove_client(
                old(self)@.subrange(0, 0),
                client_id,
            ));
        }
        while i < n
            invariant
                0 <= i <= n,
                n == self@.len(),
                self == old(self),
                kept@.map(|x: int, r: HostRecord| record_view(r)) == remove_client(
                    self@.subrange(0, i as int),
                    client_id,
                ),
            decreases n - i,
        {
            let ghost prefix = self@.subrange(0, i + 1 as int);
            let ghost kv = kept@.map(|x: int, r: HostRecord| record_view(r));
            proof {
                assert(prefix.last() == self@[i as int]);
                assert(prefix.drop_last() =~= self@.subrange(0, i as int));
            }
            let rec = &self.hosts[i];
            if rec.client_id != client_id {
                let copy = HostRecord {
                    code: clone_bytes(&rec.code),
                    client_id: rec.client_id,
                    addr: rec.addr,
                };
                kept.push(copy);
                proof {
                    assert(kept@.map(|x: int, r: HostRecord| record_view(r)) =~= kv.push(
                        self@[i as int],
                    ));
                }
            }
            i += 1;
        }
        proof {
            assert(self@.subrange(0, n as int) =~= self@);
        }
        self.hosts = kept;
    }
}

} // verus!
