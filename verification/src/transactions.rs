//! The in-memory transaction registry: one entry per OFFER awaiting
//! its REQUEST, keyed by the client's transaction id.
//!
//! The registry is process-local soft state.  An entry guards its
//! offered address against concurrent allocation until the matching
//! REQUEST consumes it or an hour passes; losing the registry on a
//! restart is harmless, because clients retransmit.

use vstd::prelude::*;

verus! {

/// One in-flight offer awaiting its REQUEST, measured in seconds of
/// wall-clock time.
pub const TRANSACTION_EXPIRATION_SECS: u64 = 3600;

/// One recorded OFFER: the transaction id, the address offered under
/// it, and the instant the offer was made.
#[derive(Clone, Copy, Debug, PartialEq, Eq, Structural)]
pub struct Transaction {
    pub xid: u32,
    pub offered_ipv4_addr: u32,
    pub created_at: u64,
}

/// The registry: at most one entry per transaction id.
#[derive(Clone, Debug)]
pub struct Transactions {
    entries: Vec<Transaction>,
}

/// The entry recorded under a transaction id, if any.
pub open spec fn spec_find_txn(s: Seq<Transaction>, xid: u32) -> Option<Transaction>
    decreases s.len(),
{
    if s.len() == 0 {
        None
    } else if s[0].xid == xid {
        Some(s[0])
    } else {
        spec_find_txn(s.drop_first(), xid)
    }
}

/// Whether an entry still guards its address at the given instant.
pub open spec fn txn_active(t: Transaction, now: u64) -> bool {
    now < t.created_at + TRANSACTION_EXPIRATION_SECS
}

/// Whether some live entry of the registry holds this address.
pub open spec fn spec_offered(s: Seq<Transaction>, ip: u32, now: u64) -> bool {
    exists|i: int|
        0 <= i < s.len() && (#[trigger] s[i]).offered_ipv4_addr == ip && txn_active(s[i], now)
}

/// The addresses the live entries hold: what the allocator must not
/// re-offer while those offers are in flight.
pub open spec fn offered_set(s: Seq<Transaction>, now: u64) -> Set<u32> {
    Set::new(|ip: u32| spec_offered(s, ip, now))
}

impl Transactions {
    /// At most one entry per transaction id.
    pub closed spec fn wf(self) -> bool {
        forall|i: int, j: int|
            0 <= i < j < self.entries@.len() ==> (#[trigger] self.entries@[i]).xid != (
            #[trigger] self.entries@[j]).xid
    }

    /// The registry's entries.
    pub closed spec fn model(self) -> Seq<Transaction> {
        self.entries@
    }

    /// An empty registry.
    pub fn new() -> (r: Transactions)
        ensures
            r.wf(),
            r.model() =~= Seq::<Transaction>::empty(),
    {
        Transactions { entries: Vec::new() }
    }

    /// Records an OFFER under its transaction id, replacing any
    /// earlier entry for the same id.
    pub fn new_transaction(&mut self, xid: u32, offered_ipv4_addr: u32, now: u64)
        requires
            old(self).wf(),
        ensures
            final(self).wf(),
            spec_find_txn(final(self).model(), xid) == Some(
                Transaction { xid, offered_ipv4_addr, created_at: now },
            ),
            forall|x: u32|
                x != xid ==> #[trigger] spec_find_txn(final(self).model(), x) == spec_find_txn(
                    old(self).model(),
                    x,
                ),
    {
        let t = Transaction { xid, offered_ipv4_addr, created_at: now };
        let ghost orig = self.entries@;
        let mut i: usize = 0;
        while i < self.entries.len()
            invariant
                i <= self.entries@.len(),
                self.entries@ == orig,
                orig == old(self).entries@,
                t == (Transaction { xid, offered_ipv4_addr, created_at: now }),
                forall|a: int, b: int|
                    0 <= a < b < orig.len() ==> (#[trigger] orig[a]).xid != (
                    #[trigger] orig[b]).xid,
                forall|j: int| 0 <= j < i ==> (#[trigger] orig[j]).xid != xid,
            decreases self.entries@.len() - i,
        {
            if self.entries[i].xid == xid {
                assert(orig[i as int].xid == xid);
                self.entries[i] = t;
                proof {
                    assert(self.entries@ =~= orig.update(i as int, t));
                    lemma_find_after_update(orig, self.entries@, i as int, t);
                }
                return;
            }
            i = i + 1;
        }
        self.entries.push(t);
        proof {
            lemma_find_after_push(orig, t);
            assert(self.wf()) by {
                assert(forall|j: int|
                    0 <= j < orig.len() ==> (#[trigger] self.entries@[j]).xid == orig[j].xid);
            }
        }
    }

    /// Takes and removes the entry recorded under a transaction id.
    pub fn remove(&mut self, xid: u32) -> (r: Option<Transaction>)
        requires
            old(self).wf(),
        ensures
            final(self).wf(),
            r == spec_find_txn(old(self).model(), xid),
            r is None ==> final(self).model() == old(self).model(),
            spec_find_txn(final(self).model(), xid) is None,
            forall|x: u32|
                x != xid ==> #[trigger] spec_find_txn(final(self).model(), x) == spec_find_txn(
                    old(self).model(),
                    x,
                ),
    {
        let ghost orig = self.entries@;
        let mut i: usize = 0;
        while i < self.entries.len()
            invariant
                i <= self.entries@.len(),
                self.entries@ == orig,
                orig == old(self).entries@,
                forall|a: int, b: int|
                    0 <= a < b < orig.len() ==> (#[trigger] orig[a]).xid != (
                    #[trigger] orig[b]).xid,
                forall|j: int| 0 <= j < i ==> (#[trigger] orig[j]).xid != xid,
            decreases self.entries@.len() - i,
        {
            if self.entries[i].xid == xid {
                assert(orig[i as int].xid == xid);
                let t = self.entries.remove(i);
                proof {
                    assert(self.entries@ =~= orig.remove(i as int));
                    lemma_find_after_remove(orig, self.entries@, i as int);
                }
                return Some(t);
            }
            i = i + 1;
        }
        proof {
            lemma_find_absent(orig, xid);
        }
        None
    }

    /// The addresses of the entries still live at the given instant:
    /// the set the allocator must not re-offer.
    pub fn offered_ipv4_addresses(&self, now: u64) -> (r: Vec<u32>)
        ensures
            forall|ip: u32| r@.contains(ip) <==> spec_offered(self.model(), ip, now),
            r@.to_set() == offered_set(self.model(), now),
    {
        let mut out: Vec<u32> = Vec::new();
        let mut i: usize = 0;
        while i < self.entries.len()
            invariant
                i <= self.entries@.len(),
                forall|ip: u32|
                    r_holds(out@, ip) <==> exists|j: int|
                        0 <= j < i && (#[trigger] self.entries@[j]).offered_ipv4_addr == ip
                            && txn_active(self.entries@[j], now),
            decreases self.entries@.len() - i,
        {
            let t = self.entries[i];
            let ghost old_out = out@;
            let still_active = now < t.created_at || now - t.created_at
                < TRANSACTION_EXPIRATION_SECS;
            if still_active {
                out.push(t.offered_ipv4_addr);
            }
            proof {
                assert(still_active == txn_active(self.entries@[i as int], now));
                assert forall|ip: u32| r_holds(out@, ip) implies exists|j: int|
                    0 <= j < i + 1 && (#[trigger] self.entries@[j]).offered_ipv4_addr == ip
                        && txn_active(self.entries@[j], now) by {
                    if still_active && ip == t.offered_ipv4_addr {
                        assert(self.entries@[i as int].offered_ipv4_addr == ip);
                    } else {
                        assert(r_holds(old_out, ip));
                    }
                }
                assert forall|ip: u32|
                    exists|j: int|
                        0 <= j < i + 1 && (#[trigger] self.entries@[j]).offered_ipv4_addr == ip
                            && txn_active(self.entries@[j], now) implies r_holds(out@, ip) by {
                    let j = choose|j: int|
                        0 <= j < i + 1 && (#[trigger] self.entries@[j]).offered_ipv4_addr == ip
                            && txn_active(self.entries@[j], now);
                    if j < i {
                        assert(r_holds(old_out, ip));
                        let x = choose|x: int| 0 <= x < old_out.len() && old_out[x] == ip;
                        assert(out@[x] == ip);
                    } else {
                        assert(out@[out@.len() - 1] == ip);
                    }
                }
            }
            i = i + 1;
        }
        proof {
            assert forall|ip: u32| r_holds(out@, ip) <==> spec_offered(
                self.model(),
                ip,
                now,
            ) by {}
            assert(forall|ip: u32| out@.contains(ip) == r_holds(out@, ip));
            assert(out@.to_set() =~= offered_set(self.model(), now));
        }
        out
    }
}

/// Whether a word sequence holds the given value.
spec fn r_holds(s: Seq<u32>, ip: u32) -> bool {
    exists|x: int| 0 <= x < s.len() && s[x] == ip
}

/// A found entry is one of the registry's entries.
pub proof fn lemma_find_txn_is_entry(s: Seq<Transaction>, xid: u32)
    requires
        spec_find_txn(s, xid) is Some,
    ensures
        exists|i: int| 0 <= i < s.len() && (#[trigger] s[i]) == spec_find_txn(s, xid).unwrap(),
    decreases s.len(),
{
    if s.len() > 0 && s[0].xid != xid {
        lemma_find_txn_is_entry(s.drop_first(), xid);
        let i = choose|i: int|
            0 <= i < s.drop_first().len() && (#[trigger] s.drop_first()[i]) == spec_find_txn(
                s.drop_first(),
                xid,
            ).unwrap();
        assert(s[i + 1] == spec_find_txn(s, xid).unwrap());
    }
}

proof fn lemma_find_prefix_miss(s: Seq<Transaction>, i: int, xid: u32)
    requires
        0 <= i <= s.len(),
        forall|j: int| 0 <= j < i ==> (#[trigger] s[j]).xid != xid,
    ensures
        spec_find_txn(s, xid) == spec_find_txn(s.skip(i), xid),
    decreases i,
{
    if i > 0 {
        assert(s.skip(0) =~= s);
        lemma_find_step(s, xid);
        assert(s.drop_first() =~= s.skip(1));
        lemma_find_prefix_miss2(s, i, xid);
    } else {
        assert(s.skip(0) =~= s);
    }
}

proof fn lemma_find_prefix_miss2(s: Seq<Transaction>, i: int, xid: u32)
    requires
        0 < i <= s.len(),
        forall|j: int| 0 <= j < i ==> (#[trigger] s[j]).xid != xid,
    ensures
        spec_find_txn(s, xid) == spec_find_txn(s.skip(i), xid),
    decreases i,
{
    assert(s[0].xid != xid);
    assert(spec_find_txn(s, xid) == spec_find_txn(s.drop_first(), xid));
    assert(s.drop_first() =~= s.skip(1));
    if i == 1 {
    } else {
        let t = s.skip(1);
        assert(forall|j: int| 0 <= j < i - 1 ==> (#[trigger] t[j]).xid != xid) by {
            assert(forall|j: int| 0 <= j < i - 1 ==> t[j] == s[j + 1]);
        }
        lemma_find_prefix_miss2(t, i - 1, xid);
        assert(t.skip(i - 1) =~= s.skip(i));
    }
}

proof fn lemma_find_step(s: Seq<Transaction>, xid: u32)
    requires
        s.len() > 0,
    ensures
        spec_find_txn(s, xid) == (if s[0].xid == xid {
            Some(s[0])
        } else {
            spec_find_txn(s.drop_first(), xid)
        }),
{
}

proof fn lemma_find_absent(s: Seq<Transaction>, xid: u32)
    requires
        forall|j: int| 0 <= j < s.len() ==> (#[trigger] s[j]).xid != xid,
    ensures
        spec_find_txn(s, xid) is None,
    decreases s.len(),
{
    if s.len() > 0 {
        lemma_find_absent(s.drop_first(), xid);
    }
}

/// Replacing the entry at the first index holding `t.xid` updates the
/// lookup for `t.xid` and no other id.
proof fn lemma_find_after_update(orig: Seq<Transaction>, upd: Seq<Transaction>, i: int, t: Transaction)
    requires
        0 <= i < orig.len(),
        orig[i].xid == t.xid,
        forall|j: int| 0 <= j < i ==> (#[trigger] orig[j]).xid != t.xid,
        forall|a: int, b: int|
            0 <= a < b < orig.len() ==> (#[trigger] orig[a]).xid != (#[trigger] orig[b]).xid,
        upd =~= orig.update(i, t),
    ensures
        spec_find_txn(upd, t.xid) == Some(t),
        forall|x: u32| x != t.xid ==> #[trigger] spec_find_txn(upd, x) == spec_find_txn(orig, x),
        forall|a: int, b: int|
            0 <= a < b < upd.len() ==> (#[trigger] upd[a]).xid != (#[trigger] upd[b]).xid,
    decreases i + orig.len(),
{
    if i == 0 {
        assert(upd[0] == t);
        assert(upd.drop_first() =~= orig.drop_first());
    } else {
        assert(upd[0] == orig[0]);
        assert(upd[0].xid != t.xid);
        let o2 = orig.drop_first();
        let u2 = upd.drop_first();
        assert(u2 =~= o2.update(i - 1, t)) by {
            assert(forall|j: int| 0 <= j < u2.len() ==> u2[j] == upd[j + 1]);
        }
        assert(forall|j: int| 0 <= j < i - 1 ==> (#[trigger] o2[j]).xid != t.xid) by {
            assert(forall|j: int| 0 <= j < o2.len() ==> o2[j] == orig[j + 1]);
        }
        assert(forall|a: int, b: int|
            0 <= a < b < o2.len() ==> (#[trigger] o2[a]).xid != (#[trigger] o2[b]).xid) by {
            assert(forall|j: int| 0 <= j < o2.len() ==> o2[j] == orig[j + 1]);
        }
        assert(o2[i - 1].xid == t.xid);
        lemma_find_after_update(o2, u2, i - 1, t);
        assert forall|x: u32| x != t.xid implies #[trigger] spec_find_txn(upd, x)
            == spec_find_txn(orig, x) by {
            if upd[0].xid != x {
                assert(spec_find_txn(upd, x) == spec_find_txn(u2, x));
                assert(spec_find_txn(orig, x) == spec_find_txn(o2, x));
            }
        }
    }
}

/// Appending an entry whose id is fresh updates the lookup for that
/// id and no other.
proof fn lemma_find_after_push(orig: Seq<Transaction>, t: Transaction)
    requires
        forall|j: int| 0 <= j < orig.len() ==> (#[trigger] orig[j]).xid != t.xid,
    ensures
        spec_find_txn(orig.push(t), t.xid) == Some(t),
        forall|x: u32|
            x != t.xid ==> #[trigger] spec_find_txn(orig.push(t), x) == spec_find_txn(orig, x),
    decreases orig.len(),
{
    let p = orig.push(t);
    if orig.len() == 0 {
        assert(p[0] == t);
        assert(p.drop_first() =~= Seq::<Transaction>::empty());
        assert forall|x: u32| x != t.xid implies #[trigger] spec_find_txn(p, x) == spec_find_txn(
            orig,
            x,
        ) by {
            assert(spec_find_txn(p, x) == spec_find_txn(p.drop_first(), x));
        }
    } else {
        assert(p[0] == orig[0]);
        assert(p.drop_first() =~= orig.drop_first().push(t)) by {
            assert(forall|j: int| 0 <= j < p.len() - 1 ==> p.drop_first()[j] == p[j + 1]);
        }
        assert(forall|j: int|
            0 <= j < orig.drop_first().len() ==> (#[trigger] orig.drop_first()[j]).xid != t.xid)
            by {
            assert(forall|j: int|
                0 <= j < orig.drop_first().len() ==> orig.drop_first()[j] == orig[j + 1]);
        }
        lemma_find_after_push(orig.drop_first(), t);
        assert(p[0].xid != t.xid);
        assert forall|x: u32| x != t.xid implies #[trigger] spec_find_txn(p, x) == spec_find_txn(
            orig,
            x,
        ) by {
            if orig[0].xid != x {
                assert(spec_find_txn(p, x) == spec_find_txn(p.drop_first(), x));
                assert(spec_find_txn(orig, x) == spec_find_txn(orig.drop_first(), x));
                assert(spec_find_txn(p.drop_first(), x) == spec_find_txn(
                    orig.drop_first().push(t),
                    x,
                ));
            }
        }
    }
}

/// Removing the entry at the first index holding `xid` empties the
/// lookup for `xid` and changes no other.
proof fn lemma_find_after_remove(orig: Seq<Transaction>, rem: Seq<Transaction>, i: int)
    requires
        0 <= i < orig.len(),
        forall|j: int| 0 <= j < i ==> (#[trigger] orig[j]).xid != orig[i].xid,
        forall|a: int, b: int|
            0 <= a < b < orig.len() ==> (#[trigger] orig[a]).xid != (#[trigger] orig[b]).xid,
        rem =~= orig.remove(i),
    ensures
        spec_find_txn(rem, orig[i].xid) is None,
        spec_find_txn(orig, orig[i].xid) == Some(orig[i]),
        forall|x: u32|
            x != orig[i].xid ==> #[trigger] spec_find_txn(rem, x) == spec_find_txn(orig, x),
        forall|a: int, b: int|
            0 <= a < b < rem.len() ==> (#[trigger] rem[a]).xid != (#[trigger] rem[b]).xid,
    decreases orig.len(),
{
    let xid = orig[i].xid;
    assert(forall|j: int| 0 <= j < rem.len() ==> (#[trigger] rem[j]).xid != xid) by {
        assert(forall|j: int| 0 <= j < i ==> rem[j] == orig[j]);
        assert(forall|j: int| i <= j < rem.len() ==> rem[j] == orig[j + 1]);
    }
    lemma_find_absent(rem, xid);
    lemma_find_prefix_miss(orig, i, xid);
    assert(orig.skip(i)[0] == orig[i]);
    if i == 0 {
        assert(rem =~= orig.drop_first());
    } else {
        let o2 = orig.drop_first();
        let r2 = rem.drop_first();
        assert(r2 =~= o2.remove(i - 1)) by {
            assert(forall|j: int| 0 <= j < i - 1 ==> r2[j] == rem[j + 1] && rem[j + 1] == orig[j
                + 1]);
            assert(forall|j: int| i - 1 <= j < r2.len() ==> r2[j] == rem[j + 1] && rem[j + 1]
                == orig[j + 2]);
            assert(forall|j: int| 0 <= j < o2.len() ==> o2[j] == orig[j + 1]);
        }
        assert(forall|j: int| 0 <= j < o2.len() ==> o2[j] == orig[j + 1]);
        assert(o2[i - 1].xid == xid);
        lemma_find_after_remove(o2, r2, i - 1);
        assert(rem[0] == orig[0]);
        assert forall|x: u32| x != xid implies #[trigger] spec_find_txn(rem, x) == spec_find_txn(
            orig,
            x,
        ) by {
            if rem[0].xid != x {
                assert(spec_find_txn(rem, x) == spec_find_txn(r2, x));
                assert(spec_find_txn(orig, x) == spec_find_txn(o2, x));
            }
        }
    }
}

} // verus!
