//! Routing records to lanes by client, and why the lanes' merged accounts do
//! not depend on how many lanes there are.

use crate::engine::{
    is_funds_record, Account, ClientId, InputTransaction, Ledger, PaymentEngine, TransactionId,
};
use std::collections::HashMap;
use vstd::prelude::*;

verus! {

/// The records whose client satisfies `p`, in input order.
pub open spec fn client_filter(rs: Seq<InputTransaction>, p: spec_fn(ClientId) -> bool) -> Seq<
    InputTransaction,
> {
    rs.filter(|r: InputTransaction| p(r.client_id))
}

/// Whether every transaction id used by a deposit or withdrawal is used so by
/// one client only.
pub open spec fn ids_owned(rs: Seq<InputTransaction>) -> bool {
    forall|i: int, j: int|
        0 <= i < rs.len() && 0 <= j < rs.len() && is_funds_record(#[trigger] rs[i])
            && is_funds_record(#[trigger] rs[j]) && rs[i].tx_id == rs[j].tx_id ==> rs[i].client_id
            == rs[j].client_id
}

/// Every stored transaction was stored by a deposit or withdrawal of its
/// client among `rs`.
pub open spec fn owners_recorded(l: Ledger, rs: Seq<InputTransaction>) -> bool {
    forall|t: TransactionId| #[trigger]
        l.txs.contains_key(t) ==> exists|i: int|
            0 <= i < rs.len() && is_funds_record(#[trigger] rs[i]) && rs[i].tx_id == t
                && rs[i].client_id == l.txs[t].client_id
}

/// `part` holds exactly what `full` holds for the clients that satisfy `p`.
pub open spec fn agree_on(full: Ledger, part: Ledger, p: spec_fn(ClientId) -> bool) -> bool {
    &&& forall|c: ClientId|
        p(c) ==> (#[trigger] full.accounts.contains_key(c) == part.accounts.contains_key(c) && (
        full.accounts.contains_key(c) ==> full.accounts[c] == part.accounts[c]))
    &&& forall|t: TransactionId|
        #[trigger] part.txs.contains_key(t) == (full.txs.contains_key(t) && p(
            full.txs[t].client_id,
        ))
    &&& forall|t: TransactionId| #[trigger]
        part.txs.contains_key(t) ==> full.txs[t] == part.txs[t]
}

/// A record changes only its own client's account, and the stored
/// transaction under its own id, which keeps its client or becomes the
/// record's.
proof fn lemma_apply_frame(l: Ledger, r: InputTransaction)
    ensures
        forall|c: ClientId|
            c != r.client_id ==> (#[trigger] l.apply(r).accounts.contains_key(c)
                == l.accounts.contains_key(c) && (l.accounts.contains_key(c) ==> l.apply(
                r,
            ).accounts[c] == l.accounts[c])),
        forall|t: TransactionId|
            t != r.tx_id ==> (#[trigger] l.apply(r).txs.contains_key(t) == l.txs.contains_key(t)
                && (l.txs.contains_key(t) ==> l.apply(r).txs[t] == l.txs[t])),
        l.txs.contains_key(r.tx_id) ==> l.apply(r).txs.contains_key(r.tx_id),
        l.apply(r).txs.contains_key(r.tx_id) ==> (l.txs.contains_key(r.tx_id) && l.apply(
            r,
        ).txs[r.tx_id] == l.txs[r.tx_id]) || (l.apply(r).txs[r.tx_id].client_id == r.client_id
            && (is_funds_record(r) || (l.txs.contains_key(r.tx_id) && l.txs[r.tx_id].client_id
            == r.client_id))),
{
}

/// Each stored transaction goes back to a deposit or withdrawal of its client.
proof fn lemma_owners_recorded(rs: Seq<InputTransaction>)
    ensures
        owners_recorded(Ledger::empty().run(rs), rs),
    decreases rs.len(),
{
    if rs.len() > 0 {
        let prev = rs.drop_last();
        lemma_owners_recorded(prev);
        let l = Ledger::empty().run(prev);
        let r = rs.last();
        lemma_apply_frame(l, r);
        assert forall|t: TransactionId| #[trigger]
            l.apply(r).txs.contains_key(t) implies exists|i: int|
                0 <= i < rs.len() && is_funds_record(#[trigger] rs[i]) && rs[i].tx_id == t
                    && rs[i].client_id == l.apply(r).txs[t].client_id by {
            if l.txs.contains_key(t) && l.apply(r).txs[t].client_id == l.txs[t].client_id {
                let i = choose|i: int|
                    0 <= i < prev.len() && is_funds_record(#[trigger] prev[i]) && prev[i].tx_id
                        == t && prev[i].client_id == l.txs[t].client_id;
                assert(rs[i] == prev[i]);
            } else {
                assert(is_funds_record(rs[rs.len() - 1]));
            }
        }
    }
}

/// Processing only the records of the clients that satisfy `p` leaves those
/// clients' accounts and transactions as processing every record does, given
/// that no transaction id is shared by two clients.
pub proof fn lemma_client_projection(rs: Seq<InputTransaction>, p: spec_fn(ClientId) -> bool)
    requires
        ids_owned(rs),
    ensures
        agree_on(Ledger::empty().run(rs), Ledger::empty().run(client_filter(rs, p)), p),
    decreases rs.len(),
{
    reveal(Seq::filter);
    if rs.len() == 0 {
        assert(client_filter(rs, p) =~= Seq::<InputTransaction>::empty());
    } else {
        let prev = rs.drop_last();
        let r = rs.last();
        assert forall|i: int, j: int|
            0 <= i < prev.len() && 0 <= j < prev.len() && is_funds_record(#[trigger] prev[i])
                && is_funds_record(#[trigger] prev[j]) && prev[i].tx_id
                == prev[j].tx_id implies prev[i].client_id == prev[j].client_id by {
            assert(prev[i] == rs[i] && prev[j] == rs[j]);
        }
        lemma_client_projection(prev, p);
        lemma_owners_recorded(prev);
        let full = Ledger::empty().run(prev);
        let part = Ledger::empty().run(client_filter(prev, p));
        lemma_apply_frame(full, r);
        lemma_apply_frame(part, r);
        if is_funds_record(r) && full.txs.contains_key(r.tx_id) {
            let i = choose|i: int|
                0 <= i < prev.len() && is_funds_record(#[trigger] prev[i]) && prev[i].tx_id
                    == r.tx_id && prev[i].client_id == full.txs[r.tx_id].client_id;
            assert(rs[i] == prev[i]);
            assert(rs[rs.len() - 1] == r);
            assert(full.txs[r.tx_id].client_id == r.client_id);
        }
        if p(r.client_id) {
            assert(client_filter(rs, p) =~= client_filter(prev, p).push(r));
            assert(client_filter(rs, p).drop_last() =~= client_filter(prev, p));
        } else {
            assert(client_filter(rs, p) =~= client_filter(prev, p));
        }
    }
}

/// The lane of client `c` among `n` lanes.
pub open spec fn lane_index(c: ClientId, n: nat) -> nat {
    c as nat % n
}

/// The clients of lane `k` among `n`.
pub open spec fn in_lane(n: nat, k: nat) -> spec_fn(ClientId) -> bool {
    |c: ClientId| lane_index(c, n) == k
}

/// The records that lane `k` of `n` processes, in input order.
pub open spec fn lane_records(rs: Seq<InputTransaction>, n: nat, k: nat) -> Seq<InputTransaction> {
    client_filter(rs, in_lane(n, k))
}

/// The ledger of lane `k` of `n` once its records are processed.
pub open spec fn lane_ledger(rs: Seq<InputTransaction>, n: nat, k: nat) -> Ledger {
    Ledger::empty().run(lane_records(rs, n, k))
}

/// The accounts of all lanes together, each client's taken from its lane.
pub open spec fn merged_accounts(lanes: Seq<Map<ClientId, Account>>) -> Map<ClientId, Account> {
    Map::new(
        |c: ClientId| lanes[lane_index(c, lanes.len()) as int].contains_key(c),
        |c: ClientId| lanes[lane_index(c, lanes.len()) as int][c],
    )
}

/// The accounts that `n` lanes produce from `rs`.
pub open spec fn sharded_accounts(rs: Seq<InputTransaction>, n: nat) -> Map<ClientId, Account> {
    merged_accounts(Seq::new(n, |k: int| lane_ledger(rs, n, k as nat).accounts))
}

/// Split over `n` lanes by client, the records give the accounts that one
/// ledger gives when it processes them all in order, given that no
/// transaction id is used by two clients.
pub proof fn lemma_sharding_matches_single_ledger(rs: Seq<InputTransaction>, n: nat)
    requires
        n > 0,
        ids_owned(rs),
    ensures
        sharded_accounts(rs, n) == Ledger::empty().run(rs).accounts,
{
    let full = Ledger::empty().run(rs);
    let lanes = Seq::new(n, |k: int| lane_ledger(rs, n, k as nat).accounts);
    assert forall|c: ClientId| #[trigger]
        sharded_accounts(rs, n).contains_key(c) == full.accounts.contains_key(c) && (
        full.accounts.contains_key(c) ==> sharded_accounts(rs, n)[c] == full.accounts[c]) by {
        let k = lane_index(c, n);
        lemma_client_projection(rs, in_lane(n, k));
        assert(in_lane(n, k)(c));
        assert(lanes[k as int] == lane_ledger(rs, n, k).accounts);
    }
    assert(sharded_accounts(rs, n) =~= full.accounts);
}

/// The accounts do not depend on the number of lanes, given that no
/// transaction id is used by two clients.
pub proof fn lemma_lane_count_irrelevant(rs: Seq<InputTransaction>, n1: nat, n2: nat)
    requires
        n1 > 0,
        n2 > 0,
        ids_owned(rs),
    ensures
        sharded_accounts(rs, n1) == sharded_accounts(rs, n2),
{
    lemma_sharding_matches_single_ledger(rs, n1);
    lemma_sharding_matches_single_ledger(rs, n2);
}

/// The records of one client all go to the same lane, in input order: lane
/// `lane_index(c, n)` holds exactly the client's records, and no other lane
/// holds any of them.
pub proof fn lemma_client_stays_in_its_lane(
    rs: Seq<InputTransaction>,
    n: nat,
    k: nat,
    c: ClientId,
)
    requires
        n > 0,
    ensures
        k == lane_index(c, n) ==> client_filter(lane_records(rs, n, k), |x: ClientId| x == c)
            == client_filter(rs, |x: ClientId| x == c),
        k != lane_index(c, n) ==> client_filter(lane_records(rs, n, k), |x: ClientId| x == c)
            == Seq::<InputTransaction>::empty(),
    decreases rs.len(),
{
    reveal(Seq::filter);
    let is_c = |x: ClientId| x == c;
    if rs.len() == 0 {
        assert(lane_records(rs, n, k) =~= rs);
        assert(client_filter(rs, is_c) =~= rs);
    } else {
        let prev = rs.drop_last();
        let r = rs.last();
        lemma_client_stays_in_its_lane(prev, n, k, c);
        if in_lane(n, k)(r.client_id) {
            assert(lane_records(rs, n, k) =~= lane_records(prev, n, k).push(r));
            assert(lane_records(rs, n, k).drop_last() =~= lane_records(prev, n, k));
        } else {
            assert(lane_records(rs, n, k) =~= lane_records(prev, n, k));
        }
        if is_c(r.client_id) {
            assert(client_filter(rs, is_c).drop_last() =~= client_filter(prev, is_c));
        } else {
            assert(client_filter(rs, is_c) =~= client_filter(prev, is_c));
        }
    }
}

/// The lane of client `client` among `lanes`: `client mod lanes`.
pub fn lane_of(client: ClientId, lanes: usize) -> (r: usize)
    requires
        lanes > 0,
    ensures
        r == lane_index(client, lanes as nat),
        r < lanes,
{
    (client as usize) % lanes
}

/// Filtering one more record: it is kept where its client satisfies `p`.
proof fn lemma_filter_push(rs: Seq<InputTransaction>, r: InputTransaction, p: spec_fn(ClientId) -> bool)
    ensures
        client_filter(rs.push(r), p) == (if p(r.client_id) {
            client_filter(rs, p).push(r)
        } else {
            client_filter(rs, p)
        }),
{
    reveal(Seq::filter);
    assert(rs.push(r).drop_last() =~= rs);
}

/// The ledger of lane `lane` of `lanes`: the records of its clients, in order.
pub fn process_lane(records: &Vec<InputTransaction>, lanes: usize, lane: usize) -> (r: PaymentEngine)
    requires
        0 <= lane < lanes,
        forall|i: int| 0 <= i < records@.len() ==> (#[trigger] records@[i]).wf(),
    ensures
        r.wf(),
        r@ == lane_ledger(records@, lanes as nat, lane as nat),
{
    let mut engine = PaymentEngine::new();
    let mut i: usize = 0;
    while i < records.len()
        invariant
            0 <= i <= records@.len(),
            0 <= lane < lanes,
            engine.wf(),
            engine@ == lane_ledger(records@.subrange(0, i as int), lanes as nat, lane as nat),
            forall|j: int| 0 <= j < records@.len() ==> (#[trigger] records@[j]).wf(),
        decreases records@.len() - i,
    {
        let r = records[i];
        proof {
            let p = in_lane(lanes as nat, lane as nat);
            assert(records@.subrange(0, i + 1) =~= records@.subrange(0, i as int).push(r));
            lemma_filter_push(records@.subrange(0, i as int), r, p);
            let kept = client_filter(records@.subrange(0, i as int), p).push(r);
            assert(kept.drop_last() =~= client_filter(records@.subrange(0, i as int), p));
        }
        if lane_of(r.client_id, lanes) == lane {
            engine.apply(r);
        }
        i = i + 1;
    }
    assert(records@.subrange(0, records@.len() as int) =~= records@);
    engine
}

/// The accounts of all lanes in one map, each client's taken from its own
/// lane.
pub fn merge_lanes(lanes: &Vec<HashMap<ClientId, Account>>) -> (r: HashMap<ClientId, Account>)
    requires
        lanes@.len() > 0,
        forall|k: int, c: ClientId|
            0 <= k < lanes@.len() && #[trigger] lanes@[k]@.contains_key(c) ==> lanes@[k]@[c].wf(),
    ensures
        r@ == merged_accounts(lanes@.map_values(|m: HashMap<ClientId, Account>| m@)),
        forall|c: ClientId| #[trigger] r@.contains_key(c) ==> r@[c].wf(),
{
    let ghost views = lanes@.map_values(|m: HashMap<ClientId, Account>| m@);
    let mut r: HashMap<ClientId, Account> = HashMap::new();
    let mut c: u32 = 0;
    while c < 0x1_0000
        invariant
            c <= 0x1_0000,
            lanes@.len() > 0,
            views == lanes@.map_values(|m: HashMap<ClientId, Account>| m@),
            forall|k: int, x: ClientId|
                0 <= k < lanes@.len() && #[trigger] lanes@[k]@.contains_key(x)
                    ==> lanes@[k]@[x].wf(),
            forall|x: ClientId| #[trigger]
                r@.contains_key(x) == ((x as u32) < c && merged_accounts(views).contains_key(x)),
            forall|x: ClientId| #[trigger]
                r@.contains_key(x) ==> r@[x] == merged_accounts(views)[x] && r@[x].wf(),
        decreases 0x1_0000 - c,
    {
        let client = c as u16;
        let k = lane_of(client, lanes.len());
        assert(views[k as int] == lanes@[k as int]@);
        match lanes[k].get(&client) {
            Some(a) => {
                r.insert(client, *a);
            },
            None => {},
        }
        c = c + 1;
    }
    assert(r@ =~= merged_accounts(views));
    r
}

/// The accounts that `lanes` lanes produce from the records: each lane
/// processes its clients' records in order, and the lanes are merged.
pub fn process_in_lanes(records: &Vec<InputTransaction>, lanes: usize) -> (r: HashMap<
    ClientId,
    Account,
>)
    requires
        lanes > 0,
        forall|i: int| 0 <= i < records@.len() ==> (#[trigger] records@[i]).wf(),
    ensures
        r@ == sharded_accounts(records@, lanes as nat),
        ids_owned(records@) ==> r@ == Ledger::empty().run(records@).accounts,
        forall|c: ClientId| #[trigger] r@.contains_key(c) ==> r@[c].wf(),
{
    let mut maps: Vec<HashMap<ClientId, Account>> = Vec::new();
    let mut k: usize = 0;
    while k < lanes
        invariant
            k <= lanes,
            maps@.len() == k,
            forall|i: int| 0 <= i < records@.len() ==> (#[trigger] records@[i]).wf(),
            forall|j: int|
                0 <= j < k ==> (#[trigger] maps@[j])@ == lane_ledger(
                    records@,
                    lanes as nat,
                    j as nat,
                ).accounts,
            forall|j: int, c: ClientId|
                0 <= j < k && #[trigger] maps@[j]@.contains_key(c) ==> maps@[j]@[c].wf(),
        decreases lanes - k,
    {
        let engine = process_lane(records, lanes, k);
        let ghost accounts = engine@.accounts;
        maps.push(engine.accounts);
        assert(maps@[k as int]@ == accounts);
        assert(forall|c: ClientId| #[trigger] accounts.contains_key(c) ==> accounts[c].wf());
        k = k + 1;
    }
    let r = merge_lanes(&maps);
    assert(maps@.map_values(|m: HashMap<ClientId, Account>| m@) =~= Seq::new(
        lanes as nat,
        |j: int| lane_ledger(records@, lanes as nat, j as nat).accounts,
    ));
    proof {
        if ids_owned(records@) {
            lemma_sharding_matches_single_ledger(records@, lanes as nat);
        }
    }
    r
}

/// Groups records into per-lane batches of a fixed size, keeping each lane's
/// records in input order.
pub struct Router {
    lanes: usize,
    batch_size: usize,
    pending: Vec<Vec<InputTransaction>>,
    routed: Ghost<Seq<InputTransaction>>,
    sent: Ghost<Seq<Seq<InputTransaction>>>,
}

impl Router {
    /// The number of lanes.
    pub closed spec fn lane_count(&self) -> nat {
        self.lanes as nat
    }

    /// The size of a full batch.
    pub closed spec fn batch_limit(&self) -> nat {
        self.batch_size as nat
    }

    /// Every record routed so far, in order.
    pub closed spec fn routed(&self) -> Seq<InputTransaction> {
        self.routed@
    }

    /// The records of lane `k` handed out in batches so far, in order.
    pub closed spec fn sent(&self, k: int) -> Seq<InputTransaction> {
        self.sent@[k]
    }

    /// The records of lane `k` waiting for their batch to fill.
    pub closed spec fn waiting(&self, k: int) -> Seq<InputTransaction> {
        self.pending@[k]@
    }

    pub closed spec fn wf(&self) -> bool {
        &&& self.lanes > 0
        &&& self.batch_size > 0
        &&& self.pending@.len() == self.lanes
        &&& self.sent@.len() == self.lanes
        &&& forall|k: int|
            0 <= k < self.lanes ==> #[trigger] self.sent@[k] + self.pending@[k]@ == lane_records(
                self.routed@,
                self.lanes as nat,
                k as nat,
            )
        &&& forall|k: int| 0 <= k < self.lanes ==> (#[trigger] self.pending@[k]@).len() < self.batch_size
    }

    /// A router over `lanes` lanes with batches of `batch_size` records.
    pub fn new(lanes: usize, batch_size: usize) -> (r: Router)
        requires
            lanes > 0,
            batch_size > 0,
        ensures
            r.wf(),
            r.lane_count() == lanes,
            r.batch_limit() == batch_size,
            r.routed() == Seq::<InputTransaction>::empty(),
            forall|k: int| 0 <= k < lanes ==> #[trigger] r.sent(k) == Seq::<InputTransaction>::empty(),
    {
        let mut pending: Vec<Vec<InputTransaction>> = Vec::new();
        let mut k: usize = 0;
        while k < lanes
            invariant
                k <= lanes,
                pending@.len() == k,
                forall|j: int| 0 <= j < k ==> (#[trigger] pending@[j])@ == Seq::<InputTransaction>::empty(),
            decreases lanes - k,
        {
            pending.push(Vec::new());
            k = k + 1;
        }
        let r = Router {
            lanes,
            batch_size,
            pending,
            routed: Ghost(Seq::empty()),
            sent: Ghost(Seq::new(lanes as nat, |k: int| Seq::<InputTransaction>::empty())),
        };
        assert forall|k: int| 0 <= k < lanes implies #[trigger] r.sent@[k] + r.pending@[k]@
            == lane_records(r.routed@, lanes as nat, k as nat) by {
            reveal(Seq::filter);
            assert(r.sent@[k] + r.pending@[k]@ =~= Seq::<InputTransaction>::empty());
        }
        r
    }

    /// Routes one record to the lane of its client. Where that lane's batch
    /// is full, it is handed out with its lane.
    pub fn route(&mut self, r: InputTransaction) -> (out: Option<(usize, Vec<InputTransaction>)>)
        requires
            old(self).wf(),
        ensures
            final(self).wf(),
            final(self).lane_count() == old(self).lane_count(),
            final(self).batch_limit() == old(self).batch_limit(),
            final(self).routed() == old(self).routed().push(r),
            match out {
                Some((k, batch)) => {
                    &&& k == lane_index(r.client_id, old(self).lane_count())
                    &&& batch@.len() == old(self).batch_limit()
                    &&& final(self).sent(k as int) == old(self).sent(k as int) + batch@
                    &&& forall|j: int|
                        0 <= j < old(self).lane_count() && j != k ==> #[trigger] final(self).sent(j)
                            == old(self).sent(j)
                },
                None => forall|j: int|
                    0 <= j < old(self).lane_count() ==> #[trigger] final(self).sent(j) == old(
                        self,
                    ).sent(j),
            },
    {
        let k = lane_of(r.client_id, self.lanes);
        let ghost old_routed = self.routed@;
        proof {
            assert forall|j: int| 0 <= j < self.lanes implies #[trigger] lane_records(
                old_routed.push(r),
                self.lanes as nat,
                j as nat,
            ) == if j == k {
                lane_records(old_routed, self.lanes as nat, j as nat).push(r)
            } else {
                lane_records(old_routed, self.lanes as nat, j as nat)
            } by {
                lemma_filter_push(old_routed, r, in_lane(self.lanes as nat, j as nat));
            }
            self.routed = Ghost(old_routed.push(r));
        }
        self.pending[k].push(r);
        assert forall|j: int| 0 <= j < self.lanes implies #[trigger] self.sent@[j]
            + self.pending@[j]@ == lane_records(self.routed@, self.lanes as nat, j as nat) by {
            if j == k {
                assert(self.sent@[j] + self.pending@[j]@ =~= (old(self).sent@[j]
                    + old(self).pending@[j]@).push(r));
            }
        }
        if self.pending[k].len() >= self.batch_size {
            let mut batch: Vec<InputTransaction> = Vec::new();
            std::mem::swap(&mut self.pending[k], &mut batch);
            proof {
                let s = self.sent@;
                self.sent = Ghost(s.update(k as int, s[k as int] + batch@));
                assert(self.sent@[k as int] + self.pending@[k as int]@ =~= s[k as int] + batch@);
            }
            Some((k, batch))
        } else {
            None
        }
    }

    /// The batches still waiting, one per lane (possibly empty), by lane.
    /// With them, each lane has been handed exactly its records.
    pub fn finish(self) -> (out: Vec<Vec<InputTransaction>>)
        requires
            self.wf(),
        ensures
            out@.len() == self.lane_count(),
            forall|k: int|
                0 <= k < self.lane_count() ==> self.sent(k) + (#[trigger] out@[k])@ == lane_records(
                    self.routed(),
                    self.lane_count(),
                    k as nat,
                ),
    {
        self.pending
    }
}

} // verus!
