use vstd::prelude::*;

use crate::command::{is_bulk, is_error, is_simple, Command, Frame, Request};
use crate::routing::{route, shard_of};
use crate::shard::{copy_bytes, Shard};

verus! {

/// Why a store could not be built.
#[derive(Debug, Clone, Copy, PartialEq, Eq, Structural)]
pub enum StoreError {
    /// A store needs at least one shard.
    ZeroShards,
}

/// The mapping after a request has been carried out on mapping `m`.
pub open spec fn applied(m: Map<Seq<u8>, Seq<u8>>, req: Request) -> Map<Seq<u8>, Seq<u8>> {
    match req {
        Request::SetValue { key, value } => m.insert(key, value),
        _ => m,
    }
}

/// The response `f` is the one owed to request `req` on mapping `m`.
pub open spec fn replies(m: Map<Seq<u8>, Seq<u8>>, req: Request, f: Frame) -> bool {
    match req {
        Request::Get { key } => if m.contains_key(key) {
            is_bulk(f, m[key])
        } else {
            f is Null
        },
        Request::SetValue { .. } => is_simple(f, "OK"@),
        Request::Unknown => is_error(f, "unknown command"@),
        _ => is_error(f, "unsupported command"@),
    }
}

/// The request reads or writes one key.
pub open spec fn touches_key(req: Request) -> bool {
    req is Get || req is SetValue
}

/// The response to a request that no shard serves: pub/sub and unknown
/// commands are refused with an error, and nothing else happens.
pub fn refuse(cmd: &Command) -> (r: Frame)
    requires
        !touches_key(cmd@),
    ensures
        cmd@ is Unknown ==> is_error(r, "unknown command"@),
        !(cmd@ is Unknown) ==> is_error(r, "unsupported command"@),
{
    match cmd {
        Command::Unknown { .. } => Frame::Error("unknown command".to_owned()),
        _ => Frame::Error("unsupported command".to_owned()),
    }
}

/// Carries out a request on the shard that owns its key.
pub fn execute(shard: &mut Shard, cmd: &Command) -> (r: Frame)
    requires
        old(shard).wf(),
    ensures
        final(shard).wf(),
        final(shard)@ == applied(old(shard)@, cmd@),
        replies(old(shard)@, cmd@, r),
{
    match cmd {
        Command::Get { key } => match shard.get(key.as_slice()) {
            Some(v) => Frame::Bulk(v),
            None => Frame::Null,
        },
        Command::SetValue { key, value } => {
            shard.set(copy_bytes(key.as_slice()), copy_bytes(value.as_slice()));
            Frame::Simple("OK".to_owned())
        },
        _ => refuse(cmd),
    }
}

/// A key-value store split into a fixed number of shards; each key lives in
/// the shard that its hash selects.
pub struct Store {
    shards: Vec<Shard>,
}

impl View for Store {
    type V = Map<Seq<u8>, Seq<u8>>;

    closed spec fn view(&self) -> Map<Seq<u8>, Seq<u8>> {
        Map::new(
            |k: Seq<u8>| self.shards@[self.owner(k)]@.contains_key(k),
            |k: Seq<u8>| self.shards@[self.owner(k)]@[k],
        )
    }
}

impl Store {
    /// The number of shards, fixed when the store is built.
    pub closed spec fn spec_shard_count(&self) -> nat {
        self.shards@.len()
    }

    /// The index of the shard that owns `k`.
    pub open spec fn owner(&self, k: Seq<u8>) -> int {
        shard_of(k, self.spec_shard_count()) as int
    }

    /// Every shard is well formed and holds only the keys that route to it.
    pub closed spec fn wf(&self) -> bool {
        &&& self.shards@.len() > 0
        &&& forall|i: int| 0 <= i < self.shards@.len() ==> (#[trigger] self.shards@[i]).wf()
        &&& forall|i: int, k: Seq<u8>|
            0 <= i < self.shards@.len() && #[trigger] self.shards@[i]@.contains_key(k)
                ==> self.owner(k) == i
    }

    /// A store of `shard_count` empty shards; zero shards is refused.
    pub fn new(shard_count: usize) -> (r: Result<Store, StoreError>)
        ensures
            shard_count == 0 <==> r == Err::<Store, StoreError>(StoreError::ZeroShards),
            r is Ok ==> r->Ok_0.wf() && r->Ok_0@ == Map::<Seq<u8>, Seq<u8>>::empty()
                && r->Ok_0.spec_shard_count() == shard_count,
    {
        if shard_count == 0 {
            return Err(StoreError::ZeroShards);
        }
        let mut shards: Vec<Shard> = Vec::with_capacity(shard_count);
        let mut i: usize = 0;
        while i < shard_count
            invariant
                i <= shard_count,
                shards@.len() == i,
                forall|j: int| 0 <= j < i ==> (#[trigger] shards@[j]).wf(),
                forall|j: int| 0 <= j < i ==> (#[trigger] shards@[j])@ == Map::<Seq<u8>, Seq<u8>>::empty(),
            decreases shard_count - i,
        {
            shards.push(Shard::new());
            i = i + 1;
        }
        let s = Store { shards };
        assert(s@ =~= Map::<Seq<u8>, Seq<u8>>::empty());
        Ok(s)
    }

    /// The number of shards.
    pub fn shard_count(&self) -> (r: usize)
        ensures
            r == self.spec_shard_count(),
    {
        self.shards.len()
    }

    /// The index of the shard that owns `key`.
    pub fn route(&self, key: &[u8]) -> (r: usize)
        requires
            self.wf(),
        ensures
            r == self.owner(key@),
            r < self.spec_shard_count(),
    {
        route(key, self.shards.len())
    }

    /// The value held for `key`, as a copy.
    pub fn get(&self, key: &[u8]) -> (r: Option<Vec<u8>>)
        requires
            self.wf(),
        ensures
            r.is_some() == self@.contains_key(key@),
            r.is_some() ==> r.unwrap()@ == self@[key@],
    {
        let i = self.route(key);
        self.shards[i].get(key)
    }

    /// Holds `value` for `key`, in place of any value held before.
    pub fn set(&mut self, key: Vec<u8>, value: Vec<u8>)
        requires
            old(self).wf(),
        ensures
            final(self).wf(),
            final(self).spec_shard_count() == old(self).spec_shard_count(),
            final(self)@ == old(self)@.insert(key@, value@),
    {
        let cmd = Command::SetValue { key, value };
        let _ = self.apply(&cmd);
    }

    /// Gives up the store for its shards, in routing order, so that each can
    /// be guarded on its own.
    pub fn into_shards(self) -> (r: Vec<Shard>)
        requires
            self.wf(),
        ensures
            r@.len() == self.spec_shard_count(),
            r@.len() > 0,
            forall|i: int| 0 <= i < r@.len() ==> (#[trigger] r@[i]).wf(),
            forall|i: int, k: Seq<u8>|
                0 <= i < r@.len() && #[trigger] r@[i]@.contains_key(k) ==> self.owner(k) == i,
            forall|k: Seq<u8>|
                #![trigger self@.contains_key(k)]
                self@.contains_key(k) <==> r@[self.owner(k)]@.contains_key(k),
            forall|k: Seq<u8>|
                #![trigger self@[k]]
                self@.contains_key(k) ==> self@[k] == r@[self.owner(k)]@[k],
    {
        self.shards
    }

    /// Carries out a request and gives the response to send back.
    pub fn apply(&mut self, cmd: &Command) -> (r: Frame)
        requires
            old(self).wf(),
        ensures
            final(self).wf(),
            final(self).spec_shard_count() == old(self).spec_shard_count(),
            final(self)@ == applied(old(self)@, cmd@),
            replies(old(self)@, cmd@, r),
    {
        let ghost old_shards = self.shards@;
        let ghost before = self@;
        let key = match cmd.key() {
            Some(key) => key,
            None => {
                return refuse(cmd);
            },
        };
        let i = self.route(key.as_slice());
        let r = execute(&mut self.shards[i], cmd);
        proof {
            let n = self.spec_shard_count();
            assert(n == old_shards.len());
            assert forall|j: int| 0 <= j < n && j != i implies self.shards@[j] == old_shards[j] by {}
            assert forall|j: int, k: Seq<u8>|
                0 <= j < n && #[trigger] self.shards@[j]@.contains_key(k) implies self.owner(k)
                == j by {
                if j != i {
                    assert(old_shards[j]@.contains_key(k));
                } else if !old_shards[j]@.contains_key(k) {
                    assert(k == key@);
                }
            }
            assert(self@ =~= applied(before, cmd@));
        }
        r
    }
}


/// A request that writes `k`.
pub open spec fn writes(req: Request, k: Seq<u8>) -> bool {
    match req {
        Request::SetValue { key, .. } => key == k,
        _ => false,
    }
}

/// The mapping after the requests `reqs` have been carried out in order.
pub open spec fn run(m: Map<Seq<u8>, Seq<u8>>, reqs: Seq<Request>) -> Map<Seq<u8>, Seq<u8>>
    decreases reqs.len(),
{
    if reqs.len() == 0 {
        m
    } else {
        run(applied(m, reqs[0]), reqs.drop_first())
    }
}

/// Requests that do not write `k` leave what is held for `k` as it was.
pub proof fn lemma_run_keeps(m: Map<Seq<u8>, Seq<u8>>, reqs: Seq<Request>, k: Seq<u8>)
    requires
        forall|i: int| 0 <= i < reqs.len() ==> !writes(#[trigger] reqs[i], k),
    ensures
        run(m, reqs).contains_key(k) == m.contains_key(k),
        m.contains_key(k) ==> run(m, reqs)[k] == m[k],
    decreases reqs.len(),
{
    if reqs.len() > 0 {
        assert(!writes(reqs[0], k));
        let rest = reqs.drop_first();
        assert forall|i: int| 0 <= i < rest.len() implies !writes(#[trigger] rest[i], k) by {
            assert(rest[i] == reqs[i + 1]);
        }
        lemma_run_keeps(applied(m, reqs[0]), rest, k);
    }
}

/// Routing is stable: a store's shard count never changes, so a key is sent
/// to the same shard by every call, before and after any writes.
pub proof fn lemma_route_stable(before: Store, after: Store, k: Seq<u8>)
    requires
        before.wf(),
        after.spec_shard_count() == before.spec_shard_count(),
    ensures
        after.owner(k) == before.owner(k),
        0 <= before.owner(k) < before.spec_shard_count(),
{
}

/// A GET after a SET of the same key, with no other SET of that key in
/// between, answers with the value of that SET.
pub proof fn lemma_set_then_get(
    m: Map<Seq<u8>, Seq<u8>>,
    k: Seq<u8>,
    v: Seq<u8>,
    between: Seq<Request>,
    f: Frame,
)
    requires
        forall|i: int| 0 <= i < between.len() ==> !writes(#[trigger] between[i], k),
    ensures
        replies(
            run(applied(m, Request::SetValue { key: k, value: v }), between),
            Request::Get { key: k },
            f,
        ) <==> is_bulk(f, v),
{
    lemma_run_keeps(applied(m, Request::SetValue { key: k, value: v }), between, k);
}

/// What a run of requests holds for `k` was held before the run, or was
/// written whole by one SET of the run.
pub proof fn lemma_run_value_origin(m: Map<Seq<u8>, Seq<u8>>, reqs: Seq<Request>, k: Seq<u8>)
    requires
        run(m, reqs).contains_key(k),
    ensures
        (m.contains_key(k) && m[k] == run(m, reqs)[k]) || exists|i: int|
            0 <= i < reqs.len() && #[trigger] reqs[i] == (Request::SetValue {
                key: k,
                value: run(m, reqs)[k],
            }),
    decreases reqs.len(),
{
    if reqs.len() > 0 {
        let m1 = applied(m, reqs[0]);
        let rest = reqs.drop_first();
        let v = run(m, reqs)[k];
        lemma_run_value_origin(m1, rest, k);
        if m1.contains_key(k) && m1[k] == v {
            if writes(reqs[0], k) {
                assert(reqs[0] == (Request::SetValue { key: k, value: v }));
            }
        } else {
            let i = choose|i: int|
                0 <= i < rest.len() && #[trigger] rest[i] == (Request::SetValue { key: k, value: v });
            assert(reqs[i + 1] == rest[i]);
        }
    }
}

/// A GET never sees part of a value: starting from an empty store, it answers
/// Null, or the whole value of one SET of that key.
pub proof fn lemma_get_sees_whole_value(reqs: Seq<Request>, k: Seq<u8>, f: Frame)
    requires
        replies(run(Map::empty(), reqs), Request::Get { key: k }, f),
    ensures
        f is Null || exists|i: int, v: Seq<u8>|
            #![trigger reqs[i], is_bulk(f, v)]
            0 <= i < reqs.len() && reqs[i] == (Request::SetValue { key: k, value: v }) && is_bulk(
                f,
                v,
            ),
{
    let m = run(Map::empty(), reqs);
    if m.contains_key(k) {
        lemma_run_value_origin(Map::empty(), reqs, k);
        let i = choose|i: int|
            0 <= i < reqs.len() && #[trigger] reqs[i] == (Request::SetValue { key: k, value: m[k] });
        assert(is_bulk(f, m[k]));
    }
}

/// A GET of a key that was never set answers Null, not an error.
pub proof fn lemma_get_absent(reqs: Seq<Request>, k: Seq<u8>, f: Frame)
    requires
        forall|i: int| 0 <= i < reqs.len() ==> !writes(#[trigger] reqs[i], k),
    ensures
        replies(run(Map::empty(), reqs), Request::Get { key: k }, f) <==> f is Null,
{
    lemma_run_keeps(Map::empty(), reqs, k);
}

/// A pub/sub or unknown request is answered with an error and changes
/// nothing: whatever comes next is answered as if it had not been sent.
pub proof fn lemma_refused_harmless(
    m: Map<Seq<u8>, Seq<u8>>,
    req: Request,
    f: Frame,
    next: Request,
    g: Frame,
)
    requires
        !touches_key(req),
        replies(m, req, f),
    ensures
        f is Error,
        applied(m, req) == m,
        replies(applied(m, req), next, g) == replies(m, next, g),
        applied(applied(m, req), next) == applied(m, next),
{
}

} // verus!
