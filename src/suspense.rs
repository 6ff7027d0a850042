use vstd::prelude::*;
use crate::runtime::{live_resources, ResourceId, Runtime};
use crate::scope::Scope;

verus! {

/// The streamed fragment of one suspense boundary, as handed to the
/// response assembler.
pub struct Fragment {
    pub key: String,
    /// The response must wait for this fragment before it can go out.
    pub should_block: bool,
    /// The is-ready signal was handed to a blocking wait.
    pub ready_taken: bool,
}

/// The state of one suspense boundary. It becomes ready, once and for good,
/// the first time its count of pending resources is zero; readiness is what
/// releases its out-of-order, in-order and is-ready consumers. It stays
/// registered when its fragment is taken, so those consumers are released
/// however the fragment left the runtime.
pub struct Boundary {
    pub key: String,
    /// Resources of the boundary that have not resolved yet.
    pub pending: u64,
    pub ready: bool,
}

pub open spec fn has_boundary(bs: Seq<Boundary>, key: Seq<char>) -> bool {
    exists|i: int| 0 <= i < bs.len() && (#[trigger] bs[i]).key@ == key
}

pub open spec fn has_key(frags: Seq<Fragment>, key: Seq<char>) -> bool {
    exists|i: int| 0 <= i < frags.len() && (#[trigger] frags[i]).key@ == key
}

/// The keys of the blocking fragments whose is-ready signal is still there.
pub open spec fn blocking_keys(frags: Seq<Fragment>) -> Seq<Seq<char>>
    decreases frags.len(),
{
    if frags.len() == 0 {
        Seq::empty()
    } else {
        let last = frags.last();
        blocking_keys(frags.drop_last()) + if last.should_block && !last.ready_taken {
            seq![last.key@]
        } else {
            Seq::empty()
        }
    }
}

/// Readiness after the pending count is observed as `count`.
pub open spec fn next_ready(ready: bool, count: u64) -> bool {
    ready || count == 0
}

/// What taking the fragment `key` from `before` does: it hands out the
/// fragment under `key` and removes it, or hands out nothing and changes
/// nothing when there is none.
pub open spec fn take_outcome(before: Seq<Fragment>, key: Seq<char>, r: Option<Fragment>, after: Seq<Fragment>) -> bool {
    &&& !has_key(after, key)
    &&& !has_key(before, key) ==> r.is_none() && after == before
    &&& has_key(before, key) ==> exists|i: int|
        0 <= i < before.len() && (#[trigger] before[i]).key@ == key && r == Some(before[i]) && after == before.remove(i)
}

/// A boundary with key `key` is registered and ready.
pub open spec fn key_ready(bs: Seq<Boundary>, key: Seq<char>) -> bool {
    exists|i: int| 0 <= i < bs.len() && (#[trigger] bs[i]).key@ == key && bs[i].ready
}

/// Every key names a boundary that is ready.
pub open spec fn keys_ready(bs: Seq<Boundary>, keys: Seq<Seq<char>>) -> bool {
    forall|k: int| 0 <= k < keys.len() ==> key_ready(bs, #[trigger] keys[k])
}

/// The members of `rs` that are in `loading`, in order.
pub open spec fn still_loading(rs: Seq<ResourceId>, loading: Seq<ResourceId>) -> Seq<ResourceId>
    decreases rs.len(),
{
    if rs.len() == 0 {
        Seq::empty()
    } else {
        still_loading(rs.drop_last(), loading) + if loading.contains(rs.last()) {
            seq![rs.last()]
        } else {
            Seq::empty()
        }
    }
}

/// Position of the fragment with key `key`.
fn find_fragment(frags: &Vec<Fragment>, key: &String) -> (r: Option<usize>)
    ensures
        r matches Some(i) ==> i < frags@.len() && frags@[i as int].key@ == key@,
        r.is_none() ==> !has_key(frags@, key@),
{
    let mut k: usize = 0;
    while k < frags.len()
        invariant
            k <= frags@.len(),
            forall|j: int| 0 <= j < k ==> (#[trigger] frags@[j]).key@ != key@,
        decreases frags@.len() - k,
    {
        if frags[k].key == *key {
            return Some(k);
        }
        k = k + 1;
    }
    None
}

/// Position of the boundary with key `key`.
fn find_boundary(bs: &Vec<Boundary>, key: &String) -> (r: Option<usize>)
    ensures
        r matches Some(i) ==> i < bs@.len() && bs@[i as int].key@ == key@,
        r.is_none() ==> !has_boundary(bs@, key@),
{
    let mut k: usize = 0;
    while k < bs.len()
        invariant
            k <= bs@.len(),
            forall|j: int| 0 <= j < k ==> (#[trigger] bs@[j]).key@ != key@,
        decreases bs@.len() - k,
    {
        if bs[k].key == *key {
            return Some(k);
        }
        k = k + 1;
    }
    None
}

impl Scope {
    /// The resources owned by every live scope of this scope's runtime; none
    /// for a scope of another runtime.
    pub fn all_resources(&self, runtime: &Runtime) -> (r: Vec<ResourceId>)
        ensures
            self.runtime == runtime.id ==> r@ == live_resources(runtime.scopes@, runtime.scopes@.len() as int),
            self.runtime != runtime.id ==> r@.len() == 0,
    {
        if self.runtime != runtime.id {
            return Vec::new();
        }
        runtime.live_resource_ids()
    }

    /// The resources of [`Scope::all_resources`] that are still waiting for
    /// their value from the server.
    pub fn pending_resources(&self, runtime: &Runtime) -> (r: Vec<ResourceId>)
        ensures
            self.runtime == runtime.id ==> r@ == still_loading(
                live_resources(runtime.scopes@, runtime.scopes@.len() as int),
                runtime.loading@,
            ),
            self.runtime != runtime.id ==> r@.len() == 0,
    {
        let all = self.all_resources(runtime);
        let mut out: Vec<ResourceId> = Vec::new();
        if self.runtime != runtime.id {
            return out;
        }
        let mut k: usize = 0;
        while k < all.len()
            invariant
                k <= all@.len(),
                out@ == still_loading(all@.subrange(0, k as int), runtime.loading@),
            decreases all@.len() - k,
        {
            assert(all@.subrange(0, k as int + 1).drop_last() =~= all@.subrange(0, k as int));
            if runtime.is_loading(all[k]) {
                out.push(all[k]);
            } else {
                assert(out@ =~= out@ + Seq::empty());
            }
            k = k + 1;
        }
        assert(all@.subrange(0, k as int) =~= all@);
        out
    }

    /// Registers the fragment of a suspense boundary under `key`, with the
    /// boundary's current count of pending resources. A fragment or boundary
    /// already registered under `key` is replaced. A scope of another runtime
    /// changes nothing.
    pub fn register_suspense(&self, runtime: &mut Runtime, key: &str, should_block: bool, pending: u64)
        requires
            old(runtime).wf(),
        ensures
            final(runtime).wf(),
            final(runtime).scopes@ == old(runtime).scopes@,
            final(runtime).id == old(runtime).id,
            final(runtime).observer == old(runtime).observer,
            final(runtime).owner == old(runtime).owner,
            final(runtime).batching == old(runtime).batching,
            final(runtime).dependencies@ == old(runtime).dependencies@,
            final(runtime).pending_effects@ == old(runtime).pending_effects@,
            final(runtime).effect_runs@ == old(runtime).effect_runs@,
            final(runtime).loading@ == old(runtime).loading@,
            self.runtime != old(runtime).id ==> final(runtime).fragments@ == old(runtime).fragments@
                && final(runtime).boundaries@ == old(runtime).boundaries@,
            self.runtime == old(runtime).id ==> {
                &&& final(runtime).fragments@.len() == old(runtime).fragments@.len() + if has_key(old(runtime).fragments@, key@) { 0int } else { 1int }
                &&& forall|j: int| 0 <= j < old(runtime).fragments@.len() && (#[trigger] old(runtime).fragments@[j]).key@ != key@
                    ==> final(runtime).fragments@[j] == old(runtime).fragments@[j]
                &&& exists|i: int| 0 <= i < final(runtime).fragments@.len() && {
                    let f = #[trigger] final(runtime).fragments@[i];
                    &&& f.key@ == key@
                    &&& f.should_block == should_block
                    &&& !f.ready_taken
                }
                &&& final(runtime).boundaries@.len() == old(runtime).boundaries@.len() + if has_boundary(old(runtime).boundaries@, key@) { 0int } else { 1int }
                &&& forall|j: int| 0 <= j < old(runtime).boundaries@.len() && (#[trigger] old(runtime).boundaries@[j]).key@ != key@
                    ==> final(runtime).boundaries@[j] == old(runtime).boundaries@[j]
                &&& exists|i: int| 0 <= i < final(runtime).boundaries@.len() && {
                    let b = #[trigger] final(runtime).boundaries@[i];
                    &&& b.key@ == key@
                    &&& b.pending == pending
                    &&& b.ready == (pending == 0)
                }
            },
    {
        if self.runtime != runtime.id {
            return;
        }
        let owned = key.to_owned();
        let found = find_fragment(&runtime.fragments, &owned);
        let frag = Fragment { key: owned.clone(), should_block, ready_taken: false };
        let ghost mut fi: int = 0;
        match found {
            Some(i) => {
                let ghost before = runtime.fragments@;
                runtime.fragments.set(i, frag);
                proof { fi = i as int; }
                assert(runtime.fragments@[i as int].key@ == key@);
                assert forall|a: int, b: int| 0 <= a < b < runtime.fragments@.len() implies runtime.fragments@[a].key@ != runtime.fragments@[b].key@ by {
                    if a != i as int && b != i as int {
                        assert(before[a] == runtime.fragments@[a]);
                    }
                }
            },
            None => {
                let ghost before = runtime.fragments@;
                runtime.fragments.push(frag);
                let ghost n = before.len() as int;
                proof { fi = n; }
                assert(runtime.fragments@[n].key@ == key@);
                assert forall|a: int, b: int| 0 <= a < b < runtime.fragments@.len() implies runtime.fragments@[a].key@ != runtime.fragments@[b].key@ by {
                    if b == n {
                        assert(before[a] == runtime.fragments@[a]);
                    }
                }
            },
        }
        let ghost frags = runtime.fragments@;
        assert(0 <= fi < frags.len() && frags[fi].key@ == key@ && frags[fi].should_block == should_block && !frags[fi].ready_taken);
        let found = find_boundary(&runtime.boundaries, &owned);
        let bd = Boundary { key: owned, pending, ready: pending == 0 };
        let ghost mut bi: int = 0;
        match found {
            Some(i) => {
                let ghost before = runtime.boundaries@;
                runtime.boundaries.set(i, bd);
                proof { bi = i as int; }
                assert(runtime.boundaries@[i as int].key@ == key@);
                assert forall|a: int, b: int| 0 <= a < b < runtime.boundaries@.len() implies runtime.boundaries@[a].key@ != runtime.boundaries@[b].key@ by {
                    if a != i as int && b != i as int {
                        assert(before[a] == runtime.boundaries@[a]);
                    }
                }
            },
            None => {
                let ghost before = runtime.boundaries@;
                runtime.boundaries.push(bd);
                let ghost n = before.len() as int;
                proof { bi = n; }
                assert(runtime.boundaries@[n].key@ == key@);
                assert forall|a: int, b: int| 0 <= a < b < runtime.boundaries@.len() implies runtime.boundaries@[a].key@ != runtime.boundaries@[b].key@ by {
                    if b == n {
                        assert(before[a] == runtime.boundaries@[a]);
                    }
                }
            },
        }
        assert(runtime.fragments@ == frags);
        let ghost bs = runtime.boundaries@;
        assert(0 <= bi < bs.len() && bs[bi].key@ == key@ && bs[bi].pending == pending && bs[bi].ready == (pending == 0));
        assert(exists|i: int| 0 <= i < frags.len() && {
            let f = #[trigger] frags[i];
            &&& f.key@ == key@
            &&& f.should_block == should_block
            &&& !f.ready_taken
        });
        assert(exists|i: int| 0 <= i < bs.len() && {
            let b = #[trigger] bs[i];
            &&& b.key@ == key@
            &&& b.pending == pending
            &&& b.ready == (pending == 0)
        });
    }

    /// The count of pending resources of the boundary `key` is now `count`.
    /// The first time it is zero the boundary becomes ready; readiness is never
    /// withdrawn. This holds whether or not its fragment was taken. Unknown
    /// keys and scopes of another runtime change nothing.
    pub fn set_pending_resources(&self, runtime: &mut Runtime, key: &str, count: u64)
        requires
            old(runtime).wf(),
        ensures
            final(runtime).wf(),
            final(runtime).scopes@ == old(runtime).scopes@,
            final(runtime).id == old(runtime).id,
            final(runtime).observer == old(runtime).observer,
            final(runtime).owner == old(runtime).owner,
            final(runtime).batching == old(runtime).batching,
            final(runtime).dependencies@ == old(runtime).dependencies@,
            final(runtime).pending_effects@ == old(runtime).pending_effects@,
            final(runtime).effect_runs@ == old(runtime).effect_runs@,
            final(runtime).loading@ == old(runtime).loading@,
            final(runtime).fragments@ == old(runtime).fragments@,
            final(runtime).boundaries@.len() == old(runtime).boundaries@.len(),
            forall|j: int| 0 <= j < old(runtime).boundaries@.len() ==> {
                let o = #[trigger] old(runtime).boundaries@[j];
                let b = final(runtime).boundaries@[j];
                if self.runtime == old(runtime).id && o.key@ == key@ {
                    &&& b.key@ == o.key@
                    &&& b.pending == count
                    &&& b.ready == next_ready(o.ready, count)
                } else {
                    b == o
                }
            },
    {
        if self.runtime != runtime.id {
            return;
        }
        let owned = key.to_owned();
        match find_boundary(&runtime.boundaries, &owned) {
            Some(i) => {
                let ghost before = runtime.boundaries@;
                let mut bd = runtime.boundaries.remove(i);
                bd.pending = count;
                bd.ready = bd.ready || count == 0;
                runtime.boundaries.insert(i, bd);
                assert forall|j: int| 0 <= j < before.len() && j != i implies runtime.boundaries@[j] == before[j] && before[j].key@ != key@ by {
                    if j < i { } else { }
                }
                assert forall|a: int, b: int| 0 <= a < b < runtime.boundaries@.len() implies runtime.boundaries@[a].key@ != runtime.boundaries@[b].key@ by {
                    assert(runtime.boundaries@[a].key@ == before[a].key@);
                    assert(runtime.boundaries@[b].key@ == before[b].key@);
                }
            },
            None => {},
        }
    }

    /// Removes and returns every pending fragment, leaving none; a scope of
    /// another runtime gets none and changes nothing.
    pub fn pending_fragments(&self, runtime: &mut Runtime) -> (r: Vec<Fragment>)
        requires
            old(runtime).wf(),
        ensures
            final(runtime).wf(),
            final(runtime).scopes@ == old(runtime).scopes@,
            final(runtime).id == old(runtime).id,
            final(runtime).observer == old(runtime).observer,
            final(runtime).owner == old(runtime).owner,
            final(runtime).batching == old(runtime).batching,
            final(runtime).dependencies@ == old(runtime).dependencies@,
            final(runtime).pending_effects@ == old(runtime).pending_effects@,
            final(runtime).effect_runs@ == old(runtime).effect_runs@,
            final(runtime).loading@ == old(runtime).loading@,
            final(runtime).boundaries@ == old(runtime).boundaries@,
            self.runtime == old(runtime).id ==> r@ == old(runtime).fragments@ && final(runtime).fragments@.len() == 0,
            self.runtime != old(runtime).id ==> r@.len() == 0 && final(runtime).fragments@ == old(runtime).fragments@,
    {
        let mut out: Vec<Fragment> = Vec::new();
        if self.runtime == runtime.id {
            std::mem::swap(&mut out, &mut runtime.fragments);
        }
        out
    }

    /// Removes and returns the fragment registered under `key`; `None` when
    /// there is none, so a second call for the same key returns `None`.
    pub fn take_pending_fragment(&self, runtime: &mut Runtime, key: &str) -> (r: Option<Fragment>)
        requires
            old(runtime).wf(),
        ensures
            final(runtime).wf(),
            final(runtime).scopes@ == old(runtime).scopes@,
            final(runtime).id == old(runtime).id,
            final(runtime).observer == old(runtime).observer,
            final(runtime).owner == old(runtime).owner,
            final(runtime).batching == old(runtime).batching,
            final(runtime).dependencies@ == old(runtime).dependencies@,
            final(runtime).pending_effects@ == old(runtime).pending_effects@,
            final(runtime).effect_runs@ == old(runtime).effect_runs@,
            final(runtime).loading@ == old(runtime).loading@,
            final(runtime).boundaries@ == old(runtime).boundaries@,
            self.runtime != old(runtime).id ==> r.is_none() && final(runtime).fragments@ == old(runtime).fragments@,
            self.runtime == old(runtime).id ==> take_outcome(old(runtime).fragments@, key@, r, final(runtime).fragments@),
    {
        if self.runtime != runtime.id {
            return None;
        }
        let owned = key.to_owned();
        match find_fragment(&runtime.fragments, &owned) {
            Some(i) => {
                let ghost before = runtime.fragments@;
                let f = runtime.fragments.remove(i);
                assert forall|a: int, b: int| 0 <= a < b < runtime.fragments@.len() implies runtime.fragments@[a].key@ != runtime.fragments@[b].key@ by {
                    if a < i { if b < i {} else { assert(runtime.fragments@[b] == before[b + 1]); } }
                    else { assert(runtime.fragments@[a] == before[a + 1]); assert(runtime.fragments@[b] == before[b + 1]); }
                }
                assert forall|j: int| 0 <= j < runtime.fragments@.len() implies (#[trigger] runtime.fragments@[j]).key@ != key@ by {
                    if j < i { assert(runtime.fragments@[j] == before[j]); } else { assert(runtime.fragments@[j] == before[j + 1]); }
                }
                Some(f)
            },
            None => None,
        }
    }

    /// Hands out the is-ready signals of every blocking fragment that still
    /// has one, as the keys of those fragments in registration order. The
    /// response may go out once all of them are ready (see
    /// [`Scope::fragments_ready`]). Fragments that do not block are untouched.
    pub fn blocking_fragments_ready(self, runtime: &mut Runtime) -> (r: Vec<String>)
        requires
            old(runtime).wf(),
        ensures
            final(runtime).wf(),
            final(runtime).scopes@ == old(runtime).scopes@,
            final(runtime).id == old(runtime).id,
            final(runtime).observer == old(runtime).observer,
            final(runtime).owner == old(runtime).owner,
            final(runtime).batching == old(runtime).batching,
            final(runtime).dependencies@ == old(runtime).dependencies@,
            final(runtime).pending_effects@ == old(runtime).pending_effects@,
            final(runtime).effect_runs@ == old(runtime).effect_runs@,
            final(runtime).loading@ == old(runtime).loading@,
            final(runtime).boundaries@ == old(runtime).boundaries@,
            final(runtime).fragments@.len() == old(runtime).fragments@.len(),
            self.runtime != old(runtime).id ==> r@.len() == 0 && final(runtime).fragments@ == old(runtime).fragments@,
            self.runtime == old(runtime).id ==> {
                &&& r@.map_values(|s: String| s@) == blocking_keys(old(runtime).fragments@)
                &&& forall|j: int| 0 <= j < old(runtime).fragments@.len() ==> {
                    let o = #[trigger] old(runtime).fragments@[j];
                    let f = final(runtime).fragments@[j];
                    &&& f.key@ == o.key@
                    &&& f.should_block == o.should_block
                    &&& f.ready_taken == (o.ready_taken || o.should_block)
                }
            },
    {
        let mut out: Vec<String> = Vec::new();
        if self.runtime != runtime.id {
            return out;
        }
        let ghost before = runtime.fragments@;
        let mut k: usize = 0;
        while k < runtime.fragments.len()
            invariant
                runtime.wf(),
                k <= runtime.fragments@.len(),
                runtime.fragments@.len() == before.len(),
                before == old(runtime).fragments@,
                runtime.scopes@ == old(runtime).scopes@,
                runtime.id == old(runtime).id,
                runtime.observer == old(runtime).observer,
                runtime.owner == old(runtime).owner,
                runtime.batching == old(runtime).batching,
                runtime.dependencies@ == old(runtime).dependencies@,
                runtime.pending_effects@ == old(runtime).pending_effects@,
                runtime.effect_runs@ == old(runtime).effect_runs@,
                runtime.loading@ == old(runtime).loading@,
                runtime.boundaries@ == old(runtime).boundaries@,
                out@.map_values(|s: String| s@) == blocking_keys(before.subrange(0, k as int)),
                forall|j: int| k <= j < before.len() ==> #[trigger] runtime.fragments@[j] == before[j],
                forall|j: int| 0 <= j < k ==> {
                    let o = #[trigger] before[j];
                    let f = runtime.fragments@[j];
                    &&& f.key@ == o.key@
                    &&& f.should_block == o.should_block
                    &&& f.ready_taken == (o.ready_taken || o.should_block)
                },
            decreases before.len() - k,
        {
            let ghost out_before = out@;
            assert(before.subrange(0, k as int + 1).drop_last() =~= before.subrange(0, k as int));
            if runtime.fragments[k].should_block && !runtime.fragments[k].ready_taken {
                let key = runtime.fragments[k].key.clone();
                out.push(key);
                let mut f = runtime.fragments.remove(k);
                f.ready_taken = true;
                runtime.fragments.insert(k, f);
                assert(out@.map_values(|s: String| s@) =~= out_before.map_values(|s: String| s@).push(before[k as int].key@));
            }
            k = k + 1;
            assert forall|a: int, b: int| 0 <= a < b < runtime.fragments@.len() implies runtime.fragments@[a].key@ != runtime.fragments@[b].key@ by {
                assert(runtime.fragments@[a].key@ == before[a].key@);
                assert(runtime.fragments@[b].key@ == before[b].key@);
            }
        }
        assert(before.subrange(0, k as int) =~= before);
        out
    }

    /// Whether every boundary named in `keys` is registered and ready: the
    /// condition for the blocking wait over those keys to be over.
    pub fn fragments_ready(&self, runtime: &Runtime, keys: &Vec<String>) -> (r: bool)
        requires
            runtime.wf(),
        ensures
            r == keys_ready(runtime.boundaries@, keys@.map_values(|s: String| s@)),
    {
        let ghost ks = keys@.map_values(|s: String| s@);
        let mut k: usize = 0;
        while k < keys.len()
            invariant
                k <= keys@.len(),
                runtime.wf(),
                ks == keys@.map_values(|s: String| s@),
                forall|m: int| 0 <= m < k ==> key_ready(runtime.boundaries@, #[trigger] ks[m]),
            decreases keys@.len() - k,
        {
            match find_boundary(&runtime.boundaries, &keys[k]) {
                Some(i) => {
                    if !runtime.boundaries[i].ready {
                        assert(!keys_ready(runtime.boundaries@, ks)) by {
                            if keys_ready(runtime.boundaries@, ks) {
                                assert(key_ready(runtime.boundaries@, ks[k as int]));
                                let w = choose|w: int| 0 <= w < runtime.boundaries@.len() && (#[trigger] runtime.boundaries@[w]).key@ == ks[k as int] && runtime.boundaries@[w].ready;
                                assert(runtime.boundaries@[w].key@ == runtime.boundaries@[i as int].key@);
                            }
                        }
                        return false;
                    }
                    assert(runtime.boundaries@[i as int].key@ == ks[k as int]);
                    assert(key_ready(runtime.boundaries@, ks[k as int]));
                },
                None => {
                    assert(!keys_ready(runtime.boundaries@, ks)) by {
                        if keys_ready(runtime.boundaries@, ks) {
                            assert(key_ready(runtime.boundaries@, ks[k as int]));
                            let w = choose|w: int| 0 <= w < runtime.boundaries@.len() && (#[trigger] runtime.boundaries@[w]).key@ == ks[k as int] && runtime.boundaries@[w].ready;
                            assert(has_boundary(runtime.boundaries@, keys@[k as int]@));
                        }
                    }
                    return false;
                },
            }
            k = k + 1;
        }
        true
    }
}

} // verus!
