use vstd::prelude::*;

use crate::hash::CryptoHash;
use crate::store::{keys_distinct, map_of, Store};

verus! {

/// A node of the hierarchical store: its identity, a flat map of values, and
/// the sub-states it owns, each under its own identity. Nothing here reads or
/// rewrites a sub-state's storage. Sub-states are held as a list of entries
/// (a map type of this crate cannot hold the type that holds it); where their
/// identities are distinct the list stands for `sub_state_map`.
pub struct State<T> {
    pub id: CryptoHash,
    pub storage: Store<T>,
    pub sub_states: Vec<(CryptoHash, State<T>)>,
}

impl<T> State<T> {
    /// The sub-states' identities are pairwise distinct.
    pub open spec fn sub_states_distinct(&self) -> bool {
        keys_distinct(self.sub_states@)
    }

    /// The sub-states by identity.
    pub open spec fn sub_state_map(&self) -> Map<Seq<u8>, State<T>> {
        map_of(self.sub_states@)
    }

    /// An empty state with the all-zero identity.
    pub fn new() -> (r: State<T>)
        ensures
            r.id@ == Seq::new(32, |i: int| 0u8),
            r.storage@ == Map::<Seq<u8>, T>::empty(),
            r.sub_states@ == Seq::<(CryptoHash, State<T>)>::empty(),
            r.sub_states_distinct(),
            r.sub_state_map() == Map::<Seq<u8>, State<T>>::empty(),
    {
        proof {
            assert(map_of(Seq::<(CryptoHash, State<T>)>::empty()) =~= Map::<Seq<u8>, State<T>>::empty());
        }
        State { id: CryptoHash::default(), storage: Store::new(), sub_states: Vec::new() }
    }
}

impl<T> Default for State<T> {
    fn default() -> (r: State<T>)
        ensures
            r.id@ == Seq::new(32, |i: int| 0u8),
            r.storage@ == Map::<Seq<u8>, T>::empty(),
            r.sub_states@ == Seq::<(CryptoHash, State<T>)>::empty(),
    {
        State::new()
    }
}

/// The keys listed for deletion.
pub open spec fn key_set(keys: Seq<CryptoHash>) -> Set<Seq<u8>> {
    Set::new(|k: Seq<u8>| exists|i: int| 0 <= i < keys.len() && #[trigger] keys[i]@ == k)
}

/// Storage after a diff: insertions, then updates, overwrite; deletions remove.
pub open spec fn applied<T>(
    s: Map<Seq<u8>, T>,
    ins: Map<Seq<u8>, T>,
    upd: Map<Seq<u8>, T>,
    del: Set<Seq<u8>>,
) -> Map<Seq<u8>, T> {
    s.union_prefer_right(ins).union_prefer_right(upd).remove_keys(del)
}

/// A changeset: values for keys expected absent, values for keys expected
/// present, and keys to delete. Applying it is the only way state changes.
#[derive(Clone)]
pub struct StateDiff<T> {
    pub storage_insert: Store<T>,
    pub storage_update: Store<T>,
    pub storage_delete: Vec<CryptoHash>,
}

impl<T> StateDiff<T> {
    /// A diff that changes nothing.
    pub fn new() -> (r: StateDiff<T>)
        ensures
            r.storage_insert@ == Map::<Seq<u8>, T>::empty(),
            r.storage_update@ == Map::<Seq<u8>, T>::empty(),
            r.storage_delete@ == Seq::<CryptoHash>::empty(),
    {
        StateDiff { storage_insert: Store::new(), storage_update: Store::new(), storage_delete: Vec::new() }
    }

    /// Writes every insertion and update into the state's storage, then removes
    /// every deleted key; identity and sub-states are left alone.
    pub fn apply(self, state: &mut State<T>)
        ensures
            final(state).storage@ == applied(
                old(state).storage@,
                self.storage_insert@,
                self.storage_update@,
                key_set(self.storage_delete@),
            ),
            final(state).id == old(state).id,
            final(state).sub_states == old(state).sub_states,
    {
        let ghost s0 = state.storage@;
        let ghost ins0 = self.storage_insert@;
        let ghost upd0 = self.storage_update@;
        let StateDiff { storage_insert: mut ins, storage_update: mut upd, storage_delete: del } = self;
        loop
            invariant
                state.storage@.union_prefer_right(ins@) == s0.union_prefer_right(ins0),
                state.id == old(state).id,
                state.sub_states == old(state).sub_states,
            ensures
                state.storage@ == s0.union_prefer_right(ins0),
                state.id == old(state).id,
                state.sub_states == old(state).sub_states,
            decreases ins.count(),
        {
            let ghost pending = ins@;
            match ins.pop_entry() {
                Some((k, v)) => {
                    let ghost before = state.storage@;
                    state.storage.insert(k, v);
                    proof {
                        assert(state.storage@.union_prefer_right(ins@) =~= before.union_prefer_right(
                            pending));
                    }
                },
                None => {
                    assert(state.storage@ =~= s0.union_prefer_right(ins0));
                    break ;
                },
            }
        }
        let ghost s1 = state.storage@;
        loop
            invariant
                state.storage@.union_prefer_right(upd@) == s1.union_prefer_right(upd0),
                state.id == old(state).id,
                state.sub_states == old(state).sub_states,
            ensures
                state.storage@ == s1.union_prefer_right(upd0),
                state.id == old(state).id,
                state.sub_states == old(state).sub_states,
            decreases upd.count(),
        {
            let ghost pending = upd@;
            match upd.pop_entry() {
                Some((k, v)) => {
                    let ghost before = state.storage@;
                    state.storage.insert(k, v);
                    proof {
                        assert(state.storage@.union_prefer_right(upd@) =~= before.union_prefer_right(
                            pending));
                    }
                },
                None => {
                    assert(state.storage@ =~= s1.union_prefer_right(upd0));
                    break ;
                },
            }
        }
        let ghost s2 = state.storage@;
        let mut i: usize = 0;
        assert(s2.remove_keys(key_set(del@.subrange(0, 0))) =~= s2);
        while i < del.len()
            invariant
                0 <= i <= del@.len(),
                state.storage@ == s2.remove_keys(key_set(del@.subrange(0, i as int))),
                state.id == old(state).id,
                state.sub_states == old(state).sub_states,
            decreases del@.len() - i,
        {
            let ghost before = state.storage@;
            state.storage.remove(&del[i]);
            proof {
                let prev = del@.subrange(0, i as int);
                let next = del@.subrange(0, i + 1);
                assert forall|k: Seq<u8>| key_set(next).contains(k) == (key_set(prev).contains(k)
                    || k == del@[i as int]@) by {
                    if key_set(next).contains(k) {
                        let j = choose|j: int| 0 <= j < next.len() && #[trigger] next[j]@ == k;
                        if j < i {
                            assert(prev[j]@ == k);
                        }
                    }
                    if key_set(prev).contains(k) {
                        let j = choose|j: int| 0 <= j < prev.len() && #[trigger] prev[j]@ == k;
                        assert(next[j]@ == k);
                    }
                    if k == del@[i as int]@ {
                        assert(next[i as int]@ == k);
                    }
                }
                assert(state.storage@ =~= s2.remove_keys(key_set(next)));
            }
            i = i + 1;
        }
        assert(del@.subrange(0, del@.len() as int) =~= del@);
        assert(state.storage@ =~= applied(s0, ins0, upd0, key_set(del@)));
    }
}

/// What a diff does to storage, key by key: where no deleted key is also
/// written and insertions and updates agree on shared keys, every written key
/// holds the diff's value, every deleted key is gone, and every other key
/// keeps its entry.
pub proof fn lemma_diff_application<T>(
    s: Map<Seq<u8>, T>,
    ins: Map<Seq<u8>, T>,
    upd: Map<Seq<u8>, T>,
    del: Set<Seq<u8>>,
)
    requires
        forall|k: Seq<u8>| del.contains(k) ==> !ins.contains_key(k) && !upd.contains_key(k),
        forall|k: Seq<u8>| ins.contains_key(k) && upd.contains_key(k) ==> ins[k] == upd[k],
    ensures
        forall|k: Seq<u8>| #[trigger] ins.contains_key(k) ==> applied(s, ins, upd, del).contains_key(k)
            && applied(s, ins, upd, del)[k] == ins[k],
        forall|k: Seq<u8>| #[trigger] upd.contains_key(k) ==> applied(s, ins, upd, del).contains_key(k)
            && applied(s, ins, upd, del)[k] == upd[k],
        forall|k: Seq<u8>| #[trigger] del.contains(k) ==> !applied(s, ins, upd, del).contains_key(k),
        forall|k: Seq<u8>|
            !ins.contains_key(k) && !upd.contains_key(k) && !del.contains(k) ==> (
            #[trigger] applied(s, ins, upd, del).contains_key(k) == s.contains_key(k)) && (
            s.contains_key(k) ==> applied(s, ins, upd, del)[k] == s[k]),
{
}

} // verus!
