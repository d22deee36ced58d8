use vstd::prelude::*;

use crate::error::StoreError;
use crate::merge::{opt_vec_view, MergeOperator};
use crate::table::{
    copy_bytes, copy_table, find, lemma_copy_wf, pairs_view, table_insert, table_remove, table_wf, Pair,
};

verus! {

/// How a store is opened: compression, the bound on its cache and the period
/// of its background durability checkpoint.
#[derive(Debug, Clone, Copy, PartialEq, Eq, Structural)]
pub struct Config {
    pub compression: bool,
    pub cache_bytes: u64,
    pub flush_interval_ms: Option<u32>,
}

/// The value bound to `k` in `m`, if any.
pub open spec fn lookup(m: Map<Seq<u8>, Seq<u8>>, k: Seq<u8>) -> Option<Seq<u8>> {
    if m.contains_key(k) {
        Some(m[k])
    } else {
        None
    }
}

/// The contents after a merge on `k` whose operator returned `r`: the new
/// value is written, or the key is deleted on `None`.
pub open spec fn apply_merge(m: Map<Seq<u8>, Seq<u8>>, k: Seq<u8>, r: Option<Seq<u8>>) -> Map<
    Seq<u8>,
    Seq<u8>,
> {
    match r {
        Some(v) => m.insert(k, v),
        None => m.remove(k),
    }
}

/// What a store is: whether it is open, whether an operator is registered,
/// the committed contents and the contents as of the last checkpoint.
pub struct StoreView {
    pub open: bool,
    pub has_operator: bool,
    pub contents: Map<Seq<u8>, Seq<u8>>,
    pub durable: Map<Seq<u8>, Seq<u8>>,
}

impl StoreView {
    /// The store after a checkpoint: everything committed is durable.
    pub open spec fn after_flush(self) -> StoreView {
        StoreView { durable: self.contents, ..self }
    }

    /// The store as a restart at the same path finds it: open, with no
    /// operator yet, holding what the last checkpoint made durable.
    pub open spec fn after_restart(self) -> StoreView {
        StoreView { open: true, has_operator: false, contents: self.durable, durable: self.durable }
    }

    /// The store after `put(k, v)`.
    pub open spec fn after_put(self, k: Seq<u8>, v: Seq<u8>) -> StoreView {
        StoreView { contents: self.contents.insert(k, v), ..self }
    }
}

/// An embedded key-value store whose `merge` folds each fragment into the
/// stored value through the registered operator `M`.
///
/// Every operation on a key is applied whole: a failed call leaves the
/// contents as they were. `scan` lists the pairs in an order fixed by the
/// history of writes and deletes (a new key goes last; a deleted key's place
/// is taken by the last one), so it stays the same while the store is not
/// changed. A key is found by a linear search of the table.
pub struct Store<M: MergeOperator> {
    path: String,
    config: Config,
    operator_name: Option<String>,
    operator: Option<M>,
    is_open: bool,
    entries: Vec<Pair>,
    contents: Ghost<Map<Seq<u8>, Seq<u8>>>,
    checkpoint: Vec<Pair>,
    durable: Ghost<Map<Seq<u8>, Seq<u8>>>,
}

impl<M: MergeOperator> View for Store<M> {
    type V = StoreView;

    closed spec fn view(&self) -> StoreView {
        StoreView {
            open: self.is_open,
            has_operator: self.operator is Some,
            contents: self.contents@,
            durable: self.durable@,
        }
    }
}

impl<M: MergeOperator> Store<M> {
    /// The table holds the contents and the checkpoint holds the durable
    /// contents, each key once; an operator is registered with its name.
    pub closed spec fn wf(&self) -> bool {
        &&& table_wf(self.entries@, self.contents@)
        &&& table_wf(self.checkpoint@, self.durable@)
        &&& (self.operator_name is Some == self.operator is Some)
    }

    /// The registered operator, if any.
    pub closed spec fn operator(&self) -> Option<M> {
        self.operator
    }

    /// The path the store was opened at.
    pub closed spec fn path_view(&self) -> Seq<char> {
        self.path@
    }

    /// The configuration the store was opened with.
    pub closed spec fn config_view(&self) -> Config {
        self.config
    }

    /// The pairs in the order in which `scan` lists them.
    pub closed spec fn scan_order(&self) -> Seq<(Seq<u8>, Seq<u8>)> {
        pairs_view(self.entries@)
    }

    /// The path the store was opened at.
    pub fn path(&self) -> (r: &str)
        ensures
            r@ == self.path_view(),
    {
        self.path.as_str()
    }

    /// The configuration the store was opened with.
    pub fn config(&self) -> (r: Config)
        ensures
            r == self.config_view(),
    {
        self.config
    }

    /// The name the merge operator was registered under, if any.
    pub fn merge_operator_name(&self) -> (r: Option<&String>)
        requires
            self.wf(),
        ensures
            r is Some == self@.has_operator,
    {
        self.operator_name.as_ref()
    }

    /// Whether the store is open.
    pub fn is_open(&self) -> (r: bool)
        ensures
            r == self@.open,
    {
        self.is_open
    }

    /// Whether a merge operator is registered.
    pub fn has_merge_operator(&self) -> (r: bool)
        ensures
            r == self@.has_operator,
    {
        self.operator.is_some()
    }

    /// Opens an empty store at `path`; an empty path is unavailable.
    pub fn open(path: String, config: Config) -> (r: Result<Store<M>, StoreError>)
        ensures
            path@.len() == 0 ==> r == Err::<Store<M>, StoreError>(StoreError::PathUnavailable),
            path@.len() > 0 ==> r is Ok && r->Ok_0.wf() && r->Ok_0@ == (StoreView {
                open: true,
                has_operator: false,
                contents: Map::empty(),
                durable: Map::empty(),
            }) && r->Ok_0.path_view() == path@ && r->Ok_0.config_view() == config,
    {
        if path.as_str().is_empty() {
            return Err(StoreError::PathUnavailable);
        }
        let s = Store {
            path,
            config,
            operator_name: None,
            operator: None,
            is_open: true,
            entries: Vec::new(),
            contents: Ghost(Map::empty()),
            checkpoint: Vec::new(),
            durable: Ghost(Map::empty()),
        };
        assert(s.entries@.len() == 0);
        Ok(s)
    }

    /// Installs `op` as the store's one merge operator, replacing any other.
    pub fn set_merge_operator(&mut self, name: String, op: M)
        requires
            old(self).wf(),
        ensures
            final(self).wf(),
            final(self)@ == (StoreView { has_operator: true, ..old(self)@ }),
            final(self).operator() == Some(op),
            final(self).path_view() == old(self).path_view(),
    {
        self.operator_name = Some(name);
        self.operator = Some(op);
    }

    /// Binds `key` to `value`, whatever it held before; the operator is not
    /// involved.
    pub fn put(&mut self, key: &[u8], value: &[u8]) -> (r: Result<(), StoreError>)
        requires
            old(self).wf(),
        ensures
            final(self).wf(),
            final(self).operator() == old(self).operator(),
            final(self).path_view() == old(self).path_view(),
            old(self)@.open ==> r is Ok && final(self)@ == old(self)@.after_put(key@, value@),
            !old(self)@.open ==> r == Err::<(), StoreError>(StoreError::StoreClosed) && final(self)@ == old(self)@,
    {
        if !self.is_open {
            return Err(StoreError::StoreClosed);
        }
        let v = copy_bytes(value);
        table_insert(&mut self.entries, key, v, self.contents);
        self.contents = Ghost(self.contents@.insert(key@, value@));
        Ok(())
    }

    /// Removes `key` and its value, if it is bound.
    pub fn delete(&mut self, key: &[u8]) -> (r: Result<(), StoreError>)
        requires
            old(self).wf(),
        ensures
            final(self).wf(),
            final(self).operator() == old(self).operator(),
            final(self).path_view() == old(self).path_view(),
            old(self)@.open ==> r is Ok && final(self)@ == (StoreView {
                contents: old(self)@.contents.remove(key@),
                ..old(self)@
            }),
            !old(self)@.open ==> r == Err::<(), StoreError>(StoreError::StoreClosed) && final(self)@ == old(self)@,
    {
        if !self.is_open {
            return Err(StoreError::StoreClosed);
        }
        table_remove(&mut self.entries, key, self.contents);
        self.contents = Ghost(self.contents@.remove(key@));
        Ok(())
    }

    /// Folds `fragment` into the value of `key` through the registered
    /// operator: the operator sees the current value, or its absence, and
    /// its result is written back, or deletes the key where it is `None`.
    pub fn merge(&mut self, key: &[u8], fragment: &[u8]) -> (r: Result<(), StoreError>)
        requires
            old(self).wf(),
        ensures
            final(self).wf(),
            final(self).operator() == old(self).operator(),
            final(self).path_view() == old(self).path_view(),
            !old(self)@.open ==> r == Err::<(), StoreError>(StoreError::StoreClosed) && final(self)@ == old(self)@,
            old(self)@.open && !old(self)@.has_operator ==> r == Err::<(), StoreError>(
                StoreError::NoMergeOperator,
            ) && final(self)@ == old(self)@,
            old(self)@.open && old(self)@.has_operator ==> r is Ok && final(self)@ == (StoreView {
                contents: apply_merge(
                    old(self)@.contents,
                    key@,
                    old(self).operator().unwrap().combine_spec(
                        key@,
                        lookup(old(self)@.contents, key@),
                        fragment@,
                    ),
                ),
                ..old(self)@
            }),
    {
        if !self.is_open {
            return Err(StoreError::StoreClosed);
        }
        let result = match &self.operator {
            None => {
                return Err(StoreError::NoMergeOperator);
            },
            Some(op) => match find(&self.entries, key) {
                Some(i) => {
                    assert(self.contents@.contains_key(key@));
                    op.combine(key, Some(self.entries[i].1.as_slice()), fragment)
                },
                None => {
                    assert(!self.contents@.contains_key(key@)) by {
                        if self.contents@.contains_key(key@) {
                            let j = choose|j: int|
                                0 <= j < self.entries@.len() && self.entries@[j].0@ == key@;
                            assert(self.entries@[j].0@ != key@);
                        }
                    }
                    op.combine(key, None, fragment)
                },
            },
        };
        match result {
            Some(v) => {
                let ghost vv = v@;
                table_insert(&mut self.entries, key, v, self.contents);
                self.contents = Ghost(self.contents@.insert(key@, vv));
            },
            None => {
                table_remove(&mut self.entries, key, self.contents);
                self.contents = Ghost(self.contents@.remove(key@));
            },
        }
        Ok(())
    }

    /// The value bound to `key`, if any.
    pub fn get(&self, key: &[u8]) -> (r: Result<Option<Vec<u8>>, StoreError>)
        requires
            self.wf(),
        ensures
            self@.open ==> r is Ok && opt_vec_view(r->Ok_0) == lookup(self@.contents, key@),
            !self@.open ==> r == Err::<Option<Vec<u8>>, StoreError>(StoreError::StoreClosed),
    {
        if !self.is_open {
            return Err(StoreError::StoreClosed);
        }
        match find(&self.entries, key) {
            Some(i) => Ok(Some(copy_bytes(self.entries[i].1.as_slice()))),
            None => {
                assert(!self.contents@.contains_key(key@)) by {
                    if self.contents@.contains_key(key@) {
                        let j = choose|j: int|
                            0 <= j < self.entries@.len() && self.entries@[j].0@ == key@;
                        assert(self.entries@[j].0@ != key@);
                    }
                }
                Ok(None)
            },
        }
    }

    /// Every stored pair, each key once, in the store's stable order.
    pub fn scan(&self) -> (r: Vec<Pair>)
        requires
            self.wf(),
        ensures
            table_wf(r@, self@.contents),
            pairs_view(r@) == self.scan_order(),
    {
        let r = copy_table(&self.entries);
        proof {
            lemma_copy_wf(self.entries@, r@, self.contents@);
        }
        r
    }

    /// A checkpoint: everything committed so far becomes durable.
    pub fn flush(&mut self) -> (r: Result<(), StoreError>)
        requires
            old(self).wf(),
        ensures
            final(self).wf(),
            final(self).operator() == old(self).operator(),
            final(self).path_view() == old(self).path_view(),
            old(self)@.open ==> r is Ok && final(self)@ == old(self)@.after_flush(),
            !old(self)@.open ==> r == Err::<(), StoreError>(StoreError::StoreClosed) && final(self)@ == old(self)@,
    {
        if !self.is_open {
            return Err(StoreError::StoreClosed);
        }
        let c = copy_table(&self.entries);
        proof {
            lemma_copy_wf(self.entries@, c@, self.contents@);
        }
        self.checkpoint = c;
        self.durable = Ghost(self.contents@);
        Ok(())
    }

    /// Closes the store after a last checkpoint; closing a closed store
    /// does nothing.
    pub fn close(&mut self) -> (r: Result<(), StoreError>)
        requires
            old(self).wf(),
        ensures
            r is Ok,
            final(self).wf(),
            final(self).operator() == old(self).operator(),
            final(self).path_view() == old(self).path_view(),
            old(self)@.open ==> final(self)@ == (StoreView { open: false, ..old(self)@.after_flush() }),
            !old(self)@.open ==> final(self)@ == old(self)@,
    {
        if self.is_open {
            let _ = self.flush();
            self.is_open = false;
        }
        Ok(())
    }

    /// The store that a restart at the same path finds: what the last
    /// checkpoint made durable, open, with no operator registered.
    pub fn reopen(self) -> (r: Store<M>)
        requires
            self.wf(),
        ensures
            r.wf(),
            r@ == self@.after_restart(),
            r.path_view() == self.path_view(),
            r.config_view() == self.config_view(),
    {
        let entries = copy_table(&self.checkpoint);
        proof {
            lemma_copy_wf(self.checkpoint@, entries@, self.durable@);
        }
        Store {
            path: self.path,
            config: self.config,
            operator_name: None,
            operator: None,
            is_open: true,
            entries,
            contents: Ghost(self.durable@),
            checkpoint: self.checkpoint,
            durable: Ghost(self.durable@),
        }
    }
}

} // verus!
