//! A write transaction: edits to the map of a basis commit, and the commit
//! that records them.

use vstd::prelude::*;
use vstd::slice::slice_to_vec;

use crate::dag;
use crate::dag::meta::{encode_meta, holds_refs, meta_encoding, meta_size, texts};
use crate::prolly::{lookup, opt_bytes, FlushError, LoadError, ProllyMap};

verus! {

/// A write transaction over the map that the commit `basis_hash` holds.
///
/// Reading the basis map out of the chunk store, writing the edited map back
/// and storing the commit are done by the caller; the transaction holds the
/// map and says what the commit records.
pub struct Write<'a> {
    basis_hash: &'a str,
    map: ProllyMap,
}

impl<'a> View for Write<'a> {
    type V = Map<Seq<u8>, Seq<u8>>;

    closed spec fn view(&self) -> Map<Seq<u8>, Seq<u8>> {
        self.map@
    }
}

/// What a commit of a write transaction records, and under which head name
/// it is to be stored.
pub struct PendingCommit {
    pub head_name: String,
    pub local_create_date: String,
    pub basis_hash: String,
    pub checksum: String,
    pub mutation_id: u64,
    pub mutator_name: String,
    pub mutator_args_json: Vec<u8>,
    pub original_hash: Option<String>,
    pub value_hash: String,
}

impl PendingCommit {
    /// The chunks that the commit's chunk refers to: the chunk of the map
    /// that it records.
    pub fn chunk_refs(&self) -> (refs: Vec<String>)
        ensures
            refs@.len() == 1,
            refs@[0]@ == self.value_hash@,
    {
        let mut refs: Vec<String> = Vec::new();
        refs.push(self.value_hash.clone());
        refs
    }
}

/// What happened last while a commit is being stored.
pub enum CommitEvent {
    /// The map has been written out; the commit is to be stored.
    Start,
    /// The store was asked to keep the commit's chunk: its hash, or why not.
    ChunkStored(Result<String, dag::Error>),
    /// The store was asked to point the head at the chunk.
    HeadSet(Result<(), dag::Error>),
}

/// What is to be done next while a commit is being stored.
pub enum CommitAction {
    /// Store the commit's chunk, with this metadata.
    StoreChunk(Vec<u8>),
    /// Point the head of this name at the chunk of this hash.
    SetHead(String, String),
    /// The commit is over, with this outcome.
    Finish(Result<(), CommitError>),
}

impl PendingCommit {
    /// The next step of storing the commit: its chunk first, with metadata
    /// that refers to the map; the head only once the chunk is stored, and
    /// to the hash that the store gave the chunk; any failure ends it.
    pub fn step(&self, event: CommitEvent) -> (a: CommitAction)
        requires
            event is Start ==> meta_size(seq![self.value_hash@]) < 0x8000_0000,
        ensures
            match event {
                CommitEvent::Start => a matches CommitAction::StoreChunk(meta) && meta@
                    == meta_encoding(seq![self.value_hash@]) && holds_refs(
                    meta@,
                    seq![self.value_hash@],
                ),
                CommitEvent::ChunkStored(Ok(h)) => a matches CommitAction::SetHead(name, hash)
                    && name@ == self.head_name@ && hash == h,
                CommitEvent::ChunkStored(Err(e)) => a matches CommitAction::Finish(
                    Err(CommitError::Dag(e2)),
                ) && e2 == e,
                CommitEvent::HeadSet(Ok(())) => a matches CommitAction::Finish(Ok(())),
                CommitEvent::HeadSet(Err(e)) => a matches CommitAction::Finish(
                    Err(CommitError::Dag(e2)),
                ) && e2 == e,
            },
    {
        match event {
            CommitEvent::Start => {
                let refs = self.chunk_refs();
                assert(texts(refs@) =~= seq![self.value_hash@]);
                CommitAction::StoreChunk(encode_meta(&refs))
            },
            CommitEvent::ChunkStored(Ok(h)) => CommitAction::SetHead(self.head_name.clone(), h),
            CommitEvent::ChunkStored(Err(e)) => CommitAction::Finish(Err(CommitError::Dag(e))),
            CommitEvent::HeadSet(Ok(())) => CommitAction::Finish(Ok(())),
            CommitEvent::HeadSet(Err(e)) => CommitAction::Finish(Err(CommitError::Dag(e))),
        }
    }
}

/// The text of an optional string.
pub open spec fn opt_text(s: Option<&str>) -> Option<Seq<char>> {
    match s {
        Some(t) => Some(t@),
        None => None,
    }
}

/// The text of an optional owned string.
pub open spec fn opt_string_text(s: Option<String>) -> Option<Seq<char>> {
    match s {
        Some(t) => Some(t@),
        None => None,
    }
}

impl<'a> Write<'a> {
    /// The hash of the commit whose map the transaction edits.
    pub closed spec fn basis(&self) -> Seq<char> {
        self.basis_hash@
    }

    /// Opens a transaction over `map`, the map of the commit `basis_hash`.
    pub fn new(basis_hash: &'a str, map: ProllyMap) -> (w: Write<'a>)
        ensures
            w@ == map@,
            w.basis() == basis_hash@,
    {
        Write { basis_hash, map }
    }

    /// The value that the transaction sees under `key`.
    pub fn get(&self, key: &[u8]) -> (r: Option<&[u8]>)
        ensures
            opt_bytes(r) == lookup(self@, key@),
    {
        self.map.get(key)
    }

    /// Stores `val` under `key` in the transaction.
    pub fn put(&mut self, key: Vec<u8>, val: Vec<u8>)
        ensures
            final(self)@ == old(self)@.insert(key@, val@),
            final(self).basis() == old(self).basis(),
    {
        self.map.put(key, val)
    }

    /// The edited map, which a commit writes out to the chunk store.
    pub fn map(&self) -> (m: &ProllyMap)
        ensures
            m@ == self@,
    {
        &self.map
    }

    /// Ends the transaction: the commit that records it, once its map has
    /// been written out under `value_hash`.
    pub fn commit(
        self,
        head_name: &str,
        local_create_date: &str,
        checksum: &str,
        mutation_id: u64,
        mutator_name: &str,
        mutator_args_json: &[u8],
        original_hash: Option<&str>,
        value_hash: &str,
    ) -> (c: PendingCommit)
        ensures
            c.head_name@ == head_name@,
            c.local_create_date@ == local_create_date@,
            c.basis_hash@ == self.basis(),
            c.checksum@ == checksum@,
            c.mutation_id == mutation_id,
            c.mutator_name@ == mutator_name@,
            c.mutator_args_json@ == mutator_args_json@,
            opt_string_text(c.original_hash) == opt_text(original_hash),
            c.value_hash@ == value_hash@,
    {
        let original_hash = match original_hash {
            Some(h) => Some(h.to_owned()),
            None => None,
        };
        PendingCommit {
            head_name: head_name.to_owned(),
            local_create_date: local_create_date.to_owned(),
            basis_hash: self.basis_hash.to_owned(),
            checksum: checksum.to_owned(),
            mutation_id,
            mutator_name: mutator_name.to_owned(),
            mutator_args_json: slice_to_vec(mutator_args_json),
            original_hash,
            value_hash: value_hash.to_owned(),
        }
    }
}

/// Why a write transaction could not be opened.
#[derive(Debug)]
pub enum NewError {
    Dag(dag::Error),
    MapLoad(LoadError),
}

impl From<dag::Error> for NewError {
    fn from(e: dag::Error) -> (r: NewError) {
        NewError::Dag(e)
    }
}

impl vstd::std_specs::convert::FromSpecImpl<dag::Error> for NewError {
    open spec fn obeys_from_spec() -> bool {
        true
    }

    open spec fn from_spec(e: dag::Error) -> NewError {
        NewError::Dag(e)
    }
}

impl From<LoadError> for NewError {
    fn from(e: LoadError) -> (r: NewError) {
        NewError::MapLoad(e)
    }
}

impl vstd::std_specs::convert::FromSpecImpl<LoadError> for NewError {
    open spec fn obeys_from_spec() -> bool {
        true
    }

    open spec fn from_spec(e: LoadError) -> NewError {
        NewError::MapLoad(e)
    }
}

/// Why a write transaction could not be committed.
#[derive(Debug)]
pub enum CommitError {
    Dag(dag::Error),
    Flush(FlushError),
}

impl From<dag::Error> for CommitError {
    fn from(e: dag::Error) -> (r: CommitError) {
        CommitError::Dag(e)
    }
}

impl vstd::std_specs::convert::FromSpecImpl<dag::Error> for CommitError {
    open spec fn obeys_from_spec() -> bool {
        true
    }

    open spec fn from_spec(e: dag::Error) -> CommitError {
        CommitError::Dag(e)
    }
}

impl From<FlushError> for CommitError {
    fn from(e: FlushError) -> (r: CommitError) {
        CommitError::Flush(e)
    }
}

impl vstd::std_specs::convert::FromSpecImpl<FlushError> for CommitError {
    open spec fn obeys_from_spec() -> bool {
        true
    }

    open spec fn from_spec(e: FlushError) -> CommitError {
        CommitError::Flush(e)
    }
}

} // verus!
