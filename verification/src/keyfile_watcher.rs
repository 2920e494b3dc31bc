//! Keyfile change detection: the watcher hashes the file's contents
//! each poll and asks for a parse exactly on the first sight and on
//! every change.

use vstd::prelude::*;
use crate::hashing::{seahash_of, content_hash};

verus! {

/// The watcher's memory: the content hash it last observed. It never
/// forgets — there is no transition back to the unloaded state.
pub struct KeyfileWatcher {
    last_hash: Option<u64>,
}

impl KeyfileWatcher {
    /// The hash last observed, if any.
    pub closed spec fn last_hash(self) -> Option<u64> {
        self.last_hash
    }

    /// A fresh watcher that has not seen the keyfile yet.
    pub fn new() -> (w: KeyfileWatcher)
        ensures
            w.last_hash() is None,
    {
        KeyfileWatcher { last_hash: None }
    }

    /// One poll with the keyfile's current contents. Returns whether
    /// they must be parsed: exactly when their hash differs from the
    /// remembered one (so on the first sight and on every change).
    /// The hash is remembered either way — a failed parse does not
    /// make the watcher retry unchanged contents.
    pub fn observe(&mut self, contents: &[u8]) -> (parse: bool)
        ensures
            parse == (old(self).last_hash() != Some(seahash_of(contents@))),
            final(self).last_hash() == Some(seahash_of(contents@)),
    {
        let h = content_hash(contents);
        let parse = match self.last_hash {
            Some(prior) => prior != h,
            None => true,
        };
        self.last_hash = Some(h);
        parse
    }
}

/// How many parses a run of polls causes, starting from memory
/// `last`: one for each poll whose hash differs from the one before
/// it. This is the fold of `observe` over the polls.
pub open spec fn parse_count(hashes: Seq<u64>, last: Option<u64>) -> nat
    decreases hashes.len(),
{
    if hashes.len() == 0 {
        0
    } else {
        (if last != Some(hashes[0]) {
            1nat
        } else {
            0nat
        }) + parse_count(hashes.drop_first(), Some(hashes[0]))
    }
}

/// Change detection over a whole run: polls that all hash alike cause
/// exactly one parse when the run opens with a fresh hash (the first
/// read, or a change of the file), and none at all when the watcher
/// had already seen that hash.
pub proof fn lemma_unchanged_polls_parse_once(hashes: Seq<u64>, h: u64, last: Option<u64>)
    requires
        hashes.len() > 0,
        forall|i: int| 0 <= i < hashes.len() ==> hashes[i] == h,
    ensures
        last != Some(h) ==> parse_count(hashes, last) == 1,
        last == Some(h) ==> parse_count(hashes, last) == 0,
    decreases hashes.len(),
{
    assert(hashes[0] == h);
    if hashes.len() > 1 {
        let rest = hashes.drop_first();
        assert forall|i: int| 0 <= i < rest.len() implies rest[i] == h by {
            assert(rest[i] == hashes[i + 1]);
        }
        lemma_unchanged_polls_parse_once(rest, h, Some(h));
    } else {
        assert(parse_count(hashes.drop_first(), Some(h)) == 0);
    }
}

} // verus!
