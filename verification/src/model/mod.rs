//! A model of the server: what a cache holds, and what it does with each
//! command. The model is mathematics only. It is there to say what an
//! exchange as a whole comes to: a request of this crate, served by the
//! model, gives a response that this crate reads as the result that the
//! operation should have.
//!
//! The model has no clock. Values do not expire in it, and a flush that
//! is to come after a delay leaves the cache as it is: of such a flush
//! the model says what holds before the delay is over, and no more.

pub mod ascii;
pub mod binary;
pub mod exchange;
pub mod words;

use crate::error::CommandError;
use vstd::prelude::*;

verus! {

/// What the cache holds under one key.
pub struct Item {
    /// The stored bytes.
    pub value: Seq<u8>,
    /// The token that stands for this version of the value. It is never zero.
    pub cas: u64,
}

/// The ways of storing a value.
pub enum StoreMode {
    /// Store, whatever is there.
    Always,
    /// Store if the key is absent.
    IfAbsent,
    /// Store if the key is present.
    IfPresent,
    /// Store if the key is present and this is the token of its value.
    IfToken(u64),
}

/// The commands that the model serves.
pub enum Command {
    Get { key: Seq<u8> },
    Store { mode: StoreMode, key: Seq<u8>, value: Seq<u8> },
    Delete { key: Seq<u8> },
    Touch { key: Seq<u8> },
    /// Empty the cache, at once where the delay is zero, else after so
    /// many seconds.
    Flush { delay: u32 },
}

/// What the model answers.
pub enum Answer {
    /// The command was carried out.
    Done,
    /// The value that was asked for.
    Value(Seq<u8>),
    /// The command failed, and why.
    Failed(CommandError),
}

/// The token after `token`: another one, and not zero.
pub open spec fn next_token(token: u64) -> u64 {
    if token == u64::MAX {
        1
    } else {
        (token + 1) as u64
    }
}

/// A cache: the items that it holds, each under its key.
pub struct Cache {
    pub items: Map<Seq<u8>, Item>,
}

impl Cache {
    /// The cache with `value` stored under `key`, under a new token.
    pub open spec fn put(self, key: Seq<u8>, value: Seq<u8>) -> Cache {
        let token = if self.items.contains_key(key) {
            next_token(self.items[key].cas)
        } else {
            1
        };
        Cache { items: self.items.insert(key, Item { value, cas: token }) }
    }

    /// The cache after a command, and the answer to it.
    pub open spec fn apply(self, command: Command) -> (Cache, Answer) {
        match command {
            Command::Get { key } => if self.items.contains_key(key) {
                (self, Answer::Value(self.items[key].value))
            } else {
                (self, Answer::Failed(CommandError::KeyNotFound))
            },
            Command::Store { mode, key, value } => {
                let present = self.items.contains_key(key);
                match mode {
                    StoreMode::Always => (self.put(key, value), Answer::Done),
                    StoreMode::IfAbsent => if present {
                        (self, Answer::Failed(CommandError::KeyExists))
                    } else {
                        (self.put(key, value), Answer::Done)
                    },
                    StoreMode::IfPresent => if present {
                        (self.put(key, value), Answer::Done)
                    } else {
                        (self, Answer::Failed(CommandError::KeyNotFound))
                    },
                    StoreMode::IfToken(token) => if !present {
                        (self, Answer::Failed(CommandError::KeyNotFound))
                    } else if self.items[key].cas != token {
                        (self, Answer::Failed(CommandError::KeyExists))
                    } else {
                        (self.put(key, value), Answer::Done)
                    },
                }
            },
            Command::Delete { key } => if self.items.contains_key(key) {
                (Cache { items: self.items.remove(key) }, Answer::Done)
            } else {
                (self, Answer::Failed(CommandError::KeyNotFound))
            },
            Command::Touch { key } => if self.items.contains_key(key) {
                (self, Answer::Done)
            } else {
                (self, Answer::Failed(CommandError::KeyNotFound))
            },
            Command::Flush { delay } => if delay == 0 {
                (Cache { items: Map::empty() }, Answer::Done)
            } else {
                (self, Answer::Done)
            },
        }
    }

    /// Whether every token in the cache is one that the cache could have
    /// handed out: none is zero.
    pub open spec fn wf(self) -> bool {
        forall|key: Seq<u8>| self.items.contains_key(key) ==> (#[trigger] self.items[key]).cas != 0
    }

    /// A command leaves no zero token behind.
    pub proof fn lemma_apply_wf(self, command: Command)
        requires
            self.wf(),
        ensures
            self.apply(command).0.wf(),
    {
    }
}

/// The table that comes of filing entries one after another on top of
/// what was `seen` before.
pub open spec fn table_of(
    entries: Seq<(Seq<char>, Seq<char>)>,
    seen: Map<Seq<char>, Seq<char>>,
) -> Map<Seq<char>, Seq<char>>
    decreases entries.len(),
{
    if entries.len() == 0 {
        seen
    } else {
        table_of(entries.drop_first(), seen.insert(entries[0].0, entries[0].1))
    }
}

} // verus!
