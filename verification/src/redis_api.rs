//! Key-shaping interfaces of the Redis data layer. The data layer
//! itself is an outside collaborator; these traits are what a stored
//! type implements so that layer can derive its keys, members and
//! scores.

use vstd::prelude::*;

verus! {

/// A stored value names the key it lives under.
pub trait RedisKeyMaker {
    fn key(&self) -> String;
}

/// A stored type names the key pattern its instances share.
pub trait RedisKeyPattern {
    fn pattern() -> String;
}

/// A value stored in a scored set names its member string and score.
pub trait RedisScoreMemberMaker {
    fn member(&self) -> String;

    fn set_member(&mut self, m: &str);

    fn score(&self) -> i64;
}

/// A value stored in an indexed list names its index.
pub trait RedisKeyIndex {
    fn index(&self) -> i64;
}

} // verus!
