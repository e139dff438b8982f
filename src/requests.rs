use vstd::prelude::*;
use crate::command::Command;

verus! {

/// A request to store a string, with an optional time to live in seconds.
pub struct SetRequest {
    pub value: String,
    pub ttl: Option<u64>,
}

/// A request to push a string onto a list.
pub struct ListPushRequest {
    pub value: String,
}

/// A request to add a member to a set.
pub struct SetAddRequest {
    pub value: String,
}

impl SetRequest {
    /// The command that stores this request's value under `key`.
    pub fn into_command(self, key: String) -> (r: Command)
        ensures
            r matches Command::SetKey { key: k, value: v, ttl: t } && k == key && v == self.value && t == self.ttl,
    {
        Command::SetKey { key, value: self.value, ttl: self.ttl }
    }
}

impl ListPushRequest {
    /// The command that pushes this request's value on the front of the list
    /// under `key`.
    pub fn front_command(self, key: String) -> (r: Command)
        ensures
            r matches Command::LPush { key: k, value: v } && k == key && v == self.value,
    {
        Command::LPush { key, value: self.value }
    }

    /// The command that pushes this request's value on the back of the list
    /// under `key`.
    pub fn back_command(self, key: String) -> (r: Command)
        ensures
            r matches Command::RPush { key: k, value: v } && k == key && v == self.value,
    {
        Command::RPush { key, value: self.value }
    }
}

impl SetAddRequest {
    /// The command that adds this request's value to the set under `key`.
    pub fn into_command(self, key: String) -> (r: Command)
        ensures
            r matches Command::SAdd { key: k, value: v } && k == key && v == self.value,
    {
        Command::SAdd { key, value: self.value }
    }
}

} // verus!
