//! Actors and the commands that a collection of actors accepts.
use crate::json::clone_json;
use vstd::prelude::*;

verus! {

/// An actor: an identifier, a JSON value and a version that counts updates.
#[derive(Debug)]
pub struct ActorData {
    pub id: String,
    pub value: serde_json::Value,
    pub version: u32,
}

impl Clone for ActorData {
    fn clone(&self) -> (r: Self)
        ensures
            r == *self,
    {
        ActorData { id: self.id.clone(), value: clone_json(&self.value), version: self.version }
    }
}

/// A command on one collection.
pub enum CollectionCommand {
    Create(ActorData),
    Update { id: String, value: serde_json::Value },
    Delete { id: String },
    GetAll,
}

impl CollectionCommand {
    /// Create, Update and Delete change the collection; only a leader runs them.
    pub open spec fn is_write(self) -> bool {
        !(self is GetAll)
    }
}

/// What a store offers to run commands on its collections.
pub trait ActorStoreCommandExecutor {
    /// The store can run `cmd` on `collection_name` without breaking a
    /// machine limit.
    spec fn command_allowed(&self, collection_name: String, cmd: CollectionCommand) -> bool;

    /// The store can add a collection.
    spec fn creation_allowed(&self) -> bool;

    fn execute_command(&mut self, collection_name: String, cmd: CollectionCommand) -> (r: Result<
        Option<ActorData>,
        String,
    >)
        requires
            old(self).command_allowed(collection_name, cmd),
    ;

    fn create_collection(&mut self, collection_name: String) -> (r: Result<(), String>)
        requires
            old(self).creation_allowed(),
    ;
}

} // verus!
