//! The server entities a workload predicts, by name.

use vstd::prelude::*;

verus! {

/// Predicted entity names. Each list names an entity at most once; order carries
/// no meaning.
#[derive(Debug)]
pub struct Shadow {
    pub stream_names: Vec<String>,
    /// Stream and topic.
    pub topic_names: Vec<(String, String)>,
    pub user_names: Vec<String>,
    /// Stream, topic and group.
    pub consumer_group_names: Vec<(String, String, String)>,
}

impl Shadow {
    /// Nothing is predicted to exist.
    pub open spec fn is_blank(self) -> bool {
        &&& self.stream_names@.len() == 0
        &&& self.topic_names@.len() == 0
        &&& self.user_names@.len() == 0
        &&& self.consumer_group_names@.len() == 0
    }

    /// A shadow in which nothing exists.
    pub fn new() -> (shadow: Self)
        ensures
            shadow.is_blank(),
    {
        Shadow {
            stream_names: Vec::new(),
            topic_names: Vec::new(),
            user_names: Vec::new(),
            consumer_group_names: Vec::new(),
        }
    }
}

} // verus!
