//! The server commands a workload issues.

use vstd::prelude::*;

verus! {

/// Number of [`Action`] variants.
pub const ACTION_COUNT: usize = 26;

/// A server command.
#[derive(Debug, Clone, Copy, PartialEq, Eq, Structural)]
pub enum Action {
    /// Create a stream.
    CreateStream,
    /// Rename a stream.
    UpdateStream,
    /// Delete a stream.
    DeleteStream,
    /// Drop a stream's messages.
    PurgeStream,
    /// Create a topic.
    CreateTopic,
    /// Change a topic.
    UpdateTopic,
    /// Delete a topic.
    DeleteTopic,
    /// Drop a topic's messages.
    PurgeTopic,
    /// Add partitions to a topic.
    CreatePartitions,
    /// Remove partitions from a topic.
    DeletePartitions,
    /// Delete a partition's oldest segments.
    DeleteSegments,
    /// Create a consumer group.
    CreateConsumerGroup,
    /// Delete a consumer group.
    DeleteConsumerGroup,
    /// Create a user.
    CreateUser,
    /// Change a user.
    UpdateUser,
    /// Delete a user.
    DeleteUser,
    /// Change a user's password.
    ChangePassword,
    /// Change a user's permissions.
    UpdatePermissions,
    /// Create an access token.
    CreatePersonalAccessToken,
    /// Delete an access token.
    DeletePersonalAccessToken,
    /// Append a batch of messages.
    SendMessages,
    /// Store a consumer offset.
    StoreConsumerOffset,
    /// Delete a consumer offset.
    DeleteConsumerOffset,
    /// Store a consumer offset, with an acknowledgement level.
    StoreConsumerOffset2,
    /// Delete a consumer offset, with an acknowledgement level.
    DeleteConsumerOffset2,
    /// A command beyond the ones above. The command layer decides which.
    Other,
}

impl Action {
    /// Position of the action in declaration order.
    pub open spec fn ordinal(self) -> int {
        match self {
            Action::CreateStream => 0,
            Action::UpdateStream => 1,
            Action::DeleteStream => 2,
            Action::PurgeStream => 3,
            Action::CreateTopic => 4,
            Action::UpdateTopic => 5,
            Action::DeleteTopic => 6,
            Action::PurgeTopic => 7,
            Action::CreatePartitions => 8,
            Action::DeletePartitions => 9,
            Action::DeleteSegments => 10,
            Action::CreateConsumerGroup => 11,
            Action::DeleteConsumerGroup => 12,
            Action::CreateUser => 13,
            Action::UpdateUser => 14,
            Action::DeleteUser => 15,
            Action::ChangePassword => 16,
            Action::UpdatePermissions => 17,
            Action::CreatePersonalAccessToken => 18,
            Action::DeletePersonalAccessToken => 19,
            Action::SendMessages => 20,
            Action::StoreConsumerOffset => 21,
            Action::DeleteConsumerOffset => 22,
            Action::StoreConsumerOffset2 => 23,
            Action::DeleteConsumerOffset2 => 24,
            Action::Other => 25,
        }
    }

    /// The action at a position of the declaration order.
    pub open spec fn at(ordinal: int) -> Action {
        if ordinal == 0 {
            Action::CreateStream
        } else if ordinal == 1 {
            Action::UpdateStream
        } else if ordinal == 2 {
            Action::DeleteStream
        } else if ordinal == 3 {
            Action::PurgeStream
        } else if ordinal == 4 {
            Action::CreateTopic
        } else if ordinal == 5 {
            Action::UpdateTopic
        } else if ordinal == 6 {
            Action::DeleteTopic
        } else if ordinal == 7 {
            Action::PurgeTopic
        } else if ordinal == 8 {
            Action::CreatePartitions
        } else if ordinal == 9 {
            Action::DeletePartitions
        } else if ordinal == 10 {
            Action::DeleteSegments
        } else if ordinal == 11 {
            Action::CreateConsumerGroup
        } else if ordinal == 12 {
            Action::DeleteConsumerGroup
        } else if ordinal == 13 {
            Action::CreateUser
        } else if ordinal == 14 {
            Action::UpdateUser
        } else if ordinal == 15 {
            Action::DeleteUser
        } else if ordinal == 16 {
            Action::ChangePassword
        } else if ordinal == 17 {
            Action::UpdatePermissions
        } else if ordinal == 18 {
            Action::CreatePersonalAccessToken
        } else if ordinal == 19 {
            Action::DeletePersonalAccessToken
        } else if ordinal == 20 {
            Action::SendMessages
        } else if ordinal == 21 {
            Action::StoreConsumerOffset
        } else if ordinal == 22 {
            Action::DeleteConsumerOffset
        } else if ordinal == 23 {
            Action::StoreConsumerOffset2
        } else if ordinal == 24 {
            Action::DeleteConsumerOffset2
        } else {
            Action::Other
        }
    }

    /// The variant's name.
    pub open spec fn label(self) -> Seq<char> {
        match self {
            Action::CreateStream => "CreateStream"@,
            Action::UpdateStream => "UpdateStream"@,
            Action::DeleteStream => "DeleteStream"@,
            Action::PurgeStream => "PurgeStream"@,
            Action::CreateTopic => "CreateTopic"@,
            Action::UpdateTopic => "UpdateTopic"@,
            Action::DeleteTopic => "DeleteTopic"@,
            Action::PurgeTopic => "PurgeTopic"@,
            Action::CreatePartitions => "CreatePartitions"@,
            Action::DeletePartitions => "DeletePartitions"@,
            Action::DeleteSegments => "DeleteSegments"@,
            Action::CreateConsumerGroup => "CreateConsumerGroup"@,
            Action::DeleteConsumerGroup => "DeleteConsumerGroup"@,
            Action::CreateUser => "CreateUser"@,
            Action::UpdateUser => "UpdateUser"@,
            Action::DeleteUser => "DeleteUser"@,
            Action::ChangePassword => "ChangePassword"@,
            Action::UpdatePermissions => "UpdatePermissions"@,
            Action::CreatePersonalAccessToken => "CreatePersonalAccessToken"@,
            Action::DeletePersonalAccessToken => "DeletePersonalAccessToken"@,
            Action::SendMessages => "SendMessages"@,
            Action::StoreConsumerOffset => "StoreConsumerOffset"@,
            Action::DeleteConsumerOffset => "DeleteConsumerOffset"@,
            Action::StoreConsumerOffset2 => "StoreConsumerOffset2"@,
            Action::DeleteConsumerOffset2 => "DeleteConsumerOffset2"@,
            Action::Other => "Other"@,
        }
    }

    /// Position of the action in declaration order, below [`ACTION_COUNT`].
    pub fn index(self) -> (index: usize)
        ensures
            index == self.ordinal(),
            index < ACTION_COUNT,
    {
        match self {
            Action::CreateStream => 0,
            Action::UpdateStream => 1,
            Action::DeleteStream => 2,
            Action::PurgeStream => 3,
            Action::CreateTopic => 4,
            Action::UpdateTopic => 5,
            Action::DeleteTopic => 6,
            Action::PurgeTopic => 7,
            Action::CreatePartitions => 8,
            Action::DeletePartitions => 9,
            Action::DeleteSegments => 10,
            Action::CreateConsumerGroup => 11,
            Action::DeleteConsumerGroup => 12,
            Action::CreateUser => 13,
            Action::UpdateUser => 14,
            Action::DeleteUser => 15,
            Action::ChangePassword => 16,
            Action::UpdatePermissions => 17,
            Action::CreatePersonalAccessToken => 18,
            Action::DeletePersonalAccessToken => 19,
            Action::SendMessages => 20,
            Action::StoreConsumerOffset => 21,
            Action::DeleteConsumerOffset => 22,
            Action::StoreConsumerOffset2 => 23,
            Action::DeleteConsumerOffset2 => 24,
            Action::Other => 25,
        }
    }

    /// The action at `index` in declaration order.
    pub fn from_index(index: usize) -> (action: Action)
        requires
            index < ACTION_COUNT,
        ensures
            action == Action::at(index as int),
            action.ordinal() == index,
    {
        match index {
            0 => Action::CreateStream,
            1 => Action::UpdateStream,
            2 => Action::DeleteStream,
            3 => Action::PurgeStream,
            4 => Action::CreateTopic,
            5 => Action::UpdateTopic,
            6 => Action::DeleteTopic,
            7 => Action::PurgeTopic,
            8 => Action::CreatePartitions,
            9 => Action::DeletePartitions,
            10 => Action::DeleteSegments,
            11 => Action::CreateConsumerGroup,
            12 => Action::DeleteConsumerGroup,
            13 => Action::CreateUser,
            14 => Action::UpdateUser,
            15 => Action::DeleteUser,
            16 => Action::ChangePassword,
            17 => Action::UpdatePermissions,
            18 => Action::CreatePersonalAccessToken,
            19 => Action::DeletePersonalAccessToken,
            20 => Action::SendMessages,
            21 => Action::StoreConsumerOffset,
            22 => Action::DeleteConsumerOffset,
            23 => Action::StoreConsumerOffset2,
            24 => Action::DeleteConsumerOffset2,
            _ => Action::Other,
        }
    }

    /// The variant's name.
    pub fn name(self) -> (name: &'static str)
        ensures
            name@ == self.label(),
    {
        match self {
            Action::CreateStream => "CreateStream",
            Action::UpdateStream => "UpdateStream",
            Action::DeleteStream => "DeleteStream",
            Action::PurgeStream => "PurgeStream",
            Action::CreateTopic => "CreateTopic",
            Action::UpdateTopic => "UpdateTopic",
            Action::DeleteTopic => "DeleteTopic",
            Action::PurgeTopic => "PurgeTopic",
            Action::CreatePartitions => "CreatePartitions",
            Action::DeletePartitions => "DeletePartitions",
            Action::DeleteSegments => "DeleteSegments",
            Action::CreateConsumerGroup => "CreateConsumerGroup",
            Action::DeleteConsumerGroup => "DeleteConsumerGroup",
            Action::CreateUser => "CreateUser",
            Action::UpdateUser => "UpdateUser",
            Action::DeleteUser => "DeleteUser",
            Action::ChangePassword => "ChangePassword",
            Action::UpdatePermissions => "UpdatePermissions",
            Action::CreatePersonalAccessToken => "CreatePersonalAccessToken",
            Action::DeletePersonalAccessToken => "DeletePersonalAccessToken",
            Action::SendMessages => "SendMessages",
            Action::StoreConsumerOffset => "StoreConsumerOffset",
            Action::DeleteConsumerOffset => "DeleteConsumerOffset",
            Action::StoreConsumerOffset2 => "StoreConsumerOffset2",
            Action::DeleteConsumerOffset2 => "DeleteConsumerOffset2",
            Action::Other => "Other",
        }
    }
}

/// The declaration order numbers the actions without gap or repetition: every
/// action sits at its own position, and every position below [`ACTION_COUNT`]
/// holds the action whose position it is.
pub proof fn action_order_is_bijective(action: Action, ordinal: int)
    requires
        0 <= ordinal < ACTION_COUNT,
    ensures
        0 <= action.ordinal() < ACTION_COUNT,
        Action::at(action.ordinal()) == action,
        Action::at(ordinal).ordinal() == ordinal,
{
}

/// Commands are declared entity by entity: streams, topics, partitions, segments,
/// consumer groups, users and tokens, then what acts on a partition; and for each
/// entity creation comes before change, change before deletion, deletion before
/// purging.
pub proof fn actions_are_declared_entity_by_entity()
    ensures
        Action::CreateStream.ordinal() < Action::UpdateStream.ordinal(),
        Action::UpdateStream.ordinal() < Action::DeleteStream.ordinal(),
        Action::DeleteStream.ordinal() < Action::PurgeStream.ordinal(),
        Action::PurgeStream.ordinal() < Action::CreateTopic.ordinal(),
        Action::CreateTopic.ordinal() < Action::UpdateTopic.ordinal(),
        Action::UpdateTopic.ordinal() < Action::DeleteTopic.ordinal(),
        Action::DeleteTopic.ordinal() < Action::PurgeTopic.ordinal(),
        Action::PurgeTopic.ordinal() < Action::CreatePartitions.ordinal(),
        Action::CreatePartitions.ordinal() < Action::DeletePartitions.ordinal(),
        Action::DeletePartitions.ordinal() < Action::DeleteSegments.ordinal(),
        Action::DeleteSegments.ordinal() < Action::CreateConsumerGroup.ordinal(),
        Action::CreateConsumerGroup.ordinal() < Action::DeleteConsumerGroup.ordinal(),
        Action::DeleteConsumerGroup.ordinal() < Action::CreateUser.ordinal(),
        Action::CreateUser.ordinal() < Action::UpdateUser.ordinal(),
        Action::UpdateUser.ordinal() < Action::DeleteUser.ordinal(),
        Action::DeleteUser.ordinal() < Action::ChangePassword.ordinal(),
        Action::ChangePassword.ordinal() < Action::UpdatePermissions.ordinal(),
        Action::UpdatePermissions.ordinal() < Action::CreatePersonalAccessToken.ordinal(),
        Action::CreatePersonalAccessToken.ordinal() < Action::DeletePersonalAccessToken.ordinal(),
        Action::DeletePersonalAccessToken.ordinal() < Action::SendMessages.ordinal(),
        Action::SendMessages.ordinal() < Action::StoreConsumerOffset.ordinal(),
        Action::StoreConsumerOffset.ordinal() < Action::DeleteConsumerOffset.ordinal(),
        Action::DeleteConsumerOffset.ordinal() < Action::StoreConsumerOffset2.ordinal(),
        Action::StoreConsumerOffset2.ordinal() < Action::DeleteConsumerOffset2.ordinal(),
        Action::DeleteConsumerOffset2.ordinal() < Action::Other.ordinal(),
{
}

} // verus!
