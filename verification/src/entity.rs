//! Core data types of the batch document store: document kinds, create and
//! query items, per-item outcomes, and the error taxonomy.

use vstd::prelude::*;

verus! {

/// Kind of collaborative document. On the wire a kind is an integer code;
/// see `CollabType::code` / `CollabType::from_code`.
#[derive(Clone, Copy, Debug, PartialEq, Eq, Structural)]
pub enum CollabType {
    Document,
    Database,
    WorkspaceDatabase,
    Folder,
    DatabaseRow,
    UserAwareness,
    Unknown,
}

impl CollabType {
    /// Integer wire code of this kind.
    pub open spec fn spec_code(self) -> i64 {
        match self {
            CollabType::Document => 0,
            CollabType::Database => 1,
            CollabType::WorkspaceDatabase => 2,
            CollabType::Folder => 3,
            CollabType::DatabaseRow => 4,
            CollabType::UserAwareness => 5,
            CollabType::Unknown => 6,
        }
    }

    /// Kind denoted by an integer wire code, if any.
    pub open spec fn spec_from_code(c: i64) -> Option<CollabType> {
        if c == 0 {
            Some(CollabType::Document)
        } else if c == 1 {
            Some(CollabType::Database)
        } else if c == 2 {
            Some(CollabType::WorkspaceDatabase)
        } else if c == 3 {
            Some(CollabType::Folder)
        } else if c == 4 {
            Some(CollabType::DatabaseRow)
        } else if c == 5 {
            Some(CollabType::UserAwareness)
        } else if c == 6 {
            Some(CollabType::Unknown)
        } else {
            None
        }
    }

    pub fn code(&self) -> (r: i64)
        ensures
            r == self.spec_code(),
    {
        match self {
            CollabType::Document => 0,
            CollabType::Database => 1,
            CollabType::WorkspaceDatabase => 2,
            CollabType::Folder => 3,
            CollabType::DatabaseRow => 4,
            CollabType::UserAwareness => 5,
            CollabType::Unknown => 6,
        }
    }

    pub fn from_code(c: i64) -> (r: Option<CollabType>)
        ensures
            r == CollabType::spec_from_code(c),
    {
        if c == 0 {
            Some(CollabType::Document)
        } else if c == 1 {
            Some(CollabType::Database)
        } else if c == 2 {
            Some(CollabType::WorkspaceDatabase)
        } else if c == 3 {
            Some(CollabType::Folder)
        } else if c == 4 {
            Some(CollabType::DatabaseRow)
        } else if c == 5 {
            Some(CollabType::UserAwareness)
        } else if c == 6 {
            Some(CollabType::Unknown)
        } else {
            None
        }
    }
}

/// Round trip of the wire code: every kind is recovered from its own code.
pub proof fn lemma_collab_type_code_round_trip(t: CollabType)
    ensures
        CollabType::spec_from_code(t.spec_code()) == Some(t),
{
}

/// One item of a batch create: a document identified by `object_id` and
/// `collab_type` within a workspace, with its opaque encoded payload.
/// `override_if_exist` grants permission to replace an existing document
/// of the same identity.
#[derive(Clone, Debug)]
pub struct CollabParams {
    pub object_id: String,
    pub encoded_collab_v1: Vec<u8>,
    pub collab_type: CollabType,
    pub override_if_exist: bool,
}

/// Mathematical model of a `CollabParams`.
pub ghost struct CollabParamsModel {
    pub object_id: Seq<char>,
    pub encoded_collab_v1: Seq<u8>,
    pub collab_type: CollabType,
    pub override_if_exist: bool,
}

impl View for CollabParams {
    type V = CollabParamsModel;

    open spec fn view(&self) -> CollabParamsModel {
        CollabParamsModel {
            object_id: self.object_id@,
            encoded_collab_v1: self.encoded_collab_v1@,
            collab_type: self.collab_type,
            override_if_exist: self.override_if_exist,
        }
    }
}

/// A batch create request: a workspace and an ordered list of create items.
#[derive(Clone, Debug)]
pub struct BatchCreateCollabParams {
    pub workspace_id: String,
    pub params_list: Vec<CollabParams>,
}

/// One item of a batch query: the identity of the document asked for.
#[derive(Clone, Debug)]
pub struct QueryCollab {
    pub object_id: String,
    pub collab_type: CollabType,
}

/// Mathematical model of a `QueryCollab`.
pub ghost struct QueryCollabModel {
    pub object_id: Seq<char>,
    pub collab_type: CollabType,
}

impl View for QueryCollab {
    type V = QueryCollabModel;

    open spec fn view(&self) -> QueryCollabModel {
        QueryCollabModel { object_id: self.object_id@, collab_type: self.collab_type }
    }
}

/// A batch query request: a workspace and an ordered list of query items.
#[derive(Clone, Debug)]
pub struct QueryCollabParams {
    pub workspace_id: String,
    pub queries: Vec<QueryCollab>,
}

/// Why a single query of a batch read failed. Read failures are data, not
/// errors: they stand inline in the batch result.
#[derive(Clone, Copy, Debug, PartialEq, Eq, Structural)]
pub enum FailedReason {
    NotFound,
}

/// Outcome of one query of a batch read.
#[derive(Clone, Debug, PartialEq, Eq)]
pub enum QueryCollabResult {
    Success { encode_collab_v1: Vec<u8> },
    Failed { reason: FailedReason },
}

/// Mathematical model of a `QueryCollabResult`.
pub ghost enum QueryOutcomeModel {
    Success { bytes: Seq<u8> },
    Failed { reason: FailedReason },
}

impl View for QueryCollabResult {
    type V = QueryOutcomeModel;

    open spec fn view(&self) -> QueryOutcomeModel {
        match self {
            QueryCollabResult::Success { encode_collab_v1 } => QueryOutcomeModel::Success {
                bytes: encode_collab_v1@,
            },
            QueryCollabResult::Failed { reason } => QueryOutcomeModel::Failed { reason: *reason },
        }
    }
}

/// Store-level failure of a batch create. `InvalidRequest` is a structurally
/// invalid request (an empty batch); `Conflict` carries the object id of the
/// first item that would overwrite an existing document without permission.
#[derive(Clone, Debug, PartialEq, Eq)]
pub enum StoreError {
    InvalidRequest,
    Conflict(String),
}

/// Failure of the envelope decoder. `Truncated` is input that ends before the
/// announced content; `UnsupportedVersion` a leading version tag the decoder
/// does not know; `Malformed` bytes left over after the announced content.
#[derive(Clone, Copy, Debug, PartialEq, Eq, Structural)]
pub enum DecodeError {
    Truncated,
    UnsupportedVersion,
    Malformed,
}

} // verus!
