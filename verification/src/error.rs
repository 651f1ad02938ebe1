//! What can go wrong while a subgraph is indexed.
use crate::text::{hash_hex, hex};
use vstd::prelude::*;
use vstd::string::*;

verus! {

/// Why the processing of a block came to nothing.
pub enum IndexingError {
    /// A trigger of the block could not be processed. `block` is the block pointer as it is
    /// displayed; only triggers that belong to a transaction have a hash.
    Trigger { block: String, transaction: Option<[u8; 32]>, cause: String },
    /// The changes of the block could not be computed or stored.
    BlockStream { cause: String },
    /// Anything else, passed on as it came.
    Other { cause: String },
}

impl IndexingError {
    /// The text of the error.
    pub open spec fn text(self) -> Seq<char> {
        match self {
            IndexingError::Trigger { block, transaction: Some(hash), cause } =>
                "Failed to process trigger in block "@ + block@ + ", transaction "@ + hex(hash@)
                    + ": "@ + cause@,
            IndexingError::Trigger { block, transaction: None, cause } =>
                "Failed to process trigger: "@ + cause@,
            IndexingError::BlockStream { cause } =>
                "Error while processing block stream for a subgraph: "@ + cause@,
            IndexingError::Other { cause } => cause@,
        }
    }

    /// The message that is logged for the error.
    pub fn message(&self) -> (message: String)
        ensures
            message@ == self.text(),
            message@ == match *self {
                IndexingError::Trigger { block, transaction: Some(hash), cause } =>
                    "Failed to process trigger in block "@ + block@ + ", transaction "@ + hex(hash@)
                        + ": "@ + cause@,
                IndexingError::Trigger { block: _, transaction: None, cause } =>
                    "Failed to process trigger: "@ + cause@,
                IndexingError::BlockStream { cause } =>
                    "Error while processing block stream for a subgraph: "@ + cause@,
                IndexingError::Other { cause } => cause@,
            },
    {
        match self {
            IndexingError::Trigger { block, transaction: Some(hash), cause } => {
                let mut message = "Failed to process trigger in block ".to_owned();
                message.append(block.as_str());
                message.append(", transaction ");
                message.append(hash_hex(hash).as_str());
                message.append(": ");
                message.append(cause.as_str());
                message
            },
            IndexingError::Trigger { block: _, transaction: None, cause } => {
                "Failed to process trigger: ".to_owned().concat(cause.as_str())
            },
            IndexingError::BlockStream { cause } => {
                "Error while processing block stream for a subgraph: ".to_owned().concat(
                    cause.as_str(),
                )
            },
            IndexingError::Other { cause } => cause.clone(),
        }
    }
}

/// An error, or the news that the work has been called off.
pub enum CancelableError<E> {
    Error(E),
    Cancel,
}

} // verus!
