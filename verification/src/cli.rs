use vstd::prelude::*;

use crate::errors::Error;

verus! {

/// The parsed command line: one subcommand per invocation.
#[derive(Debug)]
pub struct Cli {
    /// The subcommand to run.
    pub command: Command,
}

/// The allowed subcommands.
#[derive(Debug)]
pub enum Command {
    /// Add a new to-do item to the list.
    Add {
        /// The title of the to-do item.
        title: String,
        /// The due date of the to-do item, as entered.
        due_date: String,
    },
    /// Delete a to-do item from the list (complete the task).
    Delete {
        /// Delete all to-do items; the ordinal is ignored then.
        all: bool,
        /// The position, as shown by the listing, of the item to delete.
        ordinal: Option<usize>,
    },
    /// Show all to-do items in the list.
    List,
    /// Show and manage the connection to the store.
    Redis {
        /// The store subcommand to run.
        command: RedisCommand,
    },
    /// Update a to-do item in the list.
    Update {
        /// The position, as shown by the listing, of the item to update.
        ordinal: usize,
        /// The new title of the to-do item, if it changes.
        title: Option<String>,
        /// The new due date of the to-do item, if it changes.
        due_date: Option<String>,
    },
}

/// The store-management subcommands.
#[derive(Debug)]
pub enum RedisCommand {
    /// Show details about the store server.
    Info {
        /// The section of the server information to show.
        section: String,
    },
}

/// Turns a user-supplied 1-based ordinal into an index into the current
/// listing. Ordinal zero and any ordinal beyond the count are a
/// `NoSuchOrdinal` error, never a crash.
pub fn resolve_ordinal(count: usize, ordinal: usize) -> (r: Result<usize, Error>)
    ensures
        r is Ok <==> 1 <= ordinal <= count,
        r matches Ok(i) ==> i == ordinal - 1 && i < count,
        r matches Err(e) ==> e == Error::NoSuchOrdinal,
{
    if 1 <= ordinal && ordinal <= count {
        Ok(ordinal - 1)
    } else {
        Err(Error::NoSuchOrdinal)
    }
}

/// Turns the optional ordinal of a delete command into an index into the
/// current listing; a missing ordinal counts as zero and is rejected the same
/// way.
pub fn select_ordinal(count: usize, ordinal: Option<usize>) -> (r: Result<usize, Error>)
    ensures
        r is Ok <==> (ordinal matches Some(n) && 1 <= n <= count),
        r matches Ok(i) ==> (ordinal matches Some(n) && i == n - 1 && i < count),
        r matches Err(e) ==> e == Error::NoSuchOrdinal,
{
    match ordinal {
        Some(n) => resolve_ordinal(count, n),
        None => resolve_ordinal(count, 0),
    }
}

} // verus!
