//! The decisions of the link operations, apart from the round trips to the
//! backend that they wait on.
//!
//! Creating a link takes two round trips: an atomic increment of the counter
//! under [`COUNTER_KEY`], whose outcome [`LinkHandler::create`] turns into a
//! link, and a write of that link, whose outcome [`LinkHandler::finish_create`]
//! turns into the answer. Resolving and deleting take one round trip each.
use vstd::prelude::*;

use crate::backend::BackendFault;
use crate::codec::{code_of, encode};
use crate::error::LinkError;

verus! {

/// The backend key of the shared counter.
pub const COUNTER_KEY: &'static str = "next.url.id";

/// A request to shorten a URL.
pub struct CreateLink {
    pub url: String,
}

/// A code together with the URL it stands for.
pub struct Link {
    pub code: String,
    pub url: String,
}

/// The link operations, one function for each point where a backend answer is
/// turned into a next step.
pub struct LinkHandler {}

impl LinkHandler {
    /// Turns the outcome of the counter increment into the link to write: the
    /// code of the counter's new value paired with the requested URL. A failed
    /// increment, or a value too large to encode, assigns no code.
    pub fn create(payload: CreateLink, counter: Result<u64, BackendFault>) -> (r: Result<
        Link,
        LinkError,
    >)
        ensures
            match counter {
                Ok(n) => if n <= usize::MAX {
                    &&& r is Ok
                    &&& r->Ok_0.code@ == code_of(n as nat)
                    &&& r->Ok_0.url@ == payload.url@
                } else {
                    r == Err::<Link, LinkError>(LinkError::CounterIncrementFailed)
                },
                Err(_) => r == Err::<Link, LinkError>(LinkError::CounterIncrementFailed),
            },
    {
        match counter {
            Ok(n) => {
                if n <= usize::MAX as u64 {
                    let code = encode(n as usize);
                    Ok(Link { code, url: payload.url })
                } else {
                    Err(LinkError::CounterIncrementFailed)
                }
            },
            Err(_) => Err(LinkError::CounterIncrementFailed),
        }
    }

    /// Turns the outcome of writing `link` into the answer of a create: the
    /// link where the write succeeded, and no link otherwise.
    pub fn finish_create(link: Link, written: Result<(), BackendFault>) -> (r: Result<
        Link,
        LinkError,
    >)
        ensures
            match written {
                Ok(_) => r == Ok::<Link, LinkError>(link),
                Err(_) => r == Err::<Link, LinkError>(LinkError::BackendUnavailable),
            },
    {
        match written {
            Ok(_) => Ok(link),
            Err(_) => Err(LinkError::BackendUnavailable),
        }
    }

    /// Turns the outcome of reading `code` into the answer of a resolve: the
    /// link on a hit, `NotFound` on a miss.
    pub fn get(code: String, read: Result<Option<String>, BackendFault>) -> (r: Result<
        Link,
        LinkError,
    >)
        ensures
            match read {
                Ok(Some(url)) => r == Ok::<Link, LinkError>(Link { code, url }),
                Ok(None) => r == Err::<Link, LinkError>(LinkError::NotFound),
                Err(_) => r == Err::<Link, LinkError>(LinkError::BackendUnavailable),
            },
    {
        match read {
            Ok(Some(url)) => Ok(Link { code, url }),
            Ok(None) => Err(LinkError::NotFound),
            Err(_) => Err(LinkError::BackendUnavailable),
        }
    }

    /// Turns the outcome of removing a code's entry into the answer of a delete.
    pub fn delete(removed: Result<(), BackendFault>) -> (r: Result<(), LinkError>)
        ensures
            match removed {
                Ok(_) => r is Ok,
                Err(_) => r == Err::<(), LinkError>(LinkError::BackendUnavailable),
            },
    {
        match removed {
            Ok(_) => Ok(()),
            Err(_) => Err(LinkError::BackendUnavailable),
        }
    }
}

} // verus!
