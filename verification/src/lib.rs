//! A minimal static-file HTTP server, as a library: the request framer and
//! parser, the table of routes built from a directory's files, the response
//! builder and the queue from which worker threads take their jobs.

use vstd::prelude::*;
use vstd::string::*;

pub mod framer;
pub mod http_parse_error;
pub mod http_request;
pub mod http_resource;
pub mod http_response;
pub mod mime;
pub mod route_table;
pub mod server;
pub mod text;
pub mod thread_pool;

verus! {

/// Why the table of routes could not be built.
#[derive(Debug, Clone)]
pub struct DirectoryReadError {
    pub msg: String,
}

impl DirectoryReadError {
    /// The text shown for this error.
    pub fn message(&self) -> (text: String)
        ensures
            text@ == "Bifrost failed to read directory: "@ + self.msg@,
    {
        let mut text = String::from_str("Bifrost failed to read directory: ");
        text.append(self.msg.as_str());
        text
    }
}

} // verus!
