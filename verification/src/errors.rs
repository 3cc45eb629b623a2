//! What can go wrong around the window: a request that failed, a channel
//! that could not be loaded, a file that could not be read or written.

use vstd::prelude::*;

verus! {

/// A request to the chat API failed.
#[derive(Debug)]
pub struct QueryError {
    details: String,
}

impl View for QueryError {
    type V = Seq<char>;

    closed spec fn view(&self) -> Seq<char> {
        self.details@
    }
}

impl QueryError {
    pub fn new(msg: &str) -> (error: QueryError)
        ensures
            error@ == msg@,
    {
        QueryError { details: msg.to_owned() }
    }

    /// What went wrong, in words.
    pub fn description(&self) -> (details: &str)
        ensures
            details@ == self@,
    {
        self.details.as_str()
    }

    /// The description as a string of its own.
    pub fn to_string(&self) -> (details: String)
        ensures
            details@ == self@,
    {
        self.details.clone()
    }
}

/// Channels or their messages could not be loaded.
#[derive(Debug)]
pub struct SlackChannelError {
    details: String,
}

impl View for SlackChannelError {
    type V = Seq<char>;

    closed spec fn view(&self) -> Seq<char> {
        self.details@
    }
}

impl SlackChannelError {
    pub fn new(msg: &str) -> (error: SlackChannelError)
        ensures
            error@ == msg@,
    {
        SlackChannelError { details: msg.to_owned() }
    }

    /// The failure of a request, reported as a failure to load.
    pub fn of_query(cause: &QueryError) -> (error: SlackChannelError)
        ensures
            error@ == cause@,
    {
        SlackChannelError::new(cause.description())
    }

    /// What went wrong, in words.
    pub fn description(&self) -> (details: &str)
        ensures
            details@ == self@,
    {
        self.details.as_str()
    }

    /// The description as a string of its own.
    pub fn to_string(&self) -> (details: String)
        ensures
            details@ == self@,
    {
        self.details.clone()
    }
}

/// A cache file could not be read or written.
#[derive(Debug)]
pub struct FileSystemError {
    details: String,
}

impl View for FileSystemError {
    type V = Seq<char>;

    closed spec fn view(&self) -> Seq<char> {
        self.details@
    }
}

impl FileSystemError {
    pub fn new(msg: &str) -> (error: FileSystemError)
        ensures
            error@ == msg@,
    {
        FileSystemError { details: msg.to_owned() }
    }

    /// What went wrong, in words.
    pub fn description(&self) -> (details: &str)
        ensures
            details@ == self@,
    {
        self.details.as_str()
    }

    /// The description as a string of its own.
    pub fn to_string(&self) -> (details: String)
        ensures
            details@ == self@,
    {
        self.details.clone()
    }
}

} // verus!
