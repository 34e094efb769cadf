//! The decisions around starting the application updater.
//!
//! The updater itself is driven through Objective-C messages by the
//! application; what it is told and how a refusal is reported is decided
//! here.

use vstd::prelude::*;
use vstd::string::*;

verus! {

/// Why the updater is not running.
#[derive(Debug)]
pub enum StartError {
    /// The updater presents windows, so it is built and driven from the main
    /// thread only.
    NotMainThread,
    /// The running bundle names no update feed, as a locally assembled
    /// development build does.
    NoFeedConfigured,
    /// An initializer returned nil; the class that failed is named.
    InitFailed(&'static str),
    /// The updater refused to start and said why.
    Refused(String),
}

/// The sentence a start failure is reported with.
pub open spec fn start_error_message(e: StartError) -> Seq<char> {
    match e {
        StartError::NotMainThread => "the updater can only start on the main thread"@,
        StartError::NoFeedConfigured => "this build names no update feed"@,
        StartError::InitFailed(name) => name@ + " could not be created"@,
        StartError::Refused(reason) => "Sparkle did not start: "@ + reason@,
    }
}

impl StartError {
    /// The sentence this failure is reported with.
    pub fn message(&self) -> (r: String)
        ensures
            r@ == start_error_message(*self),
    {
        match self {
            StartError::NotMainThread => String::from_str(
                "the updater can only start on the main thread",
            ),
            StartError::NoFeedConfigured => String::from_str("this build names no update feed"),
            StartError::InitFailed(name) => {
                let mut r = String::from_str(name);
                r.append(" could not be created");
                r
            },
            StartError::Refused(reason) => {
                let mut r = String::from_str("Sparkle did not start: ");
                r.append(reason.as_str());
                r
            },
        }
    }

    /// Whether this failure is the ordinary state of a build rather than a
    /// fault: a build without a feed is meant not to update, and is reported
    /// as information, every other failure as a warning.
    pub fn is_expected(&self) -> (r: bool)
        ensures
            r == (*self is NoFeedConfigured),
    {
        match self {
            StartError::NoFeedConfigured => true,
            _ => false,
        }
    }
}

/// The checks made before any updater object is created: the main thread
/// first, then a configured feed.
pub fn start_precheck(on_main_thread: bool, feed_configured: bool) -> (r: Result<(), StartError>)
    ensures
        r matches Ok(_) <==> on_main_thread && feed_configured,
        r matches Err(e) ==> if !on_main_thread {
            e is NotMainThread
        } else {
            e is NoFeedConfigured
        },
{
    if !on_main_thread {
        return Err(StartError::NotMainThread);
    }
    if !feed_configured {
        return Err(StartError::NoFeedConfigured);
    }
    Ok(())
}

/// The failure reported when the updater refuses to start, carrying its
/// localized description, or "no reason given" when it supplied none.
pub fn refusal(description: Option<String>) -> (r: StartError)
    ensures
        r matches StartError::Refused(reason) && reason@ == match description {
            Some(d) => d@,
            None => "no reason given"@,
        },
{
    match description {
        Some(d) => StartError::Refused(d),
        None => StartError::Refused(String::from_str("no reason given")),
    }
}

} // verus!
