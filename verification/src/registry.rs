//! What the package registry says about a publishing task, and the
//! permission a publish asks for. The network calls around these types
//! happen at the program's edge.

use vstd::prelude::*;

verus! {

/// Why a publishing task failed, as the registry reports it.
pub struct PublishingTaskError {
    /// The registry's error code.
    pub code: String,
    /// The registry's error message.
    pub message: String,
}

/// One publishing task, as the registry reports it while the publish is
/// polled to completion.
pub struct PublishingTask {
    /// The task's identifier, used to poll its status.
    pub id: String,
    /// The task's status; `success` and `failure` are terminal.
    pub status: String,
    /// The failure, when the task failed.
    pub error: Option<PublishingTaskError>,
}

/// A permission the publish asks the registry to authorize.
pub enum Permission<'s> {
    /// Publishing one version of one package.
    VersionPublish {
        /// The package's scope.
        scope: &'s str,
        /// The package's name inside the scope.
        package: &'s str,
        /// The version to publish.
        version: &'s str,
        /// The digest of the tarball to publish.
        tarball_hash: &'s str,
    },
}

} // verus!
