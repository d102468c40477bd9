//! Plain profile properties for hosts that describe a profile as one value
//! record: identity, a profile directory path, and an optional server
//! controller.

use crate::server_controller::ServerController;
use vstd::prelude::*;

verus! {

/// A profile's value data: identity strings, the directory the profile works
/// in, and an optional server controller.
pub struct ProfileProperties {
    /// The profile's id.
    pub id: String,
    /// The profile's title.
    pub title: String,
    /// The process name the profile is bound to.
    pub process_name: String,
    /// The directory that holds the profile's files.
    pub profile_dir_path: String,
    /// The controller of the profile's server, when it has one.
    pub server_controller: Option<ServerController>,
}

impl ProfileProperties {
    /// Create a new property record, without a server controller.
    pub fn new(id: &str, title: &str, process_name: &str, profile_dir_path: &str) -> (r:
        ProfileProperties)
        ensures
            r.id@ == id@,
            r.title@ == title@,
            r.process_name@ == process_name@,
            r.profile_dir_path@ == profile_dir_path@,
            r.server_controller is None,
    {
        ProfileProperties {
            id: id.to_owned(),
            title: title.to_owned(),
            process_name: process_name.to_owned(),
            profile_dir_path: profile_dir_path.to_owned(),
            server_controller: None,
        }
    }

    /// Return self with a server controller.
    pub fn with_server_controller(self, server_controller: ServerController) -> (r:
        ProfileProperties)
        ensures
            r.server_controller matches Some(c) && c == server_controller,
            r.id == self.id,
            r.title == self.title,
            r.process_name == self.process_name,
            r.profile_dir_path == self.profile_dir_path,
    {
        ProfileProperties { server_controller: Some(server_controller), ..self }
    }

    /// Get the profile's server controller.
    pub fn server_controller(&self) -> (r: &Option<ServerController>)
        ensures
            *r == self.server_controller,
    {
        &self.server_controller
    }
}

} // verus!
