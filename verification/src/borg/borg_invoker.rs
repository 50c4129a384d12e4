//! Running the backup tool according to its configuration.
use vstd::prelude::*;
use crate::borg::borg_server_configuration::BorgServerSideConfiguration;

verus! {

/// Runs the backup tool as its configuration says.
#[derive(Debug)]
pub struct BorgInvoker {
    configuration: BorgServerSideConfiguration,
}

/// Calls `std::path::Path::new(path).exists()`. Nothing is claimed of the
/// result: it depends on what is on disk.
#[verifier::external_body]
fn path_exists(path: &str) -> (r: bool) {
    std::path::Path::new(path).exists()
}

/// The installation status reported for the backup binary: "AlreadyIntalled"
/// when it exists, empty otherwise.
pub fn install_status(binary_exists: bool) -> (r: &'static str)
    ensures
        binary_exists ==> r@ == "AlreadyIntalled"@,
        !binary_exists ==> r@ == ""@,
{
    if binary_exists {
        "AlreadyIntalled"
    } else {
        ""
    }
}

impl BorgInvoker {
    /// An invoker for a configuration.
    pub fn new(configuration: BorgServerSideConfiguration) -> (r: BorgInvoker)
        ensures
            r.configuration() == configuration,
    {
        BorgInvoker { configuration }
    }

    /// The configuration the invoker runs by.
    pub closed spec fn configuration(&self) -> BorgServerSideConfiguration {
        self.configuration
    }

    /// The configuration the invoker runs by.
    pub fn config(&self) -> (r: &BorgServerSideConfiguration)
        ensures
            *r == self.configuration(),
    {
        &self.configuration
    }

    /// Checks whether the configured backup binary is installed: the status
    /// of `install_status` for whether the path `borg_bin` exists.
    pub fn install_borg(self) -> (r: &'static str)
        ensures
            r@ == "AlreadyIntalled"@ || r@ == ""@,
    {
        let exists = path_exists(self.configuration.borg_bin.as_str());
        install_status(exists)
    }

    /// Creating a new backup archive: nothing is done yet.
    pub fn new_borg_archive(self) {
    }
}

} // verus!
