//! A model of the host environment as the host hands it to the plugin:
//! four optional string values. The surrounding process fills the model
//! from its real environment once at start; the accessors then answer
//! from the model, failing exactly where a value is absent, so plugin
//! code never reads variable names of its own.

use vstd::prelude::*;

verus! {

/// Why an environment value could not be given.
#[derive(Clone, Copy, Debug, PartialEq, Eq, Structural)]
pub enum EnvError {
    /// The host did not set the value.
    NotPresent,
}

/// The host environment a plugin runs in: where the plugin is
/// installed, and what the host machine looks like.
pub struct VoltEnvironment {
    uri: Option<String>,
    operating_system: Option<String>,
    architecture: Option<String>,
    libc: Option<String>,
}

impl VoltEnvironment {
    pub closed spec fn uri_view(&self) -> Option<Seq<char>> {
        match self.uri {
            Some(ref s) => Some(s@),
            None => None,
        }
    }

    pub closed spec fn operating_system_view(&self) -> Option<Seq<char>> {
        match self.operating_system {
            Some(ref s) => Some(s@),
            None => None,
        }
    }

    pub closed spec fn architecture_view(&self) -> Option<Seq<char>> {
        match self.architecture {
            Some(ref s) => Some(s@),
            None => None,
        }
    }

    pub closed spec fn libc_view(&self) -> Option<Seq<char>> {
        match self.libc {
            Some(ref s) => Some(s@),
            None => None,
        }
    }

    /// An environment holding exactly the given values.
    pub fn new(
        uri: Option<String>,
        operating_system: Option<String>,
        architecture: Option<String>,
        libc: Option<String>,
    ) -> (r: VoltEnvironment)
        ensures
            r.uri_view() == (match uri {
                Some(ref s) => Some::<Seq<char>>(s@),
                None => None::<Seq<char>>,
            }),
            r.operating_system_view() == (match operating_system {
                Some(ref s) => Some::<Seq<char>>(s@),
                None => None::<Seq<char>>,
            }),
            r.architecture_view() == (match architecture {
                Some(ref s) => Some::<Seq<char>>(s@),
                None => None::<Seq<char>>,
            }),
            r.libc_view() == (match libc {
                Some(ref s) => Some::<Seq<char>>(s@),
                None => None::<Seq<char>>,
            }),
    {
        VoltEnvironment { uri, operating_system, architecture, libc }
    }

    /// The plugin's installed location, as a location string.
    pub fn uri(&self) -> (r: Result<String, EnvError>)
        ensures
            match self.uri_view() {
                Some(s) => r matches Ok(v) && v@ == s,
                None => r == Result::<String, EnvError>::Err(EnvError::NotPresent),
            },
    {
        match &self.uri {
            Some(s) => Ok(s.clone()),
            None => Err(EnvError::NotPresent),
        }
    }

    /// The host's operating system name.
    pub fn operating_system(&self) -> (r: Result<String, EnvError>)
        ensures
            match self.operating_system_view() {
                Some(s) => r matches Ok(v) && v@ == s,
                None => r == Result::<String, EnvError>::Err(EnvError::NotPresent),
            },
    {
        match &self.operating_system {
            Some(s) => Ok(s.clone()),
            None => Err(EnvError::NotPresent),
        }
    }

    /// The host's processor architecture name.
    pub fn architecture(&self) -> (r: Result<String, EnvError>)
        ensures
            match self.architecture_view() {
                Some(s) => r matches Ok(v) && v@ == s,
                None => r == Result::<String, EnvError>::Err(EnvError::NotPresent),
            },
    {
        match &self.architecture {
            Some(s) => Ok(s.clone()),
            None => Err(EnvError::NotPresent),
        }
    }

    /// The C library flavour of the host, where the host reports one;
    /// empty on hosts that have none to report.
    pub fn libc(&self) -> (r: Result<String, EnvError>)
        ensures
            match self.libc_view() {
                Some(s) => r matches Ok(v) && v@ == s,
                None => r == Result::<String, EnvError>::Err(EnvError::NotPresent),
            },
    {
        match &self.libc {
            Some(s) => Ok(s.clone()),
            None => Err(EnvError::NotPresent),
        }
    }
}

} // verus!
