use crate::device::{first_match, position_of};
use vstd::prelude::*;

verus! {

/// Why a pair of interfaces could not be resolved.
#[derive(Debug)]
pub enum NetworkInterfaceError {
    DeviceDoesNotExist(String),
}

/// The two interfaces that a forwarder joins, as positions in the list of
/// the host's interfaces that they were resolved against.
pub struct Port {
    wan: usize,
    lan: usize,
}

impl Port {
    pub closed spec fn wan_spec(&self) -> int {
        self.wan as int
    }

    pub closed spec fn lan_spec(&self) -> int {
        self.lan as int
    }

    /// Resolves the interfaces named `wan_interface_name` and
    /// `lan_interface_name` in `names`, the host's interfaces.  The error
    /// names the first of the two that is missing.
    pub fn new(wan_interface_name: &str, lan_interface_name: &str, names: &Vec<String>) -> (r:
        Result<Port, NetworkInterfaceError>)
        ensures
            r matches Ok(p) ==> {
                &&& first_match(names@.map_values(|s: String| s@), wan_interface_name@, p.wan_spec())
                &&& first_match(names@.map_values(|s: String| s@), lan_interface_name@, p.lan_spec())
            },
            r is Ok <==> (exists|i: int|
                0 <= i < names@.len() && #[trigger] names@[i]@ == wan_interface_name@) && (exists|
                i: int,
            | 0 <= i < names@.len() && #[trigger] names@[i]@ == lan_interface_name@),
            r matches Err(NetworkInterfaceError::DeviceDoesNotExist(n)) ==> if exists|i: int|
                0 <= i < names@.len() && #[trigger] names@[i]@ == wan_interface_name@ {
                n@ == lan_interface_name@
            } else {
                n@ == wan_interface_name@
            },
    {
        let wan = match position_of(names, wan_interface_name) {
            Some(i) => i,
            None => {
                return Err(NetworkInterfaceError::DeviceDoesNotExist(wan_interface_name.to_owned()));
            },
        };
        let lan = match position_of(names, lan_interface_name) {
            Some(i) => i,
            None => {
                return Err(NetworkInterfaceError::DeviceDoesNotExist(lan_interface_name.to_owned()));
            },
        };
        Ok(Port { wan, lan })
    }

    /// Where the WAN interface stands in the list it was resolved against.
    pub fn wan(&self) -> (r: usize)
        ensures
            r == self.wan_spec(),
    {
        self.wan
    }

    /// Where the LAN interface stands in the list it was resolved against.
    pub fn lan(&self) -> (r: usize)
        ensures
            r == self.lan_spec(),
    {
        self.lan
    }
}

} // verus!
