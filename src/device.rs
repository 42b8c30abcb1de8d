use vstd::prelude::*;

verus! {

/// Where the kernel lists PCI devices.
pub const DEVICE_PATH: &'static str = "/sys/bus/pci/devices";

/// Where the kernel lists PCI drivers.
pub const DRIVER_PATH: &'static str = "/sys/bus/pci/drivers";

/// What went wrong while looking for a device or a driver.
#[derive(Debug, PartialEq, Eq, Structural)]
pub enum ErrorKind {
    InvalidDevicePath,
    DeviceNotFound,
    InvalidDriverPath,
    DriverNotFound,
    DriverBind,
    DriverUnbind,
    DriverOverride,
}

/// `i` is the first position of `names` that holds `target`.
pub open spec fn first_match(names: Seq<Seq<char>>, target: Seq<char>, i: int) -> bool {
    &&& 0 <= i < names.len()
    &&& names[i] == target
    &&& forall|j: int| 0 <= j < i ==> names[j] != target
}

/// The position of the first name equal to `target`, if any.
pub fn position_of(names: &Vec<String>, target: &str) -> (r: Option<usize>)
    ensures
        r matches Some(i) ==> first_match(names@.map_values(|s: String| s@), target@, i as int),
        r is None ==> forall|j: int| 0 <= j < names@.len() ==> names@[j]@ != target@,
{
    let wanted = target.to_owned();
    let mut i: usize = 0;
    while i < names.len()
        invariant
            i <= names@.len(),
            wanted@ == target@,
            forall|j: int| 0 <= j < i ==> names@[j]@ != target@,
        decreases names@.len() - i,
    {
        if names[i] == wanted {
            return Some(i);
        }
        i = i + 1;
    }
    None
}

/// A PCI network device, named by its bus/device/function address.
pub struct EthernetDevice {
    pub bdf: String,
}

impl EthernetDevice {
    /// Picks the device whose address is `bdf` out of `devices`, the first if
    /// several match.
    pub fn find_by_bdf(devices: Vec<EthernetDevice>, bdf: &str) -> (r: Result<
        EthernetDevice,
        ErrorKind,
    >)
        ensures
            r matches Ok(d) ==> exists|i: int|
                0 <= i < devices@.len() && #[trigger] devices@[i] == d && d.bdf@ == bdf@ && forall|
                    j: int,
                | 0 <= j < i ==> devices@[j].bdf@ != bdf@,
            r is Err ==> r == Err::<EthernetDevice, ErrorKind>(ErrorKind::DeviceNotFound) && forall|
                j: int,
            |
                0 <= j < devices@.len() ==> devices@[j].bdf@ != bdf@,
    {
        let wanted = bdf.to_owned();
        let ghost all = devices@;
        let total = devices.len();
        let mut rest = devices;
        let mut i: usize = 0;
        while rest.len() > 0
            invariant
                all == devices@,
                all.len() == total,
                wanted@ == bdf@,
                i + rest@.len() == all.len(),
                rest@ == all.skip(i as int),
                forall|j: int| 0 <= j < i ==> all[j].bdf@ != bdf@,
            decreases rest@.len(),
        {
            let d = rest.remove(0);
            if d.bdf == wanted {
                proof {
                    assert(all[i as int] == d);
                }
                return Ok(d);
            }
            i = i + 1;
            assert(rest@ =~= all.skip(i as int));
        }
        Err(ErrorKind::DeviceNotFound)
    }
}

/// A PCI driver, named as the kernel lists it.
pub struct Driver {
    pub name: String,
}

impl Driver {
    /// Picks the driver called `name` out of `drivers`, the first if several
    /// match.
    pub fn find_by_name(drivers: Vec<Driver>, name: &str) -> (r: Result<Driver, ErrorKind>)
        ensures
            r matches Ok(d) ==> exists|i: int|
                0 <= i < drivers@.len() && #[trigger] drivers@[i] == d && d.name@ == name@ && forall|
                    j: int,
                | 0 <= j < i ==> drivers@[j].name@ != name@,
            r is Err ==> r == Err::<Driver, ErrorKind>(ErrorKind::DriverNotFound) && forall|j: int|
                0 <= j < drivers@.len() ==> drivers@[j].name@ != name@,
    {
        let wanted = name.to_owned();
        let ghost all = drivers@;
        let total = drivers.len();
        let mut rest = drivers;
        let mut i: usize = 0;
        while rest.len() > 0
            invariant
                all == drivers@,
                all.len() == total,
                wanted@ == name@,
                i + rest@.len() == all.len(),
                rest@ == all.skip(i as int),
                forall|j: int| 0 <= j < i ==> all[j].name@ != name@,
            decreases rest@.len(),
        {
            let d = rest.remove(0);
            if d.name == wanted {
                proof {
                    assert(all[i as int] == d);
                }
                return Ok(d);
            }
            i = i + 1;
            assert(rest@ =~= all.skip(i as int));
        }
        Err(ErrorKind::DriverNotFound)
    }
}

} // verus!
