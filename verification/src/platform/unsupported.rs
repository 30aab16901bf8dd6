//! The backend of platforms without camera support.
use vstd::prelude::*;

use super::CameraAvailability;

verus! {

/// The camera backend of platforms that Camux does not support.
pub struct UnsupportedBackend;

impl UnsupportedBackend {
    pub fn new() -> Self {
        UnsupportedBackend
    }

    /// Every requested camera is reported as disconnected and unused.
    pub fn availability(&self, device_ids: &[String]) -> (r: Result<Vec<CameraAvailability>, String>)
        ensures
            r matches Ok(list) && list.len() == device_ids.len() && forall|i: int|
                0 <= i < list.len() ==> {
                    &&& (#[trigger] list@[i]).id@ == device_ids@[i]@
                    &&& !list@[i].connected
                    &&& !list@[i].in_use
                    &&& list@[i].in_use_by@.len() == 0
                },
    {
        let mut list: Vec<CameraAvailability> = Vec::new();
        let mut i: usize = 0;
        while i < device_ids.len()
            invariant
                i <= device_ids.len(),
                list.len() == i,
                forall|k: int|
                    0 <= k < i ==> {
                        &&& (#[trigger] list@[k]).id@ == device_ids@[k]@
                        &&& !list@[k].connected
                        &&& !list@[k].in_use
                        &&& list@[k].in_use_by@.len() == 0
                    },
            decreases device_ids.len() - i,
        {
            list.push(
                CameraAvailability {
                    id: device_ids[i].clone(),
                    connected: false,
                    in_use: false,
                    in_use_by: Vec::new(),
                },
            );
            i = i + 1;
        }
        Ok(list)
    }

    /// Why controls cannot be changed here.
    pub fn set_control_error(&self) -> (e: String)
        ensures
            e@ == "Camera controls are unsupported on this platform"@,
    {
        "Camera controls are unsupported on this platform".to_owned()
    }
}

} // verus!
