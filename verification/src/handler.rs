//! What every backend presents: restorable items, and the choice of backend.

use vstd::prelude::*;

use crate::datetime::DateTime;

verus! {

/// The ghost shape of a restorable item.
pub struct RestorableView {
    pub id: Seq<u8>,
    pub original_path: Seq<u8>,
    pub display_name: Seq<u8>,
    pub deleted_at: Option<DateTime>,
}

/// An item in the trash that can be restored.
pub struct RestorableItem {
    /// Backend-local stable key; meaningful only to the backend that made it.
    pub id: Vec<u8>,
    /// The absolute path the item had before it was trashed.
    pub original_path: Vec<u8>,
    /// The file name shown when listing.
    pub display_name: Vec<u8>,
    /// When the item was trashed, where known.
    pub deleted_at: Option<DateTime>,
}

impl View for RestorableItem {
    type V = RestorableView;

    open spec fn view(&self) -> RestorableView {
        RestorableView {
            id: self.id@,
            original_path: self.original_path@,
            display_name: self.display_name@,
            deleted_at: self.deleted_at,
        }
    }
}

impl DeepView for RestorableItem {
    type V = RestorableView;

    open spec fn deep_view(&self) -> RestorableView {
        self@
    }
}

/// The filter pattern as a ghost value.
pub open spec fn pat_of(filter: Option<&Vec<u8>>) -> Option<Seq<u8>> {
    match filter {
        Some(p) => Some(p@),
        None => None,
    }
}

/// The two ways of trashing something.
#[derive(Clone, Copy, Debug, PartialEq, Eq, Structural)]
pub enum BackendChoice {
    /// The self-managed holding area.
    Managed,
    /// The operating system's trash facility.
    Os,
}

/// The platforms the heuristic distinguishes.
#[derive(Clone, Copy, Debug, PartialEq, Eq, Structural)]
pub enum Platform {
    MacOs,
    Linux,
    Other,
}

/// `os`, the override value naming the platform backend.
pub open spec fn os_word() -> Seq<u8> {
    seq![111u8, 115u8]
}

/// `managed`, the override value naming the holding-area backend.
pub open spec fn managed_word() -> Seq<u8> {
    seq![109u8, 97u8, 110u8, 97u8, 103u8, 101u8, 100u8]
}

/// The platform heuristic: the OS trash is used where the platform
/// guarantees one — always on macOS, and on Linux only inside a desktop
/// session; anywhere else the holding area is used.
pub fn should_use_os_trash(platform: Platform, has_desktop: bool) -> (r: bool)
    ensures
        r == (platform == Platform::MacOs || (platform == Platform::Linux && has_desktop)),
{
    match platform {
        Platform::MacOs => true,
        Platform::Linux => has_desktop,
        Platform::Other => false,
    }
}

/// The backend the heuristic picks.
pub open spec fn heuristic_choice(platform: Platform, has_desktop: bool) -> BackendChoice {
    if platform == Platform::MacOs || (platform == Platform::Linux && has_desktop) {
        BackendChoice::Os
    } else {
        BackendChoice::Managed
    }
}

/// Picks the backend: a recognized override wins; an unrecognized one is
/// reported (the second result) and ignored; otherwise the platform
/// heuristic decides. Never a failure.
pub fn create_handler(override_value: Option<&Vec<u8>>, platform: Platform, has_desktop: bool) -> (r:
    (BackendChoice, bool))
    ensures
        match override_value {
            Some(w) => {
                &&& w@ == os_word() ==> r == (BackendChoice::Os, false)
                &&& w@ == managed_word() ==> r == (BackendChoice::Managed, false)
                &&& (w@ != os_word() && w@ != managed_word()) ==> r == (
                    heuristic_choice(platform, has_desktop),
                    true,
                )
            },
            None => r == (heuristic_choice(platform, has_desktop), false),
        },
{
    let mut os_w: Vec<u8> = Vec::new();
    os_w.push(111);
    os_w.push(115);
    proof {
        assert(os_w@ =~= os_word());
    }
    let mut managed_w: Vec<u8> = Vec::new();
    managed_w.push(109);
    managed_w.push(97);
    managed_w.push(110);
    managed_w.push(97);
    managed_w.push(103);
    managed_w.push(101);
    managed_w.push(100);
    proof {
        assert(managed_w@ =~= managed_word());
    }
    match override_value {
        Some(w) => {
            if crate::bytes::bytes_eq(w.as_slice(), os_w.as_slice()) {
                (BackendChoice::Os, false)
            } else if crate::bytes::bytes_eq(w.as_slice(), managed_w.as_slice()) {
                (BackendChoice::Managed, false)
            } else {
                (
                    if should_use_os_trash(platform, has_desktop) {
                        BackendChoice::Os
                    } else {
                        BackendChoice::Managed
                    },
                    true,
                )
            }
        },
        None => (
            if should_use_os_trash(platform, has_desktop) {
                BackendChoice::Os
            } else {
                BackendChoice::Managed
            },
            false,
        ),
    }
}

} // verus!
