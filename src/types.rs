//! Values handed back to callers of the bridge.
use vstd::prelude::*;

verus! {

/// A handler registered to open files of some extension.
#[derive(Clone, Debug, PartialEq, Eq)]
pub struct OpenWithApp {
    /// Selector passed back to open a file with this handler.
    pub id: String,
    /// Name shown to the user; the same text as `id` on this platform.
    pub name: String,
    /// Icon of the handler; never filled in here.
    pub icon: Option<String>,
}

/// Outcome of an attempt to open a file.
#[derive(Clone, Debug, PartialEq, Eq)]
pub enum OpenResult {
    Success,
    PlatformError { message: String },
    AppNotFound { app_id: String },
}

impl OpenWithApp {
    /// The entry for a handler known by `name`: `name` serves as the selector
    /// and as the shown name, and no icon is attached.
    pub open spec fn describes(self, name: Seq<char>) -> bool {
        &&& self.id@ == name
        &&& self.name@ == name
        &&& self.icon is None
    }
}

/// `apps` holds one entry for each of `names`, in the same order.
pub open spec fn entries_for(apps: Seq<OpenWithApp>, names: Seq<Seq<char>>) -> bool {
    &&& apps.len() == names.len()
    &&& forall|i: int| 0 <= i < names.len() ==> (#[trigger] apps[i]).describes(names[i])
}

/// `r` is a platform error whose message reads `message`.
pub open spec fn is_platform_error(r: OpenResult, message: Seq<char>) -> bool {
    match r {
        OpenResult::PlatformError { message: m } => m@ == message,
        _ => false,
    }
}

} // verus!
