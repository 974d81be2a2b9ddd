//! Services whose work the window system does: posting notifications and binding
//! keyboard shortcuts.
use vstd::prelude::*;

verus! {

/// Posts notifications to the application's notification list.
pub struct NotificationManager;

/// Registers keyboard shortcuts.
pub struct ShortcutManager;

} // verus!
