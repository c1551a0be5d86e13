//! The button-less info notices: what each one says, twice — once on the fading toast and
//! once in the status bar, whose status role is what a screen reader announces.

use vstd::prelude::*;

verus! {

/// The icon a notice carries.
#[derive(Clone, Copy, PartialEq, Eq, Debug, Structural)]
pub enum NoticeIcon {
    DialogWarning,
    ViewRefresh,
    DocumentSave,
}

/// One info notice: its icon, the toast's sentence, and the status bar's shorter line.
pub struct InfoNotice {
    pub icon: NoticeIcon,
    pub toast_text: &'static str,
    pub status_text: &'static str,
}

/// The crash-recovery safety net stopped working for a document. Worded around the net, not
/// the document: the file is untouched and still saveable.
pub fn show_swap_failure_toast() -> (n: InfoNotice)
    ensures
        n.icon == NoticeIcon::DialogWarning,
        n.toast_text@ == "Unsaved changes are not being backed up."@,
        n.status_text@ == "Unsaved changes are not being backed up"@,
{
    InfoNotice {
        icon: NoticeIcon::DialogWarning,
        toast_text: "Unsaved changes are not being backed up.",
        status_text: "Unsaved changes are not being backed up",
    }
}

/// A clean reload just replaced the content under the reader.
pub fn show_reload_toast() -> (n: InfoNotice)
    ensures
        n.icon == NoticeIcon::ViewRefresh,
        n.toast_text@ == "File reloaded from disk."@,
        n.status_text@ == "File reloaded"@,
{
    InfoNotice { icon: NoticeIcon::ViewRefresh, toast_text: "File reloaded from disk.", status_text: "File reloaded" }
}

/// A write succeeded. Save is otherwise silent on success, and the only other feedback —
/// the unsaved indicator clearing — is an absence.
pub fn show_saved_toast() -> (n: InfoNotice)
    ensures
        n.icon == NoticeIcon::DocumentSave,
        n.toast_text@ == "File saved."@,
        n.status_text@ == "File saved"@,
{
    InfoNotice { icon: NoticeIcon::DocumentSave, toast_text: "File saved.", status_text: "File saved" }
}

} // verus!
