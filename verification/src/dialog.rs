//! Native file dialogs: how a dialog is presented and what request the
//! desktop file-chooser portal receives for each flavour. Showing the dialog
//! (a blocking D-Bus exchange) is the caller's part.

use vstd::prelude::*;

verus! {

/// How a file dialog should be presented.
#[derive(Clone, Debug)]
pub struct FileDialog {
    /// Window title for the dialog (empty: the flavour's default title).
    pub title: String,
}

impl Default for FileDialog {
    /// A dialog with the default title.
    fn default() -> (d: Self)
        ensures
            d.title@ == Seq::<char>::empty(),
    {
        FileDialog::new()
    }
}

impl FileDialog {
    /// A dialog with the default title.
    pub fn new() -> (d: Self)
        ensures
            d.title@ == Seq::<char>::empty(),
    {
        FileDialog { title: String::new() }
    }

    /// The same dialog with `title`.
    pub fn with_title(self, title: &str) -> (d: Self)
        ensures
            d.title@ == title@,
    {
        FileDialog { title: title.to_owned() }
    }
}

/// Which dialog flavour to present.
#[derive(Clone, Copy, Debug, PartialEq, Eq, Structural)]
pub enum Op {
    Open,
    Save,
    Folder,
}

/// The dialog's title, or `default` when none was set.
pub fn title_or(opts: &FileDialog, default: &str) -> (t: String)
    ensures
        t@ == (if opts.title@.len() == 0 { default@ } else { opts.title@ }),
{
    if opts.title.as_str().is_empty() {
        default.to_owned()
    } else {
        opts.title.clone()
    }
}

/// A call of `org.freedesktop.portal.FileChooser`: the method, the dialog
/// title, and whether directories are chosen.
#[derive(Debug)]
pub struct PortalRequest {
    pub member: String,
    pub title: String,
    pub directory: bool,
}

/// The portal method of each flavour: folders are picked with `OpenFile` in
/// directory mode.
pub open spec fn portal_member(op: Op) -> Seq<char> {
    match op {
        Op::Open => "OpenFile"@,
        Op::Save => "SaveFile"@,
        Op::Folder => "OpenFile"@,
    }
}

/// The default title of each flavour.
pub open spec fn default_title(op: Op) -> Seq<char> {
    match op {
        Op::Open => "Open File"@,
        Op::Save => "Save File"@,
        Op::Folder => "Select Folder"@,
    }
}

/// The portal request that presents dialog `opts` as flavour `op`.
pub fn file_chooser_request(op: Op, opts: &FileDialog) -> (r: PortalRequest)
    ensures
        r.member@ == portal_member(op),
        r.title@ == (if opts.title@.len() == 0 { default_title(op) } else { opts.title@ }),
        r.directory == (op == Op::Folder),
{
    let (member, directory, default) = match op {
        Op::Open => ("OpenFile", false, "Open File"),
        Op::Save => ("SaveFile", false, "Save File"),
        Op::Folder => ("OpenFile", true, "Select Folder"),
    };
    PortalRequest { member: member.to_owned(), title: title_or(opts, default), directory }
}

/// The request to choose an existing file to open.
pub fn open_file_request(opts: &FileDialog) -> (r: PortalRequest)
    ensures
        r.member@ == portal_member(Op::Open),
        r.title@ == (if opts.title@.len() == 0 { default_title(Op::Open) } else { opts.title@ }),
        !r.directory,
{
    file_chooser_request(Op::Open, opts)
}

/// The request to choose a destination to save a file.
pub fn save_file_request(opts: &FileDialog) -> (r: PortalRequest)
    ensures
        r.member@ == portal_member(Op::Save),
        r.title@ == (if opts.title@.len() == 0 { default_title(Op::Save) } else { opts.title@ }),
        !r.directory,
{
    file_chooser_request(Op::Save, opts)
}

/// The request to choose a directory.
pub fn pick_folder_request(opts: &FileDialog) -> (r: PortalRequest)
    ensures
        r.member@ == portal_member(Op::Folder),
        r.title@ == (if opts.title@.len() == 0 { default_title(Op::Folder) } else { opts.title@ }),
        r.directory,
{
    file_chooser_request(Op::Folder, opts)
}

} // verus!
