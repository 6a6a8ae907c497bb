//! The takeover of the system resolver configuration file: what to do
//! with the file found at its path before writing the local resolver's
//! address into it. The decision is taken here; reading the file kind
//! and carrying the actions out stay with the caller.

use vstd::prelude::*;

verus! {

/// What stands at the resolver configuration path.
#[derive(Clone, Copy, Debug, PartialEq, Eq, Structural)]
pub enum ResolvFileKind {
    Missing,
    Symlink,
    RegularFile,
    OtherKind,
}

/// What to do with it, before writing the new contents.
#[derive(Clone, Copy, Debug, PartialEq, Eq, Structural)]
pub enum ResolvPlan {
    /// Nothing stands there: write the new file.
    WriteOnly,
    /// A symbolic link stands there: delete it, then write.
    DeleteThenWrite,
    /// A regular file with a backup already kept: delete it, then write.
    RemoveExistingThenWrite,
    /// A regular file and no backup yet: keep it as the backup, then
    /// write.
    RenameToBackupThenWrite,
    /// Anything else is a fatal state.
    Fatal,
}

/// The path of the resolver configuration file.
pub fn resolver_conf_path() -> (r: &'static str) {
    "/etc/resolv.conf"
}

/// The path the original file is kept under.
pub fn resolver_conf_backup_path() -> (r: &'static str) {
    "/etc/resolv.conf.ld_back"
}

/// The contents the resolver writes: itself as the only nameserver.
pub fn resolver_conf_content() -> (r: &'static str)
    ensures
        r@ == "nameserver 127.0.0.1\n"@,
{
    "nameserver 127.0.0.1\n"
}

/// What to do with the file of kind `kind` at the resolver path, given
/// whether a backup of it already exists: a symbolic link is deleted; a
/// regular file is deleted when a backup exists and becomes the backup
/// when none does; a missing file is simply written; any other kind is
/// fatal.
pub fn resolv_conf_plan(kind: ResolvFileKind, backup_exists: bool) -> (r: ResolvPlan)
    ensures
        kind == ResolvFileKind::Symlink ==> r == ResolvPlan::DeleteThenWrite,
        kind == ResolvFileKind::Missing ==> r == ResolvPlan::WriteOnly,
        kind == ResolvFileKind::RegularFile && backup_exists ==> r
            == ResolvPlan::RemoveExistingThenWrite,
        kind == ResolvFileKind::RegularFile && !backup_exists ==> r
            == ResolvPlan::RenameToBackupThenWrite,
        kind == ResolvFileKind::OtherKind ==> r == ResolvPlan::Fatal,
{
    match kind {
        ResolvFileKind::Symlink => ResolvPlan::DeleteThenWrite,
        ResolvFileKind::Missing => ResolvPlan::WriteOnly,
        ResolvFileKind::RegularFile => {
            if backup_exists {
                ResolvPlan::RemoveExistingThenWrite
            } else {
                ResolvPlan::RenameToBackupThenWrite
            }
        },
        ResolvFileKind::OtherKind => ResolvPlan::Fatal,
    }
}

} // verus!
