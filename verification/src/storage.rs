use vstd::prelude::*;

use crate::paths::{is_joined_path, path_join};
use crate::text::{push_str, string_from_chars};

verus! {

/// The application's data directory inside the platform's data root.
pub fn app_data_directory(data_root: &str) -> (r: String)
    ensures
        is_joined_path(data_root@, "SwagEx"@, r@),
{
    proof {
        reveal_strlit("SwagEx");
    }
    path_join(data_root, "SwagEx")
}

/// The data directory of the first public builds, named after a personal
/// bundle identifier; it is read only to move its contents once.
pub fn legacy_app_data_directory(data_root: &str) -> (r: String)
    ensures
        is_joined_path(data_root@, "com.jmlebret.swagex"@, r@),
{
    proof {
        reveal_strlit("com.jmlebret.swagex");
    }
    path_join(data_root, "com.jmlebret.swagex")
}

/// How the move of the legacy directory starts.
#[derive(Debug, Clone, Copy, PartialEq, Eq)]
pub enum MigrationStart {
    /// There is no legacy directory.
    NothingToMove,
    /// The current directory does not exist: the legacy one is renamed to it.
    RenameWhole,
    /// Both exist: the legacy contents are merged into the current ones,
    /// then the legacy directory is removed if it is left empty.
    Merge,
}

/// Decides how the legacy data directory is moved to the current one.
pub fn migration_start(legacy_exists: bool, current_exists: bool) -> (r: MigrationStart)
    ensures
        !legacy_exists ==> r == MigrationStart::NothingToMove,
        legacy_exists && !current_exists ==> r == MigrationStart::RenameWhole,
        legacy_exists && current_exists ==> r == MigrationStart::Merge,
{
    if !legacy_exists {
        MigrationStart::NothingToMove
    } else if !current_exists {
        MigrationStart::RenameWhole
    } else {
        MigrationStart::Merge
    }
}

/// What stands at a path.
#[derive(Debug, Clone, Copy, PartialEq, Eq)]
pub enum EntryKind {
    Directory,
    File,
    /// Anything else that exists there, such as a broken link.
    Other,
}

/// What the merge does with one legacy entry.
#[derive(Debug, Clone, Copy, PartialEq, Eq)]
pub enum MergeStep {
    /// Create the destination directory if needed, merge each entry of the
    /// source directory into it, then remove the source if it is left empty.
    Descend,
    /// Nothing is at the destination: rename the source to it.
    MoveSource,
    /// A file is at the destination: compare the two files' contents.
    CompareContents,
}

/// Why the merge stops: it never overwrites current data.
#[derive(Debug, Clone, Copy, PartialEq, Eq)]
pub enum MigrationRefusal {
    /// A legacy directory meets something that is not a directory.
    Conflict,
    /// A legacy file meets different data at its destination.
    WouldOverwrite,
}

impl MigrationRefusal {
    /// The message shown for this refusal, naming the paths involved.
    pub fn message(&self, source: &str, destination: &str) -> (m: String)
        ensures
            m@ == match self {
                MigrationRefusal::Conflict => "La migration SwagEx a trouvé un conflit entre "@ + source@
                    + " et "@ + destination@ + "."@,
                MigrationRefusal::WouldOverwrite => "La migration SwagEx refuse d’écraser le fichier existant "@
                    + destination@ + "."@,
            },
    {
        let mut out: Vec<char> = Vec::new();
        match self {
            MigrationRefusal::Conflict => {
                push_str(&mut out, "La migration SwagEx a trouvé un conflit entre ");
                push_str(&mut out, source);
                push_str(&mut out, " et ");
                push_str(&mut out, destination);
                push_str(&mut out, ".");
            },
            MigrationRefusal::WouldOverwrite => {
                push_str(&mut out, "La migration SwagEx refuse d’écraser le fichier existant ");
                push_str(&mut out, destination);
                push_str(&mut out, ".");
            },
        }
        string_from_chars(&out)
    }
}

/// Decides what the merge does with a legacy entry, given what stands at its
/// destination. A directory merges into a directory or into nothing; a file
/// moves only where nothing stands, and is compared with a file that does.
pub fn merge_step(source_is_directory: bool, destination: Option<EntryKind>) -> (r: Result<MergeStep, MigrationRefusal>)
    ensures
        source_is_directory ==> (match destination {
            None => r == Ok::<MergeStep, MigrationRefusal>(MergeStep::Descend),
            Some(EntryKind::Directory) => r == Ok::<MergeStep, MigrationRefusal>(MergeStep::Descend),
            Some(_) => r == Err::<MergeStep, MigrationRefusal>(MigrationRefusal::Conflict),
        }),
        !source_is_directory ==> (match destination {
            None => r == Ok::<MergeStep, MigrationRefusal>(MergeStep::MoveSource),
            Some(EntryKind::File) => r == Ok::<MergeStep, MigrationRefusal>(MergeStep::CompareContents),
            Some(_) => r == Err::<MergeStep, MigrationRefusal>(MigrationRefusal::WouldOverwrite),
        }),
{
    if source_is_directory {
        match destination {
            None => Ok(MergeStep::Descend),
            Some(EntryKind::Directory) => Ok(MergeStep::Descend),
            Some(_) => Err(MigrationRefusal::Conflict),
        }
    } else {
        match destination {
            None => Ok(MergeStep::MoveSource),
            Some(EntryKind::File) => Ok(MergeStep::CompareContents),
            Some(_) => Err(MigrationRefusal::WouldOverwrite),
        }
    }
}

/// A legacy file whose destination holds the same bytes is simply removed;
/// one whose destination holds other bytes is refused.
pub fn compare_step(source: &[u8], destination: &[u8]) -> (r: Result<(), MigrationRefusal>)
    ensures
        r is Ok <==> source@ == destination@,
        r is Err ==> r == Err::<(), MigrationRefusal>(MigrationRefusal::WouldOverwrite),
{
    if source.len() != destination.len() {
        return Err(MigrationRefusal::WouldOverwrite);
    }
    let mut i: usize = 0;
    while i < source.len()
        invariant
            i <= source@.len(),
            source@.len() == destination@.len(),
            forall|j: int| 0 <= j < i ==> source@[j] == destination@[j],
        decreases source@.len() - i,
    {
        if source[i] != destination[i] {
            return Err(MigrationRefusal::WouldOverwrite);
        }
        i += 1;
    }
    assert(source@ =~= destination@);
    Ok(())
}

/// A directory is removed after the merge only where it is left empty.
pub fn removes_directory(is_directory: bool, has_entries: bool) -> (r: bool)
    ensures
        r == (is_directory && !has_entries),
{
    is_directory && !has_entries
}

} // verus!
