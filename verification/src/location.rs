//! Where the backing file lies, and where a backup of it goes.

use vstd::prelude::*;
use vstd::string::StringExecFns;
use crate::errors::{destination_refusal, ClapIoError, Refusal};
use crate::text::chars_of;

verus! {

/// Whether `s` ends with `tail`.
pub open spec fn ends_with(s: Seq<char>, tail: Seq<char>) -> bool {
    s.len() >= tail.len() && s.skip(s.len() - tail.len()) == tail
}

/// `shellexpand::tilde`: a path that does not start with `~`, or in which
/// something other than a separator follows the `~`, comes back unchanged;
/// so does every path where no home directory is known. Otherwise the `~` is
/// replaced by the home directory, so that the result ends with what followed
/// the `~`. Which of the two happens is for the machine to decide.
#[verifier::external_body]
fn expand_home(path: &str) -> (expanded: String)
    ensures
        expanded@ == path@ || (path@.len() > 0 && path@[0] == '~' && (path@.len() == 1 || path@[1]
            == '/' || path@[1] == '\\') && ends_with(expanded@, path@.skip(1))),
{
    shellexpand::tilde(path).to_string()
}

/// The path of the file `name` in the directory `dir`.
pub open spec fn file_in(dir: Seq<char>, name: Seq<char>) -> Seq<char> {
    if dir.len() == 0 || dir.last() == '/' {
        dir + name
    } else {
        dir + seq!['/'] + name
    }
}

/// The name of a backup of the file `name`, made at the time `stamp`.
pub open spec fn backup_name(stamp: Seq<char>, name: Seq<char>) -> Seq<char> {
    "backup-"@ + stamp + "-"@ + name
}

/// The line that confirms a backup.
pub open spec fn backed_up_text(target: Seq<char>) -> Seq<char> {
    "backed up notes to "@ + target
}

/// The line that tells that there is nothing to back up.
pub open spec fn no_backup_text() -> Seq<char> {
    "(no notes to back up! add one first with \"post\")"@
}

/// What a backup is to do.
#[derive(Clone, Debug, PartialEq, Eq)]
pub struct Backup {
    /// The line to show.
    pub line: String,
    /// Where to copy the backing file to, byte for byte; none where there is
    /// no backing file yet.
    pub target: Option<String>,
}

/// What a backup holds.
pub struct BackupPlan {
    pub line: Seq<char>,
    pub target: Option<Seq<char>>,
}

impl View for Backup {
    type V = BackupPlan;

    open spec fn view(&self) -> BackupPlan {
        BackupPlan {
            line: self.line@,
            target: match self.target {
                Some(t) => Some(t@),
                None => None,
            },
        }
    }
}

/// What a backup is to do: nothing where there is no backing file yet; else
/// it fails where the destination is no directory; else it copies the file
/// into the destination under its backup name.
pub open spec fn backup_outcome(
    store_exists: bool,
    destination_is_dir: bool,
    destination: Seq<char>,
    stamp: Seq<char>,
    name: Seq<char>,
) -> Result<BackupPlan, Refusal> {
    if !store_exists {
        Ok(BackupPlan { line: no_backup_text(), target: None })
    } else if !destination_is_dir {
        Err(destination_refusal(destination))
    } else {
        Ok(
            BackupPlan {
                line: backed_up_text(file_in(destination, backup_name(stamp, name))),
                target: Some(file_in(destination, backup_name(stamp, name))),
            },
        )
    }
}

/// The path of the file `name` in the directory `dir`.
pub fn file_path_in(dir: &str, name: &str) -> (path: String)
    ensures
        path@ == file_in(dir@, name@),
{
    let chars = chars_of(dir);
    let mut path = String::new();
    path.append(dir);
    if chars.len() > 0 && chars[chars.len() - 1] != '/' {
        path.push('/');
    }
    path.append(name);
    assert(path@ =~= file_in(dir@, name@));
    path
}

/// The directory of the backing file: `.config/post/` under the home
/// directory, or under `~` as it stands where no home directory is known.
pub fn get_dir_path() -> (dir: String)
    ensures
        dir@ == "~/.config/post/"@ || ends_with(dir@, "/.config/post/"@),
{
    let dir = expand_home("~/.config/post/");
    proof {
        reveal_strlit("~/.config/post/");
        reveal_strlit("/.config/post/");
        assert("~/.config/post/"@.skip(1) =~= "/.config/post/"@);
    }
    dir
}

/// The path of the backing file: `notes.txt` in the directory of
/// `get_dir_path`.
pub fn get_file_path() -> (path: String)
    ensures
        path@ == "~/.config/post/"@ + "notes.txt"@ || ends_with(
            path@,
            "/.config/post/"@ + "notes.txt"@,
        ),
{
    let dir = get_dir_path();
    let path = file_path_in(dir.as_str(), "notes.txt");
    proof {
        reveal_strlit("~/.config/post/");
        reveal_strlit("/.config/post/");
        let tail = "/.config/post/"@;
        let name = "notes.txt"@;
        if dir@ == "~/.config/post/"@ {
            assert(dir@.last() == '/');
        } else {
            let cut = dir@.len() - tail.len();
            assert(dir@.skip(cut) == tail);
            assert(dir@.last() == dir@.skip(cut)[tail.len() - 1]);
            assert(dir@.last() == '/');
            assert(path@ == dir@ + name);
            assert(path@.skip(path@.len() - (tail + name).len()) =~= dir@.skip(cut) + name);
        }
    }
    path
}

/// Plans a backup of the backing file named `file_name` into `destination`,
/// at the local time `stamp`. `store_exists` and `destination_is_dir` say
/// what was found on disk.
pub fn handle_backup(
    store_exists: bool,
    destination_is_dir: bool,
    destination: &str,
    stamp: &str,
    file_name: &str,
) -> (done: Result<Backup, ClapIoError>)
    ensures
        match backup_outcome(store_exists, destination_is_dir, destination@, stamp@, file_name@) {
            Ok(plan) => done is Ok && done->Ok_0@ == plan,
            Err(refusal) => done is Err && done->Err_0@ == refusal,
        },
{
    if !store_exists {
        let line = "(no notes to back up! add one first with \"post\")".to_owned();
        return Ok(Backup { line, target: None });
    }
    if !destination_is_dir {
        return Err(ClapIoError::destination(destination));
    }
    let mut name = String::new();
    name.append("backup-");
    name.append(stamp);
    name.append("-");
    name.append(file_name);
    assert(name@ =~= backup_name(stamp@, file_name@));
    let target = file_path_in(destination, name.as_str());
    let mut line = String::new();
    line.append("backed up notes to ");
    line.append(target.as_str());
    assert(line@ =~= backed_up_text(target@));
    Ok(Backup { line, target: Some(target) })
}

} // verus!
