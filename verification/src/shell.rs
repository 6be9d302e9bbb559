use vstd::prelude::*;
use crate::config::Config;
use crate::text::concat;

verus! {

/// Where the shell project lives inside a project.
pub open spec fn shell_dir(project_path: Seq<char>) -> Seq<char> {
    project_path + "/target/android-shell"@
}

/// The project's `target` directory, which receives the shell project.
pub fn target_dir(config: &Config) -> (r: String)
    ensures
        r@ == config.project_path@ + "/target"@,
{
    concat(config.project_path_str(), "/target")
}

/// The directory of the shell project inside a project.
pub fn android_shell_dir(project_path: &str) -> (r: String)
    ensures
        r@ == shell_dir(project_path@),
{
    concat(project_path, "/target/android-shell")
}

/// The archive of the shell project inside a project.
pub fn android_shell_zip(project_path: &str) -> (r: String)
    ensures
        r@ == project_path@ + "/target/android-shell.zip"@,
{
    concat(project_path, "/target/android-shell.zip")
}

/// The shell project's archive sits beside its directory, named after it
/// with `.zip` added.
pub proof fn lemma_zip_beside_dir(project_path: Seq<char>)
    ensures
        project_path + "/target/android-shell.zip"@ == shell_dir(project_path) + ".zip"@,
{
    reveal_strlit("/target/android-shell.zip");
    reveal_strlit("/target/android-shell");
    reveal_strlit(".zip");
    assert(project_path + "/target/android-shell.zip"@ =~= shell_dir(project_path) + ".zip"@);
}

} // verus!
