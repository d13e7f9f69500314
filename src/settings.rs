use vstd::prelude::*;

verus! {

/// Connection parameters of the remote host.
#[derive(Debug, Clone)]
pub struct Ssh {
    pub host: String,
    pub port: u16,
    pub username: String,
    pub password: String,
}

/// Where the project lives on each side, and where its artifacts are built.
#[derive(Debug, Clone)]
pub struct Compilation {
    pub local_project_root: String,
    pub remote_project_root: String,
    pub output_directory: String,
}

/// One configured shell command and the phase it belongs to.
#[derive(Debug, Clone)]
pub struct Command {
    pub command: String,
    pub description: String,
    pub execute_after_compilation: bool,
}

/// The whole run configuration.
#[derive(Debug, Clone)]
pub struct Settings {
    pub ssh: Ssh,
    pub compilation: Compilation,
    pub commands: Vec<Command>,
}

/// `root` and `sub` joined by a single `/`.
pub open spec fn under_root(root: Seq<char>, sub: Seq<char>) -> Seq<char> {
    root + seq!['/'] + sub
}

impl Compilation {
    /// The remote directory that holds the build artifacts.
    pub fn get_remote_output_directory(&self) -> (r: String)
        ensures
            r@ == under_root(self.remote_project_root@, self.output_directory@),
    {
        proof {
            reveal_strlit("/");
        }
        let mut r = self.remote_project_root.clone();
        r.append("/");
        r.append(self.output_directory.as_str());
        assert(r@ =~= under_root(self.remote_project_root@, self.output_directory@));
        r
    }

    /// The local directory that receives the build artifacts.
    pub fn get_local_output_directory(&self) -> (r: String)
        ensures
            r@ == under_root(self.local_project_root@, self.output_directory@),
    {
        proof {
            reveal_strlit("/");
        }
        let mut r = self.local_project_root.clone();
        r.append("/");
        r.append(self.output_directory.as_str());
        assert(r@ =~= under_root(self.local_project_root@, self.output_directory@));
        r
    }
}

} // verus!
