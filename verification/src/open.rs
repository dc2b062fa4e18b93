//! Choosing the web page to open for a repository: the repository itself,
//! one of its commits, or one of its branches.

use vstd::prelude::*;
use vstd::string::*;
use crate::url::{branch_url, commit_url, repo_url, spec_parse, Remote, RemoteView};

verus! {

/// What to open.
#[derive(Clone, Debug, PartialEq, Eq)]
pub enum OpenTarget {
    Remote,
    Commit(String),
    Branch(String),
}

/// Why no page could be chosen.
#[derive(Clone, Debug, PartialEq, Eq)]
pub enum OpenError {
    /// The branch that was asked for is not known for the remote.
    BranchNotFound { branch: String, remote: String },
    /// The remote has no URL, or none that can be read.
    RemoteNotFound { remote: String },
}

/// The web address of a target within a repository.
pub open spec fn spec_target_url(remote: RemoteView, target: OpenTarget) -> Seq<char> {
    match target {
        OpenTarget::Remote => repo_url(remote),
        OpenTarget::Commit(commit_id) => commit_url(remote, commit_id@),
        OpenTarget::Branch(branch_name) => branch_url(remote, branch_name@),
    }
}

/// The name under which a repository keeps a branch of a remote.
pub open spec fn spec_branch_reference(remote_name: Seq<char>, branch: Seq<char>) -> Seq<char> {
    "refs/remotes/"@ + remote_name + "/"@ + branch
}

/// The branch whose reference must exist before anything is opened: the
/// one that was asked for, if one was.
pub open spec fn spec_required_branch(target: OpenTarget) -> Option<Seq<char>> {
    match target {
        OpenTarget::Branch(branch_name) => Some(branch_name@),
        _ => None,
    }
}

impl OpenError {
    /// The error as one line of text.
    pub fn message(&self) -> (r: String)
        ensures
            r@ == match *self {
                OpenError::BranchNotFound { branch, remote } => "Error: Branch '"@ + branch@
                    + "' not found in remote '"@ + remote@ + "'"@,
                OpenError::RemoteNotFound { remote } => "Error: Remote '"@ + remote@
                    + "' not found"@,
            },
    {
        match self {
            OpenError::BranchNotFound { branch, remote } => {
                let mut text = String::from_str("Error: Branch '");
                text.append(branch.as_str());
                text.append("' not found in remote '");
                text.append(remote.as_str());
                text.append("'");
                text
            },
            OpenError::RemoteNotFound { remote } => {
                let mut text = String::from_str("Error: Remote '");
                text.append(remote.as_str());
                text.append("' not found");
                text
            },
        }
    }
}

/// The web address of a target within a repository.
pub fn target_url(remote: &Remote, target: &OpenTarget) -> (r: String)
    ensures
        r@ == spec_target_url(remote@, *target),
{
    match target {
        OpenTarget::Remote => remote.get_repo_url(),
        OpenTarget::Commit(commit_id) => remote.get_commit_url(commit_id.as_str()),
        OpenTarget::Branch(branch_name) => remote.get_branch_url(branch_name.as_str()),
    }
}

/// The name under which a repository keeps a branch of a remote.
pub fn branch_reference(remote_name: &str, branch: &str) -> (r: String)
    ensures
        r@ == spec_branch_reference(remote_name@, branch@),
{
    let mut name = String::from_str("refs/remotes/");
    name.append(remote_name);
    name.append("/");
    name.append(branch);
    name
}

/// The reference that must exist before a target is opened, if the target
/// needs one.
pub fn required_reference(remote_name: &str, target: &OpenTarget) -> (r: Option<String>)
    ensures
        match r {
            Some(name) => spec_required_branch(*target).is_some() && name@
                == spec_branch_reference(remote_name@, spec_required_branch(*target).unwrap()),
            None => spec_required_branch(*target).is_none(),
        },
{
    match target {
        OpenTarget::Branch(branch_name) => Some(
            branch_reference(remote_name, branch_name.as_str()),
        ),
        _ => None,
    }
}

/// Chooses the page to open from what the repository told:
/// `reference_exists` says whether the reference of
/// [`required_reference`] is there, and `remote_url` is the URL of the
/// remote.
///
/// A branch that was asked for and is not there is an error before
/// anything else is looked at. Otherwise the remote's URL and the target
/// that was asked for decide the page; without a URL that can be read there
/// is no page.
pub fn open_url(
    remote_name: &str,
    target: OpenTarget,
    reference_exists: bool,
    remote_url: Option<&str>,
) -> (r: Result<String, OpenError>)
    ensures
        match r {
            Ok(url) => {
                &&& spec_required_branch(target).is_some() ==> reference_exists
                &&& remote_url.is_some()
                &&& spec_parse(remote_url.unwrap()@).is_ok()
                &&& url@ == spec_target_url(spec_parse(remote_url.unwrap()@).unwrap(), target)
            },
            Err(OpenError::BranchNotFound { branch, remote }) => {
                &&& spec_required_branch(target) == Some(branch@)
                &&& !reference_exists
                &&& remote@ == remote_name@
            },
            Err(OpenError::RemoteNotFound { remote }) => {
                &&& spec_required_branch(target).is_some() ==> reference_exists
                &&& (remote_url.is_none() || spec_parse(remote_url.unwrap()@).is_err())
                &&& remote@ == remote_name@
            },
        },
{
    match &target {
        OpenTarget::Branch(branch_name) => {
            if !reference_exists {
                return Err(
                    OpenError::BranchNotFound {
                        branch: branch_name.clone(),
                        remote: String::from_str(remote_name),
                    },
                );
            }
        },
        _ => {},
    }
    let parsed = match remote_url {
        Some(url) => Remote::parse(url),
        None => None,
    };
    match parsed {
        Some(remote) => Ok(target_url(&remote, &target)),
        None => Err(OpenError::RemoteNotFound { remote: String::from_str(remote_name) }),
    }
}

} // verus!
