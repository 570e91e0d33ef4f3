//! What the forge's command line is asked. The pull request is the authoritative source of
//! the base.

use vstd::prelude::*;
use crate::text::number::{decimal, show};
use crate::text::search::{contains, has_text};
use crate::text::split::{owned, texts};

verus! {

/// A pull request.
#[derive(Debug)]
pub struct Pr {
    pub number: u64,
    pub title: String,
    pub base_ref_name: String,
    pub head_ref_name: String,
    pub head_ref_oid: String,
    pub is_draft: bool,
    pub url: String,
}

/// A pull request in a list.
#[derive(Debug)]
pub struct PrBrief {
    pub number: u64,
    pub title: String,
    pub is_draft: bool,
    pub head_ref_name: String,
    pub updated_at: String,
}

/// The arguments that ask for the name of the repository.
pub fn repo_slug() -> (r: Vec<String>)
    ensures
        texts(r@) == seq!["repo"@, "view"@, "--json"@, "nameWithOwner"@],
{
    let args = owned(&["repo", "view", "--json", "nameWithOwner"]);
    assert(texts(args@) =~= seq!["repo"@, "view"@, "--json"@, "nameWithOwner"@]);
    args
}

/// The arguments that ask for the pull request of a branch.
pub fn pr_for_branch(branch: &str) -> (r: Vec<String>)
    ensures
        texts(r@) == seq![
            "pr"@,
            "view"@,
            branch@,
            "--json"@,
            "number,title,baseRefName,headRefName,headRefOid,isDraft,url"@,
        ],
{
    let args = owned(
        &[
            "pr",
            "view",
            branch,
            "--json",
            "number,title,baseRefName,headRefName,headRefOid,isDraft,url",
        ],
    );
    assert(texts(args@) =~= seq![
        "pr"@,
        "view"@,
        branch@,
        "--json"@,
        "number,title,baseRefName,headRefName,headRefOid,isDraft,url"@,
    ]);
    args
}

/// Whether a failure to show a pull request means that there is none.
pub fn says_no_pull_request(message: &str) -> (r: bool)
    ensures
        r == (has_text(message@, "no pull requests found"@) || has_text(
            message@,
            "no open pull requests"@,
        )),
{
    contains(message, "no pull requests found") || contains(message, "no open pull requests")
}

/// The arguments that mark a pull request ready.
pub fn pr_ready(number: u64) -> (r: Vec<String>)
    ensures
        texts(r@) == seq!["pr"@, "ready"@, decimal(number as nat)],
{
    let n = show(number);
    let args = owned(&["pr", "ready", n.as_str()]);
    assert(texts(args@) =~= seq!["pr"@, "ready"@, decimal(number as nat)]);
    args
}

/// The arguments that ask for the description of a pull request as it stands right now. It
/// is read when it is needed: whatever was written in the meantime is not ours to discard.
pub fn pr_body(number: u64) -> (r: Vec<String>)
    ensures
        texts(r@) == seq!["pr"@, "view"@, decimal(number as nat), "--json"@, "body"@],
{
    let n = show(number);
    let args = owned(&["pr", "view", n.as_str(), "--json", "body"]);
    assert(texts(args@) =~= seq!["pr"@, "view"@, decimal(number as nat), "--json"@, "body"@]);
    args
}

/// The arguments that give a pull request the description in a file.
pub fn pr_set_body(number: u64, body_file: &str) -> (r: Vec<String>)
    ensures
        texts(r@) == seq!["pr"@, "edit"@, decimal(number as nat), "--body-file"@, body_file@],
{
    let n = show(number);
    let args = owned(&["pr", "edit", n.as_str(), "--body-file", body_file]);
    assert(texts(args@) =~= seq![
        "pr"@,
        "edit"@,
        decimal(number as nat),
        "--body-file"@,
        body_file@,
    ]);
    args
}

/// The arguments that ask for the commit subjects of a pull request.
pub fn pr_commits(number: u64) -> (r: Vec<String>)
    ensures
        texts(r@) == seq!["pr"@, "view"@, decimal(number as nat), "--json"@, "commits"@],
{
    let n = show(number);
    let args = owned(&["pr", "view", n.as_str(), "--json", "commits"]);
    assert(texts(args@) =~= seq!["pr"@, "view"@, decimal(number as nat), "--json"@, "commits"@]);
    args
}

/// The arguments that ask for your open pull requests.
pub fn my_open_prs() -> (r: Vec<String>)
    ensures
        texts(r@) == seq![
            "pr"@,
            "list"@,
            "--author"@,
            "@me"@,
            "--state"@,
            "open"@,
            "--json"@,
            "number,title,isDraft,headRefName,updatedAt"@,
        ],
{
    let args = owned(
        &[
            "pr",
            "list",
            "--author",
            "@me",
            "--state",
            "open",
            "--json",
            "number,title,isDraft,headRefName,updatedAt",
        ],
    );
    assert(texts(args@) =~= seq![
        "pr"@,
        "list"@,
        "--author"@,
        "@me"@,
        "--state"@,
        "open"@,
        "--json"@,
        "number,title,isDraft,headRefName,updatedAt"@,
    ]);
    args
}

} // verus!
