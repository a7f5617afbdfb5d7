//! Where a run comes from: branch, commit and CI provider.
use vstd::prelude::*;

use crate::text::{chars_of, opt_text, spells, text_of, trim, trim_chars};

verus! {

/// A text, where it is there and not empty.
pub open spec fn nonempty(o: Option<String>) -> Option<Seq<char>> {
    match o {
        Some(s) => if s@.len() > 0 {
            Some(s@)
        } else {
            None
        },
        None => None,
    }
}

/// The first of two that is there.
pub open spec fn first_of_two(a: Option<Seq<char>>, b: Option<Seq<char>>) -> Option<Seq<char>> {
    if a is Some {
        a
    } else {
        b
    }
}

fn keep_nonempty(o: &Option<String>) -> (r: Option<String>)
    ensures
        opt_text(r) == nonempty(*o),
{
    match o {
        Some(s) => if s.as_str().is_empty() {
            None
        } else {
            Some(s.clone())
        },
        None => None,
    }
}

/// What `git rev-parse --abbrev-ref HEAD` says, unless no branch is checked out.
pub open spec fn branch_in(output: Option<String>) -> Option<Seq<char>> {
    match output {
        Some(text) => if trim(text@).len() > 0 && trim(text@) != "HEAD"@ {
            Some(trim(text@))
        } else {
            None
        },
        None => None,
    }
}

/// What `git rev-parse HEAD` says.
pub open spec fn commit_in(output: Option<String>) -> Option<Seq<char>> {
    match output {
        Some(text) => if trim(text@).len() > 0 {
            Some(trim(text@))
        } else {
            None
        },
        None => None,
    }
}

/// The branch of a run: from the CI variables, else from git's output, which is missing where git
/// failed.
pub fn detect_branch(
    github_head_ref: &Option<String>,
    github_ref_name: &Option<String>,
    ci_commit_branch: &Option<String>,
    git_output: &Option<String>,
) -> (r: Option<String>)
    ensures
        opt_text(r) == first_of_two(
            nonempty(*github_head_ref),
            first_of_two(
                nonempty(*github_ref_name),
                first_of_two(nonempty(*ci_commit_branch), branch_in(*git_output)),
            ),
        ),
{
    if let Some(b) = keep_nonempty(github_head_ref) {
        return Some(b);
    }
    if let Some(b) = keep_nonempty(github_ref_name) {
        return Some(b);
    }
    if let Some(b) = keep_nonempty(ci_commit_branch) {
        return Some(b);
    }
    match git_output {
        Some(text) => {
            let branch = trim_chars(&chars_of(text.as_str()));
            if branch.len() > 0 && !spells(&branch, "HEAD") {
                Some(text_of(&branch))
            } else {
                None
            }
        },
        None => None,
    }
}

/// The commit of a run: from the CI variables, else from git's output.
pub fn detect_commit(
    github_sha: &Option<String>,
    ci_commit_sha: &Option<String>,
    git_output: &Option<String>,
) -> (r: Option<String>)
    ensures
        opt_text(r) == first_of_two(
            nonempty(*github_sha),
            first_of_two(nonempty(*ci_commit_sha), commit_in(*git_output)),
        ),
{
    if let Some(c) = keep_nonempty(github_sha) {
        return Some(c);
    }
    if let Some(c) = keep_nonempty(ci_commit_sha) {
        return Some(c);
    }
    match git_output {
        Some(text) => {
            let commit = trim_chars(&chars_of(text.as_str()));
            if commit.len() > 0 {
                Some(text_of(&commit))
            } else {
                None
            }
        },
        None => None,
    }
}

/// Which CI variables are set.
pub struct CiVariables {
    pub github_actions: bool,
    pub gitlab_ci: bool,
    pub circleci: bool,
    pub jenkins_url: bool,
    pub buildkite: bool,
    pub travis: bool,
}

/// The provider that the first variable that is set stands for.
pub open spec fn provider(v: CiVariables) -> Option<Seq<char>> {
    if v.github_actions {
        Some("github-actions"@)
    } else if v.gitlab_ci {
        Some("gitlab"@)
    } else if v.circleci {
        Some("circleci"@)
    } else if v.jenkins_url {
        Some("jenkins"@)
    } else if v.buildkite {
        Some("buildkite"@)
    } else if v.travis {
        Some("travis"@)
    } else {
        None
    }
}

/// The CI provider of a run.
pub fn detect_ci_provider(v: &CiVariables) -> (r: Option<String>)
    ensures
        opt_text(r) == provider(*v),
{
    if v.github_actions {
        Some("github-actions".to_owned())
    } else if v.gitlab_ci {
        Some("gitlab".to_owned())
    } else if v.circleci {
        Some("circleci".to_owned())
    } else if v.jenkins_url {
        Some("jenkins".to_owned())
    } else if v.buildkite {
        Some("buildkite".to_owned())
    } else if v.travis {
        Some("travis".to_owned())
    } else {
        None
    }
}

} // verus!
