//! Git hook and CI workflow texts, and the decisions around installing
//! and removing the pre-commit hook (the files themselves are written by
//! the application).

use vstd::prelude::*;
use crate::error::Error;
use crate::outside::{joined, path_join};
use crate::text::{chars_of, contains, contains_str, push_str, string_of};

verus! {

/// The advisory pre-commit hook.
pub const PRE_COMMIT_HOOK: &'static str = "#!/bin/sh\n# req pre-commit hook (advisory mode)\necho \"Checking traceability...\"\nreq check\nexit 0\n";

/// The strict pre-commit hook.
pub const PRE_COMMIT_HOOK_STRICT: &'static str = "#!/bin/sh\n# req pre-commit hook (strict mode)\necho \"Checking traceability (strict mode)...\"\nreq check --strict\nexit $?\n";

/// The GitHub Actions workflow.
pub const GITHUB_WORKFLOW: &'static str = "name: Traceability Check\n\non:\n  pull_request:\n    branches: [main, release/*]\n  push:\n    branches: [main, release/*]\n\njobs:\n  check:\n    runs-on: ubuntu-latest\n    steps:\n      - uses: actions/checkout@v4\n\n      - name: Install req\n        run: |\n          curl -sSL https://github.com/twuerfl/req/releases/latest/download/req-linux-x86_64 -o req\n          chmod +x req\n          sudo mv req /usr/local/bin/\n\n      - name: Check traceability\n        run: req check --strict\n";

/// The GitLab CI snippet.
pub const GITLAB_WORKFLOW: &'static str = "# Traceability Check — add to your .gitlab-ci.yml\n\ntraceability:\n  stage: test\n  script:\n    - curl -sSL https://github.com/twuerfl/req/releases/latest/download/req-linux-x86_64 -o req\n    - chmod +x req\n    - ./req check --strict\n  rules:\n    - if: $CI_COMMIT_BRANCH == \"main\"\n    - if: $CI_COMMIT_BRANCH =~ /^release\\//\n";

/// Install the pre-commit hook: its text (strict or advisory), unless a
/// hook already exists.
pub fn install_hook(strict: bool, hook_exists: bool) -> (r: Result<&'static str, Error>)
    ensures
        hook_exists ==> (r matches Err(Error::Config(m))
            && m@ == "pre-commit hook already exists. Remove it first."@),
        !hook_exists ==> (r matches Ok(t) && t@ == if strict {
            PRE_COMMIT_HOOK_STRICT@
        } else {
            PRE_COMMIT_HOOK@
        }),
{
    if hook_exists {
        return Err(Error::Config("pre-commit hook already exists. Remove it first.".to_owned()));
    }
    if strict {
        Ok(PRE_COMMIT_HOOK_STRICT)
    } else {
        Ok(PRE_COMMIT_HOOK)
    }
}

/// Remove the pre-commit hook, given its text if there is one: `false`
/// (nothing to remove) without a hook, `true` for a hook that runs
/// `req check`, an error for any other hook.
pub fn uninstall_hook(existing: Option<&str>) -> (r: Result<bool, Error>)
    ensures
        match existing {
            None => r == Ok::<bool, Error>(false),
            Some(c) => if contains(c@, "req check"@) {
                r == Ok::<bool, Error>(true)
            } else {
                r matches Err(Error::Config(m)) && m@ == "pre-commit hook is not managed by req"@
            },
        },
{
    match existing {
        None => Ok(false),
        Some(c) => {
            let cc = chars_of(c);
            if contains_str(cc.as_slice(), "req check") {
                Ok(true)
            } else {
                Err(Error::Config("pre-commit hook is not managed by req".to_owned()))
            }
        },
    }
}

/// The CI workflow file to write for a CI type below `output_dir`: its
/// path and text.  `github`/`gh` and `gitlab` are supported.
pub fn generate_ci_workflow(ci_type: &str, output_dir: &str) -> (r: Result<(String, &'static str), Error>)
    ensures
        ci_type@ == "github"@ || ci_type@ == "gh"@ ==> (r matches Ok(w) && w.0@ == joined(
            joined(joined(output_dir@, ".github"@), "workflows"@),
            "traceability.yml"@,
        ) && w.1@ == GITHUB_WORKFLOW@),
        ci_type@ == "gitlab"@ ==> (r matches Ok(w) && w.0@ == joined(
            output_dir@,
            "traceability.gitlab-ci.yml"@,
        ) && w.1@ == GITLAB_WORKFLOW@),
        !(ci_type@ == "github"@ || ci_type@ == "gh"@ || ci_type@ == "gitlab"@) ==> (r matches Err(
            Error::Config(m),
        ) && m@ == "Unknown CI type: "@ + ci_type@ + ". Supported: github, gitlab"@),
{
    proof {
        reveal_strlit("github");
        reveal_strlit("gh");
        reveal_strlit("gitlab");
        assert("github"@[3] != "gitlab"@[3]);
        assert("gh"@.len() != "gitlab"@.len());
    }
    let c = chars_of(ci_type);
    let cs = c.as_slice();
    if crate::text::chars_eq_str(cs, "github") || crate::text::chars_eq_str(cs, "gh") {
        let a = path_join(output_dir, ".github");
        let b = path_join(a.as_str(), "workflows");
        Ok((path_join(b.as_str(), "traceability.yml"), GITHUB_WORKFLOW))
    } else if crate::text::chars_eq_str(cs, "gitlab") {
        Ok((path_join(output_dir, "traceability.gitlab-ci.yml"), GITLAB_WORKFLOW))
    } else {
        let mut w: Vec<char> = Vec::new();
        push_str(&mut w, "Unknown CI type: ");
        push_str(&mut w, ci_type);
        push_str(&mut w, ". Supported: github, gitlab");
        Err(Error::Config(string_of(w.as_slice())))
    }
}

} // verus!
