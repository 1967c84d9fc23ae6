use vstd::prelude::*;
use vstd::string::StringExecFns;
use crate::text::{append_str, chars_of, string_from_chars, trim_end_char, trim_end_char_chars};

verus! {

/// The on-prem git hosting products whose URL and auth conventions are known.
#[derive(Debug, Clone, Copy, PartialEq, Eq)]
pub enum GitProviderKind {
    GitHubEnterprise,
    GitLab,
    BitbucketServer,
}

/// A repository on an on-prem git provider.
#[derive(Debug, Clone, PartialEq, Eq)]
pub struct GitProviderSpec {
    pub kind: GitProviderKind,
    pub host: String,
    pub namespace: String,
    pub repository: String,
    pub token: String,
}

/// The host without trailing slashes.
pub open spec fn normalized_host(host: Seq<char>) -> Seq<char> {
    trim_end_char(host, '/')
}

fn normalize_host(host: &str) -> (r: Vec<char>)
    ensures
        r@ == normalized_host(host@),
{
    let v = chars_of(host);
    trim_end_char_chars(&v, '/')
}

impl GitProviderSpec {
    pub open spec fn api_base(&self) -> Seq<char> {
        normalized_host(self.host@) + match self.kind {
            GitProviderKind::GitHubEnterprise => "/api/v3"@,
            GitProviderKind::GitLab => "/api/v4"@,
            GitProviderKind::BitbucketServer => "/rest/api/1.0"@,
        }
    }

    pub open spec fn repo_api(&self) -> Seq<char> {
        match self.kind {
            GitProviderKind::GitHubEnterprise => self.api_base() + "/repos/"@ + self.namespace@
                + "/"@ + self.repository@,
            GitProviderKind::GitLab => self.api_base() + "/projects/"@ + self.namespace@ + "%2F"@
                + self.repository@,
            GitProviderKind::BitbucketServer => self.api_base() + "/projects/"@ + self.namespace@
                + "/repos/"@ + self.repository@,
        }
    }

    /// The REST API root of the provider.
    pub fn api_base_url(&self) -> (r: String)
        ensures
            r@ == self.api_base(),
    {
        let mut out = normalize_host(self.host.as_str());
        match self.kind {
            GitProviderKind::GitHubEnterprise => append_str(&mut out, "/api/v3"),
            GitProviderKind::GitLab => append_str(&mut out, "/api/v4"),
            GitProviderKind::BitbucketServer => append_str(&mut out, "/rest/api/1.0"),
        }
        string_from_chars(&out)
    }

    /// The HTTPS clone URL of the repository.
    pub fn repo_clone_url(&self) -> (r: String)
        ensures
            r@ == normalized_host(self.host@) + match self.kind {
                GitProviderKind::BitbucketServer => "/scm/"@,
                _ => "/"@,
            } + self.namespace@ + "/"@ + self.repository@ + ".git"@,
    {
        let mut out = normalize_host(self.host.as_str());
        match self.kind {
            GitProviderKind::BitbucketServer => append_str(&mut out, "/scm/"),
            _ => append_str(&mut out, "/"),
        }
        append_str(&mut out, self.namespace.as_str());
        append_str(&mut out, "/");
        append_str(&mut out, self.repository.as_str());
        append_str(&mut out, ".git");
        string_from_chars(&out)
    }

    /// The REST resource of the repository.
    pub fn repo_api_url(&self) -> (r: String)
        ensures
            r@ == self.repo_api(),
    {
        let base = self.api_base_url();
        let mut out = chars_of(base.as_str());
        match self.kind {
            GitProviderKind::GitHubEnterprise => {
                append_str(&mut out, "/repos/");
                append_str(&mut out, self.namespace.as_str());
                append_str(&mut out, "/");
            },
            GitProviderKind::GitLab => {
                append_str(&mut out, "/projects/");
                append_str(&mut out, self.namespace.as_str());
                append_str(&mut out, "%2F");
            },
            GitProviderKind::BitbucketServer => {
                append_str(&mut out, "/projects/");
                append_str(&mut out, self.namespace.as_str());
                append_str(&mut out, "/repos/");
            },
        }
        append_str(&mut out, self.repository.as_str());
        string_from_chars(&out)
    }

    /// The REST collection of the repository's pull (merge) requests.
    pub fn pull_request_api_url(&self) -> (r: String)
        ensures
            r@ == self.repo_api() + match self.kind {
                GitProviderKind::GitHubEnterprise => "/pulls"@,
                GitProviderKind::GitLab => "/merge_requests"@,
                GitProviderKind::BitbucketServer => "/pull-requests"@,
            },
    {
        let api = self.repo_api_url();
        let mut out = chars_of(api.as_str());
        match self.kind {
            GitProviderKind::GitHubEnterprise => append_str(&mut out, "/pulls"),
            GitProviderKind::GitLab => append_str(&mut out, "/merge_requests"),
            GitProviderKind::BitbucketServer => append_str(&mut out, "/pull-requests"),
        }
        string_from_chars(&out)
    }

    /// The HTTP header that carries the token.
    pub fn auth_header_name(&self) -> (r: &'static str)
        ensures
            r@ == (if self.kind == GitProviderKind::GitLab {
                "PRIVATE-TOKEN"@
            } else {
                "Authorization"@
            }),
    {
        match self.kind {
            GitProviderKind::GitLab => "PRIVATE-TOKEN",
            _ => "Authorization",
        }
    }

    /// The value of that header: the bare token for GitLab, a bearer token otherwise.
    pub fn auth_header_value(&self) -> (r: String)
        ensures
            r@ == (if self.kind == GitProviderKind::GitLab {
                self.token@
            } else {
                "Bearer "@ + self.token@
            }),
    {
        match self.kind {
            GitProviderKind::GitLab => String::from_str(self.token.as_str()),
            _ => {
                let mut out = chars_of("Bearer ");
                append_str(&mut out, self.token.as_str());
                string_from_chars(&out)
            },
        }
    }
}

} // verus!
