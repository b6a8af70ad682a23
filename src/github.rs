use vstd::prelude::*;

verus! {

/// The account that owns a repository.
#[derive(Clone, Debug)]
pub struct RepositoryOwner {
    pub login: String,
}

#[derive(Clone, Debug)]
pub struct Repository {
    pub full_name: String,
    pub name: String,
    pub owner: RepositoryOwner,
}

#[derive(Clone, Debug)]
pub struct Subject {
    pub title: String,
    /// The kind of subject: "PullRequest", "Issue", ...
    pub type_field: String,
    pub url: String,
    pub latest_comment_url: Option<String>,
}

/// One event of the feed.
#[derive(Clone, Debug)]
pub struct NotificationDto {
    pub id: String,
    pub reason: String,
    pub repository: Repository,
    pub subject: Subject,
}

#[derive(Clone, Debug)]
pub struct NotificationDetailLinkHref {
    pub href: String,
}

#[derive(Clone, Debug)]
pub struct NotificationDetailLinks {
    pub html: NotificationDetailLinkHref,
}

/// Detail of an event's subject; `state` and `merged` are those of a pull
/// request ("open" or "closed"; `merged` is false for other subjects).
#[derive(Clone, Debug)]
pub struct NotificationDetailDto {
    pub links: NotificationDetailLinks,
    pub state: String,
    pub merged: bool,
}

/// The latest comment of an event's subject.
#[derive(Clone, Debug)]
pub struct CommentDto {
    pub url: String,
}

impl NotificationDto {
    /// The (owner, repository name) that the event belongs to.
    pub open spec fn repo_key(&self) -> (Seq<char>, Seq<char>) {
        (self.repository.owner.login@, self.repository.name@)
    }
}

} // verus!
