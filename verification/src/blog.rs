//! A blog post that moves through draft, review and publication, and
//! only shows its text once published.

use vstd::prelude::*;

verus! {

/// The stages a post passes through on its way to publication.
#[derive(PartialEq, Eq, Structural, Clone, Copy, Debug)]
pub enum PostState {
    Draft,
    PendingReview,
    Published,
}

/// A post whose text is hidden until it has been reviewed and approved.
pub struct Post {
    state: PostState,
    content: String,
}

impl Post {
    /// The stage the post is in.
    pub closed spec fn state_spec(self) -> PostState {
        self.state
    }

    /// The text added so far, visible or not.
    pub closed spec fn content_spec(self) -> Seq<char> {
        self.content@
    }

    /// A fresh post: a draft with no text.
    pub fn new() -> (p: Post)
        ensures
            p.state_spec() == PostState::Draft,
            p.content_spec() == Seq::<char>::empty(),
    {
        Post { state: PostState::Draft, content: String::new() }
    }

    /// Appends text to the body, whatever the stage.
    pub fn add_text(&mut self, text: &str)
        ensures
            final(self).content_spec() == old(self).content_spec() + text@,
            final(self).state_spec() == old(self).state_spec(),
    {
        self.content.append(text);
    }

    /// The visible text: the whole body once published, nothing before.
    pub fn content(&self) -> (r: &str)
        ensures
            self.state_spec() == PostState::Published ==> r@ == self.content_spec(),
            self.state_spec() != PostState::Published ==> r@ == Seq::<char>::empty(),
    {
        proof {
            reveal_strlit("");
            assert(""@ =~= Seq::<char>::empty());
        }
        match self.state {
            PostState::Published => self.content.as_str(),
            _ => "",
        }
    }

    /// Sends a draft to review; any other stage is left as it is.
    pub fn request_review(&mut self)
        ensures
            final(self).content_spec() == old(self).content_spec(),
            final(self).state_spec() == (if old(self).state_spec() == PostState::Draft {
                PostState::PendingReview
            } else {
                old(self).state_spec()
            }),
    {
        match self.state {
            PostState::Draft => {
                self.state = PostState::PendingReview;
            },
            _ => {},
        }
    }

    /// Publishes a post under review; any other stage is left as it is.
    /// In particular a draft cannot be approved without review.
    pub fn approve(&mut self)
        ensures
            final(self).content_spec() == old(self).content_spec(),
            final(self).state_spec() == (if old(self).state_spec() == PostState::PendingReview {
                PostState::Published
            } else {
                old(self).state_spec()
            }),
    {
        match self.state {
            PostState::PendingReview => {
                self.state = PostState::Published;
            },
            _ => {},
        }
    }

    /// The name of the stage the post is in.
    pub fn state_name(&self) -> (r: &str)
        ensures
            self.state_spec() == PostState::Draft ==> r@ == "Draft"@,
            self.state_spec() == PostState::PendingReview ==> r@ == "PendingReview"@,
            self.state_spec() == PostState::Published ==> r@ == "Published"@,
    {
        match self.state {
            PostState::Draft => "Draft",
            PostState::PendingReview => "PendingReview",
            PostState::Published => "Published",
        }
    }
}

} // verus!
