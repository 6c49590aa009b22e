//! News articles and tweets summarised through a shared trait.

use vstd::prelude::*;

verus! {

/// A published news story.
pub struct NewsArticle {
    pub headline: String,
    pub location: String,
    pub author: String,
    pub content: String,
}

/// A short post by one user.
pub struct Tweet {
    pub username: String,
    pub content: String,
    pub reply: bool,
    pub retweet: bool,
}

/// Something that can describe itself in one line.  The default
/// description is a generic teaser.
pub trait Summary {
    fn summarize(&self) -> String;
}

/// Something with a one-line abstract.
pub trait Article {
    fn summary(&self) -> String;
}

impl Summary for NewsArticle {
    /// The headline, place and author in one line.
    fn summarize(&self) -> (r: String)
        ensures
            r@ == "(Read "@ + self.headline@ + " from "@ + self.location@ + "... by "@
                + self.author@ + ")"@,
    {
        let mut r = "(Read ".to_owned();
        r.append(self.headline.as_str());
        r.append(" from ");
        r.append(self.location.as_str());
        r.append("... by ");
        r.append(self.author.as_str());
        r.append(")");
        r
    }
}

impl Summary for Tweet {
    /// The user and what they wrote.
    fn summarize(&self) -> (r: String)
        ensures
            r@ == self.username@ + ": "@ + self.content@,
    {
        let mut r = self.username.clone();
        r.append(": ");
        r.append(self.content.as_str());
        r
    }
}

impl Article for NewsArticle {
    /// The headline, place and author in one line.
    fn summary(&self) -> (r: String)
        ensures
            r@ == self.headline@ + " of "@ + self.location@ + " by "@ + self.author@,
    {
        let mut r = self.headline.clone();
        r.append(" of ");
        r.append(self.location.as_str());
        r.append(" by ");
        r.append(self.author.as_str());
        r
    }
}

/// A fixed tweet, handed out behind the `Summary` trait.
pub fn returns_trait_struct() -> (t: Tweet)
    ensures
        t.username@ == "dd"@,
        t.content@ == "dd"@,
        t.reply,
        t.retweet,
{
    Tweet {
        username: "dd".to_owned(),
        retweet: true,
        reply: true,
        content: "dd".to_owned(),
    }
}

} // verus!
