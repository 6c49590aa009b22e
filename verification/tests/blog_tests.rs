use lessons::blog::Post;

#[test]
fn post_starts_as_empty_draft() {
    let post = Post::new();
    assert_eq!(post.state_name(), "Draft");
    assert_eq!(post.content(), "");
}

#[test]
fn draft_hides_text_until_published() {
    let mut post = Post::new();
    post.add_text("Hello, this is my first blog post!");
    assert_eq!(post.state_name(), "Draft");
    assert_eq!(post.content(), "");

    post.request_review();
    assert_eq!(post.state_name(), "PendingReview");
    assert_eq!(post.content(), "");

    post.approve();
    assert_eq!(post.state_name(), "Published");
    assert_eq!(post.content(), "Hello, this is my first blog post!");
}

#[test]
fn draft_cannot_be_approved_directly() {
    let mut post = Post::new();
    post.add_text("text");
    post.approve();
    assert_eq!(post.state_name(), "Draft");
    assert_eq!(post.content(), "");
}

#[test]
fn review_and_approval_are_idempotent() {
    let mut post = Post::new();
    post.add_text("a");
    post.request_review();
    post.request_review();
    assert_eq!(post.state_name(), "PendingReview");
    post.approve();
    post.approve();
    assert_eq!(post.state_name(), "Published");
    post.request_review();
    assert_eq!(post.state_name(), "Published");
    post.add_text("b");
    assert_eq!(post.content(), "ab");
}
