use abyss::social::{
    AgentActivityWindow, AgentSocialAction, AgentSocialPolicy, DevFeed, Post, PostId, SocialError,
    ViewKeyRegistry, Visibility, MAX_POST_BYTES,
};

#[test]
fn publishes_an_attributed_post() {
    let mut feed = DevFeed::new();
    let id = feed.publish("abyss1alice", "hello abyss", Visibility::Attributed, 1_000).unwrap();

    let post = feed.get(id).unwrap();
    assert_eq!(post.author, "abyss1alice");
    assert_eq!(post.visibility, Visibility::Attributed);
}

#[test]
fn rejects_empty_post() {
    let mut feed = DevFeed::new();
    let result = feed.publish("abyss1alice", "", Visibility::Attributed, 1_000);
    assert_eq!(result, Err(SocialError::EmptyPost));
}

#[test]
fn rejects_post_exceeding_max_length() {
    let mut feed = DevFeed::new();
    let too_long = "a".repeat(MAX_POST_BYTES + 1);
    let result = feed.publish("abyss1alice", &too_long, Visibility::Attributed, 1_000);
    assert_eq!(
        result,
        Err(SocialError::PostTooLong { max_bytes: MAX_POST_BYTES, actual_bytes: MAX_POST_BYTES + 1 })
    );
}

#[test]
fn shielded_post_hides_author_from_strangers() {
    let mut feed = DevFeed::new();
    let id = feed.publish("abyss1alice", "secret thoughts", Visibility::Shielded, 1_000).unwrap();
    let post = feed.get(id).unwrap();
    let grants = ViewKeyRegistry::new();

    assert!(!post.author_visible_to("abyss1bob", &grants));
    assert!(post.author_visible_to("abyss1alice", &grants)); // author always sees self
}

#[test]
fn view_key_grant_discloses_shielded_author() {
    let mut feed = DevFeed::new();
    let id = feed.publish("abyss1alice", "secret thoughts", Visibility::Shielded, 1_000).unwrap();
    let post = feed.get(id).unwrap();

    let mut grants = ViewKeyRegistry::new();
    assert!(!post.author_visible_to("abyss1auditor", &grants));

    grants.grant(id, "abyss1auditor");
    assert!(post.author_visible_to("abyss1auditor", &grants));
    // Granting one viewer does not disclose to others.
    assert!(!post.author_visible_to("abyss1bob", &grants));
}

#[test]
fn attributed_post_is_visible_to_everyone_without_a_grant() {
    let mut feed = DevFeed::new();
    let id = feed.publish("abyss1alice", "public post", Visibility::Attributed, 1_000).unwrap();
    let post = feed.get(id).unwrap();
    let grants = ViewKeyRegistry::new();

    assert!(post.author_visible_to("abyss1bob", &grants));
    assert!(post.author_visible_to("anyone-at-all", &grants));
}

#[test]
fn replies_link_to_their_parent() {
    let mut feed = DevFeed::new();
    let root = feed.publish("abyss1alice", "root post", Visibility::Attributed, 1_000).unwrap();
    let reply = feed.reply("abyss1bob", "a reply", Visibility::Attributed, 2_000, root).unwrap();

    let replies = feed.replies_to(root);
    assert_eq!(replies.len(), 1);
    assert_eq!(replies[0].id, reply);
}

#[test]
fn reply_to_unknown_post_is_rejected() {
    let mut feed = DevFeed::new();
    let result = feed.reply("abyss1bob", "a reply", Visibility::Attributed, 2_000, PostId(999));
    assert_eq!(result, Err(SocialError::UnknownPost(PostId(999))));
}

#[test]
fn by_author_filters_correctly() {
    let mut feed = DevFeed::new();
    feed.publish("abyss1alice", "post 1", Visibility::Attributed, 1_000).unwrap();
    feed.publish("abyss1bob", "post 2", Visibility::Attributed, 2_000).unwrap();
    feed.publish("abyss1alice", "post 3", Visibility::Attributed, 3_000).unwrap();

    assert_eq!(feed.by_author("abyss1alice").len(), 2);
    assert_eq!(feed.by_author("abyss1bob").len(), 1);
}

#[test]
fn agent_with_no_policy_cannot_post() {
    let policy = AgentSocialPolicy::none();
    let mut window = AgentActivityWindow::new(0);

    let result = window.record_post(&policy, AgentSocialAction::Post, 0);
    assert_eq!(result, Err(SocialError::AgentLacksSocialPermission));
}

#[test]
fn curator_policy_allows_repost_but_not_post() {
    let policy = AgentSocialPolicy::curator_default();
    let mut window = AgentActivityWindow::new(0);

    assert_eq!(window.record_post(&policy, AgentSocialAction::Post, 0), Err(SocialError::AgentLacksSocialPermission));

    let mut window2 = AgentActivityWindow::new(0);
    assert_eq!(window2.record_post(&policy, AgentSocialAction::Repost, 0), Ok(()));
}

#[test]
fn agent_posting_rate_limit_is_enforced() {
    let policy = AgentSocialPolicy {
        can_post: true,
        can_reply: true,
        can_repost: true,
        max_posts_per_window: 2,
        rate_window_seconds: 3_600,
    };
    let mut window = AgentActivityWindow::new(0);

    assert_eq!(window.record_post(&policy, AgentSocialAction::Post, 0), Ok(()));
    assert_eq!(window.record_post(&policy, AgentSocialAction::Post, 100), Ok(()));
    // third post within the same window exceeds the cap
    assert_eq!(
        window.record_post(&policy, AgentSocialAction::Post, 200),
        Err(SocialError::AgentExceedsPostingRate { limit_per_window: 2, window_seconds: 3_600 })
    );
}

#[test]
fn agent_posting_rate_resets_after_window_elapses() {
    let policy = AgentSocialPolicy {
        can_post: true,
        can_reply: true,
        can_repost: true,
        max_posts_per_window: 1,
        rate_window_seconds: 60, // 60 seconds
    };
    let mut window = AgentActivityWindow::new(0);

    assert_eq!(window.record_post(&policy, AgentSocialAction::Post, 0), Ok(()));
    // still within the 60s window -> rejected
    assert_eq!(
        window.record_post(&policy, AgentSocialAction::Post, 30_000),
        Err(SocialError::AgentExceedsPostingRate { limit_per_window: 1, window_seconds: 60 })
    );
    // 61s later, window has rolled over -> allowed again
    assert_eq!(window.record_post(&policy, AgentSocialAction::Post, 61_000), Ok(()));
}

#[test]
fn agent_authored_flag_is_tracked_on_the_post() {
    let post = Post::new(PostId(0), "abyss1alice", "agent generated this", Visibility::Attributed, 1_000)
        .unwrap()
        .as_agent_authored();

    assert!(post.authored_by_agent);
}
