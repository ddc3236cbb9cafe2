//! The social layer's data model: posts with attributed or shielded
//! authorship, view-key grants that disclose shielded authors, the policy
//! and rate limit of an agent posting on a user's behalf, and an in-memory
//! feed.
//!
//! Identity is the wallet address; an agent's social permissions are kept
//! apart from any financial permission.

use vstd::prelude::*;
use vstd::string::*;
use vstd::utf8::encode_utf8;
use crate::chars::str_eq;

verus! {

/// Maximum size of a post body, in bytes.
pub const MAX_POST_BYTES: usize = 2_000;

/// How a post's authorship is disclosed.
#[derive(Clone, Copy, Debug, PartialEq, Eq, Structural)]
pub enum Visibility {
    /// Authorship is public.
    Attributed,
    /// Only the author and holders of a view-key grant see the author.
    Shielded,
}

#[derive(Clone, Copy, Debug, PartialEq, Eq, Structural, Hash, PartialOrd, Ord)]
pub struct PostId(pub u64);

#[derive(Debug, PartialEq, Eq)]
pub struct Post {
    pub id: PostId,
    pub author: String,
    pub body: String,
    pub visibility: Visibility,
    pub created_at_ms: u64,
    /// The post this one replies to, if any.
    pub in_reply_to: Option<PostId>,
    pub authored_by_agent: bool,
}

impl Clone for Post {
    fn clone(&self) -> (r: Post)
        ensures
            r == *self,
    {
        Post {
            id: self.id,
            author: self.author.clone(),
            body: self.body.clone(),
            visibility: self.visibility,
            created_at_ms: self.created_at_ms,
            in_reply_to: self.in_reply_to,
            authored_by_agent: self.authored_by_agent,
        }
    }
}

#[derive(Clone, Copy, Debug, PartialEq, Eq, Structural)]
pub enum SocialError {
    EmptyPost,
    PostTooLong { max_bytes: usize, actual_bytes: usize },
    AgentLacksSocialPermission,
    AgentExceedsPostingRate { limit_per_window: u32, window_seconds: u64 },
    UnknownPost(PostId),
    UnauthorisedDisclosure,
}

/// What checking a post body gives: it must be non-empty and at most
/// `MAX_POST_BYTES` bytes of UTF-8.
pub open spec fn body_check(body: Seq<char>) -> Result<(), SocialError> {
    if body.len() == 0 {
        Err(SocialError::EmptyPost)
    } else if encode_utf8(body).len() > MAX_POST_BYTES {
        Err(SocialError::PostTooLong { max_bytes: MAX_POST_BYTES, actual_bytes: encode_utf8(body).len() as usize })
    } else {
        Ok(())
    }
}

impl Post {
    pub fn new(id: PostId, author: &str, body: &str, visibility: Visibility, created_at_ms: u64) -> (r: Result<
        Post,
        SocialError,
    >)
        ensures
            match body_check(body@) {
                Err(e) => r == Err::<Post, SocialError>(e),
                Ok(()) => r matches Ok(p) && p.id == id && p.author@ == author@ && p.body@ == body@
                    && p.visibility == visibility && p.created_at_ms == created_at_ms && p.in_reply_to is None
                    && !p.authored_by_agent,
            },
    {
        if body.is_empty() {
            return Err(SocialError::EmptyPost);
        }
        let n = body.as_bytes().len();
        if n > MAX_POST_BYTES {
            return Err(SocialError::PostTooLong { max_bytes: MAX_POST_BYTES, actual_bytes: n });
        }
        Ok(
            Post {
                id,
                author: author.to_owned(),
                body: body.to_owned(),
                visibility,
                created_at_ms,
                in_reply_to: None,
                authored_by_agent: false,
            },
        )
    }

    pub fn as_reply_to(self, parent: PostId) -> (r: Post)
        ensures
            r == (Post { in_reply_to: Some(parent), ..self }),
    {
        let mut p = self;
        p.in_reply_to = Some(parent);
        p
    }

    pub fn as_agent_authored(self) -> (r: Post)
        ensures
            r == (Post { authored_by_agent: true, ..self }),
    {
        let mut p = self;
        p.authored_by_agent = true;
        p
    }

    /// Whether `viewer` may see who wrote this post: everyone for an
    /// attributed post; for a shielded one, the author and the viewers
    /// granted a view key for it.
    pub fn author_visible_to(&self, viewer: &str, grants: &ViewKeyRegistry) -> (r: bool)
        ensures
            r == (self.visibility == Visibility::Attributed || viewer@ == self.author@ || has_grant_spec(
                grants@,
                self.id,
                viewer@,
            )),
    {
        match self.visibility {
            Visibility::Attributed => true,
            Visibility::Shielded => str_eq(viewer, self.author.as_str()) || grants.has_grant(&self.id, viewer),
        }
    }
}

/// Some grant discloses post `id` to `viewer`.
pub open spec fn has_grant_spec(g: Seq<(PostId, Seq<char>)>, id: PostId, viewer: Seq<char>) -> bool {
    exists|i: int| 0 <= i < g.len() && #[trigger] g[i] == (id, viewer)
}

/// A new grant discloses its post to its viewer and changes nothing for any
/// other pair of post and viewer.
pub proof fn lemma_grant_discloses_only_its_pair(
    g: Seq<(PostId, Seq<char>)>,
    id: PostId,
    viewer: Seq<char>,
    id2: PostId,
    viewer2: Seq<char>,
)
    ensures
        has_grant_spec(g.push((id, viewer)), id, viewer),
        (id2, viewer2) != (id, viewer) ==> (has_grant_spec(g.push((id, viewer)), id2, viewer2)
            <==> has_grant_spec(g, id2, viewer2)),
{
    let n = g.push((id, viewer));
    assert(n[g.len() as int] == (id, viewer));
    if (id2, viewer2) != (id, viewer) {
        if has_grant_spec(n, id2, viewer2) {
            let i = choose|i: int| 0 <= i < n.len() && #[trigger] n[i] == (id2, viewer2);
            assert(g[i] == n[i]);
        }
        if has_grant_spec(g, id2, viewer2) {
            let i = choose|i: int| 0 <= i < g.len() && #[trigger] g[i] == (id2, viewer2);
            assert(n[i] == g[i]);
        }
    }
}

/// View-key grants for shielded posts: who, besides the author, may see
/// the true author of a post.
#[derive(Debug, Default)]
pub struct ViewKeyRegistry {
    grants: Vec<(PostId, String)>,
}

impl View for ViewKeyRegistry {
    type V = Seq<(PostId, Seq<char>)>;

    closed spec fn view(&self) -> Seq<(PostId, Seq<char>)> {
        self.grants@.map_values(|g: (PostId, String)| (g.0, g.1@))
    }
}

impl Clone for ViewKeyRegistry {
    fn clone(&self) -> (r: ViewKeyRegistry)
        ensures
            r@ == self@,
    {
        let mut grants: Vec<(PostId, String)> = Vec::new();
        let mut i: usize = 0;
        while i < self.grants.len()
            invariant
                i <= self.grants@.len(),
                grants@.map_values(|g: (PostId, String)| (g.0, g.1@)) == self@.take(i as int),
            decreases self.grants@.len() - i,
        {
            let ghost before = grants@;
            grants.push((self.grants[i].0, self.grants[i].1.clone()));
            assert(grants@.map_values(|g: (PostId, String)| (g.0, g.1@)) =~= before.map_values(
                |g: (PostId, String)| (g.0, g.1@),
            ).push(self@[i as int]));
            assert(self@.take(i + 1) =~= self@.take(i as int).push(self@[i as int]));
            i = i + 1;
        }
        assert(self@.take(i as int) =~= self@);
        ViewKeyRegistry { grants }
    }
}

impl ViewKeyRegistry {
    pub fn new() -> (r: ViewKeyRegistry)
        ensures
            r@ == Seq::<(PostId, Seq<char>)>::empty(),
    {
        let r = ViewKeyRegistry { grants: Vec::new() };
        assert(r@ =~= Seq::<(PostId, Seq<char>)>::empty());
        r
    }

    /// Grants `viewer` the right to see the author of `post_id`.
    pub fn grant(&mut self, post_id: PostId, viewer: &str)
        ensures
            final(self)@ == old(self)@.push((post_id, viewer@)),
    {
        self.grants.push((post_id, viewer.to_owned()));
        assert(final(self)@ =~= old(self)@.push((post_id, viewer@)));
    }

    pub fn has_grant(&self, post_id: &PostId, viewer: &str) -> (r: bool)
        ensures
            r == has_grant_spec(self@, *post_id, viewer@),
    {
        let ghost g = self@;
        let mut i: usize = 0;
        while i < self.grants.len()
            invariant
                g == self@,
                i <= g.len(),
                forall|j: int| 0 <= j < i ==> g[j] != (*post_id, viewer@),
            decreases g.len() - i,
        {
            if self.grants[i].0.0 == post_id.0 && str_eq(self.grants[i].1.as_str(), viewer) {
                assert(g[i as int] == (*post_id, viewer@));
                return true;
            }
            i = i + 1;
        }
        false
    }
}

/// What an agent may do on the social layer, and how often.
#[derive(Clone, Copy, Debug, PartialEq, Eq, Structural)]
pub struct AgentSocialPolicy {
    pub can_post: bool,
    pub can_reply: bool,
    pub can_repost: bool,
    /// Most posts (replies and reposts included) within one window.
    pub max_posts_per_window: u32,
    pub rate_window_seconds: u64,
}

impl AgentSocialPolicy {
    pub fn none() -> (r: AgentSocialPolicy)
        ensures
            !r.can_post && !r.can_reply && !r.can_repost,
            r.max_posts_per_window == 0,
            r.rate_window_seconds == 0,
    {
        AgentSocialPolicy {
            can_post: false,
            can_reply: false,
            can_repost: false,
            max_posts_per_window: 0,
            rate_window_seconds: 0,
        }
    }

    /// Reposts only, at most ten an hour.
    pub fn curator_default() -> (r: AgentSocialPolicy)
        ensures
            !r.can_post && !r.can_reply && r.can_repost,
            r.max_posts_per_window == 10,
            r.rate_window_seconds == 3_600,
    {
        AgentSocialPolicy {
            can_post: false,
            can_reply: false,
            can_repost: true,
            max_posts_per_window: 10,
            rate_window_seconds: 3_600,
        }
    }

    /// Every kind of post, at most five an hour.
    pub fn full_posting_default() -> (r: AgentSocialPolicy)
        ensures
            r.can_post && r.can_reply && r.can_repost,
            r.max_posts_per_window == 5,
            r.rate_window_seconds == 3_600,
    {
        AgentSocialPolicy {
            can_post: true,
            can_reply: true,
            can_repost: true,
            max_posts_per_window: 5,
            rate_window_seconds: 3_600,
        }
    }
}

#[derive(Clone, Copy, Debug, PartialEq, Eq, Structural)]
pub enum AgentSocialAction {
    Post,
    Reply,
    Repost,
}

/// Whether the policy allows the action.
pub open spec fn permitted(p: AgentSocialPolicy, a: AgentSocialAction) -> bool {
    match a {
        AgentSocialAction::Post => p.can_post,
        AgentSocialAction::Reply => p.can_reply,
        AgentSocialAction::Repost => p.can_repost,
    }
}

/// Each action is allowed by its own permission and by no other: posting
/// by `can_post`, replying by `can_reply`, reposting by `can_repost`. So a
/// policy that may repost but not reply, such as the curator's, allows no
/// reply.
pub proof fn lemma_each_action_needs_its_permission(p: AgentSocialPolicy)
    ensures
        permitted(p, AgentSocialAction::Post) <==> p.can_post,
        permitted(p, AgentSocialAction::Reply) <==> p.can_reply,
        permitted(p, AgentSocialAction::Repost) <==> p.can_repost,
        p.can_repost && !p.can_reply ==> !permitted(p, AgentSocialAction::Reply),
{
}

/// Whether the window that started at `start` is over at `now`.
pub open spec fn window_over(p: AgentSocialPolicy, start: u64, now: u64) -> bool {
    let elapsed = if now >= start {
        now - start
    } else {
        0
    };
    let length = if p.rate_window_seconds * 1000 > u64::MAX {
        u64::MAX as int
    } else {
        p.rate_window_seconds * 1000
    };
    elapsed >= length
}

/// The posts an agent made in its current rate window.
#[derive(Debug)]
pub struct AgentActivityWindow {
    window_start_ms: u64,
    posts_in_window: u32,
}

impl AgentActivityWindow {
    /// When the current window started, in milliseconds.
    pub closed spec fn start_spec(&self) -> u64 {
        self.window_start_ms
    }

    /// Posts counted in the current window.
    pub closed spec fn posts_spec(&self) -> u32 {
        self.posts_in_window
    }

    pub fn new(window_start_ms: u64) -> (r: AgentActivityWindow)
        ensures
            r.start_spec() == window_start_ms,
            r.posts_spec() == 0,
    {
        AgentActivityWindow { window_start_ms, posts_in_window: 0 }
    }

    /// Checks the policy and, if the action is allowed and the window has
    /// room, counts one post. The window starts anew at `now_ms` once the
    /// policy's window length has passed since it began.
    pub fn record_post(&mut self, policy: &AgentSocialPolicy, action: AgentSocialAction, now_ms: u64) -> (r:
        Result<(), SocialError>)
        ensures
            !permitted(*policy, action) ==> r == Err::<(), SocialError>(
                SocialError::AgentLacksSocialPermission,
            ) && final(self).start_spec() == old(self).start_spec() && final(self).posts_spec() == old(
                self,
            ).posts_spec(),
            permitted(*policy, action) ==> ({
                let rolled = window_over(*policy, old(self).start_spec(), now_ms);
                let start = if rolled {
                    now_ms
                } else {
                    old(self).start_spec()
                };
                let posts = if rolled {
                    0
                } else {
                    old(self).posts_spec()
                };
                &&& final(self).start_spec() == start
                &&& posts >= policy.max_posts_per_window ==> r == Err::<(), SocialError>(
                    SocialError::AgentExceedsPostingRate {
                        limit_per_window: policy.max_posts_per_window,
                        window_seconds: policy.rate_window_seconds,
                    },
                ) && final(self).posts_spec() == posts
                &&& posts < policy.max_posts_per_window ==> r is Ok && final(self).posts_spec() == posts + 1
            }),
            r is Ok ==> final(self).posts_spec() <= policy.max_posts_per_window,
            action == AgentSocialAction::Post && !policy.can_post ==> r == Err::<(), SocialError>(
                SocialError::AgentLacksSocialPermission,
            ),
            action == AgentSocialAction::Reply && !policy.can_reply ==> r == Err::<(), SocialError>(
                SocialError::AgentLacksSocialPermission,
            ),
            action == AgentSocialAction::Repost && !policy.can_repost ==> r == Err::<(), SocialError>(
                SocialError::AgentLacksSocialPermission,
            ),
    {
        let allowed = match action {
            AgentSocialAction::Post => policy.can_post,
            AgentSocialAction::Reply => policy.can_reply,
            AgentSocialAction::Repost => policy.can_repost,
        };
        if !allowed {
            return Err(SocialError::AgentLacksSocialPermission);
        }
        let elapsed = if now_ms >= self.window_start_ms {
            now_ms - self.window_start_ms
        } else {
            0
        };
        let length = if policy.rate_window_seconds > u64::MAX / 1000 {
            u64::MAX
        } else {
            policy.rate_window_seconds * 1000
        };
        if elapsed >= length {
            self.window_start_ms = now_ms;
            self.posts_in_window = 0;
        }
        if self.posts_in_window >= policy.max_posts_per_window {
            return Err(
                SocialError::AgentExceedsPostingRate {
                    limit_per_window: policy.max_posts_per_window,
                    window_seconds: policy.rate_window_seconds,
                },
            );
        }
        self.posts_in_window = self.posts_in_window + 1;
        Ok(())
    }
}

impl Default for AgentActivityWindow {
    fn default() -> (r: AgentActivityWindow)
        ensures
            r.start_spec() == 0,
            r.posts_spec() == 0,
    {
        AgentActivityWindow { window_start_ms: 0, posts_in_window: 0 }
    }
}

impl Clone for AgentActivityWindow {
    fn clone(&self) -> (r: AgentActivityWindow)
        ensures
            r.start_spec() == self.start_spec(),
            r.posts_spec() == self.posts_spec(),
    {
        AgentActivityWindow { window_start_ms: self.window_start_ms, posts_in_window: self.posts_in_window }
    }
}

/// The posts of `s` by `author`, in order.
pub open spec fn posts_by(s: Seq<Post>, author: Seq<char>) -> Seq<Post>
    decreases s.len(),
{
    if s.len() == 0 {
        s
    } else if s.last().author@ == author {
        posts_by(s.drop_last(), author).push(s.last())
    } else {
        posts_by(s.drop_last(), author)
    }
}

/// The replies to `parent` in `s`, in order.
pub open spec fn replies_in(s: Seq<Post>, parent: PostId) -> Seq<Post>
    decreases s.len(),
{
    if s.len() == 0 {
        s
    } else if s.last().in_reply_to == Some(parent) {
        replies_in(s.drop_last(), parent).push(s.last())
    } else {
        replies_in(s.drop_last(), parent)
    }
}

/// The posts by an author are exactly the posts of the feed written by that
/// author, in feed order.
pub proof fn lemma_posts_by_selects_author(s: Seq<Post>, author: Seq<char>)
    ensures
        posts_by(s, author) == s.filter(|p: Post| p.author@ == author),
    decreases s.len(),
{
    reveal(Seq::filter);
    if s.len() > 0 {
        lemma_posts_by_selects_author(s.drop_last(), author);
    }
}

/// The replies to a post are exactly the posts of the feed that answer it,
/// in feed order.
pub proof fn lemma_replies_select_parent(s: Seq<Post>, parent: PostId)
    ensures
        replies_in(s, parent) == s.filter(|p: Post| p.in_reply_to == Some(parent)),
    decreases s.len(),
{
    reveal(Seq::filter);
    if s.len() > 0 {
        lemma_replies_select_parent(s.drop_last(), parent);
    }
}

/// An in-memory feed for the devnet.
#[derive(Debug)]
pub struct DevFeed {
    posts: Vec<Post>,
    next_id: u64,
}

impl View for DevFeed {
    type V = Seq<Post>;

    closed spec fn view(&self) -> Seq<Post> {
        self.posts@
    }
}

impl DevFeed {
    #[verifier::type_invariant]
    spec fn numbered(self) -> bool {
        &&& self.next_id == self.posts@.len()
        &&& forall|i: int| 0 <= i < self.posts@.len() ==> (#[trigger] self.posts@[i]).id == PostId(i as u64)
    }

    /// Every post's identifier is its position in the feed.
    pub fn check_numbered(&self)
        ensures
            forall|i: int| 0 <= i < self@.len() ==> (#[trigger] self@[i]).id == PostId(i as u64),
            self@.len() <= u64::MAX,
    {
        proof {
            use_type_invariant(self);
        }
    }

    pub fn new() -> (r: DevFeed)
        ensures
            r@ == Seq::<Post>::empty(),
    {
        DevFeed { posts: Vec::new(), next_id: 0 }
    }

    /// Publishes a post under the next identifier.
    pub fn publish(&mut self, author: &str, body: &str, visibility: Visibility, created_at_ms: u64) -> (r: Result<
        PostId,
        SocialError,
    >)
        requires
            old(self)@.len() < u64::MAX,
        ensures
            match body_check(body@) {
                Err(e) => r == Err::<PostId, SocialError>(e) && final(self)@ == old(self)@,
                Ok(()) => r == Ok::<PostId, SocialError>(PostId(old(self)@.len() as u64)) && final(self)@
                    == old(self)@.push(
                    Post {
                        id: PostId(old(self)@.len() as u64),
                        author: final(self)@.last().author,
                        body: final(self)@.last().body,
                        visibility,
                        created_at_ms,
                        in_reply_to: None,
                        authored_by_agent: false,
                    },
                ) && final(self)@.last().author@ == author@ && final(self)@.last().body@ == body@,
            },
    {
        proof {
            use_type_invariant(&*self);
        }
        let id = PostId(self.next_id);
        let post = match Post::new(id, author, body, visibility, created_at_ms) {
            Err(e) => return Err(e),
            Ok(p) => p,
        };
        self.push_post(post);
        Ok(id)
    }

    fn push_post(&mut self, post: Post)
        requires
            old(self)@.len() < u64::MAX,
            post.id == PostId(old(self)@.len() as u64),
        ensures
            final(self)@ == old(self)@.push(post),
    {
        proof {
            use_type_invariant(&*self);
        }
        let mut whole = DevFeed::new();
        std::mem::swap(&mut whole, self);
        let DevFeed { mut posts, next_id } = whole;
        posts.push(post);
        *self = DevFeed { posts, next_id: next_id + 1 };
    }

    /// Publishes a reply to an existing post.
    pub fn reply(&mut self, author: &str, body: &str, visibility: Visibility, created_at_ms: u64, parent: PostId) -> (r:
        Result<PostId, SocialError>)
        requires
            old(self)@.len() < u64::MAX,
        ensures
            parent.0 >= old(self)@.len() ==> r == Err::<PostId, SocialError>(SocialError::UnknownPost(parent))
                && final(self)@ == old(self)@,
            parent.0 < old(self)@.len() ==> match body_check(body@) {
                Err(e) => r == Err::<PostId, SocialError>(e) && final(self)@ == old(self)@,
                Ok(()) => r == Ok::<PostId, SocialError>(PostId(old(self)@.len() as u64)) && final(self)@
                    == old(self)@.push(
                    Post {
                        id: PostId(old(self)@.len() as u64),
                        author: final(self)@.last().author,
                        body: final(self)@.last().body,
                        visibility,
                        created_at_ms,
                        in_reply_to: Some(parent),
                        authored_by_agent: false,
                    },
                ) && final(self)@.last().author@ == author@ && final(self)@.last().body@ == body@,
            },
    {
        proof {
            use_type_invariant(&*self);
        }
        if parent.0 >= self.next_id {
            return Err(SocialError::UnknownPost(parent));
        }
        let id = PostId(self.next_id);
        let post = match Post::new(id, author, body, visibility, created_at_ms) {
            Err(e) => return Err(e),
            Ok(p) => p,
        };
        self.push_post(post.as_reply_to(parent));
        Ok(id)
    }

    /// The post with identifier `id`, if any.
    pub fn get(&self, id: PostId) -> (r: Option<&Post>)
        ensures
            id.0 < self@.len() ==> r == Some(&self@[id.0 as int]),
            id.0 >= self@.len() ==> r is None,
    {
        proof {
            use_type_invariant(self);
        }
        let n = self.posts.len();
        if id.0 < self.next_id {
            assert(id.0 < n);
            let i = id.0 as usize;
            Some(&self.posts[i])
        } else {
            None
        }
    }

    /// The posts by `author`, in publication order.
    pub fn by_author(&self, author: &str) -> (r: Vec<&Post>)
        ensures
            r@.map_values(|p: &Post| *p) == posts_by(self@, author@),
    {
        let ghost s = self@;
        let mut out: Vec<&Post> = Vec::new();
        let mut i: usize = 0;
        while i < self.posts.len()
            invariant
                s == self@,
                i <= s.len(),
                out@.map_values(|p: &Post| *p) == posts_by(s.take(i as int), author@),
            decreases s.len() - i,
        {
            let ghost before = out@;
            assert(s.take(i + 1).drop_last() =~= s.take(i as int));
            assert(s.take(i + 1).last() == s[i as int]);
            let p = &self.posts[i];
            if str_eq(p.author.as_str(), author) {
                out.push(p);
                assert(out@.map_values(|p: &Post| *p) =~= before.map_values(|p: &Post| *p).push(*p));
            }
            i = i + 1;
        }
        assert(s.take(i as int) =~= s);
        out
    }

    /// The replies to `parent`, in publication order.
    pub fn replies_to(&self, parent: PostId) -> (r: Vec<&Post>)
        ensures
            r@.map_values(|p: &Post| *p) == replies_in(self@, parent),
    {
        let ghost s = self@;
        let mut out: Vec<&Post> = Vec::new();
        let mut i: usize = 0;
        while i < self.posts.len()
            invariant
                s == self@,
                i <= s.len(),
                out@.map_values(|p: &Post| *p) == replies_in(s.take(i as int), parent),
            decreases s.len() - i,
        {
            let ghost before = out@;
            assert(s.take(i + 1).drop_last() =~= s.take(i as int));
            assert(s.take(i + 1).last() == s[i as int]);
            let p = &self.posts[i];
            let is_reply = match p.in_reply_to {
                Some(q) => q.0 == parent.0,
                None => false,
            };
            if is_reply {
                out.push(p);
                assert(out@.map_values(|p: &Post| *p) =~= before.map_values(|p: &Post| *p).push(*p));
            }
            i = i + 1;
        }
        assert(s.take(i as int) =~= s);
        out
    }

    pub fn len(&self) -> (r: usize)
        ensures
            r == self@.len(),
    {
        self.posts.len()
    }

    pub fn is_empty(&self) -> (r: bool)
        ensures
            r == (self@.len() == 0),
    {
        self.posts.len() == 0
    }
}

impl Default for DevFeed {
    fn default() -> (r: DevFeed)
        ensures
            r@ == Seq::<Post>::empty(),
    {
        DevFeed::new()
    }
}

impl Clone for DevFeed {
    fn clone(&self) -> (r: DevFeed)
        ensures
            r@ == self@,
    {
        proof {
            use_type_invariant(self);
        }
        let mut posts: Vec<Post> = Vec::new();
        let mut i: usize = 0;
        while i < self.posts.len()
            invariant
                i <= self.posts@.len(),
                posts@ == self.posts@.take(i as int),
            decreases self.posts@.len() - i,
        {
            posts.push(self.posts[i].clone());
            assert(self.posts@.take(i + 1) =~= self.posts@.take(i as int).push(self.posts@[i as int]));
            i = i + 1;
        }
        assert(self.posts@.take(i as int) =~= self.posts@);
        DevFeed { posts, next_id: self.next_id }
    }
}

} // verus!
