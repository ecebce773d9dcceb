//! The venue's ancillary content store — the "snacks" surface — modeled in
//! memory: slug-addressed entries with tags, comments, favorites and
//! follows.  The durable tables behind this surface live with the
//! persistence collaborator; this module owns the rules: how slugs are
//! formed, who may delete what, and what each query returns.

use vstd::prelude::*;

verus! {

/// An ascii lowercase letter, a digit, or a dash: the slug alphabet.
pub open spec fn is_slug_char(c: char) -> bool {
    ('0' <= c <= '9') || ('a' <= c <= 'z') || c == '-'
}

/// An ascii letter or digit: the suffix alphabet.
pub open spec fn is_alnum_char(c: char) -> bool {
    ('0' <= c <= '9') || ('A' <= c <= 'Z') || ('a' <= c <= 'z')
}

/// The slug the slugifier derives from a title; a function of the title's
/// characters alone.
pub uninterp spec fn slug_of(s: Seq<char>) -> Seq<char>;

/// Relies on `slug::slugify`: the result holds only `a`–`z`, `0`–`9` and
/// `-`, never more than one `-` in a row, never starts or ends with `-`,
/// and depends on the input characters alone.
#[verifier::external_body]
fn slug_raw(s: &str) -> (r: String)
    ensures
        r@ == slug_of(s@),
        forall|i: int| 0 <= i < r@.len() ==> is_slug_char(#[trigger] r@[i]),
        r@.len() > 0 ==> r@[0] != '-' && r@[r@.len() - 1] != '-',
        forall|i: int| 0 <= i < r@.len() - 1 ==> !((#[trigger] r@[i]) == '-' && r@[i + 1] == '-'),
{
    slug::slugify(s)
}

/// The slug an entry is addressed by, derived from its title.
pub fn slugify(title: &str) -> (r: String)
    ensures
        r@ == slug_of(title@),
        forall|i: int| 0 <= i < r@.len() ==> is_slug_char(#[trigger] r@[i]),
        r@.len() > 0 ==> r@[0] != '-' && r@[r@.len() - 1] != '-',
        forall|i: int| 0 <= i < r@.len() - 1 ==> !((#[trigger] r@[i]) == '-' && r@[i + 1] == '-'),
{
    slug_raw(title)
}

/// Relies on rand's `Alphanumeric` distribution through
/// `SampleString::sample_string`: a random string of exactly `len`
/// characters, each drawn from `A`–`Z`, `a`–`z`, `0`–`9`.  Which characters
/// come back is random; nothing more is promised.
#[verifier::external_body]
fn sample_alphanumeric(len: usize) -> (r: String)
    ensures
        r@.len() == len,
        forall|i: int| 0 <= i < r@.len() ==> is_alnum_char(#[trigger] r@[i]),
{
    rand::distr::SampleString::sample_string(&rand::distr::Alphanumeric, &mut rand::rng(), len)
}

/// A random alphanumeric suffix of the requested length, for slugs that
/// must not collide.
pub fn generate_suffix(len: usize) -> (r: String)
    ensures
        r@.len() == len,
        forall|i: int| 0 <= i < r@.len() ==> is_alnum_char(#[trigger] r@[i]),
{
    sample_alphanumeric(len)
}

/// One stored entry.
pub struct Snack {
    pub id: u64,
    pub author: u64,
    pub slug: String,
    pub title: String,
    pub description: String,
    pub body: String,
    pub tag_list: Vec<String>,
    pub favorites_count: u64,
}

/// One comment under an entry.
pub struct Comment {
    pub id: u64,
    pub snack_id: u64,
    pub author: u64,
    pub body: String,
}

/// The body of a new entry as decoded from the wire; the required fields
/// are still optional here and are checked by the handler.
pub struct NewsnackData {
    pub title: Option<String>,
    pub description: Option<String>,
    pub body: Option<String>,
    pub tag_list: Vec<String>,
}

/// The changes an update may carry.
pub struct UpdatesnackData {
    pub title: Option<String>,
    pub description: Option<String>,
    pub body: Option<String>,
    pub tag_list: Vec<String>,
}

/// The envelope an update arrives in.
pub struct Updatesnack {
    pub snack: UpdatesnackData,
}

/// The envelope a new comment arrives in.
pub struct NewComment {
    pub comment: NewCommentData,
}

/// The body of a new comment; required, but optional on the wire.
pub struct NewCommentData {
    pub body: Option<String>,
}

/// Whether some entry of `s` carries `slug`.
pub open spec fn has_slug(s: Seq<Snack>, slug: Seq<char>) -> bool {
    exists|i: int| 0 <= i < s.len() && (#[trigger] s[i]).slug@ == slug
}

/// The first index of `s` whose entry carries `slug`.
pub open spec fn slug_idx(s: Seq<Snack>, slug: Seq<char>) -> int
    decreases s.len(),
{
    if s.len() == 0 {
        0
    } else if s[0].slug@ == slug {
        0
    } else {
        1 + slug_idx(s.drop_first(), slug)
    }
}

/// `slug_idx` is exactly the first index whose entry carries the slug.
pub proof fn lemma_slug_idx_is(s: Seq<Snack>, slug: Seq<char>, i: int)
    requires
        0 <= i < s.len(),
        s[i].slug@ == slug,
        forall|j: int| 0 <= j < i ==> (#[trigger] s[j]).slug@ != slug,
    ensures
        slug_idx(s, slug) == i,
    decreases s.len(),
{
    if s[0].slug@ != slug {
        let t = s.drop_first();
        assert(t[i - 1].slug@ == slug);
        assert(forall|j: int| 0 <= j < i - 1 ==> (#[trigger] t[j]).slug@ != slug);
        lemma_slug_idx_is(t, slug, i - 1);
    }
}

/// The entries that survive deleting `slug` on behalf of `user_id`: every
/// entry except those carrying the slug and owned by that user.
pub open spec fn kept_snacks(s: Seq<Snack>, slug: Seq<char>, user_id: u64) -> Seq<Snack>
    decreases s.len(),
{
    if s.len() == 0 {
        Seq::empty()
    } else {
        kept_snacks(s.drop_last(), slug, user_id) + (if s.last().slug@ == slug && s.last().author
            == user_id {
            Seq::empty()
        } else {
            seq![s.last()]
        })
    }
}

/// The comments that survive deleting comment `id` under snack `snack_id`
/// on behalf of `user_id`.
pub open spec fn kept_comments(s: Seq<Comment>, snack_id: u64, id: u64, user_id: u64) -> Seq<
    Comment,
>
    decreases s.len(),
{
    if s.len() == 0 {
        Seq::empty()
    } else {
        kept_comments(s.drop_last(), snack_id, id, user_id) + (if s.last().id == id
            && s.last().snack_id == snack_id && s.last().author == user_id {
            Seq::empty()
        } else {
            seq![s.last()]
        })
    }
}

/// The in-memory content store.
pub struct SnackStore {
    pub snacks: Vec<Snack>,
    pub comments: Vec<Comment>,
    /// Pairs of (user, snack id) the user marked as a favorite.
    pub favorites: Vec<(u64, u64)>,
    /// Pairs of (follower, followed author).
    pub follows: Vec<(u64, u64)>,
    pub next_snack_id: u64,
    pub next_comment_id: u64,
}

impl SnackStore {
    /// An empty store.
    pub fn new() -> (r: SnackStore)
        ensures
            r.snacks@.len() == 0,
            r.comments@.len() == 0,
            r.favorites@.len() == 0,
            r.follows@.len() == 0,
            r.next_snack_id == 1,
            r.next_comment_id == 1,
    {
        SnackStore {
            snacks: Vec::new(),
            comments: Vec::new(),
            favorites: Vec::new(),
            follows: Vec::new(),
            next_snack_id: 1,
            next_comment_id: 1,
        }
    }

    /// Stores a new entry under the slug of its title and returns its id.
    pub fn create(
        &mut self,
        author: u64,
        title: &str,
        description: &str,
        body: &str,
        tag_list: Vec<String>,
    ) -> (r: u64)
        requires
            old(self).next_snack_id < u64::MAX,
        ensures
            r == old(self).next_snack_id,
            final(self).next_snack_id == old(self).next_snack_id + 1,
            final(self).snacks@.len() == old(self).snacks@.len() + 1,
            final(self).snacks@.drop_last() == old(self).snacks@,
            ({
                let s = final(self).snacks@.last();
                &&& s.id == r
                &&& s.author == author
                &&& s.slug@ == slug_of(title@)
                &&& s.title@ == title@
                &&& s.description@ == description@
                &&& s.body@ == body@
                &&& s.tag_list == tag_list
                &&& s.favorites_count == 0
            }),
            final(self).comments == old(self).comments,
            final(self).favorites == old(self).favorites,
            final(self).follows == old(self).follows,
            final(self).next_comment_id == old(self).next_comment_id,
    {
        let id = self.next_snack_id;
        self.next_snack_id = self.next_snack_id + 1;
        let snack = Snack {
            id,
            author,
            slug: slugify(title),
            title: title.to_owned(),
            description: description.to_owned(),
            body: body.to_owned(),
            tag_list,
            favorites_count: 0,
        };
        self.snacks.push(snack);
        proof {
            assert(final(self).snacks@.drop_last() =~= old(self).snacks@);
        }
        id
    }

    /// The index of the first entry stored under `slug`, if any.
    pub fn find_one(&self, slug: &String) -> (r: Option<usize>)
        ensures
            match r {
                Some(i) => {
                    &&& has_slug(self.snacks@, slug@)
                    &&& i == slug_idx(self.snacks@, slug@)
                    &&& i < self.snacks@.len()
                    &&& self.snacks@[i as int].slug@ == slug@
                },
                None => !has_slug(self.snacks@, slug@),
            },
    {
        let n = self.snacks.len();
        let mut i: usize = 0;
        while i < n
            invariant
                n == self.snacks@.len(),
                i <= n,
                forall|j: int| 0 <= j < i ==> (#[trigger] self.snacks@[j]).slug@ != slug@,
            decreases n - i,
        {
            if self.snacks[i].slug.eq(slug) {
                proof {
                    lemma_slug_idx_is(self.snacks@, slug@, i as int);
                }
                return Some(i);
            }
            i += 1;
        }
        None
    }
}

/// Deletes every entry stored under `slug` that `user_id` owns; entries of
/// other owners, and everything else in the store, stay untouched.
pub fn delete_snack(store: &mut SnackStore, slug: &String, user_id: u64)
    ensures
        final(store).snacks@ == kept_snacks(old(store).snacks@, slug@, user_id),
        final(store).comments == old(store).comments,
        final(store).favorites == old(store).favorites,
        final(store).follows == old(store).follows,
        final(store).next_snack_id == old(store).next_snack_id,
        final(store).next_comment_id == old(store).next_comment_id,
{
    let ghost s0 = store.snacks@;
    let mut taken: Vec<Snack> = Vec::new();
    core::mem::swap(&mut taken, &mut store.snacks);
    let ghost n = taken@.len() as int;
    while taken.len() > 0
        invariant
            taken@ == s0.skip(n - taken@.len()),
            taken@.len() <= n,
            n == s0.len(),
            store.snacks@ == kept_snacks(s0.take(n - taken@.len()), slug@, user_id),
            store.comments == old(store).comments,
            store.favorites == old(store).favorites,
            store.follows == old(store).follows,
            store.next_snack_id == old(store).next_snack_id,
            store.next_comment_id == old(store).next_comment_id,
        decreases taken@.len(),
    {
        let ghost j = n - taken@.len();
        let s = taken.remove(0);
        proof {
            assert(taken@ =~= s0.skip(j + 1));
            assert(s0.take(j + 1).drop_last() =~= s0.take(j));
            assert(s0.take(j + 1).last() == s0[j]);
        }
        let matches_owner = s.slug.eq(slug) && s.author == user_id;
        if !matches_owner {
            store.snacks.push(s);
        }
        proof {
            assert(store.snacks@ =~= kept_snacks(s0.take(j + 1), slug@, user_id));
        }
    }
    proof {
        assert(s0.take(n) =~= s0);
    }
}

/// Deletes the comment with `comment_id` under the entry stored at `slug`,
/// provided `user_id` wrote it; everything else stays untouched.  Without a
/// matching entry nothing changes.
pub fn delete_comment(store: &mut SnackStore, slug: &String, comment_id: u64, user_id: u64)
    ensures
        final(store).snacks == old(store).snacks,
        final(store).favorites == old(store).favorites,
        final(store).follows == old(store).follows,
        final(store).next_snack_id == old(store).next_snack_id,
        final(store).next_comment_id == old(store).next_comment_id,
        !has_slug(old(store).snacks@, slug@) ==> final(store).comments == old(store).comments,
        has_slug(old(store).snacks@, slug@) ==> final(store).comments@ == kept_comments(
            old(store).comments@,
            old(store).snacks@[slug_idx(old(store).snacks@, slug@)].id,
            comment_id,
            user_id,
        ),
{
    let snack_id = match store.find_one(slug) {
        Some(i) => store.snacks[i].id,
        None => {
            return ;
        },
    };
    let ghost c0 = store.comments@;
    let mut taken: Vec<Comment> = Vec::new();
    core::mem::swap(&mut taken, &mut store.comments);
    let ghost n = taken@.len() as int;
    while taken.len() > 0
        invariant
            taken@ == c0.skip(n - taken@.len()),
            taken@.len() <= n,
            n == c0.len(),
            store.comments@ == kept_comments(
                c0.take(n - taken@.len()),
                snack_id,
                comment_id,
                user_id,
            ),
            store.snacks == old(store).snacks,
            store.favorites == old(store).favorites,
            store.follows == old(store).follows,
            store.next_snack_id == old(store).next_snack_id,
            store.next_comment_id == old(store).next_comment_id,
        decreases taken@.len(),
    {
        let ghost j = n - taken@.len();
        let c = taken.remove(0);
        proof {
            assert(taken@ =~= c0.skip(j + 1));
            assert(c0.take(j + 1).drop_last() =~= c0.take(j));
            assert(c0.take(j + 1).last() == c0[j]);
        }
        let doomed = c.id == comment_id && c.snack_id == snack_id && c.author == user_id;
        if !doomed {
            store.comments.push(c);
        }
        proof {
            assert(store.comments@ =~= kept_comments(c0.take(j + 1), snack_id, comment_id, user_id));
        }
    }
    proof {
        assert(c0.take(n) =~= c0);
    }
}


/// Whether the pair `(a, b)` stands in `s`.
pub open spec fn has_pair(s: Seq<(u64, u64)>, a: u64, b: u64) -> bool {
    exists|i: int| 0 <= i < s.len() && (#[trigger] s[i]) == (a, b)
}

/// The favorite marks that survive removing `(user_id, snack_id)`.
pub open spec fn kept_favorites(s: Seq<(u64, u64)>, user_id: u64, snack_id: u64) -> Seq<(u64, u64)>
    decreases s.len(),
{
    if s.len() == 0 {
        Seq::empty()
    } else {
        kept_favorites(s.drop_last(), user_id, snack_id) + (if s.last() == (user_id, snack_id) {
            Seq::empty()
        } else {
            seq![s.last()]
        })
    }
}

/// Whether `tags` holds the tag `t`.
pub open spec fn has_tag_in(tags: Seq<String>, t: Seq<char>) -> bool {
    exists|i: int| 0 <= i < tags.len() && (#[trigger] tags[i])@ == t
}

/// Filters and pagination for searching the store.
pub struct FindSnacks {
    /// Widens an author filter: an entry passes when it matches either.
    pub tag: Option<String>,
    pub author: Option<u64>,
    /// Only entries this user marked as favorites.
    pub favorited: Option<u64>,
    pub limit: Option<usize>,
    pub offset: Option<usize>,
}

/// Pagination for the feed of followed authors.
pub struct FeedSnacks {
    pub limit: Option<usize>,
    pub offset: Option<usize>,
}

/// Whether an entry passes the search filters.  An author filter and a tag
/// filter are alternatives — an entry passes with either — while the
/// favorited filter always narrows.
pub open spec fn spec_matches_find(s: Snack, favs: Seq<(u64, u64)>, p: FindSnacks) -> bool {
    let base = match (p.author, p.tag) {
        (Some(a), Some(t)) => s.author == a || has_tag_in(s.tag_list@, t@),
        (Some(a), None) => s.author == a,
        (None, Some(t)) => has_tag_in(s.tag_list@, t@),
        (None, None) => true,
    };
    base && (match p.favorited {
        Some(u) => has_pair(favs, u, s.id),
        None => true,
    })
}

/// The indices of the entries a predicate picks, in store order.
pub open spec fn picked_idxs(s: Seq<Snack>, pred: spec_fn(Snack) -> bool) -> Seq<int>
    decreases s.len(),
{
    if s.len() == 0 {
        Seq::empty()
    } else {
        picked_idxs(s.drop_last(), pred) + (if pred(s.last()) {
            seq![s.len() - 1]
        } else {
            Seq::empty()
        })
    }
}

/// The search predicate of `find`, over a fixed favorites table.
pub open spec fn spec_find_pred(favs: Seq<(u64, u64)>, p: FindSnacks) -> spec_fn(Snack) -> bool {
    |s: Snack| spec_matches_find(s, favs, p)
}

/// The feed predicate: entries whose author `user_id` follows.
pub open spec fn spec_feed_pred(follows: Seq<(u64, u64)>, user_id: u64) -> spec_fn(Snack) -> bool {
    |s: Snack| has_pair(follows, user_id, s.author)
}

/// Every listed tag is used by some stored entry.
pub open spec fn tags_sound(snacks: Seq<Snack>, tags: Seq<String>) -> bool {
    forall|i: int|
        0 <= i < tags.len() ==> exists|k: int|
            0 <= k < snacks.len() && has_tag_in(
                (#[trigger] snacks[k]).tag_list@,
                (#[trigger] tags[i])@,
            )
}

/// Whether `tags` holds `t`, by characters.
fn has_tag_exec(tags: &Vec<String>, t: &String) -> (r: bool)
    ensures
        r == has_tag_in(tags@, t@),
{
    let n = tags.len();
    let mut i: usize = 0;
    while i < n
        invariant
            n == tags@.len(),
            i <= n,
            forall|j: int| 0 <= j < i ==> (#[trigger] tags@[j])@ != t@,
        decreases n - i,
    {
        if tags[i].eq(t) {
            return true;
        }
        i += 1;
    }
    false
}

/// Whether the pair `(a, b)` stands in `pairs`.
fn has_pair_exec(pairs: &Vec<(u64, u64)>, a: u64, b: u64) -> (r: bool)
    ensures
        r == has_pair(pairs@, a, b),
{
    let n = pairs.len();
    let mut i: usize = 0;
    while i < n
        invariant
            n == pairs@.len(),
            i <= n,
            forall|j: int| 0 <= j < i ==> (#[trigger] pairs@[j]) != (a, b),
        decreases n - i,
    {
        let p = pairs[i];
        if p.0 == a && p.1 == b {
            return true;
        }
        i += 1;
    }
    false
}

impl SnackStore {
    /// Whether `user_id` has marked the entry with `snack_id` a favorite.
    pub fn is_favorite(&self, snack_id: u64, user_id: u64) -> (r: bool)
        ensures
            r == has_pair(self.favorites@, user_id, snack_id),
    {
        has_pair_exec(&self.favorites, user_id, snack_id)
    }

    /// Marks the first entry under `slug` a favorite of `user_id`: its
    /// favorite count rises by one (it saturates rather than wraps) and the
    /// mark is recorded.  Returns whether such an entry exists.
    pub fn favorite(&mut self, slug: &String, user_id: u64) -> (r: bool)
        ensures
            r == has_slug(old(self).snacks@, slug@),
            !r ==> *final(self) == *old(self),
            r ==> ({
                let i = slug_idx(old(self).snacks@, slug@);
                let s = old(self).snacks@[i];
                let bumped = if s.favorites_count < u64::MAX {
                    (s.favorites_count + 1) as u64
                } else {
                    s.favorites_count
                };
                &&& final(self).snacks@ == old(self).snacks@.update(
                    i,
                    Snack { favorites_count: bumped, ..s },
                )
                &&& final(self).favorites@ == old(self).favorites@.push((user_id, s.id))
                &&& final(self).comments == old(self).comments
                &&& final(self).follows == old(self).follows
                &&& final(self).next_snack_id == old(self).next_snack_id
                &&& final(self).next_comment_id == old(self).next_comment_id
            }),
    {
        let i = match self.find_one(slug) {
            Some(i) => i,
            None => {
                return false;
            },
        };
        let mut s = self.snacks.remove(i);
        let snack_id = s.id;
        if s.favorites_count < u64::MAX {
            s.favorites_count = s.favorites_count + 1;
        }
        self.snacks.insert(i, s);
        self.favorites.push((user_id, snack_id));
        proof {
            assert(self.snacks@ =~= old(self).snacks@.update(i as int, self.snacks@[i as int]));
        }
        true
    }

    /// Withdraws `user_id`'s favorite mark from the first entry under
    /// `slug`: its count falls by one (never below zero) and the mark is
    /// removed.  Returns whether such an entry exists.
    pub fn unfavorite(&mut self, slug: &String, user_id: u64) -> (r: bool)
        ensures
            r == has_slug(old(self).snacks@, slug@),
            !r ==> *final(self) == *old(self),
            r ==> ({
                let i = slug_idx(old(self).snacks@, slug@);
                let s = old(self).snacks@[i];
                let dropped = if s.favorites_count > 0 {
                    (s.favorites_count - 1) as u64
                } else {
                    0
                };
                &&& final(self).snacks@ == old(self).snacks@.update(
                    i,
                    Snack { favorites_count: dropped, ..s },
                )
                &&& final(self).favorites@ == kept_favorites(old(self).favorites@, user_id, s.id)
                &&& final(self).comments == old(self).comments
                &&& final(self).follows == old(self).follows
                &&& final(self).next_snack_id == old(self).next_snack_id
                &&& final(self).next_comment_id == old(self).next_comment_id
            }),
    {
        let i = match self.find_one(slug) {
            Some(i) => i,
            None => {
                return false;
            },
        };
        let mut s = self.snacks.remove(i);
        let snack_id = s.id;
        if s.favorites_count > 0 {
            s.favorites_count = s.favorites_count - 1;
        }
        self.snacks.insert(i, s);
        let ghost f0 = self.favorites@;
        let mut taken: Vec<(u64, u64)> = Vec::new();
        core::mem::swap(&mut taken, &mut self.favorites);
        let ghost n = taken@.len() as int;
        let ghost sn = self.snacks@;
        while taken.len() > 0
            invariant
                taken@ == f0.skip(n - taken@.len()),
                taken@.len() <= n,
                n == f0.len(),
                self.favorites@ == kept_favorites(f0.take(n - taken@.len()), user_id, snack_id),
                self.snacks@ == sn,
                self.comments == old(self).comments,
                self.follows == old(self).follows,
                self.next_snack_id == old(self).next_snack_id,
                self.next_comment_id == old(self).next_comment_id,
            decreases taken@.len(),
        {
            let ghost j = n - taken@.len();
            let p = taken.remove(0);
            proof {
                assert(taken@ =~= f0.skip(j + 1));
                assert(f0.take(j + 1).drop_last() =~= f0.take(j));
                assert(f0.take(j + 1).last() == f0[j]);
            }
            if !(p.0 == user_id && p.1 == snack_id) {
                self.favorites.push(p);
            }
            proof {
                assert(self.favorites@ =~= kept_favorites(f0.take(j + 1), user_id, snack_id));
            }
        }
        proof {
            assert(f0.take(n) =~= f0);
            assert(self.snacks@ =~= old(self).snacks@.update(i as int, self.snacks@[i as int]));
        }
        true
    }

    /// Adds a comment under the first entry stored at `slug` and returns
    /// the comment's id, or nothing when no such entry exists.
    pub fn post_comment(&mut self, slug: &String, author: u64, body: String) -> (r: Option<u64>)
        requires
            old(self).next_comment_id < u64::MAX,
        ensures
            r is Some <==> has_slug(old(self).snacks@, slug@),
            r is None ==> *final(self) == *old(self),
            r is Some ==> ({
                let i = slug_idx(old(self).snacks@, slug@);
                &&& r == Some(old(self).next_comment_id)
                &&& final(self).next_comment_id == old(self).next_comment_id + 1
                &&& final(self).comments@.len() == old(self).comments@.len() + 1
                &&& final(self).comments@.drop_last() == old(self).comments@
                &&& final(self).comments@.last().id == old(self).next_comment_id
                &&& final(self).comments@.last().snack_id == old(self).snacks@[i].id
                &&& final(self).comments@.last().author == author
                &&& final(self).comments@.last().body@ == body@
                &&& final(self).snacks == old(self).snacks
                &&& final(self).favorites == old(self).favorites
                &&& final(self).follows == old(self).follows
                &&& final(self).next_snack_id == old(self).next_snack_id
            }),
    {
        let i = match self.find_one(slug) {
            Some(i) => i,
            None => {
                return None;
            },
        };
        let id = self.next_comment_id;
        self.next_comment_id = self.next_comment_id + 1;
        let snack_id = self.snacks[i].id;
        self.comments.push(Comment { id, snack_id, author, body });
        proof {
            assert(self.comments@.drop_last() =~= old(self).comments@);
        }
        Some(id)
    }

    /// Records that `follower` follows `followed`.
    pub fn follow(&mut self, follower: u64, followed: u64)
        ensures
            final(self).follows@ == old(self).follows@.push((follower, followed)),
            final(self).snacks == old(self).snacks,
            final(self).comments == old(self).comments,
            final(self).favorites == old(self).favorites,
            final(self).next_snack_id == old(self).next_snack_id,
            final(self).next_comment_id == old(self).next_comment_id,
    {
        self.follows.push((follower, followed));
    }

    /// Every distinct tag used by any stored entry, each once, in order of
    /// first appearance.
    pub fn tags(&self) -> (r: Vec<String>)
        ensures
            forall|i: int, j: int| 0 <= i < j < r@.len() ==> (#[trigger] r@[i])@ != (
            #[trigger] r@[j])@,
            tags_sound(self.snacks@, r@),
            forall|k: int, l: int|
                0 <= k < self.snacks@.len() && 0 <= l < (
                #[trigger] self.snacks@[k]).tag_list@.len() ==> has_tag_in(
                    r@,
                    (#[trigger] self.snacks@[k].tag_list@[l])@,
                ),
    {
        let n = self.snacks.len();
        let mut out: Vec<String> = Vec::new();
        let mut k: usize = 0;
        while k < n
            invariant
                n == self.snacks@.len(),
                k <= n,
                forall|i: int, j: int| 0 <= i < j < out@.len() ==> (#[trigger] out@[i])@ != (
                #[trigger] out@[j])@,
                tags_sound(self.snacks@, out@),
                forall|kk: int, l: int|
                    0 <= kk < k && 0 <= l < (#[trigger] self.snacks@[kk]).tag_list@.len()
                        ==> has_tag_in(out@, (#[trigger] self.snacks@[kk].tag_list@[l])@),
            decreases n - k,
        {
            let m = self.snacks[k].tag_list.len();
            let mut l: usize = 0;
            while l < m
                invariant
                    n == self.snacks@.len(),
                    k < n,
                    m == self.snacks@[k as int].tag_list@.len(),
                    l <= m,
                    forall|i: int, j: int| 0 <= i < j < out@.len() ==> (#[trigger] out@[i])@ != (
                    #[trigger] out@[j])@,
                    tags_sound(self.snacks@, out@),
                    forall|kk: int, ll: int|
                        0 <= kk < k && 0 <= ll < (#[trigger] self.snacks@[kk]).tag_list@.len()
                            ==> has_tag_in(out@, (#[trigger] self.snacks@[kk].tag_list@[ll])@),
                    forall|ll: int|
                        0 <= ll < l ==> has_tag_in(
                            out@,
                            (#[trigger] self.snacks@[k as int].tag_list@[ll])@,
                        ),
                decreases m - l,
            {
                let t = &self.snacks[k].tag_list[l];
                let ghost out0 = out@;
                if !has_tag_exec(&out, t) {
                    let copy = t.clone();
                    out.push(copy);
                    proof {
                        assert forall|i: int|
                            0 <= i < out0.len() implies has_tag_in(out@, (#[trigger] out0[i])@) by {
                            assert(out@[i] == out0[i]);
                        }
                        assert(out@[out@.len() - 1]@ == self.snacks@[k as int].tag_list@[l as int]@);
                        assert(has_tag_in(
                            self.snacks@[k as int].tag_list@,
                            out@[out@.len() - 1]@,
                        ));
                        assert(tags_sound(self.snacks@, out@)) by {
                            assert forall|i: int| 0 <= i < out@.len() implies exists|kk: int|
                                0 <= kk < self.snacks@.len() && has_tag_in(
                                    (#[trigger] self.snacks@[kk]).tag_list@,
                                    (#[trigger] out@[i])@,
                                ) by {
                                if i < out0.len() {
                                    assert(out@[i] == out0[i]);
                                    let w = choose|kk: int|
                                        0 <= kk < self.snacks@.len() && has_tag_in(
                                            (#[trigger] self.snacks@[kk]).tag_list@,
                                            out0[i]@,
                                        );
                                    assert(has_tag_in(self.snacks@[w].tag_list@, out@[i]@));
                                } else {
                                    assert(has_tag_in(self.snacks@[k as int].tag_list@, out@[i]@));
                                }
                            }
                        }
                    }
                }
                proof {
                    assert forall|kk: int, ll: int|
                        0 <= kk < k && 0 <= ll < (#[trigger] self.snacks@[kk]).tag_list@.len()
                            implies has_tag_in(
                        out@,
                        (#[trigger] self.snacks@[kk].tag_list@[ll])@,
                    ) by {
                        let w = choose|i: int|
                            0 <= i < out0.len() && (#[trigger] out0[i])@
                                == self.snacks@[kk].tag_list@[ll]@;
                        assert(out@[w]@ == self.snacks@[kk].tag_list@[ll]@);
                    }
                    assert forall|ll: int| 0 <= ll < l + 1 implies has_tag_in(
                        out@,
                        (#[trigger] self.snacks@[k as int].tag_list@[ll])@,
                    ) by {
                        if ll < l {
                            let w = choose|i: int|
                                0 <= i < out0.len() && (#[trigger] out0[i])@
                                    == self.snacks@[k as int].tag_list@[ll]@;
                            assert(out@[w]@ == self.snacks@[k as int].tag_list@[ll]@);
                        } else {
                            if has_tag_in(out0, self.snacks@[k as int].tag_list@[ll]@) {
                                let w = choose|i: int|
                                    0 <= i < out0.len() && (#[trigger] out0[i])@
                                        == self.snacks@[k as int].tag_list@[ll]@;
                                assert(out@[w]@ == self.snacks@[k as int].tag_list@[ll]@);
                            }
                        }
                    }
                }
                l += 1;
            }
            k += 1;
        }
        out
    }

    /// Searches the store and pages the result: the indices of the matching
    /// entries in the requested window, in store order, together with the
    /// total number of matches.
    pub fn find(&self, params: &FindSnacks) -> (r: (Vec<usize>, usize))
        ensures
            ({
                let idxs = picked_idxs(self.snacks@, spec_find_pred(self.favorites@, *params));
                let window = crate::instruments::spec_page(
                    idxs.len() as int,
                    params.limit,
                    params.offset,
                );
                &&& r.1 == idxs.len()
                &&& r.0@.len() == window.1 - window.0
                &&& forall|k: int|
                    0 <= k < r.0@.len() ==> (#[trigger] r.0@[k]) as int == idxs[window.0 + k]
            }),
    {
        let ghost pred = spec_find_pred(self.favorites@, *params);
        let n = self.snacks.len();
        let mut all: Vec<usize> = Vec::new();
        let mut i: usize = 0;
        while i < n
            invariant
                n == self.snacks@.len(),
                i <= n,
                pred == spec_find_pred(self.favorites@, *params),
                all@.len() == picked_idxs(self.snacks@.take(i as int), pred).len(),
                forall|k: int|
                    0 <= k < all@.len() ==> (#[trigger] all@[k]) as int == picked_idxs(
                        self.snacks@.take(i as int),
                        pred,
                    )[k],
                forall|k: int| 0 <= k < all@.len() ==> (#[trigger] all@[k]) < i,
            decreases n - i,
        {
            let ghost before = picked_idxs(self.snacks@.take(i as int), pred);
            let s = &self.snacks[i];
            let base = match (params.author, &params.tag) {
                (Some(a), Some(t)) => s.author == a || has_tag_exec(&s.tag_list, t),
                (Some(a), None) => s.author == a,
                (None, Some(t)) => has_tag_exec(&s.tag_list, t),
                (None, None) => true,
            };
            let hit = base && (match params.favorited {
                Some(u) => has_pair_exec(&self.favorites, u, s.id),
                None => true,
            });
            proof {
                assert(self.snacks@.take(i as int + 1).drop_last() =~= self.snacks@.take(i as int));
                assert(self.snacks@.take(i as int + 1).last() == self.snacks@[i as int]);
                assert(hit == pred(self.snacks@[i as int]));
            }
            if hit {
                all.push(i);
            }
            i += 1;
        }
        proof {
            assert(self.snacks@.take(n as int) =~= self.snacks@);
        }
        let total = all.len();
        let page = page_of(&all, params.limit, params.offset);
        (page, total)
    }

    /// The feed: indices of the entries whose author `user_id` follows, in
    /// store order, paged by the requested window.
    pub fn feed(&self, params: &FeedSnacks, user_id: u64) -> (r: Vec<usize>)
        ensures
            ({
                let idxs = picked_idxs(self.snacks@, spec_feed_pred(self.follows@, user_id));
                let window = crate::instruments::spec_page(
                    idxs.len() as int,
                    params.limit,
                    params.offset,
                );
                &&& r@.len() == window.1 - window.0
                &&& forall|k: int|
                    0 <= k < r@.len() ==> (#[trigger] r@[k]) as int == idxs[window.0 + k]
            }),
    {
        let ghost pred = spec_feed_pred(self.follows@, user_id);
        let n = self.snacks.len();
        let mut all: Vec<usize> = Vec::new();
        let mut i: usize = 0;
        while i < n
            invariant
                n == self.snacks@.len(),
                i <= n,
                pred == spec_feed_pred(self.follows@, user_id),
                all@.len() == picked_idxs(self.snacks@.take(i as int), pred).len(),
                forall|k: int|
                    0 <= k < all@.len() ==> (#[trigger] all@[k]) as int == picked_idxs(
                        self.snacks@.take(i as int),
                        pred,
                    )[k],
                forall|k: int| 0 <= k < all@.len() ==> (#[trigger] all@[k]) < i,
            decreases n - i,
        {
            let ghost before = picked_idxs(self.snacks@.take(i as int), pred);
            let hit = has_pair_exec(&self.follows, user_id, self.snacks[i].author);
            proof {
                assert(self.snacks@.take(i as int + 1).drop_last() =~= self.snacks@.take(i as int));
                assert(self.snacks@.take(i as int + 1).last() == self.snacks@[i as int]);
                assert(hit == pred(self.snacks@[i as int]));
            }
            if hit {
                all.push(i);
            }
            i += 1;
        }
        proof {
            assert(self.snacks@.take(n as int) =~= self.snacks@);
        }
        page_of(&all, params.limit, params.offset)
    }
}

/// The requested window of an index listing.
fn page_of(all: &Vec<usize>, limit: Option<usize>, offset: Option<usize>) -> (r: Vec<usize>)
    ensures
        ({
            let window = crate::instruments::spec_page(all@.len() as int, limit, offset);
            &&& r@.len() == window.1 - window.0
            &&& forall|k: int| 0 <= k < r@.len() ==> (#[trigger] r@[k]) == all@[window.0 + k]
        }),
{
    let len = all.len();
    let from = match offset {
        Some(o) => if o <= len {
            o
        } else {
            len
        },
        None => 0,
    };
    let want = match limit {
        Some(l) => l,
        None => crate::instruments::DEFAULT_PAGE_LIMIT,
    };
    let until = if want <= len - from {
        from + want
    } else {
        len
    };
    let mut out: Vec<usize> = Vec::new();
    let mut i: usize = from;
    while i < until
        invariant
            from <= i <= until || (i == from && until < from),
            until <= len,
            len == all@.len(),
            out@.len() == i - from,
            forall|k: int| 0 <= k < out@.len() ==> (#[trigger] out@[k]) == all@[from + k],
        decreases until - i,
    {
        out.push(all[i]);
        i += 1;
    }
    out
}

} // verus!
