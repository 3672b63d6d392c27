//! The history container and its listeners.
//!
//! A [`History`] is a fixed-capacity, insertion-ordered buffer of
//! [`Post`]s. When it is full and a new message is added, the oldest one is
//! removed so that the size stays bounded. Each post added through
//! [`History::add_post_at`] is assigned an identifier from a sequence that
//! starts at 1 and increases by one per insertion. Registered
//! [`HistoryListener`]s are notified of every eviction and insertion, in
//! registration order, eviction first.

use crate::digits::all_digits;
use crate::post::{views_of, Post, PostView, UserPost, UserPostView};
use crate::timestamp::{calendar_date_of, clock_now, format_timestamp, hms_of};
use std::collections::vec_deque::{Iter, VecDeque};
use vstd::prelude::*;
use vstd::std_specs::iter::IteratorSpec;

verus! {

/// An event signalled by the history: a post was added to the buffer, or
/// the oldest post was removed from it.
pub enum HistoryEvent {
    Added(PostView),
    Removed(PostView),
}

/// One delivered notification: the registration index of the listener that
/// received it, and the event it was given.
pub struct Notice {
    pub target: int,
    pub event: HistoryEvent,
}

/// The interface for listening to [`History`] events.
///
/// A listener is notified of each new post added to the history and of each
/// oldest post removed from it. The `log` spec function abstracts the
/// sequence of events a listener has received so far; both notification
/// methods append the delivered event to it.
pub trait HistoryListener: Sized {
    /// The sequence of events this listener has been notified of, oldest
    /// first.
    spec fn log(&self) -> Seq<HistoryEvent>;

    /// Notifies that a new post has been added to the history.
    fn post_added(&mut self, p_post: &Post)
        ensures
            final(self).log() == old(self).log().push(HistoryEvent::Added(p_post@)),
    ;

    /// Notifies that the oldest post has been removed from the history.
    fn post_removed(&mut self, p_post: &Post)
        ensures
            final(self).log() == old(self).log().push(HistoryEvent::Removed(p_post@)),
    ;
}

/// The notices produced by delivering one event to `n` listeners, in
/// registration order.
pub open spec fn fanout(event: HistoryEvent, n: nat) -> Seq<Notice> {
    Seq::new(n, |i: int| Notice { target: i, event })
}

/// The post evicted by an insertion into a buffer of the given contents and
/// capacity: the oldest post when the buffer is full, none otherwise.
pub open spec fn evicted(posts: Seq<PostView>, max: nat) -> Option<PostView> {
    if posts.len() >= max {
        Some(posts[0])
    } else {
        None
    }
}

/// The buffer contents once an insertion has made room: unchanged when not
/// full, otherwise with the oldest post dropped.
pub open spec fn after_eviction(posts: Seq<PostView>, max: nat) -> Seq<PostView> {
    if posts.len() >= max {
        posts.drop_first()
    } else {
        posts
    }
}

/// The buffer contents after inserting `p` into a buffer of the given
/// contents and capacity: room is made if needed, then `p` is appended.
pub open spec fn inserted(posts: Seq<PostView>, max: nat, p: PostView) -> Seq<PostView> {
    after_eviction(posts, max).push(p)
}

/// The post built from a submission by assigning it an id and a datetime.
pub open spec fn new_post_view(id: u64, time: Seq<char>, sub: UserPostView) -> PostView {
    PostView {
        id,
        time,
        login: sub.login,
        user_agent: sub.user_agent,
        message: sub.message,
    }
}

/// The events delivered to every listener by one notified insertion of `p`:
/// the eviction, if one happened, then the addition.
pub open spec fn insertion_events(posts: Seq<PostView>, max: nat, p: PostView) -> Seq<
    HistoryEvent,
> {
    match evicted(posts, max) {
        Some(e) => seq![HistoryEvent::Removed(e), HistoryEvent::Added(p)],
        None => seq![HistoryEvent::Added(p)],
    }
}

/// The notices appended to the notification trace by one notified insertion
/// of `p` with `n` registered listeners: the eviction, if one happened, is
/// reported to every listener in registration order before the addition is.
pub open spec fn insertion_trace(posts: Seq<PostView>, max: nat, p: PostView, n: nat) -> Seq<
    Notice,
> {
    match evicted(posts, max) {
        Some(e) => fanout(HistoryEvent::Removed(e), n) + fanout(HistoryEvent::Added(p), n),
        None => fanout(HistoryEvent::Added(p), n),
    }
}

/// The full effect of one notified insertion on a history: `post` is `pre`
/// with the submission `sub` inserted under the id `pre.next_id()` and the
/// datetime `ts`; the id counter has moved one up; every listener was told
/// of the eviction, if one happened, and then of the addition, in
/// registration order, and the notification trace records all of it.
pub open spec fn post_insertion<L: HistoryListener>(
    pre: History<L>,
    post: History<L>,
    sub: UserPostView,
    ts: Seq<char>,
    id: u64,
) -> bool {
    let npv = new_post_view(pre.next_id(), ts, sub);
    &&& id == pre.next_id()
    &&& post.next_id() == pre.next_id() + 1
    &&& post.board_name_view() == pre.board_name_view()
    &&& post.max_size_spec() == pre.max_size_spec()
    &&& post.posts() == inserted(pre.posts(), pre.max_size_spec(), npv)
    &&& post.listeners().len() == pre.listeners().len()
    &&& (forall|i: int|
        0 <= i < pre.listeners().len() ==> post.listeners()[i].log() == pre.listeners()[i].log()
            + insertion_events(pre.posts(), pre.max_size_spec(), npv))
    &&& post.trace() == pre.trace() + insertion_trace(
        pre.posts(),
        pre.max_size_spec(),
        npv,
        pre.listeners().len(),
    )
}

/// One notified insertion of `sub` under some fourteen-digit timestamp:
/// what [`History::add_post`] guarantees of a successful call, with the
/// timestamp string abstracted away since it came from the wall clock.
pub open spec fn timestamped_insertion<L: HistoryListener>(
    pre: History<L>,
    post: History<L>,
    sub: UserPostView,
    id: u64,
) -> bool {
    exists|ts: Seq<char>|
        {
            &&& #[trigger] post_insertion(pre, post, sub, ts, id)
            &&& ts.len() == 14
            &&& all_digits(ts)
        }
}

/// One submission handed to the buffer during a run of insertions: the
/// submission itself and the timestamp it is inserted under.
pub struct Insertion {
    pub sub: UserPostView,
    pub time: Seq<char>,
}

/// The outcome of a run of insertions: the buffer contents, the id
/// counter, and the ids that were assigned, in order.
pub struct InsertionRun {
    pub posts: Seq<PostView>,
    pub next: int,
    pub ids: Seq<int>,
}

/// The buffer contents, id counter and assigned ids after handing the
/// submissions of `entries` one by one to a buffer of capacity `max`, as
/// [`History::add_post_at`] does, starting from contents `posts` and
/// counter `next`.
pub open spec fn run_insertions(
    posts: Seq<PostView>,
    max: nat,
    next: int,
    entries: Seq<Insertion>,
) -> InsertionRun
    decreases entries.len(),
{
    if entries.len() == 0 {
        InsertionRun { posts, next, ids: Seq::empty() }
    } else {
        let prev = run_insertions(posts, max, next, entries.drop_last());
        let e = entries.last();
        InsertionRun {
            posts: inserted(prev.posts, max, new_post_view(prev.next as u64, e.time, e.sub)),
            next: prev.next + 1,
            ids: prev.ids.push(prev.next),
        }
    }
}

/// Law: a run of insertions never grows the buffer beyond its capacity,
/// and fills it one post per insertion while there is room: after the run
/// the buffer holds `min(posts.len() + entries.len(), max)` posts.
pub proof fn lemma_run_insertions_size(
    posts: Seq<PostView>,
    max: nat,
    next: int,
    entries: Seq<Insertion>,
)
    requires
        max >= 1,
        posts.len() <= max,
    ensures
        run_insertions(posts, max, next, entries).posts.len() == vstd::math::min(
            posts.len() as int + entries.len() as int,
            max as int,
        ),
    decreases entries.len(),
{
    if entries.len() > 0 {
        lemma_run_insertions_size(posts, max, next, entries.drop_last());
    }
}

/// Law: after any sequence of `N` insertions into a fresh history of
/// capacity `M`, the size is at most `M`, and exactly `N` when `N <= M`.
pub proof fn lemma_insertions_into_fresh_size(max: nat, entries: Seq<Insertion>)
    requires
        max >= 1,
    ensures
        run_insertions(Seq::empty(), max, 1, entries).posts.len() <= max,
        entries.len() <= max ==> run_insertions(Seq::empty(), max, 1, entries).posts.len()
            == entries.len(),
{
    lemma_run_insertions_size(Seq::empty(), max, 1, entries);
}

/// Law: successive insertions assign consecutive ids. The ids handed out
/// by a run are `next, next + 1, next + 2, ...` in insertion order — each
/// id is exactly one more than the previous — and the counter ends at
/// `next + entries.len()`. From a fresh history, where the counter starts
/// at 1, the assigned ids are exactly 1, 2, 3, ...
pub proof fn lemma_run_insertions_ids(
    posts: Seq<PostView>,
    max: nat,
    next: int,
    entries: Seq<Insertion>,
)
    ensures
        run_insertions(posts, max, next, entries).next == next + entries.len(),
        run_insertions(posts, max, next, entries).ids == Seq::new(
            entries.len(),
            |i: int| next + i,
        ),
    decreases entries.len(),
{
    if entries.len() == 0 {
        assert(run_insertions(posts, max, next, entries).ids =~= Seq::new(
            entries.len(),
            |i: int| next + i,
        ));
    } else {
        lemma_run_insertions_ids(posts, max, next, entries.drop_last());
        assert(run_insertions(posts, max, next, entries).ids =~= Seq::new(
            entries.len(),
            |i: int| next + i,
        ));
    }
}

/// The buffer contents after restoring the stored `records` one by one, as
/// [`History::add_full_post`] does, into a buffer of capacity `max`
/// starting from contents `posts`.
pub open spec fn run_restore(posts: Seq<PostView>, max: nat, records: Seq<PostView>) -> Seq<
    PostView,
>
    decreases records.len(),
{
    if records.len() == 0 {
        posts
    } else {
        inserted(run_restore(posts, max, records.drop_last()), max, records.last())
    }
}

/// Restoring records into a fresh history keeps exactly the newest `max`
/// of them: the buffer ends up holding the last `min(records.len(), max)`
/// records, in their stored order.
pub proof fn lemma_run_restore_suffix(max: nat, records: Seq<PostView>)
    requires
        max >= 1,
    ensures
        run_restore(Seq::empty(), max, records) == records.skip(
            if records.len() <= max {
                0
            } else {
                records.len() - max
            },
        ),
    decreases records.len(),
{
    if records.len() == 0 {
        assert(run_restore(Seq::empty(), max, records) =~= records.skip(0));
    } else {
        lemma_run_restore_suffix(max, records.drop_last());
        let m: int = if records.len() <= max {
            0
        } else {
            records.len() - max
        };
        assert(run_restore(Seq::empty(), max, records) =~= records.skip(m));
    }
}

/// Law: restoring at most `max` records into a fresh history of capacity
/// `max` reproduces exactly the stored records, in their stored order and
/// with their stored ids. (That no listener is notified along the way is
/// part of [`History::add_full_post`]'s own contract: it leaves the
/// listeners and the notification trace untouched.)
pub proof fn lemma_restore_into_fresh(max: nat, records: Seq<PostView>)
    requires
        max >= 1,
        records.len() <= max,
    ensures
        run_restore(Seq::empty(), max, records) == records,
    decreases records.len(),
{
    if records.len() == 0 {
        assert(run_restore(Seq::empty(), max, records) =~= records);
    } else {
        lemma_restore_into_fresh(max, records.drop_last());
        assert(run_restore(Seq::empty(), max, records) =~= records);
    }
}

/// Law: the notices of one notified insertion come in a fixed order. If an
/// eviction happened, every listener hears of the removal before any
/// listener hears of the addition; and each event reaches the listeners in
/// registration order, the notice to listener `i` standing right before
/// the notice to listener `i + 1`. In particular, of two listeners
/// registered one before the other, the earlier one is always notified
/// first.
pub proof fn lemma_insertion_trace_order(posts: Seq<PostView>, max: nat, p: PostView, n: nat)
    ensures
        ({
            let tr = insertion_trace(posts, max, p, n);
            let off: int = if posts.len() >= max {
                n as int
            } else {
                0
            };
            &&& tr.len() == off + n
            &&& (posts.len() >= max ==> forall|i: int|
                0 <= i < n ==> tr[i] == (Notice {
                    target: i,
                    event: HistoryEvent::Removed(posts[0]),
                }))
            &&& forall|i: int|
                0 <= i < n ==> tr[off + i] == (Notice { target: i, event: HistoryEvent::Added(p) })
        }),
{
    let tr = insertion_trace(posts, max, p, n);
    if posts.len() >= max {
        let rem = fanout(HistoryEvent::Removed(posts[0]), n);
        let add = fanout(HistoryEvent::Added(p), n);
        assert forall|i: int| 0 <= i < n implies tr[n + i] == (Notice {
            target: i,
            event: HistoryEvent::Added(p),
        }) by {
            assert(tr[n + i] == add[i]);
        }
    }
}

/// The event dispatcher used internally by `History` to manage the
/// listeners and deliver the events to each of them in registration order.
struct HistoryEventDispatcher<L: HistoryListener> {
    listeners: Vec<L>,
    /// The full trace of notices delivered so far, in delivery order.
    trace: Ghost<Seq<Notice>>,
}

impl<L: HistoryListener> HistoryEventDispatcher<L> {
    spec fn listeners_seq(&self) -> Seq<L> {
        self.listeners@
    }

    spec fn trace(&self) -> Seq<Notice> {
        self.trace@
    }

    /// Constructs an event dispatcher with no listeners.
    fn new() -> (r: Self)
        ensures
            r.listeners_seq() == Seq::<L>::empty(),
            r.trace() == Seq::<Notice>::empty(),
    {
        HistoryEventDispatcher { listeners: Vec::new(), trace: Ghost(Seq::empty()) }
    }

    /// Adds a listener to this dispatcher.
    fn add_listener(&mut self, p_listener: L)
        ensures
            final(self).listeners_seq() == old(self).listeners_seq().push(p_listener),
            final(self).trace() == old(self).trace(),
    {
        self.listeners.push(p_listener);
    }

    /// Dispatches `post_added(p_post)` to every registered listener, in
    /// registration order.
    fn post_added(&mut self, p_post: &Post)
        ensures
            final(self).listeners_seq().len() == old(self).listeners_seq().len(),
            forall|i: int|
                0 <= i < old(self).listeners_seq().len() ==> final(self).listeners_seq()[i].log()
                    == old(self).listeners_seq()[i].log().push(HistoryEvent::Added(p_post@)),
            final(self).trace() == old(self).trace() + fanout(
                HistoryEvent::Added(p_post@),
                old(self).listeners_seq().len(),
            ),
    {
        self.dispatch(p_post, true);
    }

    /// Dispatches `post_removed(p_post)` to every registered listener, in
    /// registration order.
    fn post_removed(&mut self, p_post: &Post)
        ensures
            final(self).listeners_seq().len() == old(self).listeners_seq().len(),
            forall|i: int|
                0 <= i < old(self).listeners_seq().len() ==> final(self).listeners_seq()[i].log()
                    == old(self).listeners_seq()[i].log().push(HistoryEvent::Removed(p_post@)),
            final(self).trace() == old(self).trace() + fanout(
                HistoryEvent::Removed(p_post@),
                old(self).listeners_seq().len(),
            ),
    {
        self.dispatch(p_post, false);
    }

    /// Delivers one event about `p_post` to every listener in registration
    /// order, recording each delivery in the trace.
    #[verifier::loop_isolation(false)]
    fn dispatch(&mut self, p_post: &Post, added: bool)
        ensures
            ({
                let ev = if added {
                    HistoryEvent::Added(p_post@)
                } else {
                    HistoryEvent::Removed(p_post@)
                };
                &&& final(self).listeners_seq().len() == old(self).listeners_seq().len()
                &&& forall|i: int|
                    0 <= i < old(self).listeners_seq().len() ==> final(self).listeners_seq()[i].log()
                        == old(self).listeners_seq()[i].log().push(ev)
                &&& final(self).trace() == old(self).trace() + fanout(
                    ev,
                    old(self).listeners_seq().len(),
                )
            }),
    {
        let ghost ev = if added {
            HistoryEvent::Added(p_post@)
        } else {
            HistoryEvent::Removed(p_post@)
        };
        let ghost orig = self.listeners@;
        let ghost orig_trace = self.trace@;
        let n = self.listeners.len();
        for j in 0..n
            invariant
                n == orig.len(),
                self.listeners@.len() == n,
                forall|i: int| 0 <= i < j ==> self.listeners@[i].log() == orig[i].log().push(ev),
                forall|i: int| j <= i < n ==> self.listeners@[i] == orig[i],
                self.trace@ == orig_trace + fanout(ev, j as nat),
        {
            let ghost pre = self.listeners@;
            let mut l = self.listeners.remove(j);
            if added {
                l.post_added(p_post);
            } else {
                l.post_removed(p_post);
            }
            self.listeners.insert(j, l);
            proof {
                assert(self.listeners@ =~= pre.update(j as int, l));
                assert(orig_trace + fanout(ev, (j + 1) as nat) =~= (orig_trace + fanout(
                    ev,
                    j as nat,
                )).push(Notice { target: j as int, event: ev }));
            }
            self.trace = Ghost(self.trace@.push(Notice { target: j as int, event: ev }));
        }
    }
}

/// The shared state of a board: its name, its current posts (oldest first)
/// and the maximum number of posts kept.
pub struct HistoryData {
    pub board_name: String,
    pub posts: VecDeque<Post>,
    pub max_size: usize,
}

/// A `History` contains the current messages of a board.
///
/// The buffer has a fixed maximum size, set at construction: when a
/// `History` is full and a new message is added, the oldest one is removed
/// to maintain a constant size.
///
/// When a post is added to the history, it gains a timestamp and an id.
/// The id is generated by a sequence held by the `History`; this sequence
/// starts at 1 and is incremented for each post.
///
/// Finally, a `History` signals events to its listeners, implementors of
/// the [`HistoryListener`] trait.
pub struct History<L: HistoryListener> {
    data: HistoryData,
    next_post_id: u64,
    events: HistoryEventDispatcher<L>,
}

impl<L: HistoryListener> History<L> {
    /// The name of the board this history belongs to.
    pub closed spec fn board_name_view(&self) -> Seq<char> {
        self.data.board_name@
    }

    /// The posts currently in the buffer, oldest first.
    pub closed spec fn posts(&self) -> Seq<PostView> {
        self.data.posts@.map_values(|p: Post| p@)
    }

    /// The maximum number of posts the buffer keeps.
    pub closed spec fn max_size_spec(&self) -> nat {
        self.data.max_size as nat
    }

    /// The id that the next notified insertion will assign.
    pub closed spec fn next_id(&self) -> u64 {
        self.next_post_id
    }

    /// The registered listeners, in registration order.
    pub closed spec fn listeners(&self) -> Seq<L> {
        self.events.listeners_seq()
    }

    /// The full trace of notices delivered to listeners so far.
    pub closed spec fn trace(&self) -> Seq<Notice> {
        self.events.trace()
    }

    /// Well-formedness of the buffer: the capacity is positive, the size
    /// never exceeds it, ids strictly increase in buffer order, and every
    /// stored id is below the id counter.
    pub open spec fn wf(&self) -> bool {
        &&& self.max_size_spec() >= 1
        &&& self.posts().len() <= self.max_size_spec()
        &&& forall|i: int, j: int|
            0 <= i < j < self.posts().len() ==> self.posts()[i].id < self.posts()[j].id
        &&& forall|i: int| 0 <= i < self.posts().len() ==> self.posts()[i].id < self.next_id()
    }

    /// Constructs a new, empty `History` for a board of the given name,
    /// keeping at most `p_max_size` posts.
    pub fn new(p_name: &String, p_max_size: usize) -> (r: History<L>)
        requires
            p_max_size >= 1,
        ensures
            r.wf(),
            r.board_name_view() == p_name@,
            r.posts() == Seq::<PostView>::empty(),
            r.max_size_spec() == p_max_size as nat,
            r.next_id() == 1u64,
            r.listeners() == Seq::<L>::empty(),
            r.trace() == Seq::<Notice>::empty(),
    {
        let r = History {
            data: HistoryData {
                board_name: p_name.clone(),
                posts: VecDeque::new(),
                max_size: p_max_size,
            },
            next_post_id: 1,
            events: HistoryEventDispatcher::new(),
        };
        proof {
            assert(r.posts() =~= Seq::<PostView>::empty());
        }
        r
    }

    /// Gives the name of the board represented by this history.
    pub fn board_name(&self) -> (r: &String)
        ensures
            r@ == self.board_name_view(),
    {
        &self.data.board_name
    }

    /// Gives the current number of posts in the history.
    pub fn size(&self) -> (r: usize)
        ensures
            r == self.posts().len(),
    {
        self.data.posts.len()
    }

    /// Gives the id that the next notified insertion will assign.
    pub fn next_post_id(&self) -> (r: u64)
        ensures
            r == self.next_id(),
    {
        self.next_post_id
    }

    /// Appends a full post at the end of the history.
    ///
    /// The given `Post` is added as-is, keeping its pre-existing id and
    /// datetime; this is meant for reloading previously stored posts. The
    /// oldest post is dropped first if the history is full, and no listener
    /// is notified of either change. The id counter is advanced to the
    /// given post's id plus one, but never decreased.
    ///
    /// Posts must be restored in increasing id order; the caller checks
    /// this before handing a record over.
    pub fn add_full_post(&mut self, p_post: Post)
        requires
            old(self).wf(),
            p_post@.id < u64::MAX,
            forall|i: int|
                0 <= i < old(self).posts().len() ==> old(self).posts()[i].id < p_post@.id,
        ensures
            final(self).wf(),
            final(self).posts() == inserted(
                old(self).posts(),
                old(self).max_size_spec(),
                p_post@,
            ),
            final(self).next_id() == if old(self).next_id() >= p_post@.id + 1 {
                old(self).next_id()
            } else {
                (p_post@.id + 1) as u64
            },
            final(self).board_name_view() == old(self).board_name_view(),
            final(self).max_size_spec() == old(self).max_size_spec(),
            final(self).listeners() == old(self).listeners(),
            final(self).trace() == old(self).trace(),
    {
        let ghost orig_posts = self.posts();
        // Remove the oldest post if the history would exceed its maximum size
        if self.data.posts.len() >= self.data.max_size {
            let _evicted = self.data.posts.pop_front();
        }
        proof {
            assert(self.posts() =~= after_eviction(orig_posts, self.max_size_spec()));
        }
        // Add the new post
        let post_id = p_post.id();
        self.data.posts.push_back(p_post);
        // Advance the post id counter, never decreasing it
        if self.next_post_id < post_id + 1 {
            self.next_post_id = post_id + 1;
        }
        proof {
            assert(self.posts() =~= inserted(orig_posts, self.max_size_spec(), p_post@));
        }
    }

    /// Appends a post at the end of the history, using the given datetime
    /// as its timestamp.
    ///
    /// The given `UserPost` is converted into a [`Post`] by giving it the
    /// datetime and a unique id, the current value of the id sequence. If
    /// the history is full, the oldest post is removed first and every
    /// listener is told of the removal before any is told of the addition;
    /// both notifications reach the listeners in registration order.
    ///
    /// Returns the id attributed to the post.
    pub fn add_post_at(&mut self, p_user_post: UserPost, p_datetime: String) -> (id: u64)
        requires
            old(self).wf(),
            old(self).next_id() < u64::MAX,
        ensures
            final(self).wf(),
            post_insertion(*old(self), *final(self), p_user_post@, p_datetime@, id),
    {
        let ghost orig_posts = self.posts();
        let ghost orig_listeners = self.listeners();
        let ghost orig_trace = self.trace();
        let ghost npv = new_post_view(self.next_post_id, p_datetime@, p_user_post@);

        // Create the new Post
        let post = Post::new(self.next_post_id, p_datetime, p_user_post);

        // Remove the oldest post if the history would exceed its maximum
        // size, telling every listener about the removal
        if self.data.posts.len() >= self.data.max_size {
            match self.data.posts.pop_front() {
                Some(oldest) => {
                    self.events.post_removed(&oldest);
                },
                None => {},
            }
        }
        proof {
            assert(self.posts() =~= after_eviction(orig_posts, self.max_size_spec()));
        }

        // Add the new post, telling every listener about the addition
        let post_id = post.id();
        self.events.post_added(&post);
        self.data.posts.push_back(post);

        // Increment the post id counter
        self.next_post_id = self.next_post_id + 1;

        proof {
            assert(self.posts() =~= inserted(orig_posts, self.max_size_spec(), npv));
            assert(self.trace() =~= orig_trace + insertion_trace(
                orig_posts,
                self.max_size_spec(),
                npv,
                orig_listeners.len(),
            ));
            assert forall|i: int| 0 <= i < orig_listeners.len() implies self.listeners()[i].log()
                =~= orig_listeners[i].log() + insertion_events(
                orig_posts,
                self.max_size_spec(),
                npv,
            ) by {}
        }
        post_id
    }

    /// Appends a post at the end of the history, timestamping it with the
    /// current wall-clock time in the format `YYYYMMDDHHMMSS`.
    ///
    /// On success the submission is inserted exactly as by
    /// [`History::add_post_at`], under some fourteen-digit timestamp, and
    /// the assigned id is returned. The insertion fails only if the current
    /// datetime cannot be formatted as needed; the history is then left
    /// completely unchanged.
    pub fn add_post(&mut self, p_user_post: UserPost) -> (r: Result<u64, &'static str>)
        requires
            old(self).wf(),
            old(self).next_id() < u64::MAX,
        ensures
            final(self).wf(),
            r matches Ok(id) ==> timestamped_insertion(*old(self), *final(self), p_user_post@, id),
            r is Err ==> *final(self) == *old(self),
    {
        // Get the current time
        let now = clock_now();
        let (year, month, day) = calendar_date_of(now);
        let (hour, minute, second) = hms_of(now);
        match format_timestamp(year, month, day, hour, minute, second) {
            Some(datetime) => {
                let ghost ts = datetime@;
                let id = self.add_post_at(p_user_post, datetime);
                proof {
                    assert(timestamped_insertion(*old(self), *self, p_user_post@, id)) by {
                        assert(post_insertion(*old(self), *self, p_user_post@, ts, id));
                    }
                }
                Ok(id)
            },
            None => Err("Failed to format the current datetime as needed !"),
        }
    }

    /// Returns an iterator over the posts, oldest first.
    pub fn iter(&self) -> (it: Iter<'_, Post>)
        ensures
            IteratorSpec::remaining(&it).len() == self.posts().len(),
            forall|i: int|
                0 <= i < self.posts().len() ==> IteratorSpec::remaining(&it)[i]@ == self.posts()[i],
    {
        broadcast use vstd::std_specs::vecdeque::axiom_spec_iter;

        self.data.posts.iter()
    }

    /// Returns copies of the newest `p_size` posts (all of them if the
    /// buffer holds fewer), newest first.
    #[verifier::loop_isolation(false)]
    pub fn last_posts(&self, p_size: usize) -> (r: Vec<Post>)
        ensures
            views_of(r@) == self.posts().reverse().take(
                vstd::math::min(p_size as int, self.posts().len() as int),
            ),
    {
        let len = self.data.posts.len();
        let n = if p_size < len {
            p_size
        } else {
            len
        };
        let mut out: Vec<Post> = Vec::new();
        for k in 0..n
            invariant
                out@.len() == k,
                forall|i: int| 0 <= i < k ==> out@[i]@ == self.posts()[len - 1 - i],
        {
            out.push(self.data.posts[len - 1 - k].clone());
        }
        proof {
            assert(views_of(out@) =~= self.posts().reverse().take(
                vstd::math::min(p_size as int, self.posts().len() as int),
            ));
        }
        out
    }

    /// Returns copies of all the posts, newest first.
    pub fn posts_newest_first(&self) -> (r: Vec<Post>)
        ensures
            views_of(r@) == self.posts().reverse(),
    {
        let r = self.last_posts(self.data.posts.len());
        proof {
            assert(views_of(r@) =~= self.posts().reverse());
        }
        r
    }

    /// Returns copies of the posts whose id is greater than `p_post_id`,
    /// newest first.
    #[verifier::loop_isolation(false)]
    pub fn posts_since(&self, p_post_id: u64) -> (r: Vec<Post>)
        ensures
            views_of(r@) == self.posts().filter(|p: PostView| p.id > p_post_id).reverse(),
    {
        let len = self.data.posts.len();
        let mut fwd: Vec<Post> = Vec::new();
        for k in 0..len
            invariant
                views_of(fwd@) == self.posts().take(k as int).filter(
                    |p: PostView| p.id > p_post_id,
                ),
        {
            let ghost pred = |p: PostView| p.id > p_post_id;
            let ghost pre = views_of(fwd@);
            let p = &self.data.posts[k];
            if p.id() > p_post_id {
                fwd.push(p.clone());
            }
            proof {
                reveal_with_fuel(Seq::filter, 2);
                let t = self.posts().take(k + 1);
                assert(t.drop_last() =~= self.posts().take(k as int));
                assert(t.last() == self.posts()[k as int]);
                if pred(self.posts()[k as int]) {
                    assert(views_of(fwd@) =~= pre.push(self.posts()[k as int]));
                } else {
                    assert(views_of(fwd@) =~= pre);
                }
                assert(views_of(fwd@) == t.filter(pred));
            }
        }
        proof {
            assert(self.posts().take(len as int) =~= self.posts());
        }
        let ghost fseq = views_of(fwd@);
        let mut out: Vec<Post> = Vec::new();
        while fwd.len() != 0
            invariant
                fwd@.len() <= fseq.len(),
                views_of(fwd@) == fseq.take(fwd@.len() as int),
                views_of(out@) == fseq.skip(fwd@.len() as int).reverse(),
            decreases fwd@.len(),
        {
            let ghost m = fwd@.len() as int;
            let ghost prefwd = fwd@;
            match fwd.pop() {
                Some(p) => {
                    proof {
                        assert(views_of(prefwd)[m - 1] == prefwd[m - 1]@);
                        assert(p@ == fseq[m - 1]);
                    }
                    let ghost preout = out@;
                    let ghost pv = p@;
                    out.push(p);
                    proof {
                        assert forall|i: int|
                            0 <= i < out@.len() implies #[trigger] views_of(out@)[i] == fseq.skip(
                            m - 1,
                        ).reverse()[i] by {
                            assert(views_of(out@)[i] == out@[i]@);
                            if i < out@.len() - 1 {
                                assert(out@[i] == preout[i]);
                                assert(views_of(preout)[i] == preout[i]@);
                                assert(views_of(preout)[i] == fseq.skip(m).reverse()[i]);
                            } else {
                                assert(out@[i]@ == pv);
                                assert(pv == fseq[m - 1]);
                            }
                        }
                    }
                },
                None => {},
            }
            proof {
                assert(views_of(fwd@) =~= fseq.take(m - 1));
                assert(views_of(out@) =~= fseq.skip(m - 1).reverse());
            }
        }
        proof {
            assert(views_of(out@) =~= fseq.reverse());
        }
        out
    }

    /// Adds a [`HistoryListener`] to be notified of events.
    pub fn add_listener(&mut self, p_listener: L)
        ensures
            final(self).listeners() == old(self).listeners().push(p_listener),
            final(self).posts() == old(self).posts(),
            final(self).board_name_view() == old(self).board_name_view(),
            final(self).max_size_spec() == old(self).max_size_spec(),
            final(self).next_id() == old(self).next_id(),
            final(self).trace() == old(self).trace(),
            old(self).wf() ==> final(self).wf(),
    {
        self.events.add_listener(p_listener);
    }
}

} // verus!
