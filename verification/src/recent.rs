//! The last messages of a channel, by which replies find what they answer.
use crate::text_map::TextMap;
use std::collections::VecDeque;
use vstd::prelude::*;
use vstd::string::*;

verus! {

/// How many messages are remembered.
pub const RECENT_MESSAGE_LIMIT: usize = 250;

/// What is remembered of a message.
#[derive(Clone, Debug)]
pub struct RecentMessage {
    pub display_name: String,
    pub body: String,
    pub user_id: String,
    pub username: String,
}

pub struct RecentMessageView {
    pub display_name: Seq<char>,
    pub body: Seq<char>,
    pub user_id: Seq<char>,
    pub username: Seq<char>,
}

impl View for RecentMessage {
    type V = RecentMessageView;

    open spec fn view(&self) -> RecentMessageView {
        RecentMessageView {
            display_name: self.display_name@,
            body: self.body@,
            user_id: self.user_id@,
            username: self.username@,
        }
    }
}

/// The last messages by their ids, and the ids from the oldest to the newest.
pub struct RecentMessages {
    by_id: TextMap<RecentMessage>,
    order: VecDeque<String>,
}

pub struct RecentView {
    pub by_id: Map<Seq<char>, RecentMessageView>,
    pub order: Seq<Seq<char>>,
}

spec fn ids_of(order: Seq<String>) -> Seq<Seq<char>> {
    Seq::new(order.len(), |i: int| order[i]@)
}

impl View for RecentMessages {
    type V = RecentView;

    closed spec fn view(&self) -> RecentView {
        RecentView { by_id: self.by_id@, order: ids_of(self.order@) }
    }
}

impl RecentView {
    /// The order holds each remembered id once, and at most as many as are remembered.
    pub open spec fn valid(self) -> bool {
        &&& self.order.no_duplicates()
        &&& self.order.to_set() == self.by_id.dom()
        &&& self.order.len() <= RECENT_MESSAGE_LIMIT
    }

    pub open spec fn empty() -> RecentView {
        RecentView { by_id: Map::empty(), order: seq![] }
    }

    /// With one more message. A known id keeps its place; a new one is the newest, and where there
    /// are too many, the oldest is forgotten.
    pub open spec fn with(self, id: Seq<char>, message: RecentMessageView) -> RecentView {
        let by_id = self.by_id.insert(id, message);
        let order = if self.by_id.contains_key(id) {
            self.order
        } else {
            self.order.push(id)
        };
        if order.len() > RECENT_MESSAGE_LIMIT {
            RecentView { by_id: by_id.remove(order[0]), order: order.drop_first() }
        } else {
            RecentView { by_id, order }
        }
    }

    /// With several more messages, one after another.
    pub open spec fn with_all(self, messages: Seq<(Seq<char>, RecentMessageView)>) -> RecentView
        decreases messages.len(),
    {
        if messages.len() == 0 {
            self
        } else {
            let (id, message) = messages.last();
            self.with_all(messages.drop_last()).with(id, message)
        }
    }
}

/// One more message keeps the order and the limit, and is remembered itself.
pub proof fn a_message_is_remembered(
    recent: RecentView,
    id: Seq<char>,
    message: RecentMessageView,
)
    requires
        recent.valid(),
    ensures
        recent.with(id, message).valid(),
        recent.with(id, message).by_id.contains_key(id),
        recent.with(id, message).by_id[id] == message,
        !recent.by_id.contains_key(id) ==> recent.with(id, message).order.last() == id,
{
    let next = recent.with(id, message);
    let known = recent.by_id.contains_key(id);
    let order = if known {
        recent.order
    } else {
        recent.order.push(id)
    };
    assert(recent.order.contains(id) <==> known) by {
        assert(recent.order.to_set().contains(id) <==> known);
    }
    assert(order.no_duplicates());
    let by_id = recent.by_id.insert(id, message);
    assert(order.to_set() =~= by_id.dom()) by {
        assert forall|k: Seq<char>| order.to_set().contains(k) <==> by_id.dom().contains(k) by {
            assert(recent.order.to_set().contains(k) <==> recent.by_id.contains_key(k));
            if by_id.dom().contains(k) {
                if k == id && !known {
                    assert(order[recent.order.len() as int] == id);
                } else {
                    assert(recent.order.contains(k));
                    let i = choose|i: int| 0 <= i < recent.order.len() && recent.order[i] == k;
                    assert(order[i] == k);
                }
            }
            if order.to_set().contains(k) {
                let i = choose|i: int| 0 <= i < order.len() && order[i] == k;
                if i < recent.order.len() {
                    assert(recent.order.contains(recent.order[i]));
                }
            }
        }
    }
    if order.len() > RECENT_MESSAGE_LIMIT {
        let rest = order.drop_first();
        assert(rest.no_duplicates());
        assert(rest.to_set() =~= by_id.remove(order[0]).dom()) by {
            assert forall|k: Seq<char>| rest.to_set().contains(k) <==> by_id.remove(
                order[0],
            ).dom().contains(k) by {
                if rest.to_set().contains(k) {
                    let i = choose|i: int| 0 <= i < rest.len() && rest[i] == k;
                    assert(order[i + 1] == k);
                    assert(order.to_set().contains(k));
                }
                if by_id.remove(order[0]).dom().contains(k) {
                    assert(order.to_set().contains(k));
                    let i = choose|i: int| 0 <= i < order.len() && order[i] == k;
                    assert(rest[i - 1] == k);
                }
            }
        }
        assert(order[order.len() - 1] == id);
    }
}

/// Where the newest of `recent` stood `behind` places from the end, it stands at most one place
/// further from it after one more message.
proof fn lemma_place_after_one(
    recent: RecentView,
    at: int,
    id: Seq<char>,
    message: RecentMessageView,
)
    requires
        recent.valid(),
        0 <= at < recent.order.len(),
        recent.order[at] != id,
        recent.order.len() - at < RECENT_MESSAGE_LIMIT,
    ensures
        ({
            let next = recent.with(id, message);
            let kept = recent.order[at];
            &&& next.valid()
            &&& next.by_id.contains_key(kept)
            &&& next.by_id[kept] == recent.by_id[kept]
            &&& exists|to: int|
                0 <= to < next.order.len() && #[trigger] next.order[to] == kept && next.order.len()
                    - to <= recent.order.len() - at + 1
        }),
{
    a_message_is_remembered(recent, id, message);
    let next = recent.with(id, message);
    let kept = recent.order[at];
    assert(recent.order.to_set().contains(kept));
    if recent.by_id.contains_key(id) {
        assert(next.order[at] == kept);
    } else {
        let order = recent.order.push(id);
        if order.len() > RECENT_MESSAGE_LIMIT {
            assert(at > 0);
            assert(order[0] == recent.order[0]);
            assert(order[0] != kept);
            assert(next.order[at - 1] == kept);
        } else {
            assert(next.order[at] == kept);
        }
    }
}

proof fn lemma_place_after_all(
    recent: RecentView,
    id: Seq<char>,
    message: RecentMessageView,
    later: Seq<(Seq<char>, RecentMessageView)>,
) -> (at: int)
    requires
        recent.valid(),
        !recent.by_id.contains_key(id),
        later.len() < RECENT_MESSAGE_LIMIT,
        forall|i: int| 0 <= i < later.len() ==> (#[trigger] later[i]).0 != id,
    ensures
        ({
            let end = recent.with(id, message).with_all(later);
            &&& end.valid()
            &&& end.by_id.contains_key(id)
            &&& end.by_id[id] == message
            &&& 0 <= at < end.order.len()
            &&& end.order[at] == id
            &&& end.order.len() - at <= later.len() + 1
        }),
    decreases later.len(),
{
    if later.len() == 0 {
        a_message_is_remembered(recent, id, message);
        let end = recent.with(id, message);
        end.order.len() - 1
    } else {
        let start = recent.with(id, message).with_all(later.drop_last());
        assert forall|i: int| 0 <= i < later.drop_last().len() implies (
        #[trigger] later.drop_last()[i]).0 != id by {
            assert(later.drop_last()[i] == later[i]);
        }
        let place = lemma_place_after_all(recent, id, message, later.drop_last());
        let (next_id, next_message) = later.last();
        assert(later[later.len() - 1].0 != id);
        lemma_place_after_one(start, place, next_id, next_message);
        let end = start.with(next_id, next_message);
        choose|to: int|
            0 <= to < end.order.len() && #[trigger] end.order[to] == id && end.order.len() - to
                <= start.order.len() - place + 1
    }
}

/// A new message is remembered as it was, until as many others as the limit have followed it.
pub proof fn a_message_stays_remembered(
    recent: RecentView,
    id: Seq<char>,
    message: RecentMessageView,
    later: Seq<(Seq<char>, RecentMessageView)>,
)
    requires
        recent.valid(),
        !recent.by_id.contains_key(id),
        later.len() < RECENT_MESSAGE_LIMIT,
        forall|i: int| 0 <= i < later.len() ==> (#[trigger] later[i]).0 != id,
    ensures
        recent.with(id, message).with_all(later).by_id.contains_key(id),
        recent.with(id, message).with_all(later).by_id[id] == message,
{
    let _ = lemma_place_after_all(recent, id, message, later);
}

impl Default for RecentMessages {
    fn default() -> (r: RecentMessages)
        ensures
            r@ == RecentView::empty(),
    {
        let by_id: TextMap<RecentMessage> = TextMap::new();
        let order: VecDeque<String> = VecDeque::new();
        proof {
            assert(ids_of(order@) =~= seq![]);
            assert(ids_of(order@).to_set() =~= by_id@.dom());
        }
        RecentMessages { by_id, order }
    }
}

impl RecentMessages {
    #[verifier::type_invariant]
    spec fn remembered(self) -> bool {
        (RecentView { by_id: self.by_id@, order: ids_of(self.order@) }).valid()
    }

    /// The message with the id, if it is remembered.
    pub fn find(&self, id: &str) -> (r: Option<&RecentMessage>)
        ensures
            match r {
                Some(message) => self@.by_id.contains_key(id@) && message@ == self@.by_id[id@],
                None => !self@.by_id.contains_key(id@),
            },
    {
        self.by_id.get(id)
    }

    /// How many messages are remembered.
    pub fn len(&self) -> (r: usize)
        ensures
            r == self@.order.len(),
            self@.valid(),
    {
        proof {
            use_type_invariant(self);
        }
        self.order.len()
    }

    pub fn insert(&mut self, id: String, message: RecentMessage)
        ensures
            old(self)@.valid(),
            final(self)@.valid(),
            final(self)@ == old(self)@.with(id@, message@),
    {
        proof {
            use_type_invariant(&*self);
            a_message_is_remembered(self@, id@, message@);
        }
        let ghost start = self@;
        let ghost name = id@;
        let ghost kept = message@;
        let mut taken = RecentMessages::default();
        std::mem::swap(&mut taken, self);
        let RecentMessages { mut by_id, mut order } = taken;
        let known = by_id.contains_key(id.as_str());
        by_id.insert(id.clone(), message);
        if !known {
            order.push_back(id);
        }
        let ghost full = ids_of(order@);
        proof {
            assert(known ==> full =~= start.order);
            assert(!known ==> full =~= start.order.push(name));
        }
        if order.len() > RECENT_MESSAGE_LIMIT {
            match order.pop_front() {
                Some(oldest) => {
                    let _ = by_id.remove(oldest.as_str());
                },
                None => {},
            }
            assert(ids_of(order@) =~= full.drop_first());
        }
        proof {
            assert(RecentView { by_id: by_id@, order: ids_of(order@) } == start.with(name, kept));
        }
        *self = RecentMessages { by_id, order };
    }
}

/// At most two hundred and fifty messages are remembered: with one more the oldest is forgotten, and
/// below that none is.
pub proof fn the_oldest_is_forgotten(
    recent: RecentView,
    id: Seq<char>,
    message: RecentMessageView,
    other: Seq<char>,
)
    requires
        recent.valid(),
        !recent.by_id.contains_key(id),
        other != id,
    ensures
        recent.order.len() <= 250,
        recent.order.len() < 250 ==> recent.with(id, message).by_id == recent.by_id.insert(
            id,
            message,
        ) && recent.with(id, message).order == recent.order.push(id),
        recent.order.len() == 250 ==> {
            let next = recent.with(id, message);
            &&& next.order == recent.order.drop_first().push(id)
            &&& !next.by_id.contains_key(recent.order[0])
            &&& other != recent.order[0] ==> next.by_id.contains_key(other)
                == recent.by_id.contains_key(other) && next.by_id[other] == recent.by_id[other]
        },
{
    assert(recent.order.push(id).drop_first() =~= recent.order.drop_first().push(id)
        || recent.order.len() == 0);
    if recent.order.len() == 250 {
        assert(recent.order.to_set().contains(recent.order[0]));
        assert(recent.order.push(id)[0] == recent.order[0]);
    }
}

/// A message that comes in again takes the place of what was remembered of it, and nothing else
/// changes.
pub proof fn a_known_message_is_replaced(
    recent: RecentView,
    id: Seq<char>,
    message: RecentMessageView,
)
    requires
        recent.valid(),
        recent.by_id.contains_key(id),
    ensures
        recent.with(id, message).by_id == recent.by_id.insert(id, message),
        recent.with(id, message).order == recent.order,
{
}

} // verus!
