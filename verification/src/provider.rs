//! Which channels are connected, and for which windows.
use crate::error::ItzonError;
use crate::sending;
use crate::text_map::TextMap;
use vstd::prelude::*;
use vstd::string::*;

verus! {

/// The connections to channels. Each is there for the windows that want it.
pub struct ItzonProvider {
    conns: TextMap<TextMap<()>>,
}

impl View for ItzonProvider {
    type V = Map<Seq<char>, Map<Seq<char>, ()>>;

    closed spec fn view(&self) -> Map<Seq<char>, Map<Seq<char>, ()>> {
        self.conns@
    }
}

/// Whether each connection is wanted by a window.
pub open spec fn all_wanted(conns: Map<Seq<char>, Map<Seq<char>, ()>>) -> bool {
    forall|slug: Seq<char>| #[trigger]
        conns.contains_key(slug) ==> conns[slug].dom() != Set::<Seq<char>>::empty()
}

/// The connections after a window asks for a channel.
pub open spec fn with_window(
    conns: Map<Seq<char>, Map<Seq<char>, ()>>,
    slug: Seq<char>,
    window: Seq<char>,
) -> Map<Seq<char>, Map<Seq<char>, ()>> {
    let others = if conns.contains_key(slug) {
        conns[slug]
    } else {
        Map::empty()
    };
    conns.insert(slug, others.insert(window, ()))
}

/// The connections after a window leaves a channel: with the last window the connection goes.
pub open spec fn without_window(
    conns: Map<Seq<char>, Map<Seq<char>, ()>>,
    slug: Seq<char>,
    window: Seq<char>,
) -> Map<Seq<char>, Map<Seq<char>, ()>> {
    if !conns.contains_key(slug) {
        conns
    } else if conns[slug].remove(window).dom() == Set::<Seq<char>>::empty() {
        conns.remove(slug)
    } else {
        conns.insert(slug, conns[slug].remove(window))
    }
}

impl ItzonProvider {
    #[verifier::type_invariant]
    spec fn wanted(self) -> bool {
        all_wanted(self.conns@)
    }

    pub fn new() -> (r: ItzonProvider)
        ensures
            r@ == Map::<Seq<char>, Map<Seq<char>, ()>>::empty(),
    {
        ItzonProvider { conns: TextMap::new() }
    }

    pub fn id(&self) -> (r: &'static str)
        ensures
            r@ == "itzon"@,
    {
        "itzon"
    }

    /// Whether the channel with this name is connected.
    pub fn is_open(&self, slug: &str) -> (r: bool)
        ensures
            r == self@.contains_key(slug@),
            all_wanted(self@),
    {
        proof {
            use_type_invariant(self);
        }
        self.conns.contains_key(slug)
    }

    /// Notes that a window wants a channel. The name of the channel comes back where a connection
    /// is to be opened.
    pub fn connect(&mut self, channel: &str, window: &str) -> (r: Result<Option<String>, ItzonError>)
        ensures
            match r {
                Ok(opened) => {
                    let slug = sending::channel_slug(channel@);
                    &&& sending::is_slug(slug)
                    &&& final(self)@ == with_window(old(self)@, slug, window@)
                    &&& opened.deep_view() == (if old(self)@.contains_key(slug) {
                        None
                    } else {
                        Some(slug)
                    })
                },
                Err(error) => {
                    &&& !sending::is_slug(sending::channel_slug(channel@))
                    &&& error is InvalidChannel
                    &&& final(self)@ == old(self)@
                },
            },
    {
        proof {
            use_type_invariant(&*self);
        }
        let slug = match sending::normalize_channel(channel) {
            Ok(slug) => slug,
            Err(error) => {
                return Err(error);
            },
        };
        let ghost start = self@;
        let mut taken = ItzonProvider::new();
        std::mem::swap(&mut taken, self);
        let ItzonProvider { mut conns } = taken;
        let mut known = true;
        let mut consumers: TextMap<()> = match conns.remove(slug.as_str()) {
            Some(consumers) => consumers,
            None => {
                known = false;
                TextMap::new()
            },
        };
        consumers.insert(window.to_string(), ());
        assert(consumers@.dom().contains(window@));
        let opened: Option<String> = if known {
            None
        } else {
            Some(slug.clone())
        };
        let ghost name = slug@;
        conns.insert(slug, consumers);
        proof {
            assert(conns@ =~= with_window(start, name, window@));
            assert forall|other: Seq<char>| #[trigger]
                conns@.contains_key(other) implies conns@[other].dom() != Set::<
                Seq<char>,
            >::empty() by {
                if other != name {
                    assert(start.contains_key(other));
                }
            }
        }
        *self = ItzonProvider { conns };
        Ok(opened)
    }

    /// Notes that a window leaves a channel. The name of the channel comes back where its
    /// connection is to be closed.
    pub fn disconnect(&mut self, channel: &str, window: &str) -> (r: Result<
        Option<String>,
        ItzonError,
    >)
        ensures
            match r {
                Ok(closed) => {
                    let slug = sending::channel_slug(channel@);
                    &&& sending::is_slug(slug)
                    &&& final(self)@ == without_window(old(self)@, slug, window@)
                    &&& closed.deep_view() == (if old(self)@.contains_key(slug)
                        && !without_window(old(self)@, slug, window@).contains_key(slug) {
                        Some(slug)
                    } else {
                        None
                    })
                },
                Err(error) => {
                    &&& !sending::is_slug(sending::channel_slug(channel@))
                    &&& error is InvalidChannel
                    &&& final(self)@ == old(self)@
                },
            },
    {
        proof {
            use_type_invariant(&*self);
        }
        let slug = match sending::normalize_channel(channel) {
            Ok(slug) => slug,
            Err(error) => {
                return Err(error);
            },
        };
        if !self.conns.contains_key(slug.as_str()) {
            return Ok(None);
        }
        let ghost start = self@;
        let ghost name = slug@;
        let mut taken = ItzonProvider::new();
        std::mem::swap(&mut taken, self);
        let ItzonProvider { mut conns } = taken;
        let mut closed: Option<String> = None;
        match conns.remove(slug.as_str()) {
            Some(mut consumers) => {
                let _ = consumers.remove(window);
                let left = consumers.len();
                proof {
                    let names = consumers.names();
                    if left == 0 {
                        assert(names.to_set() =~= Set::empty());
                    } else {
                        assert(names.to_set().contains(names[0]));
                    }
                }
                if left == 0 {
                    closed = Some(slug);
                } else {
                    conns.insert(slug, consumers);
                }
            },
            None => {},
        }
        proof {
            assert(conns@ =~= without_window(start, name, window@));
            assert forall|other: Seq<char>| #[trigger]
                conns@.contains_key(other) implies conns@[other].dom() != Set::<
                Seq<char>,
            >::empty() by {
                if other != name {
                    assert(start.contains_key(other));
                }
            }
        }
        *self = ItzonProvider { conns };
        Ok(closed)
    }
}

/// A channel that two windows want stays connected until both have left it, and no other channel is
/// touched by that.
pub proof fn a_connection_lasts_as_long_as_it_is_wanted(
    conns: Map<Seq<char>, Map<Seq<char>, ()>>,
    slug: Seq<char>,
    first: Seq<char>,
    second: Seq<char>,
    other: Seq<char>,
)
    requires
        !conns.contains_key(slug),
        first != second,
        other != slug,
    ensures
        ({
            let both = with_window(with_window(conns, slug, first), slug, second);
            let one = without_window(both, slug, first);
            let none = without_window(one, slug, second);
            &&& both.contains_key(slug)
            &&& one.contains_key(slug)
            &&& none == conns
            &&& one.contains_key(other) == conns.contains_key(other)
            &&& one[other] == conns[other]
        }),
{
    let both = with_window(with_window(conns, slug, first), slug, second);
    assert(both[slug].remove(first).dom().contains(second));
    let one = without_window(both, slug, first);
    assert(one[slug].remove(second).dom() =~= Set::empty());
    assert(without_window(one, slug, second) =~= conns);
}

/// A window that asks for a channel is among those that want it, beside all that were; one that
/// leaves it is not; and no other window or channel is touched by either.
pub proof fn windows_come_and_go(
    conns: Map<Seq<char>, Map<Seq<char>, ()>>,
    slug: Seq<char>,
    window: Seq<char>,
    channel: Seq<char>,
    other: Seq<char>,
)
    ensures
        ({
            let after = with_window(conns, slug, window);
            &&& wants(after, slug, window)
            &&& (channel != slug || other != window) ==> wants(after, channel, other) == wants(
                conns,
                channel,
                other,
            )
        }),
        ({
            let after = without_window(conns, slug, window);
            &&& !wants(after, slug, window)
            &&& (channel != slug || other != window) ==> wants(after, channel, other) == wants(
                conns,
                channel,
                other,
            )
            &&& after.contains_key(slug) ==> exists|one: Seq<char>| #[trigger]
                wants(after, slug, one)
        }),
{
    let after = without_window(conns, slug, window);
    if conns.contains_key(slug) {
        let left = conns[slug].remove(window);
        if left.dom() == Set::<Seq<char>>::empty() {
            if channel == slug && other != window && wants(conns, channel, other) {
                assert(left.dom().contains(other));
            }
        } else {
            let one = left.dom().choose();
            assert(left.dom().contains(one)) by {
                if forall|k: Seq<char>| !left.dom().contains(k) {
                    assert(left.dom() =~= Set::empty());
                }
            }
            assert(wants(after, slug, one));
        }
    }
}

/// Whether a window wants a channel.
pub open spec fn wants(
    conns: Map<Seq<char>, Map<Seq<char>, ()>>,
    slug: Seq<char>,
    window: Seq<char>,
) -> bool {
    conns.contains_key(slug) && conns[slug].contains_key(window)
}

} // verus!
