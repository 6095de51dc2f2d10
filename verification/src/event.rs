use vstd::prelude::*;

verus! {

/// The reserved key in an event's shared extended properties that records the
/// id of the source event a destination event was created from.
pub open spec fn spec_sync_key() -> Seq<char> {
    "event-sync-src-id"@
}

/// The reserved sync-tag key as an owned string.
pub fn sync_key_string() -> (r: String)
    ensures
        r@ == spec_sync_key(),
{
    "event-sync-src-id".to_owned()
}

/// The value at `key` in a pair sequence: the value of the first pair whose
/// key matches, or `None` when no pair matches.
pub open spec fn props_get(pairs: Seq<(String, String)>, key: Seq<char>) -> Option<Seq<char>>
    decreases pairs.len(),
{
    if pairs.len() == 0 {
        None
    } else if pairs[0].0@ == key {
        Some(pairs[0].1@)
    } else {
        props_get(pairs.drop_first(), key)
    }
}

/// A string-to-string mapping of shared extended properties. Lookup takes the
/// first pair holding the key; `insert` places the new pair in front, so it
/// shadows any older pair with the same key.
#[derive(Debug, Clone)]
pub struct Props {
    pairs: Vec<(String, String)>,
}

impl View for Props {
    type V = Seq<(String, String)>;

    closed spec fn view(&self) -> Seq<(String, String)> {
        self.pairs@
    }
}

impl Props {
    /// An empty mapping.
    pub fn new() -> (r: Props)
        ensures
            r@.len() == 0,
            forall|k: Seq<char>| props_get(r@, k) is None,
    {
        Props { pairs: Vec::new() }
    }

    /// Looks `key` up, returning the value of the first matching pair.
    pub fn get(&self, key: &String) -> (r: Option<&String>)
        ensures
            match r {
                Some(v) => props_get(self@, key@) == Some(v@),
                None => props_get(self@, key@) is None,
            },
    {
        let mut i: usize = 0;
        proof {
            assert(self@.skip(0) =~= self@);
        }
        while i < self.pairs.len()
            invariant
                i <= self.pairs.len(),
                props_get(self@, key@) == props_get(self@.skip(i as int), key@),
            decreases self.pairs.len() - i,
        {
            if self.pairs[i].0 == *key {
                proof {
                    assert(self@.skip(i as int)[0] == self@[i as int]);
                }
                return Some(&self.pairs[i].1);
            }
            proof {
                assert(self@.skip(i as int)[0] == self@[i as int]);
                assert(self@.skip(i as int).drop_first() =~= self@.skip(i + 1));
            }
            i = i + 1;
        }
        proof {
            assert(self@.skip(i as int).len() == 0);
        }
        None
    }

    /// Binds `key` to `value`, leaving every other key's value unchanged.
    pub fn insert(&mut self, key: String, value: String)
        ensures
            props_get(final(self)@, key@) == Some(value@),
            forall|k: Seq<char>|
                k != key@ ==> props_get(final(self)@, k) == props_get(old(self)@, k),
            final(self)@.len() == old(self)@.len() + 1,
    {
        let ghost key_view = key@;
        self.pairs.insert(0, (key, value));
        proof {
            assert(self@[0].0@ == key_view);
            assert(self@.drop_first() =~= old(self)@);
            assert forall|k: Seq<char>| k != key_view implies props_get(self@, k)
                == props_get(old(self)@, k) by {
                assert(props_get(self@, k) == props_get(self@.drop_first(), k));
            }
        }
    }

    /// The pairs in lookup order: an earlier pair shadows a later one with
    /// the same key.
    pub fn entries(&self) -> (r: &Vec<(String, String)>)
        ensures
            r@ == self@,
    {
        &self.pairs
    }
}

/// A calendar event, as the core reads and builds it: service ids and text
/// fields as optional strings, start and end instants as optional Unix
/// timestamps in seconds, and the shared extended properties the sync tag
/// rides on.
#[derive(Debug, Clone)]
pub struct Event {
    /// Service-assigned id; absent on client-constructed events.
    pub id: Option<String>,
    /// Event title.
    pub summary: Option<String>,
    /// Event location.
    pub location: Option<String>,
    /// Start instant, seconds since the Unix epoch.
    pub start: Option<i64>,
    /// End instant, seconds since the Unix epoch.
    pub end: Option<i64>,
    /// Shared extended properties; the sync tag lives here.
    pub shared_properties: Props,
    /// Colour identifier for display, if any.
    pub color_id: Option<String>,
    /// External UID used by the import channel, distinct from the sync tag.
    pub ical_uid: Option<String>,
}

/// The sync tag of an event: the value under the reserved key in its shared
/// extended properties, if present.
pub open spec fn spec_tag(e: Event) -> Option<Seq<char>> {
    props_get(e.shared_properties@, spec_sync_key())
}

impl Event {
    /// An event with every field absent and no shared properties.
    pub fn empty() -> (r: Event)
        ensures
            r.id is None,
            r.summary is None,
            r.location is None,
            r.start is None,
            r.end is None,
            r.color_id is None,
            r.ical_uid is None,
            forall|k: Seq<char>| props_get(r.shared_properties@, k) is None,
    {
        Event {
            id: None,
            summary: None,
            location: None,
            start: None,
            end: None,
            shared_properties: Props::new(),
            color_id: None,
            ical_uid: None,
        }
    }
}

/// Builds the single event that the import channel creates: identified by the
/// caller-supplied external UID, spanning the given instants, with every other
/// field absent. No dedup check rides on this channel.
pub fn make_import_event(ical_uid: String, start: i64, end: i64) -> (r: Event)
    ensures
        r.ical_uid == Some(ical_uid),
        r.start == Some(start),
        r.end == Some(end),
        r.id is None,
        r.summary is None,
        r.location is None,
        r.color_id is None,
        forall|k: Seq<char>| props_get(r.shared_properties@, k) is None,
{
    let mut e = Event::empty();
    e.ical_uid = Some(ical_uid);
    e.start = Some(start);
    e.end = Some(end);
    e
}

} // verus!
