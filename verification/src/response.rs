//! The response buffer: named output channels accumulating text during a
//! tick.  Reading an absent channel yields the empty string; the whole
//! buffer is cleared once per tick before any action runs.

use vstd::prelude::*;
use crate::assoc::{
    assoc_get, assoc_map, lemma_get_first_found, lemma_get_some_iff, lemma_map_after_set,
    lemma_set_absent, lemma_set_found, lemma_set_unique, unique_keys,
};
use crate::strutil::{str_copy, str_eq};
use vstd::string::StringExecFns;

verus! {

/// The text `m` reads on channel `c`: what was written, or empty.
pub open spec fn channel_read(m: Map<Seq<char>, Seq<char>>, c: Seq<char>) -> Seq<char> {
    if m.contains_key(c) {
        m[c]
    } else {
        Seq::empty()
    }
}

/// The buffer after `t` is appended to channel `c`.
pub open spec fn channel_append(m: Map<Seq<char>, Seq<char>>, c: Seq<char>, t: Seq<char>) -> Map<
    Seq<char>,
    Seq<char>,
> {
    m.insert(c, channel_read(m, c) + t)
}

/// Two appends to one channel are one appended write.
pub proof fn lemma_channel_append_chain(
    m: Map<Seq<char>, Seq<char>>,
    c: Seq<char>,
    a: Seq<char>,
    b: Seq<char>,
)
    ensures
        channel_append(channel_append(m, c, a), c, b) == channel_append(m, c, a + b),
{
    assert((channel_read(m, c) + a) + b =~= channel_read(m, c) + (a + b));
    assert(channel_append(channel_append(m, c, a), c, b) =~= channel_append(m, c, a + b));
}

/// The view of a channel table.
pub open spec fn channels_view(s: Seq<(String, String)>) -> Seq<(Seq<char>, Seq<char>)> {
    s.map_values(|p: (String, String)| (p.0@, p.1@))
}

/// Index the view of a channel table.
pub proof fn lemma_channels_view(s: Seq<(String, String)>)
    ensures
        channels_view(s).len() == s.len(),
        forall|i: int| 0 <= i < s.len() ==> #[trigger] channels_view(s)[i] == (s[i].0@, s[i].1@),
{
}

/// Holds the responses from the actions.
pub struct Response {
    items: Vec<(String, String)>,
}

impl View for Response {
    type V = Map<Seq<char>, Seq<char>>;

    closed spec fn view(&self) -> Map<Seq<char>, Seq<char>> {
        assoc_map(channels_view(self.items@))
    }
}

/// Find the first channel entry named `key`.
fn find_channel(s: &Vec<(String, String)>, key: &str) -> (r: Option<usize>)
    ensures
        match r {
            Some(i) => i < s@.len() && s@[i as int].0@ == key@ && forall|j: int|
                0 <= j < i ==> s@[j].0@ != key@,
            None => forall|j: int| 0 <= j < s@.len() ==> s@[j].0@ != key@,
        },
{
    let n = s.len();
    let mut i: usize = 0;
    while i < n
        invariant
            n == s@.len(),
            i <= n,
            forall|j: int| 0 <= j < i ==> s@[j].0@ != key@,
        decreases n - i,
    {
        if str_eq(s[i].0.as_str(), key) {
            return Some(i);
        }
        i = i + 1;
    }
    None
}

impl Response {
    /// Each channel name occurs once in the table.
    pub closed spec fn inv(&self) -> bool {
        unique_keys(channels_view(self.items@))
    }

    /// A fresh buffer with no channel written.
    pub fn new() -> (r: Self)
        ensures
            r@ == Map::<Seq<char>, Seq<char>>::empty(),
            r.inv(),
    {
        let r = Response { items: Vec::new() };
        proof {
            assert(channels_view(r.items@) =~= Seq::<(Seq<char>, Seq<char>)>::empty());
            assert(assoc_map(channels_view(r.items@)) =~= Map::<Seq<char>, Seq<char>>::empty());
        }
        r
    }

    /// Overwrite or set the response at the given channel.
    pub fn set_response(&mut self, channel: &str, msg: &str)
        requires
            old(self).inv(),
        ensures
            final(self).inv(),
            final(self)@ == old(self)@.insert(channel@, msg@),
    {
        let ghost entries = channels_view(self.items@);
        proof {
            lemma_channels_view(self.items@);
            lemma_set_unique(entries, channel@, msg@);
            lemma_map_after_set(entries, channel@, msg@);
        }
        match find_channel(&self.items, channel) {
            Some(i) => {
                proof {
                    lemma_set_found(entries, channel@, msg@, i as int);
                }
                self.items.set(i, (str_copy(channel), str_copy(msg)));
                proof {
                    lemma_channels_view(self.items@);
                    assert(channels_view(self.items@) =~= entries.update(
                        i as int,
                        (channel@, msg@),
                    ));
                }
            },
            None => {
                proof {
                    lemma_set_absent(entries, channel@, msg@);
                }
                self.items.push((str_copy(channel), str_copy(msg)));
                proof {
                    lemma_channels_view(self.items@);
                    assert(channels_view(self.items@) =~= entries.push((channel@, msg@)));
                }
            },
        }
    }

    /// Read the response of the given channel; an unwritten channel reads as
    /// the empty string.
    pub fn get_response(&self, channel: &str) -> (r: &str)
        requires
            self.inv(),
        ensures
            r@ == channel_read(self@, channel@),
    {
        proof {
            lemma_channels_view(self.items@);
        }
        match find_channel(&self.items, channel) {
            Some(i) => {
                proof {
                    lemma_get_first_found(channels_view(self.items@), channel@, i as int);
                    assert(assoc_get(channels_view(self.items@), channel@) == Some(
                        self.items@[i as int].1@,
                    ));
                    assert(self@.contains_key(channel@));
                    assert(self@[channel@] == self.items@[i as int].1@);
                }
                self.items[i].1.as_str()
            },
            None => {
                proof {
                    lemma_get_some_iff(channels_view(self.items@), channel@);
                    assert(!self@.contains_key(channel@));
                    reveal_strlit("");
                    assert(""@ =~= Seq::<char>::empty());
                }
                ""
            },
        }
    }

    /// Append the string slice to the end of the given channel.
    pub fn append_response(&mut self, channel: &str, msg: &str)
        requires
            old(self).inv(),
        ensures
            final(self).inv(),
            final(self)@ == channel_append(old(self)@, channel@, msg@),
    {
        let ghost entries = channels_view(self.items@);
        proof {
            lemma_channels_view(self.items@);
        }
        match find_channel(&self.items, channel) {
            Some(i) => {
                proof {
                    lemma_get_first_found(entries, channel@, i as int);
                }
                let cur: String = self.items[i].1.clone();
                let joined: String = cur.concat(msg);
                proof {
                    lemma_set_found(entries, channel@, joined@, i as int);
                    lemma_set_unique(entries, channel@, joined@);
                    lemma_map_after_set(entries, channel@, joined@);
                }
                self.items.set(i, (str_copy(channel), joined));
                proof {
                    lemma_channels_view(self.items@);
                    assert(channels_view(self.items@) =~= entries.update(
                        i as int,
                        (channel@, old(self)@[channel@] + msg@),
                    ));
                }
            },
            None => {
                proof {
                    lemma_get_some_iff(entries, channel@);
                    assert(!old(self)@.contains_key(channel@));
                    lemma_set_absent(entries, channel@, msg@);
                    lemma_set_unique(entries, channel@, msg@);
                    lemma_map_after_set(entries, channel@, msg@);
                }
                self.items.push((str_copy(channel), str_copy(msg)));
                proof {
                    lemma_channels_view(self.items@);
                    assert(channels_view(self.items@) =~= entries.push((channel@, msg@)));
                    assert(Seq::<char>::empty() + msg@ =~= msg@);
                }
            },
        }
    }

    /// Forget every channel.
    pub fn clear(&mut self)
        ensures
            final(self).inv(),
            final(self)@ == Map::<Seq<char>, Seq<char>>::empty(),
    {
        self.items = Vec::new();
        proof {
            assert(channels_view(self.items@) =~= Seq::<(Seq<char>, Seq<char>)>::empty());
            assert(assoc_map(channels_view(self.items@)) =~= Map::<Seq<char>, Seq<char>>::empty());
        }
    }
}

} // verus!
