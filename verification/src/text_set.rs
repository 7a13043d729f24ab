//! A set of texts that remembers the order in which its members came: the
//! strings themselves in a list, and for each hash value the places in the
//! list of the strings that have it.

use vstd::prelude::*;
use vstd::string::*;
use vstd::utf8::encode_utf8;
use std::collections::HashMap;
use crate::capitalization::texts;

verus! {

/// One step of the hash: takes the byte `b` into the hash `h`.
pub open spec fn mixed(h: u64, b: u8) -> u64 {
    (h ^ (b as u64)).wrapping_mul(0x0000_0100_0000_01b3)
}

/// The hash of a sequence of bytes, taken byte by byte from the front.
pub open spec fn bytes_hash(bytes: Seq<u8>) -> u64
    decreases bytes.len(),
{
    if bytes.len() == 0 {
        0xcbf2_9ce4_8422_2325
    } else {
        mixed(bytes_hash(bytes.drop_last()), bytes.last())
    }
}

/// The hash of a text: that of its bytes in UTF-8.
pub open spec fn text_hash(s: Seq<char>) -> u64 {
    bytes_hash(encode_utf8(s))
}

/// Computes the hash of a string.
pub fn hash_text(s: &str) -> (h: u64)
    ensures
        h == text_hash(s@),
{
    let bytes = s.as_bytes();
    let mut h: u64 = 0xcbf2_9ce4_8422_2325;
    let mut i: usize = 0;
    while i < bytes.len()
        invariant
            i <= bytes.len(),
            h == bytes_hash(bytes@.take(i as int)),
        decreases bytes.len() - i,
    {
        proof {
            assert(bytes@.take(i + 1).drop_last() =~= bytes@.take(i as int));
        }
        h = (h ^ (bytes[i] as u64)).wrapping_mul(0x0000_0100_0000_01b3);
        i = i + 1;
    }
    proof {
        assert(bytes@.take(bytes.len() as int) =~= bytes@);
    }
    h
}

/// A set of strings. No text is held twice, and the members keep the order
/// in which they were first put in.
pub struct TextSet {
    items: Vec<String>,
    places: HashMap<u64, Vec<usize>>,
}

/// Every string of `items` is found under its hash in `places`, and
/// `places` names nothing else.
spec fn indexed(items: Seq<String>, places: Map<u64, Vec<usize>>) -> bool {
    &&& forall|i: int|
        0 <= i < items.len() ==> places.contains_key(text_hash(#[trigger] items[i]@))
            && places[text_hash(items[i]@)]@.contains(i as usize)
    &&& forall|h: u64, j: int|
        places.contains_key(h) && 0 <= j < places[h]@.len() ==> (#[trigger] places[h]@[j])
            < items.len() && text_hash(items[places[h]@[j] as int]@) == h
}

impl TextSet {
    /// The members, in the order in which they came.
    pub closed spec fn view(&self) -> Seq<Seq<char>> {
        texts(self.items@)
    }

    #[verifier::type_invariant]
    spec fn well_formed(&self) -> bool {
        &&& texts(self.items@).no_duplicates()
        &&& indexed(self.items@, self.places@)
    }

    /// The empty set.
    pub fn new() -> (set: Self)
        ensures
            set@ == Seq::<Seq<char>>::empty(),
    {
        TextSet { items: Vec::new(), places: HashMap::new() }
    }

    /// The number of members.
    pub fn len(&self) -> (n: usize)
        ensures
            n == self@.len(),
    {
        self.items.len()
    }

    /// Tells whether the text of `s` is a member.
    pub fn contains(&self, s: &String) -> (found: bool)
        ensures
            found == self@.contains(s@),
            self@.no_duplicates(),
    {
        proof {
            use_type_invariant(self);
        }
        holds(&self.items, &self.places, s)
    }

    /// Puts `s` in unless its text is a member already, and tells whether it
    /// was put in.
    pub fn insert(&mut self, s: String) -> (added: bool)
        ensures
            added == !old(self)@.contains(s@),
            added ==> final(self)@ == old(self)@.push(s@),
            !added ==> final(self)@ == old(self)@,
            final(self)@.no_duplicates(),
            forall|t: Seq<char>| #[trigger]
                final(self)@.contains(t) <==> old(self)@.contains(t) || t == s@,
    {
        let ghost before = self@;
        let mut taken = TextSet::new();
        std::mem::swap(self, &mut taken);
        proof {
            use_type_invariant(&taken);
        }
        let TextSet { items: mut items, places: mut places } = taken;
        let added = put(&mut items, &mut places, s);
        *self = TextSet { items, places };
        proof {
            assert forall|t: Seq<char>| #[trigger]
                self@.contains(t) <==> before.contains(t) || t == s@ by {
                if before.contains(t) {
                    let j = choose|j: int| 0 <= j < before.len() && before[j] == t;
                    assert(self@[j] == t);
                }
                if added && t == s@ {
                    assert(self@[before.len() as int] == t);
                }
            }
        }
        added
    }

    /// Puts in every string of `more` whose text is not a member yet, in the
    /// order of `more`.
    pub fn extend(&mut self, more: Vec<String>)
        ensures
            final(self)@.no_duplicates(),
            old(self)@.is_prefix_of(final(self)@),
            final(self)@.to_set() == old(self)@.to_set().union(texts(more@).to_set()),
            forall|t: Seq<char>| #[trigger]
                final(self)@.contains(t) <==> old(self)@.contains(t) || texts(more@).contains(t),
    {
        let ghost before = self@;
        let mut more = more;
        let ghost all = texts(more@);
        let n = more.len();
        let mut i: usize = 0;
        proof {
            use_type_invariant(&*self);
        }
        while i < n
            invariant
                i <= n,
                n == more.len(),
                n == all.len(),
                forall|j: int| i <= j < n ==> texts(more@)[j] == all[j],
                self@.no_duplicates(),
                before.is_prefix_of(self@),
                forall|t: Seq<char>| #[trigger]
                    self@.contains(t) <==> before.contains(t) || all.take(i as int).contains(t),
            decreases n - i,
        {
            let mut s = String::new();
            std::mem::swap(&mut s, &mut more[i]);
            self.insert(s);
            proof {
                let longer = all.take(i + 1);
                assert forall|t: Seq<char>| #[trigger]
                    self@.contains(t) <==> before.contains(t) || longer.contains(t) by {
                    if t == all[i as int] {
                        assert(longer[i as int] == t);
                    }
                }
            }
            i = i + 1;
        }
        proof {
            assert(all.take(n as int) =~= all);
        }
    }

    /// Hands out the members as a list, in the order in which they came.
    pub fn into_vec(self) -> (list: Vec<String>)
        ensures
            texts(list@) == self@,
            texts(list@).no_duplicates(),
    {
        proof {
            use_type_invariant(&self);
        }
        self.items
    }
}

/// Tells whether the text of `s` is among `items`, looking only at the
/// places that `places` names for its hash.
fn holds(items: &Vec<String>, places: &HashMap<u64, Vec<usize>>, s: &String) -> (found: bool)
    requires
        indexed(items@, places@),
    ensures
        found == texts(items@).contains(s@),
{
    broadcast use vstd::std_specs::hash::group_hash_axioms;

    let h = hash_text(s.as_str());
    match places.get(&h) {
        None => {
            false
        },
        Some(slot) => {
            let mut j: usize = 0;
            while j < slot.len()
                invariant
                    j <= slot.len(),
                    indexed(items@, places@),
                    places@.contains_key(h),
                    places@[h] == *slot,
                    h == text_hash(s@),
                    forall|a: int| 0 <= a < j ==> items@[slot@[a] as int]@ != s@,
                decreases slot.len() - j,
            {
                let at = slot[j];
                if items[at] == *s {
                    proof {
                        assert(texts(items@)[at as int] == s@);
                    }
                    return true;
                }
                j = j + 1;
            }
            proof {
                if texts(items@).contains(s@) {
                    let i = choose|i: int| 0 <= i < items.len() && texts(items@)[i] == s@;
                    let a = choose|a: int| 0 <= a < slot@.len() && slot@[a] == i as usize;
                    assert(items@[slot@[a] as int]@ == s@);
                }
            }
            false
        },
    }
}

/// Appends `s` to `items` and names its place in `places`, unless its text
/// is among `items` already.
fn put(items: &mut Vec<String>, places: &mut HashMap<u64, Vec<usize>>, s: String) -> (added: bool)
    requires
        indexed(old(items)@, old(places)@),
        texts(old(items)@).no_duplicates(),
    ensures
        indexed(final(items)@, final(places)@),
        texts(final(items)@).no_duplicates(),
        added == !texts(old(items)@).contains(s@),
        added ==> texts(final(items)@) == texts(old(items)@).push(s@),
        !added ==> texts(final(items)@) == texts(old(items)@),
{
    broadcast use vstd::std_specs::hash::group_hash_axioms;

    if holds(items, places, &s) {
        return false;
    }
    let h = hash_text(s.as_str());
    let at = items.len();
    let ghost before = items@;
    let mut slot = match places.remove(&h) {
        Some(slot) => slot,
        None => Vec::new(),
    };
    let ghost earlier = slot@;
    slot.push(at);
    items.push(s);
    places.insert(h, slot);
    proof {
        assert(texts(items@) =~= texts(before).push(s@));
        assert forall|i: int| 0 <= i < items@.len() implies places@.contains_key(
            text_hash(#[trigger] items@[i]@),
        ) && places@[text_hash(items@[i]@)]@.contains(i as usize) by {
            if i < at {
                if text_hash(items@[i]@) == h {
                    let a = choose|a: int| 0 <= a < earlier.len() && earlier[a] == i as usize;
                    assert(places@[h]@[a] == i as usize);
                }
            } else {
                assert(places@[h]@[earlier.len() as int] == at);
            }
        }
    }
    true
}

} // verus!
