//! A map from characters to values.

use std::collections::HashMap;
use vstd::prelude::*;

verus! {

/// A map keyed by character.
///
/// Values are kept in the order in which their keys first came; a hash index
/// says where each key's value is. The index is keyed by the characters'
/// codes, since the behaviour of a hash map is specified for integer keys
/// and not for `char`. A lookup trusts the index only as far as the slot it
/// points to names the key that was asked for, so that the map means
/// something whatever its parts hold.
#[derive(Clone, Debug)]
pub struct CharMap<V> {
    index: HashMap<u32, usize>,
    slots: Vec<(char, V)>,
}

/// Two characters with one code are one character.
proof fn lemma_codes_differ(c: char, d: char)
    requires
        c != d,
    ensures
        c as u32 != d as u32,
{
}

impl<V> CharMap<V> {
    /// The slot that holds the value of `c`, if `c` is a key.
    closed spec fn slot_of(&self, c: char) -> Option<int> {
        let code = c as u32;
        if self.index@.contains_key(code) && self.index@[code] < self.slots.len()
            && self.slots[self.index@[code] as int].0 == c {
            Some(self.index@[code] as int)
        } else {
            None
        }
    }

    /// Slot `i` holds the value of a key.
    closed spec fn live(&self, i: int) -> bool {
        0 <= i < self.slots.len() && self.slot_of(self.slots[i].0) == Some(i)
    }
}

impl<V> View for CharMap<V> {
    type V = Map<char, V>;

    closed spec fn view(&self) -> Map<char, V> {
        Map::new(
            |c: char| self.slot_of(c) is Some,
            |c: char| self.slots[self.slot_of(c)->0].1,
        )
    }
}

impl<V> CharMap<V> {
    /// A map without keys.
    pub fn new() -> (map: Self)
        ensures
            map@ == Map::<char, V>::empty(),
    {
        let map = CharMap { index: HashMap::new(), slots: Vec::new() };
        assert(map@ =~= Map::<char, V>::empty());
        map
    }

    /// The value of `c`, if `c` is a key.
    pub fn get(&self, c: char) -> (value: Option<&V>)
        ensures
            value is Some <==> self@.contains_key(c),
            value matches Some(v) ==> *v == self@[c],
    {
        broadcast use vstd::std_specs::hash::group_hash_axioms;

        match self.index.get(&(c as u32)) {
            Some(at) => {
                let at = *at;
                if at < self.slots.len() && self.slots[at].0 == c {
                    Some(&self.slots[at].1)
                } else {
                    None
                }
            },
            None => None,
        }
    }

    /// Whether `c` is a key.
    pub fn contains_key(&self, c: char) -> (found: bool)
        ensures
            found == self@.contains_key(c),
    {
        self.get(c).is_some()
    }

    /// Gives `c` the value `value`, whether or not it had one.
    pub fn insert(&mut self, c: char, value: V)
        ensures
            final(self)@ == old(self)@.insert(c, value),
    {
        broadcast use vstd::std_specs::hash::group_hash_axioms;

        let ghost before = *self;
        let found = match self.index.get(&(c as u32)) {
            Some(at) => {
                let at = *at;
                if at < self.slots.len() && self.slots[at].0 == c {
                    Some(at)
                } else {
                    None
                }
            },
            None => None,
        };
        match found {
            Some(at) => {
                self.slots.set(at, (c, value));
                assert forall|d: char| #[trigger] self.slot_of(d) == before.slot_of(d) by {}
            },
            None => {
                let at = self.slots.len();
                self.slots.push((c, value));
                self.index.insert(c as u32, at);
                assert forall|d: char| d != c implies #[trigger] self.slot_of(d) == before.slot_of(
                    d,
                ) by {
                    lemma_codes_differ(c, d);
                }
                assert(self.slot_of(c) == Some(at as int));
            },
        }
        assert(self@ =~= before@.insert(c, value));
    }

    /// The keys, each once.
    pub fn keys(&self) -> (keys: Vec<char>)
        ensures
            keys@.no_duplicates(),
            forall|c: char| keys@.contains(c) <==> self@.contains_key(c),
            self@.dom().finite(),
            keys@.len() == self@.len(),
    {
        broadcast use vstd::std_specs::hash::group_hash_axioms;

        let mut keys: Vec<char> = Vec::new();
        let ghost mut from: Seq<int> = Seq::empty();
        let mut i: usize = 0;
        while i < self.slots.len()
            invariant
                0 <= i <= self.slots.len(),
                from.len() == keys.len(),
                forall|k: int|
                    0 <= k < keys.len() ==> 0 <= #[trigger] from[k] < i && self.live(from[k])
                        && self.slots[from[k]].0 == keys[k],
                forall|k: int, l: int| 0 <= k < l < keys.len() ==> from[k] < from[l],
                forall|j: int| 0 <= j < i && self.live(j) ==> from.contains(j),
            decreases self.slots.len() - i,
        {
            let c = self.slots[i].0;
            let live = match self.index.get(&(c as u32)) {
                Some(at) => *at == i,
                None => false,
            };
            assert(live == self.live(i as int));
            if live {
                let ghost old_from = from;
                keys.push(c);
                proof {
                    from = from.push(i as int);
                    assert forall|j: int| 0 <= j < i + 1 && self.live(j) implies from.contains(
                        j,
                    ) by {
                        if j < i {
                            assert(old_from.contains(j));
                            let k = choose|k: int| 0 <= k < old_from.len() && old_from[k] == j;
                            assert(from[k] == j);
                        } else {
                            assert(from[from.len() - 1] == j);
                        }
                    }
                }
            }
            i = i + 1;
        }
        assert forall|k: int, l: int|
            0 <= k < keys.len() && 0 <= l < keys.len() && k != l implies keys[k] != keys[l] by {
            if keys[k] == keys[l] {
                assert(self.slot_of(keys[k]) == Some(from[k]));
                assert(self.slot_of(keys[l]) == Some(from[l]));
                assert(from[k] != from[l]);
            }
        }
        assert forall|c: char| keys@.contains(c) <==> self@.contains_key(c) by {
            if keys@.contains(c) {
                let k = choose|k: int| 0 <= k < keys@.len() && keys@[k] == c;
                assert(self.slot_of(c) == Some(from[k]));
            }
            if self@.contains_key(c) {
                let j = self.slot_of(c)->0;
                assert(self.live(j));
                assert(from.contains(j));
                let k = choose|k: int| 0 <= k < from.len() && from[k] == j;
                assert(keys@[k] == c);
            }
        }
        proof {
            assert(keys@.to_set() =~= self@.dom());
            vstd::seq_lib::seq_to_set_is_finite(keys@);
            keys@.unique_seq_to_set();
        }
        keys
    }
}

} // verus!
