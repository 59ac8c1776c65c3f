//! Configuration extraction: the key/value pairs handed in by the host,
//! decoded as text and gathered into a map where the last pair for a key wins.
use vstd::prelude::*;

verus! {

/// One configuration pair as the host hands it in: raw bytes that are meant
/// to be text but need not be.
pub struct KeyValue {
    pub key: Vec<u8>,
    pub value: Vec<u8>,
}

/// The text that lossy UTF-8 decoding makes of a byte sequence.
pub uninterp spec fn lossy_text(b: Seq<u8>) -> Seq<char>;

/// Relies on `String::from_utf8_lossy`: decodes the bytes as UTF-8, putting a
/// replacement character where they are malformed; it never fails and the
/// result depends on the bytes alone.
#[verifier::external_body]
fn decode_lossy(b: &Vec<u8>) -> (r: String)
    ensures
        r@ == lossy_text(b@),
{
    String::from_utf8_lossy(b.as_slice()).into_owned()
}

/// The map that a sequence of (key, value) entries describes when they are
/// applied in order, a later entry replacing an earlier one with the same key.
pub open spec fn map_of_entries(s: Seq<(Seq<char>, Seq<char>)>) -> Map<Seq<char>, Seq<char>>
    decreases s.len(),
{
    if s.len() == 0 {
        Map::empty()
    } else {
        map_of_entries(s.drop_last()).insert(s.last().0, s.last().1)
    }
}

/// No two entries share a key.
pub open spec fn keys_unique(s: Seq<(Seq<char>, Seq<char>)>) -> bool {
    forall|i: int, j: int| 0 <= i < j < s.len() ==> (#[trigger] s[i]).0 != (#[trigger] s[j]).0
}

/// The decoded text of every pair, in order.
pub open spec fn decoded_pairs(pairs: Seq<KeyValue>) -> Seq<(Seq<char>, Seq<char>)> {
    pairs.map_values(|p: KeyValue| (lossy_text(p.key@), lossy_text(p.value@)))
}

/// The configuration that a sequence of pairs describes: each key decoded,
/// mapped to the decoded value of the last pair that carries it.
pub open spec fn config_of(pairs: Seq<KeyValue>) -> Map<Seq<char>, Seq<char>> {
    map_of_entries(decoded_pairs(pairs))
}

/// A key that no entry carries is not in the map.
pub proof fn lemma_absent_key(s: Seq<(Seq<char>, Seq<char>)>, k: Seq<char>)
    requires
        forall|i: int| 0 <= i < s.len() ==> (#[trigger] s[i]).0 != k,
    ensures
        !map_of_entries(s).contains_key(k),
    decreases s.len(),
{
    if s.len() > 0 {
        lemma_absent_key(s.drop_last(), k);
    }
}

/// With unique keys, the map sends each entry's key to that entry's value.
pub proof fn lemma_entry_in_map(s: Seq<(Seq<char>, Seq<char>)>, i: int)
    requires
        keys_unique(s),
        0 <= i < s.len(),
    ensures
        map_of_entries(s).contains_key(s[i].0),
        map_of_entries(s)[s[i].0] == s[i].1,
    decreases s.len(),
{
    if i < s.len() - 1 {
        assert(s.drop_last()[i] == s[i]);
        lemma_entry_in_map(s.drop_last(), i);
        assert(s[i].0 != s[s.len() - 1].0);
    }
}

/// With unique keys, replacing the value of one entry replaces it in the map.
pub proof fn lemma_update_entry(s: Seq<(Seq<char>, Seq<char>)>, i: int, v: Seq<char>)
    requires
        keys_unique(s),
        0 <= i < s.len(),
    ensures
        map_of_entries(s.update(i, (s[i].0, v))) == map_of_entries(s).insert(s[i].0, v),
    decreases s.len(),
{
    let t = s.update(i, (s[i].0, v));
    if i == s.len() - 1 {
        assert(t.drop_last() =~= s.drop_last());
        assert(map_of_entries(t) =~= map_of_entries(s).insert(s[i].0, v));
    } else {
        assert(t.drop_last() =~= s.drop_last().update(i, (s[i].0, v)));
        lemma_update_entry(s.drop_last(), i, v);
        assert(s[i].0 != s[s.len() - 1].0);
        assert(map_of_entries(t) =~= map_of_entries(s).insert(s[i].0, v));
    }
}

/// A set of configuration entries, at most one per key.
pub struct ConfigMap {
    entries: Vec<(String, String)>,
}

impl ConfigMap {
    /// The entries as text.
    pub closed spec fn entry_seq(&self) -> Seq<(Seq<char>, Seq<char>)> {
        self.entries@.map_values(|e: (String, String)| (e.0@, e.1@))
    }

    /// Keys are unique.
    pub closed spec fn wf(&self) -> bool {
        keys_unique(self.entry_seq())
    }
}

impl View for ConfigMap {
    type V = Map<Seq<char>, Seq<char>>;

    closed spec fn view(&self) -> Map<Seq<char>, Seq<char>> {
        map_of_entries(self.entry_seq())
    }
}

impl ConfigMap {
    /// An empty configuration.
    pub fn new() -> (r: ConfigMap)
        ensures
            r.wf(),
            r@ == Map::<Seq<char>, Seq<char>>::empty(),
    {
        let r = ConfigMap { entries: Vec::new() };
        assert(r.entry_seq() =~= Seq::empty());
        r
    }

    /// Position of the entry with this key, if there is one.
    fn find(&self, key: &String) -> (r: Option<usize>)
        ensures
            match r {
                Some(i) => i < self.entry_seq().len() && self.entry_seq()[i as int].0 == key@,
                None => forall|i: int|
                    0 <= i < self.entry_seq().len() ==> (#[trigger] self.entry_seq()[i]).0 != key@,
            },
    {
        let mut i: usize = 0;
        while i < self.entries.len()
            invariant
                i <= self.entries@.len(),
                forall|j: int| 0 <= j < i ==> (#[trigger] self.entry_seq()[j]).0 != key@,
            decreases self.entries@.len() - i,
        {
            if self.entries[i].0 == *key {
                return Some(i);
            }
            i = i + 1;
        }
        None
    }

    /// The value stored under `key`, if any.
    pub fn get(&self, key: &String) -> (r: Option<&String>)
        requires
            self.wf(),
        ensures
            match r {
                Some(v) => self@.contains_key(key@) && self@[key@] == v@,
                None => !self@.contains_key(key@),
            },
    {
        match self.find(key) {
            Some(i) => {
                proof {
                    lemma_entry_in_map(self.entry_seq(), i as int);
                }
                Some(&self.entries[i].1)
            },
            None => {
                proof {
                    lemma_absent_key(self.entry_seq(), key@);
                }
                None
            },
        }
    }

    /// Stores `value` under `key`, replacing what was stored there before.
    pub fn insert(&mut self, key: String, value: String)
        requires
            old(self).wf(),
        ensures
            final(self).wf(),
            final(self)@ == old(self)@.insert(key@, value@),
    {
        match self.find(&key) {
            Some(i) => {
                proof {
                    lemma_update_entry(self.entry_seq(), i as int, value@);
                }
                let ghost before = self.entry_seq();
                self.entries.set(i, (key, value));
                assert(self.entry_seq() =~= before.update(i as int, (before[i as int].0, value@)));
                assert forall|a: int, b: int|
                    0 <= a < b < self.entry_seq().len() implies (#[trigger] self.entry_seq()[a]).0
                    != (#[trigger] self.entry_seq()[b]).0 by {
                    assert(before[a].0 != before[b].0);
                }
            },
            None => {
                let ghost before = self.entry_seq();
                self.entries.push((key, value));
                assert(self.entry_seq().drop_last() =~= before);
                assert forall|a: int, b: int|
                    0 <= a < b < self.entry_seq().len() implies (#[trigger] self.entry_seq()[a]).0
                    != (#[trigger] self.entry_seq()[b]).0 by {
                    assert(self.entry_seq()[a] == before[a]);
                    if b < before.len() {
                        assert(self.entry_seq()[b] == before[b]);
                    }
                }
            },
        }
    }

    /// Gathers the pairs into a configuration, decoding each key and value as
    /// text; a later pair replaces an earlier one with the same key.
    pub fn from_pairs(pairs: &[KeyValue]) -> (r: ConfigMap)
        ensures
            r.wf(),
            r@ == config_of(pairs@),
    {
        let mut m = ConfigMap::new();
        let mut i: usize = 0;
        while i < pairs.len()
            invariant
                i <= pairs@.len(),
                m.wf(),
                m@ == map_of_entries(decoded_pairs(pairs@).take(i as int)),
            decreases pairs@.len() - i,
        {
            let key = decode_lossy(&pairs[i].key);
            let value = decode_lossy(&pairs[i].value);
            m.insert(key, value);
            assert(decoded_pairs(pairs@).take(i + 1).drop_last() =~= decoded_pairs(pairs@).take(
                i as int,
            ));
            i = i + 1;
        }
        assert(decoded_pairs(pairs@).take(i as int) =~= decoded_pairs(pairs@));
        m
    }
}

} // verus!
