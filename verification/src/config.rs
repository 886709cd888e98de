//! The configuration bag: a keyed collection of fixed-point numeric values
//! read once by each module at registration. Unknown keys are ignored;
//! missing required keys fail loudly.

use vstd::prelude::*;

verus! {

/// One configuration entry: a key and a fixed-point value scaled by
/// `FIXED_ONE`.
pub struct ConfigEntry {
    pub key: String,
    pub value: i64,
}

/// The keyed configuration bag.
pub struct ConfigBag {
    entries: Vec<ConfigEntry>,
}

/// The value under the first occurrence of `key`, if any.
pub open spec fn config_lookup(entries: Seq<(Seq<char>, i64)>, key: Seq<char>) -> Option<i64>
    decreases entries.len(),
{
    if entries.len() == 0 {
        None
    } else if entries[0].0 == key {
        Some(entries[0].1)
    } else {
        config_lookup(entries.drop_first(), key)
    }
}

impl View for ConfigBag {
    type V = Seq<(Seq<char>, i64)>;

    closed spec fn view(&self) -> Seq<(Seq<char>, i64)> {
        self.entries@.map_values(|e: ConfigEntry| (e.key@, e.value))
    }
}

impl ConfigBag {
    pub fn new() -> (r: Self)
        ensures
            r@ == Seq::<(Seq<char>, i64)>::empty(),
    {
        let r = Self { entries: Vec::new() };
        proof {
            assert(r@ =~= Seq::<(Seq<char>, i64)>::empty());
        }
        r
    }

    /// Append an entry.
    pub fn insert(&mut self, key: String, value: i64)
        ensures
            final(self)@ == old(self)@.push((key@, value)),
    {
        let ghost prev = self@;
        let ghost kv = key@;
        self.entries.push(ConfigEntry { key, value });
        proof {
            assert(self@ =~= prev.push((kv, value)));
        }
    }

    /// The value under `key`, if the bag holds one.
    pub fn get(&self, key: &String) -> (r: Option<i64>)
        ensures
            r == config_lookup(self@, key@),
    {
        let n = self.entries.len();
        proof {
            assert(self@.skip(0int) =~= self@);
        }
        for k in 0..n
            invariant
                n == self.entries@.len(),
                config_lookup(self@, key@) == config_lookup(self@.skip(k as int), key@),
        {
            proof {
                assert(self@[k as int] == (self.entries@[k as int].key@, self.entries@[k as int].value));
                assert(self@.skip(k as int)[0] == self@[k as int]);
            }
            if self.entries[k].key == *key {
                return Some(self.entries[k].value);
            }
            proof {
                assert(self@.skip(k as int).drop_first() =~= self@.skip(k + 1));
            }
        }
        proof {
            assert(self@.skip(n as int).len() == 0);
        }
        None
    }
}

/// Why a module rejected the configuration at registration.
#[derive(Debug)]
pub enum ConfigError {
    /// A key the module requires is absent.
    MissingKey { key: String },
}

} // verus!
