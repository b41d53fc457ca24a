//! The metadata mapping: string keys to raw string values, keys unique,
//! built up during the frontmatter pass and read-only afterwards.

use vstd::prelude::*;

use crate::text::str_eq_str;

verus! {

/// First-match lookup of `key` among `pairs`.
pub open spec fn lookup(pairs: Seq<(Seq<char>, Seq<char>)>, key: Seq<char>) -> Option<Seq<char>>
    decreases pairs.len(),
{
    if pairs.len() == 0 {
        None
    } else if pairs[0].0 == key {
        Some(pairs[0].1)
    } else {
        lookup(pairs.drop_first(), key)
    }
}

/// `pairs` with `key` bound to `val`: the first pair holding `key` is
/// replaced, or the new pair is appended when the key is absent.
pub open spec fn dict_insert(
    pairs: Seq<(Seq<char>, Seq<char>)>,
    key: Seq<char>,
    val: Seq<char>,
) -> Seq<(Seq<char>, Seq<char>)>
    decreases pairs.len(),
{
    if pairs.len() == 0 {
        seq![(key, val)]
    } else if pairs[0].0 == key {
        seq![(key, val)] + pairs.drop_first()
    } else {
        seq![pairs[0]] + dict_insert(pairs.drop_first(), key, val)
    }
}

/// A mapping from metadata keys to raw values. Viewed as the sequence of
/// its pairs; `insert` keeps keys unique, so `lookup` on the view is the
/// mapping's content.
pub struct Dict {
    pairs: Vec<(String, String)>,
}

impl View for Dict {
    type V = Seq<(Seq<char>, Seq<char>)>;

    closed spec fn view(&self) -> Seq<(Seq<char>, Seq<char>)> {
        self.pairs.deep_view()
    }
}

impl Dict {
    /// The empty mapping.
    pub fn new() -> (r: Dict)
        ensures
            r@ == Seq::<(Seq<char>, Seq<char>)>::empty(),
    {
        let d = Dict { pairs: Vec::new() };
        proof {
            assert(d@ =~~= Seq::<(Seq<char>, Seq<char>)>::empty());
        }
        d
    }

    /// How many pairs the mapping holds.
    pub fn len(&self) -> (r: usize)
        ensures
            r == self@.len(),
    {
        self.pairs.len()
    }

    /// The key of the pair at position `i`.
    pub fn key_at(&self, i: usize) -> (r: &str)
        requires
            i < self@.len(),
        ensures
            r@ == self@[i as int].0,
    {
        self.pairs[i].0.as_str()
    }

    /// The value of the pair at position `i`.
    pub fn val_at(&self, i: usize) -> (r: &str)
        requires
            i < self@.len(),
        ensures
            r@ == self@[i as int].1,
    {
        self.pairs[i].1.as_str()
    }

    /// Bind `key` to `val`, replacing the value of an existing pair with
    /// that key or appending a new pair.
    pub fn insert(&mut self, key: String, val: String)
        ensures
            final(self)@ == dict_insert(old(self)@, key@, val@),
    {
        let n = self.pairs.len();
        let mut i: usize = 0;
        proof {
            assert(old(self)@.skip(0) =~~= old(self)@);
            assert(old(self)@.take(0) =~~= Seq::<(Seq<char>, Seq<char>)>::empty());
            assert(dict_insert(old(self)@, key@, val@) =~~= old(self)@.take(0) + dict_insert(
                old(self)@.skip(0),
                key@,
                val@,
            ));
        }
        while i < n
            invariant
                i <= n,
                n == self@.len(),
                self == old(self),
                dict_insert(old(self)@, key@, val@) == old(self)@.take(i as int) + dict_insert(
                    old(self)@.skip(i as int),
                    key@,
                    val@,
                ),
            decreases n - i,
        {
            let ghost rem = old(self)@.skip(i as int);
            if str_eq_str(self.pairs[i].0.as_str(), key.as_str()) {
                proof {
                    assert(rem[0] == old(self)@[i as int]);
                    assert(rem.drop_first() =~~= old(self)@.skip(i as int + 1));
                }
                self.pairs.set(i, (key, val));
                proof {
                    assert(self@ =~~= old(self)@.take(i as int) + (seq![
                        (self@[i as int].0,
                        self@[i as int].1),
                    ] + old(self)@.skip(i as int + 1)));
                    assert(self@ =~~= dict_insert(old(self)@, key@, val@));
                }
                return ;
            }
            proof {
                assert(rem[0] == old(self)@[i as int]);
                assert(rem.drop_first() =~~= old(self)@.skip(i as int + 1));
                assert(old(self)@.take(i as int + 1) =~~= old(self)@.take(i as int) + seq![
                    old(self)@[i as int],
                ]);
                assert((old(self)@.take(i as int) + seq![old(self)@[i as int]]) + dict_insert(
                    old(self)@.skip(i as int + 1),
                    key@,
                    val@,
                ) =~~= old(self)@.take(i as int) + (seq![old(self)@[i as int]] + dict_insert(
                    old(self)@.skip(i as int + 1),
                    key@,
                    val@,
                )));
            }
            i = i + 1;
        }
        proof {
            assert(old(self)@.skip(n as int) =~~= Seq::<(Seq<char>, Seq<char>)>::empty());
            assert(old(self)@.take(n as int) =~~= old(self)@);
        }
        self.pairs.push((key, val));
        proof {
            assert(self@ =~~= old(self)@ + seq![(self@[n as int].0, self@[n as int].1)]);
            assert(self@ =~~= dict_insert(old(self)@, key@, val@));
        }
    }

    /// Look `key` up; a clone of the bound value, or `None` when the key
    /// is absent.
    pub fn get(&self, key: &str) -> (r: Option<String>)
        ensures
            match r {
                Some(v) => lookup(self@, key@) == Some(v@),
                None => lookup(self@, key@) is None,
            },
    {
        let n = self.pairs.len();
        let mut i: usize = 0;
        proof {
            assert(self@.skip(0) =~~= self@);
        }
        while i < n
            invariant
                i <= n,
                n == self@.len(),
                lookup(self@, key@) == lookup(self@.skip(i as int), key@),
            decreases n - i,
        {
            let ghost rem = self@.skip(i as int);
            proof {
                assert(rem[0] == self@[i as int]);
                assert(rem.drop_first() =~~= self@.skip(i as int + 1));
            }
            if str_eq_str(self.pairs[i].0.as_str(), key) {
                return Some(self.pairs[i].1.clone());
            }
            i = i + 1;
        }
        proof {
            assert(self@.skip(n as int) =~~= Seq::<(Seq<char>, Seq<char>)>::empty());
        }
        None
    }
}

} // verus!
