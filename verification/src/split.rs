//! Splitting a string on a separator character, joining fragments with
//! newlines, and the pipe-delimited metadata lists.

use vstd::prelude::*;
use vstd::string::StrSliceExecFns;
use vstd::string::StringExecFns;

use crate::text::find_from;
use crate::text::lemma_find_from_is;
use crate::text::trim_str;
use crate::text::trimmed;

verus! {

/// The segments of `s` between occurrences of `sep`. A string without the
/// separator is one segment; every separator ends a segment, so `n`
/// separators give `n + 1` segments, empty ones included.
pub open spec fn split_on(s: Seq<char>, sep: char) -> Seq<Seq<char>>
    decreases s.len(),
{
    let j = find_from(s, sep, 0);
    if 0 <= j < s.len() {
        seq![s.take(j)] + split_on(s.skip(j + 1), sep)
    } else {
        seq![s]
    }
}

/// Split `s` into the segments between occurrences of `sep`.
pub fn split_str(s: &str, sep: char) -> (r: Vec<String>)
    ensures
        r.deep_view() == split_on(s@, sep),
{
    let len = s.unicode_len();
    let mut out: Vec<String> = Vec::new();
    let mut start: usize = 0;
    let mut i: usize = 0;
    proof {
        assert(s@.skip(0) =~= s@);
        assert(out.deep_view() =~~= Seq::<Seq<char>>::empty());
        assert(Seq::<Seq<char>>::empty() + split_on(s@, sep) =~~= split_on(s@, sep));
    }
    loop
        invariant
            start <= i <= len,
            len == s@.len(),
            forall|k: int| start <= k < i ==> s@[k] != sep,
            split_on(s@, sep) == out.deep_view() + split_on(s@.skip(start as int), sep),
        decreases len - i,
    {
        let ghost rem = s@.skip(start as int);
        if i == len {
            proof {
                lemma_find_from_is(rem, sep, 0, rem.len() as int);
            }
            out.push(s.substring_char(start, len).to_owned());
            proof {
                assert(rem =~= s@.subrange(start as int, len as int));
                assert(out.deep_view() =~~= out.deep_view().drop_last().push(rem));
                assert(split_on(s@, sep) =~~= out.deep_view());
            }
            return out;
        } else if s.get_char(i) == sep {
            proof {
                lemma_find_from_is(rem, sep, 0, i - start);
                assert(rem.take(i - start) =~= s@.subrange(start as int, i as int));
                assert(rem.skip(i - start + 1) =~= s@.skip(i as int + 1));
            }
            let seg = s.substring_char(start, i).to_owned();
            out.push(seg);
            proof {
                assert(out.deep_view() =~~= out.deep_view().drop_last().push(s@.subrange(
                    start as int,
                    i as int,
                )));
                assert(split_on(s@, sep) == out.deep_view() + split_on(
                    s@.skip(i as int + 1),
                    sep,
                ));
            }
            start = i + 1;
            i = i + 1;
        } else {
            i = i + 1;
        }
    }
}

/// The fragments of `frags` joined with a newline between neighbours.
pub open spec fn joined_lines(frags: Seq<Seq<char>>) -> Seq<char>
    decreases frags.len(),
{
    if frags.len() == 0 {
        Seq::empty()
    } else if frags.len() == 1 {
        frags[0]
    } else {
        joined_lines(frags.drop_last()) + seq!['\n'] + frags.last()
    }
}

/// Join `frags` with a newline between neighbours.
pub fn join_lines(frags: &Vec<String>) -> (r: String)
    ensures
        r@ == joined_lines(frags.deep_view()),
{
    let mut out = String::new();
    let mut i: usize = 0;
    while i < frags.len()
        invariant
            i <= frags.len(),
            out@ == joined_lines(frags.deep_view().take(i as int)),
        decreases frags.len() - i,
    {
        if i > 0 {
            out.append("\n");
            proof {
                assert(("\n")@ =~= seq!['\n']) by {
                    reveal_strlit("\n");
                }
            }
        }
        out.append(frags[i].as_str());
        proof {
            let d = frags.deep_view();
            assert(d.take(i as int + 1).drop_last() =~= d.take(i as int));
            assert(d.take(i as int + 1).last() == d[i as int]);
            if i == 0 {
                assert(out@ == d.take(1)[0]);
            }
        }
        i = i + 1;
    }
    proof {
        assert(frags.deep_view().take(frags.deep_view().len() as int) =~= frags.deep_view());
    }
    out
}

/// The segments of a pipe-delimited list, each trimmed.
pub open spec fn meta_list(s: Seq<char>) -> Seq<Seq<char>> {
    split_on(s, '|').map_values(|seg: Seq<char>| trimmed(seg))
}

/// Split a pipe-delimited metadata value into its trimmed segments.
pub fn split_meta_list(line: &str) -> (r: Vec<String>)
    ensures
        r.deep_view() == meta_list(line@),
{
    let parts = split_str(line, '|');
    let mut out: Vec<String> = Vec::new();
    let mut i: usize = 0;
    while i < parts.len()
        invariant
            i <= parts.len(),
            parts.deep_view() == split_on(line@, '|'),
            out.deep_view() =~~= meta_list(line@).take(i as int),
        decreases parts.len() - i,
    {
        let ghost prev = out.deep_view();
        out.push(trim_str(parts[i].as_str()).to_owned());
        proof {
            assert(parts.deep_view()[i as int] == parts@[i as int]@);
            assert(meta_list(line@)[i as int] == trimmed(parts@[i as int]@));
            assert(out.deep_view() =~~= prev.push(trimmed(parts@[i as int]@)));
            assert(out.deep_view() =~~= meta_list(line@).take(i as int + 1));
        }
        i = i + 1;
    }
    proof {
        assert(meta_list(line@).take(parts.deep_view().len() as int) =~= meta_list(line@));
    }
    out
}

} // verus!
