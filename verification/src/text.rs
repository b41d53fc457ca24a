//! Character-level text utilities: trimming, word splitting, entity
//! escaping, substring replacement and filename-stem extraction.

use vstd::prelude::*;
use vstd::string::StrSliceExecFns;
use vstd::string::StringExecFns;

verus! {

/// A character that trimming removes: one with the Unicode `White_Space`
/// property.
pub open spec fn is_space(c: char) -> bool {
    let u = c as u32;
    u == 0x20 || (0x09 <= u <= 0x0D) || u == 0x85 || u == 0xA0 || u == 0x1680 || (0x2000 <= u
        <= 0x200A) || u == 0x2028 || u == 0x2029 || u == 0x202F || u == 0x205F || u == 0x3000
}

/// `s` with its leading whitespace removed.
pub open spec fn trim_front(s: Seq<char>) -> Seq<char>
    decreases s.len(),
{
    if s.len() > 0 && is_space(s[0]) {
        trim_front(s.drop_first())
    } else {
        s
    }
}

/// `s` with its trailing whitespace removed.
pub open spec fn trim_back(s: Seq<char>) -> Seq<char>
    decreases s.len(),
{
    if s.len() > 0 && is_space(s.last()) {
        trim_back(s.drop_last())
    } else {
        s
    }
}

/// `s` with whitespace removed at both ends.
pub open spec fn trimmed(s: Seq<char>) -> Seq<char> {
    trim_back(trim_front(s))
}

fn is_space_char(c: char) -> (r: bool)
    ensures
        r == is_space(c),
{
    let u: u32 = c as u32;
    u == 0x20 || (0x09 <= u && u <= 0x0D) || u == 0x85 || u == 0xA0 || u == 0x1680 || (0x2000 <= u
        && u <= 0x200A) || u == 0x2028 || u == 0x2029 || u == 0x202F || u == 0x205F || u == 0x3000
}

/// Remove whitespace at both ends of `s`.
pub fn trim_str<'a>(s: &'a str) -> (r: &'a str)
    ensures
        r@ == trimmed(s@),
{
    let len = s.unicode_len();
    let mut a: usize = 0;
    proof {
        assert(s@.skip(0) =~= s@);
    }
    while a < len && is_space_char(s.get_char(a))
        invariant
            a <= len,
            len == s@.len(),
            trim_front(s@) == trim_front(s@.skip(a as int)),
        decreases len - a,
    {
        proof {
            assert(s@.skip(a as int).drop_first() =~= s@.skip(a as int + 1));
        }
        a = a + 1;
    }
    proof {
        assert(trim_front(s@.skip(a as int)) == s@.skip(a as int));
    }
    let mut b: usize = len;
    proof {
        assert(s@.subrange(a as int, len as int) =~= s@.skip(a as int));
    }
    while b > a && is_space_char(s.get_char(b - 1))
        invariant
            a <= b <= len,
            len == s@.len(),
            trim_front(s@) == s@.skip(a as int),
            trim_back(s@.subrange(a as int, b as int)) == trimmed(s@),
        decreases b,
    {
        proof {
            assert(s@.subrange(a as int, b as int).drop_last() =~= s@.subrange(
                a as int,
                b as int - 1,
            ));
        }
        b = b - 1;
    }
    proof {
        assert(trim_back(s@.subrange(a as int, b as int)) == s@.subrange(a as int, b as int));
    }
    s.substring_char(a, b)
}

/// The position of the first occurrence of `c` in `s` at or after `i`,
/// or `s.len()` if there is none.
pub open spec fn find_from(s: Seq<char>, c: char, i: int) -> int
    decreases s.len() - i,
{
    if !(0 <= i < s.len()) {
        s.len() as int
    } else if s[i] == c {
        i
    } else {
        find_from(s, c, i + 1)
    }
}

/// `find_from` names the first occurrence: the result is in range, the
/// character stands there, and no earlier position past `i` holds it.
pub proof fn lemma_find_from(s: Seq<char>, c: char, i: int)
    requires
        0 <= i <= s.len(),
    ensures
        i <= find_from(s, c, i) <= s.len(),
        find_from(s, c, i) < s.len() ==> s[find_from(s, c, i)] == c,
        forall|j: int| i <= j < find_from(s, c, i) ==> s[j] != c,
    decreases s.len() - i,
{
    if i < s.len() && s[i] != c {
        lemma_find_from(s, c, i + 1);
    }
}

/// If no occurrence of `c` lies in `[i, j)` and `j` is an occurrence or the
/// end, then `j` is what `find_from` names.
pub proof fn lemma_find_from_is(s: Seq<char>, c: char, i: int, j: int)
    requires
        0 <= i <= j <= s.len(),
        j < s.len() ==> s[j] == c,
        forall|k: int| i <= k < j ==> s[k] != c,
    ensures
        find_from(s, c, i) == j,
    decreases j - i,
{
    if i < j {
        lemma_find_from_is(s, c, i + 1, j);
    }
}

/// The first whitespace-delimited token of `s`: everything before the first
/// space, or all of `s` when it has no space.
pub open spec fn first_word(s: Seq<char>) -> Seq<char> {
    s.take(find_from(s, ' ', 0))
}

/// What follows the first token of `s`, the separating space included.
pub open spec fn rest_after_word(s: Seq<char>) -> Seq<char> {
    s.skip(find_from(s, ' ', 0))
}

/// Split `string` at its first space: the token before it, and the rest of
/// the string from the space on. A string without a space is all token.
pub fn take_first_word<'a>(string: &'a str) -> (r: (&'a str, &'a str))
    ensures
        r.0@ == first_word(string@),
        r.1@ == rest_after_word(string@),
{
    let len = string.unicode_len();
    let mut i: usize = 0;
    while i < len && string.get_char(i) != ' '
        invariant
            i <= len,
            len == string@.len(),
            find_from(string@, ' ', 0) == find_from(string@, ' ', i as int),
        decreases len - i,
    {
        i = i + 1;
    }
    proof {
        lemma_find_from(string@, ' ', 0);
    }
    (string.substring_char(0, i), string.substring_char(i, len))
}

/// Whether two string slices hold the same characters.
pub fn str_eq_str(a: &str, b: &str) -> (r: bool)
    ensures
        r == (a@ == b@),
{
    let la = a.unicode_len();
    let lb = b.unicode_len();
    if la != lb {
        return false;
    }
    let mut i: usize = 0;
    while i < la
        invariant
            i <= la,
            la == a@.len(),
            la == b@.len(),
            forall|j: int| 0 <= j < i ==> a@[j] == b@[j],
        decreases la - i,
    {
        if a.get_char(i) != b.get_char(i) {
            return false;
        }
        i = i + 1;
    }
    proof {
        assert(a@ =~= b@);
    }
    true
}

/// The HTML escape of one character: `&`, `<` and `>` become entities,
/// every other character stands for itself.
pub open spec fn escape_char(c: char) -> Seq<char> {
    if c == '&' {
        ("&amp;")@
    } else if c == '<' {
        ("&lt;")@
    } else if c == '>' {
        ("&gt;")@
    } else {
        seq![c]
    }
}

/// `s` with every `&`, `<` and `>` escaped, each occurrence exactly once.
pub open spec fn sanitized(s: Seq<char>) -> Seq<char>
    decreases s.len(),
{
    if s.len() == 0 {
        Seq::empty()
    } else {
        sanitized(s.drop_last()) + escape_char(s.last())
    }
}

/// Escape `&`, `<` and `>` in `dirty` as HTML entities. The ampersand of an
/// entity already present is escaped again: the pass is not idempotent.
pub fn sanitize_html(dirty: &str) -> (r: String)
    ensures
        r@ == sanitized(dirty@),
{
    let len = dirty.unicode_len();
    let mut out = String::new();
    let mut i: usize = 0;
    while i < len
        invariant
            i <= len,
            len == dirty@.len(),
            out@ == sanitized(dirty@.take(i as int)),
        decreases len - i,
    {
        let c = dirty.get_char(i);
        if c == '&' {
            out.append("&amp;");
        } else if c == '<' {
            out.append("&lt;");
        } else if c == '>' {
            out.append("&gt;");
        } else {
            out.append(dirty.substring_char(i, i + 1));
            proof {
                assert(dirty@.subrange(i as int, i as int + 1) =~= seq![dirty@[i as int]]);
            }
        }
        proof {
            assert(dirty@.take(i as int + 1).drop_last() =~= dirty@.take(i as int));
            assert(dirty@.take(i as int + 1).last() == dirty@[i as int]);
        }
        i = i + 1;
    }
    proof {
        assert(dirty@.take(len as int) =~= dirty@);
    }
    out
}

/// What remains of `s` after consuming characters from the back up to and
/// including the last `.`; empty when `s` has no `.`.
pub open spec fn before_last_dot(s: Seq<char>) -> Seq<char>
    decreases s.len(),
{
    if s.len() == 0 {
        s
    } else if s.last() == '.' {
        s.drop_last()
    } else {
        before_last_dot(s.drop_last())
    }
}

/// The stem of `filename`: everything before the last `.`, or the whole
/// name when it has no `.` or the stem would be empty.
pub open spec fn stem_of(s: Seq<char>) -> Seq<char> {
    if before_last_dot(s).len() == 0 {
        s
    } else {
        before_last_dot(s)
    }
}

/// Strip the extension of `filename`: drop the last `.` and what follows
/// it, unless nothing would remain, in which case the name is returned
/// unchanged.
pub fn remove_file_extension<'a>(filename: &'a str) -> (r: &'a str)
    ensures
        r@ == stem_of(filename@),
{
    let len = filename.unicode_len();
    let mut i: usize = len;
    proof {
        assert(filename@.take(len as int) =~= filename@);
    }
    while i > 0 && filename.get_char(i - 1) != '.'
        invariant
            i <= len,
            len == filename@.len(),
            before_last_dot(filename@) == before_last_dot(filename@.take(i as int)),
        decreases i,
    {
        proof {
            assert(filename@.take(i as int).drop_last() =~= filename@.take(i as int - 1));
        }
        i = i - 1;
    }
    if i == 0 {
        filename
    } else {
        proof {
            assert(filename@.take(i as int).drop_last() =~= filename@.take(i as int - 1));
        }
        let r = filename.substring_char(0, i - 1);
        if r.unicode_len() == 0 {
            proof {
                assert(filename@.subrange(0, i as int - 1) =~= filename@.take(i as int - 1));
            }
            filename
        } else {
            proof {
                assert(filename@.subrange(0, i as int - 1) =~= filename@.take(i as int - 1));
            }
            r
        }
    }
}

/// `s` with every non-overlapping, leftmost occurrence of `pat` replaced
/// by `to`; `pat` is assumed nonempty.
pub open spec fn replaced(s: Seq<char>, pat: Seq<char>, to: Seq<char>) -> Seq<char>
    decreases s.len(),
{
    if pat.len() > 0 && s.len() >= pat.len() && s.take(pat.len() as int) == pat {
        to + replaced(s.skip(pat.len() as int), pat, to)
    } else if s.len() == 0 {
        s
    } else {
        seq![s[0]] + replaced(s.drop_first(), pat, to)
    }
}

/// Whether `pat` occurs in `s` starting at position `i`.
fn matches_at(s: &str, i: usize, pat: &str, plen: usize) -> (r: bool)
    requires
        plen == pat@.len(),
        i + plen <= s@.len(),
        s@.len() <= usize::MAX,
    ensures
        r == (s@.subrange(i as int, i as int + plen as int) == pat@),
{
    let mut k: usize = 0;
    while k < plen
        invariant
            k <= plen,
            plen == pat@.len(),
            i + plen <= s@.len(),
            s@.len() <= usize::MAX,
            forall|j: int| 0 <= j < k ==> s@[i + j] == pat@[j],
        decreases plen - k,
    {
        if s.get_char(i + k) != pat.get_char(k) {
            proof {
                assert(s@.subrange(i as int, i as int + plen as int)[k as int] != pat@[k as int]);
            }
            return false;
        }
        k = k + 1;
    }
    proof {
        assert(s@.subrange(i as int, i as int + plen as int) =~= pat@);
    }
    true
}

/// Replace every occurrence of `pat` in `s` by `to`, scanning left to
/// right without overlap.
pub fn replace_all(s: &str, pat: &str, to: &str) -> (r: String)
    requires
        pat@.len() > 0,
    ensures
        r@ == replaced(s@, pat@, to@),
{
    let len = s.unicode_len();
    let plen = pat.unicode_len();
    let mut out = String::new();
    let mut i: usize = 0;
    proof {
        assert(s@.skip(0) =~= s@);
    }
    while i < len
        invariant
            i <= len,
            len == s@.len(),
            plen == pat@.len(),
            plen > 0,
            out@ + replaced(s@.skip(i as int), pat@, to@) == replaced(s@, pat@, to@),
        decreases len - i,
    {
        let ghost rem = s@.skip(i as int);
        if plen <= len - i && matches_at(s, i, pat, plen) {
            out.append(to);
            proof {
                assert(rem.take(plen as int) =~= s@.subrange(i as int, i as int + plen as int));
                assert(rem.skip(plen as int) =~= s@.skip(i as int + plen as int));
            }
            i = i + plen;
        } else {
            out.append(s.substring_char(i, i + 1));
            proof {
                if i + plen <= len as int {
                    assert(rem.take(plen as int) =~= s@.subrange(
                        i as int,
                        i as int + plen as int,
                    ));
                }
                assert(s@.subrange(i as int, i as int + 1) =~= seq![rem[0]]);
                assert(rem.drop_first() =~= s@.skip(i as int + 1));
            }
            i = i + 1;
        }
    }
    proof {
        assert(s@.skip(len as int) =~= Seq::<char>::empty());
    }
    out
}

} // verus!
