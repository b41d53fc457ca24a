//! The link substitutor: a left-to-right pass turning bracketed
//! `[text|href]` spans into anchor tags, resolving `@`-prefixed hrefs
//! against the base URL.

use vstd::prelude::*;
use vstd::string::StrSliceExecFns;
use vstd::string::StringExecFns;

use crate::text::trim_str;
use crate::text::trimmed;

verus! {

/// `link` with a leading `@` replaced by the base URL, and any other
/// value left unchanged.
pub open spec fn resolved_href(link: Seq<char>, url: Seq<char>) -> Seq<char> {
    if link.len() > 0 && link[0] == '@' {
        url + link.drop_first()
    } else {
        link
    }
}

/// Resolve a leading `@` in `link` against the base `url`; any other
/// link passes through unchanged.
pub fn replace_with_url(link: &str, url: &str) -> (r: String)
    ensures
        r@ == resolved_href(link@, url@),
{
    let len = link.unicode_len();
    if len > 0 && link.get_char(0) == '@' {
        let mut out = String::from_str(url);
        out.append(link.substring_char(1, len));
        proof {
            assert(link@.subrange(1, len as int) =~= link@.drop_first());
        }
        out
    } else {
        link.to_owned()
    }
}

/// The position of the last occurrence of `c` in `s`, or `-1` if there
/// is none.
pub open spec fn last_index_of(s: Seq<char>, c: char) -> int
    decreases s.len(),
{
    if s.len() == 0 {
        -1
    } else if s.last() == c {
        s.len() - 1
    } else {
        last_index_of(s.drop_last(), c)
    }
}

/// The anchor tag that a bracketed span with content `buf` becomes. The
/// href is the last pipe-delimited segment, trimmed and resolved against
/// `url`; the display text is everything before the last pipe, trimmed,
/// defaulting to the resolved href when empty.
pub open spec fn link_html(buf: Seq<char>, url: Seq<char>) -> Seq<char> {
    let j = last_index_of(buf, '|');
    let href_raw = if j >= 0 {
        buf.skip(j + 1)
    } else {
        buf
    };
    let desc_raw = if j >= 0 {
        buf.take(j)
    } else {
        Seq::<char>::empty()
    };
    let href = resolved_href(trimmed(href_raw), url);
    let desc = trimmed(desc_raw);
    let text = if desc.len() == 0 {
        href
    } else {
        desc
    };
    ("<a href=")@ + href + (">")@ + text + ("</a>")@
}

/// If `j` names an occurrence of `c` with none after it, or `-1` with no
/// occurrence at all, then `j` is `last_index_of`.
pub proof fn lemma_last_index_of_is(s: Seq<char>, c: char, j: int)
    requires
        -1 <= j < s.len(),
        j >= 0 ==> s[j] == c,
        forall|k: int| j < k < s.len() ==> s[k] != c,
    ensures
        last_index_of(s, c) == j,
    decreases s.len(),
{
    if s.len() > 0 && s.last() != c {
        lemma_last_index_of_is(s.drop_last(), c, j);
    }
}

/// Render the content of one bracketed span as an anchor tag. The pass
/// always produces a tag; the `Option` mirrors the accumulating scanner,
/// which drops a span only when the closing bracket never comes.
pub fn convert_link_to_html(link: &str, url: &str) -> (r: Option<String>)
    ensures
        r is Some,
        match r {
            Some(s) => s@ == link_html(link@, url@),
            None => false,
        },
{
    let len = link.unicode_len();
    let mut j: usize = len;
    while j > 0 && link.get_char(j - 1) != '|'
        invariant
            j <= len,
            len == link@.len(),
            forall|k: int| j <= k < len ==> link@[k] != '|',
        decreases j,
    {
        j = j - 1;
    }
    let mut out = String::from_str("<a href=");
    if j == 0 {
        proof {
            lemma_last_index_of_is(link@, '|', -1);
        }
        let href = replace_with_url(trim_str(link), url);
        out.append(href.as_str());
        out.append(">");
        out.append(href.as_str());
        out.append("</a>");
        proof {
            assert(trimmed(Seq::<char>::empty()) == Seq::<char>::empty());
        }
        Some(out)
    } else {
        proof {
            lemma_last_index_of_is(link@, '|', j - 1);
        }
        let href = replace_with_url(trim_str(link.substring_char(j, len)), url);
        let desc = trim_str(link.substring_char(0, j - 1));
        proof {
            assert(link@.subrange(j as int, len as int) =~= link@.skip(j as int));
            assert(link@.subrange(0, j as int - 1) =~= link@.take(j as int - 1));
        }
        out.append(href.as_str());
        out.append(">");
        if desc.unicode_len() == 0 {
            out.append(href.as_str());
        } else {
            out.append(desc);
        }
        out.append("</a>");
        Some(out)
    }
}

/// The scanner state after reading `s`: the content of a bracketed span
/// still being accumulated, or `None` outside any span.
pub open spec fn link_state_after(s: Seq<char>) -> Option<Seq<char>>
    decreases s.len(),
{
    if s.len() == 0 {
        None
    } else {
        let st = link_state_after(s.drop_last());
        let c = s.last();
        match st {
            None => if c == '[' {
                Some(Seq::<char>::empty())
            } else {
                None
            },
            Some(b) => if c == ']' {
                None
            } else {
                Some(b.push(c))
            },
        }
    }
}

/// The output of the link pass over `s`: characters outside spans pass
/// through, a closed span becomes its anchor tag, and a span the input
/// ends inside is dropped without a trace.
pub open spec fn links_out(s: Seq<char>, url: Seq<char>) -> Seq<char>
    decreases s.len(),
{
    if s.len() == 0 {
        Seq::empty()
    } else {
        let st = link_state_after(s.drop_last());
        let c = s.last();
        links_out(s.drop_last(), url) + match st {
            None => if c == '[' {
                Seq::<char>::empty()
            } else {
                seq![c]
            },
            Some(b) => if c == ']' {
                link_html(b, url)
            } else {
                Seq::<char>::empty()
            },
        }
    }
}

/// Substitute every closed `[text|href]` span in `body` by an anchor
/// tag, resolving `@`-prefixed hrefs against `url`. A span left open at
/// the end of the input is discarded entirely.
pub fn format_links(body: &str, url: &str) -> (r: String)
    ensures
        r@ == links_out(body@, url@),
{
    let len = body.unicode_len();
    let mut out = String::new();
    let mut cur: Option<String> = None;
    let mut i: usize = 0;
    while i < len
        invariant
            i <= len,
            len == body@.len(),
            out@ == links_out(body@.take(i as int), url@),
            match cur {
                Some(b) => link_state_after(body@.take(i as int)) == Some(b@),
                None => link_state_after(body@.take(i as int)) is None,
            },
        decreases len - i,
    {
        let c = body.get_char(i);
        let ghost pre = body@.take(i as int);
        cur =
        match cur {
            Some(mut b) => {
                if c == ']' {
                    let html = convert_link_to_html(b.as_str(), url);
                    match html {
                        Some(h) => out.append(h.as_str()),
                        None => (),
                    }
                    None
                } else {
                    b.append(body.substring_char(i, i + 1));
                    proof {
                        assert(body@.subrange(i as int, i as int + 1) =~= seq![
                            body@[i as int],
                        ]);
                    }
                    Some(b)
                }
            },
            None => {
                if c == '[' {
                    Some(String::new())
                } else {
                    out.append(body.substring_char(i, i + 1));
                    proof {
                        assert(body@.subrange(i as int, i as int + 1) =~= seq![
                            body@[i as int],
                        ]);
                    }
                    None
                }
            },
        };
        proof {
            assert(body@.take(i as int + 1).drop_last() =~= pre);
            assert(body@.take(i as int + 1).last() == body@[i as int]);
        }
        i = i + 1;
    }
    proof {
        assert(body@.take(len as int) =~= body@);
    }
    out
}

} // verus!
