//! The frontmatter splitter and block formatter: one forward pass over a
//! document's lines that fills the metadata mapping while a flag is set,
//! then classifies each body line by its first token into an HTML
//! fragment, tracking the currently open list.

use vstd::prelude::*;
use vstd::string::StrSliceExecFns;
use vstd::string::StringExecFns;

use crate::dict::Dict;
use crate::dict::dict_insert;
use crate::split::join_lines;
use crate::split::joined_lines;
use crate::split::split_on;
use crate::split::split_str;
use crate::text::first_word;
use crate::text::rest_after_word;
use crate::text::sanitize_html;
use crate::text::sanitized;
use crate::text::str_eq_str;
use crate::text::take_first_word;
use crate::text::trim_str;
use crate::text::trimmed;

verus! {

/// Which list wrapper is currently open while body lines are formatted.
#[derive(PartialEq, Eq, Structural, Clone, Copy, Debug)]
pub enum ListKind {
    NoList,
    Unordered,
    Ordered,
}

/// Whether every character of `s` is `#`; a body line whose nonempty
/// first token has this shape is a heading.
pub open spec fn all_hashes(s: Seq<char>) -> bool {
    forall|i: int| 0 <= i < s.len() ==> s[i] == '#'
}

/// Whether every character of `token` is `#`.
pub fn is_header_token(token: &str) -> (r: bool)
    ensures
        r == all_hashes(token@),
{
    let len = token.unicode_len();
    let mut i: usize = 0;
    while i < len
        invariant
            i <= len,
            len == token@.len(),
            forall|j: int| 0 <= j < i ==> token@[j] == '#',
        decreases len - i,
    {
        if token.get_char(i) != '#' {
            return false;
        }
        i = i + 1;
    }
    true
}

/// A decimal digit.
pub open spec fn is_digit(c: char) -> bool {
    48 <= c as u32 <= 57
}

/// An ordinal token: one or more decimal digits followed by a single
/// final dot, as in `3.`.
pub open spec fn is_ordered_tok(s: Seq<char>) -> bool {
    s.len() >= 2 && s.last() == '.' && (forall|i: int| 0 <= i < s.len() - 1 ==> is_digit(s[i]))
}

/// Whether `token` is an ordinal number followed by a literal dot.
pub fn is_ordered_list_token(token: &str) -> (r: bool)
    ensures
        r == is_ordered_tok(token@),
{
    let len = token.unicode_len();
    if len < 2 {
        return false;
    }
    if token.get_char(len - 1) != '.' {
        return false;
    }
    let mut i: usize = 0;
    while i < len - 1
        invariant
            i <= len - 1,
            len == token@.len(),
            forall|j: int| 0 <= j < i ==> is_digit(token@[j]),
        decreases len - i,
    {
        let c = token.get_char(i);
        let v = c as u32;
        if v < 48 || v > 57 {
            return false;
        }
        i = i + 1;
    }
    true
}

/// The character of a decimal digit value.
pub open spec fn digit_char(d: nat) -> char {
    if d == 0 {
        '0'
    } else if d == 1 {
        '1'
    } else if d == 2 {
        '2'
    } else if d == 3 {
        '3'
    } else if d == 4 {
        '4'
    } else if d == 5 {
        '5'
    } else if d == 6 {
        '6'
    } else if d == 7 {
        '7'
    } else if d == 8 {
        '8'
    } else {
        '9'
    }
}

/// The decimal digits of `n`, most significant first.
pub open spec fn dec_digits(n: nat) -> Seq<char>
    decreases n,
{
    if n < 10 {
        seq![digit_char(n)]
    } else {
        dec_digits(n / 10).push(digit_char(n % 10))
    }
}

/// Append the decimal digits of `n` to `out`.
fn push_decimal(n: u128, out: &mut String)
    ensures
        final(out)@ == old(out)@ + dec_digits(n as nat),
    decreases n,
{
    if n >= 10 {
        push_decimal(n / 10, out);
        proof {
            assert(out@ == old(out)@ + dec_digits((n / 10) as nat));
        }
    }
    let d = n % 10;
    if d == 0 {
        out.append("0");
        proof {
            reveal_strlit("0");
        }
    } else if d == 1 {
        out.append("1");
        proof {
            reveal_strlit("1");
        }
    } else if d == 2 {
        out.append("2");
        proof {
            reveal_strlit("2");
        }
    } else if d == 3 {
        out.append("3");
        proof {
            reveal_strlit("3");
        }
    } else if d == 4 {
        out.append("4");
        proof {
            reveal_strlit("4");
        }
    } else if d == 5 {
        out.append("5");
        proof {
            reveal_strlit("5");
        }
    } else if d == 6 {
        out.append("6");
        proof {
            reveal_strlit("6");
        }
    } else if d == 7 {
        out.append("7");
        proof {
            reveal_strlit("7");
        }
    } else if d == 8 {
        out.append("8");
        proof {
            reveal_strlit("8");
        }
    } else {
        out.append("9");
        proof {
            reveal_strlit("9");
        }
    }
    proof {
        assert(out@ =~= old(out)@ + dec_digits(n as nat));
    }
}

/// The state threaded through the line pass: the metadata flag, the open
/// list, and what has been collected so far.
pub struct ParseState {
    pub in_meta: bool,
    pub list: ListKind,
    pub meta: Seq<(Seq<char>, Seq<char>)>,
    pub frags: Seq<Seq<char>>,
}

/// The state before any line: metadata mode, no list open, nothing
/// collected.
pub open spec fn parse_init() -> ParseState {
    ParseState {
        in_meta: true,
        list: ListKind::NoList,
        meta: Seq::empty(),
        frags: Seq::empty(),
    }
}

/// The heading fragment for a given level and sanitized remainder.
pub open spec fn header_fragment(level: nat, rest: Seq<char>) -> Seq<char> {
    ("<h")@ + dec_digits(level) + (">")@ + sanitized(rest) + ("</h")@ + dec_digits(level) + (">")@
}

/// What an unordered list item emits before itself, by the list that was
/// open: a fresh `<ul>`, a switch from `<ol>`, or nothing.
pub open spec fn ul_prefix(list: ListKind) -> Seq<char> {
    match list {
        ListKind::NoList => ("<ul>")@,
        ListKind::Ordered => ("</ol>\n<ul>\n")@,
        ListKind::Unordered => Seq::<char>::empty(),
    }
}

/// What an ordered list item emits before itself, by the list that was
/// open: a fresh `<ol>`, a switch from `<ul>`, or nothing.
pub open spec fn ol_prefix(list: ListKind) -> Seq<char> {
    match list {
        ListKind::NoList => ("<ol>")@,
        ListKind::Ordered => Seq::<char>::empty(),
        ListKind::Unordered => ("</ul>\n<ol>\n")@,
    }
}

/// One metadata-mode line: `@key`, `#` and `##` lines feed the mapping,
/// a `---` line flips to body mode, and anything else is ignored.
pub open spec fn meta_step(st: ParseState, raw: Seq<char>) -> ParseState {
    let l = trimmed(raw);
    let tok = first_word(l);
    let rest = trimmed(rest_after_word(l));
    if tok.len() > 0 && tok[0] == '@' {
        ParseState { meta: dict_insert(st.meta, tok.drop_first(), rest), ..st }
    } else if tok == ("#")@ {
        ParseState { meta: dict_insert(st.meta, ("headline")@, rest), ..st }
    } else if tok == ("##")@ {
        ParseState { meta: dict_insert(st.meta, ("desc")@, rest), ..st }
    } else if tok == ("---")@ {
        ParseState { in_meta: false, ..st }
    } else {
        st
    }
}

/// One body-mode line: classified by its first token into a heading,
/// blockquote, rule, list item or paragraph; empty and `~~~` lines are
/// skipped. No list is ever closed at the end of the document: an open
/// wrapper persists unless a later item of the other kind closes it.
pub open spec fn body_step(st: ParseState, raw: Seq<char>) -> ParseState {
    let l = trimmed(raw);
    let tok = first_word(l);
    let rest = trimmed(rest_after_word(l));
    if l.len() == 0 {
        st
    } else if all_hashes(tok) {
        ParseState { frags: st.frags.push(header_fragment(tok.len() + 1, rest)), ..st }
    } else if tok == (">")@ {
        ParseState {
            frags: st.frags.push(
                ("<blockquote>")@ + sanitized(rest) + ("</blockquote>")@,
            ),
            ..st
        }
    } else if tok == ("---")@ {
        ParseState { frags: st.frags.push(("<hr/>")@), ..st }
    } else if tok == ("-")@ {
        ParseState {
            list: ListKind::Unordered,
            frags: st.frags.push(
                ul_prefix(st.list) + ("<li>")@ + sanitized(rest) + ("</li>")@,
            ),
            ..st
        }
    } else if is_ordered_tok(tok) {
        ParseState {
            list: ListKind::Ordered,
            frags: st.frags.push(
                ol_prefix(st.list) + ("<li>")@ + sanitized(rest) + ("</li>")@,
            ),
            ..st
        }
    } else if tok == ("~~~")@ {
        st
    } else {
        ParseState { frags: st.frags.push(("<p>")@ + sanitized(l) + ("</p>")@), ..st }
    }
}

/// One line of the pass, in whichever mode the state is in.
pub open spec fn parse_step(st: ParseState, raw: Seq<char>) -> ParseState {
    if st.in_meta {
        meta_step(st, raw)
    } else {
        body_step(st, raw)
    }
}

/// The state after a sequence of lines, starting from `parse_init`.
pub open spec fn parse_fold(lines: Seq<Seq<char>>) -> ParseState
    decreases lines.len(),
{
    if lines.len() == 0 {
        parse_init()
    } else {
        parse_step(parse_fold(lines.drop_last()), lines.last())
    }
}

/// The final pass state of a whole document, its lines split on newlines.
pub open spec fn doc_state(text: Seq<char>) -> ParseState {
    parse_fold(split_on(text, '\n'))
}

/// The assembled body of a document: its fragments joined by newlines.
pub open spec fn doc_body(text: Seq<char>) -> Seq<char> {
    joined_lines(doc_state(text).frags)
}

/// The metadata mapping of a document.
pub open spec fn doc_meta(text: Seq<char>) -> Seq<(Seq<char>, Seq<char>)> {
    doc_state(text).meta
}

/// Split a document into its metadata mapping and its assembled body:
/// one forward pass over the lines, collecting `@key`, `#` and `##`
/// entries until a `---` line, then formatting each body line as an HTML
/// fragment and joining the fragments with newlines.
pub fn parse_news(file: &str) -> (r: (String, Dict))
    ensures
        r.0@ == doc_body(file@),
        r.1@ == doc_meta(file@),
{
    let lines = split_str(file, '\n');
    let ghost ldeep = lines.deep_view();
    let mut meta = Dict::new();
    let mut frags: Vec<String> = Vec::new();
    let mut in_meta: bool = true;
    let mut cur_list = ListKind::NoList;
    let mut i: usize = 0;
    proof {
        assert(ldeep.take(0) =~= Seq::<Seq<char>>::empty());
        assert(frags.deep_view() =~~= Seq::<Seq<char>>::empty());
        assert(parse_fold(ldeep.take(0)) == (ParseState {
            in_meta: true,
            list: ListKind::NoList,
            meta: meta@,
            frags: frags.deep_view(),
        }));
    }
    while i < lines.len()
        invariant
            i <= lines.len(),
            lines.deep_view() == ldeep,
            ldeep == split_on(file@, '\n'),
            parse_fold(ldeep.take(i as int)) == (ParseState {
                in_meta,
                list: cur_list,
                meta: meta@,
                frags: frags.deep_view(),
            }),
        decreases lines.len() - i,
    {
        let ghost st0 = parse_fold(ldeep.take(i as int));
        let ghost raw = ldeep[i as int];
        proof {
            assert(lines.deep_view()[i as int] == lines@[i as int]@);
        }
        let line = trim_str(lines[i].as_str());
        let (token, rest0) = take_first_word(line);
        let rest = trim_str(rest0);
        let tlen = token.unicode_len();
        proof {
            assert(line@ == trimmed(raw));
            assert(token@ == first_word(trimmed(raw)));
            assert(rest@ == trimmed(rest_after_word(trimmed(raw))));
        }
        if in_meta {
            if tlen > 0 && token.get_char(0) == '@' {
                let key = token.substring_char(1, tlen).to_owned();
                proof {
                    assert(key@ =~= token@.drop_first());
                }
                meta.insert(key, rest.to_owned());
            } else if str_eq_str(token, "#") {
                meta.insert(String::from_str("headline"), rest.to_owned());
            } else if str_eq_str(token, "##") {
                meta.insert(String::from_str("desc"), rest.to_owned());
            } else if str_eq_str(token, "---") {
                in_meta = false;
            }
        } else {
            let llen = line.unicode_len();
            if llen == 0 {
                // skipped: no fragment, state unchanged
            } else if is_header_token(token) {
                let mut frag = String::from_str("<h");
                let d: u128 = (tlen as u128) + 1;
                push_decimal(d, &mut frag);
                frag.append(">");
                let san = sanitize_html(rest);
                frag.append(san.as_str());
                frag.append("</h");
                push_decimal(d, &mut frag);
                frag.append(">");
                proof {
                    assert(frag@ =~= header_fragment((token@.len() + 1) as nat, rest@));
                }
                let ghost prevf = frags.deep_view();
                frags.push(frag);
                proof {
                    assert(frags.deep_view() =~~= prevf.push(header_fragment(
                        (token@.len() + 1) as nat,
                        rest@,
                    )));
                }
            } else if str_eq_str(token, ">") {
                let mut frag = String::from_str("<blockquote>");
                let san = sanitize_html(rest);
                frag.append(san.as_str());
                frag.append("</blockquote>");
                let ghost prevf = frags.deep_view();
                frags.push(frag);
                proof {
                    assert(frags.deep_view() =~~= prevf.push(
                        ("<blockquote>")@ + sanitized(rest@) + ("</blockquote>")@,
                    ));
                }
            } else if str_eq_str(token, "---") {
                let ghost prevf = frags.deep_view();
                frags.push(String::from_str("<hr/>"));
                proof {
                    assert(frags.deep_view() =~~= prevf.push(("<hr/>")@));
                }
            } else if str_eq_str(token, "-") {
                let mut frag = match cur_list {
                    ListKind::NoList => String::from_str("<ul>"),
                    ListKind::Ordered => String::from_str("</ol>\n<ul>\n"),
                    ListKind::Unordered => String::new(),
                };
                proof {
                    assert(frag@ == ul_prefix(cur_list));
                }
                frag.append("<li>");
                let san = sanitize_html(rest);
                frag.append(san.as_str());
                frag.append("</li>");
                cur_list = ListKind::Unordered;
                let ghost prevf = frags.deep_view();
                frags.push(frag);
                proof {
                    assert(frags.deep_view() =~~= prevf.push(
                        ul_prefix(st0.list) + ("<li>")@ + sanitized(rest@) + ("</li>")@,
                    ));
                }
            } else if is_ordered_list_token(token) {
                let mut frag = match cur_list {
                    ListKind::NoList => String::from_str("<ol>"),
                    ListKind::Ordered => String::new(),
                    ListKind::Unordered => String::from_str("</ul>\n<ol>\n"),
                };
                proof {
                    assert(frag@ == ol_prefix(cur_list));
                }
                frag.append("<li>");
                let san = sanitize_html(rest);
                frag.append(san.as_str());
                frag.append("</li>");
                cur_list = ListKind::Ordered;
                let ghost prevf = frags.deep_view();
                frags.push(frag);
                proof {
                    assert(frags.deep_view() =~~= prevf.push(
                        ol_prefix(st0.list) + ("<li>")@ + sanitized(rest@) + ("</li>")@,
                    ));
                }
            } else if str_eq_str(token, "~~~") {
                // skipped: reserved as a comment marker
            } else {
                let mut frag = String::from_str("<p>");
                let san = sanitize_html(line);
                frag.append(san.as_str());
                frag.append("</p>");
                let ghost prevf = frags.deep_view();
                frags.push(frag);
                proof {
                    assert(frags.deep_view() =~~= prevf.push(
                        ("<p>")@ + sanitized(line@) + ("</p>")@,
                    ));
                }
            }
        }
        proof {
            assert(ldeep.take(i as int + 1).drop_last() =~= ldeep.take(i as int));
            assert(ldeep.take(i as int + 1).last() == raw);
            assert(parse_fold(ldeep.take(i as int + 1)) == parse_step(st0, raw));
            assert(parse_step(st0, raw) == (ParseState {
                in_meta,
                list: cur_list,
                meta: meta@,
                frags: frags.deep_view(),
            }));
        }
        i = i + 1;
    }
    proof {
        assert(ldeep.take(lines@.len() as int) =~= ldeep);
    }
    let body = join_lines(&frags);
    (body, meta)
}

} // verus!
