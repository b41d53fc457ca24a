//! The inline style toggler: one left-to-right pass that turns single
//! character markers into paired HTML tags, with backslash escapes.

use vstd::prelude::*;
use vstd::string::StrSliceExecFns;
use vstd::string::StringExecFns;

verus! {

/// The toggle flags of the inline pass: one per marker, each meaning
/// "this style is currently open", plus the escape flag.
pub struct StyleState {
    pub escaped: bool,
    pub italic: bool,
    pub bold: bool,
    pub underline: bool,
    pub strike: bool,
    pub code: bool,
    pub purple: bool,
}

/// The state at the start of a document: nothing open, not escaped.
pub open spec fn style_init() -> StyleState {
    StyleState {
        escaped: false,
        italic: false,
        bold: false,
        underline: false,
        strike: false,
        code: false,
        purple: false,
    }
}

/// The state after reading `c` in state `st`.
pub open spec fn style_step(st: StyleState, c: char) -> StyleState {
    if st.escaped {
        StyleState { escaped: false, ..st }
    } else if c == '\\' {
        StyleState { escaped: true, ..st }
    } else if c == '*' {
        StyleState { italic: !st.italic, ..st }
    } else if c == '^' {
        StyleState { bold: !st.bold, ..st }
    } else if c == '_' {
        StyleState { underline: !st.underline, ..st }
    } else if c == '~' {
        StyleState { strike: !st.strike, ..st }
    } else if c == '`' {
        StyleState { code: !st.code, ..st }
    } else if c == '%' {
        StyleState { purple: !st.purple, ..st }
    } else {
        st
    }
}

/// What reading `c` in state `st` emits: the character itself when escaped
/// or ordinary, nothing for the escape character, and an opening or
/// closing tag for a marker, by the marker's flag.
pub open spec fn style_emit(st: StyleState, c: char) -> Seq<char> {
    if st.escaped {
        seq![c]
    } else if c == '\\' {
        Seq::empty()
    } else if c == '*' {
        if st.italic {
            ("</i>")@
        } else {
            ("<i>")@
        }
    } else if c == '^' {
        if st.bold {
            ("</b>")@
        } else {
            ("<b>")@
        }
    } else if c == '_' {
        if st.underline {
            ("</u>")@
        } else {
            ("<u>")@
        }
    } else if c == '~' {
        if st.strike {
            ("</strike>")@
        } else {
            ("<strike>")@
        }
    } else if c == '`' {
        if st.code {
            ("</code>")@
        } else {
            ("<code>")@
        }
    } else if c == '%' {
        if st.purple {
            ("</span>")@
        } else {
            ("<span class=\"purple\">")@
        }
    } else {
        seq![c]
    }
}

/// The style state after the whole of `s` has been read.
pub open spec fn style_state_after(s: Seq<char>) -> StyleState
    decreases s.len(),
{
    if s.len() == 0 {
        style_init()
    } else {
        style_step(style_state_after(s.drop_last()), s.last())
    }
}

/// The output of the inline pass over `s`: what each character emits in
/// the state its predecessors left behind. An unmatched marker leaves its
/// opening tag dangling; nothing is auto-closed.
pub open spec fn styled(s: Seq<char>) -> Seq<char>
    decreases s.len(),
{
    if s.len() == 0 {
        Seq::empty()
    } else {
        styled(s.drop_last()) + style_emit(style_state_after(s.drop_last()), s.last())
    }
}

/// Convert the inline style markers of `body` into HTML tags, toggling
/// each marker's tag open and closed from left to right. A backslash
/// escapes the following character; an unmatched marker is left as a
/// dangling open tag.
pub fn format_primative_styles(body: &str) -> (r: String)
    ensures
        r@ == styled(body@),
{
    let len = body.unicode_len();
    let mut out = String::new();
    let mut st = StyleState {
        escaped: false,
        italic: false,
        bold: false,
        underline: false,
        strike: false,
        code: false,
        purple: false,
    };
    let mut i: usize = 0;
    while i < len
        invariant
            i <= len,
            len == body@.len(),
            st == style_state_after(body@.take(i as int)),
            out@ == styled(body@.take(i as int)),
        decreases len - i,
    {
        let c = body.get_char(i);
        let ghost pre = body@.take(i as int);
        if st.escaped {
            out.append(body.substring_char(i, i + 1));
            st.escaped = false;
            proof {
                assert(body@.subrange(i as int, i as int + 1) =~= seq![body@[i as int]]);
            }
        } else if c == '\\' {
            st.escaped = true;
        } else if c == '*' {
            out.append(if st.italic {
                "</i>"
            } else {
                "<i>"
            });
            st.italic = !st.italic;
        } else if c == '^' {
            out.append(if st.bold {
                "</b>"
            } else {
                "<b>"
            });
            st.bold = !st.bold;
        } else if c == '_' {
            out.append(if st.underline {
                "</u>"
            } else {
                "<u>"
            });
            st.underline = !st.underline;
        } else if c == '~' {
            out.append(if st.strike {
                "</strike>"
            } else {
                "<strike>"
            });
            st.strike = !st.strike;
        } else if c == '`' {
            out.append(if st.code {
                "</code>"
            } else {
                "<code>"
            });
            st.code = !st.code;
        } else if c == '%' {
            out.append(if st.purple {
                "</span>"
            } else {
                "<span class=\"purple\">"
            });
            st.purple = !st.purple;
        } else {
            out.append(body.substring_char(i, i + 1));
            proof {
                assert(body@.subrange(i as int, i as int + 1) =~= seq![body@[i as int]]);
            }
        }
        proof {
            assert(body@.take(i as int + 1).drop_last() =~= pre);
            assert(body@.take(i as int + 1).last() == body@[i as int]);
        }
        i = i + 1;
    }
    proof {
        assert(body@.take(len as int) =~= body@);
    }
    out
}

} // verus!
