//! The grammar of GON as functions on the remaining input.
//!
//! Each function takes the unread rest of the input and, on success, returns
//! what it read together with the input that is left after it.
use vstd::prelude::*;
use crate::gon::{has_key, GonErrorModel, GonModel};

verus! {

/// Space, tab, newline and carriage return separate tokens.
pub open spec fn is_blank_char(c: char) -> bool {
    c == ' ' || c == '\t' || c == '\n' || c == '\r'
}

/// The characters that end a bare token.
pub open spec fn is_structural(c: char) -> bool {
    c == '{' || c == '}' || c == '[' || c == ']' || c == ':' || c == ','
}

/// Skips whitespace and `#` comments; `in_comment` says that a comment is
/// open, which the next newline closes.
pub open spec fn skip_blank_from(s: Seq<char>, in_comment: bool) -> Seq<char>
    decreases s.len(),
{
    if s.len() == 0 {
        s
    } else if in_comment {
        skip_blank_from(s.drop_first(), s[0] != '\n')
    } else if is_blank_char(s[0]) {
        skip_blank_from(s.drop_first(), false)
    } else if s[0] == '#' {
        skip_blank_from(s.drop_first(), true)
    } else {
        s
    }
}

/// The input after all leading whitespace and comments.
pub open spec fn skip_blank(s: Seq<char>) -> Seq<char> {
    skip_blank_from(s, false)
}

/// Skips whitespace and comments, one optional separator `t`, and whitespace
/// and comments again.
pub open spec fn skip_token(s: Seq<char>, t: char) -> Seq<char> {
    let a = skip_blank(s);
    if a.len() > 0 && a[0] == t {
        skip_blank(a.drop_first())
    } else {
        a
    }
}

/// What the character after a backslash stands for.
pub open spec fn escape_char(c: char) -> Result<char, GonErrorModel> {
    if c == '"' {
        Ok('"')
    } else if c == '\\' {
        Ok('\\')
    } else if c == '/' {
        Ok('/')
    } else if c == 'b' {
        Ok('\x08')
    } else if c == 'f' {
        Ok('\x0C')
    } else if c == 'n' {
        Ok('\n')
    } else if c == 'r' {
        Ok('\r')
    } else if c == 't' {
        Ok('\t')
    } else if c == 'u' {
        Err(GonErrorModel::HexEscapesNotSupported)
    } else {
        Err(GonErrorModel::UnexpectedEscapeCharacter(c))
    }
}

/// Reads the escape sequence whose backslash was just read.
pub open spec fn read_escape(s: Seq<char>) -> Result<(char, Seq<char>), GonErrorModel> {
    if s.len() == 0 {
        Err(GonErrorModel::EscapeCharacterExpected)
    } else {
        match escape_char(s[0]) {
            Ok(c) => Ok((c, s.drop_first())),
            Err(e) => Err(e),
        }
    }
}

/// Reads the inside of a quoted string up to and including the closing quote;
/// `acc` holds what was decoded so far.
pub open spec fn quoted_rest(s: Seq<char>, acc: Seq<char>) -> Result<
    (Seq<char>, Seq<char>),
    GonErrorModel,
>
    decreases s.len(),
{
    if s.len() == 0 {
        Err(GonErrorModel::QuoteExpected)
    } else if s[0] == '\\' {
        match read_escape(s.drop_first()) {
            Ok((c, r)) => quoted_rest(r, acc.push(c)),
            Err(e) => Err(e),
        }
    } else if s[0] == '"' {
        Ok((acc, s.drop_first()))
    } else {
        quoted_rest(s.drop_first(), acc.push(s[0]))
    }
}

/// Reads a bare token up to whitespace, a structural character or the end;
/// `acc` holds what was decoded so far.
pub open spec fn bare_rest(s: Seq<char>, acc: Seq<char>) -> Result<
    (Seq<char>, Seq<char>),
    GonErrorModel,
>
    decreases s.len(),
{
    if s.len() == 0 {
        Ok((acc, s))
    } else if s[0] == '\\' {
        match read_escape(s.drop_first()) {
            Ok((c, r)) => bare_rest(r, acc.push(c)),
            Err(e) => Err(e),
        }
    } else if is_structural(s[0]) || is_blank_char(s[0]) {
        Ok((acc, s))
    } else {
        bare_rest(s.drop_first(), acc.push(s[0]))
    }
}

/// Reads a quoted string or a bare token.
pub open spec fn read_string(s: Seq<char>) -> Result<(Seq<char>, Seq<char>), GonErrorModel> {
    if s.len() == 0 {
        Err(GonErrorModel::StringExpected)
    } else if s[0] == '"' {
        quoted_rest(s.drop_first(), Seq::empty())
    } else {
        bare_rest(s, Seq::empty())
    }
}

/// Reads one value: an object, an array, or a string.
pub open spec fn read_value(s: Seq<char>) -> Result<(GonModel, Seq<char>), GonErrorModel>
    decreases s.len(), 0nat,
    via read_value_decreases
{
    if s.len() == 0 {
        Err(GonErrorModel::ValueExpected)
    } else if s[0] == '{' {
        match read_entries(skip_blank(s.drop_first()), Seq::empty()) {
            Ok((entries, r)) => if r.len() > 0 && r[0] == '}' {
                Ok((GonModel::Object(entries), r.drop_first()))
            } else {
                Err(GonErrorModel::ClosingBraceExpected)
            },
            Err(e) => Err(e),
        }
    } else if s[0] == '[' {
        match read_items(skip_blank(s.drop_first()), Seq::empty()) {
            Ok((items, r)) => Ok((GonModel::Array(items), r)),
            Err(e) => Err(e),
        }
    } else {
        match read_string(s) {
            Ok((t, r)) => Ok((GonModel::Value(t), r)),
            Err(e) => Err(e),
        }
    }
}

/// Reads the elements of an array and its closing bracket; `acc` holds the
/// elements read so far. An element that would consume no input (one that
/// starts with `}` or `:`) is refused, since reading it again would never end.
pub open spec fn read_items(s: Seq<char>, acc: Seq<GonModel>) -> Result<
    (Seq<GonModel>, Seq<char>),
    GonErrorModel,
>
    decreases s.len(), 1nat,
{
    if s.len() == 0 {
        Err(GonErrorModel::ClosingBracketExpected)
    } else if s[0] == ']' {
        Ok((acc, s.drop_first()))
    } else {
        match read_value(s) {
            Ok((v, r)) => {
                let next = skip_token(r, ',');
                if next.len() >= s.len() {
                    Err(GonErrorModel::UnexpectedCharacter(s[0]))
                } else {
                    read_items(next, acc.push(v))
                }
            },
            Err(e) => Err(e),
        }
    }
}

/// Reads key/value entries up to a `}` or the end of the input, which is
/// left unread; `acc` holds the entries read so far. An entry that consumes
/// no input would be read again with the same key, so it is reported as that
/// duplicate key.
pub open spec fn read_entries(s: Seq<char>, acc: Seq<(Seq<char>, GonModel)>) -> Result<
    (Seq<(Seq<char>, GonModel)>, Seq<char>),
    GonErrorModel,
>
    decreases s.len(), 1nat,
    via read_entries_decreases
{
    if s.len() == 0 || s[0] == '}' {
        Ok((acc, s))
    } else {
        match read_string(s) {
            Ok((k, r1)) => match read_value(skip_token(r1, ':')) {
                Ok((v, r2)) => {
                    let next = skip_token(r2, ',');
                    if has_key(acc, k) || next.len() >= s.len() {
                        Err(GonErrorModel::DuplicateKey(k))
                    } else {
                        read_entries(next, acc.push((k, v)))
                    }
                },
                Err(e) => Err(e),
            },
            Err(e) => Err(e),
        }
    }
}

/// Parses a whole document: an explicit `{ }` object or an array, else an
/// object without braces, else (when that finds no value for a key) a single
/// value; then only whitespace and comments may follow.
pub open spec fn parse_document(text: Seq<char>) -> Result<GonModel, GonErrorModel> {
    let s = skip_blank(text);
    let first = if s.len() > 0 && (s[0] == '{' || s[0] == '[') {
        read_value(s)
    } else {
        match read_entries(s, Seq::empty()) {
            Ok((entries, r)) => Ok((GonModel::Object(entries), r)),
            Err(GonErrorModel::ValueExpected) => match read_value(s) {
                Ok(x) => Ok(x),
                Err(_) => Err(GonErrorModel::InvalidGon),
            },
            Err(e) => Err(e),
        }
    };
    match first {
        Ok((g, r)) => if skip_blank(r).len() == 0 {
            Ok(g)
        } else {
            Err(GonErrorModel::EndOfFileExpected)
        },
        Err(e) => Err(e),
    }
}

pub proof fn lemma_skip_blank_from_len(s: Seq<char>, in_comment: bool)
    ensures
        skip_blank_from(s, in_comment).len() <= s.len(),
    decreases s.len(),
{
    if s.len() > 0 {
        lemma_skip_blank_from_len(s.drop_first(), s[0] != '\n');
        lemma_skip_blank_from_len(s.drop_first(), false);
        lemma_skip_blank_from_len(s.drop_first(), true);
    }
}

pub proof fn lemma_skip_token_len(s: Seq<char>, t: char)
    ensures
        skip_token(s, t).len() <= s.len(),
{
    lemma_skip_blank_from_len(s, false);
    let a = skip_blank(s);
    if a.len() > 0 {
        lemma_skip_blank_from_len(a.drop_first(), false);
    }
}

pub proof fn lemma_quoted_rest_len(s: Seq<char>, acc: Seq<char>)
    ensures
        quoted_rest(s, acc) matches Ok((_, r)) ==> r.len() < s.len(),
    decreases s.len(),
{
    if s.len() > 0 {
        if s[0] == '\\' {
            if let Ok((c, r)) = read_escape(s.drop_first()) {
                lemma_quoted_rest_len(r, acc.push(c));
            }
        } else if s[0] != '"' {
            lemma_quoted_rest_len(s.drop_first(), acc.push(s[0]));
        }
    }
}

pub proof fn lemma_bare_rest_len(s: Seq<char>, acc: Seq<char>)
    ensures
        bare_rest(s, acc) matches Ok((_, r)) ==> r.len() <= s.len(),
    decreases s.len(),
{
    if s.len() > 0 {
        if s[0] == '\\' {
            if let Ok((c, r)) = read_escape(s.drop_first()) {
                lemma_bare_rest_len(r, acc.push(c));
            }
        } else if !(is_structural(s[0]) || is_blank_char(s[0])) {
            lemma_bare_rest_len(s.drop_first(), acc.push(s[0]));
        }
    }
}

pub proof fn lemma_read_string_len(s: Seq<char>)
    ensures
        read_string(s) matches Ok((_, r)) ==> r.len() <= s.len(),
{
    if s.len() > 0 {
        lemma_quoted_rest_len(s.drop_first(), Seq::empty());
        lemma_bare_rest_len(s, Seq::empty());
    }
}

#[via_fn]
proof fn read_value_decreases(s: Seq<char>) {
    if s.len() > 0 {
        lemma_skip_blank_from_len(s.drop_first(), false);
    }
}

#[via_fn]
proof fn read_entries_decreases(s: Seq<char>, acc: Seq<(Seq<char>, GonModel)>) {
    lemma_read_string_len(s);
    if let Ok((k, r1)) = read_string(s) {
        lemma_skip_token_len(r1, ':');
    }
}

/// `w` is made of whitespace and complete `#` comments; `in_comment` says
/// that a comment is open at its start.
pub open spec fn blank_run(w: Seq<char>, in_comment: bool) -> bool
    decreases w.len(),
{
    if w.len() == 0 {
        !in_comment
    } else if in_comment {
        blank_run(w.drop_first(), w[0] != '\n')
    } else if is_blank_char(w[0]) {
        blank_run(w.drop_first(), false)
    } else {
        w[0] == '#' && blank_run(w.drop_first(), true)
    }
}

/// `w` holds only whitespace and comments that end with a newline.
pub open spec fn is_blank_text(w: Seq<char>) -> bool {
    blank_run(w, false)
}

proof fn lemma_skip_blank_run(w: Seq<char>, in_comment: bool, s: Seq<char>)
    requires
        blank_run(w, in_comment),
    ensures
        skip_blank_from(w + s, in_comment) == skip_blank_from(s, false),
    decreases w.len(),
{
    if w.len() == 0 {
        assert(w + s =~= s);
    } else {
        assert((w + s)[0] == w[0]);
        assert((w + s).drop_first() =~= w.drop_first() + s);
        if in_comment {
            lemma_skip_blank_run(w.drop_first(), w[0] != '\n', s);
        } else if is_blank_char(w[0]) {
            lemma_skip_blank_run(w.drop_first(), false, s);
        } else {
            lemma_skip_blank_run(w.drop_first(), true, s);
        }
    }
}

/// Whitespace and comments put in front of text change nothing: not what
/// the skipper leaves, not what a separator skip leaves, and not how a
/// document parses.
pub proof fn lemma_blank_prefix_invisible(w: Seq<char>, s: Seq<char>, t: char)
    requires
        is_blank_text(w),
    ensures
        skip_blank(w + s) == skip_blank(s),
        skip_token(w + s, t) == skip_token(s, t),
        parse_document(w + s) == parse_document(s),
{
    lemma_skip_blank_run(w, false, s);
}

/// Whitespace and comments right after an opening brace or bracket change
/// nothing in how the value reads.
pub proof fn lemma_blank_after_open(open: char, w: Seq<char>, s: Seq<char>)
    requires
        open == '{' || open == '[',
        is_blank_text(w),
    ensures
        read_value(seq![open] + w + s) == read_value(seq![open] + s),
{
    lemma_skip_blank_run(w, false, s);
    assert((seq![open] + w + s).drop_first() =~= w + s);
    assert((seq![open] + s).drop_first() =~= s);
}

} // verus!
