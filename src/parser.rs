//! The parser: a cursor over the characters of the input and the recursive
//! descent that follows the grammar.
use vstd::prelude::*;
use vstd::std_specs::iter::IteratorSpec;
use crate::gon::{
    entries_model, has_key, keys_unique, items_model, lemma_entries_model, Gon, GonError,
    GonErrorModel, GonModel,
};
use crate::grammar::{
    is_blank_char, is_structural, parse_document, quoted_rest, bare_rest, read_entries, read_escape,
    read_items, read_string, read_value, skip_blank, skip_blank_from, skip_token,
    lemma_read_string_len, lemma_skip_blank_from_len, lemma_skip_token_len,
};

verus! {

broadcast use vstd::string::axiom_spec_iter, vstd::string::next_postcondition;

/// Relies on `String::push`: the character is appended at the end.
#[verifier::external_body]
fn push_char(s: &mut String, c: char)
    ensures
        final(s)@ == old(s)@.push(c),
{
    s.push(c)
}

/// `r` is what the grammar gives in `m`: on success the value read, with
/// `after` the input left over; else the same error.
pub open spec fn outcome<T: View>(
    r: Result<T, GonError>,
    after: Seq<char>,
    m: Result<(T::V, Seq<char>), GonErrorModel>,
) -> bool {
    match m {
        Ok((v, left)) => r is Ok && r->Ok_0@ == v && after == left,
        Err(e) => r is Err && r->Err_0@ == e,
    }
}

/// A cursor over the characters of a text.
pub struct StrParser {
    chars: Vec<char>,
    pos: usize,
}

impl StrParser {
    /// The characters that have not been read yet.
    pub closed spec fn rest(&self) -> Seq<char> {
        self.chars@.subrange(self.pos as int, self.chars@.len() as int)
    }

    /// The text the cursor runs over.
    pub closed spec fn text(&self) -> Seq<char> {
        self.chars@
    }

    pub closed spec fn wf(&self) -> bool {
        self.pos <= self.chars@.len()
    }

    pub fn new(s: &str) -> (p: Self)
        ensures
            p.wf(),
            p.rest() == s@,
            p.text() == s@,
    {
        let mut chars: Vec<char> = Vec::new();
        let mut it = s.chars();
        loop
            invariant
                chars@ + it.remaining() == s@,
            ensures
                chars@ == s@,
            decreases s@.len() - chars@.len(),
        {
            match it.next() {
                Some(c) => chars.push(c),
                None => {
                    assert(it.remaining().len() == 0);
                    assert(chars@ + it.remaining() =~= chars@);
                    break;
                },
            }
        }
        proof {
            assert(chars@.subrange(0, chars@.len() as int) =~= chars@);
        }
        StrParser { chars, pos: 0 }
    }
}

/// Whitespace separates tokens.
pub fn is_whitespace(c: char) -> (r: bool)
    ensures
        r == is_blank_char(c),
{
    c == ' ' || c == '\t' || c == '\n' || c == '\r'
}

/// Structural characters end a bare token.
pub fn is_token(c: char) -> (r: bool)
    ensures
        r == is_structural(c),
{
    c == '{' || c == '}' || c == '[' || c == ']' || c == ':' || c == ','
}

impl StrParser {
    /// The next character, without reading it.
    pub fn peek(&self) -> (r: Option<char>)
        requires
            self.wf(),
        ensures
            r == (if self.rest().len() > 0 {
                Some(self.rest()[0])
            } else {
                None::<char>
            }),
    {
        if self.pos < self.chars.len() {
            Some(self.chars[self.pos])
        } else {
            None
        }
    }

    /// Reads the next character.
    pub fn next(&mut self) -> (r: Option<char>)
        requires
            old(self).wf(),
        ensures
            final(self).wf(),
            final(self).text() == old(self).text(),
            old(self).rest().len() > 0 ==> r == Some(old(self).rest()[0]) && final(self).rest()
                == old(self).rest().drop_first(),
            old(self).rest().len() == 0 ==> r is None && final(self).rest() == old(self).rest(),
    {
        if self.pos < self.chars.len() {
            let c = self.chars[self.pos];
            proof {
                assert(self.chars@.subrange(self.pos + 1, self.chars@.len() as int)
                    =~= self.rest().drop_first());
            }
            self.pos = self.pos + 1;
            Some(c)
        } else {
            None
        }
    }

    /// Skips whitespace and `#` comments.
    pub fn skip_whitespace(&mut self)
        requires
            old(self).wf(),
        ensures
            final(self).wf(),
            final(self).text() == old(self).text(),
            final(self).rest() == skip_blank(old(self).rest()),
    {
        let mut in_comment = false;
        loop
            invariant
                self.wf(),
                self.text() == old(self).text(),
                skip_blank_from(self.rest(), in_comment) == skip_blank(old(self).rest()),
            ensures
                self.wf(),
                self.text() == old(self).text(),
                self.rest() == skip_blank(old(self).rest()),
            decreases self.rest().len(),
        {
            match self.peek() {
                None => break,
                Some(c) => {
                    if in_comment {
                        self.next();
                        in_comment = c != '\n';
                    } else if is_whitespace(c) {
                        self.next();
                    } else if c == '#' {
                        self.next();
                        in_comment = true;
                    } else {
                        break;
                    }
                },
            }
        }
    }

    /// Skips whitespace and comments, a single optional `c`, and whitespace
    /// and comments again. Returns whether `c` was there.
    pub fn skip_whitespace_and_token(&mut self, c: char) -> (r: bool)
        requires
            old(self).wf(),
        ensures
            final(self).wf(),
            final(self).text() == old(self).text(),
            final(self).rest() == skip_token(old(self).rest(), c),
            r == (skip_blank(old(self).rest()).len() > 0 && skip_blank(old(self).rest())[0] == c),
    {
        self.skip_whitespace();
        let skip = self.peek() == Some(c);
        if skip {
            self.next();
            self.skip_whitespace();
        }
        skip
    }

    /// Reads the escape sequence whose backslash was just read.
    pub fn parse_escape(&mut self) -> (r: Result<char, GonError>)
        requires
            old(self).wf(),
        ensures
            final(self).wf(),
            final(self).text() == old(self).text(),
            match read_escape(old(self).rest()) {
                Ok((c, left)) => r == Ok::<char, GonError>(c) && final(self).rest() == left,
                Err(e) => r is Err && r->Err_0@ == e,
            },
    {
        match self.next() {
            Some('"') => Ok('"'),
            Some('\\') => Ok('\\'),
            Some('/') => Ok('/'),
            Some('b') => Ok('\x08'),
            Some('f') => Ok('\x0C'),
            Some('n') => Ok('\n'),
            Some('r') => Ok('\r'),
            Some('t') => Ok('\t'),
            Some('u') => Err(GonError::HexEscapesNotSupported),
            Some(c) => Err(GonError::UnexpectedEscapeCharacter(c)),
            None => Err(GonError::EscapeCharacterExpected),
        }
    }

    /// Reads a quoted string, decoding escapes, or a bare token.
    pub fn parse_string(&mut self) -> (r: Result<String, GonError>)
        requires
            old(self).wf(),
        ensures
            final(self).wf(),
            final(self).text() == old(self).text(),
            outcome(r, final(self).rest(), read_string(old(self).rest())),
            old(self).rest().len() == 0 ==> final(self).rest() == old(self).rest(),
    {
        let ghost target = read_string(old(self).rest());
        match self.peek() {
            Some('"') => {
                self.next();
                let mut res = String::new();
                loop
                    invariant
                        self.wf(),
                        self.text() == old(self).text(),
                        target == read_string(old(self).rest()),
                        quoted_rest(self.rest(), res@) == target,
                    decreases self.rest().len(),
                {
                    match self.next() {
                        Some('\\') => match self.parse_escape() {
                            Ok(c) => push_char(&mut res, c),
                            Err(e) => {
                                assert(target == Err::<(Seq<char>, Seq<char>), GonErrorModel>(e@));
                                return Err(e);
                            },
                        },
                        Some('"') => {
                            assert(target == Ok::<(Seq<char>, Seq<char>), GonErrorModel>(
                                (res@, self.rest()),
                            ));
                            return Ok(res);
                        },
                        Some(c) => push_char(&mut res, c),
                        None => {
                            assert(target == Err::<(Seq<char>, Seq<char>), GonErrorModel>(
                                GonErrorModel::QuoteExpected,
                            ));
                            return Err(GonError::QuoteExpected);
                        },
                    }
                }
            },
            Some(_) => {
                let mut res = String::new();
                loop
                    invariant
                        self.wf(),
                        self.text() == old(self).text(),
                        target == read_string(old(self).rest()),
                        bare_rest(self.rest(), res@) == target,
                    decreases self.rest().len(),
                {
                    match self.peek() {
                        Some('\\') => {
                            self.next();
                            match self.parse_escape() {
                                Ok(c) => push_char(&mut res, c),
                                Err(e) => {
                                    assert(target == Err::<(Seq<char>, Seq<char>), GonErrorModel>(e@));
                                    return Err(e);
                                },
                            }
                        },
                        Some(c) => {
                            if is_token(c) || is_whitespace(c) {
                                assert(target == Ok::<(Seq<char>, Seq<char>), GonErrorModel>(
                                    (res@, self.rest()),
                                ));
                                return Ok(res);
                            }
                            self.next();
                            push_char(&mut res, c);
                        },
                        None => {
                            assert(target == Ok::<(Seq<char>, Seq<char>), GonErrorModel>(
                                (res@, self.rest()),
                            ));
                            return Ok(res);
                        },
                    }
                }
            },
            None => Err(GonError::StringExpected),
        }
    }
}

/// What the grammar gives for the entries of an object, as an object.
pub open spec fn as_object(
    m: Result<(Seq<(Seq<char>, GonModel)>, Seq<char>), GonErrorModel>,
) -> Result<(GonModel, Seq<char>), GonErrorModel> {
    match m {
        Ok((entries, left)) => Ok((GonModel::Object(entries), left)),
        Err(e) => Err(e),
    }
}

/// Whether some entry has the key `key`.
fn contains_key(entries: &Vec<(String, Gon)>, key: &String) -> (r: bool)
    ensures
        r == has_key(entries_model(entries@), key@),
{
    let mut i: usize = 0;
    while i < entries.len()
        invariant
            i <= entries@.len(),
            forall|j: int| 0 <= j < i ==> (#[trigger] entries@[j]).0@ != key@,
        decreases entries@.len() - i,
    {
        if entries[i].0 == *key {
            proof {
                lemma_entries_model(entries@);
            }
            assert(entries_model(entries@)[i as int].0 == key@);
            return true;
        }
        i = i + 1;
    }
    proof {
        lemma_entries_model(entries@);
    }
    assert forall|j: int| 0 <= j < entries@.len() implies (#[trigger] entries_model(
        entries@,
    )[j]).0 != key@ by {
        assert(entries@[j].0@ != key@);
    }
    false
}

impl StrParser {
    /// Reads key/value entries up to a `}` or the end of the input.
    pub fn parse_object(&mut self) -> (r: Result<Gon, GonError>)
        requires
            old(self).wf(),
        ensures
            final(self).wf(),
            final(self).text() == old(self).text(),
            outcome(r, final(self).rest(), as_object(read_entries(old(self).rest(), Seq::empty()))),
        decreases old(self).rest().len(), 1nat,
    {
        let ghost target = read_entries(old(self).rest(), Seq::empty());
        let mut map: Vec<(String, Gon)> = Vec::new();
        proof {
            assert(entries_model(map@) =~= Seq::empty());
        }
        loop
            invariant
                self.wf(),
                self.text() == old(self).text(),
                self.rest().len() <= old(self).rest().len(),
                target == read_entries(old(self).rest(), Seq::empty()),
                read_entries(self.rest(), entries_model(map@)) == target,
            decreases self.rest().len(),
        {
            let ghost s0 = self.rest();
            match self.peek() {
                Some('}') | None => {
                    return Ok(Gon::Object(map));
                },
                _ => {},
            }
            let p0 = self.pos;
            let key = match self.parse_string() {
                Ok(k) => k,
                Err(e) => return Err(e),
            };
            self.skip_whitespace_and_token(':');
            proof {
                lemma_read_string_len(s0);
                let r1 = read_string(s0)->Ok_0.1;
                lemma_skip_token_len(r1, ':');
            }
            let val = match self.parse_val() {
                Ok(v) => v,
                Err(e) => return Err(e),
            };
            let dup = contains_key(&map, &key);
            self.skip_whitespace_and_token(',');
            if dup || self.pos <= p0 {
                return Err(GonError::DuplicateKey(key));
            }
            let ghost old_map = map@;
            map.push((key, val));
            proof {
                assert(map@.drop_last() =~= old_map);
            }
        }
    }

    /// Reads one value: an object in braces, an array, or a string.
    pub fn parse_val(&mut self) -> (r: Result<Gon, GonError>)
        requires
            old(self).wf(),
        ensures
            final(self).wf(),
            final(self).text() == old(self).text(),
            outcome(r, final(self).rest(), read_value(old(self).rest())),
        decreases old(self).rest().len(), 0nat,
    {
        let ghost s0 = old(self).rest();
        match self.peek() {
            Some('{') => {
                self.next();
                self.skip_whitespace();
                proof {
                    lemma_skip_blank_from_len(s0.drop_first(), false);
                }
                let val = match self.parse_object() {
                    Ok(v) => v,
                    Err(e) => return Err(e),
                };
                match self.next() {
                    Some('}') => Ok(val),
                    _ => Err(GonError::ClosingBraceExpected),
                }
            },
            Some('[') => {
                self.next();
                let mut arr: Vec<Gon> = Vec::new();
                self.skip_whitespace();
                proof {
                    lemma_skip_blank_from_len(s0.drop_first(), false);
                    assert(items_model(arr@) =~= Seq::empty());
                }
                let ghost target = read_items(skip_blank(s0.drop_first()), Seq::empty());
                loop
                    invariant
                        self.wf(),
                        self.text() == old(self).text(),
                        self.rest().len() < s0.len(),
                        s0 == old(self).rest(),
                        s0.len() > 0 && s0[0] == '[',
                        target == read_items(skip_blank(s0.drop_first()), Seq::empty()),
                        read_items(self.rest(), items_model(arr@)) == target,
                    decreases self.rest().len(),
                {
                    match self.peek() {
                        Some(']') => {
                            self.next();
                            return Ok(Gon::Array(arr));
                        },
                        None => return Err(GonError::ClosingBracketExpected),
                        Some(c) => {
                            let p0 = self.pos;
                            let v = match self.parse_val() {
                                Ok(v) => v,
                                Err(e) => return Err(e),
                            };
                            self.skip_whitespace_and_token(',');
                            if self.pos <= p0 {
                                return Err(GonError::UnexpectedCharacter(c));
                            }
                            let ghost old_arr = arr@;
                            arr.push(v);
                            proof {
                                assert(arr@.drop_last() =~= old_arr);
                            }
                        },
                    }
                }
            },
            Some(_) => match self.parse_string() {
                Ok(v) => Ok(Gon::Value(v)),
                Err(e) => Err(e),
            },
            None => Err(GonError::ValueExpected),
        }
    }
}

impl Gon {
    /// Parses a whole document.
    pub fn parse(s: &str) -> (r: Result<Gon, GonError>)
        ensures
            match parse_document(s@) {
                Ok(g) => r is Ok && r->Ok_0@ == g,
                Err(e) => r is Err && r->Err_0@ == e,
            },
            r is Ok ==> r->Ok_0@.wf(),
    {
        proof {
            lemma_document_wf(s@);
        }
        let mut p = StrParser::new(s);
        p.skip_whitespace();
        let gon = match p.peek() {
            Some('{') | Some('[') => match p.parse_val() {
                Ok(g) => g,
                Err(e) => return Err(e),
            },
            _ => match p.parse_object() {
                Ok(g) => g,
                Err(GonError::ValueExpected) => {
                    p = StrParser::new(s);
                    p.skip_whitespace();
                    match p.parse_val() {
                        Ok(g) => g,
                        Err(_) => return Err(GonError::InvalidGon),
                    }
                },
                Err(e) => return Err(e),
            },
        };
        p.skip_whitespace();
        if p.peek().is_some() {
            Err(GonError::EndOfFileExpected)
        } else {
            Ok(gon)
        }
    }
}

proof fn lemma_value_wf(s: Seq<char>)
    ensures
        read_value(s) matches Ok((g, _)) ==> g.wf(),
    decreases s.len(), 0nat,
{
    if s.len() > 0 {
        lemma_skip_blank_from_len(s.drop_first(), false);
        if s[0] == '{' {
            lemma_entries_wf(skip_blank(s.drop_first()), Seq::empty());
        } else if s[0] == '[' {
            lemma_items_wf(skip_blank(s.drop_first()), Seq::empty());
        }
    }
}

proof fn lemma_items_wf(s: Seq<char>, acc: Seq<GonModel>)
    requires
        forall|i: int| 0 <= i < acc.len() ==> (#[trigger] acc[i]).wf(),
    ensures
        read_items(s, acc) matches Ok((items, _)) ==> forall|i: int|
            0 <= i < items.len() ==> (#[trigger] items[i]).wf(),
    decreases s.len(), 1nat,
{
    if s.len() > 0 && s[0] != ']' {
        lemma_value_wf(s);
        if let Ok((v, r)) = read_value(s) {
            let next = skip_token(r, ',');
            if next.len() < s.len() {
                let acc2 = acc.push(v);
                assert forall|i: int| 0 <= i < acc2.len() implies (#[trigger] acc2[i]).wf() by {
                    if i < acc.len() {
                        assert(acc2[i] == acc[i]);
                    }
                }
                lemma_items_wf(next, acc2);
            }
        }
    }
}

proof fn lemma_entries_wf(s: Seq<char>, acc: Seq<(Seq<char>, GonModel)>)
    requires
        keys_unique(acc),
        forall|i: int| 0 <= i < acc.len() ==> (#[trigger] acc[i]).1.wf(),
    ensures
        read_entries(s, acc) matches Ok((entries, _)) ==> keys_unique(entries) && forall|i: int|
            0 <= i < entries.len() ==> (#[trigger] entries[i]).1.wf(),
    decreases s.len(), 1nat,
{
    if !(s.len() == 0 || s[0] == '}') {
        lemma_read_string_len(s);
        if let Ok((k, r1)) = read_string(s) {
            lemma_skip_token_len(r1, ':');
            lemma_value_wf(skip_token(r1, ':'));
            if let Ok((v, r2)) = read_value(skip_token(r1, ':')) {
                let next = skip_token(r2, ',');
                if !has_key(acc, k) && next.len() < s.len() {
                    let acc2 = acc.push((k, v));
                    assert forall|i: int| 0 <= i < acc2.len() implies (#[trigger] acc2[i]).1.wf() by {
                        if i < acc.len() {
                            assert(acc2[i] == acc[i]);
                        }
                    }
                    assert forall|i: int, j: int|
                        0 <= i < j < acc2.len() implies (#[trigger] acc2[i]).0 != (
                        #[trigger] acc2[j]).0 by {
                        if j == acc.len() {
                            assert(acc2[i] == acc[i]);
                        } else {
                            assert(acc2[i] == acc[i] && acc2[j] == acc[j]);
                        }
                    }
                    lemma_entries_wf(next, acc2);
                }
            }
        }
    }
}

/// A document that parses yields a tree in which no object repeats a key.
pub proof fn lemma_document_wf(text: Seq<char>)
    ensures
        parse_document(text) matches Ok(g) ==> g.wf(),
{
    let s = skip_blank(text);
    lemma_value_wf(s);
    lemma_entries_wf(s, Seq::empty());
}

} // verus!
