//! The canonical text of a tree, and the proof that parsing reads it back.
use vstd::prelude::*;
use crate::gon::{has_key, keys_unique, GonErrorModel, GonModel};
use crate::grammar::{
    is_blank_char, is_blank_text, lemma_blank_prefix_invisible, parse_document, quoted_rest,
    read_entries, read_items, read_string, read_value, skip_blank, skip_token,
};

verus! {

/// `t` with a backslash put before each `"` and `\`.
pub open spec fn escaped(t: Seq<char>) -> Seq<char>
    decreases t.len(),
{
    if t.len() == 0 {
        Seq::empty()
    } else if t[0] == '"' || t[0] == '\\' {
        seq!['\\', t[0]] + escaped(t.drop_first())
    } else {
        seq![t[0]] + escaped(t.drop_first())
    }
}

/// `t` as a quoted string.
pub open spec fn quoted(t: Seq<char>) -> Seq<char> {
    seq!['"'] + escaped(t) + seq!['"']
}

/// The text of a node with the blank text `w` between its tokens: values
/// quoted, arrays in brackets with `w` between elements, objects in braces
/// with `w` between a quoted key and its value and between entries. With an
/// empty `w` this is the most compact text; with a space, the usual one.
pub open spec fn render(g: GonModel, w: Seq<char>) -> Seq<char>
    decreases g, 0int,
{
    match g {
        GonModel::Value(t) => quoted(t),
        GonModel::Array(items) => seq!['['] + render_items(items, w) + seq![']'],
        GonModel::Object(entries) => seq!['{'] + render_entries(entries, w) + seq!['}'],
    }
}

/// The texts of the elements with `w` between them.
pub open spec fn render_items(items: Seq<GonModel>, w: Seq<char>) -> Seq<char>
    decreases items, items.len(),
{
    if items.len() == 0 {
        Seq::empty()
    } else if items.len() == 1 {
        render(items[0], w)
    } else {
        render(items[0], w) + w + render_items(items.drop_first(), w)
    }
}

/// The texts of the entries with `w` between them, each a quoted key, `w`
/// and the value's text.
pub open spec fn render_entries(entries: Seq<(Seq<char>, GonModel)>, w: Seq<char>) -> Seq<char>
    decreases entries, entries.len(),
{
    if entries.len() == 0 {
        Seq::empty()
    } else if entries.len() == 1 {
        quoted(entries[0].0) + w + render(entries[0].1, w)
    } else {
        quoted(entries[0].0) + w + render(entries[0].1, w) + w + render_entries(
            entries.drop_first(),
            w,
        )
    }
}

/// Reading the escaped text and a closing quote gives back the text, and
/// leaves what follows the quote.
pub proof fn lemma_escaped_read(t: Seq<char>, acc: Seq<char>, rest: Seq<char>)
    ensures
        quoted_rest(escaped(t) + seq!['"'] + rest, acc) == Ok::<(Seq<char>, Seq<char>), GonErrorModel>((acc + t, rest)),
    decreases t.len(),
{
    let s = escaped(t) + seq!['"'] + rest;
    if t.len() == 0 {
        assert(acc + t =~= acc);
        assert(s =~= seq!['"'] + rest);
        assert(s.drop_first() =~= rest);
    } else {
        let c = t[0];
        let tail = escaped(t.drop_first()) + seq!['"'] + rest;
        lemma_escaped_read(t.drop_first(), acc.push(c), rest);
        assert(acc.push(c) + t.drop_first() =~= acc + t);
        if c == '"' || c == '\\' {
            assert(s =~= seq!['\\', c] + tail);
            assert(s.drop_first() =~= seq![c] + tail);
            assert(s.drop_first().drop_first() =~= tail);
        } else {
            assert(s =~= seq![c] + tail);
            assert(s.drop_first() =~= tail);
        }
    }
}

/// A quoted string reads back as its text, whatever follows it.
pub proof fn lemma_quoted_read(t: Seq<char>, rest: Seq<char>)
    ensures
        read_string(quoted(t) + rest) == Ok::<(Seq<char>, Seq<char>), GonErrorModel>((t, rest)),
{
    let s = quoted(t) + rest;
    lemma_escaped_read(t, Seq::empty(), rest);
    assert(Seq::<char>::empty() + t =~= t);
    assert(s.drop_first() =~= escaped(t) + seq!['"'] + rest);
}

/// The text of a node is never empty and starts with a quote, a brace or a
/// bracket.
pub proof fn lemma_render_head(g: GonModel, w: Seq<char>)
    ensures
        render(g, w).len() > 0,
        render(g, w)[0] == '"' || render(g, w)[0] == '{' || render(g, w)[0] == '[',
{
}

/// Text that starts with something other than whitespace or `#` has nothing
/// to skip, and no separator `t` either unless it starts with `t`.
pub proof fn lemma_nothing_to_skip(x: Seq<char>, t: char)
    requires
        x.len() > 0,
        !is_blank_char(x[0]),
        x[0] != '#',
        x[0] != t,
    ensures
        skip_blank(x) == x,
        skip_token(x, t) == x,
{
}

/// Blank text `w` in front of such text is skipped as well.
pub proof fn lemma_skip_to(w: Seq<char>, x: Seq<char>, t: char)
    requires
        is_blank_text(w),
        x.len() > 0,
        !is_blank_char(x[0]),
        x[0] != '#',
        x[0] != t,
    ensures
        skip_blank(w + x) == x,
        skip_token(w + x, t) == x,
{
    lemma_nothing_to_skip(x, t);
    lemma_blank_prefix_invisible(w, x, t);
}

/// Every node among the given ones is well formed.
pub open spec fn all_wf(items: Seq<GonModel>) -> bool {
    forall|i: int| 0 <= i < items.len() ==> (#[trigger] items[i]).wf()
}

/// Every value among the entries is well formed.
pub open spec fn all_values_wf(entries: Seq<(Seq<char>, GonModel)>) -> bool {
    forall|i: int| 0 <= i < entries.len() ==> (#[trigger] entries[i]).1.wf()
}

/// The text of a well-formed node, with blank text between its tokens, reads
/// back as that node and leaves whatever follows it.
pub proof fn lemma_render_read(g: GonModel, w: Seq<char>, rest: Seq<char>)
    requires
        g.wf(),
        is_blank_text(w),
    ensures
        read_value(render(g, w) + rest) == Ok::<(GonModel, Seq<char>), GonErrorModel>((g, rest)),
    decreases g, 0int,
{
    let s = render(g, w) + rest;
    match g {
        GonModel::Value(t) => {
            lemma_quoted_read(t, rest);
        },
        GonModel::Array(items) => {
            let body = render_items(items, w) + seq![']'] + rest;
            assert(s =~= seq!['['] + body);
            assert(s.drop_first() =~= body);
            lemma_items_read(items, w, Seq::empty(), rest);
            assert(Seq::<GonModel>::empty() + items =~= items);
            lemma_items_head(items, w, rest);
            lemma_nothing_to_skip(body, ',');
        },
        GonModel::Object(entries) => {
            let body = render_entries(entries, w) + seq!['}'] + rest;
            assert(s =~= seq!['{'] + body);
            assert(s.drop_first() =~= body);
            assert(Seq::<(Seq<char>, GonModel)>::empty() + entries =~= entries);
            lemma_entries_read(entries, w, Seq::empty(), rest);
            if entries.len() > 0 {
                assert(body[0] == '"');
            } else {
                assert(body =~= seq!['}'] + rest);
            }
            lemma_nothing_to_skip(body, ',');
            assert((seq!['}'] + rest).drop_first() =~= rest);
        },
    }
}

/// The elements' text followed by `]` starts with a quote, a brace or a
/// bracket.
proof fn lemma_items_head(items: Seq<GonModel>, w: Seq<char>, rest: Seq<char>)
    ensures
        (render_items(items, w) + seq![']'] + rest).len() > 0,
        ({
            let c = (render_items(items, w) + seq![']'] + rest)[0];
            c == '"' || c == '{' || c == '[' || c == ']'
        }),
{
    if items.len() > 0 {
        lemma_render_head(items[0], w);
    }
}

/// The elements' text followed by `]` reads back as those elements, appended
/// to `acc`.
pub proof fn lemma_items_read(
    items: Seq<GonModel>,
    w: Seq<char>,
    acc: Seq<GonModel>,
    rest: Seq<char>,
)
    requires
        all_wf(items),
        is_blank_text(w),
    ensures
        read_items(render_items(items, w) + seq![']'] + rest, acc) == Ok::<
            (Seq<GonModel>, Seq<char>),
            GonErrorModel,
        >((acc + items, rest)),
    decreases items, items.len(),
{
    let s = render_items(items, w) + seq![']'] + rest;
    if items.len() == 0 {
        assert(s =~= seq![']'] + rest);
        assert(s.drop_first() =~= rest);
        assert(acc + items =~= acc);
    } else {
        let g = items[0];
        let tail = items.drop_first();
        let next = render_items(tail, w) + seq![']'] + rest;
        assert(g.wf());
        lemma_render_head(g, w);
        lemma_items_head(tail, w, rest);
        if items.len() == 1 {
            assert(next =~= seq![']'] + rest);
            assert(s =~= render(g, w) + next);
            lemma_render_read(g, w, next);
            lemma_nothing_to_skip(next, ',');
        } else {
            assert(s =~= render(g, w) + (w + next));
            lemma_render_read(g, w, w + next);
            lemma_skip_to(w, next, ',');
        }
        assert(all_wf(tail)) by {
            assert forall|i: int| 0 <= i < tail.len() implies (#[trigger] tail[i]).wf() by {
                assert(tail[i] == items[i + 1]);
            }
        }
        lemma_items_read(tail, w, acc.push(g), rest);
        assert(acc.push(g) + tail =~= acc + items);
    }
}

/// The entries' text followed by `}` reads back as those entries, appended
/// to `acc`, when no key repeats.
#[verifier::rlimit(40)]
pub proof fn lemma_entries_read(
    entries: Seq<(Seq<char>, GonModel)>,
    w: Seq<char>,
    acc: Seq<(Seq<char>, GonModel)>,
    rest: Seq<char>,
)
    requires
        all_values_wf(entries),
        keys_unique(acc + entries),
        is_blank_text(w),
    ensures
        read_entries(render_entries(entries, w) + seq!['}'] + rest, acc) == Ok::<
            (Seq<(Seq<char>, GonModel)>, Seq<char>),
            GonErrorModel,
        >((acc + entries, seq!['}'] + rest)),
    decreases entries, entries.len(),
{
    let s = render_entries(entries, w) + seq!['}'] + rest;
    if entries.len() == 0 {
        assert(s =~= seq!['}'] + rest);
        assert(acc + entries =~= acc);
    } else {
        let (k, v) = entries[0];
        let tail = entries.drop_first();
        let next = render_entries(tail, w) + seq!['}'] + rest;
        assert(v.wf());
        lemma_render_head(v, w);
        let after = if entries.len() == 1 {
            next
        } else {
            w + next
        };
        if entries.len() == 1 {
            assert(next =~= seq!['}'] + rest);
            lemma_nothing_to_skip(next, ',');
            assert(s =~= quoted(k) + (w + (render(v, w) + after)));
        } else {
            assert(next[0] == '"');
            lemma_skip_to(w, next, ',');
            assert(s =~= quoted(k) + (w + (render(v, w) + after)));
        }
        assert(skip_token(after, ',') == next);
        let r1 = render(v, w) + after;
        lemma_quoted_read(k, w + r1);
        lemma_skip_to(w, r1, ':');
        lemma_render_read(v, w, after);
        assert(read_string(s) == Ok::<(Seq<char>, Seq<char>), GonErrorModel>((k, w + r1)));
        assert(skip_token(w + r1, ':') == r1);
        assert(read_value(r1) == Ok::<(GonModel, Seq<char>), GonErrorModel>((v, after)));
        assert(next.len() < s.len());
        let all = acc + entries;
        assert(!has_key(acc, k)) by {
            if has_key(acc, k) {
                let i = choose|i: int| 0 <= i < acc.len() && (#[trigger] acc[i]).0 == k;
                assert(all[i] == acc[i]);
                assert(all[acc.len() as int] == entries[0]);
            }
        }
        assert(acc.push((k, v)) + tail =~= all);
        assert(all_values_wf(tail)) by {
            assert forall|i: int| 0 <= i < tail.len() implies (#[trigger] tail[i]).1.wf() by {
                assert(tail[i] == entries[i + 1]);
            }
        }
        lemma_entries_read(tail, w, acc.push((k, v)), rest);
    }
}

/// Writing a well-formed tree out with blank text `w` between its tokens
/// (spaces, newlines, comments that end with a newline, or nothing), and
/// blank text `front` and `back` around it, and parsing the text gives back
/// the same tree.
pub proof fn lemma_parse_render(g: GonModel, w: Seq<char>, front: Seq<char>, back: Seq<char>)
    requires
        g.wf(),
        is_blank_text(w),
        is_blank_text(front),
        is_blank_text(back),
    ensures
        parse_document(front + render(g, w) + back) == Ok::<GonModel, GonErrorModel>(g),
{
    let x = render(g, w) + back;
    assert(front + render(g, w) + back =~= front + x);
    lemma_blank_prefix_invisible(front, x, ',');
    lemma_render_head(g, w);
    lemma_nothing_to_skip(x, ',');
    lemma_render_read(g, w, back);
    lemma_blank_prefix_invisible(back, Seq::empty(), ':');
    assert(back + Seq::<char>::empty() =~= back);
    assert(skip_blank(Seq::<char>::empty()) == Seq::<char>::empty());
    assert(skip_token(Seq::<char>::empty(), ':') == Seq::<char>::empty());
    if let GonModel::Value(t) = g {
        lemma_quoted_read(t, back);
        assert(read_value(Seq::<char>::empty()) is Err);
        assert(read_entries(x, Seq::empty()) == Err::<
            (Seq<(Seq<char>, GonModel)>, Seq<char>),
            GonErrorModel,
        >(GonErrorModel::ValueExpected));
    }
}

} // verus!
