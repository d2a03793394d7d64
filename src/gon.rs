//! The parsed tree and its mathematical model.
use vstd::prelude::*;
use vstd::string::StringExecFns;
use crate::from::{FromGon, FromGonError};

verus! {

broadcast use vstd::std_specs::vec::group_vec_axioms;

/// Everything that can go wrong while parsing a document.
#[derive(Debug, Clone, PartialEq, Eq)]
pub enum GonError {
    InvalidGon,
    StringExpected,
    EndOfFileExpected,
    WhitespaceExpected,
    QuoteExpected,
    ClosingBraceExpected,
    ClosingBracketExpected,
    ValueExpected,
    DuplicateKey(String),
    HexEscapesNotSupported,
    UnexpectedEscapeCharacter(char),
    EscapeCharacterExpected,
    UnexpectedCharacter(char),
}

/// The model of a parse error: the same variants, with the key as a sequence.
pub ghost enum GonErrorModel {
    InvalidGon,
    StringExpected,
    EndOfFileExpected,
    WhitespaceExpected,
    QuoteExpected,
    ClosingBraceExpected,
    ClosingBracketExpected,
    ValueExpected,
    DuplicateKey(Seq<char>),
    HexEscapesNotSupported,
    UnexpectedEscapeCharacter(char),
    EscapeCharacterExpected,
    UnexpectedCharacter(char),
}

impl View for GonError {
    type V = GonErrorModel;

    open spec fn view(&self) -> GonErrorModel {
        match self {
            GonError::InvalidGon => GonErrorModel::InvalidGon,
            GonError::StringExpected => GonErrorModel::StringExpected,
            GonError::EndOfFileExpected => GonErrorModel::EndOfFileExpected,
            GonError::WhitespaceExpected => GonErrorModel::WhitespaceExpected,
            GonError::QuoteExpected => GonErrorModel::QuoteExpected,
            GonError::ClosingBraceExpected => GonErrorModel::ClosingBraceExpected,
            GonError::ClosingBracketExpected => GonErrorModel::ClosingBracketExpected,
            GonError::ValueExpected => GonErrorModel::ValueExpected,
            GonError::DuplicateKey(k) => GonErrorModel::DuplicateKey(k@),
            GonError::HexEscapesNotSupported => GonErrorModel::HexEscapesNotSupported,
            GonError::UnexpectedEscapeCharacter(c) => GonErrorModel::UnexpectedEscapeCharacter(*c),
            GonError::EscapeCharacterExpected => GonErrorModel::EscapeCharacterExpected,
            GonError::UnexpectedCharacter(c) => GonErrorModel::UnexpectedCharacter(*c),
        }
    }
}

/// Why a typed read of a node failed.
#[derive(Debug)]
pub enum GonGetError<E> {
    UnexpectedObject,
    UnexpectedArray,
    UnexpectedValue,
    IndexOutOfBounds(usize),
    MissingKey(String),
    ConversionFailed(E),
}

/// A parsed node. An object keeps its entries in the order they were read,
/// and no key occurs twice in it.
#[derive(Debug)]
pub enum Gon {
    Object(Vec<(String, Gon)>),
    Array(Vec<Gon>),
    Value(String),
}

/// The model of a node: objects and arrays as sequences, strings as
/// sequences of characters.
pub ghost enum GonModel {
    Object(Seq<(Seq<char>, GonModel)>),
    Array(Seq<GonModel>),
    Value(Seq<char>),
}

/// No key occurs twice among the entries.
pub open spec fn keys_unique(entries: Seq<(Seq<char>, GonModel)>) -> bool {
    forall|i: int, j: int|
        0 <= i < j < entries.len() ==> (#[trigger] entries[i]).0 != (#[trigger] entries[j]).0
}

/// Some entry has key `k`.
pub open spec fn has_key(entries: Seq<(Seq<char>, GonModel)>, k: Seq<char>) -> bool {
    exists|i: int| 0 <= i < entries.len() && (#[trigger] entries[i]).0 == k
}

impl GonModel {
    /// Every object in the tree has unique keys.
    pub open spec fn wf(self) -> bool
        decreases self,
    {
        match self {
            GonModel::Object(entries) => {
                &&& keys_unique(entries)
                &&& forall|i: int| 0 <= i < entries.len() ==> (#[trigger] entries[i]).1.wf()
            },
            GonModel::Array(items) => forall|i: int|
                0 <= i < items.len() ==> (#[trigger] items[i]).wf(),
            GonModel::Value(_) => true,
        }
    }
}

impl View for Gon {
    type V = GonModel;

    open spec fn view(&self) -> GonModel
        decreases self,
    {
        match self {
            Gon::Object(entries) => GonModel::Object(entries_model(entries@)),
            Gon::Array(items) => GonModel::Array(items_model(items@)),
            Gon::Value(s) => GonModel::Value(s@),
        }
    }
}

/// The model of an object's entries.
pub open spec fn entries_model(v: Seq<(String, Gon)>) -> Seq<(Seq<char>, GonModel)>
    decreases v,
{
    if v.len() == 0 {
        Seq::empty()
    } else {
        entries_model(v.drop_last()).push((v.last().0@, v.last().1.view()))
    }
}

/// The model of an array's elements.
pub open spec fn items_model(v: Seq<Gon>) -> Seq<GonModel>
    decreases v,
{
    if v.len() == 0 {
        Seq::empty()
    } else {
        items_model(v.drop_last()).push(v.last().view())
    }
}

pub proof fn lemma_entries_model(v: Seq<(String, Gon)>)
    ensures
        entries_model(v).len() == v.len(),
        forall|i: int| 0 <= i < v.len() ==> #[trigger] entries_model(v)[i] == (v[i].0@, v[i].1@),
    decreases v.len(),
{
    if v.len() > 0 {
        lemma_entries_model(v.drop_last());
        assert(entries_model(v) == entries_model(v.drop_last()).push((v.last().0@, v.last().1@)));
    } else {
        assert(entries_model(v) == Seq::<(Seq<char>, GonModel)>::empty());
    }
}

pub proof fn lemma_items_model(v: Seq<Gon>)
    ensures
        items_model(v).len() == v.len(),
        forall|i: int| 0 <= i < v.len() ==> #[trigger] items_model(v)[i] == v[i]@,
    decreases v.len(),
{
    if v.len() > 0 {
        lemma_items_model(v.drop_last());
        assert(items_model(v) == items_model(v.drop_last()).push(v.last()@));
    } else {
        assert(items_model(v) == Seq::<GonModel>::empty());
    }
}

/// The value stored under `k`, for a key that is present.
pub open spec fn value_of(entries: Seq<(Seq<char>, GonModel)>, k: Seq<char>) -> GonModel {
    entries[choose|i: int| 0 <= i < entries.len() && (#[trigger] entries[i]).0 == k].1
}

impl Gon {
    /// The text of a value.
    pub fn str(&self) -> (r: &str)
        requires
            self is Value,
        ensures
            r@ == self@->Value_0,
    {
        match self {
            Gon::Value(val) => val.as_str(),
            _ => vstd::pervasive::unreached(),
        }
    }

    /// Converts a value into `T`; the value must convert.
    pub fn get<T: FromGon>(&self) -> (r: T)
        requires
            self is Value,
            T::convertible(self@),
        ensures
            T::converts_to(self@, r),
    {
        match T::from_gon(self) {
            Ok(v) => v,
            Err(_) => vstd::pervasive::unreached(),
        }
    }

    /// Converts a value into `T`. An object or an array is refused as such;
    /// a value that does not convert gives the conversion's error.
    pub fn try_get<T: FromGon>(&self) -> (r: Result<T, GonGetError<FromGonError>>)
        ensures
            self is Object ==> r matches Err(GonGetError::UnexpectedObject),
            self is Array ==> r matches Err(GonGetError::UnexpectedArray),
            self is Value ==> match r {
                Ok(v) => T::convertible(self@) && T::converts_to(self@, v),
                Err(GonGetError::ConversionFailed(e)) => !T::convertible(self@) && T::fails_with(
                    self@,
                    e,
                ),
                Err(_) => false,
            },
    {
        match self {
            Gon::Object(_) => Err(GonGetError::UnexpectedObject),
            Gon::Array(_) => Err(GonGetError::UnexpectedArray),
            Gon::Value(_) => match T::from_gon(self) {
                Ok(v) => Ok(v),
                Err(err) => Err(GonGetError::ConversionFailed(err)),
            },
        }
    }

    /// The node stored under `key` in an object.
    pub fn index_key(&self, key: &str) -> (r: &Gon)
        requires
            self is Object,
            self@.wf(),
            has_key(self@->Object_0, key@),
        ensures
            r@ == value_of(self@->Object_0, key@),
    {
        match self {
            Gon::Object(entries) => {
                proof {
                    lemma_entries_model(entries@);
                }
                let wanted = String::from_str(key);
                let mut i: usize = 0;
                while i < entries.len()
                    invariant
                        i <= entries@.len(),
                        wanted@ == key@,
                        self@ == GonModel::Object(entries_model(entries@)),
                        self@.wf(),
                        entries_model(entries@).len() == entries@.len(),
                        forall|j: int|
                            0 <= j < entries@.len() ==> #[trigger] entries_model(entries@)[j] == (
                            entries@[j].0@, entries@[j].1@),
                        has_key(entries_model(entries@), key@),
                        forall|j: int| 0 <= j < i ==> (#[trigger] entries@[j]).0@ != key@,
                    decreases entries@.len() - i,
                {
                    if entries[i].0 == wanted {
                        proof {
                            let es = self@->Object_0;
                            assert(es == entries_model(entries@));
                            assert(es[i as int] == (entries@[i as int].0@, entries@[i as int].1@));
                            assert(keys_unique(es));
                            let j = choose|j: int| 0 <= j < es.len() && (#[trigger] es[j]).0 == key@;
                            assert(es[i as int].0 == key@);
                            if j != i {
                                if j < i {
                                    assert(es[j].0 != es[i as int].0);
                                } else {
                                    assert(es[i as int].0 != es[j].0);
                                }
                            }
                        }
                        return &entries[i].1;
                    }
                    i = i + 1;
                }
                vstd::pervasive::unreached()
            },
            _ => vstd::pervasive::unreached(),
        }
    }

    /// The element at position `i` of an array.
    pub fn index_at(&self, i: usize) -> (r: &Gon)
        requires
            self is Array,
            i < self@->Array_0.len(),
        ensures
            r@ == self@->Array_0[i as int],
    {
        match self {
            Gon::Array(items) => {
                proof {
                    lemma_items_model(items@);
                }
                &items[i]
            },
            _ => vstd::pervasive::unreached(),
        }
    }
}

impl Gon {
    /// A copy of the whole tree.
    pub fn deep_clone(&self) -> (r: Gon)
        ensures
            r@ == self@,
        decreases self,
    {
        match self {
            Gon::Object(entries) => {
                proof {
                    lemma_entries_model(entries@);
                }
                let mut out: Vec<(String, Gon)> = Vec::new();
                let mut i: usize = 0;
                while i < entries.len()
                    invariant
                        i <= entries@.len(),
                        *self == Gon::Object(*entries),
                        out@.len() == i,
                        forall|j: int|
                            0 <= j < i ==> (#[trigger] out@[j]).0@ == entries@[j].0@ && out@[j].1@
                                == entries@[j].1@,
                    decreases entries@.len() - i,
                {
                    let k = entries[i].0.clone();
                    proof {
                        assert(decreases_to!(*self => self->Object_0));
                        assert(decreases_to!(*entries => entries[i as int]));
                        assert(decreases_to!(entries[i as int] => entries[i as int].1));
                        assert(decreases_to!(*self => entries[i as int].1));
                    }
                    let v = entries[i].1.deep_clone();
                    out.push((k, v));
                    i = i + 1;
                }
                proof {
                    lemma_entries_model(out@);
                    assert(entries_model(out@) =~= entries_model(entries@));
                }
                Gon::Object(out)
            },
            Gon::Array(items) => {
                proof {
                    lemma_items_model(items@);
                }
                let mut out: Vec<Gon> = Vec::new();
                let mut i: usize = 0;
                while i < items.len()
                    invariant
                        i <= items@.len(),
                        *self == Gon::Array(*items),
                        out@.len() == i,
                        forall|j: int| 0 <= j < i ==> (#[trigger] out@[j])@ == items@[j]@,
                    decreases items@.len() - i,
                {
                    proof {
                        assert(decreases_to!(*self => self->Array_0));
                        assert(decreases_to!(*items => items[i as int]));
                        assert(decreases_to!(*self => items[i as int]));
                    }
                    let v = items[i].deep_clone();
                    out.push(v);
                    i = i + 1;
                }
                proof {
                    lemma_items_model(out@);
                    assert(items_model(out@) =~= items_model(items@));
                }
                Gon::Array(out)
            },
            Gon::Value(s) => Gon::Value(s.clone()),
        }
    }
}

impl Gon {
    /// The node stored under `key` in an object: the first entry with that
    /// key. A missing key, an array or a value is reported.
    pub fn try_index_key(&self, key: &str) -> (r: Result<&Gon, GonGetError<FromGonError>>)
        ensures
            self is Array ==> r matches Err(GonGetError::UnexpectedArray),
            self is Value ==> r matches Err(GonGetError::UnexpectedValue),
            self is Object ==> match r {
                Ok(g) => exists|i: int|
                    0 <= i < self@->Object_0.len() && (#[trigger] self@->Object_0[i]).0 == key@
                        && g@ == self@->Object_0[i].1 && forall|j: int|
                        0 <= j < i ==> (#[trigger] self@->Object_0[j]).0 != key@,
                Err(GonGetError::MissingKey(k)) => k@ == key@ && !has_key(self@->Object_0, key@),
                Err(_) => false,
            },
    {
        match self {
            Gon::Object(entries) => {
                proof {
                    lemma_entries_model(entries@);
                }
                let wanted = String::from_str(key);
                let mut i: usize = 0;
                while i < entries.len()
                    invariant
                        i <= entries@.len(),
                        wanted@ == key@,
                        self@ == GonModel::Object(entries_model(entries@)),
                        entries_model(entries@).len() == entries@.len(),
                        forall|j: int|
                            0 <= j < entries@.len() ==> #[trigger] entries_model(entries@)[j] == (
                            entries@[j].0@, entries@[j].1@),
                        forall|j: int| 0 <= j < i ==> (#[trigger] entries@[j]).0@ != key@,
                    decreases entries@.len() - i,
                {
                    if entries[i].0 == wanted {
                        proof {
                            let es = self@->Object_0;
                            assert(es[i as int] == (entries@[i as int].0@, entries@[i as int].1@));
                            assert forall|j: int| 0 <= j < i implies (#[trigger] es[j]).0 != key@ by {
                                assert(es[j] == (entries@[j].0@, entries@[j].1@));
                            }
                        }
                        return Ok(&entries[i].1);
                    }
                    i = i + 1;
                }
                proof {
                    let es = self@->Object_0;
                    assert forall|j: int| 0 <= j < es.len() implies (#[trigger] es[j]).0 != key@ by {
                        assert(es[j] == (entries@[j].0@, entries@[j].1@));
                    }
                }
                Err(GonGetError::MissingKey(wanted))
            },
            Gon::Array(_) => Err(GonGetError::UnexpectedArray),
            Gon::Value(_) => Err(GonGetError::UnexpectedValue),
        }
    }

    /// The element at position `i` of an array. A position past the end, an
    /// object or a value is reported.
    pub fn try_index_at(&self, i: usize) -> (r: Result<&Gon, GonGetError<FromGonError>>)
        ensures
            self is Object ==> r matches Err(GonGetError::UnexpectedObject),
            self is Value ==> r matches Err(GonGetError::UnexpectedValue),
            self is Array ==> match r {
                Ok(g) => i < self@->Array_0.len() && g@ == self@->Array_0[i as int],
                Err(GonGetError::IndexOutOfBounds(j)) => j == i && i >= self@->Array_0.len(),
                Err(_) => false,
            },
    {
        match self {
            Gon::Array(items) => {
                proof {
                    lemma_items_model(items@);
                }
                if i < items.len() {
                    Ok(&items[i])
                } else {
                    Err(GonGetError::IndexOutOfBounds(i))
                }
            },
            Gon::Object(_) => Err(GonGetError::UnexpectedObject),
            Gon::Value(_) => Err(GonGetError::UnexpectedValue),
        }
    }
}

} // verus!
