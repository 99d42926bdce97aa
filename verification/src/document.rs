//! The loosely typed document: an ordered mapping from text keys to values,
//! where a value is text, an integer, a list, or a nested document.

use vstd::prelude::*;

verus! {

/// A value stored under a key of a [`Document`], or in a list.
#[derive(Debug, PartialEq, Eq)]
pub enum Value {
    /// A piece of text.
    Text(String),
    /// An integer.
    Integer(i64),
    /// An ordered list of values.
    List(Vec<Value>),
    /// A nested document.
    Document(Document),
    /// A value of any other kind, kept only as the text that describes it.
    Other(String),
}

/// An ordered mapping from text keys to values. No key occurs twice, and
/// the entries keep the order in which their keys were first set.
#[derive(Debug, PartialEq, Eq)]
pub struct Document {
    entries: Vec<(String, Value)>,
}

/// The mathematical value of a [`Value`].
pub ghost enum ValueView {
    Text(Seq<char>),
    Integer(i64),
    List(Seq<ValueView>),
    Document(DocumentView),
    Other(Seq<char>),
}

/// The mathematical value of a [`Document`]: its entries, in order.
pub ghost struct DocumentView {
    pub entries: Seq<(Seq<char>, ValueView)>,
}

impl ValueView {
    /// The value of `value`, with lists and nested documents taken by
    /// their values in turn.
    pub open spec fn of(value: Value) -> ValueView
        decreases value,
    {
        match value {
            Value::Text(text) => ValueView::Text(text@),
            Value::Integer(number) => ValueView::Integer(number),
            Value::List(items) => ValueView::List(
                Seq::new(
                    items@.len(),
                    |i: int|
                        if 0 <= i < items@.len() {
                            ValueView::of(items@[i])
                        } else {
                            arbitrary()
                        },
                ),
            ),
            Value::Document(document) => ValueView::Document(DocumentView::of(document)),
            Value::Other(text) => ValueView::Other(text@),
        }
    }
}

impl DocumentView {
    /// The value of `document`: its keys and the values of what is stored
    /// under them, in the document's order.
    pub closed spec fn of(document: Document) -> DocumentView
        decreases document,
    {
        DocumentView {
            entries: Seq::new(
                document.entries@.len(),
                |i: int|
                    if 0 <= i < document.entries@.len() {
                        (document.entries@[i].0@, ValueView::of(document.entries@[i].1))
                    } else {
                        arbitrary()
                    },
            ),
        }
    }

    /// The document without entries.
    pub open spec fn empty() -> DocumentView {
        DocumentView { entries: Seq::empty() }
    }

    /// Whether some entry has the key `key`.
    pub open spec fn contains_key(self, key: Seq<char>) -> bool {
        exists|i: int| 0 <= i < self.entries.len() && (#[trigger] self.entries[i]).0 == key
    }

    /// Whether `i` is the position of the first entry with the key `key`.
    pub open spec fn is_first(self, key: Seq<char>, i: int) -> bool {
        &&& 0 <= i < self.entries.len()
        &&& self.entries[i].0 == key
        &&& forall|j: int| 0 <= j < i ==> (#[trigger] self.entries[j]).0 != key
    }

    /// The position of the first entry with the key `key`, where there is
    /// one.
    pub open spec fn index_of(self, key: Seq<char>) -> int {
        choose|i: int| self.is_first(key, i)
    }

    /// The value stored under `key`, if any.
    pub open spec fn get(self, key: Seq<char>) -> Option<ValueView> {
        if self.contains_key(key) {
            Some(self.entries[self.index_of(key)].1)
        } else {
            None
        }
    }

    /// The document in which `key` holds `value`: the entry of that key is
    /// replaced in place, and a new key is appended as the last entry.
    pub open spec fn insert(self, key: Seq<char>, value: ValueView) -> DocumentView {
        if self.contains_key(key) {
            DocumentView { entries: self.entries.update(self.index_of(key), (key, value)) }
        } else {
            DocumentView { entries: self.entries.push((key, value)) }
        }
    }

    /// Whether no key occurs in two entries.
    pub open spec fn keys_distinct(self) -> bool {
        forall|i: int, j: int|
            0 <= i < j < self.entries.len() ==> (#[trigger] self.entries[i]).0 != (
            #[trigger] self.entries[j]).0
    }

    /// An entry with the key `key` at position `i` means that a first such
    /// entry exists at or before `i`.
    pub proof fn lemma_first_exists(self, key: Seq<char>, i: int)
        requires
            0 <= i < self.entries.len(),
            self.entries[i].0 == key,
        ensures
            self.is_first(key, self.index_of(key)),
            self.index_of(key) <= i,
        decreases i,
    {
        if exists|j: int| 0 <= j < i && (#[trigger] self.entries[j]).0 == key {
            let j = choose|j: int| 0 <= j < i && (#[trigger] self.entries[j]).0 == key;
            self.lemma_first_exists(key, j);
        } else {
            assert(self.is_first(key, i));
            let c = self.index_of(key);
            assert(self.is_first(key, c));
            if c > i {
                assert(self.entries[i].0 != key);
            }
        }
    }

    /// The first entry with a given key is at one position only.
    pub proof fn lemma_first_unique(self, key: Seq<char>, i: int)
        requires
            self.is_first(key, i),
        ensures
            self.contains_key(key),
            self.index_of(key) == i,
            self.get(key) == Some(self.entries[i].1),
    {
        let c = self.index_of(key);
        assert(self.is_first(key, c));
        if c < i {
            assert(self.entries[c].0 != key);
        }
        if i < c {
            assert(self.entries[i].0 != key);
        }
    }
}

impl DocumentView {
    /// After `key` was set to `value` the document holds `value` under
    /// `key`, and under every other key what it held before.
    pub proof fn lemma_insert_get(self, key: Seq<char>, value: ValueView, other: Seq<char>)
        ensures
            self.insert(key, value).get(key) == Some(value),
            other != key ==> self.insert(key, value).get(other) == self.get(other),
    {
        let after = self.insert(key, value);
        if self.contains_key(key) {
            let w = choose|w: int|
                0 <= w < self.entries.len() && (#[trigger] self.entries[w]).0 == key;
            self.lemma_first_exists(key, w);
            let k = self.index_of(key);
            assert(after.is_first(key, k)) by {
                assert forall|j: int| 0 <= j < k implies (#[trigger] after.entries[j]).0 != key by {
                    assert(self.entries[j].0 != key);
                }
            }
            after.lemma_first_unique(key, k);
        } else {
            let k = self.entries.len() as int;
            assert(after.is_first(key, k)) by {
                assert forall|j: int| 0 <= j < k implies (#[trigger] after.entries[j]).0 != key by {
                    assert(self.entries[j].0 != key);
                }
            }
            after.lemma_first_unique(key, k);
        }
        if other != key {
            if self.contains_key(other) {
                let w = choose|w: int|
                    0 <= w < self.entries.len() && (#[trigger] self.entries[w]).0 == other;
                self.lemma_first_exists(other, w);
                let k = self.index_of(other);
                assert(after.is_first(other, k)) by {
                    assert(after.entries[k] == self.entries[k]);
                    assert forall|j: int| 0 <= j < k implies (#[trigger] after.entries[j]).0
                        != other by {
                        assert(self.entries[j].0 != other);
                    }
                }
                after.lemma_first_unique(other, k);
            } else {
                if after.contains_key(other) {
                    let w = choose|w: int|
                        0 <= w < after.entries.len() && (#[trigger] after.entries[w]).0 == other;
                    if w < self.entries.len() {
                        assert(self.entries[w].0 == other);
                    }
                }
            }
        }
    }

    /// Setting a key adds an entry only where the key is new, and keeps the
    /// keys distinct.
    pub proof fn lemma_insert_keys(self, key: Seq<char>, value: ValueView)
        ensures
            self.contains_key(key) ==> self.insert(key, value).entries.len() == self.entries.len(),
            !self.contains_key(key) ==> self.insert(key, value).entries.len() == self.entries.len()
                + 1,
            self.keys_distinct() ==> self.insert(key, value).keys_distinct(),
    {
        let after = self.insert(key, value);
        if self.contains_key(key) {
            let w = choose|w: int|
                0 <= w < self.entries.len() && (#[trigger] self.entries[w]).0 == key;
            self.lemma_first_exists(key, w);
        }
        if self.keys_distinct() {
            assert forall|i: int, j: int| 0 <= i < j < after.entries.len() implies (
            #[trigger] after.entries[i]).0 != (#[trigger] after.entries[j]).0 by {
                if self.contains_key(key) {
                    assert(after.entries[i].0 == self.entries[i].0);
                    assert(after.entries[j].0 == self.entries[j].0);
                } else if j == self.entries.len() {
                    assert(self.entries[i].0 != key);
                } else {
                    assert(after.entries[i].0 == self.entries[i].0);
                    assert(after.entries[j].0 == self.entries[j].0);
                }
            }
        }
    }
}

impl Document {
    /// No key occurs in two entries.
    #[verifier::type_invariant]
    spec fn keys_never_repeat(self) -> bool {
        forall|i: int, j: int|
            0 <= i < j < self.entries@.len() ==> (#[trigger] self.entries@[i]).0@ != (
            #[trigger] self.entries@[j]).0@
    }

    /// Creates a document without entries.
    pub fn new() -> (document: Document)
        ensures
            document@ == DocumentView::empty(),
    {
        let document = Document { entries: Vec::new() };
        assert(document@.entries =~= Seq::empty());
        document
    }

    /// The number of entries. No key occurs twice among them.
    pub fn len(&self) -> (len: usize)
        ensures
            len == self@.entries.len(),
            self@.keys_distinct(),
    {
        proof {
            use_type_invariant(self);
        }
        self.entries.len()
    }

    /// The key and the value of the entry at position `index`, counted
    /// from zero in the document's order, or `None` past the last entry.
    pub fn entry(&self, index: usize) -> (entry: Option<(&String, &Value)>)
        ensures
            index >= self@.entries.len() ==> entry.is_none(),
            index < self@.entries.len() ==> entry.is_some() && entry.unwrap().0@
                == self@.entries[index as int].0 && entry.unwrap().1@
                == self@.entries[index as int].1,
    {
        if index < self.entries.len() {
            let pair = &self.entries[index];
            Some((&pair.0, &pair.1))
        } else {
            None
        }
    }

    /// The position of the entry with the key `key`, if there is one.
    fn position(&self, key: &String) -> (found: Option<usize>)
        ensures
            match found {
                Some(i) => self@.is_first(key@, i as int),
                None => !self@.contains_key(key@),
            },
    {
        let mut i: usize = 0;
        while i < self.entries.len()
            invariant
                i <= self.entries@.len(),
                forall|j: int| 0 <= j < i ==> (#[trigger] self@.entries[j]).0 != key@,
            decreases self.entries@.len() - i,
        {
            if self.entries[i].0 == *key {
                return Some(i);
            }
            i = i + 1;
        }
        None
    }

    /// The value stored under `key`, or `None` where the document has no
    /// such key.
    pub fn get_item(&self, key: &str) -> (found: Option<&Value>)
        ensures
            match found {
                Some(value) => self@.get(key@) == Some(value@),
                None => self@.get(key@).is_none(),
            },
    {
        let owned = key.to_owned();
        match self.position(&owned) {
            Some(i) => {
                proof {
                    self@.lemma_first_unique(key@, i as int);
                }
                Some(&self.entries[i].1)
            },
            None => None,
        }
    }

    /// Stores `value` under `key`. Where the key is already present its
    /// value is replaced and the entry keeps its place; a new key becomes
    /// the last entry.
    pub fn set_item(&mut self, key: &str, value: Value)
        ensures
            final(self)@ == old(self)@.insert(key@, value@),
    {
        let owned = key.to_owned();
        proof {
            use_type_invariant(&*self);
        }
        let found = self.position(&owned);
        let mut entries: Vec<(String, Value)> = Vec::new();
        std::mem::swap(&mut self.entries, &mut entries);
        match found {
            Some(i) => {
                proof {
                    old(self)@.lemma_first_unique(key@, i as int);
                }
                entries.set(i, (owned, value));
            },
            None => {
                entries.push((owned, value));
            },
        }
        proof {
            let before = old(self).entries@;
            assert forall|a: int, b: int| 0 <= a < b < entries@.len() implies (
            #[trigger] entries@[a]).0@ != (#[trigger] entries@[b]).0@ by {
                assert(forall|k: int|
                    0 <= k < before.len() ==> (#[trigger] old(self)@.entries[k]).0 == before[k].0@);
                match found {
                    Some(i) => {
                        assert(entries@[a].0@ == before[a].0@);
                        assert(entries@[b].0@ == before[b].0@);
                    },
                    None => {
                        if b == before.len() {
                            assert(old(self)@.entries[a].0 != key@);
                        }
                    },
                }
            }
        }
        self.entries = entries;
        proof {
            if found.is_some() {
                assert(self@.entries =~= old(self)@.entries.update(
                    found.unwrap() as int,
                    (key@, value@),
                ));
            } else {
                assert(self@.entries =~= old(self)@.entries.push((key@, value@)));
            }
        }
    }
}

impl View for Value {
    type V = ValueView;

    open spec fn view(&self) -> ValueView {
        ValueView::of(*self)
    }
}

impl View for Document {
    type V = DocumentView;

    open spec fn view(&self) -> DocumentView {
        DocumentView::of(*self)
    }
}

} // verus!
