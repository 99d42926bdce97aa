//! Conversion between persons and documents, and the validating
//! constructor that accepts a person, a document, or anything else.

use vstd::prelude::*;

use crate::document::{Document, DocumentView, Value, ValueView};
use crate::error::{DecodeError, DecodeErrorView, Field};
use crate::record::{Person, PersonView};

verus! {

/// What the validating constructor is handed: a person, a document, or
/// something that is neither.
#[derive(Debug)]
pub enum Input {
    /// A person that exists already.
    Record(Person),
    /// A document that is to be read as a person.
    Document(Document),
    /// Anything else, given by a text that describes it.
    Other(String),
}

/// The documents that describe the children of `person`, in their order,
/// as the items of a list.
pub open spec fn encode_children(person: PersonView) -> Seq<ValueView>
    decreases person, 0nat,
{
    Seq::new(
        person.children.len(),
        |i: int|
            if 0 <= i < person.children.len() {
                ValueView::Document(encode(person.children[i]))
            } else {
                arbitrary()
            },
    )
}

/// The document that describes `person`: its name, its age and the list of
/// the documents that describe its children, under their three keys and in
/// that order.
pub open spec fn encode(person: PersonView) -> DocumentView
    decreases person, 1nat,
{
    DocumentView {
        entries: seq![
            (Field::Name.key_spec(), ValueView::Text(person.name)),
            (Field::Age.key_spec(), ValueView::Integer(person.age as i64)),
            (Field::Children.key_spec(), ValueView::List(encode_children(person))),
        ],
    }
}

/// The name that `document` gives, or why it gives none.
pub open spec fn decode_name(document: DocumentView) -> Result<Seq<char>, DecodeErrorView> {
    match document.get(Field::Name.key_spec()) {
        None => Err(DecodeErrorView::MissingField(Field::Name)),
        Some(ValueView::Text(name)) => Ok(name),
        Some(_) => Err(DecodeErrorView::TypeMismatch(Field::Name)),
    }
}

/// The age that `document` gives, or why it gives none: the entry must be
/// an integer that is not negative and not above the largest age.
pub open spec fn decode_age(document: DocumentView) -> Result<u32, DecodeErrorView> {
    match document.get(Field::Age.key_spec()) {
        None => Err(DecodeErrorView::MissingField(Field::Age)),
        Some(ValueView::Integer(age)) => if 0 <= age <= u32::MAX {
            Ok(age as u32)
        } else {
            Err(DecodeErrorView::TypeMismatch(Field::Age))
        },
        Some(_) => Err(DecodeErrorView::TypeMismatch(Field::Age)),
    }
}

/// The documents of the children that `document` lists, or why it lists
/// none: the entry must be a list, and each of its items a document.
pub open spec fn child_documents(document: DocumentView) -> Result<
    Seq<DocumentView>,
    DecodeErrorView,
> {
    match document.get(Field::Children.key_spec()) {
        None => Err(DecodeErrorView::MissingField(Field::Children)),
        Some(ValueView::List(items)) => if forall|i: int|
            0 <= i < items.len() ==> #[trigger] items[i] is Document {
            Ok(Seq::new(items.len(), |i: int| items[i]->Document_0))
        } else {
            Err(DecodeErrorView::TypeMismatch(Field::Children))
        },
        Some(_) => Err(DecodeErrorView::TypeMismatch(Field::Children)),
    }
}

/// Each child document that `document` lists is a part of `document`.
pub proof fn lemma_child_documents_decrease(document: DocumentView, i: int)
    requires
        child_documents(document) is Ok,
        0 <= i < child_documents(document)->Ok_0.len(),
    ensures
        decreases_to!(document => child_documents(document)->Ok_0[i]),
{
    let key = Field::Children.key_spec();
    let w = choose|w: int| 0 <= w < document.entries.len() && (#[trigger] document.entries[w]).0 == key;
    document.lemma_first_exists(key, w);
    let k = document.index_of(key);
    let items = document.entries[k].1->List_0;
    assert(decreases_to!(document => document.entries));
    assert(decreases_to!(document.entries => document.entries[k]));
    assert(decreases_to!(document.entries[k] => document.entries[k].1));
    assert(decreases_to!(document.entries[k].1 => items));
    assert(decreases_to!(items => items[i]));
    assert(decreases_to!(items[i] => items[i]->Document_0));
}

/// Whether `i` is the position of the first failure among `results`.
pub open spec fn is_first_failure(results: Seq<Result<PersonView, DecodeErrorView>>, i: int) -> bool {
    &&& 0 <= i < results.len()
    &&& results[i] is Err
    &&& forall|j: int| 0 <= j < i ==> (#[trigger] results[j]) is Ok
}

/// The children decoded from the results for the single child documents:
/// all of them where every child was accepted, else the failure of the
/// first child that was not, with its position.
pub open spec fn collect_children(results: Seq<Result<PersonView, DecodeErrorView>>) -> Result<
    Seq<PersonView>,
    DecodeErrorView,
> {
    if exists|i: int| is_first_failure(results, i) {
        let i = choose|i: int| is_first_failure(results, i);
        Err(
            DecodeErrorView::ChildDecodeFailure {
                index: i as nat,
                cause: Box::new(results[i]->Err_0),
            },
        )
    } else {
        Ok(Seq::new(results.len(), |i: int| results[i]->Ok_0))
    }
}

/// What each child document that `document` lists decodes to, in the
/// order of the list.
pub open spec fn child_results(document: DocumentView) -> Seq<Result<PersonView, DecodeErrorView>>
    decreases document, 0nat,
{
    match child_documents(document) {
        Err(_) => Seq::empty(),
        Ok(documents) => Seq::new(
            documents.len(),
            |i: int|
                if 0 <= i < documents.len() {
                    proof {
                        lemma_child_documents_decrease(document, i);
                    }
                    decode(documents[i])
                } else {
                    arbitrary()
                },
        ),
    }
}

/// The person that `document` describes, or the reason for which it
/// describes none. The fields are read in the order name, age, children,
/// and the first one that is missing or of the wrong kind decides the
/// error; the children are then decoded in their order.
pub open spec fn decode(document: DocumentView) -> Result<PersonView, DecodeErrorView>
    decreases document, 1nat,
{
    match decode_name(document) {
        Err(error) => Err(error),
        Ok(name) => match decode_age(document) {
            Err(error) => Err(error),
            Ok(age) => match child_documents(document) {
                Err(error) => Err(error),
                Ok(_) => match collect_children(child_results(document)) {
                    Err(error) => Err(error),
                    Ok(children) => Ok(PersonView { name, age, children }),
                },
            },
        },
    }
}

/// Where a first failure stands among `results`, it is at one position
/// only, and `collect_children` reports it.
pub proof fn lemma_first_failure(results: Seq<Result<PersonView, DecodeErrorView>>, i: int)
    requires
        is_first_failure(results, i),
    ensures
        collect_children(results) == Err::<Seq<PersonView>, DecodeErrorView>(
            DecodeErrorView::ChildDecodeFailure {
                index: i as nat,
                cause: Box::new(results[i]->Err_0),
            },
        ),
{
    let c = choose|c: int| is_first_failure(results, c);
    if c < i {
        assert(results[c] is Ok);
    }
    if i < c {
        assert(results[i] is Ok);
    }
}

/// Where no child failed, `collect_children` gives the children in order.
pub proof fn lemma_no_failure(results: Seq<Result<PersonView, DecodeErrorView>>)
    requires
        forall|i: int| 0 <= i < results.len() ==> (#[trigger] results[i]) is Ok,
    ensures
        collect_children(results) == Ok::<Seq<PersonView>, DecodeErrorView>(
            Seq::new(results.len(), |i: int| results[i]->Ok_0),
        ),
{
    if exists|i: int| is_first_failure(results, i) {
        let i = choose|i: int| is_first_failure(results, i);
        assert(results[i] is Ok);
    }
}

/// The three keys differ from one another.
pub proof fn lemma_keys_differ()
    ensures
        Field::Name.key_spec() != Field::Age.key_spec(),
        Field::Name.key_spec() != Field::Children.key_spec(),
        Field::Age.key_spec() != Field::Children.key_spec(),
{
    reveal_strlit("name");
    reveal_strlit("age");
    reveal_strlit("children");
    assert("name"@.len() == 4);
    assert("age"@.len() == 3);
    assert("children"@.len() == 8);
}

/// What the three fields of an encoded person read back as.
pub proof fn lemma_encode_fields(person: PersonView)
    ensures
        encode(person).get(Field::Name.key_spec()) == Some(ValueView::Text(person.name)),
        encode(person).get(Field::Age.key_spec()) == Some(
            ValueView::Integer(person.age as i64),
        ),
        encode(person).get(Field::Children.key_spec()) == Some(
            ValueView::List(encode_children(person)),
        ),
        encode(person).keys_distinct(),
{
    lemma_keys_differ();
    let document = encode(person);
    document.lemma_first_unique(Field::Name.key_spec(), 0);
    document.lemma_first_unique(Field::Age.key_spec(), 1);
    document.lemma_first_unique(Field::Children.key_spec(), 2);
}

impl Person {
    /// Converts the person, with all its descendants, to a document: the
    /// one that [`Person::from_dict`] reads back as this person.
    pub fn to_dict(&self) -> (dict: Document)
        ensures
            dict@ == encode(self@),
            decode(dict@) == Ok::<PersonView, DecodeErrorView>(self@),
        decreases self,
    {
        let mut dict = Document::new();
        dict.set_item(Field::Name.key(), Value::Text(self.name.clone()));
        dict.set_item(Field::Age.key(), Value::Integer(self.age as i64));
        let mut items: Vec<Value> = Vec::new();
        let mut i: usize = 0;
        while i < self.children.len()
            invariant
                i <= self.children@.len(),
                items@.len() == i,
                forall|j: int|
                    0 <= j < i ==> (#[trigger] items@[j])@ == ValueView::Document(
                        encode(self.children@[j]@),
                    ),
            decreases self.children@.len() - i,
        {
            let child = self.children[i].to_dict();
            items.push(Value::Document(child));
            i = i + 1;
        }
        let ghost listed = Value::List(items)@;
        dict.set_item(Field::Children.key(), Value::List(items));
        proof {
            lemma_keys_differ();
            let name = (Field::Name.key_spec(), ValueView::Text(self@.name));
            let age = (Field::Age.key_spec(), ValueView::Integer(self.age as i64));
            let children = (Field::Children.key_spec(), listed);
            let one = DocumentView::empty().insert(name.0, name.1);
            assert(one.entries =~= seq![name]);
            let two = one.insert(age.0, age.1);
            assert(two.entries =~= seq![name, age]);
            let three = two.insert(children.0, children.1);
            assert(three.entries =~= seq![name, age, children]);
            assert(listed->List_0 =~= encode_children(self@));
            assert(dict@.entries =~= encode(self@).entries);
            lemma_round_trip(self@);
        }
        dict
    }
}

impl Person {
    /// Reads a person, with all its descendants, from a document.
    ///
    /// The document must hold text under `name`, an integer in the range
    /// of an age under `age`, and a list of documents under `children`.
    /// The fields are looked at in that order. Every listed child is read
    /// in the same way, and the first one that fails ends the reading.
    /// Other entries of the document are ignored.
    #[verifier::loop_isolation(false)]
    pub fn from_dict(dict: &Document) -> (res: Result<Person, DecodeError>)
        ensures
            match res {
                Ok(person) => decode(dict@) == Ok::<PersonView, DecodeErrorView>(person@),
                Err(error) => decode(dict@) == Err::<PersonView, DecodeErrorView>(error@),
            },
        decreases dict@,
    {
        let name = match dict.get_item(Field::Name.key()) {
            None => {
                return Err(DecodeError::MissingField(Field::Name));
            },
            Some(Value::Text(text)) => text.clone(),
            Some(_) => {
                return Err(DecodeError::TypeMismatch(Field::Name));
            },
        };
        let age: u32 = match dict.get_item(Field::Age.key()) {
            None => {
                return Err(DecodeError::MissingField(Field::Age));
            },
            Some(Value::Integer(number)) => {
                if 0 <= *number && *number <= u32::MAX as i64 {
                    *number as u32
                } else {
                    return Err(DecodeError::TypeMismatch(Field::Age));
                }
            },
            Some(_) => {
                return Err(DecodeError::TypeMismatch(Field::Age));
            },
        };
        let items = match dict.get_item(Field::Children.key()) {
            None => {
                return Err(DecodeError::MissingField(Field::Children));
            },
            Some(Value::List(items)) => items,
            Some(_) => {
                return Err(DecodeError::TypeMismatch(Field::Children));
            },
        };
        let ghost listed = dict@.get(Field::Children.key_spec())->Some_0->List_0;
        assert(listed.len() == items@.len());
        assert(forall|j: int| 0 <= j < items@.len() ==> #[trigger] listed[j] == items@[j]@);
        let mut documents: Vec<&Document> = Vec::new();
        let mut i: usize = 0;
        while i < items.len()
            invariant
                i <= items@.len(),
                documents@.len() == i,
                forall|j: int|
                    0 <= j < i ==> #[trigger] listed[j] == ValueView::Document(documents@[j]@),
            decreases items@.len() - i,
        {
            match &items[i] {
                Value::Document(document) => {
                    documents.push(document);
                },
                _ => {
                    assert(!(listed[i as int] is Document));
                    return Err(DecodeError::TypeMismatch(Field::Children));
                },
            }
            i = i + 1;
        }
        let ghost described = child_documents(dict@)->Ok_0;
        assert(child_documents(dict@) is Ok);
        assert(described.len() == documents@.len());
        assert(forall|j: int| 0 <= j < described.len() ==> #[trigger] described[j] == documents@[j]@);
        let ghost results = child_results(dict@);
        assert(results.len() == described.len());
        assert(forall|j: int|
            0 <= j < described.len() ==> #[trigger] results[j] == decode(described[j]));
        let mut children: Vec<Person> = Vec::new();
        let mut i: usize = 0;
        while i < documents.len()
            invariant
                i <= documents@.len(),
                children@.len() == i,
                forall|j: int|
                    0 <= j < i ==> #[trigger] results[j] == Ok::<PersonView, DecodeErrorView>(
                        children@[j]@,
                    ),
            decreases documents@.len() - i,
        {
            proof {
                lemma_child_documents_decrease(dict@, i as int);
            }
            assert(results[i as int] == decode(documents@[i as int]@));
            match Person::from_dict(documents[i]) {
                Ok(child) => {
                    children.push(child);
                },
                Err(cause) => {
                    proof {
                        assert(is_first_failure(results, i as int));
                        lemma_first_failure(results, i as int);
                    }
                    return Err(DecodeError::ChildDecodeFailure { index: i, cause: Box::new(cause) });
                },
            }
            i = i + 1;
        }
        let person = Person { name, age, children };
        proof {
            lemma_no_failure(results);
            assert(person@.children =~= Seq::new(results.len(), |j: int| results[j]->Ok_0));
        }
        Ok(person)
    }
}

impl Person {
    /// Makes a person of whatever is handed in, or says why none can be
    /// made.
    ///
    /// A person is handed back as it is: it is not looked into, and none
    /// of its descendants is checked again. A document is read with
    /// [`Person::from_dict`]. Anything else is refused, and the error
    /// carries the text that describes it.
    pub fn validate(value: Input) -> (res: Result<Person, DecodeError>)
        ensures
            match value {
                Input::Record(person) => res == Ok::<Person, DecodeError>(person),
                Input::Document(dict) => match res {
                    Ok(person) => decode(dict@) == Ok::<PersonView, DecodeErrorView>(person@),
                    Err(error) => decode(dict@) == Err::<PersonView, DecodeErrorView>(error@),
                },
                Input::Other(text) => res == Err::<Person, DecodeError>(
                    DecodeError::UnsupportedInput(text),
                ),
            },
    {
        match value {
            Input::Record(person) => Ok(person),
            Input::Document(dict) => Person::from_dict(&dict),
            Input::Other(text) => Err(DecodeError::UnsupportedInput(text)),
        }
    }
}

/// Encoding a person and decoding the document again gives the person
/// back, with every descendant.
pub proof fn lemma_round_trip(person: PersonView)
    ensures
        decode(encode(person)) == Ok::<PersonView, DecodeErrorView>(person),
    decreases person,
{
    let document = encode(person);
    lemma_encode_fields(person);
    let listed = encode_children(person);
    assert(listed.len() == person.children.len());
    let described = child_documents(document)->Ok_0;
    assert(child_documents(document) is Ok);
    assert(described.len() == person.children.len());
    let results = child_results(document);
    assert(results.len() == person.children.len());
    assert forall|i: int| 0 <= i < results.len() implies #[trigger] results[i] == Ok::<
        PersonView,
        DecodeErrorView,
    >(person.children[i]) by {
        assert(described[i] == encode(person.children[i]));
        lemma_round_trip(person.children[i]);
    }
    lemma_no_failure(results);
    assert(Seq::new(results.len(), |i: int| results[i]->Ok_0) =~= person.children);
}

/// Encoding keeps the order of the children: the document of the child at
/// position `i` is the item at position `i` of the `children` list, and
/// decoding the document of the person gives that child back at position
/// `i`.
pub proof fn lemma_encode_keeps_child_order(person: PersonView, i: int)
    requires
        0 <= i < person.children.len(),
    ensures
        child_documents(encode(person)) is Ok,
        child_documents(encode(person))->Ok_0.len() == person.children.len(),
        child_documents(encode(person))->Ok_0[i] == encode(person.children[i]),
        decode(encode(person)) is Ok,
        decode(encode(person))->Ok_0.children.len() == person.children.len(),
        decode(encode(person))->Ok_0.children[i] == person.children[i],
{
    lemma_encode_fields(person);
    lemma_round_trip(person);
    assert(encode_children(person).len() == person.children.len());
}

/// Decoding keeps the order of the children: where a document is accepted,
/// the child at position `i` of the person is what the item at position
/// `i` of its `children` list decodes to.
pub proof fn lemma_decode_keeps_child_order(document: DocumentView, i: int)
    requires
        decode(document) is Ok,
        0 <= i < decode(document)->Ok_0.children.len(),
    ensures
        child_documents(document) is Ok,
        child_documents(document)->Ok_0.len() == decode(document)->Ok_0.children.len(),
        decode(child_documents(document)->Ok_0[i]) == Ok::<PersonView, DecodeErrorView>(
            decode(document)->Ok_0.children[i],
        ),
{
    let results = child_results(document);
    assert(results.len() == child_documents(document)->Ok_0.len());
    assert(results[i] == decode(child_documents(document)->Ok_0[i]));
    if exists|k: int| is_first_failure(results, k) {
        let k = choose|k: int| is_first_failure(results, k);
        lemma_first_failure(results, k);
    } else {
        assert(collect_children(results)->Ok_0.len() == results.len());
        if results[i] is Err {
            lemma_some_failure_is_first(results, i);
        }
    }
}

/// Where some result is a failure, one of them is the first.
proof fn lemma_some_failure_is_first(results: Seq<Result<PersonView, DecodeErrorView>>, i: int)
    requires
        0 <= i < results.len(),
        results[i] is Err,
    ensures
        exists|k: int| is_first_failure(results, k),
    decreases i,
{
    if exists|j: int| 0 <= j < i && (#[trigger] results[j]) is Err {
        let j = choose|j: int| 0 <= j < i && (#[trigger] results[j]) is Err;
        lemma_some_failure_is_first(results, j);
    } else {
        assert(is_first_failure(results, i));
    }
}

/// A document that gives a name and has no entry for the age is refused
/// for the missing age, whatever it holds for the children.
pub proof fn lemma_missing_age(document: DocumentView)
    requires
        decode_name(document) is Ok,
        !document.contains_key(Field::Age.key_spec()),
    ensures
        decode(document) == Err::<PersonView, DecodeErrorView>(
            DecodeErrorView::MissingField(Field::Age),
        ),
{
}

} // verus!
