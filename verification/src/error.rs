//! The reasons for which a document, or another input, is not accepted as
//! a person.

use vstd::prelude::*;

verus! {

/// One of the three fields that a document must hold to describe a person.
#[derive(Debug, Clone, Copy, PartialEq, Eq, Structural)]
pub enum Field {
    Name,
    Age,
    Children,
}

impl Field {
    /// The key under which the field stands in a document.
    pub open spec fn key_spec(self) -> Seq<char> {
        match self {
            Field::Name => "name"@,
            Field::Age => "age"@,
            Field::Children => "children"@,
        }
    }

    /// The key under which the field stands in a document.
    pub fn key(self) -> (key: &'static str)
        ensures
            key@ == self.key_spec(),
    {
        match self {
            Field::Name => "name",
            Field::Age => "age",
            Field::Children => "children",
        }
    }
}

/// Why an input was not accepted as a person.
#[derive(Debug, PartialEq, Eq)]
pub enum DecodeError {
    /// The document has no entry for the field.
    MissingField(Field),
    /// The document has an entry for the field, but its value is not of
    /// the kind that the field takes.
    TypeMismatch(Field),
    /// The child at position `index` of the `children` list was not
    /// accepted, for the reason `cause`; the children before it were.
    ChildDecodeFailure { index: usize, cause: Box<DecodeError> },
    /// The input is neither a person nor a document. The text describes
    /// what was handed in.
    UnsupportedInput(String),
}

/// The mathematical value of a [`DecodeError`].
pub ghost enum DecodeErrorView {
    MissingField(Field),
    TypeMismatch(Field),
    ChildDecodeFailure { index: nat, cause: Box<DecodeErrorView> },
    UnsupportedInput(Seq<char>),
}

impl DecodeErrorView {
    /// The value of `error`.
    pub open spec fn of(error: DecodeError) -> DecodeErrorView
        decreases error,
    {
        match error {
            DecodeError::MissingField(field) => DecodeErrorView::MissingField(field),
            DecodeError::TypeMismatch(field) => DecodeErrorView::TypeMismatch(field),
            DecodeError::ChildDecodeFailure { index, cause } => DecodeErrorView::ChildDecodeFailure {
                index: index as nat,
                cause: Box::new(DecodeErrorView::of(*cause)),
            },
            DecodeError::UnsupportedInput(text) => DecodeErrorView::UnsupportedInput(text@),
        }
    }
}

impl View for DecodeError {
    type V = DecodeErrorView;

    open spec fn view(&self) -> DecodeErrorView {
        DecodeErrorView::of(*self)
    }
}

} // verus!
