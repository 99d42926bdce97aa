//! The two texts that stand for a person: the debug text, in the form in
//! which Rust prints a struct, and the display text.

use vstd::prelude::*;

use crate::record::{Person, PersonView};

verus! {

/// The character of the decimal digit `digit`.
pub open spec fn digit_char(digit: nat) -> char
    recommends
        digit < 10,
{
    if digit == 0 {
        '0'
    } else if digit == 1 {
        '1'
    } else if digit == 2 {
        '2'
    } else if digit == 3 {
        '3'
    } else if digit == 4 {
        '4'
    } else if digit == 5 {
        '5'
    } else if digit == 6 {
        '6'
    } else if digit == 7 {
        '7'
    } else if digit == 8 {
        '8'
    } else {
        '9'
    }
}

/// The decimal numeral of `number`, without leading zeros.
pub open spec fn decimal(number: nat) -> Seq<char>
    decreases number,
{
    if number < 10 {
        seq![digit_char(number)]
    } else {
        decimal(number / 10).push(digit_char(number % 10))
    }
}

/// The texts of `parts` in their order, with `separator` between each two.
pub open spec fn join(parts: Seq<Seq<char>>, separator: Seq<char>) -> Seq<char>
    decreases parts.len(),
{
    if parts.len() == 0 {
        Seq::empty()
    } else if parts.len() == 1 {
        parts[0]
    } else {
        join(parts.drop_last(), separator) + separator + parts.last()
    }
}

/// What each of `texts` holds.
pub open spec fn contents(texts: Seq<String>) -> Seq<Seq<char>> {
    Seq::new(texts.len(), |i: int| texts[i]@)
}

/// The text of one decimal digit.
fn digit_text(digit: u32) -> (text: &'static str)
    requires
        digit < 10,
    ensures
        text@ == seq![digit_char(digit as nat)],
{
    proof {
        reveal_strlit("0");
        reveal_strlit("1");
        reveal_strlit("2");
        reveal_strlit("3");
        reveal_strlit("4");
        reveal_strlit("5");
        reveal_strlit("6");
        reveal_strlit("7");
        reveal_strlit("8");
        reveal_strlit("9");
    }
    let text = if digit == 0 {
        "0"
    } else if digit == 1 {
        "1"
    } else if digit == 2 {
        "2"
    } else if digit == 3 {
        "3"
    } else if digit == 4 {
        "4"
    } else if digit == 5 {
        "5"
    } else if digit == 6 {
        "6"
    } else if digit == 7 {
        "7"
    } else if digit == 8 {
        "8"
    } else {
        "9"
    };
    assert(text@ =~= seq![digit_char(digit as nat)]);
    text
}

/// Writes `number` as a decimal numeral.
pub fn decimal_text(number: u32) -> (text: String)
    ensures
        text@ == decimal(number as nat),
    decreases number,
{
    if number < 10 {
        digit_text(number).to_owned()
    } else {
        let mut text = decimal_text(number / 10);
        let ghost front = text@;
        text.append(digit_text(number % 10));
        assert(text@ =~= front.push(digit_char((number % 10) as nat)));
        text
    }
}

/// Joins `parts` in their order, with `separator` between each two.
pub fn join_texts(parts: &Vec<String>, separator: &str) -> (text: String)
    ensures
        text@ == join(contents(parts@), separator@),
{
    let mut text = String::new();
    let mut i: usize = 0;
    while i < parts.len()
        invariant
            i <= parts@.len(),
            text@ == join(contents(parts@).take(i as int), separator@),
        decreases parts@.len() - i,
    {
        let ghost done = contents(parts@).take(i as int);
        let ghost next = contents(parts@).take(i + 1);
        assert(next.drop_last() =~= done);
        assert(next.last() == parts@[i as int]@);
        if i > 0 {
            text.append(separator);
        }
        text.append(parts[i].as_str());
        assert(text@ =~= join(next, separator@));
        i = i + 1;
    }
    assert(contents(parts@).take(i as int) =~= contents(parts@));
    text
}

/// The text in which Rust's `Debug` formatting gives a piece of text:
/// between double quotes, with the characters that cannot stand there as
/// they are written as escapes.
pub uninterp spec fn debug_quoted(text: Seq<char>) -> Seq<char>;

/// Formats `text` with the `Debug` implementation of `str`, through
/// `format!("{:?}", ..)`. The result is a function of the characters of
/// `text` alone; the contract gives it its name and claims nothing more.
#[verifier::external_body]
fn debug_quote(text: &str) -> (quoted: String)
    ensures
        quoted@ == debug_quoted(text@),
{
    format!("{:?}", text)
}

/// The debug text of a person whose name is written as `quoted_name`,
/// whose age is `age` and whose children have the debug texts `children`.
pub open spec fn debug_layout(quoted_name: Seq<char>, age: u32, children: Seq<Seq<char>>) -> Seq<
    char,
> {
    "Person { name: "@ + quoted_name + ", age: "@ + decimal(age as nat) + ", children: ["@ + join(
        children,
        ", "@,
    ) + "] }"@
}

/// The display text of a person of the name `name` and the age `age`
/// whose children have the display texts `children`.
pub open spec fn display_layout(name: Seq<char>, age: u32, children: Seq<Seq<char>>) -> Seq<char> {
    "Person(name="@ + name + ", age="@ + decimal(age as nat) + ", children=["@ + join(
        children,
        ", "@,
    ) + "])"@
}

/// The debug texts of the children of `person`, in their order.
pub open spec fn debug_texts(person: PersonView) -> Seq<Seq<char>>
    decreases person, 0nat,
{
    Seq::new(
        person.children.len(),
        |i: int|
            if 0 <= i < person.children.len() {
                debug_text(person.children[i])
            } else {
                arbitrary()
            },
    )
}

/// The debug text of `person`: that of a struct with the fields `name`,
/// `age` and `children`, the name quoted, the children in the same form.
pub open spec fn debug_text(person: PersonView) -> Seq<char>
    decreases person, 1nat,
{
    debug_layout(debug_quoted(person.name), person.age, debug_texts(person))
}

/// The display texts of the children of `person`, in their order.
pub open spec fn display_texts(person: PersonView) -> Seq<Seq<char>>
    decreases person, 0nat,
{
    Seq::new(
        person.children.len(),
        |i: int|
            if 0 <= i < person.children.len() {
                display_text(person.children[i])
            } else {
                arbitrary()
            },
    )
}

/// The display text of `person`: name and age as they are, and the
/// display texts of the children between square brackets.
pub open spec fn display_text(person: PersonView) -> Seq<char>
    decreases person, 1nat,
{
    display_layout(person.name, person.age, display_texts(person))
}

/// Puts a text together from seven pieces: three fixed pieces before and
/// between the name, the numeral of the age and the joined children, and
/// one after them.
fn frame(
    opening: &str,
    name: &str,
    before_age: &str,
    age: u32,
    before_children: &str,
    children: &Vec<String>,
    closing: &str,
) -> (text: String)
    ensures
        text@ == opening@ + name@ + before_age@ + decimal(age as nat) + before_children@ + join(
            contents(children@),
            ", "@,
        ) + closing@,
{
    let mut text = opening.to_owned();
    text.append(name);
    text.append(before_age);
    text.append(decimal_text(age).as_str());
    text.append(before_children);
    text.append(join_texts(children, ", ").as_str());
    text.append(closing);
    text
}

/// Writes the debug text of a person from the quoted name, the age and the
/// debug texts of the children.
pub fn format_debug(quoted_name: &str, age: u32, children: &Vec<String>) -> (text: String)
    ensures
        text@ == debug_layout(quoted_name@, age, contents(children@)),
{
    frame("Person { name: ", quoted_name, ", age: ", age, ", children: [", children, "] }")
}

/// Writes the display text of a person from the name, the age and the
/// display texts of the children.
pub fn format_display(name: &str, age: u32, children: &Vec<String>) -> (text: String)
    ensures
        text@ == display_layout(name@, age, contents(children@)),
{
    frame("Person(name=", name, ", age=", age, ", children=[", children, "])")
}

impl Person {
    /// The debug text of the person, as the derived `Debug` formatting
    /// prints it on one line.
    pub fn __repr__(&self) -> (text: String)
        ensures
            text@ == debug_text(self@),
        decreases self,
    {
        let mut children: Vec<String> = Vec::new();
        let mut i: usize = 0;
        while i < self.children.len()
            invariant
                i <= self.children@.len(),
                children@.len() == i,
                forall|j: int|
                    0 <= j < i ==> (#[trigger] children@[j])@ == debug_text(self@.children[j]),
            decreases self.children@.len() - i,
        {
            children.push(self.children[i].__repr__());
            i = i + 1;
        }
        let quoted = debug_quote(self.name.as_str());
        assert(contents(children@) =~= debug_texts(self@));
        format_debug(quoted.as_str(), self.age, &children)
    }

    /// The display text of the person.
    pub fn __str__(&self) -> (text: String)
        ensures
            text@ == display_text(self@),
        decreases self,
    {
        let mut children: Vec<String> = Vec::new();
        let mut i: usize = 0;
        while i < self.children.len()
            invariant
                i <= self.children@.len(),
                children@.len() == i,
                forall|j: int|
                    0 <= j < i ==> (#[trigger] children@[j])@ == display_text(self@.children[j]),
            decreases self.children@.len() - i,
        {
            children.push(self.children[i].__str__());
            i = i + 1;
        }
        assert(contents(children@) =~= display_texts(self@));
        format_display(self.name.as_str(), self.age, &children)
    }
}

} // verus!
