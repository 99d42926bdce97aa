//! The record type: a person with a name, an age and an ordered list of
//! children, each of which is again a person.

use vstd::prelude::*;
use vstd::std_specs::cmp::PartialEqSpecImpl;

verus! {

/// A person and the subtree of that person's descendants.
///
/// Every person owns its children, so a value of this type is always a
/// finite tree.
#[derive(Debug, Eq)]
pub struct Person {
    /// The person's name. Any text is accepted.
    pub name: String,
    /// The person's age.
    pub age: u32,
    /// The person's children, in the order in which they were added.
    pub children: Vec<Person>,
}

/// The mathematical value of a [`Person`]: what two persons must agree on
/// to count as the same person.
pub ghost struct PersonView {
    pub name: Seq<char>,
    pub age: u32,
    pub children: Seq<PersonView>,
}

impl PersonView {
    /// The value of `person`: its name and age, and the values of its
    /// children in their order.
    pub open spec fn of(person: Person) -> PersonView
        decreases person,
    {
        PersonView {
            name: person.name@,
            age: person.age,
            children: Seq::new(
                person.children@.len(),
                |i: int|
                    if 0 <= i < person.children@.len() {
                        PersonView::of(person.children@[i])
                    } else {
                        arbitrary()
                    },
            ),
        }
    }

    /// The number of levels below the person: zero for a person without
    /// children, else one more than the greatest height among the
    /// children.
    pub open spec fn height(self) -> nat
        decreases self, 1nat,
    {
        if self.children.len() == 0 {
            0
        } else {
            1 + PersonView::greatest_height(self, self.children.len() as int)
        }
    }

    /// The greatest height among the first `count` children of `parent`,
    /// or zero for none.
    pub open spec fn greatest_height(parent: PersonView, count: int) -> nat
        decreases parent, 0nat, count,
    {
        if count <= 0 || count > parent.children.len() {
            0
        } else {
            let rest = PersonView::greatest_height(parent, count - 1);
            let last = parent.children[count - 1].height();
            if last > rest {
                last
            } else {
                rest
            }
        }
    }
}

impl View for Person {
    type V = PersonView;

    open spec fn view(&self) -> PersonView {
        PersonView::of(*self)
    }
}

/// Creates a person without children.
pub fn new_person(name: String, age: u32) -> (person: Person)
    ensures
        person@ == (PersonView { name: name@, age, children: Seq::empty() }),
{
    let person = Person { name, age, children: Vec::new() };
    assert(person@.children =~= Seq::empty());
    person
}

/// Creates the person with which every generated tree is filled: a
/// childless person of fixed name and age.
pub fn create_random_person() -> (person: Person)
    ensures
        person@ == sample_person(),
{
    new_person("John".to_string(), 30)
}

/// The value of the person that [`create_random_person`] returns.
pub open spec fn sample_person() -> PersonView {
    PersonView { name: "John"@, age: 30, children: Seq::empty() }
}

impl Person {
    /// Appends `child` as the last child of this person. The children
    /// that were there before keep their places.
    pub fn add_child(&mut self, child: Person)
        ensures
            final(self)@ == (PersonView {
                children: old(self)@.children.push(child@),
                ..old(self)@
            }),
    {
        self.children.push(child);
        assert(self@.children =~= old(self)@.children.push(child@));
    }
}

/// Two persons are the same exactly if they have the same name, the same
/// age and as many children, and the children at each position are the
/// same.
pub proof fn lemma_equal_iff_same_fields(a: PersonView, b: PersonView)
    ensures
        a == b <==> {
            &&& a.name == b.name
            &&& a.age == b.age
            &&& a.children.len() == b.children.len()
            &&& forall|i: int| 0 <= i < a.children.len() ==> a.children[i] == b.children[i]
        },
{
    if a.name == b.name && a.age == b.age && a.children.len() == b.children.len() && (forall|
        i: int,
    |
        0 <= i < a.children.len() ==> a.children[i] == b.children[i]) {
        assert(a.children =~= b.children);
    }
}

/// The order of the children counts: a person in which two children that
/// differ have changed places is another person.
pub proof fn lemma_swapped_children_differ(person: PersonView, i: int, j: int)
    requires
        0 <= i < person.children.len(),
        0 <= j < person.children.len(),
        person.children[i] != person.children[j],
    ensures
        (PersonView {
            children: person.children.update(i, person.children[j]).update(j, person.children[i]),
            ..person
        }) != person,
{
    let swapped = person.children.update(i, person.children[j]).update(j, person.children[i]);
    assert(swapped[j] == person.children[i]);
}

impl PartialEq for Person {
    /// Whether the two persons have the same name, the same age and, in
    /// the same order, the same children.
    fn eq(&self, other: &Person) -> (equal: bool)
        decreases self,
    {
        if !(self.name == other.name) || self.age != other.age {
            return false;
        }
        if self.children.len() != other.children.len() {
            assert(self@.children.len() != other@.children.len());
            return false;
        }
        let mut i: usize = 0;
        while i < self.children.len()
            invariant
                i <= self.children@.len(),
                self.children@.len() == other.children@.len(),
                forall|j: int| 0 <= j < i ==> (#[trigger] self@.children[j]) == other@.children[j],
            decreases self.children@.len() - i,
        {
            if !self.children[i].eq(&other.children[i]) {
                assert(self@.children[i as int] != other@.children[i as int]);
                return false;
            }
            i = i + 1;
        }
        assert(self@.children =~= other@.children);
        true
    }
}

impl PartialEqSpecImpl for Person {
    open spec fn obeys_eq_spec() -> bool {
        true
    }

    open spec fn eq_spec(&self, other: &Person) -> bool {
        self@ == other@
    }
}

impl Clone for Person {
    /// A copy of the person with copies of all its descendants.
    fn clone(&self) -> (copy: Person)
        ensures
            copy@ == self@,
        decreases self,
    {
        let mut children: Vec<Person> = Vec::new();
        let mut i: usize = 0;
        while i < self.children.len()
            invariant
                i <= self.children@.len(),
                children@.len() == i,
                forall|j: int| 0 <= j < i ==> (#[trigger] children@[j])@ == self.children@[j]@,
            decreases self.children@.len() - i,
        {
            children.push(self.children[i].clone());
            i = i + 1;
        }
        let copy = Person { name: self.name.clone(), age: self.age, children };
        assert(copy@.children =~= self@.children);
        copy
    }
}

} // verus!
