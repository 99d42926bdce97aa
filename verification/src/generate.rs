//! Generation of nested test data: trees of sample persons whose fan-out
//! at each node is drawn at random.

use rand::Rng;
use vstd::prelude::*;

use crate::record::{create_random_person, sample_person, Person, PersonView};

verus! {

/// Whether `person` is a tree that the generator can produce for the given
/// `depth` and `max_children`.
///
/// Every node is a sample person. With `depth` zero, or with no child
/// allowed, the tree is a single node. Otherwise the root has between one
/// and `max_children` children, each of them such a tree for `depth - 1`.
pub open spec fn nested_shape(person: PersonView, depth: nat, max_children: nat) -> bool
    decreases depth,
{
    &&& person.name == sample_person().name
    &&& person.age == sample_person().age
    &&& if depth == 0 || max_children == 0 {
        person.children.len() == 0
    } else {
        &&& 1 <= person.children.len() <= max_children
        &&& forall|i: int|
            0 <= i < person.children.len() ==> nested_shape(
                #[trigger] person.children[i],
                (depth - 1) as nat,
                max_children,
            )
    }
}

/// The chain of sample persons with `depth` levels below its root, each
/// person but the last with one child.
pub open spec fn chain(depth: nat) -> PersonView
    decreases depth,
{
    if depth == 0 {
        sample_person()
    } else {
        PersonView { children: seq![chain((depth - 1) as nat)], ..sample_person() }
    }
}

/// At depth zero, and where no child is allowed, the only tree of the
/// generator is the sample person alone.
pub proof fn lemma_shape_without_children(person: PersonView, depth: nat, max_children: nat)
    requires
        nested_shape(person, depth, max_children),
        depth == 0 || max_children == 0,
    ensures
        person == sample_person(),
{
    assert(person.children =~= sample_person().children);
}

/// Where one child is allowed, the only tree of the generator is the chain
/// of the given depth.
pub proof fn lemma_shape_with_one_child(person: PersonView, depth: nat)
    requires
        nested_shape(person, depth, 1),
    ensures
        person == chain(depth),
    decreases depth,
{
    if depth == 0 {
        lemma_shape_without_children(person, depth, 1);
    } else {
        lemma_shape_with_one_child(person.children[0], (depth - 1) as nat);
        assert(person.children =~= seq![chain((depth - 1) as nat)]);
    }
}

/// Where at least one child is allowed, every tree of the generator has
/// the height `depth`.
pub proof fn lemma_shape_height(person: PersonView, depth: nat, max_children: nat)
    requires
        nested_shape(person, depth, max_children),
        max_children >= 1,
    ensures
        person.height() == depth,
    decreases depth,
{
    if depth > 0 {
        assert forall|i: int| 0 <= i < person.children.len() implies (
        #[trigger] person.children[i]).height() == depth - 1 by {
            lemma_shape_height(person.children[i], (depth - 1) as nat, max_children);
        }
        lemma_greatest_of_equal_heights(
            person,
            person.children.len() as int,
            (depth - 1) as nat,
        );
    }
}

/// Among children that all have the same height, that height is the
/// greatest.
proof fn lemma_greatest_of_equal_heights(parent: PersonView, count: int, height: nat)
    requires
        1 <= count <= parent.children.len(),
        forall|i: int| 0 <= i < count ==> (#[trigger] parent.children[i]).height() == height,
    ensures
        PersonView::greatest_height(parent, count) == height,
    decreases count,
{
    if count > 1 {
        lemma_greatest_of_equal_heights(parent, count - 1, height);
    } else {
        assert(PersonView::greatest_height(parent, 0) == 0);
    }
}

/// Draws the number of children of one node with `rand::Rng::random_range`
/// on the thread's generator, `rand::rng`, over the inclusive range from
/// one to `max_children`. The call panics on an empty range, which the
/// precondition rules out; all that is claimed of the number drawn is that
/// it lies in the range.
#[verifier::external_body]
fn random_child_count(max_children: usize) -> (count: usize)
    requires
        max_children >= 1,
    ensures
        1 <= count <= max_children,
{
    rand::rng().random_range(1..=max_children)
}

/// Appends `count` generated subtrees to `person`, each of them a tree for
/// `child_depth`. The children that `person` already has are kept in front
/// of them.
pub fn attach_children(
    person: &mut Person,
    child_depth: usize,
    max_children: usize,
    count: usize,
)
    ensures
        final(person)@.name == old(person)@.name,
        final(person)@.age == old(person)@.age,
        final(person)@.children.len() == old(person)@.children.len() + count,
        final(person)@.children.take(old(person)@.children.len() as int) == old(person)@.children,
        forall|i: int|
            old(person)@.children.len() <= i < final(person)@.children.len() ==> nested_shape(
                #[trigger] final(person)@.children[i],
                child_depth as nat,
                max_children as nat,
            ),
    decreases child_depth + 1, 0nat,
{
    let ghost before = person@.children;
    assert(before.take(before.len() as int) =~= before);
    let mut added: usize = 0;
    while added < count
        invariant
            added <= count,
            person@.name == old(person)@.name,
            person@.age == old(person)@.age,
            before == old(person)@.children,
            person@.children.len() == before.len() + added,
            person@.children.take(before.len() as int) == before,
            forall|i: int|
                before.len() <= i < person@.children.len() ==> nested_shape(
                    #[trigger] person@.children[i],
                    child_depth as nat,
                    max_children as nat,
                ),
        decreases count - added,
    {
        let mut child = create_random_person();
        add_children(&mut child, child_depth, max_children);
        let ghost earlier = person@.children;
        person.add_child(child);
        assert(person@.children.take(before.len() as int) =~= earlier.take(before.len() as int));
        added = added + 1;
    }
}

/// Gives `person` its generated descendants. At `depth` zero, or where no
/// child is allowed, `person` is left as it is. Otherwise a random number
/// of children between one and `max_children` is appended, each a
/// generated tree for `depth - 1`.
pub fn add_children(person: &mut Person, depth: usize, max_children: usize)
    ensures
        final(person)@.name == old(person)@.name,
        final(person)@.age == old(person)@.age,
        final(person)@.children.take(old(person)@.children.len() as int) == old(person)@.children,
        depth == 0 || max_children == 0 ==> final(person)@ == old(person)@,
        depth > 0 && max_children > 0 ==> {
            &&& 1 <= final(person)@.children.len() - old(person)@.children.len() <= max_children
            &&& forall|i: int|
                old(person)@.children.len() <= i < final(person)@.children.len() ==> nested_shape(
                    #[trigger] final(person)@.children[i],
                    (depth - 1) as nat,
                    max_children as nat,
                )
        },
    decreases depth, 1nat,
{
    if depth == 0 || max_children == 0 {
        assert(person@.children.take(person@.children.len() as int) =~= person@.children);
        return ;
    }
    let count = random_child_count(max_children);
    attach_children(person, depth - 1, max_children, count);
}

/// Creates a tree of sample persons of the given depth, in which every
/// person above the last level has between one and `max_children`
/// children, as many as were drawn at random for it. With `max_children`
/// zero the tree is the root alone.
pub fn create_nested_person(depth: usize, max_children: usize) -> (root: Person)
    ensures
        nested_shape(root@, depth as nat, max_children as nat),
        depth == 0 || max_children == 0 ==> root@ == sample_person(),
        max_children == 1 ==> root@ == chain(depth as nat),
        max_children >= 1 ==> root@.height() == depth,
{
    let mut root = create_random_person();
    add_children(&mut root, depth, max_children);
    proof {
        if depth == 0 || max_children == 0 {
            lemma_shape_without_children(root@, depth as nat, max_children as nat);
        }
        if max_children == 1 {
            lemma_shape_with_one_child(root@, depth as nat);
        }
        if max_children >= 1 {
            lemma_shape_height(root@, depth as nat, max_children as nat);
        }
    }
    root
}

} // verus!
