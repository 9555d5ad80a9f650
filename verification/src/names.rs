//! Which names a directory listing holds: the children that are shown, and
//! the two names that stand for the directory itself and its parent.

use crate::text::texts;
use vstd::prelude::*;

verus! {

/// The name that stands for the directory itself.
pub open spec fn dot() -> Seq<char> {
    seq!['.']
}

/// The name that stands for the parent directory.
pub open spec fn dot_dot() -> Seq<char> {
    seq!['.', '.']
}

/// A name is hidden when it starts with a dot.
pub open spec fn is_hidden_name(name: Seq<char>) -> bool {
    name.len() > 0 && name[0] == '.'
}

/// Whether `name` is hidden.
pub fn is_hidden(name: &str) -> (hidden: bool)
    ensures
        hidden == is_hidden_name(name@),
{
    let mut rest = name.chars();
    let first = rest.next();
    first == Some('.')
}

/// Whether `name` is one of the two names that stand for the directory
/// itself and its parent.
pub fn is_pseudo_name(name: &str) -> (pseudo: bool)
    ensures
        pseudo == (name@ == dot() || name@ == dot_dot()),
{
    let mut rest = name.chars();
    let first = rest.next();
    let second = rest.next();
    let third = rest.next();
    let pseudo = first == Some('.') && (second.is_none() || (second == Some('.') && third.is_none()));
    proof {
        if pseudo {
            assert(name@ =~= dot() || name@ =~= dot_dot());
        }
    }
    pseudo
}

/// What reading the children of a directory gave, as texts: the name of
/// each child that was read, and nothing for a child whose read failed.
pub open spec fn child_texts(children: Seq<Option<String>>) -> Seq<Option<Seq<char>>> {
    Seq::new(
        children.len(),
        |i: int|
            match children[i] {
                Some(name) => Some(name@),
                None => None,
            },
    )
}

/// A child is shown unless it is hidden and hidden names are not asked for.
pub open spec fn is_shown(name: Seq<char>, show_hidden: bool) -> bool {
    show_hidden || !is_hidden_name(name)
}

/// The names of the children that are shown, in the order in which they
/// were read. A child whose read failed is passed over.
pub open spec fn shown_children(children: Seq<Option<Seq<char>>>, show_hidden: bool) -> Seq<Seq<char>>
    decreases children.len(),
{
    if children.len() == 0 {
        Seq::empty()
    } else {
        let before = shown_children(children.drop_last(), show_hidden);
        match children.last() {
            Some(name) => if is_shown(name, show_hidden) {
                before.push(name)
            } else {
                before
            },
            None => before,
        }
    }
}

/// The names that are added to every listing of a directory: the directory
/// itself and its parent where hidden names are asked for, else none.
pub open spec fn pseudo_names(show_hidden: bool) -> Seq<Seq<char>> {
    if show_hidden {
        seq![dot(), dot_dot()]
    } else {
        Seq::empty()
    }
}

/// The names that a listing of a directory holds, before they are sorted.
pub open spec fn listed_names(children: Seq<Option<Seq<char>>>, show_hidden: bool) -> Seq<Seq<char>> {
    pseudo_names(show_hidden) + shown_children(children, show_hidden)
}

/// The names of the children that were read.
pub open spec fn child_set(children: Seq<Option<Seq<char>>>) -> Set<Seq<char>> {
    Set::new(|name: Seq<char>| children.contains(Some(name)))
}

/// The names that a listing of a directory holds, before they are sorted:
/// `.` and `..` where hidden names are asked for, then each child that was
/// read and is shown.
pub fn collect_names(children: &Vec<Option<String>>, show_hidden: bool) -> (names: Vec<String>)
    ensures
        texts(names@) == listed_names(child_texts(children@), show_hidden),
{
    let mut names: Vec<String> = Vec::new();
    if show_hidden {
        proof {
            reveal_strlit(".");
            reveal_strlit("..");
        }
        names.push(String::from_str("."));
        names.push(String::from_str(".."));
        assert(names[0]@ =~= dot());
        assert(names[1]@ =~= dot_dot());
    }
    assert(texts(names@) =~= pseudo_names(show_hidden));
    let ghost read = child_texts(children@);
    let mut i: usize = 0;
    while i < children.len()
        invariant
            i <= children.len(),
            read == child_texts(children@),
            texts(names@) == pseudo_names(show_hidden) + shown_children(
                read.take(i as int),
                show_hidden,
            ),
        decreases children.len() - i,
    {
        let ghost before = texts(names@);
        assert(read.take(i + 1).drop_last() =~= read.take(i as int));
        assert(read.take(i + 1).last() == read[i as int]);
        match &children[i] {
            Some(name) => {
                if show_hidden || !is_hidden(name.as_str()) {
                    names.push(name.clone());
                    assert(texts(names@) =~= before.push(name@));
                }
            },
            None => {},
        }
        assert(texts(names@) =~= pseudo_names(show_hidden) + shown_children(
            read.take(i + 1),
            show_hidden,
        ));
        i += 1;
    }
    assert(read.take(i as int) =~= read);
    names
}

/// The children that are shown are the children that were read and pass
/// the rule on hidden names.
pub proof fn lemma_shown_children_are_filtered(
    children: Seq<Option<Seq<char>>>,
    show_hidden: bool,
    name: Seq<char>,
)
    ensures
        shown_children(children, show_hidden).contains(name) <==> children.contains(Some(name))
            && is_shown(name, show_hidden),
    decreases children.len(),
{
    if children.len() > 0 {
        let front = children.drop_last();
        let before = shown_children(front, show_hidden);
        lemma_shown_children_are_filtered(front, show_hidden, name);
        let after = shown_children(children, show_hidden);
        if children.contains(Some(name)) {
            let i = choose|i: int| 0 <= i < children.len() && children[i] == Some(name);
            if i < front.len() {
                assert(front[i] == Some(name));
            }
        }
        if front.contains(Some(name)) {
            let i = choose|i: int| 0 <= i < front.len() && front[i] == Some(name);
            assert(children[i] == Some(name));
        }
        if children.last() == Some(name) {
            assert(children[children.len() - 1] == Some(name));
        }
        if before.contains(name) {
            let i = choose|i: int| 0 <= i < before.len() && before[i] == name;
            assert(after[i] == name);
        }
        if after.contains(name) {
            let i = choose|i: int| 0 <= i < after.len() && after[i] == name;
            if i < before.len() {
                assert(before[i] == name);
            }
        }
        if after.len() > before.len() {
            assert(after[after.len() - 1] == children.last()->0);
        }
    }
}

/// The set of names that a listing of a directory holds is the set of the
/// children that were read, less those that the rule on hidden names
/// leaves out, together with `.` and `..` if and only if hidden names are
/// asked for.
pub proof fn lemma_listed_names_set(children: Seq<Option<Seq<char>>>, show_hidden: bool)
    ensures
        listed_names(children, show_hidden).to_set() == child_set(children).filter(
            |name: Seq<char>| is_shown(name, show_hidden),
        ).union(
            if show_hidden {
                set![dot(), dot_dot()]
            } else {
                Set::empty()
            },
        ),
{
    let listed = listed_names(children, show_hidden);
    let pseudo = pseudo_names(show_hidden);
    let shown = shown_children(children, show_hidden);
    let named = child_set(children).filter(|name: Seq<char>| is_shown(name, show_hidden)).union(
        if show_hidden {
            set![dot(), dot_dot()]
        } else {
            Set::empty()
        },
    );
    assert forall|name: Seq<char>| listed.to_set().contains(name) <==> named.contains(name) by {
        lemma_shown_children_are_filtered(children, show_hidden, name);
        if listed.contains(name) {
            let i = choose|i: int| 0 <= i < listed.len() && listed[i] == name;
            if i < pseudo.len() {
                assert(pseudo[i] == name);
            } else {
                assert(shown[i - pseudo.len()] == name);
            }
        }
        if shown.contains(name) {
            let i = choose|i: int| 0 <= i < shown.len() && shown[i] == name;
            assert(listed[pseudo.len() + i] == name);
        }
        if show_hidden {
            assert(listed[0] == dot());
            assert(listed[1] == dot_dot());
        }
    }
    assert(listed.to_set() =~= named);
}

} // verus!
