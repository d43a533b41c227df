//! The device's menu tree, and the lookup of a page by its path.
//!
//! A path names a page by the labels that lead to it from the top of the
//! menu, written with `" > "` between them: `"Informatie > Temperaturen"`.

use vstd::prelude::*;
use vstd::string::*;
use crate::error::Error;
use crate::text::{chars_of, find, index_of, lemma_index_of_bounds};

verus! {

/// One entry of the menu, with the entries below it.
#[derive(Debug)]
pub struct NavigationItem {
    /// The token by which the device knows the entry.
    pub id: String,
    /// The label that the menu shows.
    pub name: String,
    pub items: Vec<NavigationItem>,
}

/// The menu tree that the device sends in reply to a login.
#[derive(Debug)]
pub struct Navigation {
    pub id: String,
    pub items: Vec<NavigationItem>,
}

/// What stands between two labels of a path: three characters.
pub open spec fn separator() -> Seq<char> {
    " > "@
}

/// The labels of the path that begins at index `from` of `path`: the text
/// is cut at every separator, from left to right.
pub open spec fn labels_from(path: Seq<char>, from: int) -> Seq<Seq<char>>
    recommends
        0 <= from <= path.len(),
    decreases path.len() - from,
{
    let cut = index_of(path, from, separator());
    if 0 <= from <= cut && cut + 3 <= path.len() {
        seq![path.subrange(from, cut)] + labels_from(path, cut + 3)
    } else {
        seq![path.subrange(from, path.len() as int)]
    }
}

/// The labels of a path.
pub open spec fn labels(path: Seq<char>) -> Seq<Seq<char>> {
    labels_from(path, 0)
}

/// `items[i]` is named `label`, and none before it is.
pub open spec fn is_first_named(items: Seq<NavigationItem>, label: Seq<char>, i: int) -> bool {
    &&& 0 <= i < items.len()
    &&& items[i].name@ == label
    &&& forall|j: int| 0 <= j < i ==> (#[trigger] items[j]).name@ != label
}

/// The position of the first of `items` that is named `label`.
pub open spec fn child_named(items: Seq<NavigationItem>, label: Seq<char>) -> Option<int> {
    if exists|i: int| is_first_named(items, label, i) {
        Some(choose|i: int| is_first_named(items, label, i))
    } else {
        None
    }
}

/// Follows `labels` child by child, starting among `items`: the identifier
/// of the entry that the last label names, or the first label that names
/// no child of the entry reached so far.
pub open spec fn follow(items: Seq<NavigationItem>, labels: Seq<Seq<char>>) -> Result<
    Seq<char>,
    Seq<char>,
>
    decreases labels.len(),
{
    if labels.len() == 0 {
        Err(Seq::<char>::empty())
    } else {
        match child_named(items, labels[0]) {
            None => Err(labels[0]),
            Some(i) => if labels.len() == 1 {
                Ok(items[i].id@)
            } else {
                follow(items[i].items@, labels.skip(1))
            },
        }
    }
}

/// The identifier of the page at `path`, or the label at which the path
/// leaves the tree. The empty path names no page.
pub open spec fn resolve(items: Seq<NavigationItem>, path: Seq<char>) -> Result<
    Seq<char>,
    Seq<char>,
> {
    if path.len() == 0 {
        Err(Seq::<char>::empty())
    } else {
        follow(items, labels(path))
    }
}

/// A result of a lookup says what `expected` says.
pub open spec fn lookup_result_is(
    result: Result<String, Error>,
    expected: Result<Seq<char>, Seq<char>>,
) -> bool {
    match result {
        Ok(id) => expected == Ok::<Seq<char>, Seq<char>>(id@),
        Err(Error::PathNotFound(label)) => expected == Err::<Seq<char>, Seq<char>>(label@),
        Err(_) => false,
    }
}

/// The first label of a path and the labels behind it.
proof fn lemma_labels_step(path: Seq<char>, from: int)
    requires
        0 <= from <= path.len(),
    ensures
        labels_from(path, from).len() >= 1,
        ({
            let cut = index_of(path, from, separator());
            let all = labels_from(path, from);
            if cut < path.len() {
                &&& all[0] == path.subrange(from, cut)
                &&& all.len() >= 2
                &&& all.skip(1) == labels_from(path, cut + 3)
            } else {
                &&& all[0] == path.subrange(from, path.len() as int)
                &&& all.len() == 1
            }
        }),
    decreases path.len() - from,
{
    let cut = index_of(path, from, separator());
    lemma_index_of_bounds(path, from, separator());
    if cut < path.len() {
        reveal_strlit(" > ");
        lemma_labels_step(path, cut + 3);
        let all = labels_from(path, from);
        assert(all.skip(1) =~= labels_from(path, cut + 3));
    }
}

/// Finds the first of `items` that is named `label`.
fn find_child(items: &Vec<NavigationItem>, label: &String) -> (found: Option<usize>)
    ensures
        match found {
            Some(i) => child_named(items@, label@) == Some(i as int) && i < items.len()
                && items@[i as int].name@ == label@,
            None => child_named(items@, label@) is None,
        },
{
    let mut i: usize = 0;
    while i < items.len()
        invariant
            i <= items.len(),
            forall|j: int| 0 <= j < i ==> (#[trigger] items@[j]).name@ != label@,
        decreases items.len() - i,
    {
        if items[i].name == *label {
            proof {
                assert(is_first_named(items@, label@, i as int));
                let first = choose|k: int| is_first_named(items@, label@, k);
                assert(is_first_named(items@, label@, first));
                assert(first == i) by {
                    if first < i {
                        assert(items@[first].name@ != label@);
                    } else if i < first {
                        assert(items@[i as int].name@ != label@);
                    }
                }
            }
            return Some(i);
        }
        i = i + 1;
    }
    proof {
        assert forall|k: int| !is_first_named(items@, label@, k) by {
            if 0 <= k < items@.len() {
                assert(items@[k].name@ != label@);
            }
        }
    }
    None
}

impl Navigation {
    /// Looks up the page at `item_path` and returns its identifier.
    ///
    /// The path is followed from the top of the menu. At each label the
    /// first child of that name is taken. The first label without such a
    /// child ends the lookup with [`Error::PathNotFound`], which holds that
    /// label; so does the empty path, with an empty label.
    pub fn get_navigation_item_id(&self, item_path: &String) -> (result: Result<String, Error>)
        ensures
            lookup_result_is(result, resolve(self.items@, item_path@)),
    {
        let path = chars_of(item_path.as_str());
        let mark = chars_of(" > ");
        let length: usize = path.len();
        if length == 0 {
            return Err(Error::PathNotFound(String::new()));
        }
        let mut items: &Vec<NavigationItem> = &self.items;
        let mut from: usize = 0;
        loop
            invariant
                path@ == item_path@,
                mark@ == separator(),
                length == path.len(),
                0 < length,
                from <= length,
                follow(self.items@, labels(path@)) == follow(
                    items@,
                    labels_from(path@, from as int),
                ),
            decreases length - from,
        {
            let cut: usize = find(&path, from, &mark);
            let label: String = item_path.as_str().substring_char(from, cut).to_owned();
            let ghost rest = labels_from(path@, from as int);
            proof {
                reveal_strlit(" > ");
                lemma_labels_step(path@, from as int);
                assert(rest[0] == label@);
            }
            match find_child(items, &label) {
                None => {
                    assert(follow(items@, rest) == Err::<Seq<char>, Seq<char>>(label@));
                    return Err(Error::PathNotFound(label));
                },
                Some(i) => {
                    if cut >= length {
                        assert(follow(items@, rest) == Ok::<Seq<char>, Seq<char>>(
                            items@[i as int].id@,
                        ));
                        return Ok(items[i].id.clone());
                    }
                    assert(follow(items@, rest) == follow(items@[i as int].items@, rest.skip(1)));
                    items = &items[i].items;
                    from = cut + mark.len();
                },
            }
        }
    }
}

/// Labels written out as a path, with the separator between them.
pub open spec fn join(labels: Seq<Seq<char>>) -> Seq<char>
    decreases labels.len(),
{
    if labels.len() == 0 {
        Seq::empty()
    } else if labels.len() == 1 {
        labels[0]
    } else {
        labels[0] + separator() + join(labels.skip(1))
    }
}

proof fn lemma_join_labels_from(path: Seq<char>, from: int)
    requires
        0 <= from <= path.len(),
    ensures
        join(labels_from(path, from)) == path.subrange(from, path.len() as int),
    decreases path.len() - from,
{
    let cut = index_of(path, from, separator());
    let all = labels_from(path, from);
    lemma_labels_step(path, from);
    lemma_index_of_bounds(path, from, separator());
    if cut < path.len() {
        reveal_strlit(" > ");
        lemma_join_labels_from(path, cut + 3);
        assert(path.subrange(cut, cut + 3) == separator());
        assert(join(all) == all[0] + separator() + join(all.skip(1)));
        assert(path.subrange(from, cut) + path.subrange(cut, cut + 3) + path.subrange(
            cut + 3,
            path.len() as int,
        ) =~= path.subrange(from, path.len() as int));
    }
}

/// Cutting a path into its labels loses nothing: the labels, written out
/// with the separator between them, are the path.
pub proof fn lemma_labels_make_the_path(path: Seq<char>)
    ensures
        labels(path).len() >= 1,
        join(labels(path)) == path,
{
    lemma_labels_step(path, 0);
    lemma_join_labels_from(path, 0);
    assert(path.subrange(0, path.len() as int) =~= path);
}

/// The entries among which the label behind `labels` is looked up: those
/// below the entry that `labels` lead to from `items`. There are none
/// where a label names no child.
pub open spec fn children_at(items: Seq<NavigationItem>, labels: Seq<Seq<char>>) -> Option<
    Seq<NavigationItem>,
>
    decreases labels.len(),
{
    if labels.len() == 0 {
        Some(items)
    } else {
        match child_named(items, labels[0]) {
            None => None,
            Some(i) => children_at(items[i].items@, labels.skip(1)),
        }
    }
}

/// A lookup gives the identifier of the entry that the labels lead to,
/// child by child.
///
/// Where all labels but the last lead to an entry, and the last names a
/// child of it, the result is that child's identifier.
pub proof fn lemma_follow_reaches(items: Seq<NavigationItem>, labels: Seq<Seq<char>>, i: int)
    requires
        labels.len() >= 1,
        children_at(items, labels.drop_last()) is Some,
        child_named(children_at(items, labels.drop_last())->Some_0, labels.last()) == Some(i),
    ensures
        follow(items, labels) == Ok::<Seq<char>, Seq<char>>(
            children_at(items, labels.drop_last())->Some_0[i].id@,
        ),
    decreases labels.len(),
{
    if labels.len() == 1 {
        assert(labels.drop_last() =~= Seq::<Seq<char>>::empty());
    } else {
        let front = labels.drop_last();
        assert(front[0] == labels[0]);
        let first = child_named(items, labels[0])->Some_0;
        assert(front.skip(1) =~= labels.skip(1).drop_last());
        lemma_follow_reaches(items[first].items@, labels.skip(1), i);
    }
}

/// A lookup fails at the first label that names no child, and names it.
///
/// Where the first `k` labels lead to an entry that has no child named by
/// the next label, the result is that label, whatever comes behind it.
pub proof fn lemma_follow_fails_at(items: Seq<NavigationItem>, labels: Seq<Seq<char>>, k: int)
    requires
        0 <= k < labels.len(),
        children_at(items, labels.take(k)) is Some,
        child_named(children_at(items, labels.take(k))->Some_0, labels[k]) is None,
    ensures
        follow(items, labels) == Err::<Seq<char>, Seq<char>>(labels[k]),
    decreases k,
{
    if k == 0 {
        assert(labels.take(0) =~= Seq::<Seq<char>>::empty());
    } else {
        let front = labels.take(k);
        assert(front[0] == labels[0]);
        let first = child_named(items, labels[0])->Some_0;
        assert(front.skip(1) =~= labels.skip(1).take(k - 1));
        lemma_follow_fails_at(items[first].items@, labels.skip(1), k - 1);
    }
}

/// No two of `items` have the same name.
pub open spec fn names_differ(items: Seq<NavigationItem>) -> bool {
    forall|i: int, j: int|
        0 <= i < j < items.len() ==> (#[trigger] items[i]).name@ != (#[trigger] items[j]).name@
}

impl NavigationItem {
    /// Below this entry no two entries with the same parent have the same
    /// name, at any depth: every path names at most one entry.
    pub open spec fn unambiguous(self) -> bool
        decreases self,
    {
        &&& names_differ(self.items@)
        &&& forall|i: int|
            0 <= i < self.items.len() ==> (#[trigger] self.items[i]).unambiguous()
    }
}

impl Navigation {
    /// In this menu no two entries with the same parent have the same
    /// name: every path names at most one page.
    pub open spec fn unambiguous(self) -> bool {
        &&& names_differ(self.items@)
        &&& forall|i: int|
            0 <= i < self.items.len() ==> (#[trigger] self.items[i]).unambiguous()
    }

    /// Tests whether every path names at most one page of this menu.
    pub fn is_unambiguous(&self) -> (ok: bool)
        ensures
            ok == self.unambiguous(),
    {
        all_unambiguous(&self.items)
    }
}

/// Tests whether no two of `items` have the same name.
fn have_different_names(items: &Vec<NavigationItem>) -> (ok: bool)
    ensures
        ok == names_differ(items@),
{
    let mut j: usize = 0;
    while j < items.len()
        invariant
            j <= items.len(),
            forall|a: int, b: int|
                0 <= a < b < j ==> (#[trigger] items@[a]).name@ != (#[trigger] items@[b]).name@,
        decreases items.len() - j,
    {
        let mut i: usize = 0;
        while i < j
            invariant
                i <= j < items.len(),
                forall|a: int| 0 <= a < i ==> (#[trigger] items@[a]).name@ != items@[j as int].name@,
            decreases j - i,
        {
            if items[i].name == items[j].name {
                return false;
            }
            i = i + 1;
        }
        j = j + 1;
    }
    true
}

/// Tests whether names differ among `items` and below each of them.
fn all_unambiguous(items: &Vec<NavigationItem>) -> (ok: bool)
    ensures
        ok == (names_differ(items@) && forall|i: int|
            0 <= i < items.len() ==> (#[trigger] items[i]).unambiguous()),
    decreases items,
{
    if !have_different_names(items) {
        return false;
    }
    let mut i: usize = 0;
    while i < items.len()
        invariant
            i <= items.len(),
            forall|k: int| 0 <= k < i ==> (#[trigger] items[k]).unambiguous(),
        decreases items.len() - i,
    {
        if !all_unambiguous(&items[i].items) {
            return false;
        }
        i = i + 1;
    }
    true
}

/// Among entries whose names differ, a label picks the one entry that has
/// it as its name: which of two comes first plays no part.
pub proof fn lemma_only_child_named(items: Seq<NavigationItem>, label: Seq<char>, i: int)
    requires
        names_differ(items),
        0 <= i < items.len(),
        items[i].name@ == label,
    ensures
        child_named(items, label) == Some(i),
{
    assert(is_first_named(items, label, i)) by {
        assert forall|j: int| 0 <= j < i implies (#[trigger] items[j]).name@ != label by {
            assert(items[j].name@ != items[i].name@);
        }
    }
    let first = choose|k: int| is_first_named(items, label, k);
    if first < i {
        assert(items[first].name@ != items[i].name@);
    } else if i < first {
        assert(items[i].name@ != label);
    }
}

} // verus!
