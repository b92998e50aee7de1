//! Ordered listings of entity names, and how reports render them.

use crate::text::{
    halves_are_mentioned, joined, joined_parts_are_mentioned, mentions, push_joined,
    text_mentions_itself, texts,
};
use vstd::prelude::*;
use vstd::string::*;

verus! {

/// How `{:?}` renders a string.
pub uninterp spec fn debug_text(text: Seq<char>) -> Seq<char>;

/// Formats a string with `{:?}`, the `Debug` impl of `str`: the result is a
/// function of the characters alone.
#[verifier::external_body]
fn quoted(text: &str) -> (rendered: String)
    ensures
        rendered@ == debug_text(text@),
{
    format!("{text:?}")
}

/// One name sorts before another: by the first character they differ in, a proper
/// prefix first.
pub open spec fn name_before(left: Seq<char>, right: Seq<char>) -> bool
    decreases left.len(),
{
    if right.len() == 0 {
        false
    } else if left.len() == 0 {
        true
    } else if left[0] != right[0] {
        (left[0] as int) < right[0] as int
    } else {
        name_before(left.drop_first(), right.drop_first())
    }
}

/// One path sorts before another: by the first name they differ in, a proper
/// prefix first.
pub open spec fn path_before(left: Seq<Seq<char>>, right: Seq<Seq<char>>) -> bool
    decreases left.len(),
{
    if right.len() == 0 {
        false
    } else if left.len() == 0 {
        true
    } else if left[0] != right[0] {
        name_before(left[0], right[0])
    } else {
        path_before(left.drop_first(), right.drop_first())
    }
}

/// Each path of the list sorts before those after it.
pub open spec fn ascending(list: Seq<Seq<Seq<char>>>) -> bool {
    forall|i: int, j: int|
        0 <= i < j < list.len() ==> path_before(#[trigger] list[i], #[trigger] list[j])
}

/// The list holds the paths of the set, in ascending order.
pub open spec fn lists(list: Seq<Seq<Seq<char>>>, set: Set<Seq<Seq<char>>>) -> bool {
    &&& ascending(list)
    &&& forall|path: Seq<Seq<char>>| #[trigger] set.contains(path) <==> list.contains(path)
}

/// The paths of a finite set, in ascending order.
pub open spec fn listing(set: Set<Seq<Seq<char>>>) -> Seq<Seq<Seq<char>>> {
    choose|list: Seq<Seq<Seq<char>>>| lists(list, set)
}

/// How a path is rendered: a single name on its own, several as a tuple.
pub open spec fn path_text(path: Seq<Seq<char>>) -> Seq<char> {
    if path.len() == 1 {
        debug_text(path[0])
    } else {
        "("@ + joined(path.map_values(|name: Seq<char>| debug_text(name)), ", "@) + ")"@
    }
}

/// How a set of paths is rendered.
pub open spec fn set_text(set: Set<Seq<Seq<char>>>) -> Seq<char> {
    "{"@ + joined(listing(set).map_values(|path: Seq<Seq<char>>| path_text(path)), ", "@) + "}"@
}

/// Any two names are equal or sort one way.
pub proof fn name_order_is_total(left: Seq<char>, right: Seq<char>)
    ensures
        left == right || name_before(left, right) || name_before(right, left),
    decreases left.len(),
{
    if left.len() > 0 && right.len() > 0 && left[0] == right[0] {
        name_order_is_total(left.drop_first(), right.drop_first());
        if left.drop_first() == right.drop_first() {
            assert(left =~= seq![left[0]] + left.drop_first());
            assert(right =~= seq![right[0]] + right.drop_first());
        }
    } else if left.len() == 0 && right.len() == 0 {
        assert(left =~= right);
    }
}

/// No two names sort both ways, and none before itself.
pub proof fn name_order_is_asymmetric(left: Seq<char>, right: Seq<char>)
    ensures
        !(name_before(left, right) && name_before(right, left)),
    decreases left.len(),
{
    if left.len() > 0 && right.len() > 0 && left[0] == right[0] {
        name_order_is_asymmetric(left.drop_first(), right.drop_first());
    }
}

/// The order of names is transitive.
pub proof fn name_order_is_transitive(left: Seq<char>, middle: Seq<char>, right: Seq<char>)
    requires
        name_before(left, middle),
        name_before(middle, right),
    ensures
        name_before(left, right),
    decreases left.len(),
{
    if left.len() > 0 && middle.len() > 0 && right.len() > 0 && left[0] == middle[0] && middle[0]
        == right[0] {
        name_order_is_transitive(left.drop_first(), middle.drop_first(), right.drop_first());
    }
}

/// Any two paths are equal or sort one way.
pub proof fn path_order_is_total(left: Seq<Seq<char>>, right: Seq<Seq<char>>)
    ensures
        left == right || path_before(left, right) || path_before(right, left),
    decreases left.len(),
{
    if left.len() > 0 && right.len() > 0 {
        name_order_is_total(left[0], right[0]);
        if left[0] == right[0] {
            path_order_is_total(left.drop_first(), right.drop_first());
            if left.drop_first() == right.drop_first() {
                assert(left =~= seq![left[0]] + left.drop_first());
                assert(right =~= seq![right[0]] + right.drop_first());
            }
        }
    } else if left.len() == 0 && right.len() == 0 {
        assert(left =~= right);
    }
}

/// No two paths sort both ways, and none before itself.
pub proof fn path_order_is_asymmetric(left: Seq<Seq<char>>, right: Seq<Seq<char>>)
    ensures
        !(path_before(left, right) && path_before(right, left)),
    decreases left.len(),
{
    if left.len() > 0 && right.len() > 0 {
        if left[0] == right[0] {
            path_order_is_asymmetric(left.drop_first(), right.drop_first());
        } else {
            name_order_is_asymmetric(left[0], right[0]);
        }
    }
}

/// The order of paths is transitive.
pub proof fn path_order_is_transitive(
    left: Seq<Seq<char>>,
    middle: Seq<Seq<char>>,
    right: Seq<Seq<char>>,
)
    requires
        path_before(left, middle),
        path_before(middle, right),
    ensures
        path_before(left, right),
    decreases left.len(),
{
    if left.len() > 0 && middle.len() > 0 && right.len() > 0 {
        if left[0] == middle[0] && middle[0] == right[0] {
            path_order_is_transitive(left.drop_first(), middle.drop_first(), right.drop_first());
        } else if left[0] != middle[0] && middle[0] != right[0] {
            name_order_is_transitive(left[0], middle[0], right[0]);
            name_order_is_asymmetric(left[0], middle[0]);
        }
    }
}

/// A set has at most one listing, so a rendering is a function of the set.
pub proof fn listing_is_unique(
    set: Set<Seq<Seq<char>>>,
    left: Seq<Seq<Seq<char>>>,
    right: Seq<Seq<Seq<char>>>,
)
    requires
        lists(left, set),
        lists(right, set),
    ensures
        left == right,
    decreases left.len(),
{
    if left.len() == 0 {
        if right.len() > 0 {
            assert(set.contains(right[0]));
        }
        assert(left =~= right);
    } else {
        assert(set.contains(left.last()));
        assert(right.contains(left.last()));
        assert(right.len() > 0);
        assert(set.contains(right.last()));
        assert(left.contains(right.last()));
        let j = choose|j: int| 0 <= j < right.len() && right[j] == left.last();
        let i = choose|i: int| 0 <= i < left.len() && left[i] == right.last();
        if left.last() != right.last() {
            assert(path_before(right[j], right[right.len() - 1]));
            assert(path_before(left[i], left[left.len() - 1]));
            path_order_is_asymmetric(left.last(), right.last());
        }
        shorter_listing(set, left);
        shorter_listing(set, right);
        listing_is_unique(set.remove(left.last()), left.drop_last(), right.drop_last());
        assert(left =~= left.drop_last().push(left.last()));
        assert(right =~= right.drop_last().push(right.last()));
    }
}

proof fn shorter_listing(set: Set<Seq<Seq<char>>>, list: Seq<Seq<Seq<char>>>)
    requires
        lists(list, set),
        list.len() > 0,
    ensures
        lists(list.drop_last(), set.remove(list.last())),
{
    let shorter = list.drop_last();
    assert forall|path: Seq<Seq<char>>| #[trigger]
        set.remove(list.last()).contains(path) <==> shorter.contains(path) by {
        if set.remove(list.last()).contains(path) {
            assert(set.contains(path));
            let i = choose|i: int| 0 <= i < list.len() && list[i] == path;
            assert(shorter[i] == path);
        }
        if shorter.contains(path) {
            let i = choose|i: int| 0 <= i < shorter.len() && shorter[i] == path;
            assert(list[i] == path);
            assert(list.contains(path));
            assert(path_before(list[i], list[list.len() - 1]));
            path_order_is_asymmetric(path, path);
        }
    }
}

fn name_is_before(left: &str, right: &str) -> (before: bool)
    ensures
        before == name_before(left@, right@),
{
    let mut i: usize = 0;
    assert(left@.skip(0) =~= left@);
    assert(right@.skip(0) =~= right@);
    while i < left.unicode_len() && i < right.unicode_len()
        invariant
            i <= left@.len(),
            i <= right@.len(),
            name_before(left@, right@) == name_before(
                left@.skip(i as int),
                right@.skip(i as int),
            ),
        decreases left@.len() - i,
    {
        let ours: char = left.get_char(i);
        let theirs: char = right.get_char(i);
        if ours != theirs {
            return (ours as u32) < theirs as u32;
        }
        assert(left@.skip(i as int).drop_first() =~= left@.skip(i + 1));
        assert(right@.skip(i as int).drop_first() =~= right@.skip(i + 1));
        i = i + 1;
    }
    i < right.unicode_len()
}

/// Whether one path sorts before another.
pub fn path_is_before(left: &[String], right: &[String]) -> (before: bool)
    ensures
        before == path_before(texts(left@), texts(right@)),
{
    let ghost ours = texts(left@);
    let ghost theirs = texts(right@);
    let mut i: usize = 0;
    assert(ours.skip(0) =~= ours);
    assert(theirs.skip(0) =~= theirs);
    while i < left.len() && i < right.len()
        invariant
            i <= left.len(),
            i <= right.len(),
            ours == texts(left@),
            theirs == texts(right@),
            path_before(ours, theirs) == path_before(ours.skip(i as int), theirs.skip(i as int)),
        decreases left.len() - i,
    {
        assert(ours[i as int] == left@[i as int]@);
        assert(theirs[i as int] == right@[i as int]@);
        if left[i] != right[i] {
            return name_is_before(left[i].as_str(), right[i].as_str());
        }
        assert(ours.skip(i as int).drop_first() =~= ours.skip(i + 1));
        assert(theirs.skip(i as int).drop_first() =~= theirs.skip(i + 1));
        i = i + 1;
    }
    i < right.len()
}

/// Renders a path.
pub fn render_path(path: &[String]) -> (text: String)
    ensures
        text@ == path_text(texts(path@)),
{
    let ghost names = texts(path@);
    if path.len() == 1 {
        assert(names[0] == path@[0]@);
        return quoted(path[0].as_str());
    }
    let ghost wanted = names.map_values(|name: Seq<char>| debug_text(name));
    let mut parts: Vec<String> = Vec::new();
    let mut i: usize = 0;
    while i < path.len()
        invariant
            i <= path.len(),
            parts@.len() == i,
            names == texts(path@),
            forall|j: int| 0 <= j < i ==> (#[trigger] parts@[j])@ == debug_text(names[j]),
        decreases path.len() - i,
    {
        assert(names[i as int] == path@[i as int]@);
        parts.push(quoted(path[i].as_str()));
        i = i + 1;
    }
    assert(texts(parts@) =~= wanted);
    let mut text = String::new();
    text.append("(");
    push_joined(&mut text, parts.as_slice(), ", ");
    text.append(")");
    assert(text@ =~= path_text(names));
    text
}

/// Names sort by the first character they differ in, and a proper prefix first.
pub proof fn names_sort_by_their_first_difference(
    left: Seq<char>,
    right: Seq<char>,
    place: int,
)
    requires
        0 <= place <= left.len(),
        place <= right.len(),
        forall|i: int| 0 <= i < place ==> left[i] == right[i],
    ensures
        place < left.len() && place < right.len() && left[place] != right[place] ==> (name_before(
            left,
            right,
        ) <==> left[place] < right[place]),
        place == left.len() ==> (name_before(left, right) <==> left.len() < right.len()),
        place == right.len() ==> !name_before(left, right),
    decreases place,
{
    if place > 0 {
        let shorter = left.drop_first();
        let other = right.drop_first();
        assert forall|i: int| 0 <= i < place - 1 implies shorter[i] == other[i] by {
            assert(left[i + 1] == right[i + 1]);
        }
        assert(left[0] == right[0]);
        names_sort_by_their_first_difference(shorter, other, place - 1);
    }
}

/// Paths sort by the first name they differ in, and a proper prefix first.
pub proof fn paths_sort_by_their_first_difference(
    left: Seq<Seq<char>>,
    right: Seq<Seq<char>>,
    place: int,
)
    requires
        0 <= place <= left.len(),
        place <= right.len(),
        forall|i: int| 0 <= i < place ==> left[i] == right[i],
    ensures
        place < left.len() && place < right.len() && left[place] != right[place] ==> (path_before(
            left,
            right,
        ) <==> name_before(left[place], right[place])),
        place == left.len() ==> (path_before(left, right) <==> left.len() < right.len()),
        place == right.len() ==> !path_before(left, right),
    decreases place,
{
    if place > 0 {
        let shorter = left.drop_first();
        let other = right.drop_first();
        assert forall|i: int| 0 <= i < place - 1 implies shorter[i] == other[i] by {
            assert(left[i + 1] == right[i + 1]);
        }
        assert(left[0] == right[0]);
        paths_sort_by_their_first_difference(shorter, other, place - 1);
    }
}

/// A listing holds each path of its set exactly once.
pub proof fn listings_hold_each_path_once(
    set: Set<Seq<Seq<char>>>,
    list: Seq<Seq<Seq<char>>>,
)
    requires
        lists(list, set),
    ensures
        list.to_set() == set,
        list.no_duplicates(),
{
    assert(list.to_set() =~= set);
    assert forall|i: int, j: int| 0 <= i < list.len() && 0 <= j < list.len() && i
        != j implies list[i] != list[j] by {
        path_order_is_asymmetric(list[i], list[i]);
        if i < j {
            assert(path_before(list[i], list[j]));
        } else {
            assert(path_before(list[j], list[i]));
        }
    }
}

/// A rendered set shows every path it holds, and a rendered path every name.
pub proof fn every_path_is_rendered(
    set: Set<Seq<Seq<char>>>,
    list: Seq<Seq<Seq<char>>>,
    path: Seq<Seq<char>>,
    place: int,
)
    requires
        lists(list, set),
        set.contains(path),
        0 <= place < path.len(),
    ensures
        mentions(set_text(set), path_text(path)),
        mentions(path_text(path), debug_text(path[place])),
        path.len() == 1 ==> path_text(path) == debug_text(path[0]),
{
    broadcast use {text_mentions_itself, halves_are_mentioned};

    let shown = listing(set);
    assert(lists(shown, set));
    assert(shown.contains(path));
    let i = choose|i: int| 0 <= i < shown.len() && shown[i] == path;
    let parts = shown.map_values(|path: Seq<Seq<char>>| path_text(path));
    assert(parts[i] == path_text(path));
    joined_parts_are_mentioned(parts, ", "@, i);
    let names = path.map_values(|name: Seq<char>| debug_text(name));
    assert(names[place] == debug_text(path[place]));
    joined_parts_are_mentioned(names, ", "@, place);
}

} // verus!
