//! Sets of entity names.
//!
//! An entity is named by its path: a stream or user by its own name, a topic by
//! its stream's name and its own, a consumer group by stream, topic and group.

use crate::listing::{
    listing, listing_is_unique, lists, path_before, path_is_before, path_order_is_total,
    path_order_is_transitive, path_text, render_path, set_text,
};
use crate::text::{push_joined, texts};
use vstd::prelude::*;
use vstd::string::*;

verus! {

/// Prefix every workload-generated entity name carries. Committed state is
/// filtered to these so genesis or system entities a replica may hold are not
/// mistaken for a shadow mismatch.
pub const WORKLOAD_PREFIX: &'static str = "wl-";

/// The name carries the workload's prefix.
pub open spec fn owned_name(name: Seq<char>) -> bool {
    WORKLOAD_PREFIX@.is_prefix_of(name)
}

/// Every name along the path carries the workload's prefix.
pub open spec fn owned_path(path: Seq<Seq<char>>) -> bool {
    forall|i: int| 0 <= i < path.len() ==> owned_name(#[trigger] path[i])
}

/// The name carries the workload's prefix.
pub fn is_workload_name(name: &str) -> (owned: bool)
    ensures
        owned == owned_name(name@),
{
    proof {
        reveal_strlit("wl-");
    }
    let prefix: &str = WORKLOAD_PREFIX;
    let mut i: usize = 0;
    while i < prefix.unicode_len()
        invariant
            prefix@ == WORKLOAD_PREFIX@,
            WORKLOAD_PREFIX@.len() == 3,
            i <= 3,
            i <= name@.len(),
            forall|j: int| 0 <= j < i ==> #[trigger] prefix@[j] == name@[j],
        decreases 3 - i,
    {
        if i >= name.unicode_len() || prefix.get_char(i) != name.get_char(i) {
            assert(!owned_name(name@)) by {
                if owned_name(name@) {
                    assert(WORKLOAD_PREFIX@ == name@.subrange(0, 3));
                    assert(name@[i as int] == WORKLOAD_PREFIX@[i as int]);
                }
            }
            return false;
        }
        i = i + 1;
    }
    assert(WORKLOAD_PREFIX@ =~= name@.subrange(0, 3));
    true
}

fn same_path(left: &[String], right: &[String]) -> (same: bool)
    ensures
        same == (texts(left@) == texts(right@)),
{
    if left.len() != right.len() {
        assert(texts(left@).len() != texts(right@).len());
        return false;
    }
    let mut i: usize = 0;
    while i < left.len()
        invariant
            i <= left.len(),
            left.len() == right.len(),
            forall|j: int| 0 <= j < i ==> texts(left@)[j] == #[trigger] texts(right@)[j],
        decreases left.len() - i,
    {
        if left[i] != right[i] {
            assert(texts(left@)[i as int] != texts(right@)[i as int]);
            return false;
        }
        i = i + 1;
    }
    assert(texts(left@) =~= texts(right@));
    true
}

fn is_workload_path(path: &[String]) -> (owned: bool)
    ensures
        owned == owned_path(texts(path@)),
{
    let mut i: usize = 0;
    while i < path.len()
        invariant
            i <= path.len(),
            forall|j: int| 0 <= j < i ==> owned_name(#[trigger] texts(path@)[j]),
        decreases path.len() - i,
    {
        if !is_workload_name(path[i].as_str()) {
            assert(!owned_name(texts(path@)[i as int]));
            return false;
        }
        i = i + 1;
    }
    true
}

fn copy_path(path: &[String]) -> (copy: Vec<String>)
    ensures
        texts(copy@) == texts(path@),
{
    let mut copy: Vec<String> = Vec::new();
    let mut i: usize = 0;
    while i < path.len()
        invariant
            i <= path.len(),
            copy@.len() == i,
            forall|j: int| 0 <= j < i ==> (#[trigger] copy@[j])@ == path@[j]@,
        decreases path.len() - i,
    {
        copy.push(path[i].clone());
        i = i + 1;
    }
    assert(texts(copy@) =~= texts(path@));
    copy
}

/// A set of paths.
#[derive(Debug)]
pub struct NameSet {
    paths: Vec<Vec<String>>,
}

impl View for NameSet {
    type V = Set<Seq<Seq<char>>>;

    closed spec fn view(&self) -> Set<Seq<Seq<char>>> {
        listed(self.paths@)
    }
}

/// The paths of a list.
spec fn listed(paths: Seq<Vec<String>>) -> Set<Seq<Seq<char>>> {
    Set::new(|path: Seq<Seq<char>>| exists|i: int| 0 <= i < paths.len() && #[trigger] texts(
        paths[i]@,
    ) == path)
}

proof fn listed_grows(paths: Seq<Vec<String>>, path: Vec<String>)
    ensures
        listed(paths.push(path)) == listed(paths).insert(texts(path@)),
{
    let longer = paths.push(path);
    assert forall|other: Seq<Seq<char>>|
        listed(longer).contains(other) == listed(paths).insert(texts(path@)).contains(other) by {
        if listed(longer).contains(other) {
            let i = choose|i: int|
                0 <= i < longer.len() && #[trigger] texts(longer[i]@) == other;
            if i < paths.len() {
                assert(texts(paths[i]@) == other);
            }
        }
        if listed(paths).contains(other) {
            let i = choose|i: int| 0 <= i < paths.len() && #[trigger] texts(paths[i]@) == other;
            assert(texts(longer[i]@) == other);
        }
        if other == texts(path@) {
            assert(texts(longer[paths.len() as int]@) == other);
        }
    }
    assert(listed(longer) =~= listed(paths).insert(texts(path@)));
}

/// The paths of a list, as texts.
spec fn path_texts(paths: Seq<Vec<String>>) -> Seq<Seq<Seq<char>>> {
    paths.map_values(|path: Vec<String>| texts(path@))
}

proof fn insertion_keeps_listing(
    list: Seq<Seq<Seq<char>>>,
    set: Set<Seq<Seq<char>>>,
    place: int,
    added: Seq<Seq<char>>,
)
    requires
        lists(list, set),
        !set.contains(added),
        0 <= place <= list.len(),
        forall|k: int| 0 <= k < place ==> path_before(#[trigger] list[k], added),
        place < list.len() ==> !path_before(list[place], added),
    ensures
        lists(list.insert(place, added), set.insert(added)),
{
    let longer = list.insert(place, added);
    assert forall|k: int| place <= k < list.len() implies path_before(
        added,
        #[trigger] list[k],
    ) by {
        path_order_is_total(added, list[place]);
        assert(set.contains(list[place]));
        if place < k {
            assert(path_before(list[place], list[k]));
            path_order_is_transitive(added, list[place], list[k]);
        }
    }
    assert forall|i: int, j: int| 0 <= i < j < longer.len() implies path_before(
        #[trigger] longer[i],
        #[trigger] longer[j],
    ) by {
        let before = |k: int|
            if k < place {
                k
            } else {
                k - 1
            };
        if i == place {
            assert(longer[j] == list[j - 1]);
        } else if j == place {
            assert(longer[i] == list[i]);
        } else {
            assert(longer[i] == list[before(i)]);
            assert(longer[j] == list[before(j)]);
        }
    }
    assert forall|path: Seq<Seq<char>>| #[trigger]
        set.insert(added).contains(path) <==> longer.contains(path) by {
        if set.contains(path) {
            let i = choose|i: int| 0 <= i < list.len() && list[i] == path;
            let k = if i < place {
                i
            } else {
                i + 1
            };
            assert(longer[k] == path);
        }
        if path == added {
            assert(longer[place] == path);
        }
        if longer.contains(path) && path != added {
            let k = choose|k: int| 0 <= k < longer.len() && longer[k] == path;
            let i = if k < place {
                k
            } else {
                k - 1
            };
            assert(list[i] == path);
            assert(list.contains(path));
        }
    }
}

impl NameSet {
    /// No path is listed twice.
    #[verifier::type_invariant]
    spec fn listed_once(self) -> bool {
        forall|i: int, j: int|
            0 <= i < j < self.paths@.len() ==> #[trigger] texts(self.paths@[i]@)
                != #[trigger] texts(self.paths@[j]@)
    }

    /// The empty set.
    pub fn new() -> (set: Self)
        ensures
            set@ == Set::<Seq<Seq<char>>>::empty(),
    {
        let set = NameSet { paths: Vec::new() };
        assert(set@ =~= Set::empty());
        set
    }

    /// The path is in the set.
    pub fn contains(&self, path: &[String]) -> (found: bool)
        ensures
            found == self@.contains(texts(path@)),
    {
        let mut i: usize = 0;
        while i < self.paths.len()
            invariant
                i <= self.paths.len(),
                forall|j: int| 0 <= j < i ==> #[trigger] texts(self.paths@[j]@) != texts(path@),
            decreases self.paths.len() - i,
        {
            if same_path(self.paths[i].as_slice(), path) {
                assert(texts(self.paths@[i as int]@) == texts(path@));
                return true;
            }
            i = i + 1;
        }
        false
    }

    /// Adds a path.
    pub fn insert(&mut self, path: Vec<String>)
        ensures
            final(self)@ == old(self)@.insert(texts(path@)),
    {
        proof {
            use_type_invariant(&*self);
        }
        let ghost before = self@;
        if self.contains(path.as_slice()) {
            assert(self@ =~= before.insert(texts(path@)));
        } else {
            let mut paths: Vec<Vec<String>> = Vec::new();
            std::mem::swap(&mut paths, &mut self.paths);
            let ghost shorter = paths@;
            assert(before == listed(shorter));
            proof {
                listed_grows(shorter, path);
                assert forall|i: int| 0 <= i < shorter.len() implies #[trigger] texts(shorter[i]@)
                    != texts(path@) by {
                    if texts(shorter[i]@) == texts(path@) {
                        assert(listed(shorter).contains(texts(path@)));
                    }
                }
            }
            paths.push(path);
            self.paths = paths;
        }
    }

    /// The paths made of workload-generated names alone.
    ///
    /// Every level is filtered on its own name, not on its stream's: once the
    /// workload has created enough streams, filler topics seeded around it land
    /// inside a stream of its own.
    pub fn workload_owned(&self) -> (owned: Self)
        ensures
            owned@ == self@.filter(|path: Seq<Seq<char>>| owned_path(path)),
    {
        let mut owned = NameSet::new();
        let mut i: usize = 0;
        let ghost keep = |path: Seq<Seq<char>>| owned_path(path);
        assert(listed(self.paths@.take(0)).filter(keep) =~= Set::empty());
        while i < self.paths.len()
            invariant
                i <= self.paths.len(),
                keep == (|path: Seq<Seq<char>>| owned_path(path)),
                owned@ == listed(self.paths@.take(i as int)).filter(keep),
            decreases self.paths.len() - i,
        {
            let path = &self.paths[i];
            proof {
                listed_grows(self.paths@.take(i as int), self.paths@[i as int]);
                assert(self.paths@.take(i + 1) =~= self.paths@.take(i as int).push(
                    self.paths@[i as int],
                ));
            }
            if is_workload_path(path.as_slice()) {
                owned.insert(copy_path(path.as_slice()));
            }
            i = i + 1;
            assert(owned@ =~= listed(self.paths@.take(i as int)).filter(keep));
        }
        assert(self.paths@.take(i as int) =~= self.paths@);
        owned
    }

    /// The paths in ascending order.
    fn sorted(&self) -> (sorted: Vec<Vec<String>>)
        ensures
            lists(path_texts(sorted@), self@),
    {
        proof {
            use_type_invariant(self);
        }
        let mut sorted: Vec<Vec<String>> = Vec::new();
        let mut i: usize = 0;
        assert(listed(self.paths@.take(0)) =~= Set::empty());
        assert(path_texts(sorted@) =~= Seq::empty());
        while i < self.paths.len()
            invariant
                i <= self.paths.len(),
                self.listed_once(),
                lists(path_texts(sorted@), listed(self.paths@.take(i as int))),
            decreases self.paths.len() - i,
        {
            let path = copy_path(self.paths[i].as_slice());
            let ghost added = texts(path@);
            let ghost before = path_texts(sorted@);
            let mut place: usize = 0;
            while place < sorted.len() && path_is_before(sorted[place].as_slice(), path.as_slice())
                invariant
                    place <= sorted.len(),
                    before == path_texts(sorted@),
                    added == texts(path@),
                    forall|k: int| 0 <= k < place ==> path_before(#[trigger] before[k], added),
                decreases sorted.len() - place,
            {
                assert(before[place as int] == texts(sorted@[place as int]@));
                place = place + 1;
            }
            proof {
                let shorter = self.paths@.take(i as int);
                listed_grows(shorter, self.paths@[i as int]);
                assert(self.paths@.take(i + 1) =~= shorter.push(self.paths@[i as int]));
                assert(!listed(shorter).contains(added)) by {
                    if listed(shorter).contains(added) {
                        let k = choose|k: int|
                            0 <= k < shorter.len() && #[trigger] texts(shorter[k]@) == added;
                        assert(texts(self.paths@[k]@) == texts(self.paths@[i as int]@));
                    }
                }
                if place < sorted@.len() {
                    assert(before[place as int] == texts(sorted@[place as int]@));
                    assert(!path_before(before[place as int], added));
                }
                insertion_keeps_listing(before, listed(shorter), place as int, added);
            }
            sorted.insert(place, path);
            assert(path_texts(sorted@) =~= before.insert(place as int, added));
            i = i + 1;
        }
        assert(self.paths@.take(i as int) =~= self.paths@);
        sorted
    }

    /// Appends the rendering of the set: its paths in ascending order.
    pub fn push_text(&self, out: &mut String)
        ensures
            final(out)@ == old(out)@ + set_text(self@),
    {
        let sorted = self.sorted();
        let ghost paths = path_texts(sorted@);
        proof {
            listing_is_unique(self@, paths, listing(self@));
        }
        let mut parts: Vec<String> = Vec::new();
        let mut i: usize = 0;
        while i < sorted.len()
            invariant
                i <= sorted.len(),
                parts@.len() == i,
                paths == path_texts(sorted@),
                forall|j: int| 0 <= j < i ==> (#[trigger] parts@[j])@ == path_text(paths[j]),
            decreases sorted.len() - i,
        {
            assert(paths[i as int] == texts(sorted@[i as int]@));
            parts.push(render_path(sorted[i].as_slice()));
            i = i + 1;
        }
        assert(texts(parts@) =~= paths.map_values(|path: Seq<Seq<char>>| path_text(path)));
        out.append("{");
        push_joined(out, parts.as_slice(), ", ");
        out.append("}");
        assert(out@ =~= old(out)@ + set_text(self@));
    }

    fn covered_by(&self, other: &NameSet) -> (covered: bool)
        ensures
            covered == self@.subset_of(other@),
    {
        let mut i: usize = 0;
        while i < self.paths.len()
            invariant
                i <= self.paths.len(),
                forall|j: int|
                    0 <= j < i ==> other@.contains(#[trigger] texts(self.paths@[j]@)),
            decreases self.paths.len() - i,
        {
            if !other.contains(self.paths[i].as_slice()) {
                assert(self@.contains(texts(self.paths@[i as int]@)));
                return false;
            }
            i = i + 1;
        }
        assert(self@.subset_of(other@));
        true
    }

    /// The two sets hold the same paths.
    pub fn same(&self, other: &NameSet) -> (same: bool)
        ensures
            same == (self@ == other@),
    {
        let same = self.covered_by(other) && other.covered_by(self);
        if same {
            assert(self@ =~= other@);
        }
        same
    }
}

/// A name is the workload's exactly if its first three characters are `wl-`.
pub proof fn workload_names_start_alike(name: Seq<char>)
    ensures
        owned_name(name) <==> name.len() >= 3 && name[0] == 'w' && name[1] == 'l' && name[2] == '-',
{
    reveal_strlit("wl-");
    if name.len() >= 3 && name[0] == 'w' && name[1] == 'l' && name[2] == '-' {
        assert(WORKLOAD_PREFIX@ =~= name.subrange(0, 3));
    }
    if owned_name(name) {
        let start = name.subrange(0, 3);
        assert(WORKLOAD_PREFIX@ == start);
        assert(start[0] == name[0] && start[1] == name[1] && start[2] == name[2]);
    }
}

/// A path is the workload's exactly if every name along it is.
pub proof fn workload_paths_are_owned_throughout(path: Seq<Seq<char>>, place: int)
    requires
        0 <= place < path.len(),
    ensures
        !owned_name(path[place]) ==> !owned_path(path),
        (forall|i: int| 0 <= i < path.len() ==> owned_name(#[trigger] path[i])) ==> owned_path(path),
{
}

} // verus!
