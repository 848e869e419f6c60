//! The tree of entries that is recorded for a store object.

use vstd::prelude::*;

use crate::digest::{DigestV, FileDigest};
use crate::paths::{is_single_entry, single_entry};
use crate::text::same_text;

verus! {

/// A symbolic link as a directory member: relative, or to a place outside the project.
#[derive(Debug)]
pub enum LinkMember {
    Symlink(String),
    ExternalSymlink(String),
}

impl LinkMember {
    /// A second copy of the link.
    pub fn duplicate(&self) -> (res: LinkMember)
        ensures
            link_model(res) == link_model(*self),
    {
        match self {
            LinkMember::Symlink(t) => LinkMember::Symlink(t.clone()),
            LinkMember::ExternalSymlink(t) => LinkMember::ExternalSymlink(t.clone()),
        }
    }
}

/// A regular file as a directory member.
#[derive(Debug)]
pub struct FileMetadata {
    pub digest: FileDigest,
    pub is_executable: bool,
}

/// A named member of a directory.
#[derive(Debug)]
pub struct NamedEntry {
    pub name: String,
    pub entry: StoreEntry,
}

/// A store object, or a part of one.
#[derive(Debug)]
pub enum StoreEntry {
    Dir(Vec<NamedEntry>),
    File(FileMetadata),
    Link(LinkMember),
}

/// A [`StoreEntry`] over mathematical sequences.
pub enum EntryV {
    Dir(Seq<(Seq<char>, EntryV)>),
    File { digest: DigestV, is_executable: bool },
    Symlink(Seq<char>),
    ExternalSymlink(Seq<char>),
}

/// The model of a link.
pub open spec fn link_model(link: LinkMember) -> EntryV {
    match link {
        LinkMember::Symlink(t) => EntryV::Symlink(t@),
        LinkMember::ExternalSymlink(t) => EntryV::ExternalSymlink(t@),
    }
}

/// The model of an entry.
pub open spec fn entry_model(e: StoreEntry) -> EntryV
    decreases e,
{
    match e {
        StoreEntry::Dir(children) => EntryV::Dir(children_model(children@)),
        StoreEntry::File(f) => EntryV::File { digest: f.digest@, is_executable: f.is_executable },
        StoreEntry::Link(l) => link_model(l),
    }
}

/// The model of a list of named entries.
pub open spec fn children_model(list: Seq<NamedEntry>) -> Seq<(Seq<char>, EntryV)>
    decreases list,
{
    if list.len() == 0 {
        seq![]
    } else {
        children_model(list.drop_last()).push((list.last().name@, entry_model(list.last().entry)))
    }
}

impl View for StoreEntry {
    type V = EntryV;

    open spec fn view(&self) -> EntryV {
        entry_model(*self)
    }
}

/// The model of a list keeps positions.
pub proof fn lemma_children_model(list: Seq<NamedEntry>)
    ensures
        children_model(list).len() == list.len(),
        forall|i: int|
            0 <= i < list.len() ==> #[trigger] children_model(list)[i] == (
                list[i].name@,
                entry_model(list[i].entry),
            ),
    decreases list.len(),
{
    if list.len() > 0 {
        lemma_children_model(list.drop_last());
    }
}

/// Whether two links are equal.
fn same_link(a: &LinkMember, b: &LinkMember) -> (res: bool)
    ensures
        res == (link_model(*a) == link_model(*b)),
{
    match (a, b) {
        (LinkMember::Symlink(s), LinkMember::Symlink(t)) => same_text(s, t),
        (LinkMember::ExternalSymlink(s), LinkMember::ExternalSymlink(t)) => same_text(s, t),
        _ => false,
    }
}

/// One of the members has this name and is the same as this entry.
pub open spec fn has_same(members: Seq<(Seq<char>, EntryV)>, member: (Seq<char>, EntryV)) -> bool
    decreases member.1, 1nat,
{
    exists|j: int|
        0 <= j < members.len() && member.0 == (#[trigger] members[j]).0 && same_entry(
            member.1,
            members[j].1,
        )
}

/// One of the members has this name.
pub open spec fn has_name(members: Seq<(Seq<char>, EntryV)>, name: Seq<char>) -> bool {
    exists|j: int| 0 <= j < members.len() && (#[trigger] members[j]).0 == name
}

/// The entries are the same: directories have the same names, and at each name the same member.
/// In which order the members are listed makes no difference.
pub open spec fn same_entry(a: EntryV, b: EntryV) -> bool
    decreases a, 0nat,
{
    match (a, b) {
        (EntryV::Dir(ma), EntryV::Dir(mb)) => {
            &&& ma.len() == mb.len()
            &&& forall|i: int| 0 <= i < ma.len() ==> has_same(mb, #[trigger] ma[i])
            &&& forall|j: int| 0 <= j < mb.len() ==> has_name(ma, (#[trigger] mb[j]).0)
        },
        _ => a == b,
    }
}

/// Whether one of the members has this name. `hint` is the position that is looked at first.
fn names_a_member(members: &Vec<NamedEntry>, name: &str, hint: usize) -> (res: bool)
    ensures
        res == has_name(children_model(members@), name@),
{
    let ghost model = children_model(members@);
    proof {
        lemma_children_model(members@);
    }
    if hint < members.len() && same_text(&members[hint].name, name) {
        assert(model[hint as int].0 == name@);
        return true;
    }
    let mut i: usize = 0;
    while i < members.len()
        invariant
            i <= members@.len() == model.len(),
            model == children_model(members@),
            forall|j: int| 0 <= j < model.len() ==> (#[trigger] model[j]).0 == members@[j].name@,
            forall|j: int| 0 <= j < i ==> (#[trigger] model[j]).0 != name@,
        decreases members.len() - i,
    {
        assert(model[i as int].0 == members@[i as int].name@);
        if same_text(&members[i].name, name) {
            return true;
        }
        i += 1;
    }
    false
}

/// Every member of every directory has a name that stands for one entry.
pub open spec fn names_are_members(entry: EntryV) -> bool
    decreases entry,
{
    match entry {
        EntryV::Dir(members) => members_are_named(members),
        _ => true,
    }
}

/// Every member has a name that stands for one entry, and so has every member below it.
pub open spec fn members_are_named(members: Seq<(Seq<char>, EntryV)>) -> bool
    decreases members,
{
    forall|i: int|
        0 <= i < members.len() ==> is_single_entry((#[trigger] members[i]).0) && names_are_members(
            members[i].1,
        )
}

/// No directory has two members with one name.
pub open spec fn names_are_distinct(entry: EntryV) -> bool
    decreases entry,
{
    match entry {
        EntryV::Dir(members) => {
            &&& forall|i: int, j: int|
                0 <= i < j < members.len() ==> (#[trigger] members[i]).0 != (
                #[trigger] members[j]).0
            &&& forall|i: int|
                0 <= i < members.len() ==> names_are_distinct((#[trigger] members[i]).1)
        },
        _ => true,
    }
}

/// The first name, a directory before its members, that does not stand for one entry.
pub open spec fn first_bad_name(entry: EntryV) -> Option<Seq<char>>
    decreases entry,
{
    match entry {
        EntryV::Dir(members) => first_bad_member(members),
        _ => None,
    }
}

/// The first bad name among the members of a directory and below them.
pub open spec fn first_bad_member(members: Seq<(Seq<char>, EntryV)>) -> Option<Seq<char>>
    decreases members,
{
    if members.len() == 0 {
        None
    } else {
        match first_bad_member(members.drop_last()) {
            Some(name) => Some(name),
            None => if !is_single_entry(members.last().0) {
                Some(members.last().0)
            } else {
                first_bad_name(members.last().1)
            },
        }
    }
}

/// The first bad name among the members of a directory and below them.
pub(crate) fn find_bad_member(list: &Vec<NamedEntry>) -> (res: Option<String>)
    ensures
        match first_bad_member(children_model(list@)) {
            Some(name) => res is Some && res->0@ == name,
            None => res is None,
        },
    decreases list@,
{
    let mut i: usize = 0;
    assert(list@.take(0) =~= seq![]);
    while i < list.len()
        invariant
            i <= list@.len(),
            first_bad_member(children_model(list@.take(i as int))) is None,
        decreases list.len() - i,
    {
        proof {
            assert(list@.take(i + 1).drop_last() =~= list@.take(i as int));
            assert(children_model(list@.take(i + 1)).drop_last() =~= children_model(
                list@.take(i as int),
            ));
            assert(decreases_to!(list@ => list@[i as int]));
            assert(decreases_to!(list@[i as int] => list@[i as int].entry));
        }
        if !single_entry(&list[i].name) {
            proof {
                lemma_bad_stays(list@, i + 1);
            }
            return Some(list[i].name.clone());
        }
        if let StoreEntry::Dir(inner) = &list[i].entry {
            assert(decreases_to!(list@[i as int].entry => list@[i as int].entry->Dir_0));
            assert(decreases_to!(*inner => inner@));
            if let Some(name) = find_bad_member(inner) {
                proof {
                    assert(first_bad_name(entry_model(list@[i as int].entry)) == first_bad_member(
                        children_model(inner@),
                    ));
                    assert(children_model(list@.take(i + 1)).last().1 == entry_model(
                        list@[i as int].entry,
                    ));
                    lemma_bad_stays(list@, i + 1);
                }
                return Some(name);
            }
        }
        i += 1;
    }
    assert(list@.take(i as int) =~= list@);
    None
}

proof fn lemma_bad_stays(list: Seq<NamedEntry>, k: int)
    requires
        0 <= k <= list.len(),
        first_bad_member(children_model(list.take(k))) is Some,
    ensures
        first_bad_member(children_model(list)) == first_bad_member(children_model(list.take(k))),
    decreases list.len() - k,
{
    if k < list.len() {
        assert(list.take(k + 1).drop_last() =~= list.take(k));
        assert(children_model(list.take(k + 1)).drop_last() =~= children_model(list.take(k)));
        lemma_bad_stays(list, k + 1);
    } else {
        assert(list.take(k) =~= list);
    }
}

/// There is no bad name exactly where all names stand for one entry.
pub proof fn no_bad_name_is_all_names_good(entry: EntryV)
    ensures
        first_bad_name(entry) is None <==> names_are_members(entry),
    decreases entry,
{
    if let EntryV::Dir(members) = entry {
        lemma_no_bad_member(members);
    }
}

proof fn lemma_no_bad_member(members: Seq<(Seq<char>, EntryV)>)
    ensures
        first_bad_member(members) is None <==> members_are_named(members),
    decreases members,
{
    if members.len() > 0 {
        let short = members.drop_last();
        lemma_no_bad_member(short);
        no_bad_name_is_all_names_good(members.last().1);
        let n = members.len() - 1;
        assert(members[n] == members.last());
        if members_are_named(members) {
            assert forall|i: int| 0 <= i < short.len() implies is_single_entry(
                (#[trigger] short[i]).0,
            ) && names_are_members(short[i].1) by {
                assert(short[i] == members[i]);
            }
        }
        if first_bad_member(members) is None {
            assert forall|i: int| 0 <= i < members.len() implies is_single_entry(
                (#[trigger] members[i]).0,
            ) && names_are_members(members[i].1) by {
                if i < n {
                    assert(short[i] == members[i]);
                }
            }
        }
    }
}

/// Every entry is the same as itself.
pub proof fn sameness_is_reflexive(a: EntryV)
    ensures
        same_entry(a, a),
    decreases a,
{
    if let EntryV::Dir(members) = a {
        assert forall|i: int| 0 <= i < members.len() implies has_same(
            members,
            #[trigger] members[i],
        ) by {
            sameness_is_reflexive(members[i].1);
        }
        assert forall|j: int| 0 <= j < members.len() implies has_name(
            members,
            (#[trigger] members[j]).0,
        ) by {}
    }
}

/// Sameness goes both ways.
pub proof fn sameness_is_symmetric(a: EntryV, b: EntryV)
    requires
        names_are_distinct(b),
        same_entry(a, b),
    ensures
        same_entry(b, a),
    decreases a,
{
    if let (EntryV::Dir(ma), EntryV::Dir(mb)) = (a, b) {
        assert forall|j: int| 0 <= j < mb.len() implies has_same(ma, #[trigger] mb[j]) by {
            assert(has_name(ma, mb[j].0));
            let i = choose|i: int| 0 <= i < ma.len() && (#[trigger] ma[i]).0 == mb[j].0;
            assert(has_same(mb, ma[i]));
            let k = choose|k: int|
                0 <= k < mb.len() && ma[i].0 == (#[trigger] mb[k]).0 && same_entry(
                    ma[i].1,
                    mb[k].1,
                );
            if k < j {
                assert(mb[k].0 != mb[j].0);
            } else if j < k {
                assert(mb[j].0 != mb[k].0);
            }
            sameness_is_symmetric(ma[i].1, mb[j].1);
        }
        assert forall|i: int| 0 <= i < ma.len() implies has_name(mb, (#[trigger] ma[i]).0) by {
            assert(has_same(mb, ma[i]));
        }
    }
}

/// Entries that are the same as one entry are the same.
pub proof fn sameness_is_transitive(a: EntryV, b: EntryV, c: EntryV)
    requires
        same_entry(a, b),
        same_entry(b, c),
    ensures
        same_entry(a, c),
    decreases a,
{
    if let (EntryV::Dir(ma), EntryV::Dir(mb), EntryV::Dir(mc)) = (a, b, c) {
        assert forall|i: int| 0 <= i < ma.len() implies has_same(mc, #[trigger] ma[i]) by {
            assert(has_same(mb, ma[i]));
            let j = choose|j: int|
                0 <= j < mb.len() && ma[i].0 == (#[trigger] mb[j]).0 && same_entry(
                    ma[i].1,
                    mb[j].1,
                );
            assert(has_same(mc, mb[j]));
            let k = choose|k: int|
                0 <= k < mc.len() && mb[j].0 == (#[trigger] mc[k]).0 && same_entry(
                    mb[j].1,
                    mc[k].1,
                );
            sameness_is_transitive(ma[i].1, mb[j].1, mc[k].1);
        }
        assert forall|k: int| 0 <= k < mc.len() implies has_name(ma, (#[trigger] mc[k]).0) by {
            assert(has_name(mb, mc[k].0));
            let j = choose|j: int| 0 <= j < mb.len() && (#[trigger] mb[j]).0 == mc[k].0;
            assert(has_name(ma, mb[j].0));
        }
    }
}

/// The order in which the members of a directory are listed makes no difference.
pub proof fn order_makes_no_difference(
    members: Seq<(Seq<char>, EntryV)>,
    reordered: Seq<(Seq<char>, EntryV)>,
)
    requires
        members.to_multiset() == reordered.to_multiset(),
    ensures
        same_entry(EntryV::Dir(members), EntryV::Dir(reordered)),
{
    broadcast use vstd::seq_lib::group_to_multiset_ensures;

    assert(members.len() == members.to_multiset().len());
    assert(reordered.len() == reordered.to_multiset().len());
    assert forall|i: int| 0 <= i < members.len() implies has_same(
        reordered,
        #[trigger] members[i],
    ) by {
        assert(members.contains(members[i]));
        assert(members.to_multiset().count(members[i]) > 0);
        assert(reordered.contains(members[i]));
        let j = choose|j: int| 0 <= j < reordered.len() && reordered[j] == members[i];
        sameness_is_reflexive(members[i].1);
        assert(members[i].0 == reordered[j].0);
    }
    assert forall|j: int| 0 <= j < reordered.len() implies has_name(
        members,
        (#[trigger] reordered[j]).0,
    ) by {
        assert(reordered.contains(reordered[j]));
        assert(reordered.to_multiset().count(reordered[j]) > 0);
        assert(members.contains(reordered[j]));
        let i = choose|i: int| 0 <= i < members.len() && members[i] == reordered[j];
        assert(members[i].0 == reordered[j].0);
    }
}

impl StoreEntry {
    /// A second copy of the entry.
    pub fn duplicate(&self) -> (res: StoreEntry)
        ensures
            res@ == self@,
        decreases self,
    {
        match self {
            StoreEntry::Dir(list) => {
                let mut copy: Vec<NamedEntry> = Vec::new();
                let mut i: usize = 0;
                assert(list@.take(0) =~= seq![]);
                assert(copy@ =~= seq![]);
                while i < list.len()
                    invariant
                        i <= list@.len(),
                        *self == StoreEntry::Dir(*list),
                        children_model(copy@) == children_model(list@.take(i as int)),
                    decreases list.len() - i,
                {
                    assert(decreases_to!(*self => self->Dir_0));
                    assert(decreases_to!(*list => list@));
                    assert(decreases_to!(list@ => list@[i as int]));
                    assert(decreases_to!(list@[i as int] => list@[i as int].entry));
                    let entry = list[i].entry.duplicate();
                    let ghost before = copy@;
                    copy.push(NamedEntry { name: list[i].name.clone(), entry });
                    assert(copy@.drop_last() =~= before);
                    assert(list@.take(i + 1).drop_last() =~= list@.take(i as int));
                    i += 1;
                }
                assert(list@.take(i as int) =~= list@);
                StoreEntry::Dir(copy)
            },
            StoreEntry::File(f) => StoreEntry::File(
                FileMetadata { digest: f.digest.duplicate(), is_executable: f.is_executable },
            ),
            StoreEntry::Link(l) => StoreEntry::Link(l.duplicate()),
        }
    }

    /// Whether two entries are the same, whatever the order of the members of their directories.
    pub fn same(&self, other: &StoreEntry) -> (res: bool)
        ensures
            res == same_entry(self@, other@),
        decreases self, 0nat,
    {
        match (self, other) {
            (StoreEntry::Dir(a), StoreEntry::Dir(b)) => {
                proof {
                    lemma_children_model(a@);
                    lemma_children_model(b@);
                }
                if a.len() != b.len() {
                    return false;
                }
                let ghost ma = children_model(a@);
                let ghost mb = children_model(b@);
                let mut i: usize = 0;
                while i < a.len()
                    invariant
                        i <= a@.len() == b@.len(),
                        *self == StoreEntry::Dir(*a),
                        *other == StoreEntry::Dir(*b),
                        ma == children_model(a@),
                        mb == children_model(b@),
                        ma.len() == a@.len(),
                        mb.len() == b@.len(),
                        forall|j: int|
                            0 <= j < a@.len() ==> #[trigger] ma[j] == (
                                a@[j].name@,
                                entry_model(a@[j].entry),
                            ),
                        forall|j: int| 0 <= j < i ==> has_same(mb, #[trigger] ma[j]),
                        forall|j: int| 0 <= j < i ==> has_name(ma, #[trigger] mb[j].0),
                    decreases a.len() - i,
                {
                    proof {
                        lemma_children_model(b@);
                        assert(ma[i as int] == (a@[i as int].name@, entry_model(a@[i as int].entry)));
                        assert(mb[i as int] == (b@[i as int].name@, entry_model(b@[i as int].entry)));
                        assert(decreases_to!(*self => self->Dir_0));
                        assert(decreases_to!(*a => a@));
                        assert(decreases_to!(a@ => a@[i as int]));
                        assert(decreases_to!(a@[i as int] => a@[i as int].entry));
                    }
                    if !a[i].entry.is_member_of(&a[i].name, b, i) || !names_a_member(
                        a,
                        &b[i].name,
                        i,
                    ) {
                        return false;
                    }
                    i += 1;
                }
                true
            },
            (StoreEntry::File(a), StoreEntry::File(b)) => {
                same_text(&a.digest.raw, &b.digest.raw) && a.digest.size == b.digest.size
                    && a.is_executable == b.is_executable
            },
            (StoreEntry::Link(a), StoreEntry::Link(b)) => same_link(a, b),
            _ => false,
        }
    }

    /// Whether one of the members has this name and is the same as this entry. `hint` is the
    /// position that is looked at first.
    fn is_member_of(&self, name: &str, members: &Vec<NamedEntry>, hint: usize) -> (res: bool)
        ensures
            res == has_same(children_model(members@), (name@, self@)),
        decreases self, 1nat,
    {
        let ghost model = children_model(members@);
        proof {
            lemma_children_model(members@);
        }
        if hint < members.len() && same_text(name, &members[hint].name) && self.same(
            &members[hint].entry,
        ) {
            assert(model[hint as int] == (
                members@[hint as int].name@,
                entry_model(members@[hint as int].entry),
            ));
            return true;
        }
        proof {
            if hint < members@.len() {
                assert(model[hint as int] == (
                    members@[hint as int].name@,
                    entry_model(members@[hint as int].entry),
                ));
            }
        }
        let mut i: usize = 0;
        while i < members.len()
            invariant
                i <= members@.len() == model.len(),
                model == children_model(members@),
                hint < members@.len() ==> !(name@ == model[hint as int].0 && same_entry(
                    self@,
                    model[hint as int].1,
                )),
                forall|j: int|
                    0 <= j < i ==> !(name@ == (#[trigger] model[j]).0 && same_entry(
                        self@,
                        model[j].1,
                    )),
            decreases members.len() - i,
        {
            proof {
                lemma_children_model(members@);
                assert(model[i as int] == (
                    members@[i as int].name@,
                    entry_model(members@[i as int].entry),
                ));
            }
            if i != hint && same_text(name, &members[i].name) && self.same(&members[i].entry) {
                return true;
            }
            i += 1;
        }
        false
    }
}

} // verus!
