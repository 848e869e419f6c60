//! When a recorded object and one that was found are the same: when the same is found at every
//! path, down to hashes, sizes, execute flags and link targets.

use vstd::prelude::*;

use crate::entry::{
    children_model, entry_model, first_bad_member, first_bad_name, has_name, has_same,
    lemma_children_model, names_are_distinct, same_entry, EntryV, LinkMember, StoreEntry,
};
use crate::materialize::{run_asks, RunReply, RunRequest, RunV};
use crate::path_laws::single_entries_are_all_other_names;
use crate::realization_laws::{run_job, success_is_verified};
use crate::store_output::{verification, JobV, ReadBack};
use crate::task::{OutputErrorV, StoreOutputError};

verus! {

/// The part of an object that a path of names leads to, from the top.
pub open spec fn part_at(entry: EntryV, path: Seq<Seq<char>>) -> Option<EntryV>
    decreases path.len(),
{
    if path.len() == 0 {
        Some(entry)
    } else {
        match entry {
            EntryV::Dir(members) => {
                if exists|i: int| 0 <= i < members.len() && (#[trigger] members[i]).0 == path[0] {
                    let i = choose|i: int|
                        0 <= i < members.len() && (#[trigger] members[i]).0 == path[0];
                    part_at(members[i].1, path.drop_first())
                } else {
                    None
                }
            },
            _ => None,
        }
    }
}

/// Nothing is at either place, or a directory at both, or equal files or equal links: files with
/// the same hash, size and execute flag, links with the same target and of the same kind.
pub open spec fn are_alike(a: Option<EntryV>, b: Option<EntryV>) -> bool {
    match (a, b) {
        (None, None) => true,
        (Some(EntryV::Dir(_)), Some(EntryV::Dir(_))) => true,
        (
            Some(EntryV::File { digest: d, is_executable: x }),
            Some(EntryV::File { digest: e, is_executable: y }),
        ) => d.raw == e.raw && d.size == e.size && x == y,
        (Some(EntryV::Symlink(s)), Some(EntryV::Symlink(t))) => s == t,
        (Some(EntryV::ExternalSymlink(s)), Some(EntryV::ExternalSymlink(t))) => s == t,
        _ => false,
    }
}

/// The same is found in both objects at every path.
pub open spec fn are_alike_throughout(a: EntryV, b: EntryV) -> bool {
    forall|path: Seq<Seq<char>>| #[trigger] are_alike(part_at(a, path), part_at(b, path))
}

proof fn lemma_part(members: Seq<(Seq<char>, EntryV)>, i: int, path: Seq<Seq<char>>)
    requires
        names_are_distinct(EntryV::Dir(members)),
        0 <= i < members.len(),
    ensures
        part_at(EntryV::Dir(members), seq![members[i].0] + path) == part_at(members[i].1, path),
{
    let entry = EntryV::Dir(members);
    let whole = seq![members[i].0] + path;
    assert(whole.drop_first() =~= path);
    assert(whole[0] == members[i].0);
    let list = entry->Dir_0;
    assert(list[i].0 == whole[0]);
    let k = choose|k: int| 0 <= k < list.len() && (#[trigger] list[k]).0 == whole[0];
    if k < i {
        assert(list[k].0 != list[i].0);
    } else if i < k {
        assert(list[i].0 != list[k].0);
    }
}

/// Two files are the same exactly if their hashes, their sizes and their execute flags are equal;
/// two links if they are of one kind and their targets are equal; and a file, a link and a
/// directory are never the same.
pub proof fn files_and_links_are_compared_in_full(a: EntryV, b: EntryV)
    requires
        !(a is Dir && b is Dir),
    ensures
        same_entry(a, b) <==> are_alike(Some(a), Some(b)),
{
    if let (
        EntryV::File { digest: d, is_executable: x },
        EntryV::File { digest: e, is_executable: y },
    ) = (a, b) {
        if d.raw == e.raw && d.size == e.size {
            assert(d == e);
        }
    }
}

/// Objects whose directories have distinct names are the same exactly if at every path the same is
/// found in both. In which order members are listed makes no difference, and nothing else does
/// not.
pub proof fn objects_are_the_same_if_alike_at_every_path(a: EntryV, b: EntryV)
    requires
        names_are_distinct(a),
        names_are_distinct(b),
    ensures
        same_entry(a, b) <==> are_alike_throughout(a, b),
{
    if same_entry(a, b) {
        assert forall|path: Seq<Seq<char>>| #[trigger]
            are_alike(part_at(a, path), part_at(b, path)) by {
            lemma_same_is_alike(a, b, path);
        }
    }
    if are_alike_throughout(a, b) {
        lemma_alike_is_same(a, b);
    }
}

proof fn lemma_same_is_alike(a: EntryV, b: EntryV, path: Seq<Seq<char>>)
    requires
        names_are_distinct(a),
        names_are_distinct(b),
        same_entry(a, b),
    ensures
        are_alike(part_at(a, path), part_at(b, path)),
    decreases path.len(),
{
    if a is Dir && b is Dir {
        if path.len() > 0 {
            let ma = a->Dir_0;
            let mb = b->Dir_0;
            let name = path[0];
            let rest = path.drop_first();
            assert(seq![name] + rest =~= path);
            if exists|i: int| 0 <= i < ma.len() && (#[trigger] ma[i]).0 == name {
                let i = choose|i: int| 0 <= i < ma.len() && (#[trigger] ma[i]).0 == name;
                assert(has_same(mb, ma[i]));
                let j = choose|j: int|
                    0 <= j < mb.len() && ma[i].0 == (#[trigger] mb[j]).0 && same_entry(
                        ma[i].1,
                        mb[j].1,
                    );
                assert(a == EntryV::Dir(ma) && b == EntryV::Dir(mb));
                lemma_part(ma, i, rest);
                lemma_part(mb, j, rest);
                lemma_same_is_alike(ma[i].1, mb[j].1, rest);
            } else if exists|j: int| 0 <= j < mb.len() && (#[trigger] mb[j]).0 == name {
                let j = choose|j: int| 0 <= j < mb.len() && (#[trigger] mb[j]).0 == name;
                assert(has_name(ma, mb[j].0));
                let i = choose|i: int| 0 <= i < ma.len() && (#[trigger] ma[i]).0 == mb[j].0;
                assert(ma[i].0 == name);
            }
        }
    } else {
        files_and_links_are_compared_in_full(a, b);
    }
}

spec fn names_of(members: Seq<(Seq<char>, EntryV)>) -> Seq<Seq<char>> {
    members.map_values(|m: (Seq<char>, EntryV)| m.0)
}

proof fn lemma_names_of(members: Seq<(Seq<char>, EntryV)>)
    requires
        names_are_distinct(EntryV::Dir(members)),
    ensures
        names_of(members).no_duplicates(),
        names_of(members).len() == members.len(),
        forall|i: int| 0 <= i < members.len() ==> #[trigger] names_of(members)[i] == members[i].0,
{
    let entry = EntryV::Dir(members);
    assert forall|i: int, j: int|
        0 <= i < members.len() && 0 <= j < members.len() && i != j implies names_of(members)[i]
        != names_of(members)[j] by {
        if i < j {
            assert(entry->Dir_0[i].0 != entry->Dir_0[j].0);
        } else {
            assert(entry->Dir_0[j].0 != entry->Dir_0[i].0);
        }
    }
}

proof fn lemma_alike_is_same(a: EntryV, b: EntryV)
    requires
        names_are_distinct(a),
        names_are_distinct(b),
        are_alike_throughout(a, b),
    ensures
        same_entry(a, b),
    decreases a,
{
    let top = Seq::<Seq<char>>::empty();
    assert(are_alike(part_at(a, top), part_at(b, top)));
    if a is Dir && b is Dir {
        let ma = a->Dir_0;
        let mb = b->Dir_0;
        assert(a == EntryV::Dir(ma) && b == EntryV::Dir(mb));
        assert forall|i: int| 0 <= i < ma.len() implies has_same(mb, #[trigger] ma[i]) by {
            let j = lemma_counterpart(a, b, i);
            lemma_alike_is_same(ma[i].1, mb[j].1);
            assert(ma[i].0 == mb[j].0);
        }
        assert forall|j: int| 0 <= j < mb.len() implies has_name(ma, (#[trigger] mb[j]).0) by {
            lemma_alike_symmetric(a, b);
            let i = lemma_counterpart(b, a, j);
            assert(ma[i].0 == mb[j].0);
        }
        lemma_names_of(ma);
        lemma_names_of(mb);
        let na = names_of(ma);
        let nb = names_of(mb);
        assert(na.to_set() =~= nb.to_set()) by {
            assert forall|n: Seq<char>| na.to_set().contains(n) implies nb.to_set().contains(n) by {
                let i = choose|i: int| 0 <= i < na.len() && na[i] == n;
                let j = lemma_counterpart(a, b, i);
                assert(nb[j] == n);
            }
            assert forall|n: Seq<char>| nb.to_set().contains(n) implies na.to_set().contains(n) by {
                lemma_alike_symmetric(a, b);
                let j = choose|j: int| 0 <= j < nb.len() && nb[j] == n;
                let i = lemma_counterpart(b, a, j);
                assert(na[i] == n);
            }
        }
        na.unique_seq_to_set();
        nb.unique_seq_to_set();
    } else {
        files_and_links_are_compared_in_full(a, b);
    }
}

proof fn lemma_alike_symmetric(a: EntryV, b: EntryV)
    requires
        are_alike_throughout(a, b),
    ensures
        are_alike_throughout(b, a),
{
    assert forall|path: Seq<Seq<char>>| #[trigger]
        are_alike(part_at(b, path), part_at(a, path)) by {
        assert(are_alike(part_at(a, path), part_at(b, path)));
    }
}

/// The member of the other directory with the name of a member: it is alike throughout.
proof fn lemma_counterpart(a: EntryV, b: EntryV, i: int) -> (j: int)
    requires
        a is Dir,
        b is Dir,
        names_are_distinct(a),
        names_are_distinct(b),
        are_alike_throughout(a, b),
        0 <= i < a->Dir_0.len(),
    ensures
        0 <= j < b->Dir_0.len(),
        b->Dir_0[j].0 == a->Dir_0[i].0,
        are_alike_throughout(a->Dir_0[i].1, b->Dir_0[j].1),
        names_are_distinct(a->Dir_0[i].1),
        names_are_distinct(b->Dir_0[j].1),
{
    let ma = a->Dir_0;
    let mb = b->Dir_0;
    let name = ma[i].0;
    let top = Seq::<Seq<char>>::empty();
    assert(a == EntryV::Dir(ma) && b == EntryV::Dir(mb));
    lemma_part(ma, i, top);
    let one = seq![name] + top;
    assert(one =~= seq![name]);
    assert(are_alike(part_at(a, one), part_at(b, one)));
    assert(part_at(ma[i].1, top) == Some(ma[i].1));
    assert(part_at(b, one) is Some);
    assert(one[0] == name);
    let j = choose|j: int| 0 <= j < mb.len() && (#[trigger] mb[j]).0 == name;
    assert(0 <= j < mb.len() && mb[j].0 == name);
    assert forall|path: Seq<Seq<char>>| #[trigger]
        are_alike(part_at(ma[i].1, path), part_at(mb[j].1, path)) by {
        lemma_part(ma, i, path);
        lemma_part(mb, j, path);
        let whole = seq![name] + path;
        assert(are_alike(part_at(a, whole), part_at(b, whole)));
    }
    j
}

/// What is at a store path is taken for the recorded object exactly if it could be read and the
/// same is found in both at every path. Else the reason is told: it could not be read, is not
/// there, could not be recorded, or is another object.
pub proof fn only_the_recorded_object_is_accepted(
    store: Seq<char>,
    found: ReadBack,
    recorded: EntryV,
)
    requires
        names_are_distinct(recorded),
        found matches ReadBack::Entry(entry) ==> names_are_distinct(entry@),
    ensures
        verification(store, found, recorded) == match found {
            ReadBack::Failed(e) => Err::<(), OutputErrorV>(StoreOutputError::Failed(e@)),
            ReadBack::Absent => Err(StoreOutputError::Disappeared(store)),
            ReadBack::Unrecorded => Err(StoreOutputError::Unverifiable(store)),
            ReadBack::Entry(entry) => if are_alike_throughout(entry@, recorded) {
                Ok(())
            } else {
                Err(StoreOutputError::Mismatch(store))
            },
        },
{
    if let ReadBack::Entry(entry) = found {
        objects_are_the_same_if_alike_at_every_path(entry@, recorded);
    }
}

/// A realization that ends well has read the store path back and found at every path what was
/// recorded: the same hash, size and execute flag, or the same link target.
pub proof fn a_realized_object_is_the_recorded_one(
    job: JobV,
    run: RunV,
    replies: Seq<RunReply>,
) -> (k: int)
    requires
        !(run is Finished),
        run_job(job, run, replies) == RunV::Finished(Ok(())),
        names_are_distinct(job.entry),
        forall|i: int|
            0 <= i < replies.len() ==> (
            #[trigger] replies[i] matches RunReply::Found(ReadBack::Entry(entry))
                ==> names_are_distinct(entry@)),
    ensures
        0 <= k < replies.len(),
        run_asks(job, run_job(job, run, replies.take(k))) == Some(RunRequest::ReadBack(job.store)),
        replies[k] matches RunReply::Found(ReadBack::Entry(entry)) && are_alike_throughout(
            entry@,
            job.entry,
        ),
{
    let k = success_is_verified(job, run, replies);
    if let RunReply::Found(ReadBack::Entry(entry)) = replies[k] {
        assert(replies[k] matches RunReply::Found(ReadBack::Entry(_)));
        objects_are_the_same_if_alike_at_every_path(entry@, job.entry);
    }
    k
}

/// The name stands for one entry of a directory.
pub open spec fn is_proper_name(name: Seq<char>) -> bool {
    &&& name.len() > 0
    &&& name != seq!['.']
    &&& name != seq!['.', '.']
    &&& forall|i: int| 0 <= i < name.len() ==> #[trigger] name[i] != '/'
}

/// The path leads through members of the object, to one of them: positions in the directories,
/// from the top.
pub open spec fn member_of(entry: EntryV, place: Seq<int>) -> Option<(Seq<char>, EntryV)>
    decreases place.len(),
{
    if place.len() == 0 {
        None
    } else {
        match entry {
            EntryV::Dir(members) => {
                if 0 <= place[0] < members.len() {
                    if place.len() == 1 {
                        Some(members[place[0]])
                    } else {
                        member_of(members[place[0]].1, place.drop_first())
                    }
                } else {
                    None
                }
            },
            _ => None,
        }
    }
}

/// The place comes before the other: a directory before its members, and members in their order.
pub open spec fn place_before(a: Seq<int>, b: Seq<int>) -> bool
    decreases a.len(),
{
    if b.len() == 0 {
        false
    } else if a.len() == 0 {
        true
    } else if a[0] != b[0] {
        a[0] < b[0]
    } else {
        place_before(a.drop_first(), b.drop_first())
    }
}

/// The search for a bad name finds one exactly if there is one, and then the first: the name of
/// some member, which is no proper name, with proper names at all places before it.
pub proof fn the_first_bad_name_is_found(entry: EntryV) -> (place: Seq<int>)
    ensures
        match first_bad_name(entry) {
            Some(name) => {
                &&& member_of(entry, place) matches Some(member) && member.0 == name
                &&& !is_proper_name(name)
                &&& forall|other: Seq<int>|
                    place_before(other, place) ==> ((#[trigger] member_of(
                        entry,
                        other,
                    )) matches Some(member) ==> is_proper_name(member.0))
            },
            None => forall|other: Seq<int>|
                (#[trigger] member_of(entry, other)) matches Some(member) ==> is_proper_name(
                    member.0,
                ),
        },
    decreases entry,
{
    if let EntryV::Dir(members) = entry {
        assert(entry == EntryV::Dir(members));
        lemma_first_bad_member(members)
    } else {
        seq![]
    }
}

proof fn lemma_first_bad_member(members: Seq<(Seq<char>, EntryV)>) -> (place: Seq<int>)
    ensures
        match first_bad_member(members) {
            Some(name) => {
                &&& member_of(EntryV::Dir(members), place) matches Some(member) && member.0 == name
                &&& !is_proper_name(name)
                &&& forall|other: Seq<int>|
                    place_before(other, place) ==> ((#[trigger] member_of(
                        EntryV::Dir(members),
                        other,
                    )) matches Some(member) ==> is_proper_name(member.0))
            },
            None => forall|other: Seq<int>|
                (#[trigger] member_of(EntryV::Dir(members), other)) matches Some(member)
                    ==> is_proper_name(member.0),
        },
    decreases members,
{
    let entry = EntryV::Dir(members);
    if members.len() == 0 {
        seq![]
    } else {
        let short = members.drop_last();
        let n = short.len() as int;
        let last = members.last();
        let before = lemma_first_bad_member(short);
        assert forall|other: Seq<int>| other.len() > 0 && other[0] < n implies #[trigger] member_of(
            entry,
            other,
        ) == member_of(EntryV::Dir(short), other) by {
            if 0 <= other[0] {
                assert(short[other[0]] == members[other[0]]);
            }
        }
        single_entries_are_all_other_names(last.0);
        match first_bad_member(short) {
            Some(name) => {
                assert(before.len() > 0 && before[0] < n);
                assert forall|other: Seq<int>|
                    (#[trigger] member_of(entry, other)) matches Some(member) && place_before(
                        other,
                        before,
                    ) implies is_proper_name((member_of(entry, other)->0).0) by {
                    assert(other.len() > 0 && other[0] <= before[0]);
                    assert(member_of(entry, other) == member_of(EntryV::Dir(short), other));
                }
                before
            },
            None => {
                let at = seq![n];
                assert(member_of(entry, at) == Some(members[n]));
                let below = the_first_bad_name_is_found(last.1);
                let deep = seq![n] + below;
                assert(deep.drop_first() =~= below);
                assert forall|other: Seq<int>| #[trigger]
                    member_of(entry, other) is Some implies {
                    ||| other[0] < n && member_of(EntryV::Dir(short), other) == member_of(
                        entry,
                        other,
                    )
                    ||| other == at && member_of(entry, other) == Some(last)
                    ||| other.len() > 1 && other[0] == n && member_of(entry, other) == member_of(
                        last.1,
                        other.drop_first(),
                    )
                } by {
                    if other[0] == n && other.len() == 1 {
                        assert(other =~= at);
                    }
                }
                if !is_proper_name(last.0) {
                    assert forall|other: Seq<int>|
                        (#[trigger] member_of(entry, other)) matches Some(member) && place_before(
                            other,
                            at,
                        ) implies is_proper_name((member_of(entry, other)->0).0) by {
                        assert(at.drop_first().len() == 0);
                        assert(!place_before(other.drop_first(), at.drop_first()));
                        assert(at[0] == n);
                        assert(other.len() > 0);
                        assert(other[0] < n);
                    }
                    at
                } else {
                    match first_bad_name(last.1) {
                        Some(name) => {
                            assert(below.len() > 0);
                            assert(member_of(entry, deep) == member_of(last.1, below));
                            assert forall|other: Seq<int>|
                                (#[trigger] member_of(entry, other)) matches Some(member)
                                    && place_before(other, deep) implies is_proper_name(
                                (member_of(entry, other)->0).0,
                            ) by {
                                if other[0] == n && other.len() > 1 {
                                    assert(place_before(other.drop_first(), below));
                                }
                            }
                            deep
                        },
                        None => {
                            assert forall|other: Seq<int>|
                                (#[trigger] member_of(entry, other)) matches Some(
                                    member,
                                ) implies is_proper_name((member_of(entry, other)->0).0) by {}
                            seq![]
                        },
                    }
                }
            },
        }
    }
}

/// An entry is modelled in full: a file with its hash, size and execute flag, a link with its
/// target and kind, a directory with the names and entries of its members in their order.
pub proof fn entries_are_modelled_in_full(entry: StoreEntry, i: int)
    ensures
        match entry {
            StoreEntry::File(f) => entry@ matches EntryV::File { digest, is_executable }
                && digest.raw == f.digest.raw@ && digest.size == f.digest.size && is_executable
                == f.is_executable,
            StoreEntry::Link(LinkMember::Symlink(t)) => entry@ == EntryV::Symlink(t@),
            StoreEntry::Link(LinkMember::ExternalSymlink(t)) => entry@ == EntryV::ExternalSymlink(
                t@,
            ),
            StoreEntry::Dir(list) => entry@ matches EntryV::Dir(members) && members.len()
                == list@.len() && (0 <= i < list@.len() ==> members[i] == (
                list@[i].name@,
                list@[i].entry@,
            )),
        },
{
    if let StoreEntry::Dir(list) = entry {
        lemma_children_model(list@);
        if 0 <= i < list@.len() {
            assert(children_model(list@)[i] == (list@[i].name@, entry_model(list@[i].entry)));
        }
    }
}

} // verus!
