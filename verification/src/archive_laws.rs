//! The canonical archive determines the store object: two objects have the same archive exactly
//! when they have the same names, execute flags, contents and link targets.

use vstd::prelude::*;
use vstd::utf8::*;

use crate::archive::{
    archive_magic, be32, be64, child_names, walk, walk_children, whole_archive, RECORD_DIRECTORY,
    RECORD_END, RECORD_FILE, RECORD_SYMLINK,
};
use crate::digest::DigestV;
use crate::disk::{mode_is_executable, DiskBody, DiskChild, DiskNode, DiskStatus};
use crate::entry::{link_model, EntryV};
use crate::order::{lemma_name_order_exists, name_order};
use crate::paths::{is_single_entry, join_text};

verus! {

/// The part of a store object that its hash is meant to pin down. The members of a directory
/// stand in the order of their names.
pub enum Tree {
    Dir(Seq<(Seq<char>, Tree)>),
    File { executable: bool, bytes: Seq<u8> },
    Link { target: Seq<u8> },
}

/// The tree that was read from disk.
pub open spec fn tree_of(node: DiskNode) -> Tree
    decreases node, 0nat,
{
    match node.status {
        DiskStatus::Present { mode, body, .. } => match body {
            DiskBody::Directory(Ok(children)) => Tree::Dir(
                tree_children(children@, children@.len()),
            ),
            DiskBody::Symlink(Ok(link)) => Tree::Link { target: link.target@ },
            DiskBody::File(file) => match file.content {
                Ok(content) => Tree::File {
                    executable: mode_is_executable(mode),
                    bytes: content.bytes@,
                },
                Err(_) => arbitrary(),
            },
            _ => arbitrary(),
        },
        _ => arbitrary(),
    }
}

/// The first `k` members of a directory, in the order of their names.
pub open spec fn tree_children(children: Seq<DiskChild>, k: nat) -> Seq<(Seq<char>, Tree)>
    decreases children, k,
{
    if k == 0 {
        seq![]
    } else {
        let j = name_order(child_names(children))[k - 1];
        if 0 <= j < children.len() {
            match children[j] {
                DiskChild::Entry { name, node, .. } => tree_children(children, (k - 1) as nat).push(
                    (decode_utf8(name@), tree_of(node)),
                ),
                _ => arbitrary(),
            }
        } else {
            arbitrary()
        }
    }
}

/// One record of an archive.
pub enum Record {
    Dir { path: Seq<char> },
    File { path: Seq<char>, executable: bool, bytes: Seq<u8> },
    Link { path: Seq<char>, target: Seq<u8> },
}

/// The path that a record is about.
pub open spec fn record_path(r: Record) -> Seq<char> {
    match r {
        Record::Dir { path } => path,
        Record::File { path, .. } => path,
        Record::Link { path, .. } => path,
    }
}

spec fn sized(bytes: Seq<u8>) -> Seq<u8> {
    be32(bytes.len() as int) + bytes
}

spec fn flag(b: bool) -> u8 {
    if b {
        1
    } else {
        0
    }
}

spec fn encode(r: Record) -> Seq<u8> {
    match r {
        Record::Dir { path } => seq![RECORD_DIRECTORY] + sized(encode_utf8(path)),
        Record::File { path, executable, bytes } => seq![RECORD_FILE] + sized(encode_utf8(path)) + (
        seq![flag(executable)] + be64(bytes.len() as int) + bytes),
        Record::Link { path, target } => seq![RECORD_SYMLINK] + sized(encode_utf8(path)) + sized(
            target,
        ),
    }
}

spec fn fits(r: Record) -> bool {
    &&& encode_utf8(record_path(r)).len() <= u32::MAX
    &&& match r {
        Record::Dir { .. } => true,
        Record::File { bytes, .. } => bytes.len() <= u64::MAX,
        Record::Link { target, .. } => target.len() <= u32::MAX,
    }
}

spec fn encode_all(records: Seq<Record>) -> Seq<u8>
    decreases records.len(),
{
    if records.len() == 0 {
        seq![]
    } else {
        encode(records[0]) + encode_all(records.drop_first())
    }
}

spec fn all_fit(records: Seq<Record>) -> bool {
    forall|i: int| 0 <= i < records.len() ==> fits(#[trigger] records[i])
}

/// The records of a tree, a directory before its members.
pub open spec fn flatten(tree: Tree, relative: Seq<char>) -> Seq<Record>
    decreases tree,
{
    match tree {
        Tree::Dir(members) => seq![Record::Dir { path: relative }] + flatten_members(
            members,
            relative,
        ),
        Tree::File { executable, bytes } => seq![
            Record::File { path: relative, executable, bytes },
        ],
        Tree::Link { target } => seq![Record::Link { path: relative, target }],
    }
}

/// The records of the members of a directory.
pub open spec fn flatten_members(members: Seq<(Seq<char>, Tree)>, relative: Seq<char>) -> Seq<
    Record,
>
    decreases members,
{
    if members.len() == 0 {
        seq![]
    } else {
        flatten(members[0].1, join_text(relative, members[0].0)) + flatten_members(
            members.drop_first(),
            relative,
        )
    }
}

// Bytes to records.

proof fn lemma_split<A>(a: Seq<A>, x: Seq<A>, b: Seq<A>, y: Seq<A>)
    requires
        a + x == b + y,
        a.len() == b.len(),
    ensures
        a == b,
        x == y,
{
    assert(a =~= (a + x).take(a.len() as int));
    assert(b =~= (b + y).take(b.len() as int));
    assert(x =~= (a + x).skip(a.len() as int));
    assert(y =~= (b + y).skip(b.len() as int));
}

proof fn lemma_be32(v: int, w: int)
    requires
        0 <= v <= u32::MAX,
        0 <= w <= u32::MAX,
        be32(v) == be32(w),
    ensures
        v == w,
{
    let a = be32(v);
    let b = be32(w);
    assert(a[0] == b[0] && a[1] == b[1] && a[2] == b[2] && a[3] == b[3]);
    assert(v == a[0] * 0x1000000 + a[1] * 0x10000 + a[2] * 0x100 + a[3]);
    assert(w == b[0] * 0x1000000 + b[1] * 0x10000 + b[2] * 0x100 + b[3]);
}

proof fn lemma_be64(v: int, w: int)
    requires
        0 <= v <= u64::MAX,
        0 <= w <= u64::MAX,
        be64(v) == be64(w),
    ensures
        v == w,
{
    lemma_split(
        be32(v / 0x100000000),
        be32(v % 0x100000000),
        be32(w / 0x100000000),
        be32(w % 0x100000000),
    );
    lemma_be32(v / 0x100000000, w / 0x100000000);
    lemma_be32(v % 0x100000000, w % 0x100000000);
}

proof fn lemma_sized(p: Seq<u8>, x: Seq<u8>, q: Seq<u8>, y: Seq<u8>)
    requires
        p.len() <= u32::MAX,
        q.len() <= u32::MAX,
        sized(p) + x == sized(q) + y,
    ensures
        p == q,
        x == y,
{
    let hp = be32(p.len() as int);
    let hq = be32(q.len() as int);
    assert(sized(p) + x =~= hp + (p + x));
    assert(sized(q) + y =~= hq + (q + y));
    lemma_split(hp, p + x, hq, q + y);
    lemma_be32(p.len() as int, q.len() as int);
    lemma_split(p, x, q, y);
}

spec fn tail_of(r: Record) -> Seq<u8> {
    match r {
        Record::Dir { .. } => seq![],
        Record::File { executable, bytes, .. } => seq![flag(executable)] + be64(bytes.len() as int)
            + bytes,
        Record::Link { target, .. } => sized(target),
    }
}

spec fn kind_of(r: Record) -> u8 {
    match r {
        Record::Dir { .. } => RECORD_DIRECTORY,
        Record::File { .. } => RECORD_FILE,
        Record::Link { .. } => RECORD_SYMLINK,
    }
}

proof fn lemma_encode_parts(r: Record, x: Seq<u8>)
    ensures
        encode(r) + x == seq![kind_of(r)] + (sized(encode_utf8(record_path(r))) + (tail_of(r) + x)),
{
    assert(encode(r) + x =~= seq![kind_of(r)] + (sized(encode_utf8(record_path(r))) + (tail_of(r)
        + x)));
}

proof fn lemma_encode_one(a: Record, x: Seq<u8>, b: Record, y: Seq<u8>)
    requires
        fits(a),
        fits(b),
        encode(a) + x == encode(b) + y,
    ensures
        a == b,
        x == y,
{
    lemma_encode_parts(a, x);
    lemma_encode_parts(b, y);
    let pa = encode_utf8(record_path(a));
    let pb = encode_utf8(record_path(b));
    lemma_split(
        seq![kind_of(a)],
        sized(pa) + (tail_of(a) + x),
        seq![kind_of(b)],
        sized(pb) + (tail_of(b) + y),
    );
    assert(kind_of(a) == seq![kind_of(a)][0]);
    assert(kind_of(b) == seq![kind_of(b)][0]);
    lemma_sized(pa, tail_of(a) + x, pb, tail_of(b) + y);
    encode_utf8_decode_utf8(record_path(a));
    encode_utf8_decode_utf8(record_path(b));
    match (a, b) {
        (
            Record::File { executable: ea, bytes: ba, .. },
            Record::File { executable: eb, bytes: bb, .. },
        ) => {
            let la = be64(ba.len() as int);
            let lb = be64(bb.len() as int);
            assert(tail_of(a) + x =~= seq![flag(ea)] + (la + (ba + x)));
            assert(tail_of(b) + y =~= seq![flag(eb)] + (lb + (bb + y)));
            lemma_split(seq![flag(ea)], la + (ba + x), seq![flag(eb)], lb + (bb + y));
            assert(seq![flag(ea)][0] == seq![flag(eb)][0]);
            lemma_split(la, ba + x, lb, bb + y);
            lemma_be64(ba.len() as int, bb.len() as int);
            lemma_split(ba, x, bb, y);
        },
        (Record::Link { target: ta, .. }, Record::Link { target: tb, .. }) => {
            lemma_sized(ta, x, tb, y);
        },
        _ => {
            assert(tail_of(a) + x =~= x);
            assert(tail_of(b) + y =~= y);
        },
    }
}

proof fn lemma_encode_all(s: Seq<Record>, t: Seq<Record>)
    requires
        all_fit(s),
        all_fit(t),
        encode_all(s) + seq![RECORD_END] == encode_all(t) + seq![RECORD_END],
    ensures
        s == t,
    decreases s.len(),
{
    let end = seq![RECORD_END];
    if s.len() == 0 || t.len() == 0 {
        if s.len() > 0 {
            lemma_encode_parts(s[0], encode_all(s.drop_first()) + end);
            assert(encode_all(s) + end =~= encode(s[0]) + (encode_all(s.drop_first()) + end));
            assert((encode_all(t) + end)[0] == RECORD_END);
            assert((encode_all(s) + end)[0] == kind_of(s[0]));
        } else if t.len() > 0 {
            lemma_encode_parts(t[0], encode_all(t.drop_first()) + end);
            assert(encode_all(t) + end =~= encode(t[0]) + (encode_all(t.drop_first()) + end));
            assert((encode_all(s) + end)[0] == RECORD_END);
            assert((encode_all(t) + end)[0] == kind_of(t[0]));
        }
        assert(s =~= t);
    } else {
        let xs = encode_all(s.drop_first()) + end;
        let xt = encode_all(t.drop_first()) + end;
        assert(encode_all(s) + end =~= encode(s[0]) + xs);
        assert(encode_all(t) + end =~= encode(t[0]) + xt);
        lemma_encode_one(s[0], xs, t[0], xt);
        lemma_encode_all(s.drop_first(), t.drop_first());
        assert(s =~= seq![s[0]] + s.drop_first());
        assert(t =~= seq![t[0]] + t.drop_first());
    }
}

proof fn lemma_encode_all_concat(s: Seq<Record>, t: Seq<Record>)
    ensures
        encode_all(s + t) == encode_all(s) + encode_all(t),
    decreases s.len(),
{
    if s.len() == 0 {
        assert(s + t =~= t);
        assert(encode_all(s) + encode_all(t) =~= encode_all(t));
    } else {
        assert((s + t).drop_first() =~= s.drop_first() + t);
        lemma_encode_all_concat(s.drop_first(), t);
        assert(encode_all(s + t) =~= encode_all(s) + encode_all(t));
    }
}

// Records to trees.

/// The path lies strictly below the directory `relative`.
pub open spec fn below(path: Seq<char>, relative: Seq<char>) -> bool {
    if relative.len() == 0 {
        path.len() > 0
    } else {
        &&& path.len() > relative.len()
        &&& path.take(relative.len() as int) == relative
        &&& path[relative.len() as int] == '/'
    }
}

spec fn is_relative(path: Seq<char>) -> bool {
    path.len() > 0 ==> path.last() != '/'
}

spec fn starts_outside(records: Seq<Record>, relative: Seq<char>) -> bool {
    records.len() > 0 ==> !below(record_path(records[0]), relative)
}

/// Every member of every directory has a name that stands for one entry.
pub open spec fn names_are_entries(tree: Tree) -> bool
    decreases tree,
{
    match tree {
        Tree::Dir(members) => {
            forall|i: int|
                0 <= i < members.len() ==> is_single_entry((#[trigger] members[i]).0)
                    && names_are_entries(members[i].1)
        },
        _ => true,
    }
}

proof fn lemma_join_shape(relative: Seq<char>, name: Seq<char>)
    requires
        is_relative(relative),
        is_single_entry(name),
    ensures
        is_relative(join_text(relative, name)),
        join_text(relative, name).len() > 0,
        below(join_text(relative, name), relative),
        relative.len() == 0 ==> join_text(relative, name) == name,
        relative.len() > 0 ==> join_text(relative, name) == relative + seq!['/'] + name,
{
    reveal_strlit("/");
    assert("/"@ =~= seq!['/']);
    assert(name.last() != '/') by {
        if name.last() == '/' {
            assert(name.contains('/'));
        }
    }
    let path = join_text(relative, name);
    if relative.len() > 0 {
        assert(path =~= relative + seq!['/'] + name);
        assert(path.take(relative.len() as int) =~= relative);
        assert(path.last() == name.last());
    }
}

proof fn lemma_join_injective(relative: Seq<char>, m: Seq<char>, n: Seq<char>)
    requires
        is_relative(relative),
        is_single_entry(m),
        is_single_entry(n),
        join_text(relative, m) == join_text(relative, n),
    ensures
        m == n,
{
    lemma_join_shape(relative, m);
    lemma_join_shape(relative, n);
    if relative.len() > 0 {
        lemma_split(relative + seq!['/'], m, relative + seq!['/'], n);
    }
}

proof fn lemma_sibling_outside(relative: Seq<char>, m: Seq<char>, n: Seq<char>)
    requires
        is_relative(relative),
        is_single_entry(m),
        is_single_entry(n),
    ensures
        !below(join_text(relative, n), join_text(relative, m)),
{
    lemma_join_shape(relative, m);
    lemma_join_shape(relative, n);
    let pm = join_text(relative, m);
    let pn = join_text(relative, n);
    if below(pn, pm) {
        let k = pm.len() as int;
        let offset: int = if relative.len() == 0 {
            0
        } else {
            relative.len() as int + 1
        };
        assert(pn[k] == n[k - offset]);
        assert(n.contains('/'));
    }
}

proof fn lemma_below_parent(path: Seq<char>, relative: Seq<char>, name: Seq<char>)
    requires
        is_relative(relative),
        is_single_entry(name),
        below(path, join_text(relative, name)),
    ensures
        below(path, relative),
{
    lemma_join_shape(relative, name);
    let j = join_text(relative, name);
    if relative.len() > 0 {
        assert(path.take(j.len() as int) == j);
        assert forall|i: int| 0 <= i < j.len() implies path[i] == j[i] by {
            assert(path.take(j.len() as int)[i] == j[i]);
        }
        assert(path.take(relative.len() as int) =~= relative);
    }
}

proof fn lemma_flatten_head(tree: Tree, relative: Seq<char>)
    ensures
        flatten(tree, relative).len() > 0,
        record_path(flatten(tree, relative)[0]) == relative,
{
}

proof fn lemma_flatten_injective(
    a: Tree,
    x: Seq<Record>,
    b: Tree,
    y: Seq<Record>,
    relative: Seq<char>,
)
    requires
        names_are_entries(a),
        names_are_entries(b),
        is_relative(relative),
        starts_outside(x, relative),
        starts_outside(y, relative),
        flatten(a, relative) + x == flatten(b, relative) + y,
    ensures
        a == b,
        x == y,
    decreases a,
{
    let w = flatten(a, relative) + x;
    lemma_flatten_head(a, relative);
    lemma_flatten_head(b, relative);
    assert(w[0] == flatten(a, relative)[0]);
    assert(w[0] == flatten(b, relative)[0]);
    match (a, b) {
        (Tree::Dir(ma), Tree::Dir(mb)) => {
            let head = seq![Record::Dir { path: relative }];
            assert(flatten(a, relative) + x =~= head + (flatten_members(ma, relative) + x));
            assert(flatten(b, relative) + y =~= head + (flatten_members(mb, relative) + y));
            lemma_split(
                head,
                flatten_members(ma, relative) + x,
                head,
                flatten_members(mb, relative) + y,
            );
            lemma_members_injective(ma, x, mb, y, relative);
        },
        _ => {
            assert(flatten(a, relative).len() == 1);
            assert(flatten(b, relative).len() == 1);
            lemma_split(flatten(a, relative), x, flatten(b, relative), y);
        },
    }
}

spec fn members_ok(members: Seq<(Seq<char>, Tree)>) -> bool {
    forall|i: int|
        0 <= i < members.len() ==> is_single_entry((#[trigger] members[i]).0) && names_are_entries(
            members[i].1,
        )
}

proof fn lemma_rest_outside(
    members: Seq<(Seq<char>, Tree)>,
    x: Seq<Record>,
    relative: Seq<char>,
    name: Seq<char>,
)
    requires
        members_ok(members),
        is_relative(relative),
        is_single_entry(name),
        starts_outside(x, relative),
    ensures
        starts_outside(flatten_members(members, relative) + x, join_text(relative, name)),
{
    let all = flatten_members(members, relative) + x;
    if members.len() > 0 {
        let path = join_text(relative, members[0].0);
        lemma_flatten_head(members[0].1, path);
        assert(all[0] == flatten(members[0].1, path)[0]);
        lemma_sibling_outside(relative, name, members[0].0);
    } else {
        assert(all =~= x);
        if x.len() > 0 && below(record_path(x[0]), join_text(relative, name)) {
            lemma_below_parent(record_path(x[0]), relative, name);
        }
    }
}

proof fn lemma_members_injective(
    ma: Seq<(Seq<char>, Tree)>,
    x: Seq<Record>,
    mb: Seq<(Seq<char>, Tree)>,
    y: Seq<Record>,
    relative: Seq<char>,
)
    requires
        members_ok(ma),
        members_ok(mb),
        is_relative(relative),
        starts_outside(x, relative),
        starts_outside(y, relative),
        flatten_members(ma, relative) + x == flatten_members(mb, relative) + y,
    ensures
        ma == mb,
        x == y,
    decreases ma,
{
    let w = flatten_members(ma, relative) + x;
    if ma.len() == 0 && mb.len() == 0 {
        assert(ma =~= mb);
        assert(w =~= x);
        assert(w =~= y);
    } else if ma.len() == 0 {
        assert(w =~= x);
        let path = join_text(relative, mb[0].0);
        lemma_flatten_head(mb[0].1, path);
        assert(w[0] == flatten(mb[0].1, path)[0]);
        lemma_join_shape(relative, mb[0].0);
    } else if mb.len() == 0 {
        assert(w =~= y);
        let path = join_text(relative, ma[0].0);
        lemma_flatten_head(ma[0].1, path);
        assert(w[0] == flatten(ma[0].1, path)[0]);
        lemma_join_shape(relative, ma[0].0);
    } else {
        let pa = join_text(relative, ma[0].0);
        let pb = join_text(relative, mb[0].0);
        lemma_flatten_head(ma[0].1, pa);
        lemma_flatten_head(mb[0].1, pb);
        assert(w[0] == flatten(ma[0].1, pa)[0]);
        assert(w[0] == flatten(mb[0].1, pb)[0]);
        lemma_join_injective(relative, ma[0].0, mb[0].0);
        lemma_join_shape(relative, ma[0].0);
        let xa = flatten_members(ma.drop_first(), relative) + x;
        let xb = flatten_members(mb.drop_first(), relative) + y;
        assert(w =~= flatten(ma[0].1, pa) + xa);
        assert(w =~= flatten(mb[0].1, pb) + xb);
        assert(members_ok(ma.drop_first())) by {
            assert forall|i: int| 0 <= i < ma.drop_first().len() implies is_single_entry(
                (#[trigger] ma.drop_first()[i]).0,
            ) && names_are_entries(ma.drop_first()[i].1) by {
                assert(ma.drop_first()[i] == ma[i + 1]);
            }
        }
        assert(members_ok(mb.drop_first())) by {
            assert forall|i: int| 0 <= i < mb.drop_first().len() implies is_single_entry(
                (#[trigger] mb.drop_first()[i]).0,
            ) && names_are_entries(mb.drop_first()[i].1) by {
                assert(mb.drop_first()[i] == mb[i + 1]);
            }
        }
        lemma_rest_outside(ma.drop_first(), x, relative, ma[0].0);
        lemma_rest_outside(mb.drop_first(), y, relative, ma[0].0);
        lemma_flatten_injective(ma[0].1, xa, mb[0].1, xb, pa);
        lemma_members_injective(ma.drop_first(), x, mb.drop_first(), y, relative);
        assert(ma =~= seq![ma[0]] + ma.drop_first());
        assert(mb =~= seq![mb[0]] + mb.drop_first());
    }
}

// The walk writes the records of the tree.

proof fn lemma_flatten_members_push(
    members: Seq<(Seq<char>, Tree)>,
    last: (Seq<char>, Tree),
    relative: Seq<char>,
)
    ensures
        flatten_members(members.push(last), relative) == flatten_members(members, relative)
            + flatten(last.1, join_text(relative, last.0)),
    decreases members.len(),
{
    let all = members.push(last);
    if members.len() == 0 {
        assert(all.drop_first() =~= members);
        assert(flatten_members(all.drop_first(), relative) =~= seq![]);
        assert(flatten_members(all, relative) =~= flatten(
            last.1,
            join_text(relative, last.0),
        ));
        assert(flatten_members(members, relative) + flatten(last.1, join_text(relative, last.0))
            =~= flatten(last.1, join_text(relative, last.0)));
    } else {
        assert(all.drop_first() =~= members.drop_first().push(last));
        lemma_flatten_members_push(members.drop_first(), last, relative);
        assert(flatten_members(all, relative) =~= flatten_members(members, relative) + flatten(
            last.1,
            join_text(relative, last.0),
        ));
    }
}

proof fn lemma_fit_concat(s: Seq<Record>, t: Seq<Record>)
    requires
        all_fit(s),
        all_fit(t),
    ensures
        all_fit(s + t),
{
    assert forall|i: int| 0 <= i < (s + t).len() implies fits(#[trigger] (s + t)[i]) by {
        if i < s.len() {
            assert((s + t)[i] == s[i]);
        } else {
            assert((s + t)[i] == t[i - s.len()]);
        }
    }
}

proof fn lemma_encode_single(r: Record)
    ensures
        encode_all(seq![r]) == encode(r),
{
    assert(encode_all(seq![r].drop_first()) =~= seq![]);
    assert(encode_all(seq![r]) =~= encode(r));
}

proof fn lemma_walk_records(node: DiskNode, relative: Seq<char>)
    requires
        walk(node, relative) is Ok,
    ensures
        walk(node, relative)->Ok_0.0 == encode_all(flatten(tree_of(node), relative)),
        all_fit(flatten(tree_of(node), relative)),
        names_are_entries(tree_of(node)),
    decreases node, 0nat,
{
    let tree = tree_of(node);
    let records = flatten(tree, relative);
    match node.status {
        DiskStatus::Present { mode, body, .. } => match body {
            DiskBody::Directory(Ok(children)) => {
                let n = children@.len();
                lemma_walk_members(children@, node.path@, relative, n);
                let members = tree_children(children@, n);
                let head = Record::Dir { path: relative };
                lemma_encode_all_concat(seq![head], flatten_members(members, relative));
                lemma_encode_single(head);
                lemma_fit_concat(seq![head], flatten_members(members, relative));
            },
            DiskBody::Symlink(Ok(link)) => {
                lemma_encode_single(records[0]);
                assert(records =~= seq![records[0]]);
            },
            DiskBody::File(file) => {
                lemma_encode_single(records[0]);
                assert(records =~= seq![records[0]]);
                assert(walk(node, relative)->Ok_0.0 =~= encode(records[0]));
            },
            _ => {},
        },
        _ => {},
    }
}

proof fn lemma_walk_members(
    children: Seq<DiskChild>,
    directory: Seq<char>,
    relative: Seq<char>,
    k: nat,
)
    requires
        walk_children(children, directory, relative, k) is Ok,
        k <= children.len(),
    ensures
        walk_children(children, directory, relative, k)->Ok_0.0 == encode_all(
            flatten_members(tree_children(children, k), relative),
        ),
        all_fit(flatten_members(tree_children(children, k), relative)),
        members_ok(tree_children(children, k)),
    decreases children, k,
{
    if k > 0 {
        lemma_walk_members(children, directory, relative, (k - 1) as nat);
        lemma_name_order_exists(child_names(children));
        let j = name_order(child_names(children))[k - 1];
        match children[j] {
            DiskChild::Entry { name, node, .. } => {
                let text = decode_utf8(name@);
                let path = join_text(relative, text);
                let before = tree_children(children, (k - 1) as nat);
                lemma_walk_records(node, path);
                lemma_flatten_members_push(before, (text, tree_of(node)), relative);
                lemma_encode_all_concat(
                    flatten_members(before, relative),
                    flatten(tree_of(node), path),
                );
                lemma_fit_concat(flatten_members(before, relative), flatten(tree_of(node), path));
            },
            _ => {},
        }
    }
}

/// Two store objects that could be read have the same canonical archive exactly when they are
/// the same tree: the same names, and at each name the same kind of entry with the same execute
/// flag, contents or link target.
pub proof fn archive_determines_tree(a: DiskNode, b: DiskNode)
    requires
        walk(a, seq![]) is Ok,
        walk(b, seq![]) is Ok,
    ensures
        whole_archive(walk(a, seq![])->Ok_0.0) == whole_archive(walk(b, seq![])->Ok_0.0)
            <==> tree_of(a) == tree_of(b),
{
    let root = Seq::<char>::empty();
    lemma_walk_records(a, root);
    lemma_walk_records(b, root);
    let ra = walk(a, root)->Ok_0.0;
    let rb = walk(b, root)->Ok_0.0;
    if whole_archive(ra) == whole_archive(rb) {
        let end = seq![RECORD_END];
        assert(whole_archive(ra) =~= archive_magic() + (ra + end));
        assert(whole_archive(rb) =~= archive_magic() + (rb + end));
        lemma_split(archive_magic(), ra + end, archive_magic(), rb + end);
        lemma_encode_all(flatten(tree_of(a), root), flatten(tree_of(b), root));
        let none = Seq::<Record>::empty();
        assert(flatten(tree_of(a), root) + none =~= flatten(tree_of(a), root));
        assert(flatten(tree_of(b), root) + none =~= flatten(tree_of(b), root));
        lemma_flatten_injective(tree_of(a), none, tree_of(b), none, root);
    }
}

// From trees to entries.

/// The digest of every file and the member of every link are what these functions make of the
/// contents and the target.
pub open spec fn follows(
    node: DiskNode,
    digest_of: spec_fn(Seq<u8>) -> DigestV,
    member_of: spec_fn(Seq<u8>) -> EntryV,
) -> bool
    decreases node,
{
    match node.status {
        DiskStatus::Present { body: DiskBody::Directory(Ok(children)), .. } => {
            forall|i: int|
                0 <= i < children@.len() ==> match #[trigger] children@[i] {
                    DiskChild::Entry { node: child, .. } => follows(child, digest_of, member_of),
                    _ => true,
                }
        },
        DiskStatus::Present { body: DiskBody::File(file), .. } => match file.content {
            Ok(content) => content.digest@ == digest_of(content.bytes@),
            Err(_) => true,
        },
        DiskStatus::Present { body: DiskBody::Symlink(Ok(link)), .. } => match link.member {
            Ok(member) => link_model(member) == member_of(link.target@),
            Err(_) => true,
        },
        _ => true,
    }
}

/// The entry of a tree.
pub open spec fn entry_of(
    tree: Tree,
    digest_of: spec_fn(Seq<u8>) -> DigestV,
    member_of: spec_fn(Seq<u8>) -> EntryV,
) -> EntryV
    decreases tree,
{
    match tree {
        Tree::Dir(members) => EntryV::Dir(entries_of(members, digest_of, member_of)),
        Tree::File { executable, bytes } => EntryV::File {
            digest: digest_of(bytes),
            is_executable: executable,
        },
        Tree::Link { target } => member_of(target),
    }
}

/// The entries of the members of a directory.
pub open spec fn entries_of(
    members: Seq<(Seq<char>, Tree)>,
    digest_of: spec_fn(Seq<u8>) -> DigestV,
    member_of: spec_fn(Seq<u8>) -> EntryV,
) -> Seq<(Seq<char>, EntryV)>
    decreases members,
{
    if members.len() == 0 {
        seq![]
    } else {
        entries_of(members.drop_last(), digest_of, member_of).push(
            (members.last().0, entry_of(members.last().1, digest_of, member_of)),
        )
    }
}

/// The entry of an object that could be read is that of its tree.
pub proof fn entry_is_of_the_tree(
    node: DiskNode,
    relative: Seq<char>,
    digest_of: spec_fn(Seq<u8>) -> DigestV,
    member_of: spec_fn(Seq<u8>) -> EntryV,
)
    requires
        follows(node, digest_of, member_of),
        walk(node, relative) is Ok,
    ensures
        walk(node, relative)->Ok_0.1 == entry_of(tree_of(node), digest_of, member_of),
    decreases node, 0nat,
{
    if let DiskStatus::Present { body: DiskBody::Directory(Ok(children)), .. } = node.status {
        assert forall|i: int| 0 <= i < children@.len() implies match #[trigger] children@[i] {
            DiskChild::Entry { node: child, .. } => follows(child, digest_of, member_of),
            _ => true,
        } by {}
        lemma_entries_of(
            children@,
            node.path@,
            relative,
            children@.len(),
            digest_of,
            member_of,
        );
    }
}

proof fn lemma_entries_of(
    children: Seq<DiskChild>,
    directory: Seq<char>,
    relative: Seq<char>,
    k: nat,
    digest_of: spec_fn(Seq<u8>) -> DigestV,
    member_of: spec_fn(Seq<u8>) -> EntryV,
)
    requires
        forall|i: int|
            0 <= i < children.len() ==> match #[trigger] children[i] {
                DiskChild::Entry { node: child, .. } => follows(child, digest_of, member_of),
                _ => true,
            },
        walk_children(children, directory, relative, k) is Ok,
        k <= children.len(),
    ensures
        walk_children(children, directory, relative, k)->Ok_0.1 == entries_of(
            tree_children(children, k),
            digest_of,
            member_of,
        ),
    decreases children, k,
{
    if k > 0 {
        lemma_entries_of(children, directory, relative, (k - 1) as nat, digest_of, member_of);
        lemma_name_order_exists(child_names(children));
        let j = name_order(child_names(children))[k - 1];
        if let DiskChild::Entry { name, node, .. } = children[j] {
            let text = decode_utf8(name@);
            let before = tree_children(children, (k - 1) as nat);
            entry_is_of_the_tree(node, join_text(relative, text), digest_of, member_of);
            assert(before.push((text, tree_of(node))).drop_last() =~= before);
        }
    }
}

/// Objects that are the same tree have the same entry, where digests and link members are made
/// from the contents and the targets alone.
pub proof fn equal_trees_have_equal_entries(
    a: DiskNode,
    b: DiskNode,
    digest_of: spec_fn(Seq<u8>) -> DigestV,
    member_of: spec_fn(Seq<u8>) -> EntryV,
)
    requires
        follows(a, digest_of, member_of),
        follows(b, digest_of, member_of),
        walk(a, seq![]) is Ok,
        walk(b, seq![]) is Ok,
        tree_of(a) == tree_of(b),
    ensures
        walk(a, seq![])->Ok_0.1 == walk(b, seq![])->Ok_0.1,
{
    entry_is_of_the_tree(a, seq![], digest_of, member_of);
    entry_is_of_the_tree(b, seq![], digest_of, member_of);
}

} // verus!
