//! Path texts: single entries, joining, and the absolute and relative normalized paths.

use vstd::prelude::*;
use vstd::string::*;

use crate::text::{chars_of, concat2, concat3, contains_char, same_text, texts};

verus! {

/// A name that stands for one entry of a directory.
pub open spec fn is_single_entry(name: Seq<char>) -> bool {
    &&& name.len() > 0
    &&& name != "."@
    &&& name != ".."@
    &&& !name.contains('/')
}

/// Whether `name` stands for one entry of a directory.
pub(crate) fn single_entry(name: &str) -> (res: bool)
    ensures
        res == is_single_entry(name@),
{
    !name.is_empty() && !same_text(name, ".") && !same_text(name, "..") && !contains_char(
        name,
        '/',
    )
}

/// The path of the entry `name` below `base`.
pub open spec fn join_text(base: Seq<char>, name: Seq<char>) -> Seq<char> {
    if base.len() == 0 {
        name
    } else if base.last() == '/' {
        base + name
    } else {
        base + "/"@ + name
    }
}

/// The path of the entry `name` below `base`.
pub(crate) fn join(base: &str, name: &str) -> (res: String)
    ensures
        res@ == join_text(base@, name@),
{
    let n: usize = base.unicode_len();
    if n == 0 {
        name.to_owned()
    } else if base.get_char(n - 1) == '/' {
        concat2(base, name)
    } else {
        concat3(base, "/", name)
    }
}

/// The parts of a text between its slashes.
pub open spec fn pieces(text: Seq<char>) -> Seq<Seq<char>>
    decreases text.len(),
{
    if text.len() == 0 {
        seq![seq![]]
    } else {
        let before = pieces(text.drop_last());
        if text.last() == '/' {
            before.push(seq![])
        } else {
            before.drop_last().push(before.last().push(text.last()))
        }
    }
}

/// The members of a list that are not empty.
pub open spec fn nonempty(list: Seq<Seq<char>>) -> Seq<Seq<char>>
    decreases list.len(),
{
    if list.len() == 0 {
        seq![]
    } else if list.last().len() == 0 {
        nonempty(list.drop_last())
    } else {
        nonempty(list.drop_last()).push(list.last())
    }
}

/// The names that a path goes through, from the top.
pub open spec fn components(text: Seq<char>) -> Seq<Seq<char>> {
    nonempty(pieces(text))
}

/// The names with a slash between each two.
pub open spec fn joined(parts: Seq<Seq<char>>) -> Seq<char>
    decreases parts.len(),
{
    if parts.len() == 0 {
        seq![]
    } else if parts.len() == 1 {
        parts[0]
    } else {
        joined(parts.drop_last()) + "/"@ + parts.last()
    }
}

/// An absolute path that goes through neither `.` nor `..`.
pub open spec fn is_abs_norm(text: Seq<char>) -> bool {
    &&& text.len() > 0
    &&& text[0] == '/'
    &&& forall|i: int|
        0 <= i < pieces(text).len() ==> #[trigger] pieces(text)[i] != "."@ && pieces(text)[i]
            != ".."@
}

/// A relative path that goes through proper names only. The empty path is the place itself.
pub open spec fn is_forward_relative(text: Seq<char>) -> bool {
    text.len() == 0 || forall|i: int|
        0 <= i < pieces(text).len() ==> is_single_entry(#[trigger] pieces(text)[i])
}

pub proof fn lemma_pieces_nonempty(text: Seq<char>)
    ensures
        pieces(text).len() > 0,
    decreases text.len(),
{
    if text.len() > 0 {
        lemma_pieces_nonempty(text.drop_last());
    }
}

/// A text without slashes is one piece.
pub proof fn lemma_pieces_single(text: Seq<char>)
    requires
        !text.contains('/'),
    ensures
        pieces(text) == seq![text],
    decreases text.len(),
{
    if text.len() > 0 {
        let short = text.drop_last();
        assert(text.last() != '/') by {
            assert(text[text.len() - 1] == text.last());
        }
        assert forall|i: int| 0 <= i < short.len() implies short[i] != '/' by {
            assert(short[i] == text[i]);
        }
        lemma_pieces_single(short);
        assert(short.push(text.last()) =~= text);
        assert(pieces(text) =~= seq![text]);
    } else {
        assert(text =~= seq![]);
        assert(pieces(text) =~= seq![text]);
    }
}

/// A slash parts the pieces before it from the pieces behind it.
pub proof fn lemma_pieces_join(a: Seq<char>, b: Seq<char>)
    ensures
        pieces(a + seq!['/'] + b) == pieces(a) + pieces(b),
    decreases b.len(),
{
    let all = a + seq!['/'] + b;
    if b.len() == 0 {
        assert(all.drop_last() =~= a);
        assert(all.last() == '/');
        assert(pieces(all) =~= pieces(a) + pieces(b));
    } else {
        let c = b.drop_last();
        lemma_pieces_join(a, c);
        lemma_pieces_nonempty(c);
        assert(all.drop_last() =~= a + seq!['/'] + c);
        assert(all.last() == b.last());
        if b.last() == '/' {
            assert(pieces(all) =~= pieces(a) + pieces(b));
        } else {
            assert((pieces(a) + pieces(c)).drop_last() =~= pieces(a) + pieces(c).drop_last());
            assert(pieces(all) =~= pieces(a) + pieces(b));
        }
    }
}

proof fn lemma_nonempty_concat(a: Seq<Seq<char>>, b: Seq<Seq<char>>)
    ensures
        nonempty(a + b) == nonempty(a) + nonempty(b),
    decreases b.len(),
{
    if b.len() == 0 {
        assert(a + b =~= a);
        assert(nonempty(a) + nonempty(b) =~= nonempty(a));
    } else {
        lemma_nonempty_concat(a, b.drop_last());
        assert((a + b).drop_last() =~= a + b.drop_last());
        assert(nonempty(a + b) =~= nonempty(a) + nonempty(b));
    }
}

/// The names of a path behind a slash follow those before it.
pub proof fn lemma_components_join(a: Seq<char>, b: Seq<char>)
    ensures
        components(a + seq!['/'] + b) == components(a) + components(b),
{
    lemma_pieces_join(a, b);
    lemma_nonempty_concat(pieces(a), pieces(b));
}

/// A single entry is its own only name.
pub proof fn lemma_components_single(name: Seq<char>)
    requires
        is_single_entry(name),
    ensures
        components(name) == seq![name],
{
    lemma_pieces_single(name);
    assert(seq![name].drop_last() =~= seq![]);
    assert(nonempty(seq![name].drop_last()) =~= seq![]);
    assert(nonempty(seq![name]) =~= seq![name]);
}

/// Joined single entries come apart again.
pub proof fn lemma_pieces_joined(parts: Seq<Seq<char>>)
    requires
        parts.len() > 0,
        forall|i: int| 0 <= i < parts.len() ==> !(#[trigger] parts[i]).contains('/'),
    ensures
        pieces(joined(parts)) == parts,
    decreases parts.len(),
{
    lemma_pieces_single(parts.last());
    if parts.len() == 1 {
        assert(parts =~= seq![parts[0]]);
    } else {
        reveal_strlit("/");
        assert("/"@ =~= seq!['/']);
        lemma_pieces_joined(parts.drop_last());
        lemma_pieces_join(joined(parts.drop_last()), parts.last());
        assert(parts.drop_last() + seq![parts.last()] =~= parts);
    }
}

/// No piece holds a slash.
pub proof fn lemma_pieces_have_no_slash(text: Seq<char>)
    ensures
        forall|i: int| 0 <= i < pieces(text).len() ==> !(#[trigger] pieces(text)[i]).contains('/'),
    decreases text.len(),
{
    if text.len() > 0 {
        let short = text.drop_last();
        lemma_pieces_have_no_slash(short);
        lemma_pieces_nonempty(short);
        let before = pieces(short);
        let all = pieces(text);
        assert forall|i: int| 0 <= i < all.len() implies !(#[trigger] all[i]).contains('/') by {
            if text.last() == '/' {
                if i < before.len() {
                    assert(all[i] == before[i]);
                }
            } else if i < before.len() - 1 {
                assert(all[i] == before[i]);
            } else {
                assert(all[i] == before.last().push(text.last()));
                assert(!before[before.len() - 1].contains('/'));
                if all[i].contains('/') {
                    let k = choose|k: int| 0 <= k < all[i].len() && all[i][k] == '/';
                    assert(before.last()[k] == '/');
                }
            }
        }
    }
}

proof fn lemma_nonempty_members(list: Seq<Seq<char>>)
    ensures
        forall|i: int|
            0 <= i < nonempty(list).len() ==> (#[trigger] nonempty(list)[i]).len() > 0
                && list.contains(nonempty(list)[i]),
    decreases list.len(),
{
    if list.len() > 0 {
        let short = list.drop_last();
        lemma_nonempty_members(short);
        assert forall|i: int| 0 <= i < nonempty(list).len() implies (#[trigger] nonempty(
            list,
        )[i]).len() > 0 && list.contains(nonempty(list)[i]) by {
            let name = nonempty(list)[i];
            if i < nonempty(short).len() {
                assert(name == nonempty(short)[i]);
                let k = choose|k: int| 0 <= k < short.len() && short[k] == name;
                assert(list[k] == name);
            } else {
                assert(list[list.len() - 1] == name);
            }
        }
    }
}

/// The names of an absolute normalized path are single entries.
pub proof fn lemma_components_single_entries(text: Seq<char>)
    requires
        is_abs_norm(text),
    ensures
        forall|i: int|
            0 <= i < components(text).len() ==> is_single_entry(#[trigger] components(text)[i]),
{
    lemma_pieces_have_no_slash(text);
    lemma_nonempty_members(pieces(text));
    assert forall|i: int| 0 <= i < components(text).len() implies is_single_entry(
        #[trigger] components(text)[i],
    ) by {
        let name = components(text)[i];
        let k = choose|k: int| 0 <= k < pieces(text).len() && pieces(text)[k] == name;
        assert(pieces(text)[k] == name);
    }
}

/// The pieces of a text.
pub(crate) fn pieces_of(text: &str) -> (res: Vec<String>)
    ensures
        texts(res@) == pieces(text@),
{
    let chars = chars_of(text);
    let mut done: Vec<String> = Vec::new();
    let mut start: usize = 0;
    let mut i: usize = 0;
    proof {
        assert(chars@.take(0) =~= Seq::<char>::empty());
        assert(chars@.subrange(0, 0) =~= Seq::<char>::empty());
        assert(texts(done@).push(chars@.subrange(0, 0)) =~= pieces(chars@.take(0)));
    }
    while i < chars.len()
        invariant
            start <= i <= chars@.len(),
            chars@ == text@,
            texts(done@).push(chars@.subrange(start as int, i as int)) == pieces(
                chars@.take(i as int),
            ),
        decreases chars.len() - i,
    {
        let ghost before = pieces(chars@.take(i as int));
        let ghost part = chars@.subrange(start as int, i as int);
        let ghost old_done = texts(done@);
        assert(chars@.take(i + 1).drop_last() =~= chars@.take(i as int));
        assert(chars@.take(i + 1).last() == chars@[i as int]);
        assert(before.last() == part);
        assert(before.drop_last() =~= old_done);
        if chars[i] == '/' {
            done.push(text.substring_char(start, i).to_owned());
            start = i + 1;
            proof {
                assert(texts(done@) =~= old_done.push(part));
                assert(chars@.subrange(start as int, i + 1) =~= Seq::<char>::empty());
                assert(texts(done@).push(chars@.subrange(start as int, i + 1)) =~= pieces(
                    chars@.take(i + 1),
                ));
            }
        } else {
            proof {
                assert(chars@.subrange(start as int, i + 1) =~= part.push(chars@[i as int]));
                assert(texts(done@).push(chars@.subrange(start as int, i + 1)) =~= pieces(
                    chars@.take(i + 1),
                ));
            }
        }
        i += 1;
    }
    let ghost old_done = texts(done@);
    done.push(text.substring_char(start, i).to_owned());
    proof {
        assert(chars@.take(i as int) =~= text@);
        assert(texts(done@) =~= old_done.push(text@.subrange(start as int, i as int)));
    }
    done
}

/// The names that a path goes through.
pub(crate) fn components_of(text: &str) -> (res: Vec<String>)
    ensures
        texts(res@) == components(text@),
{
    let all = pieces_of(text);
    let mut res: Vec<String> = Vec::new();
    let mut i: usize = 0;
    let ghost list = texts(all@);
    assert(list.take(0) =~= seq![]);
    assert(texts(res@) =~= nonempty(list.take(0)));
    while i < all.len()
        invariant
            i <= all@.len(),
            list == texts(all@),
            texts(res@) == nonempty(list.take(i as int)),
        decreases all.len() - i,
    {
        assert(list.take(i + 1).drop_last() =~= list.take(i as int));
        assert(list.take(i + 1).last() == all@[i as int]@);
        let ghost before = texts(res@);
        if !all[i].as_str().is_empty() {
            res.push(all[i].clone());
            assert(texts(res@) =~= before.push(all@[i as int]@));
        }
        i += 1;
    }
    assert(list.take(i as int) =~= list);
    res
}

/// The names from position `from` on, with a slash between each two.
pub(crate) fn join_from(parts: &Vec<String>, from: usize) -> (res: String)
    requires
        from <= parts@.len(),
    ensures
        res@ == joined(texts(parts@).skip(from as int)),
{
    let ghost list = texts(parts@).skip(from as int);
    if from == parts.len() {
        let res = String::new();
        assert(list.len() == 0);
        assert(res@ =~= joined(list));
        return res;
    }
    let mut res = parts[from].clone();
    let mut i: usize = from + 1;
    assert(list.take(1) =~= seq![parts@[from as int]@]);
    while i < parts.len()
        invariant
            from < i <= parts@.len(),
            list == texts(parts@).skip(from as int),
            res@ == joined(list.take(i - from)),
        decreases parts.len() - i,
    {
        assert(list.take(i - from + 1).drop_last() =~= list.take(i - from));
        assert(list.take(i - from + 1).last() == parts@[i as int]@);
        res.append("/");
        res.append(&parts[i]);
        i += 1;
    }
    assert(list.take(i - from) =~= list);
    res
}

} // verus!
