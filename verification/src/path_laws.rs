//! What paths are, character by character: which names stand for one entry, how a path comes
//! apart at its slashes, which paths are normalized, and which path an object has in the store.

use vstd::prelude::*;

use crate::abs_path::{below_text, parent_text, trimmed, upper};
use crate::paths::{
    components, is_abs_norm, is_forward_relative, is_single_entry, join_text, joined,
    lemma_pieces_have_no_slash, lemma_pieces_join, lemma_pieces_nonempty, lemma_pieces_single,
    nonempty, pieces,
};
use crate::registry::{names_in_store, staged_place, DeclarationError};
use crate::store_path::{identity_path, IdentityError};

verus! {

/// A name stands for one entry unless it is empty, is a dot or two, or holds a slash. Nothing else
/// is refused.
pub proof fn single_entries_are_all_other_names(name: Seq<char>)
    ensures
        is_single_entry(name) <==> {
            &&& name.len() > 0
            &&& name != seq!['.']
            &&& name != seq!['.', '.']
            &&& forall|i: int| 0 <= i < name.len() ==> #[trigger] name[i] != '/'
        },
{
    reveal_strlit(".");
    reveal_strlit("..");
    assert("."@ =~= seq!['.']);
    assert(".."@ =~= seq!['.', '.']);
    if !name.contains('/') {
        assert forall|i: int| 0 <= i < name.len() implies #[trigger] name[i] != '/' by {}
    }
}

/// The path of an entry is the path of its directory, a slash unless there is one, and the name. In
/// the directory that has no path, it is the name.
pub proof fn joined_paths_hold_directory_and_name(base: Seq<char>, name: Seq<char>)
    ensures
        base.len() == 0 ==> join_text(base, name) == name,
        base.len() > 0 && base.last() == '/' ==> join_text(base, name) == base + name,
        base.len() > 0 && base.last() != '/' ==> join_text(base, name) == base + seq!['/'] + name,
        below_text(base, name) == if name.len() == 0 {
            base
        } else {
            join_text(base, name)
        },
{
    reveal_strlit("/");
    assert("/"@ =~= seq!['/']);
}

/// The parts, with a slash between each two.
pub open spec fn with_slashes(parts: Seq<Seq<char>>) -> Seq<char>
    decreases parts.len(),
{
    if parts.len() == 0 {
        seq![]
    } else if parts.len() == 1 {
        parts[0]
    } else {
        parts[0] + seq!['/'] + with_slashes(parts.drop_first())
    }
}

proof fn lemma_with_slashes_push(parts: Seq<Seq<char>>, last: Seq<char>)
    requires
        parts.len() > 0,
    ensures
        with_slashes(parts.push(last)) == with_slashes(parts) + seq!['/'] + last,
    decreases parts.len(),
{
    let all = parts.push(last);
    assert(all.drop_first() =~= parts.drop_first().push(last));
    if parts.len() == 1 {
        assert(all.drop_first() =~= seq![last]);
        assert(with_slashes(seq![last]) == last);
    } else {
        lemma_with_slashes_push(parts.drop_first(), last);
        assert(with_slashes(all) =~= with_slashes(parts) + seq!['/'] + last);
    }
}

/// A text comes apart at its slashes and nowhere else: there is at least one piece, no piece holds
/// a slash, and put together with slashes they give the text.
pub proof fn pieces_give_the_text_back(text: Seq<char>)
    ensures
        pieces(text).len() > 0,
        forall|i: int, k: int|
            0 <= i < pieces(text).len() && 0 <= k < pieces(text)[i].len()
                ==> #[trigger] pieces(text)[i][k] != '/',
        with_slashes(pieces(text)) == text,
    decreases text.len(),
{
    lemma_pieces_nonempty(text);
    lemma_pieces_have_no_slash(text);
    assert forall|i: int, k: int|
        0 <= i < pieces(text).len() && 0 <= k < pieces(text)[i].len() implies #[trigger] pieces(
        text,
    )[i][k] != '/' by {
        assert(!pieces(text)[i].contains('/'));
    }
    if text.len() > 0 {
        let short = text.drop_last();
        let before = pieces(short);
        pieces_give_the_text_back(short);
        if text.last() == '/' {
            let none = Seq::<char>::empty();
            lemma_with_slashes_push(before, none);
            assert(text =~= short + seq!['/'] + none);
        } else {
            let rest = before.drop_last();
            let last = before.last();
            assert(rest.push(last) =~= before);
            if rest.len() == 0 {
                assert(before =~= seq![last]);
                assert(pieces(text) =~= seq![last.push(text.last())]);
                assert(with_slashes(pieces(text)) =~= text);
            } else {
                lemma_with_slashes_push(rest, last);
                lemma_with_slashes_push(rest, last.push(text.last()));
                assert(pieces(text) == rest.push(last.push(text.last())));
                assert(short == with_slashes(rest) + seq!['/'] + last);
                assert(text =~= short.push(text.last()));
                assert(with_slashes(pieces(text)) =~= text);
            }
        }
    } else {
        assert(text =~= seq![]);
    }
}

/// Names put together give the text in which they stand with a slash between each two.
pub proof fn names_are_joined_with_slashes(parts: Seq<Seq<char>>)
    ensures
        joined(parts) == with_slashes(parts),
    decreases parts.len(),
{
    reveal_strlit("/");
    assert("/"@ =~= seq!['/']);
    if parts.len() > 1 {
        let short = parts.drop_last();
        names_are_joined_with_slashes(short);
        lemma_with_slashes_push(short, parts.last());
        assert(short.push(parts.last()) =~= parts);
    }
}

/// The names that a path goes through are the pieces between its slashes that are not empty.
pub proof fn components_are_the_pieces_that_are_not_empty(text: Seq<char>)
    ensures
        components(text) == pieces(text).filter(|piece: Seq<char>| piece.len() > 0),
{
    lemma_nonempty_is_filter(pieces(text));
}

proof fn lemma_nonempty_is_filter(list: Seq<Seq<char>>)
    ensures
        nonempty(list) == list.filter(|piece: Seq<char>| piece.len() > 0),
    decreases list.len(),
{
    reveal(Seq::filter);
    if list.len() > 0 {
        lemma_nonempty_is_filter(list.drop_last());
    }
}

/// The part stands in the text between two slashes, or between a slash and an end of the text.
pub open spec fn stands_between_slashes(text: Seq<char>, part: Seq<char>) -> bool {
    exists|i: int, j: int| #[trigger] is_between_slashes(text, i, j) && text.subrange(i, j) == part
}

/// A slash or the end of the text is on either side, and none is between.
pub open spec fn is_between_slashes(text: Seq<char>, i: int, j: int) -> bool {
    &&& 0 <= i <= j <= text.len()
    &&& i == 0 || text[i - 1] == '/'
    &&& j == text.len() || text[j] == '/'
    &&& forall|k: int| i <= k < j ==> #[trigger] text[k] != '/'
}

proof fn lemma_between_longer(text: Seq<char>, i: int, j: int)
    requires
        text.len() > 0,
        is_between_slashes(text.drop_last(), i, j),
        text[j] == '/',
    ensures
        is_between_slashes(text, i, j),
{
    let short = text.drop_last();
    assert forall|k: int| i <= k < j implies #[trigger] text[k] != '/' by {
        assert(text[k] == short[k]);
    }
    assert(i == 0 || text[i - 1] == short[i - 1]);
}

proof fn lemma_piece_stands(text: Seq<char>, k: int) -> (at: (int, int))
    requires
        0 <= k < pieces(text).len(),
    ensures
        is_between_slashes(text, at.0, at.1),
        text.subrange(at.0, at.1) == pieces(text)[k],
        k == pieces(text).len() - 1 <==> at.1 == text.len(),
    decreases text.len(),
{
    if text.len() == 0 {
        assert(text.subrange(0, 0) =~= pieces(text)[k]);
        (0, 0)
    } else {
        let short = text.drop_last();
        let n = short.len() as int;
        let before = pieces(short);
        lemma_pieces_nonempty(short);
        if text.last() == '/' {
            if k < before.len() {
                let (i, j) = lemma_piece_stands(short, k);
                assert(text.subrange(i, j) =~= short.subrange(i, j));
                assert(j == n || text[j] == short[j]);
                lemma_between_longer(text, i, j);
                (i, j)
            } else {
                assert(text.subrange(n + 1, n + 1) =~= pieces(text)[k]);
                (n + 1, n + 1)
            }
        } else {
            let (i, j) = lemma_piece_stands(short, k);
            if k < before.len() - 1 {
                assert(text.subrange(i, j) =~= short.subrange(i, j));
                assert(text[j] == short[j]);
                lemma_between_longer(text, i, j);
                (i, j)
            } else {
                assert(text.subrange(i, n + 1) =~= short.subrange(i, n).push(text.last()));
                assert forall|m: int| i <= m < n + 1 implies #[trigger] text[m] != '/' by {
                    if m < n {
                        assert(text[m] == short[m]);
                    }
                }
                assert(i == 0 || text[i - 1] == short[i - 1]);
                (i, n + 1)
            }
        }
    }
}

proof fn lemma_standing_is_piece(text: Seq<char>, i: int, j: int) -> (k: int)
    requires
        is_between_slashes(text, i, j),
    ensures
        0 <= k < pieces(text).len(),
        text.subrange(i, j) == pieces(text)[k],
        k == pieces(text).len() - 1 <==> j == text.len(),
    decreases text.len(),
{
    if text.len() == 0 {
        assert(text.subrange(i, j) =~= pieces(text)[0]);
        0
    } else {
        let short = text.drop_last();
        let n = short.len() as int;
        let before = pieces(short);
        lemma_pieces_nonempty(short);
        assert(text[n] == text.last());
        if text.last() == '/' {
            if j == n + 1 {
                assert(i == n + 1);
                assert(text.subrange(i, j) =~= seq![]);
                before.len() as int
            } else {
                assert(j == n || short[j] == text[j]);
                let k = lemma_standing_is_piece(short, i, j);
                assert(text.subrange(i, j) =~= short.subrange(i, j));
                k
            }
        } else if j == n + 1 {
            assert(i <= n);
            let k = lemma_standing_is_piece(short, i, n);
            assert(text.subrange(i, j) =~= short.subrange(i, n).push(text.last()));
            k
        } else {
            assert(j < n && short[j] == text[j]);
            let k = lemma_standing_is_piece(short, i, j);
            assert(text.subrange(i, j) =~= short.subrange(i, j));
            k
        }
    }
}

proof fn lemma_pieces_stand(text: Seq<char>, part: Seq<char>)
    ensures
        pieces(text).contains(part) <==> stands_between_slashes(text, part),
{
    if pieces(text).contains(part) {
        let k = choose|k: int| 0 <= k < pieces(text).len() && pieces(text)[k] == part;
        let (i, j) = lemma_piece_stands(text, k);
        assert(is_between_slashes(text, i, j) && text.subrange(i, j) == part);
    }
    if stands_between_slashes(text, part) {
        let (i, j) = choose|i: int, j: int| #[trigger]
            is_between_slashes(text, i, j) && text.subrange(i, j) == part;
        let k = lemma_standing_is_piece(text, i, j);
        assert(pieces(text)[k] == part);
    }
}

/// A path is absolute and normalized exactly if it begins with a slash and neither one dot nor two
/// dots stand in it between slashes. Nothing else is refused.
pub proof fn absolute_paths_are_all_without_dots(text: Seq<char>)
    ensures
        is_abs_norm(text) <==> {
            &&& text.len() > 0
            &&& text[0] == '/'
            &&& !stands_between_slashes(text, seq!['.'])
            &&& !stands_between_slashes(text, seq!['.', '.'])
        },
{
    reveal_strlit(".");
    reveal_strlit("..");
    assert("."@ =~= seq!['.']);
    assert(".."@ =~= seq!['.', '.']);
    lemma_pieces_stand(text, seq!['.']);
    lemma_pieces_stand(text, seq!['.', '.']);
    if text.len() > 0 && text[0] == '/' && !pieces(text).contains(seq!['.']) && !pieces(
        text,
    ).contains(seq!['.', '.']) {
        assert forall|i: int| 0 <= i < pieces(text).len() implies #[trigger] pieces(text)[i] != "."@
            && pieces(text)[i] != ".."@ by {}
    }
    if is_abs_norm(text) {
        assert(!pieces(text).contains(seq!['.']));
        assert(!pieces(text).contains(seq!['.', '.']));
    }
}

/// A relative path goes down only exactly if it is empty, or neither nothing nor one dot nor two
/// dots stand in it between slashes. Nothing else is refused.
pub proof fn forward_paths_are_all_without_dots(text: Seq<char>)
    ensures
        is_forward_relative(text) <==> text.len() == 0 || {
            &&& !stands_between_slashes(text, seq![])
            &&& !stands_between_slashes(text, seq!['.'])
            &&& !stands_between_slashes(text, seq!['.', '.'])
        },
{
    reveal_strlit(".");
    reveal_strlit("..");
    assert("."@ =~= seq!['.']);
    assert(".."@ =~= seq!['.', '.']);
    let none = Seq::<char>::empty();
    lemma_pieces_stand(text, none);
    lemma_pieces_stand(text, seq!['.']);
    lemma_pieces_stand(text, seq!['.', '.']);
    lemma_pieces_have_no_slash(text);
    if !pieces(text).contains(none) && !pieces(text).contains(seq!['.']) && !pieces(text).contains(
        seq!['.', '.'],
    ) {
        assert forall|i: int| 0 <= i < pieces(text).len() implies is_single_entry(
            #[trigger] pieces(text)[i],
        ) by {
            if pieces(text)[i].len() == 0 {
                assert(pieces(text)[i] =~= none);
            }
        }
    }
    if is_forward_relative(text) && text.len() > 0 {
        assert(!pieces(text).contains(none));
        assert(!pieces(text).contains(seq!['.']));
        assert(!pieces(text).contains(seq!['.', '.']));
    }
}

proof fn lemma_upper(base: Seq<char>, name: Seq<char>)
    requires
        forall|i: int| 0 <= i < name.len() ==> #[trigger] name[i] != '/',
    ensures
        upper(base.push('/') + name) == base.push('/'),
    decreases name.len(),
{
    let text = base.push('/') + name;
    if name.len() == 0 {
        assert(text =~= base.push('/'));
    } else {
        let short = name.drop_last();
        assert(name[name.len() - 1] != '/');
        assert(text.last() == name.last());
        assert(text.drop_last() =~= base.push('/') + short);
        assert forall|i: int| 0 <= i < short.len() implies #[trigger] short[i] != '/' by {
            assert(short[i] == name[i]);
        }
        lemma_upper(base, short);
    }
}

/// The directory of an entry is what stands before the slash and the name: of an entry below the
/// root the root, and slashes too many make no difference. The root is in no directory.
pub proof fn the_parent_is_before_the_name(base: Seq<char>, name: Seq<char>)
    requires
        name.len() > 0,
        forall|i: int| 0 <= i < name.len() ==> #[trigger] name[i] != '/',
    ensures
        base.len() > 0 && base.last() != '/' ==> parent_text(base + seq!['/'] + name) == Some(base),
        parent_text(seq!['/'] + name) == Some(seq!['/']),
        base.len() + name.len() > 0 ==> parent_text(base.push('/').push('/') + name) == parent_text(
            base.push('/') + name,
        ),
        base.len() > 0 ==> parent_text(base.push('/')) == parent_text(base),
        parent_text(seq!['/']) == None::<Seq<char>>,
{
    let none = Seq::<char>::empty();
    assert(name[name.len() - 1] != '/');
    let text = base + seq!['/'] + name;
    assert(text =~= base.push('/') + name);
    assert(text.last() == name.last());
    assert(trimmed(text) == text);
    lemma_upper(base, name);
    assert(base.push('/').drop_last() =~= base);
    if base.len() > 0 {
        assert(trimmed(base.push('/')) == trimmed(base));
    }
    let top = seq!['/'] + name;
    assert(top =~= none.push('/') + name);
    assert(top.last() == name.last());
    assert(trimmed(top) == top);
    lemma_upper(none, name);
    assert(none.push('/') =~= seq!['/']);
    assert(trimmed(seq!['/']) == seq!['/']);
    let double = base.push('/').push('/') + name;
    assert(double.last() == name.last());
    assert(trimmed(double) == double);
    lemma_upper(base.push('/'), name);
    assert(base.push('/').push('/').drop_last() =~= base.push('/'));
    assert(trimmed(base.push('/').push('/')) == trimmed(base.push('/')));
}

/// An object has a store path exactly if its key is 32 hexadecimal digits in lower case and its
/// name stands for one entry, and then the path is `/pkgs/store/`, the key, a hyphen and the name.
/// Nothing else is refused; the key is looked at first.
pub proof fn every_identity_has_its_path(key: Seq<char>, name: Seq<char>)
    ensures
        ({
            let key_is_good = key.len() == 32 && forall|i: int|
                0 <= i < key.len() ==> ('0' <= #[trigger] key[i] && key[i] <= '9') || ('a' <= key[i]
                    && key[i] <= 'f');
            let name_is_good = {
                &&& name.len() > 0
                &&& name != seq!['.']
                &&& name != seq!['.', '.']
                &&& forall|i: int| 0 <= i < name.len() ==> #[trigger] name[i] != '/'
            };
            identity_path(key, name) == if !key_is_good {
                Err::<Seq<char>, IdentityError<Seq<char>>>(IdentityError::InvalidKey(key))
            } else if !name_is_good {
                Err(IdentityError::InvalidName(name))
            } else {
                Ok("/pkgs/store/"@ + key + seq!['-'] + name)
            }
        }),
{
    single_entries_are_all_other_names(name);
    reveal_strlit("-");
    assert("-"@ =~= seq!['-']);
    assert("/pkgs/store/"@ + (key + "-"@ + name) =~= "/pkgs/store/"@ + key + seq!['-'] + name);
    if key.len() == 32 {
        if crate::store_path::is_store_key(key) {
            assert forall|i: int| 0 <= i < key.len() implies ('0' <= #[trigger] key[i] && key[i]
                <= '9') || ('a' <= key[i] && key[i] <= 'f') by {
                assert(crate::store_path::is_lower_hex_digit(key[i]));
            }
        }
    }
}

proof fn lemma_store_names()
    ensures
        components("/pkgs/store"@) == seq!["pkgs"@, "store"@],
{
    reveal_strlit("/pkgs/store");
    reveal_strlit("pkgs");
    reveal_strlit("store");
    let none = Seq::<char>::empty();
    let a = none + seq!['/'] + "pkgs"@;
    assert("/pkgs/store"@ =~= a + seq!['/'] + "store"@);
    lemma_pieces_join(a, "store"@);
    lemma_pieces_join(none, "pkgs"@);
    lemma_pieces_single(none);
    lemma_pieces_single("pkgs"@);
    lemma_pieces_single("store"@);
    let list = seq![none, "pkgs"@, "store"@];
    assert(pieces("/pkgs/store"@) =~= list);
    assert(list.drop_last() =~= seq![none, "pkgs"@]);
    assert(list.drop_last().drop_last() =~= seq![none]);
    assert(list.drop_last().drop_last().drop_last() =~= seq![]);
    assert(nonempty(seq![]) =~= Seq::<Seq<char>>::empty());
    assert(nonempty(seq![none]) =~= Seq::<Seq<char>>::empty());
    assert(nonempty(seq![none, "pkgs"@]) =~= seq!["pkgs"@]);
    assert(nonempty(list) =~= seq!["pkgs"@, "store"@]);
}

/// The output for a store path is staged under the names that follow `pkgs` and `store`, below
/// `__buckpkgs_store__`. A path that does not go through these two is refused, and so is the store
/// itself.
pub proof fn outputs_are_staged_by_their_names_in_the_store(logical: Seq<char>)
    ensures
        ({
            let names = pieces(logical).filter(|piece: Seq<char>| piece.len() > 0);
            staged_place(logical) == if !(names.len() >= 2 && names[0] == "pkgs"@ && names[1]
                == "store"@) {
                Err::<Seq<char>, DeclarationError<Seq<char>>>(
                    DeclarationError::NotUnderStore(logical),
                )
            } else if names.len() == 2 {
                Err(DeclarationError::NoEntry)
            } else {
                Ok("__buckpkgs_store__/"@ + with_slashes(names.skip(2)))
            }
        }),
{
    lemma_store_names();
    components_are_the_pieces_that_are_not_empty(logical);
    let names = components(logical);
    let root = components("/pkgs/store"@);
    if names.len() >= 2 && names[0] == "pkgs"@ && names[1] == "store"@ {
        assert(root =~= names.subrange(0, 2));
    }
    if root.is_prefix_of(names) {
        assert(names.subrange(0, 2)[0] == root[0] && names.subrange(0, 2)[1] == root[1]);
    }
    assert(names_in_store(logical) == names.skip(2));
    names_are_joined_with_slashes(names.skip(2));
}

} // verus!
