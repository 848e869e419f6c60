//! Absolute normalized paths, and relative paths that only go down.

use vstd::prelude::*;
use vstd::string::*;

use crate::paths::{
    components, components_of, is_abs_norm, is_forward_relative, is_single_entry, join, join_from,
    join_text, joined, lemma_components_single_entries, lemma_pieces_join, lemma_pieces_joined,
    lemma_pieces_nonempty, pieces, pieces_of, single_entry,
};
use crate::text::{chars_of, concat2, same_text, texts};

verus! {

/// An absolute path that goes through neither `.` nor `..`. It keeps its text as it was given.
#[derive(Debug)]
pub struct AbsNormPathBuf {
    path: String,
}

impl View for AbsNormPathBuf {
    type V = Seq<char>;

    closed spec fn view(&self) -> Seq<char> {
        self.path@
    }
}

impl AbsNormPathBuf {
    #[verifier::type_invariant]
    spec fn wf(self) -> bool {
        is_abs_norm(self.path@)
    }

    /// The path with this text, if the text is an absolute normalized path.
    pub fn parse(text: &str) -> (res: Option<AbsNormPathBuf>)
        ensures
            match res {
                Some(path) => is_abs_norm(text@) && path@ == text@,
                None => !is_abs_norm(text@),
            },
    {
        let n: usize = text.unicode_len();
        if n == 0 || text.get_char(0) != '/' {
            return None;
        }
        let parts = pieces_of(text);
        let mut i: usize = 0;
        while i < parts.len()
            invariant
                i <= parts@.len(),
                texts(parts@) == pieces(text@),
                forall|j: int|
                    0 <= j < i ==> #[trigger] pieces(text@)[j] != "."@ && pieces(text@)[j] != ".."@,
            decreases parts.len() - i,
        {
            assert(texts(parts@)[i as int] == parts@[i as int]@);
            if same_text(&parts[i], ".") || same_text(&parts[i], "..") {
                return None;
            }
            i += 1;
        }
        Some(AbsNormPathBuf { path: text.to_owned() })
    }

    /// The text of the path.
    pub fn as_str(&self) -> (res: &str)
        ensures
            res@ == self@,
            is_abs_norm(self@),
    {
        proof {
            use_type_invariant(self);
        }
        self.path.as_str()
    }

    /// A second copy of the path.
    pub fn duplicate(&self) -> (res: AbsNormPathBuf)
        ensures
            res@ == self@,
    {
        proof {
            use_type_invariant(self);
        }
        AbsNormPathBuf { path: self.path.clone() }
    }

    /// The way from `base` down to the path, if the path is `base` or lies below it.
    pub fn strip_prefix(&self, base: &AbsNormPathBuf) -> (res: Option<ForwardRelativePathBuf>)
        ensures
            match res {
                Some(rest) => components(base@).is_prefix_of(components(self@)) && rest@ == joined(
                    components(self@).skip(components(base@).len() as int),
                ),
                None => !components(base@).is_prefix_of(components(self@)),
            },
    {
        proof {
            use_type_invariant(self);
        }
        let mine = components_of(&self.path);
        let other = components_of(&base.path);
        if !is_prefix(&other, &mine) {
            return None;
        }
        let ghost rest = components(self@).skip(components(base@).len() as int);
        assert(texts(other@).len() == other@.len());
        assert(texts(mine@).len() == mine@.len());
        let path = join_from(&mine, other.len());
        proof {
            lemma_components_single_entries(self@);
            assert forall|i: int| 0 <= i < rest.len() implies is_single_entry(
                #[trigger] rest[i],
            ) by {
                assert(rest[i] == components(self@)[i + components(base@).len()]);
            }
            lemma_joined_forward(rest);
        }
        Some(ForwardRelativePathBuf { path })
    }

    /// The path with `suffix` behind its text. A suffix that is a longer name keeps the path
    /// normalized.
    pub fn with_suffix(&self, suffix: &str) -> (res: AbsNormPathBuf)
        requires
            suffix@.len() > 2,
            !suffix@.contains('/'),
        ensures
            res@ == self@ + suffix@,
    {
        proof {
            use_type_invariant(self);
            lemma_suffix(self@, suffix@);
        }
        AbsNormPathBuf { path: concat2(&self.path, suffix) }
    }

    /// The place that `relative` leads to from this path.
    pub fn join(&self, relative: &ForwardRelativePathBuf) -> (res: AbsNormPathBuf)
        ensures
            res@ == below_text(self@, relative@),
    {
        proof {
            use_type_invariant(self);
            use_type_invariant(relative);
            lemma_below(self@, relative@);
        }
        if relative.path.as_str().is_empty() {
            self.duplicate()
        } else {
            AbsNormPathBuf { path: join(&self.path, &relative.path) }
        }
    }

    /// The directory that holds the last name of the path. The root has none.
    pub fn parent(&self) -> (res: Option<AbsNormPathBuf>)
        ensures
            match res {
                Some(parent) => parent_text(self@) == Some(parent@),
                None => parent_text(self@) is None,
            },
    {
        proof {
            use_type_invariant(self);
        }
        let chars = chars_of(&self.path);
        let end = trimmed_len(&chars, chars.len());
        assert(chars@.take(chars@.len() as int) =~= self@);
        if end == 1 {
            return None;
        }
        let mut cut: usize = end;
        while chars[cut - 1] != '/'
            invariant
                1 <= cut <= end <= chars@.len(),
                chars@[0] == '/',
                upper(chars@.take(end as int)) == upper(chars@.take(cut as int)),
            decreases cut,
        {
            assert(chars@.take(cut as int).drop_last() =~= chars@.take(cut - 1));
            cut -= 1;
        }
        let keep = trimmed_len(&chars, cut);
        proof {
            lemma_prefix_norm(self@, keep as int);
        }
        let text = self.path.as_str().substring_char(0, keep).to_owned();
        assert(text@ =~= chars@.take(keep as int));
        Some(AbsNormPathBuf { path: text })
    }
}

/// A relative path that only goes down.
#[derive(Debug)]
pub struct ForwardRelativePathBuf {
    path: String,
}

impl View for ForwardRelativePathBuf {
    type V = Seq<char>;

    closed spec fn view(&self) -> Seq<char> {
        self.path@
    }
}

impl ForwardRelativePathBuf {
    #[verifier::type_invariant]
    spec fn wf(self) -> bool {
        is_forward_relative(self.path@)
    }

    /// The relative path with this text, if it only goes down.
    pub fn parse(text: &str) -> (res: Option<ForwardRelativePathBuf>)
        ensures
            match res {
                Some(path) => is_forward_relative(text@) && path@ == text@,
                None => !is_forward_relative(text@),
            },
    {
        if text.is_empty() {
            return Some(ForwardRelativePathBuf { path: text.to_owned() });
        }
        let parts = pieces_of(text);
        let mut i: usize = 0;
        while i < parts.len()
            invariant
                i <= parts@.len(),
                texts(parts@) == pieces(text@),
                text@.len() > 0,
                forall|j: int| 0 <= j < i ==> is_single_entry(#[trigger] pieces(text@)[j]),
            decreases parts.len() - i,
        {
            assert(texts(parts@)[i as int] == parts@[i as int]@);
            if !single_entry(&parts[i]) {
                return None;
            }
            i += 1;
        }
        Some(ForwardRelativePathBuf { path: text.to_owned() })
    }

    /// The text of the path.
    pub fn as_str(&self) -> (res: &str)
        ensures
            res@ == self@,
            is_forward_relative(self@),
    {
        proof {
            use_type_invariant(self);
        }
        self.path.as_str()
    }

    /// A second copy of the path.
    pub fn duplicate(&self) -> (res: ForwardRelativePathBuf)
        ensures
            res@ == self@,
    {
        proof {
            use_type_invariant(self);
        }
        ForwardRelativePathBuf { path: self.path.clone() }
    }
}

/// The place that a relative path leads to.
pub open spec fn below_text(base: Seq<char>, relative: Seq<char>) -> Seq<char> {
    if relative.len() == 0 {
        base
    } else {
        join_text(base, relative)
    }
}

/// A text without the slashes at its end; the root keeps its own.
pub open spec fn trimmed(text: Seq<char>) -> Seq<char>
    decreases text.len(),
{
    if text.len() > 1 && text.last() == '/' {
        trimmed(text.drop_last())
    } else {
        text
    }
}

/// A text up to its last slash.
pub open spec fn upper(text: Seq<char>) -> Seq<char>
    decreases text.len(),
{
    if text.len() == 0 || text.last() == '/' {
        text
    } else {
        upper(text.drop_last())
    }
}

/// The directory that holds the last name of an absolute path.
pub open spec fn parent_text(text: Seq<char>) -> Option<Seq<char>> {
    if trimmed(text).len() == 1 {
        None
    } else {
        Some(trimmed(upper(trimmed(text))))
    }
}

/// The length of the first `n` characters without the slashes at their end.
fn trimmed_len(chars: &Vec<char>, n: usize) -> (res: usize)
    requires
        1 <= n <= chars@.len(),
    ensures
        1 <= res <= n,
        trimmed(chars@.take(n as int)) == chars@.take(res as int),
        res < n ==> chars@[res as int] == '/',
        res > 1 ==> chars@[res - 1] != '/',
{
    let mut m: usize = n;
    while m > 1 && chars[m - 1] == '/'
        invariant
            1 <= m <= n <= chars@.len(),
            trimmed(chars@.take(n as int)) == trimmed(chars@.take(m as int)),
            m < n ==> chars@[m as int] == '/',
        decreases m,
    {
        assert(chars@.take(m as int).drop_last() =~= chars@.take(m - 1));
        m -= 1;
    }
    m
}

fn is_prefix(a: &Vec<String>, b: &Vec<String>) -> (res: bool)
    ensures
        res == texts(a@).is_prefix_of(texts(b@)),
{
    if a.len() > b.len() {
        return false;
    }
    let mut i: usize = 0;
    while i < a.len()
        invariant
            i <= a@.len() <= b@.len(),
            forall|j: int| 0 <= j < i ==> texts(a@)[j] == texts(b@)[j],
        decreases a.len() - i,
    {
        assert(texts(a@)[i as int] == a@[i as int]@);
        assert(texts(b@)[i as int] == b@[i as int]@);
        if !same_text(&a[i], &b[i]) {
            assert(texts(b@).subrange(0, a@.len() as int)[i as int] == texts(b@)[i as int]);
            return false;
        }
        i += 1;
    }
    assert(texts(a@) =~= texts(b@).subrange(0, a@.len() as int));
    true
}

/// Joined single entries are a relative path that only goes down.
pub proof fn lemma_joined_forward(parts: Seq<Seq<char>>)
    requires
        forall|i: int| 0 <= i < parts.len() ==> is_single_entry(#[trigger] parts[i]),
    ensures
        is_forward_relative(joined(parts)),
{
    if parts.len() > 0 {
        lemma_pieces_joined(parts);
    }
}

proof fn lemma_suffix(text: Seq<char>, suffix: Seq<char>)
    requires
        is_abs_norm(text),
        suffix.len() > 2,
        !suffix.contains('/'),
    ensures
        is_abs_norm(text + suffix),
{
    lemma_pieces_suffix(text, suffix);
    lemma_pieces_nonempty(text);
    let all = pieces(text + suffix);
    reveal_strlit(".");
    reveal_strlit("..");
    assert forall|i: int| 0 <= i < all.len() implies #[trigger] all[i] != "."@ && all[i] != ".."@ by {
        if i < all.len() - 1 {
            assert(all[i] == pieces(text)[i]);
        } else {
            assert(all[i] == pieces(text).last() + suffix);
            assert("."@.len() == 1 && ".."@.len() == 2);
        }
    }
}

proof fn lemma_pieces_suffix(text: Seq<char>, suffix: Seq<char>)
    requires
        !suffix.contains('/'),
    ensures
        pieces(text + suffix) == pieces(text).drop_last().push(pieces(text).last() + suffix),
    decreases suffix.len(),
{
    lemma_pieces_nonempty(text);
    let all = text + suffix;
    if suffix.len() == 0 {
        assert(all =~= text);
        assert(pieces(text).last() + suffix =~= pieces(text).last());
        assert(pieces(text).drop_last().push(pieces(text).last()) =~= pieces(text));
    } else {
        let short = suffix.drop_last();
        assert(suffix[suffix.len() - 1] == suffix.last());
        assert forall|i: int| 0 <= i < short.len() implies short[i] != '/' by {
            assert(short[i] == suffix[i]);
        }
        lemma_pieces_suffix(text, short);
        assert(all.drop_last() =~= text + short);
        assert(all.last() == suffix.last());
        let before = pieces(text + short);
        assert(before.last() == pieces(text).last() + short);
        assert(before.drop_last() =~= pieces(text).drop_last());
        assert((pieces(text).last() + short).push(suffix.last()) =~= pieces(text).last() + suffix);
    }
}

proof fn lemma_below(text: Seq<char>, relative: Seq<char>)
    requires
        is_abs_norm(text),
        is_forward_relative(relative),
    ensures
        is_abs_norm(below_text(text, relative)),
{
    if relative.len() > 0 {
        reveal_strlit("/");
        assert("/"@ =~= seq!['/']);
        let all = join_text(text, relative);
        let (head, rest) = if text.last() == '/' {
            (text.drop_last(), relative)
        } else {
            (text, relative)
        };
        assert(all =~= head + seq!['/'] + rest);
        lemma_pieces_join(head, rest);
        assert(all[0] == '/');
        if text.last() == '/' {
            assert(pieces(text) == pieces(head).push(seq![]));
        }
        assert forall|i: int| 0 <= i < pieces(all).len() implies #[trigger] pieces(all)[i] != "."@
            && pieces(all)[i] != ".."@ by {
            if i < pieces(head).len() {
                assert(pieces(all)[i] == pieces(head)[i]);
                assert(pieces(text)[i] == pieces(head)[i]);
            } else {
                assert(pieces(all)[i] == pieces(rest)[i - pieces(head).len()]);
            }
        }
    }
}

proof fn lemma_prefix_norm(text: Seq<char>, keep: int)
    requires
        is_abs_norm(text),
        1 <= keep <= text.len(),
        keep == 1 || (keep < text.len() && text[keep] == '/'),
    ensures
        is_abs_norm(text.take(keep)),
{
    let head = text.take(keep);
    assert(head[0] == '/');
    reveal_strlit(".");
    reveal_strlit("..");
    if keep == 1 {
        let none = Seq::<char>::empty();
        assert(head =~= none + seq!['/'] + none);
        lemma_pieces_join(none, none);
        assert(pieces(head) =~= seq![none, none]);
    } else {
        let rest = text.skip(keep + 1);
        assert(text =~= head + seq!['/'] + rest);
        lemma_pieces_join(head, rest);
        assert forall|i: int| 0 <= i < pieces(head).len() implies #[trigger] pieces(head)[i] != "."@
            && pieces(head)[i] != ".."@ by {
            assert(pieces(text)[i] == pieces(head)[i]);
        }
    }
}

} // verus!
