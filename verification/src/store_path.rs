//! The path of a store object, made from the object's identity.

use vstd::prelude::*;
use vstd::string::*;

use crate::abs_path::AbsNormPathBuf;
use crate::error::ErrorTag;
use crate::paths::{
    components, is_abs_norm, is_single_entry, lemma_components_join, lemma_components_single,
    lemma_pieces_join, lemma_pieces_single, nonempty, pieces, single_entry,
};
use crate::text::{chars_of, concat2, concat3};

verus! {

/// Why there is no store path for an identity.
#[derive(Debug)]
pub enum IdentityError<S> {
    InvalidKey(S),
    InvalidName(S),
}

impl View for IdentityError<String> {
    type V = IdentityError<Seq<char>>;

    open spec fn view(&self) -> IdentityError<Seq<char>> {
        match *self {
            IdentityError::InvalidKey(s) => IdentityError::InvalidKey(s@),
            IdentityError::InvalidName(s) => IdentityError::InvalidName(s@),
        }
    }
}

/// The message that belongs to an error.
pub open spec fn identity_error_text(e: IdentityError<Seq<char>>) -> Seq<char> {
    match e {
        IdentityError::InvalidKey(s) =>
            "store path key must be a 32-character lowercase hex digest prefix: `"@ + s + "`"@,
        IdentityError::InvalidName(s) =>
            "store name must be a non-empty single path entry: `"@ + s + "`"@,
    }
}

impl IdentityError<String> {
    /// The message for people.
    pub fn message(&self) -> (res: String)
        ensures
            res@ == identity_error_text(self@),
    {
        match self {
            IdentityError::InvalidKey(s) => {
                concat3(
                    "store path key must be a 32-character lowercase hex digest prefix: `",
                    s,
                    "`",
                )
            },
            IdentityError::InvalidName(s) => {
                concat3("store name must be a non-empty single path entry: `", s, "`")
            },
        }
    }
}

impl IdentityError<String> {
    /// Whom the error is for: the user.
    pub fn tag(&self) -> (res: ErrorTag)
        ensures
            res == ErrorTag::Input,
    {
        ErrorTag::Input
    }
}

/// A decimal digit, or a letter from `a` to `f`.
pub open spec fn is_lower_hex_digit(c: char) -> bool {
    ('0' <= c && c <= '9') || ('a' <= c && c <= 'f')
}

/// The key of a store path: 32 hexadecimal digits in lower case.
pub open spec fn is_store_key(key: Seq<char>) -> bool {
    &&& key.len() == 32
    &&& forall|i: int| 0 <= i < key.len() ==> is_lower_hex_digit(#[trigger] key[i])
}

/// The name of a store object in the store.
pub open spec fn object_name(key: Seq<char>, name: Seq<char>) -> Seq<char> {
    key + "-"@ + name
}

/// The path of a store object.
pub open spec fn object_path(key: Seq<char>, name: Seq<char>) -> Seq<char> {
    "/pkgs/store/"@ + object_name(key, name)
}

/// What an identity gives.
pub open spec fn identity_path(key: Seq<char>, name: Seq<char>) -> Result<
    Seq<char>,
    IdentityError<Seq<char>>,
> {
    if !is_store_key(key) {
        Err(IdentityError::InvalidKey(key))
    } else if !is_single_entry(name) {
        Err(IdentityError::InvalidName(name))
    } else {
        Ok(object_path(key, name))
    }
}

fn store_key(key: &str) -> (res: bool)
    ensures
        res == is_store_key(key@),
{
    let chars = chars_of(key);
    if chars.len() != 32 {
        return false;
    }
    let mut i: usize = 0;
    while i < chars.len()
        invariant
            i <= chars@.len() == 32,
            chars@ == key@,
            forall|j: int| 0 <= j < i ==> is_lower_hex_digit(#[trigger] chars@[j]),
        decreases chars.len() - i,
    {
        let c: char = chars[i];
        if !(('0' <= c && c <= '9') || ('a' <= c && c <= 'f')) {
            assert(!is_lower_hex_digit(key@[i as int]));
            return false;
        }
        i += 1;
    }
    true
}

/// The path of a store object.
#[derive(Debug)]
pub struct StarlarkStorePath {
    path: AbsNormPathBuf,
}

impl View for StarlarkStorePath {
    type V = Seq<char>;

    closed spec fn view(&self) -> Seq<char> {
        self.path@
    }
}

impl StarlarkStorePath {
    /// The store path of the object with this key and this name.
    pub fn from_identity(store_path_key: &str, store_name: &str) -> (res: Result<
        StarlarkStorePath,
        IdentityError<String>,
    >)
        ensures
            match identity_path(store_path_key@, store_name@) {
                Ok(path) => res is Ok && res->Ok_0@ == path,
                Err(e) => res is Err && res->Err_0@ == e,
            },
    {
        if !store_key(store_path_key) {
            return Err(IdentityError::InvalidKey(store_path_key.to_owned()));
        }
        if !single_entry(store_name) {
            return Err(IdentityError::InvalidName(store_name.to_owned()));
        }
        let name = concat3(store_path_key, "-", store_name);
        let text = concat2("/pkgs/store/", &name);
        proof {
            object_paths_are_normalized(store_path_key@, store_name@);
        }
        match AbsNormPathBuf::parse(&text) {
            Some(path) => Ok(StarlarkStorePath { path }),
            None => Err(IdentityError::InvalidName(store_name.to_owned())),
        }
    }

    /// The path.
    pub fn path(&self) -> (res: &AbsNormPathBuf)
        ensures
            res@ == self@,
    {
        &self.path
    }

    /// The path as it is shown.
    pub fn to_text(&self) -> (res: String)
        ensures
            res@ == self@,
    {
        self.path.as_str().to_owned()
    }
}

proof fn lemma_object_name(key: Seq<char>, name: Seq<char>)
    requires
        is_store_key(key),
        is_single_entry(name),
    ensures
        is_single_entry(object_name(key, name)),
        object_name(key, name).len() == 33 + name.len(),
        object_name(key, name).take(32) == key,
        object_name(key, name).skip(33) == name,
{
    reveal_strlit("-");
    reveal_strlit(".");
    reveal_strlit("..");
    let text = object_name(key, name);
    assert(text.take(32) =~= key);
    assert(text.skip(33) =~= name);
    if text.contains('/') {
        let i = choose|i: int| 0 <= i < text.len() && text[i] == '/';
        if i < 32 {
            assert(is_lower_hex_digit(key[i]));
        } else if i > 32 {
            assert(name[i - 33] == '/');
        }
    }
    assert("."@.len() == 1 && ".."@.len() == 2);
}

proof fn lemma_store_root()
    ensures
        pieces("/pkgs/store"@) == seq![""@, "pkgs"@, "store"@],
        components("/pkgs/store"@) == seq!["pkgs"@, "store"@],
        is_abs_norm("/pkgs/store"@),
        "/pkgs/store/"@ == "/pkgs/store"@ + seq!['/'],
{
    reveal_strlit("/pkgs/store");
    reveal_strlit("/pkgs/store/");
    reveal_strlit("");
    reveal_strlit("pkgs");
    reveal_strlit("store");
    reveal_strlit(".");
    reveal_strlit("..");
    let a = ""@;
    let b = "pkgs"@;
    let c = "store"@;
    assert("/pkgs/store"@ =~= (a + seq!['/'] + b) + seq!['/'] + c);
    assert("/pkgs/store/"@ =~= "/pkgs/store"@ + seq!['/']);
    lemma_pieces_join(a + seq!['/'] + b, c);
    lemma_pieces_join(a, b);
    lemma_pieces_single(a);
    lemma_pieces_single(b);
    lemma_pieces_single(c);
    assert(pieces("/pkgs/store"@) =~= seq![a, b, c]);
    lemma_components_join(a + seq!['/'] + b, c);
    lemma_components_join(a, b);
    assert("."@.len() == 1 && ".."@.len() == 2);
    lemma_components_single(b);
    lemma_components_single(c);
    assert(seq![a].drop_last() =~= seq![]);
    assert(nonempty(seq![a].drop_last()) =~= seq![]);
    assert(components(a) =~= seq![]);
    assert(components("/pkgs/store"@) =~= seq![b, c]);
    assert forall|i: int| 0 <= i < 3 implies #[trigger] pieces("/pkgs/store"@)[i] != "."@ && pieces(
        "/pkgs/store"@,
    )[i] != ".."@ by {}
}

/// The directory that holds the store objects.
pub fn store_root() -> (res: AbsNormPathBuf)
    ensures
        res@ == "/pkgs/store"@,
{
    proof {
        lemma_store_root();
    }
    AbsNormPathBuf::parse("/pkgs/store").unwrap()
}

/// The path of a store object is absolute and normalized, and names one entry of the store.
pub proof fn object_paths_are_normalized(key: Seq<char>, name: Seq<char>)
    requires
        is_store_key(key),
        is_single_entry(name),
    ensures
        is_abs_norm(object_path(key, name)),
        components(object_path(key, name)) == components("/pkgs/store"@).push(
            object_name(key, name),
        ),
{
    lemma_object_name(key, name);
    lemma_store_root();
    let root = "/pkgs/store"@;
    let last = object_name(key, name);
    let path = object_path(key, name);
    assert(path =~= root + seq!['/'] + last);
    lemma_pieces_join(root, last);
    lemma_pieces_single(last);
    lemma_components_join(root, last);
    lemma_components_single(last);
    assert(components(path) =~= components(root).push(last));
    assert(path[0] == root[0]);
    assert forall|i: int| 0 <= i < pieces(path).len() implies #[trigger] pieces(path)[i] != "."@
        && pieces(path)[i] != ".."@ by {
        if i < 3 {
            assert(pieces(path)[i] == pieces(root)[i]);
        } else {
            assert(pieces(path)[i] == last);
        }
    }
}

/// Objects with different identities have different paths.
pub proof fn identities_do_not_collide(
    key: Seq<char>,
    name: Seq<char>,
    other_key: Seq<char>,
    other_name: Seq<char>,
)
    requires
        identity_path(key, name) is Ok,
        identity_path(other_key, other_name) is Ok,
    ensures
        identity_path(key, name) == identity_path(other_key, other_name) <==> (key == other_key
            && name == other_name),
{
    lemma_object_name(key, name);
    lemma_object_name(other_key, other_name);
    if object_path(key, name) == object_path(other_key, other_name) {
        let n = "/pkgs/store/"@.len() as int;
        assert(object_path(key, name).skip(n) =~= object_name(key, name));
        assert(object_path(other_key, other_name).skip(n) =~= object_name(other_key, other_name));
    }
}

} // verus!
