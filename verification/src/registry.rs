//! The outputs that an analysis declares, and where each is staged.

use vstd::prelude::*;
use vstd::string::*;

use crate::abs_path::{AbsNormPathBuf, ForwardRelativePathBuf};
use crate::error::ErrorTag;
use crate::paths::{
    components, is_abs_norm, is_forward_relative, is_single_entry, joined,
    lemma_components_single_entries, lemma_pieces_join, lemma_pieces_joined, lemma_pieces_single,
    pieces,
};
use crate::store_path::{
    identity_path, object_name, object_path, object_paths_are_normalized, store_root,
};
use crate::text::{concat2, concat3, same_text};

verus! {

/// What an output may be.
#[derive(Debug, Clone, Copy, PartialEq, Eq, Structural)]
pub enum OutputType {
    FileOrDirectory,
    Directory,
}

/// What the place of a staged output is made from.
#[derive(Debug, Clone, Copy, PartialEq, Eq, Structural)]
pub enum BuckOutPathKind {
    Configuration,
    ContentHash,
}

/// The path of an output: who owns it, where it is staged, and the store path that it stands for.
#[derive(Debug)]
pub struct BuildArtifactPath {
    pub owner: String,
    pub path: ForwardRelativePathBuf,
    pub kind: BuckOutPathKind,
    pub logical_store_path: Option<String>,
}

/// A [`BuildArtifactPath`] over mathematical text.
pub struct ArtifactPathV {
    pub owner: Seq<char>,
    pub path: Seq<char>,
    pub kind: BuckOutPathKind,
    pub logical_store_path: Option<Seq<char>>,
}

impl View for BuildArtifactPath {
    type V = ArtifactPathV;

    open spec fn view(&self) -> ArtifactPathV {
        ArtifactPathV {
            owner: self.owner@,
            path: self.path@,
            kind: self.kind,
            logical_store_path: match self.logical_store_path {
                Some(p) => Some(p@),
                None => None,
            },
        }
    }
}

impl BuildArtifactPath {
    /// The path of an output that stands for a store path.
    pub fn with_store_path(
        owner: String,
        path: ForwardRelativePathBuf,
        kind: BuckOutPathKind,
        logical_store_path: String,
    ) -> (res: BuildArtifactPath)
        ensures
            res@ == (ArtifactPathV {
                owner: owner@,
                path: path@,
                kind,
                logical_store_path: Some(logical_store_path@),
            }),
    {
        BuildArtifactPath { owner, path, kind, logical_store_path: Some(logical_store_path) }
    }

    /// A second copy of the path.
    pub fn duplicate(&self) -> (res: BuildArtifactPath)
        ensures
            res@ == self@,
    {
        BuildArtifactPath {
            owner: self.owner.clone(),
            path: self.path.duplicate(),
            kind: self.kind,
            logical_store_path: match &self.logical_store_path {
                Some(p) => Some(p.clone()),
                None => None,
            },
        }
    }

    /// Whether two paths are equal.
    pub fn same(&self, other: &BuildArtifactPath) -> (res: bool)
        ensures
            res == (self@ == other@),
    {
        same_text(&self.owner, &other.owner) && same_text(self.path.as_str(), other.path.as_str())
            && self.kind == other.kind && match (
            &self.logical_store_path,
            &other.logical_store_path,
        ) {
            (Some(a), Some(b)) => same_text(a, b),
            (None, None) => true,
            _ => false,
        }
    }
}

/// An output that was declared. `hidden` counts the leading parts of its path that consumers do
/// not see.
#[derive(Debug)]
pub struct DeclaredArtifact {
    pub path: BuildArtifactPath,
    pub output_type: OutputType,
    pub hidden: usize,
}

/// A [`DeclaredArtifact`] over mathematical text.
pub struct DeclaredV {
    pub path: ArtifactPathV,
    pub output_type: OutputType,
    pub hidden: usize,
}

impl View for DeclaredArtifact {
    type V = DeclaredV;

    open spec fn view(&self) -> DeclaredV {
        DeclaredV { path: self.path@, output_type: self.output_type, hidden: self.hidden }
    }
}

impl DeclaredArtifact {
    /// A second copy of the artifact.
    pub fn duplicate(&self) -> (res: DeclaredArtifact)
        ensures
            res@ == self@,
    {
        DeclaredArtifact {
            path: self.path.duplicate(),
            output_type: self.output_type,
            hidden: self.hidden,
        }
    }
}

/// The artifacts that were declared for one owner. No two have the same path.
#[derive(Debug)]
pub struct ActionsRegistry {
    owner: String,
    artifacts: Vec<DeclaredArtifact>,
}

/// The models of a list of artifacts.
pub open spec fn declared_view(list: Seq<DeclaredArtifact>) -> Seq<DeclaredV> {
    list.map_values(|a: DeclaredArtifact| a@)
}

/// Some artifact in the list has this path.
pub open spec fn is_declared(list: Seq<DeclaredV>, path: ArtifactPathV) -> bool {
    exists|i: int| 0 <= i < list.len() && (#[trigger] list[i]).path == path
}

/// No two artifacts have the same path.
pub open spec fn paths_differ(list: Seq<DeclaredV>) -> bool {
    forall|i: int, j: int|
        0 <= i < j < list.len() ==> (#[trigger] list[i]).path != (#[trigger] list[j]).path
}

/// The path of the artifact that stands for a store path.
pub open spec fn store_artifact_path(
    owner: Seq<char>,
    staged: Seq<char>,
    kind: BuckOutPathKind,
    logical: Seq<char>,
) -> ArtifactPathV {
    ArtifactPathV { owner, path: staged, kind, logical_store_path: Some(logical) }
}

/// The artifact that stands for a store path.
pub open spec fn store_artifact(
    owner: Seq<char>,
    staged: Seq<char>,
    kind: BuckOutPathKind,
    logical: Seq<char>,
    output_type: OutputType,
) -> DeclaredV {
    DeclaredV { path: store_artifact_path(owner, staged, kind, logical), output_type, hidden: 0 }
}

impl ActionsRegistry {
    /// Whom the outputs belong to.
    pub closed spec fn owner(self) -> Seq<char> {
        self.owner@
    }

    /// The artifacts, in the order in which they were declared.
    pub closed spec fn artifacts(self) -> Seq<DeclaredV> {
        declared_view(self.artifacts@)
    }

    #[verifier::type_invariant]
    spec fn wf(self) -> bool {
        paths_differ(declared_view(self.artifacts@))
    }

    /// A registry without artifacts.
    pub fn new(owner: String) -> (res: ActionsRegistry)
        ensures
            res.owner() == owner@,
            res.artifacts() == Seq::<DeclaredV>::empty(),
    {
        let artifacts: Vec<DeclaredArtifact> = Vec::new();
        assert(declared_view(artifacts@) =~= Seq::<DeclaredV>::empty());
        ActionsRegistry { owner, artifacts }
    }

    /// The artifacts that were declared.
    pub fn declared(&self) -> (res: &Vec<DeclaredArtifact>)
        ensures
            declared_view(res@) == self.artifacts(),
            paths_differ(self.artifacts()),
    {
        proof {
            use_type_invariant(self);
        }
        &self.artifacts
    }

    /// Whether an artifact with this path was declared.
    pub fn contains(&self, path: &BuildArtifactPath) -> (res: bool)
        ensures
            res == is_declared(self.artifacts(), path@),
    {
        let mut i: usize = 0;
        while i < self.artifacts.len()
            invariant
                i <= self.artifacts@.len(),
                forall|j: int| 0 <= j < i ==> (#[trigger] self.artifacts()[j]).path != path@,
            decreases self.artifacts.len() - i,
        {
            assert(self.artifacts()[i as int] == self.artifacts@[i as int]@);
            if self.artifacts[i].path.same(path) {
                return true;
            }
            i += 1;
        }
        false
    }

    /// Whom the outputs belong to.
    pub fn owner_text(&self) -> (res: &str)
        ensures
            res@ == self.owner(),
    {
        self.owner.as_str()
    }

    /// Declares an output that is built at its staged path and stands for a store path. `claim`
    /// is the outcome of the claim of the staged path; a path that was claimed is new.
    pub fn declare_store_artifact(
        &mut self,
        claim: &Result<(), String>,
        staged_path: ForwardRelativePathBuf,
        logical_store_path: &AbsNormPathBuf,
        output_type: OutputType,
        path_resolution_method: BuckOutPathKind,
    ) -> (res: Result<DeclaredArtifact, DeclarationError<String>>)
        requires
            *claim is Ok ==> !is_declared(
                old(self).artifacts(),
                store_artifact_path(
                    old(self).owner(),
                    staged_path@,
                    path_resolution_method,
                    logical_store_path@,
                ),
            ),
        ensures
            final(self).owner() == old(self).owner(),
            match *claim {
                Err(e) => {
                    &&& res is Err
                    &&& res->Err_0@ == DeclarationError::Failed(e@)
                    &&& final(self).artifacts() == old(self).artifacts()
                },
                Ok(()) => {
                    let artifact = store_artifact(
                        old(self).owner(),
                        staged_path@,
                        path_resolution_method,
                        logical_store_path@,
                        output_type,
                    );
                    &&& res is Ok
                    &&& res->Ok_0@ == artifact
                    &&& final(self).artifacts() == old(self).artifacts().push(artifact)
                },
            },
    {
        proof {
            use_type_invariant(&*self);
        }
        if let Err(e) = claim {
            return Err(DeclarationError::Failed(e.clone()));
        }
        let path = BuildArtifactPath::with_store_path(
            self.owner.clone(),
            staged_path,
            path_resolution_method,
            logical_store_path.as_str().to_owned(),
        );
        let declared = DeclaredArtifact { path, output_type, hidden: 0 };
        let copy = declared.duplicate();
        let ghost before = declared_view(self.artifacts@);
        let mut artifacts: Vec<DeclaredArtifact> = Vec::new();
        std::mem::swap(&mut artifacts, &mut self.artifacts);
        artifacts.push(copy);
        proof {
            assert(declared_view(artifacts@) =~= before.push(copy@));
            assert forall|i: int, j: int| 0 <= i < j < before.push(copy@).len() implies (
            #[trigger] before.push(copy@)[i]).path != (#[trigger] before.push(copy@)[j]).path by {
                assert(before[i].path == before.push(copy@)[i].path);
                if j < before.len() {
                    assert(before[j].path == before.push(copy@)[j].path);
                }
            }
        }
        self.artifacts = artifacts;
        Ok(declared)
    }
}

/// Why an output could not be declared.
#[derive(Debug)]
pub enum DeclarationError<S> {
    NotUnderStore(S),
    NoEntry,
    /// A failure that is passed on as it came.
    Failed(S),
}

impl View for DeclarationError<String> {
    type V = DeclarationError<Seq<char>>;

    open spec fn view(&self) -> DeclarationError<Seq<char>> {
        match *self {
            DeclarationError::NotUnderStore(s) => DeclarationError::NotUnderStore(s@),
            DeclarationError::NoEntry => DeclarationError::NoEntry,
            DeclarationError::Failed(s) => DeclarationError::Failed(s@),
        }
    }
}

/// The message that belongs to an error.
pub open spec fn declaration_error_text(e: DeclarationError<Seq<char>>) -> Seq<char> {
    match e {
        DeclarationError::NotUnderStore(s) => "store output path must be under `/pkgs/store`: `"@
            + s + "`"@,
        DeclarationError::NoEntry => "store output path must name an entry below `/pkgs/store`"@,
        DeclarationError::Failed(s) => s,
    }
}

impl DeclarationError<String> {
    /// The message for people.
    pub fn message(&self) -> (res: String)
        ensures
            res@ == declaration_error_text(self@),
    {
        match self {
            DeclarationError::NotUnderStore(s) => {
                concat3("store output path must be under `/pkgs/store`: `", s, "`")
            },
            DeclarationError::NoEntry => {
                "store output path must name an entry below `/pkgs/store`".to_owned()
            },
            DeclarationError::Failed(s) => s.clone(),
        }
    }
}

/// The tag of an error. A failure that is passed on has the tag that it came with, which is not
/// kept here.
pub open spec fn declaration_error_tag(e: DeclarationError<Seq<char>>) -> Option<ErrorTag> {
    match e {
        DeclarationError::Failed(_) => None,
        _ => Some(ErrorTag::Input),
    }
}

impl DeclarationError<String> {
    /// Whom the error is for, where the declaration itself found it.
    pub fn tag(&self) -> (res: Option<ErrorTag>)
        ensures
            res == declaration_error_tag(self@),
    {
        match self {
            DeclarationError::Failed(_) => None,
            _ => Some(ErrorTag::Input),
        }
    }
}

/// The names of a path below the store.
pub open spec fn names_in_store(logical: Seq<char>) -> Seq<Seq<char>> {
    components(logical).skip(components("/pkgs/store"@).len() as int)
}

/// The place at which the output for a store path is staged.
pub open spec fn staged_place(logical: Seq<char>) -> Result<
    Seq<char>,
    DeclarationError<Seq<char>>,
> {
    if !components("/pkgs/store"@).is_prefix_of(components(logical)) {
        Err(DeclarationError::NotUnderStore(logical))
    } else if names_in_store(logical).len() == 0 {
        Err(DeclarationError::NoEntry)
    } else {
        Ok("__buckpkgs_store__/"@ + joined(names_in_store(logical)))
    }
}

proof fn lemma_names_in_store(logical: Seq<char>)
    requires
        is_abs_norm(logical),
        components("/pkgs/store"@).is_prefix_of(components(logical)),
    ensures
        forall|i: int|
            0 <= i < names_in_store(logical).len() ==> is_single_entry(
                #[trigger] names_in_store(logical)[i],
            ),
{
    lemma_components_single_entries(logical);
    assert forall|i: int| 0 <= i < names_in_store(logical).len() implies is_single_entry(
        #[trigger] names_in_store(logical)[i],
    ) by {
        assert(names_in_store(logical)[i] == components(logical)[i + components(
            "/pkgs/store"@,
        ).len()]);
    }
}

proof fn lemma_staged_pieces(names: Seq<Seq<char>>)
    requires
        names.len() > 0,
        forall|i: int| 0 <= i < names.len() ==> is_single_entry(#[trigger] names[i]),
    ensures
        pieces("__buckpkgs_store__/"@ + joined(names)) == seq!["__buckpkgs_store__"@] + names,
        is_forward_relative("__buckpkgs_store__/"@ + joined(names)),
        joined(names).len() > 0,
{
    reveal_strlit("__buckpkgs_store__/");
    reveal_strlit("__buckpkgs_store__");
    reveal_strlit(".");
    reveal_strlit("..");
    let top = "__buckpkgs_store__"@;
    let text = "__buckpkgs_store__/"@ + joined(names);
    assert(text =~= top + seq!['/'] + joined(names));
    lemma_pieces_join(top, joined(names));
    lemma_pieces_single(top);
    lemma_pieces_joined(names);
    assert("."@.len() == 1 && ".."@.len() == 2);
    assert forall|i: int| 0 <= i < pieces(text).len() implies is_single_entry(
        #[trigger] pieces(text)[i],
    ) by {
        if i > 0 {
            assert(pieces(text)[i] == names[i - 1]);
        }
    }
    if joined(names).len() == 0 {
        assert(pieces(joined(names)) =~= seq![seq![]]);
        assert(names[0].len() == 0);
    }
}

/// Where the output for a store path is staged, or why the path cannot be declared.
pub fn staged_store_path(logical_store_path: &AbsNormPathBuf) -> (res: Result<
    ForwardRelativePathBuf,
    DeclarationError<String>,
>)
    ensures
        match staged_place(logical_store_path@) {
            Ok(staged) => res is Ok && res->Ok_0@ == staged,
            Err(e) => res is Err && res->Err_0@ == e,
        },
{
    let root = store_root();
    let text = logical_store_path.as_str();
    let relative = match logical_store_path.strip_prefix(&root) {
        Some(relative) => relative,
        None => {
            return Err(DeclarationError::NotUnderStore(text.to_owned()));
        },
    };
    proof {
        lemma_names_in_store(logical_store_path@);
        if names_in_store(logical_store_path@).len() > 0 {
            lemma_staged_pieces(names_in_store(logical_store_path@));
        }
    }
    if relative.as_str().is_empty() {
        return Err(DeclarationError::NoEntry);
    }
    let staged = concat2("__buckpkgs_store__/", relative.as_str());
    match ForwardRelativePathBuf::parse(&staged) {
        Some(staged) => Ok(staged),
        None => Err(DeclarationError::NoEntry),
    }
}

/// The declarations of one analysis.
#[derive(Debug)]
pub struct AnalysisRegistry {
    pub actions: ActionsRegistry,
}

/// What declaring an output for a store path does.
pub open spec fn declaration(
    before: ActionsRegistry,
    after: ActionsRegistry,
    claim: Result<(), String>,
    logical: Seq<char>,
    output_type: OutputType,
    kind: BuckOutPathKind,
    res: Result<DeclaredArtifact, DeclarationError<String>>,
) -> bool {
    &&& after.owner() == before.owner()
    &&& match (staged_place(logical), claim) {
        (Err(e), _) => {
            &&& res is Err
            &&& res->Err_0@ == e
            &&& after.artifacts() == before.artifacts()
        },
        (Ok(_), Err(e)) => {
            &&& res is Err
            &&& res->Err_0@ == DeclarationError::Failed(e@)
            &&& after.artifacts() == before.artifacts()
        },
        (Ok(staged), Ok(())) => {
            let artifact = store_artifact(before.owner(), staged, kind, logical, output_type);
            &&& res is Ok
            &&& res->Ok_0@ == artifact
            &&& after.artifacts() == before.artifacts().push(artifact)
        },
    }
}

/// The claim is refused, or the output is new.
pub open spec fn claim_is_new(
    registry: ActionsRegistry,
    claim: Result<(), String>,
    logical: Seq<char>,
    kind: BuckOutPathKind,
) -> bool {
    claim is Ok && staged_place(logical) is Ok ==> !is_declared(
        registry.artifacts(),
        store_artifact_path(registry.owner(), staged_place(logical)->Ok_0, kind, logical),
    )
}

impl AnalysisRegistry {
    /// Declares an output that is built for a store path. `claim` is the outcome of the claim of
    /// the staged path.
    pub fn declare_store_output(
        &mut self,
        claim: &Result<(), String>,
        logical_store_path: &AbsNormPathBuf,
        output_type: OutputType,
    ) -> (res: Result<DeclaredArtifact, DeclarationError<String>>)
        requires
            claim_is_new(
                old(self).actions,
                *claim,
                logical_store_path@,
                BuckOutPathKind::Configuration,
            ),
        ensures
            declaration(
                old(self).actions,
                final(self).actions,
                *claim,
                logical_store_path@,
                output_type,
                BuckOutPathKind::Configuration,
                res,
            ),
    {
        self.declare_store_output_with_resolution(
            claim,
            logical_store_path,
            output_type,
            BuckOutPathKind::Configuration,
        )
    }

    /// Declares an output that is imported for a store path. `claim` is the outcome of the claim
    /// of the staged path.
    pub fn declare_imported_store_output(
        &mut self,
        claim: &Result<(), String>,
        logical_store_path: &AbsNormPathBuf,
        output_type: OutputType,
    ) -> (res: Result<DeclaredArtifact, DeclarationError<String>>)
        requires
            claim_is_new(
                old(self).actions,
                *claim,
                logical_store_path@,
                BuckOutPathKind::ContentHash,
            ),
        ensures
            declaration(
                old(self).actions,
                final(self).actions,
                *claim,
                logical_store_path@,
                output_type,
                BuckOutPathKind::ContentHash,
                res,
            ),
    {
        self.declare_store_output_with_resolution(
            claim,
            logical_store_path,
            output_type,
            BuckOutPathKind::ContentHash,
        )
    }

    fn declare_store_output_with_resolution(
        &mut self,
        claim: &Result<(), String>,
        logical_store_path: &AbsNormPathBuf,
        output_type: OutputType,
        path_resolution_method: BuckOutPathKind,
    ) -> (res: Result<DeclaredArtifact, DeclarationError<String>>)
        requires
            claim_is_new(
                old(self).actions,
                *claim,
                logical_store_path@,
                path_resolution_method,
            ),
        ensures
            declaration(
                old(self).actions,
                final(self).actions,
                *claim,
                logical_store_path@,
                output_type,
                path_resolution_method,
                res,
            ),
    {
        let staged_path = match staged_store_path(logical_store_path) {
            Ok(staged_path) => staged_path,
            Err(e) => {
                return Err(e);
            },
        };
        self.actions.declare_store_artifact(
            claim,
            staged_path,
            logical_store_path,
            output_type,
            path_resolution_method,
        )
    }
}

/// A store path that was made from an identity can always be declared, and is staged under the
/// object's name.
pub proof fn identities_are_staged_by_name(key: Seq<char>, name: Seq<char>)
    requires
        identity_path(key, name) is Ok,
    ensures
        staged_place(object_path(key, name)) == Ok::<Seq<char>, DeclarationError<Seq<char>>>(
            "__buckpkgs_store__/"@ + object_name(key, name),
        ),
{
    object_paths_are_normalized(key, name);
    let path = object_path(key, name);
    let root = components("/pkgs/store"@);
    assert(root =~= components(path).subrange(0, root.len() as int));
    assert(names_in_store(path) =~= seq![object_name(key, name)]);
}

/// Outputs for different places in the store are staged at different places.
pub proof fn staged_places_do_not_collide(a: Seq<char>, b: Seq<char>)
    requires
        is_abs_norm(a),
        is_abs_norm(b),
        staged_place(a) is Ok,
        staged_place(b) is Ok,
    ensures
        staged_place(a) == staged_place(b) <==> components(a) == components(b),
{
    let root = components("/pkgs/store"@);
    lemma_names_in_store(a);
    lemma_names_in_store(b);
    lemma_staged_pieces(names_in_store(a));
    lemma_staged_pieces(names_in_store(b));
    if staged_place(a) == staged_place(b) {
        let top = seq!["__buckpkgs_store__"@];
        assert((top + names_in_store(a)).skip(1) =~= names_in_store(a));
        assert((top + names_in_store(b)).skip(1) =~= names_in_store(b));
        assert(components(a) =~= root + names_in_store(a));
        assert(components(b) =~= root + names_in_store(b));
    }
}

/// An output that is built for a store path and one that is imported for it are staged at one
/// place, so one claim decides for both. They differ in nothing but what the place is made from.
pub proof fn built_and_imported_outputs_share_their_place(
    before: ActionsRegistry,
    after: ActionsRegistry,
    other_before: ActionsRegistry,
    other_after: ActionsRegistry,
    claim: Result<(), String>,
    other_claim: Result<(), String>,
    logical: Seq<char>,
    output_type: OutputType,
    built: Result<DeclaredArtifact, DeclarationError<String>>,
    imported: Result<DeclaredArtifact, DeclarationError<String>>,
)
    requires
        before.owner() == other_before.owner(),
        declaration(
            before,
            after,
            claim,
            logical,
            output_type,
            BuckOutPathKind::Configuration,
            built,
        ),
        declaration(
            other_before,
            other_after,
            other_claim,
            logical,
            output_type,
            BuckOutPathKind::ContentHash,
            imported,
        ),
        built is Ok,
        other_claim is Ok,
    ensures
        imported is Ok,
        imported->Ok_0@ == (DeclaredV {
            path: ArtifactPathV { kind: BuckOutPathKind::ContentHash, ..built->Ok_0@.path },
            ..built->Ok_0@
        }),
        built->Ok_0@.path.kind == BuckOutPathKind::Configuration,
        staged_place(logical) == Ok::<Seq<char>, DeclarationError<Seq<char>>>(
            built->Ok_0@.path.path,
        ),
{
}

/// A refused claim declares nothing, whether the output is built or imported.
pub proof fn a_refused_claim_declares_nothing(
    before: ActionsRegistry,
    after: ActionsRegistry,
    claim: Result<(), String>,
    logical: Seq<char>,
    output_type: OutputType,
    kind: BuckOutPathKind,
    res: Result<DeclaredArtifact, DeclarationError<String>>,
)
    requires
        claim is Err,
        declaration(before, after, claim, logical, output_type, kind, res),
    ensures
        res is Err,
        after.artifacts() == before.artifacts(),
{
}

} // verus!
