//! The staging step: retyping a list of paths to the tool's extension.
//!
//! Every file-system decision is produced as data, an [`FsAction`] list,
//! so that callers apply it to a real file system or to the model; the
//! decisions themselves are all made, and proved, here.

use vstd::prelude::*;

use crate::paths::{retype_noop, valid_ext, with_ext};
use crate::paths::{extension_matches, lemma_noop_fixpoint, with_extension};

verus! {

/// Whether staging copies a file to its staged name or renames it there.
#[derive(Clone, Copy, Debug, PartialEq, Eq, Structural)]
pub enum TransformMode {
    Copy,
    Rename,
}

/// Whether staged input files are deleted once the tool has exited.
#[derive(Clone, Copy, Debug, PartialEq, Eq, Structural)]
pub enum RemovalPolicy {
    Keep,
    Remove,
}

/// A path the operation touches: the name the caller gave, and the name
/// the file currently carries on disk.
#[derive(Clone, Debug)]
pub struct StagedPath {
    pub original: String,
    pub current: String,
}

impl StagedPath {
    pub fn new(path: String) -> (r: Self)
        ensures
            r.original@ == path@,
            r.current@ == path@,
    {
        let current = path.clone();
        StagedPath { original: path, current }
    }
}

/// One file-system action of the transaction.
#[derive(Clone, Debug)]
pub enum FsAction {
    CopyFile { src: String, dst: String },
    RenameFile { src: String, dst: String },
    RemoveFile { path: String },
}

/// The mathematical shape of an [`FsAction`].
#[verifier::ext_equal]
pub enum ActionV {
    CopyFile { src: Seq<char>, dst: Seq<char> },
    RenameFile { src: Seq<char>, dst: Seq<char> },
    RemoveFile { path: Seq<char> },
}

impl View for FsAction {
    type V = ActionV;

    open spec fn view(&self) -> ActionV {
        match self {
            FsAction::CopyFile { src, dst } => ActionV::CopyFile { src: src@, dst: dst@ },
            FsAction::RenameFile { src, dst } => ActionV::RenameFile { src: src@, dst: dst@ },
            FsAction::RemoveFile { path } => ActionV::RemoveFile { path: path@ },
        }
    }
}

/// The path a failed action complained about.
pub open spec fn action_src(a: ActionV) -> Seq<char> {
    match a {
        ActionV::CopyFile { src, .. } => src,
        ActionV::RenameFile { src, .. } => src,
        ActionV::RemoveFile { path } => path,
    }
}

pub open spec fn acts_view(s: Seq<FsAction>) -> Seq<ActionV> {
    s.map_values(|a: FsAction| a@)
}

pub open spec fn args_view(s: Seq<String>) -> Seq<Seq<char>> {
    s.map_values(|x: String| x@)
}

pub open spec fn currents(s: Seq<StagedPath>) -> Seq<Seq<char>> {
    s.map_values(|f: StagedPath| f.current@)
}

/// The single action retyping `p` to extension `e` performs.
pub open spec fn retype_action(p: Seq<char>, e: Seq<char>, mode: TransformMode) -> ActionV {
    match mode {
        TransformMode::Copy => ActionV::CopyFile { src: p, dst: with_ext(p, e) },
        TransformMode::Rename => ActionV::RenameFile { src: p, dst: with_ext(p, e) },
    }
}

/// The actions retyping a path list performs, in order; paths whose
/// extension already matches contribute none.
pub open spec fn retype_actions(ps: Seq<Seq<char>>, e: Seq<char>, mode: TransformMode) -> Seq<
    ActionV,
>
    decreases ps.len(),
{
    if ps.len() == 0 {
        Seq::empty()
    } else {
        retype_actions(ps.drop_last(), e, mode) + (if retype_noop(ps.last(), e) {
            Seq::empty()
        } else {
            seq![retype_action(ps.last(), e, mode)]
        })
    }
}

/// One removal per path, in order.
pub open spec fn cleanup_actions(ps: Seq<Seq<char>>) -> Seq<ActionV> {
    ps.map_values(|p: Seq<char>| ActionV::RemoveFile { path: p })
}

/// Retypes every path of the list to the target extension, updating each
/// entry's current name, and returns the file-system actions that carry
/// the change out.  An entry already in the target form is skipped whole:
/// no action, name unchanged.
pub fn set_ext_to_all(files: &mut Vec<StagedPath>, extension: &str, mode: TransformMode) -> (acts:
    Vec<FsAction>)
    requires
        valid_ext(extension@),
    ensures
        final(files)@.len() == old(files)@.len(),
        forall|i: int|
            0 <= i < final(files)@.len() ==> final(files)@[i].original@ == old(files)@[i].original@,
        forall|i: int|
            0 <= i < final(files)@.len() ==> final(files)@[i].current@ == with_ext(
                old(files)@[i].current@,
                extension@,
            ),
        acts_view(acts@) == retype_actions(currents(old(files)@), extension@, mode),
{
    let n = files.len();
    let mut out: Vec<StagedPath> = Vec::new();
    let mut acts: Vec<FsAction> = Vec::new();
    let mut i: usize = 0;
    while i < n
        invariant
            i <= n,
            n == files@.len(),
            files@ == old(files)@,
            valid_ext(extension@),
            out@.len() == i,
            forall|j: int| 0 <= j < i ==> out@[j].original@ == files@[j].original@,
            forall|j: int|
                0 <= j < i ==> out@[j].current@ == with_ext(files@[j].current@, extension@),
            acts_view(acts@) == retype_actions(
                currents(files@.subrange(0, i as int)),
                extension@,
                mode,
            ),
        decreases n - i,
    {
        let ghost done = currents(files@.subrange(0, i as int));
        let ghost next = currents(files@.subrange(0, i + 1));
        proof {
            assert(next.drop_last() =~= done);
            assert(next.last() == files@[i as int].current@);
        }
        let orig = files[i].original.clone();
        let cur = files[i].current.clone();
        if extension_matches(cur.as_str(), extension) {
            proof {
                lemma_noop_fixpoint(cur@, extension@);
                assert(retype_actions(next, extension@, mode) =~= retype_actions(
                    done,
                    extension@,
                    mode,
                ));
            }
            out.push(StagedPath { original: orig, current: cur });
        } else {
            let staged = with_extension(cur.as_str(), extension);
            let act = match mode {
                TransformMode::Copy => FsAction::CopyFile { src: cur, dst: staged.clone() },
                TransformMode::Rename => FsAction::RenameFile { src: cur, dst: staged.clone() },
            };
            proof {
                assert(acts_view(acts@.push(act)) =~= acts_view(acts@).push(act@));
                assert(retype_actions(next, extension@, mode) =~= retype_actions(
                    done,
                    extension@,
                    mode,
                ).push(retype_action(next.last(), extension@, mode)));
            }
            acts.push(act);
            out.push(StagedPath { original: orig, current: staged });
        }
        i = i + 1;
    }
    proof {
        assert(currents(files@.subrange(0, n as int)) =~= currents(files@));
    }
    *files = out;
    acts
}

/// Removal actions for the current names of the first `count` entries.
pub fn remove_all_files(files: &Vec<StagedPath>, count: usize) -> (acts: Vec<FsAction>)
    requires
        count <= files@.len(),
    ensures
        acts_view(acts@) == cleanup_actions(currents(files@.subrange(0, count as int))),
{
    let mut acts: Vec<FsAction> = Vec::new();
    let mut i: usize = 0;
    while i < count
        invariant
            i <= count,
            count <= files@.len(),
            acts_view(acts@) == cleanup_actions(currents(files@.subrange(0, i as int))),
        decreases count - i,
    {
        let act = FsAction::RemoveFile { path: files[i].current.clone() };
        proof {
            assert(acts_view(acts@.push(act)) =~= acts_view(acts@).push(act@));
            assert(cleanup_actions(currents(files@.subrange(0, i + 1))) =~= cleanup_actions(
                currents(files@.subrange(0, i as int)),
            ).push(ActionV::RemoveFile { path: files@[i as int].current@ }));
        }
        acts.push(act);
        i = i + 1;
    }
    acts
}

} // verus!
