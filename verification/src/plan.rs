//! The two operations, as plans.
//!
//! A [`Plan`] holds everything an operation decides: the actions staging
//! the files, the full argument list for the external tool, and the
//! actions reconciling and cleaning up afterwards.  A caller applies the
//! plan to a real file system, or to the model with [`run_plan`].

use vstd::prelude::*;

use crate::fsmodel::{
    apply_prefix, apply_seq, first_failure, lemma_apply_prefix_concat, lemma_apply_seq_concat,
    lemma_first_failure_concat, FsError, ModelFs,
};
use crate::paths::{valid_ext, with_ext};
use crate::staging::{
    action_src, acts_view, args_view, cleanup_actions, currents, remove_all_files, retype_actions,
    set_ext_to_all, ActionV, FsAction, RemovalPolicy, StagedPath, TransformMode,
};

verus! {

/// The extension staged files carry, chosen for the tool's syntax
/// highlighting.
pub open spec fn bsl_ext() -> Seq<char> {
    "bsl"@
}

/// The staging extension, as the argument the retyping functions take.
pub fn extension_bsl() -> (r: &'static str)
    ensures
        r@ == bsl_ext(),
{
    "bsl"
}

/// The staging extension is one retyping accepts.
pub proof fn lemma_bsl_valid()
    ensures
        valid_ext(bsl_ext()),
{
    reveal_strlit("bsl");
    assert forall|i: int| 0 <= i < bsl_ext().len() implies bsl_ext()[i] != '/' && bsl_ext()[i]
        != '.' by {
        if i == 0 {
            assert(bsl_ext()[0] == 'b');
        } else if i == 1 {
            assert(bsl_ext()[1] == 's');
        } else {
            assert(bsl_ext()[2] == 'l');
        }
    }
}

/// A path's staged name.
pub open spec fn staged_name(p: Seq<char>) -> Seq<char> {
    with_ext(p, bsl_ext())
}

/// What the caller asks for.
#[derive(Clone, Debug)]
pub enum Action {
    Diff { base_cfg: String, second_cfg: String },
    Merge {
        base_cfg: String,
        second_cfg: String,
        old_vendor_cfg: String,
        merged: String,
        from_second: bool,
    },
}

/// One operation's complete set of decisions, as data.
pub struct Plan {
    /// Actions before the tool runs: seeding, then staging.
    pub pre: Vec<FsAction>,
    /// The tool's full argument list.
    pub tool_args: Vec<String>,
    /// Actions after the tool exits: reconciliation, then cleanup.
    pub post: Vec<FsAction>,
}

/// The fixed argument preamble every invocation starts with.
pub open spec fn preamble_args() -> Seq<Seq<char>> {
    seq!["--new-window"@, "--sync"@, "off"@, "--wait"@]
}

pub open spec fn diff_pre_actions(base: Seq<char>, second: Seq<char>, mode: TransformMode) -> Seq<
    ActionV,
> {
    retype_actions(seq![base, second], bsl_ext(), mode)
}

pub open spec fn diff_tool_args(base: Seq<char>, second: Seq<char>) -> Seq<Seq<char>> {
    preamble_args() + seq!["--diff"@] + seq![staged_name(base), staged_name(second)]
}

pub open spec fn diff_post_actions(base: Seq<char>, second: Seq<char>, policy: RemovalPolicy) -> Seq<
    ActionV,
> {
    if policy is Remove {
        cleanup_actions(seq![staged_name(base), staged_name(second)])
    } else {
        Seq::empty()
    }
}

/// The path whose content seeds the merge result.
pub open spec fn merge_seed_src(base: Seq<char>, second: Seq<char>, from_second: bool) -> Seq<
    char,
> {
    if from_second {
        second
    } else {
        base
    }
}

pub open spec fn merge_pre_actions(
    base: Seq<char>,
    second: Seq<char>,
    old_vendor: Seq<char>,
    merged: Seq<char>,
    from_second: bool,
    mode: TransformMode,
) -> Seq<ActionV> {
    seq![ActionV::CopyFile { src: merge_seed_src(base, second, from_second), dst: merged }]
        + retype_actions(seq![base, second, old_vendor, merged], bsl_ext(), mode)
}

pub open spec fn merge_tool_args(
    base: Seq<char>,
    second: Seq<char>,
    old_vendor: Seq<char>,
    merged: Seq<char>,
) -> Seq<Seq<char>> {
    preamble_args() + seq!["--merge"@] + seq![
        staged_name(base),
        staged_name(second),
        staged_name(old_vendor),
        staged_name(merged),
    ]
}

pub open spec fn merge_post_actions(
    base: Seq<char>,
    second: Seq<char>,
    old_vendor: Seq<char>,
    merged: Seq<char>,
    policy: RemovalPolicy,
) -> Seq<ActionV> {
    (if staged_name(merged) != merged {
        seq![ActionV::RenameFile { src: staged_name(merged), dst: merged }]
    } else {
        Seq::empty()
    }) + (if policy is Remove {
        cleanup_actions(seq![staged_name(base), staged_name(second), staged_name(old_vendor)])
    } else {
        Seq::empty()
    })
}

/// Whether `plan` is the plan of `action` under the two flags.
pub open spec fn plan_is_for(
    plan: Plan,
    action: Action,
    mode: TransformMode,
    policy: RemovalPolicy,
) -> bool {
    match action {
        Action::Diff { base_cfg, second_cfg } => {
            &&& acts_view(plan.pre@) == diff_pre_actions(base_cfg@, second_cfg@, mode)
            &&& args_view(plan.tool_args@) == diff_tool_args(base_cfg@, second_cfg@)
            &&& acts_view(plan.post@) == diff_post_actions(base_cfg@, second_cfg@, policy)
        },
        Action::Merge { base_cfg, second_cfg, old_vendor_cfg, merged, from_second } => {
            &&& acts_view(plan.pre@) == merge_pre_actions(
                base_cfg@,
                second_cfg@,
                old_vendor_cfg@,
                merged@,
                from_second,
                mode,
            )
            &&& args_view(plan.tool_args@) == merge_tool_args(
                base_cfg@,
                second_cfg@,
                old_vendor_cfg@,
                merged@,
            )
            &&& acts_view(plan.post@) == merge_post_actions(
                base_cfg@,
                second_cfg@,
                old_vendor_cfg@,
                merged@,
                policy,
            )
        },
    }
}

/// An operation with its two flags.
pub struct Program {
    pub transform: TransformMode,
    pub removal: RemovalPolicy,
    pub action: Action,
}

impl Program {
    pub fn new(action: Action, removal: RemovalPolicy, transform: TransformMode) -> (r: Self)
        ensures
            r.action == action,
            r.removal == removal,
            r.transform == transform,
    {
        Program { transform, removal, action }
    }

    /// The diff operation: stage the two inputs, call the tool on them,
    /// optionally remove the staged files.
    pub fn command_diff(&self, base_cfg: String, second_cfg: String) -> (plan: Plan)
        ensures
            plan_is_for(
                plan,
                (Action::Diff { base_cfg, second_cfg }),
                self.transform,
                self.removal,
            ),
    {
        let ghost base_v = base_cfg@;
        let ghost second_v = second_cfg@;
        proof {
            lemma_bsl_valid();
        }
        let mut files: Vec<StagedPath> = Vec::new();
        files.push(StagedPath::new(base_cfg));
        files.push(StagedPath::new(second_cfg));
        proof {
            assert(currents(files@) =~= seq![base_v, second_v]);
        }
        let pre = set_ext_to_all(&mut files, extension_bsl(), self.transform);
        let mut tool_args: Vec<String> = Vec::new();
        tool_args.push("--new-window".to_owned());
        tool_args.push("--sync".to_owned());
        tool_args.push("off".to_owned());
        tool_args.push("--wait".to_owned());
        tool_args.push("--diff".to_owned());
        tool_args.push(files[0].current.clone());
        tool_args.push(files[1].current.clone());
        proof {
            assert(args_view(tool_args@) =~= diff_tool_args(base_v, second_v));
        }
        let post: Vec<FsAction> = match self.removal {
            RemovalPolicy::Remove => {
                let cleanup = remove_all_files(&files, 2);
                proof {
                    assert(currents(files@.subrange(0, 2)) =~= seq![
                        staged_name(base_v),
                        staged_name(second_v),
                    ]);
                }
                cleanup
            },
            RemovalPolicy::Keep => {
                let none: Vec<FsAction> = Vec::new();
                proof {
                    assert(acts_view(none@) =~= Seq::<ActionV>::empty());
                }
                none
            },
        };
        Plan { pre, tool_args, post }
    }

    /// The merge operation: seed the result from the chosen source, stage
    /// all four paths, call the tool, rename the result back, optionally
    /// remove the staged inputs.
    pub fn command_merge(
        &self,
        base_cfg: String,
        second_cfg: String,
        old_vendor_cfg: String,
        merged: String,
        from_second: bool,
    ) -> (plan: Plan)
        ensures
            plan_is_for(
                plan,
                (Action::Merge { base_cfg, second_cfg, old_vendor_cfg, merged, from_second }),
                self.transform,
                self.removal,
            ),
    {
        let ghost base_v = base_cfg@;
        let ghost second_v = second_cfg@;
        let ghost old_vendor_v = old_vendor_cfg@;
        let ghost merged_v = merged@;
        proof {
            lemma_bsl_valid();
        }
        let merged_orig = merged.clone();
        let seed_src = if from_second {
            second_cfg.clone()
        } else {
            base_cfg.clone()
        };
        let mut pre: Vec<FsAction> = Vec::new();
        pre.push(FsAction::CopyFile { src: seed_src, dst: merged.clone() });
        let mut files: Vec<StagedPath> = Vec::new();
        files.push(StagedPath::new(base_cfg));
        files.push(StagedPath::new(second_cfg));
        files.push(StagedPath::new(old_vendor_cfg));
        files.push(StagedPath::new(merged));
        proof {
            assert(currents(files@) =~= seq![base_v, second_v, old_vendor_v, merged_v]);
        }
        let mut retype = set_ext_to_all(&mut files, extension_bsl(), self.transform);
        let ghost seed_only = pre@;
        let ghost retype_v = retype@;
        pre.append(&mut retype);
        proof {
            assert(acts_view(pre@) =~= acts_view(seed_only) + acts_view(retype_v));
            assert(acts_view(seed_only) =~= seq![
                ActionV::CopyFile {
                    src: merge_seed_src(base_v, second_v, from_second),
                    dst: merged_v,
                },
            ]);
            assert(acts_view(pre@) =~= merge_pre_actions(
                base_v,
                second_v,
                old_vendor_v,
                merged_v,
                from_second,
                self.transform,
            ));
        }
        let merged_new = files[3].current.clone();
        let mut tool_args: Vec<String> = Vec::new();
        tool_args.push("--new-window".to_owned());
        tool_args.push("--sync".to_owned());
        tool_args.push("off".to_owned());
        tool_args.push("--wait".to_owned());
        tool_args.push("--merge".to_owned());
        tool_args.push(files[0].current.clone());
        tool_args.push(files[1].current.clone());
        tool_args.push(files[2].current.clone());
        tool_args.push(merged_new.clone());
        proof {
            assert(args_view(tool_args@) =~= merge_tool_args(
                base_v,
                second_v,
                old_vendor_v,
                merged_v,
            ));
        }
        let mut post: Vec<FsAction> = Vec::new();
        if merged_new != merged_orig {
            post.push(FsAction::RenameFile { src: merged_new, dst: merged_orig });
        }
        let ghost reconcile_only = post@;
        proof {
            assert(acts_view(reconcile_only) =~= (if staged_name(merged_v) != merged_v {
                seq![ActionV::RenameFile { src: staged_name(merged_v), dst: merged_v }]
            } else {
                Seq::<ActionV>::empty()
            }));
        }
        match self.removal {
            RemovalPolicy::Remove => {
                let mut cleanup = remove_all_files(&files, 3);
                proof {
                    assert(currents(files@.subrange(0, 3)) =~= seq![
                        staged_name(base_v),
                        staged_name(second_v),
                        staged_name(old_vendor_v),
                    ]);
                }
                post.append(&mut cleanup);
                proof {
                    assert(acts_view(post@) =~= acts_view(reconcile_only) + cleanup_actions(
                        seq![staged_name(base_v), staged_name(second_v), staged_name(old_vendor_v)],
                    ));
                }
            },
            RemovalPolicy::Keep => {
                proof {
                    assert(acts_view(post@) =~= acts_view(reconcile_only) + Seq::<
                        ActionV,
                    >::empty());
                }
            },
        }
        proof {
            assert(acts_view(post@) =~= merge_post_actions(
                base_v,
                second_v,
                old_vendor_v,
                merged_v,
                self.removal,
            ));
        }
        Plan { pre, tool_args, post }
    }

    /// Builds the plan of the held action.
    pub fn run(&self) -> (plan: Plan)
        ensures
            plan_is_for(plan, self.action, self.transform, self.removal),
    {
        match &self.action {
            Action::Diff { base_cfg, second_cfg } => self.command_diff(
                base_cfg.clone(),
                second_cfg.clone(),
            ),
            Action::Merge { base_cfg, second_cfg, old_vendor_cfg, merged, from_second } => self
                .command_merge(
                base_cfg.clone(),
                second_cfg.clone(),
                old_vendor_cfg.clone(),
                merged.clone(),
                *from_second,
            ),
        }
    }
}

/// All of a plan's file-system actions, in the order they run.
pub open spec fn plan_actions(plan: Plan) -> Seq<ActionV> {
    acts_view(plan.pre@) + acts_view(plan.post@)
}

/// Runs a plan against the model file system: the pre actions, the tool
/// (which the model takes as exiting with `tool_exit`, touching nothing),
/// then the post actions.  Fails fast at the first failing action.
pub fn run_plan(fs: &mut ModelFs, plan: &Plan, tool_exit: i32) -> (r: Result<i32, FsError>)
    requires
        old(fs).wf(),
    ensures
        final(fs).wf(),
        final(fs)@ == apply_prefix(old(fs)@, plan_actions(*plan)),
        r is Ok <==> apply_seq(old(fs)@, plan_actions(*plan)) is Some,
        r matches Ok(code) ==> code == tool_exit && Some(final(fs)@) == apply_seq(
            old(fs)@,
            plan_actions(*plan),
        ),
        r matches Err(e) ==> (first_failure(old(fs)@, plan_actions(*plan)) matches Some(a)
            && e.path@ == action_src(a)),
{
    proof {
        lemma_apply_seq_concat(old(fs)@, acts_view(plan.pre@), acts_view(plan.post@));
        lemma_apply_prefix_concat(old(fs)@, acts_view(plan.pre@), acts_view(plan.post@));
        lemma_first_failure_concat(old(fs)@, acts_view(plan.pre@), acts_view(plan.post@));
    }
    match fs.apply_all(&plan.pre) {
        Ok(()) => {},
        Err(e) => {
            return Err(e);
        },
    }
    match fs.apply_all(&plan.post) {
        Ok(()) => {},
        Err(e) => {
            return Err(e);
        },
    }
    Ok(tool_exit)
}

} // verus!
