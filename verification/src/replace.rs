use vstd::prelude::*;

use crate::sftp_files::{end_without_slashes, scratch_file_name, sibling_path, spec_scratch_file_name, spec_sibling_path, spec_split_remote_path, split_remote_path};
use crate::text::{chars_of, decimal, digit_char, owned, string_of};

verus! {

/// A file operation made while a file is replaced through a scratch copy.
#[derive(Clone, Debug, PartialEq, Eq)]
pub enum FileOp {
    /// Moves the file at `from` to `to`.
    Rename { from: String, to: String },
    /// Deletes the file at `path`.
    Remove { path: String },
}

/// Files by path, each mapped to an identity of its contents.
pub open spec fn apply_op(fs: Map<Seq<char>, int>, op: FileOp) -> Map<Seq<char>, int> {
    match op {
        FileOp::Rename { from, to } => if fs.dom().contains(from@) && !fs.dom().contains(to@) {
            fs.remove(from@).insert(to@, fs[from@])
        } else {
            fs
        },
        FileOp::Remove { path } => fs.remove(path@),
    }
}

/// The files after the operations, in order. A rename whose source is missing or whose
/// destination is taken changes nothing, as a failed one does.
pub open spec fn apply_ops(fs: Map<Seq<char>, int>, ops: Seq<FileOp>) -> Map<Seq<char>, int>
    decreases ops.len(),
{
    if ops.len() == 0 {
        fs
    } else {
        apply_ops(apply_op(fs, ops[0]), ops.drop_first())
    }
}

/// How far a replacement got before it stopped.
#[derive(Clone, Copy, Debug, PartialEq, Eq, Structural)]
pub enum ReplaceStage {
    /// The new contents are in the scratch file; the target is untouched.
    TempWritten,
    /// The old target, if there was one, has been moved to the backup path (or the move
    /// of the scratch file onto the target failed).
    BackedUp,
    /// The scratch file has been moved onto the target.
    Promoted,
}

/// The paths of a replacement: the file replaced, the scratch file holding the new
/// contents, and the backup that holds the old target until the new one is in place.
#[derive(Clone, Debug)]
pub struct ReplacePlan {
    pub target: String,
    pub temp: String,
    pub backup: String,
    /// Whether there was a file at the target before.
    pub had_original: bool,
}

impl ReplacePlan {
    pub open spec fn paths_distinct(&self) -> bool {
        &&& self.target@ != self.temp@
        &&& self.target@ != self.backup@
        &&& self.temp@ != self.backup@
    }

    /// Moving the old target aside, when there is one.
    pub open spec fn spec_backup_ops(&self) -> Seq<FileOp> {
        if self.had_original {
            seq![FileOp::Rename { from: self.target, to: self.backup }]
        } else {
            Seq::<FileOp>::empty()
        }
    }

    pub open spec fn spec_promote_op(&self) -> FileOp {
        FileOp::Rename { from: self.temp, to: self.target }
    }

    /// Deleting the backup once the new target is in place.
    pub open spec fn spec_finish_ops(&self) -> Seq<FileOp> {
        if self.had_original {
            seq![FileOp::Remove { path: self.backup }]
        } else {
            Seq::<FileOp>::empty()
        }
    }

    /// Putting the old target back after the scratch file could not be moved onto it,
    /// when there was one; the scratch file is left where it is.
    pub open spec fn spec_restore_ops(&self) -> Seq<FileOp> {
        if self.had_original {
            seq![FileOp::Rename { from: self.backup, to: self.target }]
        } else {
            Seq::<FileOp>::empty()
        }
    }

    /// The operations made up to a stage.
    pub open spec fn forward_ops(&self, stage: ReplaceStage) -> Seq<FileOp> {
        match stage {
            ReplaceStage::TempWritten => Seq::<FileOp>::empty(),
            ReplaceStage::BackedUp => self.spec_backup_ops(),
            ReplaceStage::Promoted => self.spec_backup_ops().push(self.spec_promote_op()),
        }
    }

    /// What undoes a replacement stopped at a stage: before the backup, the scratch file
    /// is deleted; after it, the backup goes back to the target and the scratch file is
    /// deleted; after the promotion, the new target is deleted and the backup goes back.
    pub open spec fn spec_rollback_ops(&self, stage: ReplaceStage) -> Seq<FileOp> {
        match stage {
            ReplaceStage::TempWritten => seq![FileOp::Remove { path: self.temp }],
            ReplaceStage::BackedUp => if self.had_original {
                seq![FileOp::Rename { from: self.backup, to: self.target }, FileOp::Remove { path: self.temp }]
            } else {
                seq![FileOp::Remove { path: self.temp }]
            },
            ReplaceStage::Promoted => if self.had_original {
                seq![FileOp::Remove { path: self.target }, FileOp::Rename { from: self.backup, to: self.target }]
            } else {
                seq![FileOp::Remove { path: self.target }]
            },
        }
    }

    /// The files a replacement starts from: the new contents in the scratch file, no
    /// backup yet, and a target exactly when the plan says there was one.
    pub open spec fn ready(&self, fs: Map<Seq<char>, int>) -> bool {
        &&& fs.dom().contains(self.temp@)
        &&& !fs.dom().contains(self.backup@)
        &&& fs.dom().contains(self.target@) == self.had_original
    }

    /// A plan over three given paths.
    pub fn new(target: String, temp: String, backup: String, had_original: bool) -> (plan: Self)
        ensures
            plan.target == target,
            plan.temp == temp,
            plan.backup == backup,
            plan.had_original == had_original,
    {
        ReplacePlan { target, temp, backup, had_original }
    }

    pub fn backup_ops(&self) -> (ops: Vec<FileOp>)
        ensures
            ops@ == self.spec_backup_ops(),
    {
        let mut ops: Vec<FileOp> = Vec::new();
        if self.had_original {
            ops.push(FileOp::Rename { from: self.target.clone(), to: self.backup.clone() });
        }
        proof {
            assert(ops@ =~= self.spec_backup_ops());
        }
        ops
    }

    pub fn promote_op(&self) -> (op: FileOp)
        ensures
            op == self.spec_promote_op(),
    {
        FileOp::Rename { from: self.temp.clone(), to: self.target.clone() }
    }

    pub fn finish_ops(&self) -> (ops: Vec<FileOp>)
        ensures
            ops@ == self.spec_finish_ops(),
    {
        let mut ops: Vec<FileOp> = Vec::new();
        if self.had_original {
            ops.push(FileOp::Remove { path: self.backup.clone() });
        }
        proof {
            assert(ops@ =~= self.spec_finish_ops());
        }
        ops
    }

    pub fn restore_ops(&self) -> (ops: Vec<FileOp>)
        ensures
            ops@ == self.spec_restore_ops(),
    {
        let mut ops: Vec<FileOp> = Vec::new();
        if self.had_original {
            ops.push(FileOp::Rename { from: self.backup.clone(), to: self.target.clone() });
        }
        proof {
            assert(ops@ =~= self.spec_restore_ops());
        }
        ops
    }

    pub fn rollback_ops(&self, stage: ReplaceStage) -> (ops: Vec<FileOp>)
        ensures
            ops@ == self.spec_rollback_ops(stage),
    {
        let mut ops: Vec<FileOp> = Vec::new();
        match stage {
            ReplaceStage::TempWritten => {
                ops.push(FileOp::Remove { path: self.temp.clone() });
            },
            ReplaceStage::BackedUp => {
                if self.had_original {
                    ops.push(FileOp::Rename { from: self.backup.clone(), to: self.target.clone() });
                }
                ops.push(FileOp::Remove { path: self.temp.clone() });
            },
            ReplaceStage::Promoted => {
                ops.push(FileOp::Remove { path: self.target.clone() });
                if self.had_original {
                    ops.push(FileOp::Rename { from: self.backup.clone(), to: self.target.clone() });
                }
            },
        }
        proof {
            assert(ops@ =~= self.spec_rollback_ops(stage));
        }
        ops
    }
}

proof fn lemma_apply_one(fs: Map<Seq<char>, int>, op: FileOp)
    ensures
        apply_ops(fs, seq![op]) == apply_op(fs, op),
{
    assert(seq![op].drop_first() =~= Seq::<FileOp>::empty());
    assert(apply_ops(apply_op(fs, op), Seq::<FileOp>::empty()) == apply_op(fs, op));
}

proof fn lemma_apply_two(fs: Map<Seq<char>, int>, a: FileOp, b: FileOp)
    ensures
        apply_ops(fs, seq![a, b]) == apply_op(apply_op(fs, a), b),
{
    assert(seq![a, b].drop_first() =~= seq![b]);
    lemma_apply_one(apply_op(fs, a), b);
}

/// When the scratch file cannot be moved onto the target (which leaves the files as they
/// are), putting the backup back restores the files the replacement started from.
pub proof fn lemma_restore_after_failed_promote(plan: ReplacePlan, fs: Map<Seq<char>, int>)
    requires
        plan.paths_distinct(),
        plan.ready(fs),
    ensures
        apply_ops(apply_ops(fs, plan.spec_backup_ops()), plan.spec_restore_ops()) == fs,
{
    if plan.had_original {
        let t = plan.target@;
        let b = plan.backup@;
        lemma_apply_one(fs, FileOp::Rename { from: plan.target, to: plan.backup });
        let backed = fs.remove(t).insert(b, fs[t]);
        assert(apply_ops(fs, plan.spec_backup_ops()) == backed);
        lemma_apply_one(backed, FileOp::Rename { from: plan.backup, to: plan.target });
        assert(backed.remove(b).insert(t, backed[b]) =~= fs);
    } else {
        assert(apply_ops(fs, Seq::<FileOp>::empty()) == fs);
    }
}

/// The error of a move of the scratch file onto the target that failed, with the error of
/// putting the backup back when that failed too.
pub fn promote_failure_message(error: &str, rollback_error: Option<&str>) -> (message: String)
    ensures
        message@ == match rollback_error {
            Some(r) => "Local promote Error: "@ + error@ + "; rollback Error: "@ + r@,
            None => "Local promote Error: "@ + error@,
        },
{
    let head = crate::text::concat("Local promote Error: ", error);
    match rollback_error {
        Some(r) => {
            let with_label = crate::text::concat(head.as_str(), "; rollback Error: ");
            crate::text::concat(with_label.as_str(), r)
        },
        None => head,
    }
}

/// A replacement that stops at any stage and is rolled back leaves the files as they were,
/// less the scratch file: the old target back in place when there was one, no target when
/// there was none, and no backup.
pub proof fn lemma_rollback_restores(plan: ReplacePlan, fs: Map<Seq<char>, int>, stage: ReplaceStage)
    requires
        plan.paths_distinct(),
        plan.ready(fs),
    ensures
        apply_ops(apply_ops(fs, plan.forward_ops(stage)), plan.spec_rollback_ops(stage)) == fs.remove(plan.temp@),
{
    let t = plan.target@;
    let p = plan.temp@;
    let b = plan.backup@;
    let backed = if plan.had_original {
        fs.remove(t).insert(b, fs[t])
    } else {
        fs
    };
    if plan.had_original {
        lemma_apply_one(fs, FileOp::Rename { from: plan.target, to: plan.backup });
    } else {
        assert(apply_ops(fs, Seq::<FileOp>::empty()) == fs);
    }
    assert(apply_ops(fs, plan.spec_backup_ops()) == backed);
    match stage {
        ReplaceStage::TempWritten => {
            assert(apply_ops(fs, plan.forward_ops(stage)) == fs);
            lemma_apply_one(fs, FileOp::Remove { path: plan.temp });
        },
        ReplaceStage::BackedUp => {
            if plan.had_original {
                lemma_apply_two(
                    backed,
                    FileOp::Rename { from: plan.backup, to: plan.target },
                    FileOp::Remove { path: plan.temp },
                );
                assert(backed.remove(b).insert(t, backed[b]).remove(p) =~= fs.remove(p));
            } else {
                lemma_apply_one(backed, FileOp::Remove { path: plan.temp });
            }
        },
        ReplaceStage::Promoted => {
            let fwd = plan.spec_backup_ops().push(plan.spec_promote_op());
            lemma_apply_concat(fs, plan.spec_backup_ops(), seq![plan.spec_promote_op()]);
            assert(plan.spec_backup_ops() + seq![plan.spec_promote_op()] =~= fwd);
            lemma_apply_one(backed, plan.spec_promote_op());
            let promoted = backed.remove(p).insert(t, backed[p]);
            assert(apply_ops(fs, fwd) == promoted);
            if plan.had_original {
                lemma_apply_two(
                    promoted,
                    FileOp::Remove { path: plan.target },
                    FileOp::Rename { from: plan.backup, to: plan.target },
                );
                assert(promoted.remove(t).remove(b).insert(t, promoted.remove(t)[b]) =~= fs.remove(p));
            } else {
                lemma_apply_one(promoted, FileOp::Remove { path: plan.target });
                assert(promoted.remove(t) =~= fs.remove(p));
            }
        },
    }
}

proof fn lemma_apply_concat(fs: Map<Seq<char>, int>, a: Seq<FileOp>, b: Seq<FileOp>)
    ensures
        apply_ops(fs, a + b) == apply_ops(apply_ops(fs, a), b),
    decreases a.len(),
{
    if a.len() == 0 {
        assert(a + b =~= b);
    } else {
        assert((a + b).drop_first() =~= a.drop_first() + b);
        lemma_apply_concat(apply_op(fs, a[0]), a.drop_first(), b);
    }
}

/// A replacement that goes through leaves the new contents at the target and neither a
/// scratch file nor a backup; no other file changes.
pub proof fn lemma_commit_replaces(plan: ReplacePlan, fs: Map<Seq<char>, int>)
    requires
        plan.paths_distinct(),
        plan.ready(fs),
    ensures
        apply_ops(fs, plan.spec_backup_ops().push(plan.spec_promote_op()) + plan.spec_finish_ops()) == fs.remove(
            plan.temp@,
        ).insert(plan.target@, fs[plan.temp@]),
{
    let t = plan.target@;
    let p = plan.temp@;
    let b = plan.backup@;
    let fwd = plan.spec_backup_ops().push(plan.spec_promote_op());
    lemma_apply_concat(fs, fwd, plan.spec_finish_ops());
    lemma_apply_concat(fs, plan.spec_backup_ops(), seq![plan.spec_promote_op()]);
    assert(plan.spec_backup_ops() + seq![plan.spec_promote_op()] =~= fwd);
    let backed = if plan.had_original {
        fs.remove(t).insert(b, fs[t])
    } else {
        fs
    };
    if plan.had_original {
        lemma_apply_one(fs, FileOp::Rename { from: plan.target, to: plan.backup });
    } else {
        assert(apply_ops(fs, Seq::<FileOp>::empty()) == fs);
    }
    lemma_apply_one(backed, plan.spec_promote_op());
    let promoted = backed.remove(p).insert(t, backed[p]);
    if plan.had_original {
        lemma_apply_one(promoted, FileOp::Remove { path: plan.backup });
        assert(promoted.remove(b) =~= fs.remove(p).insert(t, fs[p]));
    } else {
        assert(apply_ops(promoted, Seq::<FileOp>::empty()) == promoted);
        assert(promoted =~= fs.remove(p).insert(t, fs[p]));
    }
}

/// Which kind of replacement a scratch file serves, which its name tells.
#[derive(Clone, Copy, Debug, PartialEq, Eq, Structural)]
pub enum ScratchKind {
    /// An edited text file is saved.
    TextSave,
    /// A local file is uploaded.
    Upload,
}

pub open spec fn temp_tag(kind: ScratchKind) -> Seq<char> {
    match kind {
        ScratchKind::TextSave => "tmp"@,
        ScratchKind::Upload => "upload.tmp"@,
    }
}

pub open spec fn backup_tag(kind: ScratchKind) -> Seq<char> {
    match kind {
        ScratchKind::TextSave => "bak"@,
        ScratchKind::Upload => "upload.bak"@,
    }
}

/// A path without its trailing slashes.
pub open spec fn without_trailing_slashes(path: Seq<char>) -> Seq<char> {
    path.subrange(0, end_without_slashes(path, path.len() as int))
}

/// The plan for replacing the remote file at `path`: the scratch file and the backup sit
/// next to it (by its path without trailing slashes), hidden, named after it, the kind,
/// the process id and a time stamp. A path of slashes only names no file.
pub open spec fn spec_remote_plan(path: Seq<char>, kind: ScratchKind, pid: u32, stamp: u128) -> Option<(Seq<char>, Seq<char>)> {
    let trimmed = without_trailing_slashes(path);
    if trimmed.len() == 0 {
        None
    } else {
        let (dir, name) = spec_split_remote_path(trimmed);
        Some(
            (
                spec_sibling_path(dir, spec_scratch_file_name(name, temp_tag(kind), pid, stamp)),
                spec_sibling_path(dir, spec_scratch_file_name(name, backup_tag(kind), pid, stamp)),
            ),
        )
    }
}

proof fn lemma_slash_end(s: Seq<char>, j: int)
    requires
        0 <= j <= s.len(),
    ensures
        0 <= end_without_slashes(s, j) <= j,
        end_without_slashes(s, j) > 0 ==> s[end_without_slashes(s, j) - 1] != '/',
        forall|k: int| end_without_slashes(s, j) <= k < j ==> s[k] == '/',
    decreases j,
{
    if j > 0 && s[j - 1] == '/' {
        lemma_slash_end(s, j - 1);
    }
}

proof fn lemma_decimal_ends_in_digit(n: nat)
    ensures
        decimal(n).len() > 0,
        decimal(n).last() != '/',
    decreases n,
{
    if n < 10 {
        assert(decimal(n) == seq![digit_char(n)]);
    } else {
        lemma_decimal_ends_in_digit(n / 10);
        assert(decimal(n) == decimal(n / 10).push(digit_char(n % 10)));
    }
    let d: nat = if n < 10 { n } else { n % 10 };
    assert(decimal(n).last() == digit_char(d));
    assert(digit_char(d) as u32 == d + 48);
}

/// A scratch path differs from the path it was made for: it is longer than the path
/// without its trailing slashes, and ends in a digit where the path ends in a slash.
proof fn lemma_scratch_differs(path: Seq<char>, tag: Seq<char>, pid: u32, stamp: u128)
    requires
        without_trailing_slashes(path).len() > 0,
    ensures
        ({
            let trimmed = without_trailing_slashes(path);
            let (dir, name) = spec_split_remote_path(trimmed);
            spec_sibling_path(dir, spec_scratch_file_name(name, tag, pid, stamp)) != path
        }),
{
    let trimmed = without_trailing_slashes(path);
    let e = end_without_slashes(path, path.len() as int);
    lemma_slash_end(path, path.len() as int);
    let (dir, name) = spec_split_remote_path(trimmed);
    let scratch = spec_scratch_file_name(name, tag, pid, stamp);
    let full = spec_sibling_path(dir, scratch);
    let i = crate::sftp_files::segment_start(trimmed, trimmed.len() as int);
    crate::sftp_files::lemma_segment_start_bounds(trimmed, trimmed.len() as int);
    lemma_decimal_ends_in_digit(stamp as nat);
    assert(scratch.last() == crate::text::decimal(stamp as nat).last());
    assert(full.last() == scratch.last());
    if e < path.len() {
        assert(path.last() == '/');
    } else {
        assert(trimmed =~= path);
        assert(full.len() > path.len());
    }
}

proof fn lemma_scratch_tags_differ(dir: Seq<char>, name: Seq<char>, t1: Seq<char>, t2: Seq<char>, pid: u32, stamp: u128)
    requires
        t1.len() == t2.len(),
        t1 != t2,
    ensures
        spec_sibling_path(dir, spec_scratch_file_name(name, t1, pid, stamp)) != spec_sibling_path(
            dir,
            spec_scratch_file_name(name, t2, pid, stamp),
        ),
{
    let x1 = spec_scratch_file_name(name, t1, pid, stamp);
    let x2 = spec_scratch_file_name(name, t2, pid, stamp);
    let p = if dir == "/"@ {
        "/"@
    } else if dir.len() == 0 {
        Seq::<char>::empty()
    } else {
        dir + "/"@
    };
    assert(spec_sibling_path(dir, x1) =~= p + x1);
    assert(spec_sibling_path(dir, x2) =~= p + x2);
    if spec_sibling_path(dir, x1) == spec_sibling_path(dir, x2) {
        assert(x1 =~= (p + x1).subrange(p.len() as int, (p + x1).len() as int));
        assert(x2 =~= (p + x2).subrange(p.len() as int, (p + x2).len() as int));
        reveal_strlit(".");
        let pre = "."@ + name + "."@;
        let rest = "."@ + decimal(pid as nat) + "."@ + decimal(stamp as nat);
        assert(x1 =~= pre + t1 + rest);
        assert(x2 =~= pre + t2 + rest);
        assert(t1 =~= (pre + t1 + rest).subrange(pre.len() as int, (pre.len() + t1.len()) as int));
        assert(t2 =~= (pre + t2 + rest).subrange(pre.len() as int, (pre.len() + t2.len()) as int));
    }
}

impl ReplacePlan {
    /// The plan for replacing the remote file at `path` (see `spec_remote_plan`); a path
    /// of slashes only is refused. Its three paths are always distinct.
    pub fn for_remote_path(path: &str, kind: ScratchKind, pid: u32, stamp: u128, had_original: bool) -> (result: Result<
        ReplacePlan,
        String,
    >)
        ensures
            match result {
                Ok(plan) => spec_remote_plan(path@, kind, pid, stamp) == Some((plan.temp@, plan.backup@))
                    && plan.target@ == path@ && plan.had_original == had_original && plan.paths_distinct(),
                Err(e) => spec_remote_plan(path@, kind, pid, stamp) is None && e@ == "Invalid filename or path"@,
            },
    {
        let p = chars_of(path);
        let mut end: usize = p.len();
        while end > 0 && p[end - 1] == '/'
            invariant
                end <= p@.len(),
                p@ == path@,
                end_without_slashes(path@, path@.len() as int) == end_without_slashes(path@, end as int),
            decreases end,
        {
            end -= 1;
        }
        if end == 0 {
            return Err(owned("Invalid filename or path"));
        }
        let trimmed = string_of(crate::text::copy_chars(p.as_slice(), 0, end).as_slice());
        assert(trimmed@ =~= without_trailing_slashes(path@));
        let (dir, name) = split_remote_path(trimmed.as_str());
        let (ttag, btag) = match kind {
            ScratchKind::TextSave => ("tmp", "bak"),
            ScratchKind::Upload => ("upload.tmp", "upload.bak"),
        };
        proof {
            reveal_strlit("tmp");
            reveal_strlit("bak");
            reveal_strlit("upload.tmp");
            reveal_strlit("upload.bak");
            assert(ttag@ == temp_tag(kind));
            assert(btag@ == backup_tag(kind));
            assert(ttag@[ttag@.len() - 3] != btag@[btag@.len() - 3]);
            lemma_scratch_tags_differ(dir@, name@, ttag@, btag@, pid, stamp);
            lemma_scratch_differs(path@, ttag@, pid, stamp);
            lemma_scratch_differs(path@, btag@, pid, stamp);
        }
        let temp = sibling_path(dir.as_str(), scratch_file_name(name.as_str(), ttag, pid, stamp).as_str());
        let backup = sibling_path(dir.as_str(), scratch_file_name(name.as_str(), btag, pid, stamp).as_str());
        Ok(ReplacePlan { target: owned(path), temp, backup, had_original })
    }
}

} // verus!
