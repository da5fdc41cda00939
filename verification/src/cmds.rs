//! The decisions behind the argument-driven commands: what `echo` prints,
//! which removal each `rm` flag combination asks for, what `touch` does to
//! its target, which listing `ls` was asked for, how `cp` and `ln` read
//! their operands, and the base name a copy nests its source under.
//!
//! Each function turns an argument vector — and, where a decision hangs on
//! the state of a path, that state as a plain value — into a plan; the
//! filesystem work itself stays with the caller.

use vstd::prelude::*;
use vstd::string::StrSliceExecFns;
use vstd::string::StringExecFns;

use crate::UtilError;

verus! {

/// Whether a string equals a literal.
fn str_is(s: &String, lit: &str) -> (r: bool)
    ensures
        r == (s@ == lit@),
{
    s.eq(&String::from_str(lit))
}

/// The words joined by single spaces.
pub open spec fn spec_join(parts: Seq<Seq<char>>) -> Seq<char>
    decreases parts.len(),
{
    if parts.len() == 0 {
        Seq::empty()
    } else if parts.len() == 1 {
        parts[0]
    } else {
        spec_join(parts.drop_last()) + seq![' '] + parts.last()
    }
}

/// What `echo` prints for this argument vector: too few words are a
/// validation error; a lone `-n` is one too; with `-n` the remaining words
/// joined by spaces; without it the words joined by spaces and a newline.
pub open spec fn spec_echo(a: Seq<Seq<char>>) -> Result<Seq<char>, UtilError> {
    if a.len() <= 2 {
        Err(UtilError::Validation)
    } else if a.len() == 3 {
        if a[2] == seq!['-', 'n'] {
            Err(UtilError::Validation)
        } else {
            Ok(a[2] + seq!['\n'])
        }
    } else {
        if a[2] == seq!['-', 'n'] {
            Ok(spec_join(a.skip(3)))
        } else {
            Ok(spec_join(a.skip(2)) + seq!['\n'])
        }
    }
}

/// Joins the words from `start` on with single spaces.
fn join_words(args: &Vec<String>, start: usize) -> (r: String)
    requires
        start <= args@.len(),
    ensures
        r@ == spec_join(args.deep_view().skip(start as int)),
{
    let ghost parts = args.deep_view().skip(start as int);
    let mut out = String::new();
    let mut i: usize = start;
    while i < args.len()
        invariant
            start <= i <= args@.len(),
            parts == args.deep_view().skip(start as int),
            out@ == spec_join(parts.take(i - start)),
        decreases args.len() - i,
    {
        proof {
            reveal_strlit(" ");
            assert(parts.take(i - start + 1).drop_last() =~= parts.take(i - start));
            assert(parts.take(i - start + 1).last() == args.deep_view()[i as int]);
        }
        if i > start {
            out.append(" ");
            proof {
                assert(out@ =~= spec_join(parts.take(i - start)) + seq![' ']);
            }
        }
        out.append(args[i].as_str());
        proof {
            assert(out@ =~= spec_join(parts.take(i - start + 1)));
        }
        i += 1;
    }
    proof {
        assert(parts.take(args@.len() - start) =~= parts);
    }
    out
}

/// What `echo` prints, per [`spec_echo`]: the words joined by spaces, the
/// newline withheld under `-n`, and a validation error where there is
/// nothing to print.
pub fn echo_output(args: &Vec<String>) -> (r: Result<String, UtilError>)
    ensures
        (match r {
            Ok(s) => spec_echo(args.deep_view()) == Ok::<Seq<char>, UtilError>(s@),
            Err(e) => spec_echo(args.deep_view()) == Err::<Seq<char>, UtilError>(e),
        }),
{
    proof {
        reveal_strlit("-n");
        reveal_strlit("\n");
    }
    if args.len() <= 2 {
        return Err(UtilError::Validation);
    }
    let dash_n = str_is(&args[2], "-n");
    proof {
        assert(("-n")@ =~= seq!['-', 'n']);
    }
    if args.len() == 3 {
        if dash_n {
            Err(UtilError::Validation)
        } else {
            let mut out = args[2].clone();
            out.append("\n");
            proof {
                assert(out@ =~= args.deep_view()[2] + seq!['\n']);
            }
            Ok(out)
        }
    } else {
        if dash_n {
            Ok(join_words(args, 3))
        } else {
            let mut out = join_words(args, 2);
            out.append("\n");
            proof {
                assert(out@ =~= spec_join(args.deep_view().skip(2)) + seq!['\n']);
            }
            Ok(out)
        }
    }
}


/// How a path presents itself to a command: a regular file, a directory,
/// or neither.
#[derive(Clone, Copy, PartialEq, Eq, Structural, Debug)]
pub enum PathKind {
    IsFile,
    IsDir,
    Absent,
}

/// The removal an `rm` flag combination asks for.
#[derive(Clone, Copy, PartialEq, Eq, Structural, Debug)]
pub enum RmMode {
    Plain,
    DirOnly,
    Recursive,
    DirRecursive,
}

/// An `rm` invocation read: the removal mode, and the index where the
/// paths begin.
#[derive(Clone, Copy, PartialEq, Eq, Structural, Debug)]
pub struct RmPlan {
    pub mode: RmMode,
    pub start: usize,
}

/// One step of an `rm` walk.
#[derive(Clone, Copy, PartialEq, Eq, Structural, Debug)]
pub enum RmAction {
    RemoveFile,
    RemoveDir,
    RemoveDirAll,
    SkipSilent,
    FlagInvalid,
}

pub open spec fn is_dir_flag(s: Seq<char>) -> bool {
    s == ("-d")@ || s == ("--dir")@
}

pub open spec fn is_rec_flag(s: Seq<char>) -> bool {
    s == ("-r")@ || s == ("-R")@ || s == ("--recursive")@
}

/// How an `rm` argument vector is read: `-d` removes directories without
/// descending, `-r` descends, the two together — in either order — do
/// both, and a flag without a path to follow is a validation error.
pub open spec fn spec_rm_plan(a: Seq<Seq<char>>) -> Result<RmPlan, UtilError> {
    if a.len() <= 2 {
        Err(UtilError::Validation)
    } else if is_dir_flag(a[2]) {
        if a.len() == 3 {
            Err(UtilError::Validation)
        } else if is_rec_flag(a[3]) {
            Ok(RmPlan { mode: RmMode::DirRecursive, start: 4 })
        } else {
            Ok(RmPlan { mode: RmMode::DirOnly, start: 3 })
        }
    } else if is_rec_flag(a[2]) {
        if a.len() == 3 {
            Err(UtilError::Validation)
        } else if is_dir_flag(a[3]) {
            Ok(RmPlan { mode: RmMode::DirRecursive, start: 4 })
        } else {
            Ok(RmPlan { mode: RmMode::Recursive, start: 3 })
        }
    } else {
        Ok(RmPlan { mode: RmMode::Plain, start: 2 })
    }
}

fn is_dir_flag_exec(s: &String) -> (r: bool)
    ensures
        r == is_dir_flag(s@),
{
    str_is(s, "-d") || str_is(s, "--dir")
}

fn is_rec_flag_exec(s: &String) -> (r: bool)
    ensures
        r == is_rec_flag(s@),
{
    str_is(s, "-r") || str_is(s, "-R") || str_is(s, "--recursive")
}

/// Reads an `rm` argument vector, per [`spec_rm_plan`].
pub fn rm_plan(args: &Vec<String>) -> (r: Result<RmPlan, UtilError>)
    ensures
        r == spec_rm_plan(args.deep_view()),
{
    if args.len() <= 2 {
        Err(UtilError::Validation)
    } else if is_dir_flag_exec(&args[2]) {
        if args.len() == 3 {
            Err(UtilError::Validation)
        } else if is_rec_flag_exec(&args[3]) {
            Ok(RmPlan { mode: RmMode::DirRecursive, start: 4 })
        } else {
            Ok(RmPlan { mode: RmMode::DirOnly, start: 3 })
        }
    } else if is_rec_flag_exec(&args[2]) {
        if args.len() == 3 {
            Err(UtilError::Validation)
        } else if is_dir_flag_exec(&args[3]) {
            Ok(RmPlan { mode: RmMode::DirRecursive, start: 4 })
        } else {
            Ok(RmPlan { mode: RmMode::Recursive, start: 3 })
        }
    } else {
        Ok(RmPlan { mode: RmMode::Plain, start: 2 })
    }
}

/// What one `rm` step does to a path of the given kind: plain `rm` removes
/// files and flags anything else as misuse; `-d` hands non-files to the
/// directory remover; `-r` removes files and trees and passes silently
/// over what is absent; `-d -r` hands non-files to the tree remover.
pub open spec fn spec_rm_action(mode: RmMode, kind: PathKind) -> RmAction {
    match mode {
        RmMode::Plain => match kind {
            PathKind::IsFile => RmAction::RemoveFile,
            _ => RmAction::FlagInvalid,
        },
        RmMode::DirOnly => match kind {
            PathKind::IsFile => RmAction::RemoveFile,
            _ => RmAction::RemoveDir,
        },
        RmMode::Recursive => match kind {
            PathKind::IsFile => RmAction::RemoveFile,
            PathKind::IsDir => RmAction::RemoveDirAll,
            PathKind::Absent => RmAction::SkipSilent,
        },
        RmMode::DirRecursive => match kind {
            PathKind::IsFile => RmAction::RemoveFile,
            _ => RmAction::RemoveDirAll,
        },
    }
}

/// Decides one `rm` step, per [`spec_rm_action`].
pub fn rm_action(mode: RmMode, kind: PathKind) -> (r: RmAction)
    ensures
        r == spec_rm_action(mode, kind),
{
    match mode {
        RmMode::Plain => match kind {
            PathKind::IsFile => RmAction::RemoveFile,
            _ => RmAction::FlagInvalid,
        },
        RmMode::DirOnly => match kind {
            PathKind::IsFile => RmAction::RemoveFile,
            _ => RmAction::RemoveDir,
        },
        RmMode::Recursive => match kind {
            PathKind::IsFile => RmAction::RemoveFile,
            PathKind::IsDir => RmAction::RemoveDirAll,
            PathKind::Absent => RmAction::SkipSilent,
        },
        RmMode::DirRecursive => match kind {
            PathKind::IsFile => RmAction::RemoveFile,
            _ => RmAction::RemoveDirAll,
        },
    }
}

/// What `touch` does to a path; the index names the argument acted on.
#[derive(Clone, Copy, PartialEq, Eq, Structural, Debug)]
pub enum TouchAction {
    Create(usize),
    TruncateAndRead(usize),
    ReadOnly(usize),
    Rewrite(usize),
    Noop,
}

/// The argument index of the path whose existence decides a `touch`.
pub open spec fn spec_touch_probe(a: Seq<Seq<char>>) -> Option<usize> {
    if a.len() == 3 {
        Some(2usize)
    } else if a.len() == 4 {
        Some(3usize)
    } else if a.len() == 5 {
        Some(4usize)
    } else {
        None
    }
}

/// Names the argument whose existence a `touch` decision needs, per
/// [`spec_touch_probe`].
pub fn touch_probe(args: &Vec<String>) -> (r: Option<usize>)
    ensures
        r == spec_touch_probe(args.deep_view()),
{
    if args.len() == 3 {
        Some(2)
    } else if args.len() == 4 {
        Some(3)
    } else if args.len() == 5 {
        Some(4)
    } else {
        None
    }
}

pub open spec fn is_no_create_flag(s: Seq<char>) -> bool {
    s == ("-c")@ || s == ("--no-create")@
}

pub open spec fn is_time_flag(s: Seq<char>) -> bool {
    s == ("-a")@ || s == ("-m")@
}

/// What `touch` does, given whether the probed path exists: a bare path is
/// created, or truncated and read back when it exists; `-a` only reads;
/// `-m` reads and writes the bytes back; `-c` truncates only what exists;
/// `-c` beside `-a` or `-m` truncates the argument that follows the first
/// flag when the last argument exists; anything else is a validation
/// error; a five-argument form that no rule covers does nothing.
pub open spec fn spec_touch_plan(a: Seq<Seq<char>>, target_exists: bool) -> Result<
    TouchAction,
    UtilError,
> {
    if a.len() <= 2 {
        Err(UtilError::Validation)
    } else if a.len() == 3 {
        if target_exists {
            Ok(TouchAction::TruncateAndRead(2))
        } else {
            Ok(TouchAction::Create(2))
        }
    } else if a.len() == 4 {
        if a[2] == ("-a")@ {
            Ok(TouchAction::ReadOnly(3))
        } else if a[2] == ("-m")@ {
            Ok(TouchAction::Rewrite(3))
        } else if is_no_create_flag(a[2]) {
            if target_exists {
                Ok(TouchAction::Create(3))
            } else {
                Ok(TouchAction::Noop)
            }
        } else {
            Err(UtilError::Validation)
        }
    } else if a.len() == 5 {
        if target_exists && ((is_no_create_flag(a[2]) && is_time_flag(a[3])) || (is_time_flag(a[2])
            && is_no_create_flag(a[3]))) {
            Ok(TouchAction::Create(3))
        } else {
            Ok(TouchAction::Noop)
        }
    } else {
        Err(UtilError::Validation)
    }
}

/// Decides a `touch`, per [`spec_touch_plan`]; `target_exists` reports the
/// path that [`touch_probe`] names.
pub fn touch_plan(args: &Vec<String>, target_exists: bool) -> (r: Result<TouchAction, UtilError>)
    ensures
        r == spec_touch_plan(args.deep_view(), target_exists),
{
    if args.len() <= 2 {
        Err(UtilError::Validation)
    } else if args.len() == 3 {
        if target_exists {
            Ok(TouchAction::TruncateAndRead(2))
        } else {
            Ok(TouchAction::Create(2))
        }
    } else if args.len() == 4 {
        if str_is(&args[2], "-a") {
            Ok(TouchAction::ReadOnly(3))
        } else if str_is(&args[2], "-m") {
            Ok(TouchAction::Rewrite(3))
        } else if str_is(&args[2], "-c") || str_is(&args[2], "--no-create") {
            if target_exists {
                Ok(TouchAction::Create(3))
            } else {
                Ok(TouchAction::Noop)
            }
        } else {
            Err(UtilError::Validation)
        }
    } else if args.len() == 5 {
        let c2 = str_is(&args[2], "-c") || str_is(&args[2], "--no-create");
        let t2 = str_is(&args[2], "-a") || str_is(&args[2], "-m");
        let c3 = str_is(&args[3], "-c") || str_is(&args[3], "--no-create");
        let t3 = str_is(&args[3], "-a") || str_is(&args[3], "-m");
        if target_exists && ((c2 && t3) || (t2 && c3)) {
            Ok(TouchAction::Create(3))
        } else {
            Ok(TouchAction::Noop)
        }
    } else {
        Err(UtilError::Validation)
    }
}

/// A link to make; the indices name the target and the new link.
#[derive(Clone, Copy, PartialEq, Eq, Structural, Debug)]
pub enum LnPlan {
    Symlink { target: usize, link: usize },
    HardLink { target: usize, link: usize },
}

pub open spec fn is_symlink_flag(s: Seq<char>) -> bool {
    s == ("-s")@ || s == ("--symbolic")@
}

/// How an `ln` argument vector is read: `-s` makes the next two arguments
/// a symbolic link, any other flag is refused, and otherwise the two
/// arguments name a hard link; missing operands are validation errors.
pub open spec fn spec_ln_plan(a: Seq<Seq<char>>) -> Result<LnPlan, UtilError> {
    if a.len() <= 2 {
        Err(UtilError::Validation)
    } else if is_symlink_flag(a[2]) {
        if a.len() < 5 {
            Err(UtilError::Validation)
        } else {
            Ok(LnPlan::Symlink { target: 3, link: 4 })
        }
    } else if a[2].len() > 0 && a[2][0] == '-' {
        Err(UtilError::Validation)
    } else {
        if a.len() < 4 {
            Err(UtilError::Validation)
        } else {
            Ok(LnPlan::HardLink { target: 2, link: 3 })
        }
    }
}

/// Whether a string begins with a dash.
fn starts_with_dash(s: &String) -> (r: bool)
    ensures
        r == (s@.len() > 0 && s@[0] == '-'),
{
    let n = s.as_str().unicode_len();
    if n == 0 {
        false
    } else {
        s.as_str().get_char(0) == '-'
    }
}

/// Reads an `ln` argument vector, per [`spec_ln_plan`].
pub fn ln_plan(args: &Vec<String>) -> (r: Result<LnPlan, UtilError>)
    ensures
        r == spec_ln_plan(args.deep_view()),
{
    if args.len() <= 2 {
        Err(UtilError::Validation)
    } else if str_is(&args[2], "-s") || str_is(&args[2], "--symbolic") {
        if args.len() < 5 {
            Err(UtilError::Validation)
        } else {
            Ok(LnPlan::Symlink { target: 3, link: 4 })
        }
    } else if starts_with_dash(&args[2]) {
        Err(UtilError::Validation)
    } else {
        if args.len() < 4 {
            Err(UtilError::Validation)
        } else {
            Ok(LnPlan::HardLink { target: 2, link: 3 })
        }
    }
}

/// The listing an `ls` invocation asks for; indices name path arguments.
#[derive(Clone, Copy, PartialEq, Eq, Structural, Debug)]
pub enum LsPlan {
    CurrentPlain,
    CurrentAll,
    PathMaybeFile { index: usize },
    PathAll { index: usize },
    TreePlain { index: usize },
    TreeAll { index: usize },
    Nothing,
}

pub open spec fn is_all_flag(s: Seq<char>) -> bool {
    s == ("-a")@ || s == ("--all")@
}

pub open spec fn is_short_rec_flag(s: Seq<char>) -> bool {
    s == ("-r")@ || s == ("-R")@
}

/// How an `ls` argument vector is read: bare, the current directory
/// without hidden entries; `-a`, with them; a path, that path — a file
/// prints itself; `-a` and `-r` together walk the tree; any other
/// combination does nothing.
pub open spec fn spec_ls_plan(a: Seq<Seq<char>>) -> LsPlan {
    if a.len() == 2 {
        LsPlan::CurrentPlain
    } else if a.len() == 3 {
        if is_all_flag(a[2]) {
            LsPlan::CurrentAll
        } else {
            LsPlan::PathMaybeFile { index: 2 }
        }
    } else if a.len() == 4 {
        if is_all_flag(a[2]) {
            LsPlan::PathAll { index: 3 }
        } else if is_short_rec_flag(a[2]) {
            LsPlan::TreePlain { index: 3 }
        } else {
            LsPlan::Nothing
        }
    } else if a.len() == 5 {
        if (is_all_flag(a[2]) && is_short_rec_flag(a[3])) || (is_all_flag(a[3])
            && is_short_rec_flag(a[2])) {
            LsPlan::TreeAll { index: 4 }
        } else {
            LsPlan::Nothing
        }
    } else {
        LsPlan::Nothing
    }
}

/// Reads an `ls` argument vector, per [`spec_ls_plan`].
pub fn ls_plan(args: &Vec<String>) -> (r: LsPlan)
    ensures
        r == spec_ls_plan(args.deep_view()),
{
    if args.len() == 2 {
        LsPlan::CurrentPlain
    } else if args.len() == 3 {
        if str_is(&args[2], "-a") || str_is(&args[2], "--all") {
            LsPlan::CurrentAll
        } else {
            LsPlan::PathMaybeFile { index: 2 }
        }
    } else if args.len() == 4 {
        if str_is(&args[2], "-a") || str_is(&args[2], "--all") {
            LsPlan::PathAll { index: 3 }
        } else if str_is(&args[2], "-r") || str_is(&args[2], "-R") {
            LsPlan::TreePlain { index: 3 }
        } else {
            LsPlan::Nothing
        }
    } else if args.len() == 5 {
        let a2 = str_is(&args[2], "-a") || str_is(&args[2], "--all");
        let r2 = str_is(&args[2], "-r") || str_is(&args[2], "-R");
        let a3 = str_is(&args[3], "-a") || str_is(&args[3], "--all");
        let r3 = str_is(&args[3], "-r") || str_is(&args[3], "-R");
        if (a2 && r3) || (a3 && r2) {
            LsPlan::TreeAll { index: 4 }
        } else {
            LsPlan::Nothing
        }
    } else {
        LsPlan::Nothing
    }
}

/// How `cp` reads its operands; indices name the source and destination.
#[derive(Clone, Copy, PartialEq, Eq, Structural, Debug)]
pub enum CpPlan {
    Recursive { src: usize, dest: usize },
    Single { src: usize, dest: usize },
}

/// How a `cp` argument vector is read: `-r` (or `-R`, `--recursive`) asks
/// for a tree copy of the next two operands, anything else for a single
/// copy; missing operands are validation errors.
pub open spec fn spec_cp_plan(a: Seq<Seq<char>>) -> Result<CpPlan, UtilError> {
    if a.len() <= 2 {
        Err(UtilError::Validation)
    } else if is_rec_flag(a[2]) {
        if a.len() < 5 {
            Err(UtilError::Validation)
        } else {
            Ok(CpPlan::Recursive { src: 3, dest: 4 })
        }
    } else {
        if a.len() < 4 {
            Err(UtilError::Validation)
        } else {
            Ok(CpPlan::Single { src: 2, dest: 3 })
        }
    }
}

/// Reads a `cp` argument vector, per [`spec_cp_plan`].
pub fn cp_plan(args: &Vec<String>) -> (r: Result<CpPlan, UtilError>)
    ensures
        r == spec_cp_plan(args.deep_view()),
{
    if args.len() <= 2 {
        Err(UtilError::Validation)
    } else if is_rec_flag_exec(&args[2]) {
        if args.len() < 5 {
            Err(UtilError::Validation)
        } else {
            Ok(CpPlan::Recursive { src: 3, dest: 4 })
        }
    } else {
        if args.len() < 4 {
            Err(UtilError::Validation)
        } else {
            Ok(CpPlan::Single { src: 2, dest: 3 })
        }
    }
}

/// The path with its trailing slashes removed.
pub open spec fn trim_trailing_slashes(p: Seq<char>) -> Seq<char>
    decreases p.len(),
{
    if p.len() > 0 && p.last() == '/' {
        trim_trailing_slashes(p.drop_last())
    } else {
        p
    }
}

/// The characters after the last slash.
pub open spec fn tail_component(p: Seq<char>) -> Seq<char>
    decreases p.len(),
{
    if p.len() == 0 {
        Seq::empty()
    } else if p.last() == '/' {
        Seq::empty()
    } else {
        tail_component(p.drop_last()).push(p.last())
    }
}

/// The base name a copy files its source under: the last path component,
/// trailing slashes ignored; a path with no such component — empty, the
/// root, or one ending in `.` or `..` — has none.
pub open spec fn spec_base_name(p: Seq<char>) -> Option<Seq<char>> {
    let b = tail_component(trim_trailing_slashes(p));
    if b.len() == 0 || b == seq!['.'] || b == seq!['.', '.'] {
        None
    } else {
        Some(b)
    }
}

/// Extracts the base name of a path, per [`spec_base_name`].
pub fn base_name(p: &str) -> (r: Option<String>)
    ensures
        (match r {
            Some(b) => spec_base_name(p@) == Some(b@),
            None => spec_base_name(p@) is None,
        }),
{
    let n = p.unicode_len();
    let mut end: usize = n;
    proof {
        assert(p@.take(n as int) =~= p@);
    }
    while end > 0 && p.get_char(end - 1) == '/'
        invariant
            end <= n,
            n == p@.len(),
            trim_trailing_slashes(p@) == trim_trailing_slashes(p@.take(end as int)),
        decreases end,
    {
        proof {
            assert(p@.take(end as int).drop_last() =~= p@.take(end - 1));
        }
        end -= 1;
    }
    proof {
        if end > 0 {
            assert(p@.take(end as int).last() == p@[end - 1]);
        }
        assert(trim_trailing_slashes(p@.take(end as int)) == p@.take(end as int));
    }
    let mut start: usize = end;
    while start > 0 && p.get_char(start - 1) != '/'
        invariant
            start <= end,
            end <= n,
            n == p@.len(),
            tail_component(p@.take(end as int)) == tail_component(p@.take(start as int))
                + p@.subrange(start as int, end as int),
        decreases start,
    {
        proof {
            assert(p@.take(start as int).drop_last() =~= p@.take(start - 1));
            assert(tail_component(p@.take(start as int)) == tail_component(
                p@.take(start - 1),
            ).push(p@[start - 1]));
            assert(tail_component(p@.take(start - 1)).push(p@[start - 1]) + p@.subrange(
                start as int,
                end as int,
            ) =~= tail_component(p@.take(start - 1)) + p@.subrange(start - 1, end as int));
        }
        start -= 1;
    }
    proof {
        assert(tail_component(p@.take(start as int)) =~= Seq::<char>::empty());
        assert(tail_component(p@.take(end as int)) =~= p@.subrange(start as int, end as int));
    }
    let len = end - start;
    if len == 0 {
        return None;
    }
    let b = p.substring_char(start, end);
    if len == 1 && b.get_char(0) == '.' {
        proof {
            assert(b@ =~= seq!['.']);
        }
        return None;
    }
    if len == 2 && b.get_char(0) == '.' && b.get_char(1) == '.' {
        proof {
            assert(b@ =~= seq!['.', '.']);
        }
        return None;
    }
    proof {
        assert(b@ != seq!['.'] && b@ != seq!['.', '.']) by {
            if b@ == seq!['.'] {
                assert(b@.len() == 1 && b@[0] == '.');
            }
            if b@ == seq!['.', '.'] {
                assert(b@.len() == 2 && b@[0] == '.' && b@[1] == '.');
            }
        }
    }
    Some(b.to_owned())
}

/// The path `dir/name`.
pub fn join_path(dir: &str, name: &str) -> (r: String)
    ensures
        r@ == dir@ + seq!['/'] + name@,
{
    proof {
        reveal_strlit("/");
    }
    let mut out = dir.to_owned();
    out.append("/");
    out.append(name);
    proof {
        assert(out@ =~= dir@ + seq!['/'] + name@);
    }
    out
}

/// Whether a `chmod` argument vector is acceptable: it needs an expression
/// and a path, and an expression opening with a dash is refused as an
/// unknown option.
pub open spec fn spec_chmod_args_ok(a: Seq<Seq<char>>) -> bool {
    a.len() >= 4 && !(a[2].len() > 0 && a[2][0] == '-')
}

/// Checks a `chmod` argument vector, per [`spec_chmod_args_ok`].
pub fn chmod_args_ok(args: &Vec<String>) -> (r: bool)
    ensures
        r == spec_chmod_args_ok(args.deep_view()),
{
    args.len() >= 4 && !starts_with_dash(&args[2])
}

/// The path a single `cp` writes to: into an existing directory, the
/// source filed under its own base name — a source with none is a
/// validation error — and otherwise the destination path itself.
pub open spec fn spec_cp_single_target(src: Seq<char>, dest: Seq<char>, dest_is_dir: bool) -> Result<
    Seq<char>,
    UtilError,
> {
    if !dest_is_dir {
        Ok(dest)
    } else {
        match spec_base_name(src) {
            None => Err(UtilError::Validation),
            Some(b) => Ok(dest + seq!['/'] + b),
        }
    }
}

/// Picks the target path of a single `cp`, per [`spec_cp_single_target`].
pub fn cp_single_target(src: &str, dest: &str, dest_is_dir: bool) -> (r: Result<String, UtilError>)
    ensures
        (match r {
            Ok(t) => spec_cp_single_target(src@, dest@, dest_is_dir) == Ok::<Seq<char>, UtilError>(
                t@,
            ),
            Err(e) => spec_cp_single_target(src@, dest@, dest_is_dir) == Err::<
                Seq<char>,
                UtilError,
            >(e),
        }),
{
    if !dest_is_dir {
        Ok(dest.to_owned())
    } else {
        match base_name(src) {
            None => Err(UtilError::Validation),
            Some(b) => Ok(join_path(dest, b.as_str())),
        }
    }
}

} // verus!
