//! Command dispatch and exit-code accumulation.
//!
//! The dispatcher is a two-level decision: the top-level command name, then
//! for the compound commands a subcommand token. It only decides — what to
//! run, or which argument error to report — and leaves running and printing
//! to the caller. A batch of engine invocations reports the last non-zero
//! exit code, or zero when every step succeeded.

use vstd::prelude::*;

use crate::text::{str_eq, str_views};

verus! {

/// What a top-level invocation asks for.
pub enum TopCommand {
    Usage,
    Shell(String),
    ShellArgError,
    Ps,
    PsArgError,
    Rm(Vec<String>),
    RmArgError,
    Sys(Vec<String>),
    Vol(Vec<String>),
    Im(Vec<String>),
    Ots(Vec<String>),
    Unknown(String),
}

/// The view of a top-level decision.
pub enum TopCommandView {
    Usage,
    Shell(Seq<char>),
    ShellArgError,
    Ps,
    PsArgError,
    Rm(Seq<Seq<char>>),
    RmArgError,
    Sys(Seq<Seq<char>>),
    Vol(Seq<Seq<char>>),
    Im(Seq<Seq<char>>),
    Ots(Seq<Seq<char>>),
    Unknown(Seq<char>),
}

/// The view of an executable top-level decision.
pub open spec fn top_view(c: TopCommand) -> TopCommandView {
    match c {
        TopCommand::Usage => TopCommandView::Usage,
        TopCommand::Shell(t) => TopCommandView::Shell(t@),
        TopCommand::ShellArgError => TopCommandView::ShellArgError,
        TopCommand::Ps => TopCommandView::Ps,
        TopCommand::PsArgError => TopCommandView::PsArgError,
        TopCommand::Rm(v) => TopCommandView::Rm(str_views(v@)),
        TopCommand::RmArgError => TopCommandView::RmArgError,
        TopCommand::Sys(v) => TopCommandView::Sys(str_views(v@)),
        TopCommand::Vol(v) => TopCommandView::Vol(str_views(v@)),
        TopCommand::Im(v) => TopCommandView::Im(str_views(v@)),
        TopCommand::Ots(v) => TopCommandView::Ots(str_views(v@)),
        TopCommand::Unknown(t) => TopCommandView::Unknown(t@),
    }
}

/// The decision the argument list (without the program name) calls for.
pub open spec fn spec_dispatch(args: Seq<Seq<char>>) -> TopCommandView {
    if args.len() == 0 {
        TopCommandView::Usage
    } else {
        let cmd = args[0];
        let rest = args.skip(1);
        if cmd == "shell"@ {
            if rest.len() != 1 {
                TopCommandView::ShellArgError
            } else {
                TopCommandView::Shell(rest[0])
            }
        } else if cmd == "ps"@ {
            if rest.len() != 0 {
                TopCommandView::PsArgError
            } else {
                TopCommandView::Ps
            }
        } else if cmd == "rm"@ {
            if rest.len() == 0 {
                TopCommandView::RmArgError
            } else {
                TopCommandView::Rm(rest)
            }
        } else if cmd == "sys"@ {
            TopCommandView::Sys(rest)
        } else if cmd == "vol"@ {
            TopCommandView::Vol(rest)
        } else if cmd == "im"@ {
            TopCommandView::Im(rest)
        } else if cmd == "ots"@ {
            TopCommandView::Ots(rest)
        } else {
            TopCommandView::Unknown(cmd)
        }
    }
}

/// Fresh copies of the arguments from `from` on.
pub fn clone_tail(args: &Vec<String>, from: usize) -> (r: Vec<String>)
    requires
        from <= args@.len(),
    ensures
        str_views(r@) == str_views(args@).skip(from as int),
{
    let mut r: Vec<String> = Vec::new();
    let mut i = from;
    while i < args.len()
        invariant
            from <= i <= args@.len(),
            r@.len() == i - from,
            forall|j: int| 0 <= j < i - from ==> #[trigger] r@[j]@ == args@[from + j]@,
        decreases args@.len() - i,
    {
        r.push(args[i].clone());
        i += 1;
    }
    proof {
        assert(str_views(r@) =~= str_views(args@).skip(from as int));
    }
    r
}

/// Decide what the argument list (without the program name) asks for.
pub fn dispatch(args: &Vec<String>) -> (r: TopCommand)
    ensures
        top_view(r) == spec_dispatch(str_views(args@)),
{
    if args.len() == 0 {
        return TopCommand::Usage;
    }
    let cmd = &args[0];
    let ghost rest = str_views(args@).skip(1);
    if str_eq(cmd.as_str(), "shell") {
        if args.len() != 2 {
            TopCommand::ShellArgError
        } else {
            TopCommand::Shell(args[1].clone())
        }
    } else if str_eq(cmd.as_str(), "ps") {
        if args.len() != 1 {
            TopCommand::PsArgError
        } else {
            TopCommand::Ps
        }
    } else if str_eq(cmd.as_str(), "rm") {
        if args.len() == 1 {
            TopCommand::RmArgError
        } else {
            TopCommand::Rm(clone_tail(args, 1))
        }
    } else if str_eq(cmd.as_str(), "sys") {
        TopCommand::Sys(clone_tail(args, 1))
    } else if str_eq(cmd.as_str(), "vol") {
        TopCommand::Vol(clone_tail(args, 1))
    } else if str_eq(cmd.as_str(), "im") {
        TopCommand::Im(clone_tail(args, 1))
    } else if str_eq(cmd.as_str(), "ots") {
        TopCommand::Ots(clone_tail(args, 1))
    } else {
        TopCommand::Unknown(cmd.clone())
    }
}

/// What a volume invocation asks for.
pub enum VolCommand {
    Show,
    Rm(Vec<String>),
    RmArgError,
    Unknown(String),
}

/// The view of a volume decision.
pub enum VolCommandView {
    Show,
    Rm(Seq<Seq<char>>),
    RmArgError,
    Unknown(Seq<char>),
}

/// The view of an executable volume decision.
pub open spec fn vol_view(c: VolCommand) -> VolCommandView {
    match c {
        VolCommand::Show => VolCommandView::Show,
        VolCommand::Rm(v) => VolCommandView::Rm(str_views(v@)),
        VolCommand::RmArgError => VolCommandView::RmArgError,
        VolCommand::Unknown(t) => VolCommandView::Unknown(t@),
    }
}

/// The decision a volume argument list calls for: nothing lists, `rm`
/// needs at least one target.
pub open spec fn spec_vol_dispatch(args: Seq<Seq<char>>) -> VolCommandView {
    if args.len() == 0 {
        VolCommandView::Show
    } else if args[0] == "rm"@ {
        if args.len() < 2 {
            VolCommandView::RmArgError
        } else {
            VolCommandView::Rm(args.skip(1))
        }
    } else {
        VolCommandView::Unknown(args[0])
    }
}

/// Decide what a volume argument list asks for.
pub fn vol_dispatch(args: &Vec<String>) -> (r: VolCommand)
    ensures
        vol_view(r) == spec_vol_dispatch(str_views(args@)),
{
    if args.len() == 0 {
        return VolCommand::Show;
    }
    if str_eq(args[0].as_str(), "rm") {
        if args.len() < 2 {
            VolCommand::RmArgError
        } else {
            VolCommand::Rm(clone_tail(args, 1))
        }
    } else {
        VolCommand::Unknown(args[0].clone())
    }
}

/// What an image invocation asks for.
pub enum ImCommand {
    Show,
    Rm(Vec<String>),
    RmArgError,
    Save(Vec<String>),
    SaveArgError,
    Load(Vec<String>),
    LoadArgError,
    Scan(Vec<String>),
    ScanArgError,
    Unknown(String),
}

/// The view of an image decision.
pub enum ImCommandView {
    Show,
    Rm(Seq<Seq<char>>),
    RmArgError,
    Save(Seq<Seq<char>>),
    SaveArgError,
    Load(Seq<Seq<char>>),
    LoadArgError,
    Scan(Seq<Seq<char>>),
    ScanArgError,
    Unknown(Seq<char>),
}

/// The view of an executable image decision.
pub open spec fn im_view(c: ImCommand) -> ImCommandView {
    match c {
        ImCommand::Show => ImCommandView::Show,
        ImCommand::Rm(v) => ImCommandView::Rm(str_views(v@)),
        ImCommand::RmArgError => ImCommandView::RmArgError,
        ImCommand::Save(v) => ImCommandView::Save(str_views(v@)),
        ImCommand::SaveArgError => ImCommandView::SaveArgError,
        ImCommand::Load(v) => ImCommandView::Load(str_views(v@)),
        ImCommand::LoadArgError => ImCommandView::LoadArgError,
        ImCommand::Scan(v) => ImCommandView::Scan(str_views(v@)),
        ImCommand::ScanArgError => ImCommandView::ScanArgError,
        ImCommand::Unknown(t) => ImCommandView::Unknown(t@),
    }
}

/// The decision an image argument list calls for: nothing lists, each
/// subcommand needs at least one target.
pub open spec fn spec_im_dispatch(args: Seq<Seq<char>>) -> ImCommandView {
    if args.len() == 0 {
        ImCommandView::Show
    } else {
        let sub = args[0];
        let rest = args.skip(1);
        if sub == "rm"@ {
            if rest.len() == 0 {
                ImCommandView::RmArgError
            } else {
                ImCommandView::Rm(rest)
            }
        } else if sub == "save"@ {
            if rest.len() == 0 {
                ImCommandView::SaveArgError
            } else {
                ImCommandView::Save(rest)
            }
        } else if sub == "load"@ {
            if rest.len() == 0 {
                ImCommandView::LoadArgError
            } else {
                ImCommandView::Load(rest)
            }
        } else if sub == "scan"@ {
            if rest.len() == 0 {
                ImCommandView::ScanArgError
            } else {
                ImCommandView::Scan(rest)
            }
        } else {
            ImCommandView::Unknown(sub)
        }
    }
}

/// Decide what an image argument list asks for.
pub fn im_dispatch(args: &Vec<String>) -> (r: ImCommand)
    ensures
        im_view(r) == spec_im_dispatch(str_views(args@)),
{
    if args.len() == 0 {
        return ImCommand::Show;
    }
    let sub = &args[0];
    if str_eq(sub.as_str(), "rm") {
        if args.len() == 1 {
            ImCommand::RmArgError
        } else {
            ImCommand::Rm(clone_tail(args, 1))
        }
    } else if str_eq(sub.as_str(), "save") {
        if args.len() == 1 {
            ImCommand::SaveArgError
        } else {
            ImCommand::Save(clone_tail(args, 1))
        }
    } else if str_eq(sub.as_str(), "load") {
        if args.len() == 1 {
            ImCommand::LoadArgError
        } else {
            ImCommand::Load(clone_tail(args, 1))
        }
    } else if str_eq(sub.as_str(), "scan") {
        if args.len() == 1 {
            ImCommand::ScanArgError
        } else {
            ImCommand::Scan(clone_tail(args, 1))
        }
    } else {
        ImCommand::Unknown(sub.clone())
    }
}

/// What a system invocation asks for.
pub enum SysCommand {
    Show,
    Prune,
    Size,
    Unknown(String),
}

/// The view of a system decision.
pub enum SysCommandView {
    Show,
    Prune,
    Size,
    Unknown(Seq<char>),
}

/// The view of an executable system decision.
pub open spec fn sys_view(c: SysCommand) -> SysCommandView {
    match c {
        SysCommand::Show => SysCommandView::Show,
        SysCommand::Prune => SysCommandView::Prune,
        SysCommand::Size => SysCommandView::Size,
        SysCommand::Unknown(t) => SysCommandView::Unknown(t@),
    }
}

/// The decision a system argument list calls for: nothing shows the
/// extended report.
pub open spec fn spec_sys_dispatch(args: Seq<Seq<char>>) -> SysCommandView {
    if args.len() == 0 {
        SysCommandView::Show
    } else if args[0] == "show"@ {
        SysCommandView::Show
    } else if args[0] == "prune"@ {
        SysCommandView::Prune
    } else if args[0] == "size"@ {
        SysCommandView::Size
    } else {
        SysCommandView::Unknown(args[0])
    }
}

/// Decide what a system argument list asks for.
pub fn sys_dispatch(args: &Vec<String>) -> (r: SysCommand)
    ensures
        sys_view(r) == spec_sys_dispatch(str_views(args@)),
{
    if args.len() == 0 {
        return SysCommand::Show;
    }
    if str_eq(args[0].as_str(), "show") {
        SysCommand::Show
    } else if str_eq(args[0].as_str(), "prune") {
        SysCommand::Prune
    } else if str_eq(args[0].as_str(), "size") {
        SysCommand::Size
    } else {
        SysCommand::Unknown(args[0].clone())
    }
}

/// What a service invocation asks for.
pub enum OtsCommand {
    Usage,
    Up(Vec<String>),
    UpArgError,
    Down(Vec<String>),
    DownArgError,
    Unknown(String),
}

/// The view of a service decision.
pub enum OtsCommandView {
    Usage,
    Up(Seq<Seq<char>>),
    UpArgError,
    Down(Seq<Seq<char>>),
    DownArgError,
    Unknown(Seq<char>),
}

/// The view of an executable service decision.
pub open spec fn ots_view_of(c: OtsCommand) -> OtsCommandView {
    match c {
        OtsCommand::Usage => OtsCommandView::Usage,
        OtsCommand::Up(v) => OtsCommandView::Up(str_views(v@)),
        OtsCommand::UpArgError => OtsCommandView::UpArgError,
        OtsCommand::Down(v) => OtsCommandView::Down(str_views(v@)),
        OtsCommand::DownArgError => OtsCommandView::DownArgError,
        OtsCommand::Unknown(t) => OtsCommandView::Unknown(t@),
    }
}

/// The decision a service argument list calls for: nothing prints usage,
/// `up` and `down` need at least one name.
pub open spec fn spec_ots_dispatch(args: Seq<Seq<char>>) -> OtsCommandView {
    if args.len() == 0 {
        OtsCommandView::Usage
    } else {
        let sub = args[0];
        let rest = args.skip(1);
        if sub == "up"@ {
            if rest.len() == 0 {
                OtsCommandView::UpArgError
            } else {
                OtsCommandView::Up(rest)
            }
        } else if sub == "down"@ {
            if rest.len() == 0 {
                OtsCommandView::DownArgError
            } else {
                OtsCommandView::Down(rest)
            }
        } else {
            OtsCommandView::Unknown(sub)
        }
    }
}

/// Decide what a service argument list asks for.
pub fn ots_dispatch(args: &Vec<String>) -> (r: OtsCommand)
    ensures
        ots_view_of(r) == spec_ots_dispatch(str_views(args@)),
{
    if args.len() == 0 {
        return OtsCommand::Usage;
    }
    let sub = &args[0];
    if str_eq(sub.as_str(), "up") {
        if args.len() == 1 {
            OtsCommand::UpArgError
        } else {
            OtsCommand::Up(clone_tail(args, 1))
        }
    } else if str_eq(sub.as_str(), "down") {
        if args.len() == 1 {
            OtsCommand::DownArgError
        } else {
            OtsCommand::Down(clone_tail(args, 1))
        }
    } else {
        OtsCommand::Unknown(sub.clone())
    }
}

/// The last non-zero code of a batch, or zero when every step succeeded.
pub open spec fn spec_last_nonzero(codes: Seq<i32>) -> i32
    decreases codes.len(),
{
    if codes.len() == 0 {
        0
    } else if codes.last() != 0 {
        codes.last()
    } else {
        spec_last_nonzero(codes.drop_last())
    }
}

/// Fold a batch's exit codes into the code the tool reports.
pub fn last_nonzero(codes: &Vec<i32>) -> (r: i32)
    ensures
        r == spec_last_nonzero(codes@),
{
    let mut r: i32 = 0;
    let mut i: usize = 0;
    proof {
        assert(codes@.take(0) =~= Seq::<i32>::empty());
    }
    while i < codes.len()
        invariant
            0 <= i <= codes@.len(),
            r == spec_last_nonzero(codes@.take(i as int)),
        decreases codes@.len() - i,
    {
        if codes[i] != 0 {
            r = codes[i];
        }
        proof {
            assert(codes@.take(i + 1).last() == codes@[i as int]);
            assert(codes@.take(i + 1).drop_last() =~= codes@.take(i as int));
        }
        i += 1;
    }
    proof {
        assert(codes@.take(codes@.len() as int) =~= codes@);
    }
    r
}

} // verus!
