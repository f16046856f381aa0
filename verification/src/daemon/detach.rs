//! Putting the daemon into the background: the arguments the background copy
//! of the binary is run with.

use crate::native::{copy_bytes, native_parent, raw, same_bytes, NativePath};
use vstd::prelude::*;
use vstd::utf8::encode_utf8;

verus! {

/// Environment marker telling the background copy that it is one, so it runs
/// the daemon instead of starting another copy.
pub const ALREADY_DETACHED: &'static str = "NIGHTCROW_DETACHED";

/// Whether an argument would send the copy to the background again, or make it
/// attach.
pub open spec fn stays_here(arg: Seq<u8>) -> bool {
    arg == encode_utf8("-d"@) || arg == encode_utf8("--detach"@) || arg == encode_utf8("attach"@)
}

/// Whether the process is the background copy, given whether the marker is
/// set in its environment.
pub fn is_detached_child(marker_set: bool) -> (r: bool)
    ensures
        r == marker_set,
{
    marker_set
}

/// The arguments to hand the background copy: everything this one got, minus
/// the flag that sent it there, which would make it detach again and again,
/// and minus `attach`. The background copy is always the daemon; attaching
/// happens in the copy that stays.
pub fn child_args(args: &Vec<Vec<u8>>) -> (r: Vec<Vec<u8>>)
    ensures
        raw(r@) == raw(args@).filter(|a: Seq<u8>| !stays_here(a)),
{
    let ghost all = raw(args@);
    let ghost keep = |a: Seq<u8>| !stays_here(a);
    let mut out: Vec<Vec<u8>> = Vec::new();
    let mut i: usize = 0;
    proof {
        reveal(Seq::filter);
        assert(all.take(0) =~= Seq::<Seq<u8>>::empty());
        assert(raw(out@) =~= Seq::<Seq<u8>>::empty());
    }
    while i < args.len()
        invariant
            i <= args@.len(),
            all == raw(args@),
            keep == (|a: Seq<u8>| !stays_here(a)),
            raw(out@) == all.take(i as int).filter(keep),
        decreases args.len() - i,
    {
        let ghost before = raw(out@);
        proof {
            assert(all.take(i + 1) =~= all.take(i as int).push(all[i as int]));
            all.take(i as int).lemma_filter_push(all[i as int], keep);
        }
        let arg = args[i].as_slice();
        if !same_bytes(arg, "-d") && !same_bytes(arg, "--detach") && !same_bytes(arg, "attach") {
            out.push(copy_bytes(arg));
            proof {
                assert(raw(out@) =~= before.push(all[i as int]));
            }
        }
        i += 1;
    }
    proof {
        assert(all.take(i as int) =~= all);
    }
    out
}

/// How the background copy is run.
#[derive(Debug)]
pub struct BackgroundCommand {
    /// The directory to make first, for the file its output goes to.
    pub log_dir: Option<NativePath>,
    /// What its output is appended to.
    pub log: NativePath,
    pub program: NativePath,
    pub args: Vec<Vec<u8>>,
    /// Set in its environment, to 1.
    pub marker: &'static str,
}

/// How `exe` is run in the background with the arguments this copy got. Its
/// input is closed, its output and its errors are both appended to the log, and
/// it gets a session of its own.
pub fn background_command(exe: &NativePath, args: &Vec<Vec<u8>>, log_path: &NativePath) -> (r:
    BackgroundCommand)
    ensures
        match r.log_dir {
            Some(dir) => native_parent(log_path@) == Some(dir@),
            None => native_parent(log_path@) is None,
        },
        r.log@ == log_path@,
        r.program@ == exe@,
        raw(r.args@) == raw(args@).filter(|a: Seq<u8>| !stays_here(a)),
        r.marker@ == ALREADY_DETACHED@,
{
    BackgroundCommand {
        log_dir: log_path.parent(),
        log: log_path.duplicate(),
        program: exe.duplicate(),
        args: child_args(args),
        marker: ALREADY_DETACHED,
    }
}

/// The background copy is never sent to the background again.
pub proof fn law_background_copy_stays(args: Seq<Seq<u8>>, i: int)
    requires
        0 <= i < args.filter(|a: Seq<u8>| !stays_here(a)).len(),
    ensures
        !stays_here(args.filter(|a: Seq<u8>| !stays_here(a))[i]),
{
    args.lemma_filter_pred(|a: Seq<u8>| !stays_here(a), i);
}

/// A background copy is started with every argument of this one, in order, but
/// those that would send it to the background again or attach it.
pub proof fn law_background_copy_keeps_the_other_arguments(
    first: Seq<Seq<u8>>,
    arg: Seq<u8>,
    second: Seq<Seq<u8>>,
)
    ensures
        ({
            let kept = |a: Seq<u8>| !stays_here(a);
            let dropped = arg == encode_utf8("-d"@) || arg == encode_utf8("--detach"@) || arg
                == encode_utf8("attach"@);
            (first.push(arg) + second).filter(kept) == first.filter(kept) + if dropped {
                Seq::<Seq<u8>>::empty()
            } else {
                seq![arg]
            } + second.filter(kept)
        }),
{
    let kept = |a: Seq<u8>| !stays_here(a);
    Seq::<Seq<u8>>::filter_distributes_over_add(first.push(arg), second, kept);
    reveal(Seq::filter);
    assert(first.push(arg).drop_last() =~= first);
    assert(first.push(arg).last() == arg);
    assert(first.push(arg).filter(kept) =~= first.filter(kept) + if kept(arg) {
        seq![arg]
    } else {
        Seq::<Seq<u8>>::empty()
    });
}

} // verus!
