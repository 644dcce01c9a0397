use vstd::prelude::*;

verus! {

/// Name of the shell used to run auxiliary build commands on this host.
pub fn get_os_process() -> (r: String)
    ensures
        r@ == "/bin/bash"@,
{
    String::from_str("/bin/bash")
}

/// The single command line a shell receives: the arguments joined by
/// spaces.
pub open spec fn joined(args: Seq<String>, i: int) -> Seq<char>
    decreases args.len() - i,
{
    if i < 0 || i >= args.len() {
        Seq::empty()
    } else if i == args.len() - 1 {
        args[i]@
    } else {
        args[i]@ + seq![' '] + joined(args, i + 1)
    }
}

/// Join command arguments with single spaces, as the shell expects them.
pub fn shell_command_line(args: &Vec<String>) -> (r: String)
    ensures
        r@ == joined(args@, 0),
{
    if args.len() == 0 {
        proof {
            reveal_strlit("");
        }
        return String::new();
    }
    let n = args.len();
    let mut out = args[n - 1].clone();
    let mut i: usize = n - 1;
    while i > 0
        invariant
            1 <= n == args@.len(),
            0 <= i <= n - 1,
            out@ == joined(args@, i as int),
        decreases i,
    {
        let sep = String::from_str(" ");
        let mut piece = args[i - 1].clone();
        piece.append(sep.as_str());
        piece.append(out.as_str());
        proof {
            reveal_strlit(" ");
            assert(sep@ =~= seq![' ']);
            assert(piece@ =~= args@[i - 1]@ + seq![' '] + joined(args@, i as int));
        }
        out = piece;
        i = i - 1;
    }
    out
}

} // verus!
