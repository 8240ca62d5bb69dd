//! Arguments of the program.

use crate::text;
use crate::text::same_text;
use vstd::prelude::*;

verus! {

/// The arguments with the command `analyze` where the first of them is the option
/// `--analyze`. The name of the program stands before the arguments.
pub open spec fn compatible(args: Seq<Seq<char>>) -> Seq<Seq<char>> {
    if args.len() > 1 && args[1] == "--analyze"@ {
        args.update(1, "analyze"@)
    } else {
        args
    }
}

pub fn compat_args(args: Vec<String>) -> (out: Vec<String>)
    ensures
        text::texts_view(out@) == compatible(text::texts_view(args@)),
{
    let mut out: Vec<String> = args;
    if out.len() > 1 && same_text(&out[1], "--analyze") {
        out.set(1, "analyze".to_owned());
    }
    assert(text::texts_view(out@) =~= compatible(text::texts_view(args@)));
    out
}

/// The command takes the place of the option, and every other argument stays as it is: the
/// name of the program, what stands behind the option, and the option where it does not come
/// first.
pub proof fn only_the_first_option_is_replaced(args: Seq<Seq<char>>, i: int)
    requires
        0 <= i < args.len(),
    ensures
        compatible(args).len() == args.len(),
        i == 1 && args[i] == "--analyze"@ ==> compatible(args)[i] == "analyze"@,
        i != 1 || args[i] != "--analyze"@ ==> compatible(args)[i] == args[i],
        compatible(compatible(args)) == compatible(args),
{
    reveal_strlit("analyze");
    reveal_strlit("--analyze");
    assert("analyze"@.len() == 7 && "--analyze"@.len() == 9);
    assert(compatible(compatible(args)) =~= compatible(args));
}

} // verus!
