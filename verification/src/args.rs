//! The command line of the server.
use vstd::prelude::*;
use crate::text::same_text;

verus! {

/// The command line names a directory to serve: it has at least three
/// arguments and the second is `--directory`.
pub open spec fn names_directory(args: Seq<Seq<char>>) -> bool {
    args.len() >= 3 && args[1] == "--directory"@
}

/// The directory to serve files from: the third argument when the second is
/// `--directory`; `None` when there are fewer than three arguments or the
/// second is something else.
pub fn read_args(args: Vec<String>) -> (r: Option<String>)
    ensures
        match r {
            Some(dir) => names_directory(args.deep_view()) && dir@ == args@[2]@,
            None => !names_directory(args.deep_view()),
        },
{
    assert(args.deep_view().len() == args@.len());
    if args.len() < 3 {
        None
    } else if same_text(args[1].as_str(), "--directory") {
        assert(args.deep_view()[1] == args@[1]@);
        Some(args[2].clone())
    } else {
        assert(args.deep_view()[1] == args@[1]@);
        None
    }
}

} // verus!
